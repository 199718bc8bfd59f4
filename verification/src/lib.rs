//! Reading patch files and applying them to text.
pub mod apply;
pub mod backup;
pub mod context;
pub mod ed;
pub mod header;
pub mod laws;
pub mod links;
pub mod mode;
pub mod model;
pub mod normal;
pub mod number;
pub mod options;
pub mod parse;
pub mod paths;
pub mod pattern;
pub mod preflight;
pub mod readback;
pub mod reject;
pub mod report;
pub mod run;
pub mod session;
pub mod store;
pub mod text;
pub mod undo;
pub mod unified;
