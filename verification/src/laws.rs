//! What the operations are for, said of their inputs and results alone.
pub mod asking;
pub mod carrying_out;
pub mod context_form;
pub mod deciding;
pub mod finding;
pub mod following;
pub mod labels;
pub mod looking_first;
pub mod naming;
pub mod normal_form;
pub mod placing;
pub mod saving;
pub mod scripts;
pub mod unified_form;
pub mod wording;
