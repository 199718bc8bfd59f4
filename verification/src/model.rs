//! The parts of a patch, and the values that contracts speak of in their
//! place.
use vstd::prelude::*;

use crate::text::{opt_text, texts};

verus! {

/// The three forms of a diff.
#[derive(Debug, Clone, Copy, PartialEq, Eq, Structural)]
pub enum DiffFormat {
    Unified,
    Context,
    Normal,
}

/// One line of a hunk, without its marker.
#[derive(Debug)]
pub enum HunkLine {
    Context(String),
    Remove(String),
    Add(String),
}

/// A block of changed lines with the place where it belongs.
#[derive(Debug)]
pub struct Hunk {
    pub old_start: usize,
    pub old_count: usize,
    pub new_start: usize,
    pub new_count: usize,
    /// Text after the range, such as the name of a function.
    pub header_suffix: String,
    pub lines: Vec<HunkLine>,
}

/// What the extended header of a git diff says.
#[derive(Debug)]
pub struct GitMeta {
    pub new_file_mode: Option<u32>,
    pub deleted_file_mode: Option<u32>,
    pub old_mode: Option<u32>,
    pub new_mode: Option<u32>,
    /// The mode on an `index` line. It tells what kind of file this is and is
    /// never applied as a change.
    pub index_mode: Option<u32>,
    pub rename_from: Option<String>,
    pub rename_to: Option<String>,
    pub copy_from: Option<String>,
    pub copy_to: Option<String>,
    /// The header says only that two binary files differ.
    pub binary_summary: bool,
    /// Binary content follows the header. It is not read, and the file is left
    /// as it is.
    pub binary_payload: bool,
}

/// The changes to one file.
#[derive(Debug)]
pub struct FilePatch {
    pub old_file: String,
    pub new_file: String,
    /// The text after the header's marker, label and all.
    pub old_header: String,
    pub new_header: String,
    /// The `Index:` line, when there is one.
    pub index_line: Option<String>,
    pub hunks: Vec<Hunk>,
    pub format: DiffFormat,
    pub git: GitMeta,
}

/// Why a patch cannot be read.
#[derive(Debug, Clone, Copy, PartialEq, Eq, Structural)]
pub enum PatchError {
    /// A line number or a count is not an ASCII number that fits a `usize`,
    /// or a range ends before it starts.
    NumberOutOfRange,
    /// The new side of a context hunk is not as long as its header says.
    MangledHunk { line: usize },
}

/// What reading a patch noticed on the way.
#[derive(Debug)]
pub struct Notes {
    /// The first line, counted from one, that does not belong in a hunk which
    /// is still short of lines.
    pub malformed: Option<(usize, String)>,
    /// The files with binary content, which is not read.
    pub binary_files: Vec<String>,
}

/// The notes with their texts.
pub struct NotesModel {
    pub malformed: Option<(usize, Seq<char>)>,
    pub binary_files: Seq<Seq<char>>,
}

impl View for Notes {
    type V = NotesModel;

    open spec fn view(&self) -> NotesModel {
        NotesModel {
            malformed: match self.malformed {
                Some((n, s)) => Some((n, s@)),
                None => None,
            },
            binary_files: texts(self.binary_files@),
        }
    }
}

impl Notes {
    /// No notes yet.
    pub fn new() -> (r: Notes)
        ensures
            r@.malformed is None,
            r@.binary_files == Seq::<Seq<char>>::empty(),
    {
        let r = Notes { malformed: None, binary_files: Vec::new() };
        assert(r@.binary_files =~= Seq::<Seq<char>>::empty());
        r
    }
}

/// The text of a hunk line, with its kind.
pub enum LineModel {
    Context(Seq<char>),
    Remove(Seq<char>),
    Add(Seq<char>),
}

/// A hunk with its texts.
pub struct HunkModel {
    pub old_start: usize,
    pub old_count: usize,
    pub new_start: usize,
    pub new_count: usize,
    pub header_suffix: Seq<char>,
    pub lines: Seq<LineModel>,
}

/// A git header with its texts.
pub struct GitModel {
    pub new_file_mode: Option<u32>,
    pub deleted_file_mode: Option<u32>,
    pub old_mode: Option<u32>,
    pub new_mode: Option<u32>,
    pub index_mode: Option<u32>,
    pub rename_from: Option<Seq<char>>,
    pub rename_to: Option<Seq<char>>,
    pub copy_from: Option<Seq<char>>,
    pub copy_to: Option<Seq<char>>,
    pub binary_summary: bool,
    pub binary_payload: bool,
}

/// The patch of a file with its texts.
pub struct PatchModel {
    pub old_file: Seq<char>,
    pub new_file: Seq<char>,
    pub old_header: Seq<char>,
    pub new_header: Seq<char>,
    pub index_line: Option<Seq<char>>,
    pub hunks: Seq<HunkModel>,
    pub format: DiffFormat,
    pub git: GitModel,
}

impl View for HunkLine {
    type V = LineModel;

    open spec fn view(&self) -> LineModel {
        match self {
            HunkLine::Context(s) => LineModel::Context(s@),
            HunkLine::Remove(s) => LineModel::Remove(s@),
            HunkLine::Add(s) => LineModel::Add(s@),
        }
    }
}

/// The models of hunk lines.
pub open spec fn line_models(lines: Seq<HunkLine>) -> Seq<LineModel> {
    Seq::new(lines.len(), |i: int| lines[i]@)
}

impl View for Hunk {
    type V = HunkModel;

    open spec fn view(&self) -> HunkModel {
        HunkModel {
            old_start: self.old_start,
            old_count: self.old_count,
            new_start: self.new_start,
            new_count: self.new_count,
            header_suffix: self.header_suffix@,
            lines: line_models(self.lines@),
        }
    }
}

/// The models of hunks.
pub open spec fn hunk_models(hunks: Seq<Hunk>) -> Seq<HunkModel> {
    Seq::new(hunks.len(), |i: int| hunks[i]@)
}

impl View for GitMeta {
    type V = GitModel;

    open spec fn view(&self) -> GitModel {
        GitModel {
            new_file_mode: self.new_file_mode,
            deleted_file_mode: self.deleted_file_mode,
            old_mode: self.old_mode,
            new_mode: self.new_mode,
            index_mode: self.index_mode,
            rename_from: opt_text(self.rename_from),
            rename_to: opt_text(self.rename_to),
            copy_from: opt_text(self.copy_from),
            copy_to: opt_text(self.copy_to),
            binary_summary: self.binary_summary,
            binary_payload: self.binary_payload,
        }
    }
}

impl View for FilePatch {
    type V = PatchModel;

    open spec fn view(&self) -> PatchModel {
        PatchModel {
            old_file: self.old_file@,
            new_file: self.new_file@,
            old_header: self.old_header@,
            new_header: self.new_header@,
            index_line: opt_text(self.index_line),
            hunks: hunk_models(self.hunks@),
            format: self.format,
            git: self.git@,
        }
    }
}

/// The models of patches.
pub open spec fn patch_models(patches: Seq<FilePatch>) -> Seq<PatchModel> {
    Seq::new(patches.len(), |i: int| patches[i]@)
}

/// A git header that says nothing.
pub open spec fn plain_git() -> GitModel {
    GitModel {
        new_file_mode: None,
        deleted_file_mode: None,
        old_mode: None,
        new_mode: None,
        index_mode: None,
        rename_from: None,
        rename_to: None,
        copy_from: None,
        copy_to: None,
        binary_summary: false,
        binary_payload: false,
    }
}

impl Default for GitMeta {
    fn default() -> (r: GitMeta)
        ensures
            r@ == plain_git(),
    {
        GitMeta {
            new_file_mode: None,
            deleted_file_mode: None,
            old_mode: None,
            new_mode: None,
            index_mode: None,
            rename_from: None,
            rename_to: None,
            copy_from: None,
            copy_to: None,
            binary_summary: false,
            binary_payload: false,
        }
    }
}

} // verus!
