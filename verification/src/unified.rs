//! Unified diffs, with or without the extended header of git.
use vstd::prelude::*;

use crate::header::{
    file_path, header_suffix, hunk_header_suffix, is_epoch_line, is_epoch_timestamp_line,
    parse_file_path, parse_unified_hunk_header, unified_header,
};
use crate::model::{
    hunk_models, line_models, plain_git, DiffFormat, FilePatch, GitMeta, GitModel, Hunk, HunkLine,
    HunkModel, LineModel, Notes, NotesModel, PatchError, PatchModel,
};
use crate::number::{octal, parse_octal};
use crate::text::{
    ends_with, has_prefix, has_suffix, opt_text, slices, split_whitespace, starts_with,
    str_eq, strip_prefix, texts, trim, trimmed, words,
};

verus! {

// ---------------------------------------------------------------------------
// Hunk bodies
// ---------------------------------------------------------------------------

/// The number of lines that hunk lines take from the old file.
pub open spec fn old_len(lines: Seq<LineModel>) -> nat
    decreases lines.len(),
{
    if lines.len() == 0 {
        0
    } else if lines.last() is Add {
        old_len(lines.drop_last())
    } else {
        old_len(lines.drop_last()) + 1
    }
}

/// The number of lines that hunk lines leave in the new file.
pub open spec fn new_len(lines: Seq<LineModel>) -> nat
    decreases lines.len(),
{
    if lines.len() == 0 {
        0
    } else if lines.last() is Remove {
        new_len(lines.drop_last())
    } else {
        new_len(lines.drop_last()) + 1
    }
}

/// The hunk lines fall short of a count in the header.
pub open spec fn has_remaining(lines: Seq<LineModel>, old_count: usize, new_count: usize) -> bool {
    old_len(lines) < old_count || new_len(lines) < new_count
}

/// The line ends the body of a unified hunk.
pub open spec fn ends_body(line: Seq<char>) -> bool {
    has_prefix(line, "@@"@) || has_prefix(line, "--- "@) || has_prefix(line, "diff "@)
}

/// A line of a unified hunk, by its first character.
pub open spec fn marked_line(line: Seq<char>) -> Option<LineModel> {
    if has_prefix(line, "-"@) {
        Some(LineModel::Remove(line.skip("-"@.len() as int)))
    } else if has_prefix(line, "+"@) {
        Some(LineModel::Add(line.skip("+"@.len() as int)))
    } else if has_prefix(line, " "@) {
        Some(LineModel::Context(line.skip(" "@.len() as int)))
    } else {
        None
    }
}

/// The notes with a malformed line, unless there is one already.
pub open spec fn with_malformed(notes: NotesModel, line: usize, text: Seq<char>) -> NotesModel {
    NotesModel {
        malformed: if notes.malformed is Some {
            notes.malformed
        } else {
            Some((line, text))
        },
        ..notes
    }
}

/// The body of a unified hunk from line `i` on, after the lines `acc`: all
/// its lines, where it ends, and the notes.
pub open spec fn unified_body(
    lines: Seq<Seq<char>>,
    i: int,
    acc: Seq<LineModel>,
    old_count: usize,
    new_count: usize,
    notes: NotesModel,
) -> (Seq<LineModel>, int, NotesModel)
    decreases lines.len() - i,
{
    if i >= lines.len() || ends_body(lines[i]) {
        (acc, i, notes)
    } else if let Some(l) = marked_line(lines[i]) {
        unified_body(lines, i + 1, acc.push(l), old_count, new_count, notes)
    } else if lines[i] == "\\ No newline at end of file"@ {
        unified_body(lines, i + 1, acc, old_count, new_count, notes)
    } else if !has_remaining(acc, old_count, new_count) {
        (acc, i, notes)
    } else if lines[i].len() == 0 {
        unified_body(
            lines,
            i + 1,
            acc.push(LineModel::Context(Seq::empty())),
            old_count,
            new_count,
            notes,
        )
    } else {
        (acc, i, with_malformed(notes, (i + 1) as usize, lines[i]))
    }
}

pub proof fn lemma_body_advances(
    lines: Seq<Seq<char>>,
    i: int,
    acc: Seq<LineModel>,
    old_count: usize,
    new_count: usize,
    notes: NotesModel,
)
    ensures
        unified_body(lines, i, acc, old_count, new_count, notes).1 >= i,
        i <= lines.len() ==> unified_body(lines, i, acc, old_count, new_count, notes).1
            <= lines.len(),
    decreases lines.len() - i,
{
    if i >= lines.len() || ends_body(lines[i]) {
    } else if let Some(l) = marked_line(lines[i]) {
        lemma_body_advances(lines, i + 1, acc.push(l), old_count, new_count, notes);
    } else if lines[i] == "\\ No newline at end of file"@ {
        lemma_body_advances(lines, i + 1, acc, old_count, new_count, notes);
    } else if !has_remaining(acc, old_count, new_count) {
    } else if lines[i].len() == 0 {
        lemma_body_advances(
            lines,
            i + 1,
            acc.push(LineModel::Context(Seq::empty())),
            old_count,
            new_count,
            notes,
        );
    }
}

/// The hunks of a unified diff from line `i` on, after the hunks `acc`: all
/// the hunks and where they end, and the notes.
pub open spec fn unified_hunks(
    lines: Seq<Seq<char>>,
    i: int,
    acc: Seq<HunkModel>,
    notes: NotesModel,
) -> (Result<(Seq<HunkModel>, int), PatchError>, NotesModel)
    decreases lines.len() - i,
{
    if i >= lines.len() || !has_prefix(lines[i], "@@"@) {
        (Ok((acc, i)), notes)
    } else {
        match unified_header(lines[i]) {
            Err(e) => (Err(e), notes),
            Ok(None) => (Ok((acc, i)), notes),
            Ok(Some((old_start, old_count, new_start, new_count))) => {
                let (body, next, notes2) = unified_body(
                    lines,
                    i + 1,
                    Seq::empty(),
                    old_count,
                    new_count,
                    notes,
                );
                let hunk = HunkModel {
                    old_start,
                    old_count,
                    new_start,
                    new_count,
                    header_suffix: header_suffix(lines[i]),
                    lines: body,
                };
                proof {
                    lemma_body_advances(lines, i + 1, Seq::empty(), old_count, new_count, notes);
                }
                unified_hunks(lines, next, acc.push(hunk), notes2)
            },
        }
    }
}

pub proof fn lemma_unified_hunks_advance(
    lines: Seq<Seq<char>>,
    i: int,
    acc: Seq<HunkModel>,
    notes: NotesModel,
)
    ensures
        unified_hunks(lines, i, acc, notes).0 matches Ok((hunks, next)) ==> {
            &&& next >= i
            &&& i <= lines.len() ==> next <= lines.len()
            &&& hunks.len() >= acc.len()
            &&& hunks.len() > acc.len() ==> next > i
        },
    decreases lines.len() - i,
{
    if i >= lines.len() || !has_prefix(lines[i], "@@"@) {
    } else if let Ok(Some((old_start, old_count, new_start, new_count))) = unified_header(
        lines[i],
    ) {
        let (body, next, notes2) = unified_body(
            lines,
            i + 1,
            Seq::empty(),
            old_count,
            new_count,
            notes,
        );
        let hunk = HunkModel {
            old_start,
            old_count,
            new_start,
            new_count,
            header_suffix: header_suffix(lines[i]),
            lines: body,
        };
        lemma_body_advances(lines, i + 1, Seq::empty(), old_count, new_count, notes);
        lemma_unified_hunks_advance(lines, next, acc.push(hunk), notes2);
    }
}

// ---------------------------------------------------------------------------
// Preambles
// ---------------------------------------------------------------------------

/// What stands before the `---` line of a unified diff.
#[derive(Debug)]
pub struct Preamble {
    pub git: GitMeta,
    pub git_a: Option<String>,
    pub git_b: Option<String>,
    pub index_line: Option<String>,
}

/// A preamble with its texts.
pub struct PreambleModel {
    pub git: GitModel,
    pub git_a: Option<Seq<char>>,
    pub git_b: Option<Seq<char>>,
    pub index_line: Option<Seq<char>>,
}

impl View for Preamble {
    type V = PreambleModel;

    open spec fn view(&self) -> PreambleModel {
        PreambleModel {
            git: self.git@,
            git_a: opt_text(self.git_a),
            git_b: opt_text(self.git_b),
            index_line: opt_text(self.index_line),
        }
    }
}

/// A preamble that says nothing.
pub open spec fn empty_preamble() -> PreambleModel {
    PreambleModel { git: plain_git(), git_a: None, git_b: None, index_line: None }
}

/// The preamble with what one more line says.
pub open spec fn noted(p: PreambleModel, line: Seq<char>) -> PreambleModel {
    if has_prefix(line, "Index: "@) {
        PreambleModel { index_line: Some(line), ..p }
    } else if has_prefix(line, "diff --git "@) {
        let names = words(line.skip("diff --git "@.len() as int));
        if names.len() == 2 {
            PreambleModel { git_a: Some(names[0]), git_b: Some(names[1]), ..p }
        } else {
            p
        }
    } else if has_prefix(line, "new file mode "@) {
        let mode = octal(trimmed(line.skip("new file mode "@.len() as int)));
        PreambleModel { git: GitModel { new_file_mode: mode, ..p.git }, ..p }
    } else if has_prefix(line, "deleted file mode "@) {
        let mode = octal(trimmed(line.skip("deleted file mode "@.len() as int)));
        PreambleModel { git: GitModel { deleted_file_mode: mode, ..p.git }, ..p }
    } else if has_prefix(line, "old mode "@) {
        let mode = octal(trimmed(line.skip("old mode "@.len() as int)));
        PreambleModel { git: GitModel { old_mode: mode, ..p.git }, ..p }
    } else if has_prefix(line, "new mode "@) {
        let mode = octal(trimmed(line.skip("new mode "@.len() as int)));
        PreambleModel { git: GitModel { new_mode: mode, ..p.git }, ..p }
    } else if has_prefix(line, "index "@) {
        let parts = words(line.skip("index "@.len() as int));
        if parts.len() >= 2 && octal(parts[1]) is Some {
            PreambleModel { git: GitModel { index_mode: octal(parts[1]), ..p.git }, ..p }
        } else {
            p
        }
    } else if has_prefix(line, "rename from "@) {
        let name = Some(line.skip("rename from "@.len() as int));
        PreambleModel { git: GitModel { rename_from: name, ..p.git }, ..p }
    } else if has_prefix(line, "rename to "@) {
        let name = Some(line.skip("rename to "@.len() as int));
        PreambleModel { git: GitModel { rename_to: name, ..p.git }, ..p }
    } else if has_prefix(line, "copy from "@) {
        let name = Some(line.skip("copy from "@.len() as int));
        PreambleModel { git: GitModel { copy_from: name, ..p.git }, ..p }
    } else if has_prefix(line, "copy to "@) {
        let name = Some(line.skip("copy to "@.len() as int));
        PreambleModel { git: GitModel { copy_to: name, ..p.git }, ..p }
    } else if has_prefix(line, "Binary files "@) && has_suffix(line, " differ"@) {
        PreambleModel { git: GitModel { binary_summary: true, ..p.git }, ..p }
    } else {
        p
    }
}

/// The preamble names a file of a git diff.
pub open spec fn names_git_file(p: PreambleModel) -> bool {
    p.git_a is Some || p.git_b is Some
}

/// How a preamble ends.
pub enum PreambleEnd {
    /// At the `---` line or the first hunk.
    Body { at: int, preamble: PreambleModel },
    /// At the next git diff or the end of the text, with no hunks.
    HeaderOnly { at: int, preamble: PreambleModel },
    /// At binary content, which goes on up to `at`.
    Binary { at: int, preamble: PreambleModel },
    /// At the end of the text, with no file named.
    Nothing,
}

/// Where binary content ends: at the next diff.
pub open spec fn payload_end(lines: Seq<Seq<char>>, i: int) -> int
    decreases lines.len() - i,
{
    if i >= lines.len() || has_prefix(lines[i], "diff --git "@) || has_prefix(lines[i], "--- "@) {
        i
    } else {
        payload_end(lines, i + 1)
    }
}

/// Reads a preamble from line `i` on, after what `p` says.
pub open spec fn preamble_from(lines: Seq<Seq<char>>, i: int, p: PreambleModel) -> PreambleEnd
    decreases lines.len() - i,
{
    if i >= lines.len() {
        if names_git_file(p) {
            PreambleEnd::HeaderOnly { at: i, preamble: p }
        } else {
            PreambleEnd::Nothing
        }
    } else if has_prefix(lines[i], "--- "@) || has_prefix(lines[i], "@@"@) {
        PreambleEnd::Body { at: i, preamble: p }
    } else if lines[i] == "GIT binary patch"@ {
        PreambleEnd::Binary { at: payload_end(lines, i + 1), preamble: p }
    } else {
        let next = noted(p, lines[i]);
        if i + 1 < lines.len() && has_prefix(lines[i + 1], "diff --git "@) && names_git_file(
            next,
        ) {
            PreambleEnd::HeaderOnly { at: i + 1, preamble: next }
        } else {
            preamble_from(lines, i + 1, next)
        }
    }
}

/// The first of the names that is there, or the empty name.
pub open spec fn first_name(
    a: Option<Seq<char>>,
    b: Option<Seq<char>>,
    c: Option<Seq<char>>,
) -> Seq<char> {
    if a is Some {
        a->0
    } else if b is Some {
        b->0
    } else if c is Some {
        c->0
    } else {
        Seq::empty()
    }
}

/// A patch without hunks.
pub open spec fn bare_patch(
    old_file: Seq<char>,
    new_file: Seq<char>,
    p: PreambleModel,
) -> PatchModel {
    PatchModel {
        old_file,
        new_file,
        old_header: old_file,
        new_header: new_file,
        index_line: p.index_line,
        hunks: Seq::empty(),
        format: DiffFormat::Unified,
        git: p.git,
    }
}

/// The patch that a git header alone describes. The names of the diff line
/// come first, then those of the rename and of the copy.
pub open spec fn header_only_patch(p: PreambleModel) -> PatchModel {
    bare_patch(
        first_name(p.git_a, p.git.rename_from, p.git.copy_from),
        first_name(p.git_b, p.git.rename_to, p.git.copy_to),
        p,
    )
}

/// The patch that stands for binary content.
pub open spec fn binary_patch(p: PreambleModel) -> PatchModel {
    bare_patch(
        first_name(p.git_a, None, None),
        first_name(p.git_b, None, None),
        PreambleModel { git: GitModel { binary_payload: true, ..p.git }, ..p },
    )
}

/// `s` without any number of `prefix` at its start.
pub open spec fn without_leading(s: Seq<char>, prefix: Seq<char>) -> Seq<char>
    decreases s.len(),
{
    if prefix.len() > 0 && has_prefix(s, prefix) {
        without_leading(s.skip(prefix.len() as int), prefix)
    } else {
        s
    }
}

/// The notes with one more binary file.
pub open spec fn with_binary(notes: NotesModel, p: PreambleModel) -> NotesModel {
    NotesModel {
        binary_files: notes.binary_files.push(
            without_leading(first_name(p.git_b, None, None), "b/"@),
        ),
        ..notes
    }
}

// ---------------------------------------------------------------------------
// File headers
// ---------------------------------------------------------------------------

/// The file and the label on a header line of four characters and a name.
pub open spec fn header_file(line: Seq<char>) -> Seq<char> {
    if is_epoch_line(line) {
        "/dev/null"@
    } else {
        file_path(line.skip(4))
    }
}

/// The file names and the labels above the hunks, and where they end.
pub struct Names {
    pub old_file: Seq<char>,
    pub new_file: Seq<char>,
    pub old_header: Seq<char>,
    pub new_header: Seq<char>,
    pub next: int,
}

/// `name`, or when it is empty `other`, if there is one.
pub open spec fn name_or(name: Seq<char>, other: Option<Seq<char>>) -> Seq<char> {
    if name.len() == 0 && other is Some {
        other->0
    } else {
        name
    }
}

/// The names at line `i`: those of the `---` and `+++` lines, and in place of
/// empty ones those of the git header.
pub open spec fn unified_names(lines: Seq<Seq<char>>, i: int, p: PreambleModel) -> Names {
    let has_old = has_prefix(lines[i], "--- "@);
    let j = if has_old {
        i + 1
    } else {
        i
    };
    let has_new = j < lines.len() && has_prefix(lines[j], "+++ "@);
    Names {
        old_file: name_or(
            if has_old {
                header_file(lines[i])
            } else {
                Seq::empty()
            },
            p.git_a,
        ),
        new_file: name_or(
            if has_new {
                header_file(lines[j])
            } else {
                Seq::empty()
            },
            p.git_b,
        ),
        old_header: if has_old {
            lines[i].skip(4)
        } else {
            Seq::empty()
        },
        new_header: if has_new {
            lines[j].skip(4)
        } else {
            Seq::empty()
        },
        next: if has_new {
            j + 1
        } else {
            j
        },
    }
}

/// A `---` or `+++` line that names the null file counts, whatever the git
/// header says.
pub proof fn law_null_header_wins(lines: Seq<Seq<char>>, i: int, p: PreambleModel)
    requires
        0 <= i,
        i + 1 < lines.len(),
        has_prefix(lines[i], "--- "@),
        has_prefix(lines[i + 1], "+++ "@),
    ensures
        header_file(lines[i]) == "/dev/null"@ ==> unified_names(lines, i, p).old_file
            == "/dev/null"@,
        header_file(lines[i + 1]) == "/dev/null"@ ==> unified_names(lines, i, p).new_file
            == "/dev/null"@,
{
    reveal_strlit("/dev/null");
}

/// What follows a preamble that ends at line `at`: the patch and where it
/// ends, or nothing. Without hunks there is a patch only below its headers, and
/// only when a hunk is malformed.
pub open spec fn unified_rest(
    lines: Seq<Seq<char>>,
    at: int,
    p: PreambleModel,
    notes: NotesModel,
) -> (Result<Option<(PatchModel, int)>, PatchError>, NotesModel) {
    let names = unified_names(lines, at, p);
    if names.old_file.len() == 0 && names.new_file.len() == 0 && (names.next >= lines.len()
        || !has_prefix(lines[names.next], "@@"@)) {
        (Ok(None), notes)
    } else {
        let (r, notes2) = unified_hunks(lines, names.next, Seq::empty(), notes);
        match r {
            Err(e) => (Err(e), notes2),
            Ok((hunks, next)) => if hunks.len() == 0 && (notes2.malformed is None || next == at) {
                (Ok(None), notes2)
            } else {
                (
                    Ok(
                        Some(
                            (
                                PatchModel {
                                    old_file: names.old_file,
                                    new_file: names.new_file,
                                    old_header: names.old_header,
                                    new_header: names.new_header,
                                    index_line: p.index_line,
                                    hunks,
                                    format: DiffFormat::Unified,
                                    git: p.git,
                                },
                                next,
                            ),
                        ),
                    ),
                    notes2,
                )
            },
        }
    }
}

/// The unified diff from line `start` on: the patch and where it ends, or
/// nothing; and the notes.
pub open spec fn unified_patch(lines: Seq<Seq<char>>, start: int, notes: NotesModel) -> (
    Result<Option<(PatchModel, int)>, PatchError>,
    NotesModel,
) {
    match preamble_from(lines, start, empty_preamble()) {
        PreambleEnd::Nothing => (Ok(None), notes),
        PreambleEnd::HeaderOnly { at, preamble } => (
            Ok(Some((header_only_patch(preamble), at))),
            notes,
        ),
        PreambleEnd::Binary { at, preamble } => (
            Ok(Some((binary_patch(preamble), at))),
            with_binary(notes, preamble),
        ),
        PreambleEnd::Body { at, preamble } => unified_rest(lines, at, preamble, notes),
    }
}

/// An empty line adds nothing to a preamble.
pub proof fn lemma_empty_line_says_nothing()
    ensures
        noted(empty_preamble(), Seq::empty()) == empty_preamble(),
{
    reveal_strlit("Index: ");
    reveal_strlit("diff --git ");
    reveal_strlit("new file mode ");
    reveal_strlit("deleted file mode ");
    reveal_strlit("old mode ");
    reveal_strlit("new mode ");
    reveal_strlit("index ");
    reveal_strlit("rename from ");
    reveal_strlit("rename to ");
    reveal_strlit("copy from ");
    reveal_strlit("copy to ");
    reveal_strlit("Binary files ");
}

proof fn lemma_payload_end(lines: Seq<Seq<char>>, i: int)
    requires
        i <= lines.len(),
    ensures
        i <= payload_end(lines, i) <= lines.len(),
    decreases lines.len() - i,
{
    if i < lines.len() && !has_prefix(lines[i], "diff --git "@) && !has_prefix(lines[i], "--- "@) {
        lemma_payload_end(lines, i + 1);
    }
}

proof fn lemma_preamble_advances(lines: Seq<Seq<char>>, i: int, p: PreambleModel)
    requires
        0 <= i <= lines.len(),
    ensures
        match preamble_from(lines, i, p) {
            PreambleEnd::Body { at, preamble } => i <= at < lines.len(),
            PreambleEnd::HeaderOnly { at, preamble } => i <= at <= lines.len() && (i < at || (i
                == lines.len() && names_git_file(p))),
            PreambleEnd::Binary { at, preamble } => i < at <= lines.len(),
            PreambleEnd::Nothing => true,
        },
    decreases lines.len() - i,
{
    if i < lines.len() {
        lemma_payload_end(lines, i + 1);
        lemma_preamble_advances(lines, i + 1, noted(p, lines[i]));
    }
}

/// A patch ends below the line that reading started at.
pub proof fn lemma_unified_patch_advances(lines: Seq<Seq<char>>, start: int, notes: NotesModel)
    requires
        0 <= start <= lines.len(),
    ensures
        unified_patch(lines, start, notes).0 matches Ok(Some((patch, next))) ==> start < next
            <= lines.len(),
{
    lemma_preamble_advances(lines, start, empty_preamble());
    if let PreambleEnd::Body { at, preamble } = preamble_from(lines, start, empty_preamble()) {
        let names = unified_names(lines, at, preamble);
        lemma_unified_hunks_advance(lines, names.next, Seq::empty(), notes);
    }
}

// ---------------------------------------------------------------------------
// Operations
// ---------------------------------------------------------------------------

/// Counts the lines that hunk lines take from the old file and those that
/// they leave in the new one.
fn count_sides(lines: &Vec<HunkLine>) -> (r: (usize, usize))
    ensures
        r.0 == old_len(line_models(lines@)),
        r.1 == new_len(line_models(lines@)),
        r.0 <= lines@.len(),
        r.1 <= lines@.len(),
{
    let ghost all = line_models(lines@);
    let n = lines.len();
    let mut i: usize = 0;
    let mut old: usize = 0;
    let mut new: usize = 0;
    while i < n
        invariant
            all == line_models(lines@),
            n == lines@.len(),
            i <= n,
            old <= i,
            new <= i,
            old == old_len(all.take(i as int)),
            new == new_len(all.take(i as int)),
        decreases n - i,
    {
        proof {
            assert(all.take(i + 1).drop_last() =~= all.take(i as int));
            assert(all.take(i + 1).last() == lines@[i as int]@);
        }
        match &lines[i] {
            HunkLine::Context(_) => {
                old = old + 1;
                new = new + 1;
            },
            HunkLine::Remove(_) => {
                old = old + 1;
            },
            HunkLine::Add(_) => {
                new = new + 1;
            },
        }
        i = i + 1;
    }
    assert(all.take(n as int) =~= all);
    (old, new)
}

/// Whether the lines of a hunk fall short of a count in its header.
pub fn hunk_has_remaining(lines: &Vec<HunkLine>, old_count: usize, new_count: usize) -> (r: bool)
    ensures
        r == has_remaining(line_models(lines@), old_count, new_count),
{
    let (old, new) = count_sides(lines);
    old < old_count || new < new_count
}

/// The number of lines that a hunk takes from the old file.
pub fn old_len_from_hunk(hunk: &Hunk) -> (r: usize)
    ensures
        r == old_len(hunk@.lines),
        r <= hunk.lines@.len(),
{
    count_sides(&hunk.lines).0
}

/// A line of a unified hunk, by its first character.
fn read_marked_line(line: &str) -> (r: Option<HunkLine>)
    ensures
        match r {
            Some(l) => marked_line(line@) == Some(l@),
            None => marked_line(line@) is None,
        },
{
    if let Some(rest) = strip_prefix(line, "-") {
        Some(HunkLine::Remove(rest.to_owned()))
    } else if let Some(rest) = strip_prefix(line, "+") {
        Some(HunkLine::Add(rest.to_owned()))
    } else if let Some(rest) = strip_prefix(line, " ") {
        Some(HunkLine::Context(rest.to_owned()))
    } else {
        None
    }
}

/// Reads the body of a unified hunk.
fn read_unified_body(
    lines: &[&str],
    start: usize,
    old_count: usize,
    new_count: usize,
    notes: &mut Notes,
) -> (r: (Vec<HunkLine>, usize))
    requires
        start <= lines@.len(),
    ensures
        (line_models(r.0@), r.1 as int, final(notes)@) == unified_body(
            slices(lines@),
            start as int,
            Seq::empty(),
            old_count,
            new_count,
            old(notes)@,
        ),
        start <= r.1 <= lines@.len(),
{
    let ghost all = slices(lines@);
    let ghost notes0 = notes@;
    let mut body: Vec<HunkLine> = Vec::new();
    let mut i: usize = start;
    let n = lines.len();
    assert(line_models(body@) =~= Seq::empty());
    while i < n
        invariant
            n == lines@.len(),
            start <= i <= n,
            all == slices(lines@),
            notes0 == old(notes)@,
            notes@ == notes0,
            unified_body(all, i as int, line_models(body@), old_count, new_count, notes0)
                == unified_body(all, start as int, Seq::empty(), old_count, new_count, notes0),
        decreases n - i,
    {
        let line = lines[i];
        assert(all[i as int] == line@);
        if starts_with(line, "@@") || starts_with(line, "--- ") || starts_with(line, "diff ") {
            return (body, i);
        }
        let ghost before = line_models(body@);
        if let Some(l) = read_marked_line(line) {
            body.push(l);
            assert(line_models(body@) =~= before.push(l@));
        } else if str_eq(line, "\\ No newline at end of file") {
        } else if !hunk_has_remaining(&body, old_count, new_count) {
            return (body, i);
        } else if line.is_empty() {
            let l = HunkLine::Context(String::new());
            body.push(l);
            proof {
                assert(l@ == LineModel::Context(Seq::empty()));
                assert(line_models(body@) =~= before.push(l@));
            }
        } else {
            if notes.malformed.is_none() {
                notes.malformed = Some((i + 1, line.to_owned()));
            }
            return (body, i);
        }
        i = i + 1;
    }
    (body, i)
}

/// Reads the hunks of a unified diff.
fn read_unified_hunks(lines: &[&str], start: usize, notes: &mut Notes) -> (r: Result<
    (Vec<Hunk>, usize),
    PatchError,
>)
    requires
        start <= lines@.len(),
    ensures
        ({
            let (model, notes2) = unified_hunks(
                slices(lines@),
                start as int,
                Seq::empty(),
                old(notes)@,
            );
            &&& final(notes)@ == notes2
            &&& match r {
                Ok((hunks, next)) => model == Ok::<_, PatchError>(
                    (hunk_models(hunks@), next as int),
                ) && start <= next <= lines@.len(),
                Err(e) => model == Err::<(Seq<HunkModel>, int), _>(e),
            }
        }),
{
    let ghost all = slices(lines@);
    let ghost notes0 = notes@;
    let mut hunks: Vec<Hunk> = Vec::new();
    let mut i: usize = start;
    let n = lines.len();
    assert(hunk_models(hunks@) =~= Seq::empty());
    while i < n && starts_with(lines[i], "@@")
        invariant
            n == lines@.len(),
            start <= i <= n,
            all == slices(lines@),
            notes0 == old(notes)@,
            unified_hunks(all, i as int, hunk_models(hunks@), notes@) == unified_hunks(
                all,
                start as int,
                Seq::empty(),
                notes0,
            ),
        decreases n - i,
    {
        let line = lines[i];
        assert(all[i as int] == line@);
        match parse_unified_hunk_header(line) {
            Err(e) => {
                return Err(e);
            },
            Ok(None) => {
                return Ok((hunks, i));
            },
            Ok(Some((old_start, old_count, new_start, new_count))) => {
                let suffix = hunk_header_suffix(line);
                let (body, next) = read_unified_body(lines, i + 1, old_count, new_count, notes);
                let ghost before = hunk_models(hunks@);
                let hunk = Hunk {
                    old_start,
                    old_count,
                    new_start,
                    new_count,
                    header_suffix: suffix,
                    lines: body,
                };
                let ghost model = hunk@;
                hunks.push(hunk);
                assert(hunk_models(hunks@) =~= before.push(model));
                i = next;
            },
        }
    }
    proof {
        if i < n {
            assert(all[i as int] == lines@[i as int]@);
        }
    }
    Ok((hunks, i))
}

/// Notes what one line of a preamble says.
fn note_line(p: &mut Preamble, line: &str)
    ensures
        final(p)@ == noted(old(p)@, line@),
{
    if starts_with(line, "Index: ") {
        p.index_line = Some(line.to_owned());
    } else if let Some(rest) = strip_prefix(line, "diff --git ") {
        let parts = split_whitespace(rest);
        assert(texts(parts@).len() == parts@.len());
        if parts.len() == 2 {
            proof {
                assert(texts(parts@)[0] == parts@[0]@);
                assert(texts(parts@)[1] == parts@[1]@);
            }
            p.git_a = Some(parts[0].clone());
            p.git_b = Some(parts[1].clone());
        }
    } else if let Some(rest) = strip_prefix(line, "new file mode ") {
        p.git.new_file_mode = parse_octal(trim(rest));
    } else if let Some(rest) = strip_prefix(line, "deleted file mode ") {
        p.git.deleted_file_mode = parse_octal(trim(rest));
    } else if let Some(rest) = strip_prefix(line, "old mode ") {
        p.git.old_mode = parse_octal(trim(rest));
    } else if let Some(rest) = strip_prefix(line, "new mode ") {
        p.git.new_mode = parse_octal(trim(rest));
    } else if let Some(rest) = strip_prefix(line, "index ") {
        let parts = split_whitespace(rest);
        assert(texts(parts@).len() == parts@.len());
        if parts.len() >= 2 {
            assert(texts(parts@)[1] == parts@[1]@);
            let mode = parse_octal(parts[1].as_str());
            if mode.is_some() {
                p.git.index_mode = mode;
            }
        }
    } else if let Some(rest) = strip_prefix(line, "rename from ") {
        p.git.rename_from = Some(rest.to_owned());
    } else if let Some(rest) = strip_prefix(line, "rename to ") {
        p.git.rename_to = Some(rest.to_owned());
    } else if let Some(rest) = strip_prefix(line, "copy from ") {
        p.git.copy_from = Some(rest.to_owned());
    } else if let Some(rest) = strip_prefix(line, "copy to ") {
        p.git.copy_to = Some(rest.to_owned());
    } else if starts_with(line, "Binary files ") && ends_with(line, " differ") {
        p.git.binary_summary = true;
    }
}

/// The first name that is there.
fn pick_name(a: &Option<String>, b: &Option<String>, c: &Option<String>) -> (r: String)
    ensures
        r@ == first_name(opt_text(*a), opt_text(*b), opt_text(*c)),
{
    if let Some(s) = a {
        s.clone()
    } else if let Some(s) = b {
        s.clone()
    } else if let Some(s) = c {
        s.clone()
    } else {
        String::new()
    }
}

/// A patch without hunks.
fn make_bare_patch(old_file: String, new_file: String, p: Preamble) -> (r: FilePatch)
    ensures
        r@ == bare_patch(old_file@, new_file@, p@),
{
    let hunks: Vec<Hunk> = Vec::new();
    assert(hunk_models(hunks@) =~= Seq::empty());
    FilePatch {
        old_header: old_file.clone(),
        new_header: new_file.clone(),
        old_file,
        new_file,
        index_line: p.index_line,
        hunks,
        format: DiffFormat::Unified,
        git: p.git,
    }
}

/// `s` without any number of `prefix` at its start.
fn strip_leading<'a>(s: &'a str, prefix: &str) -> (r: &'a str)
    requires
        prefix@.len() > 0,
    ensures
        r@ == without_leading(s@, prefix@),
{
    let mut t: &'a str = s;
    loop
        invariant
            prefix@.len() > 0,
            without_leading(t@, prefix@) == without_leading(s@, prefix@),
        decreases t@.len(),
    {
        match strip_prefix(t, prefix) {
            Some(rest) => {
                t = rest;
            },
            None => {
                return t;
            },
        }
    }
}

/// The file name on a header line that begins with `marker`.
pub(crate) fn read_header_file(line: &str, marker: &str) -> (r: String)
    requires
        has_prefix(line@, marker@),
        marker@.len() == 4,
    ensures
        r@ == header_file(line@),
{
    if is_epoch_timestamp_line(line) {
        "/dev/null".to_owned()
    } else {
        parse_file_path(line, marker)
    }
}

/// Reads what follows a preamble that ends at line `at`.
fn read_unified_rest(lines: &[&str], at: usize, p: Preamble, notes: &mut Notes) -> (r: Result<
    Option<(FilePatch, usize)>,
    PatchError,
>)
    requires
        at < lines@.len(),
    ensures
        ({
            let (model, notes2) = unified_rest(slices(lines@), at as int, p@, old(notes)@);
            &&& final(notes)@ == notes2
            &&& match r {
                Ok(Some((patch, next))) => model == Ok::<_, PatchError>(
                    Some((patch@, next as int)),
                ) && at <= next <= lines@.len(),
                Ok(None) => model == Ok::<Option<(PatchModel, int)>, PatchError>(None),
                Err(e) => model == Err::<Option<(PatchModel, int)>, _>(e),
            }
        }),
{
    let ghost all = slices(lines@);
    let n = lines.len();
    let mut i: usize = at;
    let mut old_file = String::new();
    let mut new_file = String::new();
    let mut old_header = String::new();
    let mut new_header = String::new();
    proof {
        reveal_strlit("--- ");
        reveal_strlit("+++ ");
        assert(all[at as int] == lines@[at as int]@);
    }
    if let Some(rest) = strip_prefix(lines[i], "--- ") {
        old_file = read_header_file(lines[i], "--- ");
        old_header = rest.to_owned();
        i = i + 1;
    }
    let ghost j = i as int;
    if i < n {
        assert(all[i as int] == lines@[i as int]@);
        if let Some(rest) = strip_prefix(lines[i], "+++ ") {
            new_file = read_header_file(lines[i], "+++ ");
            new_header = rest.to_owned();
            i = i + 1;
        }
    }
    if old_file.as_str().is_empty() {
        if let Some(a) = &p.git_a {
            old_file = a.clone();
        }
    }
    if new_file.as_str().is_empty() {
        if let Some(b) = &p.git_b {
            new_file = b.clone();
        }
    }
    let ghost names = unified_names(all, at as int, p@);
    proof {
        assert(names.next == i);
        assert(names.old_file == old_file@);
        assert(names.new_file == new_file@);
        assert(names.old_header == old_header@);
        assert(names.new_header == new_header@);
        if i < n {
            assert(all[i as int] == lines@[i as int]@);
        }
    }
    if old_file.as_str().is_empty() && new_file.as_str().is_empty() && (i >= n || !starts_with(
        lines[i],
        "@@",
    )) {
        return Ok(None);
    }
    match read_unified_hunks(lines, i, notes) {
        Err(e) => Err(e),
        Ok((hunks, next)) => {
            assert(hunk_models(hunks@).len() == hunks@.len());
            if hunks.len() == 0 && (notes.malformed.is_none() || next == at) {
                return Ok(None);
            }
            let patch = FilePatch {
                old_file,
                new_file,
                old_header,
                new_header,
                index_line: p.index_line,
                hunks,
                format: DiffFormat::Unified,
                git: p.git,
            };
            Ok(Some((patch, next)))
        },
    }
}

/// Reads the unified diff from line `start` on: the patch and the line after
/// it, or `None` when there is no patch there.
pub fn parse_unified_patch(lines: &[&str], start: usize, notes: &mut Notes) -> (r: Result<
    Option<(FilePatch, usize)>,
    PatchError,
>)
    requires
        start <= lines@.len(),
    ensures
        ({
            let (model, notes2) = unified_patch(slices(lines@), start as int, old(notes)@);
            &&& final(notes)@ == notes2
            &&& match r {
                Ok(Some((patch, next))) => model == Ok::<_, PatchError>(
                    Some((patch@, next as int)),
                ) && start < next <= lines@.len(),
                Ok(None) => model == Ok::<Option<(PatchModel, int)>, PatchError>(None),
                Err(e) => model == Err::<Option<(PatchModel, int)>, _>(e),
            }
        }),
{
    let ghost all = slices(lines@);
    proof {
        lemma_unified_patch_advances(all, start as int, notes@);
    }
    let n = lines.len();
    let mut i: usize = start;
    let mut p = Preamble {
        git: GitMeta::default(),
        git_a: None,
        git_b: None,
        index_line: None,
    };
    while i < n && !starts_with(lines[i], "--- ") && !starts_with(lines[i], "@@")
        invariant
            n == lines@.len(),
            start <= i <= n,
            all == slices(lines@),
            preamble_from(all, i as int, p@) == preamble_from(all, start as int, empty_preamble()),
            notes@ == old(notes)@,
        decreases n - i,
    {
        let line = lines[i];
        assert(all[i as int] == line@);
        if str_eq(line, "GIT binary patch") {
            let mut end: usize = i + 1;
            while end < n && !starts_with(lines[end], "diff --git ") && !starts_with(
                lines[end],
                "--- ",
            )
                invariant
                    n == lines@.len(),
                    i < end <= n,
                    all == slices(lines@),
                    payload_end(all, end as int) == payload_end(all, i + 1),
                decreases n - end,
            {
                assert(all[end as int] == lines@[end as int]@);
                end = end + 1;
            }
            proof {
                if end < n {
                    assert(all[end as int] == lines@[end as int]@);
                }
                assert(payload_end(all, end as int) == end);
            }
            let none: Option<String> = None;
            let old_file = pick_name(&p.git_a, &none, &none);
            let new_file = pick_name(&p.git_b, &none, &none);
            proof {
                reveal_strlit("b/");
            }
            let name = strip_leading(new_file.as_str(), "b/").to_owned();
            let ghost before = texts(notes.binary_files@);
            notes.binary_files.push(name);
            assert(texts(notes.binary_files@) =~= before.push(name@));
            p.git.binary_payload = true;
            let patch = make_bare_patch(old_file, new_file, p);
            return Ok(Some((patch, end)));
        }
        note_line(&mut p, line);
        i = i + 1;
        if i < n {
            assert(all[i as int] == lines@[i as int]@);
            if starts_with(lines[i], "diff --git ") && (p.git_a.is_some() || p.git_b.is_some()) {
                let old_file = pick_name(&p.git_a, &p.git.rename_from, &p.git.copy_from);
                let new_file = pick_name(&p.git_b, &p.git.rename_to, &p.git.copy_to);
                let patch = make_bare_patch(old_file, new_file, p);
                return Ok(Some((patch, i)));
            }
        }
    }
    if i >= n {
        if p.git_a.is_some() || p.git_b.is_some() {
            let old_file = pick_name(&p.git_a, &p.git.rename_from, &p.git.copy_from);
            let new_file = pick_name(&p.git_b, &p.git.rename_to, &p.git.copy_to);
            let patch = make_bare_patch(old_file, new_file, p);
            return Ok(Some((patch, i)));
        }
        return Ok(None);
    }
    assert(all[i as int] == lines@[i as int]@);
    read_unified_rest(lines, i, p, notes)
}

} // verus!
