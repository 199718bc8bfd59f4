//! Reject files: the hunks that failed, as a patch.
use vstd::prelude::*;

use crate::header::{unified_header_text, unified_range};
use crate::model::{DiffFormat, FilePatch, Hunk, HunkLine, HunkModel, LineModel, PatchModel};
use crate::number::{decimal, decimal_of_usize};
use crate::options::{Options, OptionsModel};
use crate::report::text3;
use crate::text::str_eq;

verus! {

/// A line of a unified hunk, with its mark.
pub open spec fn unified_line(line: LineModel) -> Seq<char> {
    match line {
        LineModel::Context(s) => " "@ + s,
        LineModel::Remove(s) => "-"@ + s,
        LineModel::Add(s) => "+"@ + s,
    }
}

/// The lines of a unified hunk, each with its newline.
pub open spec fn unified_lines(lines: Seq<LineModel>) -> Seq<char>
    decreases lines.len(),
{
    if lines.len() == 0 {
        Seq::empty()
    } else {
        unified_lines(lines.drop_last()) + unified_line(lines.last()) + "\n"@
    }
}

/// A unified hunk.
pub open spec fn unified_hunk_text(h: HunkModel) -> Seq<char> {
    unified_header_text(h) + "\n"@ + unified_lines(h.lines)
}

/// A range of a context hunk header: its first and its last line, or one line
/// alone.
pub open spec fn context_range_text(start: usize, count: usize) -> Seq<char> {
    if count == 1 {
        decimal(start as nat)
    } else {
        decimal(start as nat) + ","@ + decimal(
            start.wrapping_add(
                if count == 0 {
                    0
                } else {
                    (count - 1) as usize
                },
            ) as nat,
        )
    }
}

/// The hunk both removes and adds lines.
pub open spec fn is_change(lines: Seq<LineModel>) -> bool {
    (exists|i: int| 0 <= i < lines.len() && #[trigger] lines[i] is Remove) && (exists|i: int|
        0 <= i < lines.len() && #[trigger] lines[i] is Add)
}

/// The lines of the old side of a context hunk, each with its newline.
pub open spec fn context_old_lines(lines: Seq<LineModel>, change: bool) -> Seq<char>
    decreases lines.len(),
{
    if lines.len() == 0 {
        Seq::empty()
    } else {
        let before = context_old_lines(lines.drop_last(), change);
        match lines.last() {
            LineModel::Context(s) => before + "  "@ + s + "\n"@,
            LineModel::Remove(s) => before + if change {
                "! "@
            } else {
                "- "@
            } + s + "\n"@,
            LineModel::Add(_) => before,
        }
    }
}

/// The lines of the new side of a context hunk, each with its newline.
pub open spec fn context_new_lines(lines: Seq<LineModel>, change: bool) -> Seq<char>
    decreases lines.len(),
{
    if lines.len() == 0 {
        Seq::empty()
    } else {
        let before = context_new_lines(lines.drop_last(), change);
        match lines.last() {
            LineModel::Context(s) => before + "  "@ + s + "\n"@,
            LineModel::Add(s) => before + if change {
                "! "@
            } else {
                "+ "@
            } + s + "\n"@,
            LineModel::Remove(_) => before,
        }
    }
}

/// The two sides of a context hunk. Lines are marked as changed when the hunk
/// both removes and adds.
pub open spec fn context_hunk_text(h: HunkModel) -> Seq<char> {
    let change = is_change(h.lines);
    "*** "@ + context_range_text(h.old_start, h.old_count) + " ****\n"@ + context_old_lines(
        h.lines,
        change,
    ) + "--- "@ + context_range_text(h.new_start, h.new_count) + " ----\n"@ + context_new_lines(
        h.lines,
        change,
    )
}

/// What a file is called in the headers: its header, or else its name, or else
/// what a nameless file is called.
pub open spec fn label(header: Seq<char>, name: Seq<char>, nameless: Seq<char>) -> Seq<char> {
    if header.len() > 0 {
        header
    } else if name.len() > 0 {
        name
    } else {
        nameless
    }
}

/// Rejects are context diffs: when that is asked for, or when nothing is and
/// the patch is one.
pub open spec fn as_context(p: PatchModel, o: OptionsModel) -> bool {
    if o.reject_format == Some("context"@) {
        true
    } else if o.reject_format == Some("unified"@) {
        false
    } else {
        p.format == DiffFormat::Context
    }
}

/// The hunks of a reject file.
pub open spec fn reject_hunks(hunks: Seq<HunkModel>, context: bool) -> Seq<char>
    decreases hunks.len(),
{
    if hunks.len() == 0 {
        Seq::empty()
    } else {
        let before = reject_hunks(hunks.drop_last(), context);
        let h = hunks.last();
        if context {
            before + "***************"@ + h.header_suffix + "\n"@ + context_hunk_text(h)
        } else {
            before + unified_hunk_text(h)
        }
    }
}

/// The headers of a reject file.
pub open spec fn reject_headers(p: PatchModel, context: bool) -> Seq<char> {
    let old = label(p.old_header, p.old_file, "a"@);
    let new = label(p.new_header, p.new_file, "b"@);
    if context {
        "*** "@ + old + "\n"@ + "--- "@ + new + "\n"@
    } else {
        "--- "@ + old + "\n"@ + "+++ "@ + new + "\n"@
    }
}

/// The hunks at some places.
pub open spec fn hunks_at(hunks: Seq<HunkModel>, places: Seq<usize>) -> Seq<HunkModel> {
    Seq::new(places.len(), |i: int| hunks[places[i] as int])
}

/// What is written to a reject file for the hunks `rejected`.
pub open spec fn rejects(p: PatchModel, o: OptionsModel, rejected: Seq<HunkModel>) -> Seq<char> {
    let context = as_context(p, o);
    let index = match p.index_line {
        Some(line) => line + "\n"@,
        None => Seq::empty(),
    };
    index + reject_headers(p, context) + reject_hunks(rejected, context)
}

// ---------------------------------------------------------------------------
// Operations
// ---------------------------------------------------------------------------

/// A range of a unified hunk header.
pub fn format_hunk_range(start: usize, count: usize) -> (r: String)
    ensures
        r@ == unified_range(start, count),
{
    let mut s = decimal_of_usize(start);
    if count != 1 {
        s.append(",");
        s.append(decimal_of_usize(count).as_str());
    }
    s
}

/// A range of a context hunk header.
fn format_context_range(start: usize, count: usize) -> (r: String)
    ensures
        r@ == context_range_text(start, count),
{
    let mut s = decimal_of_usize(start);
    if count != 1 {
        let more: usize = if count == 0 {
            0
        } else {
            count - 1
        };
        s.append(",");
        s.append(decimal_of_usize(start.wrapping_add(more)).as_str());
    }
    s
}

/// Appends a line of a unified hunk.
fn append_unified_line(out: &mut String, line: &HunkLine)
    ensures
        final(out)@ == old(out)@ + unified_line(line@) + "\n"@,
{
    let (mark, text) = match line {
        HunkLine::Context(s) => (" ", s),
        HunkLine::Remove(s) => ("-", s),
        HunkLine::Add(s) => ("+", s),
    };
    let mut s = mark.to_owned();
    s.append(text.as_str());
    out.append(s.as_str());
    out.append("\n");
}

/// A unified hunk.
pub fn write_unified_hunk(hunk: &Hunk) -> (r: String)
    ensures
        r@ == unified_hunk_text(hunk@),
{
    let ghost all = hunk@.lines;
    let mut body = String::new();
    let mut i: usize = 0;
    assert(all.take(0) =~= Seq::empty());
    while i < hunk.lines.len()
        invariant
            all == hunk@.lines,
            i <= hunk.lines@.len(),
            body@ == unified_lines(all.take(i as int)),
        decreases hunk.lines@.len() - i,
    {
        proof {
            assert(all.take(i + 1).drop_last() =~= all.take(i as int));
            assert(all.take(i + 1).last() == hunk.lines@[i as int]@);
        }
        append_unified_line(&mut body, &hunk.lines[i]);
        i = i + 1;
    }
    assert(all.take(i as int) =~= all);
    let mut s = "@@ -".to_owned();
    s.append(format_hunk_range(hunk.old_start, hunk.old_count).as_str());
    s.append(" +");
    s.append(format_hunk_range(hunk.new_start, hunk.new_count).as_str());
    s.append(" @@");
    s.append(hunk.header_suffix.as_str());
    s.append("\n");
    s.append(body.as_str());
    s
}

/// Whether a hunk both removes and adds lines.
fn changes(hunk: &Hunk) -> (r: bool)
    ensures
        r == is_change(hunk@.lines),
{
    let ghost all = hunk@.lines;
    let mut removes = false;
    let mut adds = false;
    let mut i: usize = 0;
    while i < hunk.lines.len()
        invariant
            all == hunk@.lines,
            i <= hunk.lines@.len(),
            removes == exists|j: int| 0 <= j < i && #[trigger] all[j] is Remove,
            adds == exists|j: int| 0 <= j < i && #[trigger] all[j] is Add,
        decreases hunk.lines@.len() - i,
    {
        assert(all[i as int] == hunk.lines@[i as int]@);
        match &hunk.lines[i] {
            HunkLine::Context(_) => {},
            HunkLine::Remove(_) => {
                removes = true;
            },
            HunkLine::Add(_) => {
                adds = true;
            },
        }
        i = i + 1;
    }
    removes && adds
}

/// The two sides of a context hunk.
pub fn write_context_hunk(hunk: &Hunk) -> (r: String)
    ensures
        r@ == context_hunk_text(hunk@),
{
    let change = changes(hunk);
    let ghost all = hunk@.lines;
    let mut old_lines = String::new();
    let mut new_lines = String::new();
    let mut i: usize = 0;
    assert(all.take(0) =~= Seq::empty());
    while i < hunk.lines.len()
        invariant
            all == hunk@.lines,
            i <= hunk.lines@.len(),
            old_lines@ == context_old_lines(all.take(i as int), change),
            new_lines@ == context_new_lines(all.take(i as int), change),
        decreases hunk.lines@.len() - i,
    {
        proof {
            assert(all.take(i + 1).drop_last() =~= all.take(i as int));
            assert(all.take(i + 1).last() == hunk.lines@[i as int]@);
        }
        match &hunk.lines[i] {
            HunkLine::Context(s) => {
                old_lines.append("  ");
                old_lines.append(s.as_str());
                old_lines.append("\n");
                new_lines.append("  ");
                new_lines.append(s.as_str());
                new_lines.append("\n");
            },
            HunkLine::Remove(s) => {
                if change {
                    old_lines.append("! ");
                } else {
                    old_lines.append("- ");
                }
                old_lines.append(s.as_str());
                old_lines.append("\n");
            },
            HunkLine::Add(s) => {
                if change {
                    new_lines.append("! ");
                } else {
                    new_lines.append("+ ");
                }
                new_lines.append(s.as_str());
                new_lines.append("\n");
            },
        }
        i = i + 1;
    }
    assert(all.take(i as int) =~= all);
    let mut s = "*** ".to_owned();
    s.append(format_context_range(hunk.old_start, hunk.old_count).as_str());
    s.append(" ****\n");
    s.append(old_lines.as_str());
    s.append("--- ");
    s.append(format_context_range(hunk.new_start, hunk.new_count).as_str());
    s.append(" ----\n");
    s.append(new_lines.as_str());
    s
}

fn choose_label<'a>(header: &'a String, name: &'a String, nameless: &'a str) -> (r: &'a str)
    ensures
        r@ == label(header@, name@, nameless@),
{
    if !header.as_str().is_empty() {
        header.as_str()
    } else if !name.as_str().is_empty() {
        name.as_str()
    } else {
        nameless
    }
}

/// Whether rejects are context diffs.
pub fn rejects_as_context(patch: &FilePatch, opts: &Options) -> (r: bool)
    ensures
        r == as_context(patch@, opts@),
{
    if let Some(format) = &opts.reject_format {
        if str_eq(format.as_str(), "context") {
            return true;
        }
        if str_eq(format.as_str(), "unified") {
            return false;
        }
    }
    patch.format == DiffFormat::Context
}

/// What is written to a reject file for the hunks at the places `rejected`.
pub fn reject_text(patch: &FilePatch, opts: &Options, rejected: &Vec<usize>) -> (r: String)
    requires
        forall|i: int| 0 <= i < rejected@.len() ==> #[trigger] rejected@[i] < patch@.hunks.len(),
    ensures
        r@ == rejects(patch@, opts@, hunks_at(patch@.hunks, rejected@)),
{
    let context = rejects_as_context(patch, opts);
    let ghost all = hunks_at(patch@.hunks, rejected@);
    let mut body = String::new();
    let mut i: usize = 0;
    assert(all.take(0) =~= Seq::empty());
    while i < rejected.len()
        invariant
            forall|i: int|
                0 <= i < rejected@.len() ==> #[trigger] rejected@[i] < patch@.hunks.len(),
            all == hunks_at(patch@.hunks, rejected@),
            i <= rejected@.len(),
            body@ == reject_hunks(all.take(i as int), context),
        decreases rejected@.len() - i,
    {
        let k = rejected[i];
        assert(k < patch@.hunks.len());
        let hunk = &patch.hunks[k];
        proof {
            assert(all.take(i + 1).drop_last() =~= all.take(i as int));
            assert(all.take(i + 1).last() == hunk@);
        }
        if context {
            body.append("***************");
            body.append(hunk.header_suffix.as_str());
            body.append("\n");
            body.append(write_context_hunk(hunk).as_str());
        } else {
            body.append(write_unified_hunk(hunk).as_str());
        }
        i = i + 1;
    }
    assert(all.take(i as int) =~= all);
    let old_label = choose_label(&patch.old_header, &patch.old_file, "a");
    let new_label = choose_label(&patch.new_header, &patch.new_file, "b");
    let mut headers = if context {
        text3("*** ", old_label, "\n")
    } else {
        text3("--- ", old_label, "\n")
    };
    if context {
        headers.append("--- ");
    } else {
        headers.append("+++ ");
    }
    headers.append(new_label);
    headers.append("\n");
    let mut s = match &patch.index_line {
        Some(line) => {
            let mut s = line.clone();
            s.append("\n");
            s
        },
        None => String::new(),
    };
    s.append(headers.as_str());
    s.append(body.as_str());
    s
}

/// The places of all the hunks of a patch.
pub fn all_hunks(patch: &FilePatch) -> (r: Vec<usize>)
    ensures
        r@ == Seq::new(patch@.hunks.len(), |i: int| i as usize),
        hunks_at(patch@.hunks, r@) == patch@.hunks,
{
    let n = patch.hunks.len();
    let mut out: Vec<usize> = Vec::new();
    let mut i: usize = 0;
    while i < n
        invariant
            n == patch.hunks@.len(),
            i <= n,
            out@ == Seq::new(i as nat, |j: int| j as usize),
        decreases n - i,
    {
        let ghost before = out@;
        out.push(i);
        i = i + 1;
        assert(out@ =~= Seq::new(i as nat, |j: int| j as usize));
    }
    assert(hunks_at(patch@.hunks, out@) =~= patch@.hunks);
    out
}

} // verus!
