//! Carrying out the hunks of a patch one after the other, and what becomes of
//! the file.
use vstd::prelude::*;

use crate::apply::{
    applied, apply_hunk, as_signed, cuts_overlap, expected_pos, first_fit, leading_context,
    lemma_cut_keeps_growth, new_side, old_side, steps_of, trailing_context, Applied, ApplyError,
};
use crate::model::{FilePatch, Hunk, HunkLine, HunkModel, LineModel, PatchModel};
use crate::options::{Options, OptionsModel};
use crate::paths::{is_null, strip_path_opt, stripped_opt};
use crate::report::{
    failure_message, failure_text, kept_message, kept_text, no_lines, refusal_message, say,
    skipped_message, skipped_text, success_message, success_text,
};
use crate::text::{
    drop_cr, has_text, join, joined, law_split_undoes_join, lines_of, newline_parts, split_lines,
    split_on, std_lines, str_eq, texts, trim, trimmed, without_cr,
};
use crate::unified::{old_len, old_len_from_hunk};

verus! {

/// How hunks are carried out.
#[derive(Debug, Clone, Copy, PartialEq, Eq, Structural)]
pub struct Manner {
    pub fuzz: usize,
    pub reverse: bool,
    /// Carriage returns at the ends of hunk lines are left out.
    pub strip_cr: bool,
    pub silent: bool,
    pub verbose: bool,
    /// A hunk that is in the file already is passed over.
    pub forward: bool,
    /// The hunks have carriage returns and the file has none.
    pub endings_differ: bool,
}

/// What has become of a file after some hunks.
#[derive(Debug)]
pub struct Run {
    pub lines: Vec<String>,
    /// The lines that the hunks added less those that they removed.
    pub delta: i64,
    pub messages: Vec<String>,
    /// The places, counted from zero, of the hunks that failed.
    pub failed: Vec<usize>,
}

/// The state with its texts.
pub struct RunModel {
    pub lines: Seq<Seq<char>>,
    pub delta: i64,
    pub messages: Seq<Seq<char>>,
    pub failed: Seq<usize>,
}

impl View for Run {
    type V = RunModel;

    open spec fn view(&self) -> RunModel {
        RunModel {
            lines: texts(self.lines@),
            delta: self.delta,
            messages: texts(self.messages@),
            failed: self.failed@,
        }
    }
}

/// The number of removed lines.
pub open spec fn removed_lines(lines: Seq<LineModel>) -> nat
    decreases lines.len(),
{
    if lines.len() == 0 {
        0
    } else {
        removed_lines(lines.drop_last()) + if lines.last() is Remove {
            1nat
        } else {
            0
        }
    }
}

/// The number of added lines.
pub open spec fn added_lines(lines: Seq<LineModel>) -> nat
    decreases lines.len(),
{
    if lines.len() == 0 {
        0
    } else {
        added_lines(lines.drop_last()) + if lines.last() is Add {
            1nat
        } else {
            0
        }
    }
}

/// By how many lines a hunk makes the file longer.
pub open spec fn growth(lines: Seq<LineModel>, reverse: bool) -> i64 {
    let added = as_signed(added_lines(lines) as usize) as i64;
    let removed = as_signed(removed_lines(lines) as usize) as i64;
    if reverse {
        removed.wrapping_sub(added)
    } else {
        added.wrapping_sub(removed)
    }
}

/// The line, counted from one, at which a hunk belongs after hunks that made
/// the file `delta` lines longer. A hunk of no lines belongs after its line.
pub open spec fn belongs_at(h: HunkModel, reverse: bool, delta: i64) -> i64 {
    let (start, count) = if reverse {
        (h.new_start, h.new_count)
    } else {
        (h.old_start, h.old_count)
    };
    let line = as_signed(start) as i64;
    if start == 0 {
        1
    } else if count == 0 {
        line.wrapping_add(1).wrapping_add(delta)
    } else {
        line.wrapping_add(delta)
    }
}

/// The fuzz that the message on a hunk gives. A hunk with more context at one
/// end than at the other counts the difference as fuzz when it was moved, or
/// when it lacks context at its end though the file goes on there.
pub open spec fn reported_fuzz(h: HunkModel, a: Applied, offset: i64, file_len: nat) -> nat {
    let steps = steps_of(h.lines, false, false);
    let lead = leading_context(steps);
    let trail = trailing_context(steps);
    let end = (a.start as usize).wrapping_add(old_len(h.lines) as usize);
    let cut_short = lead > trail && h.old_start > 1 && end < file_len;
    let uneven = if lead != trail && (offset != 0 || cut_short) {
        if lead > trail {
            (lead - trail) as nat
        } else {
            (trail - lead) as nat
        }
    } else {
        0
    };
    if a.level >= uneven {
        a.level as nat
    } else {
        uneven
    }
}

/// After a hunk that was carried out. A message is given when it was moved or
/// took fuzz, or when all are asked for.
pub open spec fn after_success(
    r: RunModel,
    h: HunkModel,
    i: int,
    m: Manner,
    a: Applied,
) -> RunModel {
    let line = (as_signed(a.start as usize) as i64).wrapping_add(1);
    let offset = line.wrapping_sub(belongs_at(h, m.reverse, r.delta));
    let fuzz = reported_fuzz(h, a, offset, r.lines.len());
    RunModel {
        lines: a.lines,
        delta: r.delta.wrapping_add(growth(h.lines, m.reverse)),
        messages: if offset != 0 || fuzz > 0 || m.verbose {
            r.messages.push(success_text((i + 1) as nat, line as int, offset as int, fuzz))
        } else {
            r.messages
        },
        failed: r.failed,
    }
}

/// After a hunk that is in the file already.
pub open spec fn after_skip(r: RunModel, i: int, m: Manner) -> RunModel {
    RunModel {
        messages: if m.silent {
            r.messages
        } else {
            r.messages.push(skipped_text((i + 1) as nat))
        },
        ..r
    }
}

/// After a hunk that fits nowhere.
pub open spec fn after_failure(r: RunModel, h: HunkModel, i: int, m: Manner) -> RunModel {
    RunModel {
        messages: if m.silent {
            r.messages
        } else {
            r.messages.push(
                failure_text(
                    (i + 1) as nat,
                    belongs_at(h, m.reverse, r.delta) as int,
                    m.endings_differ,
                ),
            )
        },
        failed: r.failed.push(i as usize),
        ..r
    }
}

/// After hunk `i`.
pub open spec fn after_hunk(r: RunModel, h: HunkModel, i: int, m: Manner) -> Result<
    RunModel,
    ApplyError,
> {
    match applied(r.lines, h, m.fuzz as int, m.reverse, m.strip_cr) {
        Err(e) => Err(e),
        Ok(Some(a)) => Ok(after_success(r, h, i, m, a)),
        Ok(None) => if m.forward {
            match applied(r.lines, h, m.fuzz as int, !m.reverse, m.strip_cr) {
                Err(e) => Err(e),
                Ok(Some(_)) => Ok(after_skip(r, i, m)),
                Ok(None) => Ok(after_failure(r, h, i, m)),
            }
        } else {
            Ok(after_failure(r, h, i, m))
        },
    }
}

/// After the hunks from `i` on.
pub open spec fn after_hunks(r: RunModel, hunks: Seq<HunkModel>, i: int, m: Manner) -> Result<
    RunModel,
    ApplyError,
>
    decreases hunks.len() - i,
{
    if i >= hunks.len() {
        Ok(r)
    } else {
        match after_hunk(r, hunks[i], i, m) {
            Err(e) => Err(e),
            Ok(r2) => after_hunks(r2, hunks, i + 1, m),
        }
    }
}

/// After hunks of which the first `n` failed without being tried.
pub open spec fn after_refusal(
    lines: Seq<Seq<char>>,
    hunks: Seq<HunkModel>,
    n: int,
    silent: bool,
) -> RunModel
    decreases n,
{
    if n <= 0 {
        RunModel { lines, delta: 0, messages: Seq::empty(), failed: Seq::empty() }
    } else {
        let before = after_refusal(lines, hunks, n - 1, silent);
        let start = hunks[n - 1].old_start;
        RunModel {
            messages: if silent {
                before.messages
            } else {
                before.messages.push(
                    failure_text(
                        n as nat,
                        if start == 0 {
                            1
                        } else {
                            start as int
                        },
                        false,
                    ),
                )
            },
            failed: before.failed.push((n - 1) as usize),
            ..before
        }
    }
}

/// Every place of a failed hunk is the place of a hunk, and no place comes
/// twice.
pub open spec fn failed_in_order(failed: Seq<usize>, n: int) -> bool {
    &&& forall|i: int| 0 <= i < failed.len() ==> #[trigger] failed[i] < n
    &&& forall|i: int, j: int| 0 <= i < j < failed.len() ==> failed[i] < failed[j]
}

/// The lines of a file. Carriage returns before newlines are part of the
/// lines only in binary mode.
pub open spec fn file_lines(content: Seq<char>, binary: bool) -> Seq<Seq<char>> {
    if binary {
        newline_parts(content)
    } else {
        std_lines(content)
    }
}

/// What ends a line of the new file.
pub open spec fn line_end(crlf: bool) -> Seq<char> {
    if crlf {
        "\r\n"@
    } else {
        "\n"@
    }
}

/// The text of the new file. Lines end as in the old file. The last line ends
/// too, unless the old file was empty.
pub open spec fn new_text(lines: Seq<Seq<char>>, content: Seq<char>, crlf: bool) -> Seq<char> {
    let kept = if crlf {
        Seq::new(lines.len(), |i: int| without_cr(lines[i]))
    } else {
        lines
    };
    let body = joined(kept, line_end(crlf));
    if body.len() > 0 && content.len() > 0 {
        body + line_end(crlf)
    } else {
        body
    }
}

/// What is done with the file in the end.
#[derive(Debug)]
pub struct Outcome {
    pub text: String,
    /// The file is removed rather than written.
    pub remove: bool,
    pub messages: Vec<String>,
    /// The number of failures that count for the exit status.
    pub failures: usize,
}

/// The patch, in the direction of application, creates a file, and it is
/// applied in reverse.
pub open spec fn undoes_creation(p: PatchModel, reverse: bool) -> bool {
    reverse && (is_null(p.old_file) || p.git.new_file_mode is Some)
}

/// The patch deletes the file and every hunk was carried out.
pub open spec fn deletes(p: PatchModel, o: OptionsModel, reverse: bool, failures: nat) -> bool {
    &&& !reverse
    &&& is_null(stripped_opt(p.new_file, o.strip))
    &&& !is_null(stripped_opt(p.old_file, o.strip))
    &&& failures == 0
    &&& !o.on.posix
}

/// There is nothing in the new file.
pub open spec fn is_blank(text: Seq<char>, crlf: bool) -> bool {
    text.len() == 0 || text == line_end(crlf)
}

/// The file is removed: it was created by what is undone, or the patch deletes
/// it and nothing is left, or nothing but white space is left and empty files
/// are not wanted.
pub open spec fn is_removed(
    p: PatchModel,
    o: OptionsModel,
    reverse: bool,
    failures: nat,
    text: Seq<char>,
    crlf: bool,
) -> bool {
    ||| o.on.remove_empty && trimmed(text).len() == 0
    ||| undoes_creation(p, reverse)
    ||| deletes(p, o, reverse, failures) && is_blank(text, crlf)
}

/// The patch deletes the file, but something is left in it.
pub open spec fn keeps_rest(
    p: PatchModel,
    o: OptionsModel,
    reverse: bool,
    failures: nat,
    text: Seq<char>,
    crlf: bool,
) -> bool {
    deletes(p, o, reverse, failures) && !is_blank(text, crlf)
}

// ---------------------------------------------------------------------------
// Laws
// ---------------------------------------------------------------------------

/// The hunks that failed are hunks of the patch, in their order, each once.
pub proof fn law_failures_are_hunks(
    r: RunModel,
    hunks: Seq<HunkModel>,
    i: int,
    m: Manner,
    end: RunModel,
)
    requires
        0 <= i <= hunks.len() <= usize::MAX,
        failed_in_order(r.failed, i),
        after_hunks(r, hunks, i, m) == Ok::<_, ApplyError>(end),
    ensures
        failed_in_order(end.failed, hunks.len() as int),
    decreases hunks.len() - i,
{
    if i < hunks.len() {
        match after_hunk(r, hunks[i], i, m) {
            Ok(r2) => {
                law_failures_are_hunks(r2, hunks, i + 1, m, end);
            },
            Err(_) => {},
        }
    }
}

/// A run in which every hunk failed leaves the lines of the file as they were.
pub proof fn law_failed_hunks_change_nothing(
    r: RunModel,
    hunks: Seq<HunkModel>,
    i: int,
    m: Manner,
    end: RunModel,
)
    requires
        0 <= i <= hunks.len(),
        after_hunks(r, hunks, i, m) == Ok::<_, ApplyError>(end),
        end.failed.len() == r.failed.len() + (hunks.len() - i),
    ensures
        end.lines == r.lines,
    decreases hunks.len() - i,
{
    if i < hunks.len() {
        match after_hunk(r, hunks[i], i, m) {
            Ok(r2) => {
                lemma_failed_grows(r2, hunks, i + 1, m, end);
                law_failed_hunks_change_nothing(r2, hunks, i + 1, m, end);
            },
            Err(_) => {},
        }
    }
}

/// No more hunks fail than there are.
proof fn lemma_failed_grows(
    r: RunModel,
    hunks: Seq<HunkModel>,
    i: int,
    m: Manner,
    end: RunModel,
)
    requires
        0 <= i <= hunks.len(),
        after_hunks(r, hunks, i, m) == Ok::<_, ApplyError>(end),
    ensures
        r.failed.len() <= end.failed.len() <= r.failed.len() + (hunks.len() - i),
    decreases hunks.len() - i,
{
    if i < hunks.len() {
        match after_hunk(r, hunks[i], i, m) {
            Ok(r2) => {
                lemma_failed_grows(r2, hunks, i + 1, m, end);
            },
            Err(_) => {},
        }
    }
}

/// What is left of a file that a patch deletes is kept, unless it is white
/// space and empty files are not wanted.
pub proof fn law_rest_is_kept(
    p: PatchModel,
    o: OptionsModel,
    reverse: bool,
    failures: nat,
    text: Seq<char>,
    crlf: bool,
)
    requires
        keeps_rest(p, o, reverse, failures, text, crlf),
        !(o.on.remove_empty && trimmed(text).len() == 0),
    ensures
        !is_removed(p, o, reverse, failures, text, crlf),
{
}

/// A file is never removed because of a failed patch, nor under the rules of
/// POSIX, unless what created it is undone or empty files are not wanted.
pub proof fn law_removal_needs_success(
    p: PatchModel,
    o: OptionsModel,
    reverse: bool,
    failures: nat,
    text: Seq<char>,
    crlf: bool,
)
    requires
        failures > 0 || o.on.posix,
        !undoes_creation(p, reverse),
        !o.on.remove_empty,
    ensures
        !is_removed(p, o, reverse, failures, text, crlf),
{
}

/// The number of all the lines of the hunks from `i` on.
pub open spec fn total_lines(hunks: Seq<HunkModel>, i: int) -> nat
    decreases hunks.len() - i,
{
    if i >= hunks.len() {
        0
    } else {
        hunks[i].lines.len() + total_lines(hunks, i + 1)
    }
}

proof fn lemma_change_bounds(lines: Seq<LineModel>)
    ensures
        removed_lines(lines) <= lines.len(),
        added_lines(lines) <= lines.len(),
    decreases lines.len(),
{
    if lines.len() > 0 {
        lemma_change_bounds(lines.drop_last());
    }
}

/// The two sides of steps differ in length by what the lines add and remove.
proof fn lemma_sides_differ(lines: Seq<LineModel>, reverse: bool, strip_cr: bool)
    ensures
        new_side(steps_of(lines, reverse, strip_cr)).len() - old_side(
            steps_of(lines, reverse, strip_cr),
        ).len() == if reverse {
            removed_lines(lines) - added_lines(lines)
        } else {
            added_lines(lines) - removed_lines(lines)
        },
    decreases lines.len(),
{
    let steps = steps_of(lines, reverse, strip_cr);
    if lines.len() > 0 {
        lemma_sides_differ(lines.drop_last(), reverse, strip_cr);
        assert(steps.drop_last() =~= steps_of(lines.drop_last(), reverse, strip_cr));
    }
}

/// A hunk that was carried out made the file longer by what it adds less what
/// it removes.
proof fn lemma_applied_len(
    file: Seq<Seq<char>>,
    h: HunkModel,
    fuzz: int,
    reverse: bool,
    strip_cr: bool,
    a: Applied,
)
    requires
        applied(file, h, fuzz, reverse, strip_cr) == Ok::<_, ApplyError>(Some(a)),
    ensures
        a.lines.len() == file.len() + if reverse {
            removed_lines(h.lines) - added_lines(h.lines)
        } else {
            added_lines(h.lines) - removed_lines(h.lines)
        },
{
    let steps = steps_of(h.lines, reverse, strip_cr);
    let base = expected_pos(h, reverse);
    let (level, offset) = choose|level: int, offset: int|
        first_fit(file, steps, base, fuzz, level, offset);
    lemma_sides_differ(h.lines, reverse, strip_cr);
    assert(!cuts_overlap(steps, level));
    lemma_cut_keeps_growth(steps, level);
}

/// The lines that a run has added less those that it has removed are what the
/// file has grown by, as long as the numbers of lines fit.
pub proof fn law_delta_is_growth(
    r: RunModel,
    hunks: Seq<HunkModel>,
    i: int,
    m: Manner,
    end: RunModel,
    len: nat,
)
    requires
        0 <= i <= hunks.len(),
        after_hunks(r, hunks, i, m) == Ok::<_, ApplyError>(end),
        r.delta == r.lines.len() - len,
        len <= i64::MAX,
        r.lines.len() + total_lines(hunks, i) <= i64::MAX,
        r.lines.len() + total_lines(hunks, i) <= usize::MAX,
    ensures
        end.delta == end.lines.len() - len,
    decreases hunks.len() - i,
{
    if i < hunks.len() {
        let h = hunks[i];
        match after_hunk(r, h, i, m) {
            Ok(r2) => {
                lemma_change_bounds(h.lines);
                if let Ok(Some(a)) = applied(r.lines, h, m.fuzz as int, m.reverse, m.strip_cr) {
                    lemma_applied_len(r.lines, h, m.fuzz as int, m.reverse, m.strip_cr, a);
                }
                law_delta_is_growth(r2, hunks, i + 1, m, end, len);
            },
            Err(_) => {},
        }
    }
}

proof fn lemma_joined_crlf(kept: Seq<Seq<char>>, marked: Seq<Seq<char>>)
    requires
        kept.len() >= 1,
        marked == Seq::new(kept.len(), |i: int| kept[i].push('\r')),
    ensures
        joined(kept, "\r\n"@) + "\r\n"@ == joined(marked, seq!['\n']) + seq!['\n'],
    decreases kept.len(),
{
    reveal_strlit("\r\n");
    if kept.len() == 1 {
        assert(joined(kept, "\r\n"@) + "\r\n"@ =~= kept[0].push('\r') + seq!['\n']);
    } else {
        let init = marked.drop_last();
        assert(init =~= Seq::new(kept.drop_last().len(), |i: int| kept.drop_last()[i].push('\r')));
        lemma_joined_crlf(kept.drop_last(), init);
        assert(joined(kept, "\r\n"@) + "\r\n"@ =~= (joined(kept.drop_last(), "\r\n"@) + "\r\n"@) + (
        kept.last() + "\r\n"@));
        assert(joined(marked, seq!['\n']) + seq!['\n'] =~= (joined(init, seq!['\n']) + seq!['\n']) + (
        marked.last() + seq!['\n']));
        assert(kept.last() + "\r\n"@ =~= marked.last() + seq!['\n']);
    }
}

proof fn lemma_terminated_splits(parts: Seq<Seq<char>>)
    requires
        parts.len() >= 1,
        forall|i: int| 0 <= i < parts.len() ==> !(#[trigger] parts[i]).contains('\n'),
    ensures
        split_on(joined(parts, seq!['\n']) + seq!['\n'], '\n') == parts.push(Seq::empty()),
{
    let more = parts.push(Seq::empty());
    assert(more.drop_last() =~= parts);
    assert(joined(more, seq!['\n']) =~= joined(parts, seq!['\n']) + seq!['\n']);
    law_split_undoes_join(more, '\n');
}

/// The lines that are written to a file that was not empty are the lines that
/// the file is read as in binary mode, as long as the text is not empty. When
/// no line ends with a carriage return, so they are outside binary mode.
pub proof fn law_written_lines_read_back(lines: Seq<Seq<char>>, content: Seq<char>)
    requires
        content.len() > 0,
        joined(lines, "\n"@).len() > 0,
        forall|i: int| 0 <= i < lines.len() ==> !(#[trigger] lines[i]).contains('\n'),
    ensures
        file_lines(new_text(lines, content, false), true) == lines,
        (forall|i: int| 0 <= i < lines.len() ==> without_cr(#[trigger] lines[i]) == lines[i])
            ==> file_lines(new_text(lines, content, false), false) == lines,
{
    reveal_strlit("\n");
    assert("\n"@ =~= seq!['\n']);
    lemma_terminated_splits(lines);
    let parts = lines.push(Seq::empty());
    assert(parts.drop_last() =~= lines);
    if forall|i: int| 0 <= i < lines.len() ==> without_cr(#[trigger] lines[i]) == lines[i] {
        assert(std_lines(new_text(lines, content, false)) =~= lines);
    }
}

/// A file whose lines end with carriage return and newline keeps such line
/// ends, and the lines that are written to it, each without a carriage return
/// at its end, are the lines that it is read as.
pub proof fn law_crlf_is_kept(lines: Seq<Seq<char>>, content: Seq<char>)
    requires
        content.len() > 0,
        lines.len() > 0,
        new_text(lines, content, true).len() > 0,
        forall|i: int| 0 <= i < lines.len() ==> !(#[trigger] lines[i]).contains('\n'),
    ensures
        file_lines(new_text(lines, content, true), false) == Seq::new(
            lines.len(),
            |i: int| without_cr(lines[i]),
        ),
        has_text(new_text(lines, content, true), "\r\n"@),
{
    reveal_strlit("\r\n");
    let kept = Seq::new(lines.len(), |i: int| without_cr(lines[i]));
    let marked = Seq::new(kept.len(), |i: int| kept[i].push('\r'));
    let text = new_text(lines, content, true);
    assert forall|i: int| 0 <= i < marked.len() implies !(#[trigger] marked[i]).contains('\n') by {
        assert(!lines[i].contains('\n'));
        if marked[i].contains('\n') {
            let k = choose|k: int| 0 <= k < marked[i].len() && marked[i][k] == '\n';
            assert(lines[i][k] == '\n');
        }
    }
    lemma_joined_crlf(kept, marked);
    lemma_terminated_splits(marked);
    let parts = marked.push(Seq::empty());
    assert(split_on(text, '\n') == parts);
    assert forall|i: int| 0 <= i < kept.len() implies without_cr(#[trigger] parts[i]) == kept[i] by {
        assert(marked[i].drop_last() =~= kept[i]);
    }
    assert(std_lines(text) =~= kept);
    let n = text.len();
    assert(text.subrange(n - 2, n as int) =~= "\r\n"@);
}

// ---------------------------------------------------------------------------
// Operations
// ---------------------------------------------------------------------------

/// `n` read as a signed number of 64 bits.
fn signed(n: usize) -> (r: i64)
    ensures
        r == as_signed(n),
{
    if n as u64 <= i64::MAX as u64 {
        n as i64
    } else {
        (n as i128 - 0x1_0000_0000_0000_0000i128) as i64
    }
}

/// The numbers of removed and of added lines.
fn count_changes(hunk: &Hunk) -> (r: (usize, usize))
    ensures
        r.0 == removed_lines(hunk@.lines),
        r.1 == added_lines(hunk@.lines),
{
    let ghost all = hunk@.lines;
    let n = hunk.lines.len();
    let mut removed: usize = 0;
    let mut added: usize = 0;
    let mut i: usize = 0;
    assert(all.take(0) =~= Seq::empty());
    while i < n
        invariant
            all == hunk@.lines,
            n == hunk.lines@.len(),
            n == all.len(),
            i <= n,
            removed <= i,
            added <= i,
            removed == removed_lines(all.take(i as int)),
            added == added_lines(all.take(i as int)),
        decreases n - i,
    {
        proof {
            assert(all.take(i + 1).drop_last() =~= all.take(i as int));
            assert(all.take(i + 1).last() == hunk.lines@[i as int]@);
        }
        match &hunk.lines[i] {
            HunkLine::Context(_) => {},
            HunkLine::Remove(_) => {
                removed = removed + 1;
            },
            HunkLine::Add(_) => {
                added = added + 1;
            },
        }
        i = i + 1;
    }
    assert(all.take(i as int) =~= all);
    (removed, added)
}

/// By how many lines a hunk makes the file longer.
fn grows_by(hunk: &Hunk, reverse: bool) -> (r: i64)
    ensures
        r == growth(hunk@.lines, reverse),
{
    let (removed, added) = count_changes(hunk);
    let removed = signed(removed);
    let added = signed(added);
    if reverse {
        removed.wrapping_sub(added)
    } else {
        added.wrapping_sub(removed)
    }
}

/// The line, counted from one, at which a hunk belongs.
pub fn expected_line(hunk: &Hunk, reverse: bool, delta: i64) -> (r: i64)
    ensures
        r == belongs_at(hunk@, reverse, delta),
{
    let (start, count) = if reverse {
        (hunk.new_start, hunk.new_count)
    } else {
        (hunk.old_start, hunk.old_count)
    };
    if start == 0 {
        1
    } else if count == 0 {
        signed(start).wrapping_add(1).wrapping_add(delta)
    } else {
        signed(start).wrapping_add(delta)
    }
}

/// The numbers of context lines at the start and at the end.
fn count_context(hunk: &Hunk) -> (r: (usize, usize))
    ensures
        r.0 == leading_context(steps_of(hunk@.lines, false, false)),
        r.1 == trailing_context(steps_of(hunk@.lines, false, false)),
{
    let ghost steps = steps_of(hunk@.lines, false, false);
    let n = hunk.lines.len();
    let mut lead: usize = 0;
    let mut going = true;
    assert(steps.skip(0) =~= steps);
    while going && lead < n
        invariant
            steps == steps_of(hunk@.lines, false, false),
            n == hunk.lines@.len(),
            n == steps.len(),
            lead <= n,
            leading_context(steps) == lead + leading_context(steps.skip(lead as int)),
            !going ==> leading_context(steps.skip(lead as int)) == 0,
        ensures
            leading_context(steps) == lead,
        decreases n - lead, if going { 1int } else { 0int },
    {
        proof {
            assert(hunk@.lines[lead as int] == hunk.lines@[lead as int]@);
            assert(steps.skip(lead as int)[0] == steps[lead as int]);
            assert(steps.skip(lead as int).skip(1) =~= steps.skip(lead + 1));
        }
        match &hunk.lines[lead] {
            HunkLine::Context(_) => {
                lead = lead + 1;
            },
            _ => {
                going = false;
            },
        }
    }
    let mut left: usize = n;
    let mut trail: usize = 0;
    let mut more = true;
    assert(steps.take(n as int) =~= steps);
    while more && left > 0
        invariant
            steps == steps_of(hunk@.lines, false, false),
            n == hunk.lines@.len(),
            n == steps.len(),
            left <= n,
            trail == n - left,
            trailing_context(steps) == trail + trailing_context(steps.take(left as int)),
            !more ==> trailing_context(steps.take(left as int)) == 0,
        ensures
            trailing_context(steps) == trail,
        decreases left, if more { 1int } else { 0int },
    {
        proof {
            assert(hunk@.lines[left - 1] == hunk.lines@[left - 1]@);
            assert(steps.take(left as int).last() == steps[left - 1]);
            assert(steps.take(left as int).drop_last() =~= steps.take(left - 1));
        }
        match &hunk.lines[left - 1] {
            HunkLine::Context(_) => {
                left = left - 1;
                trail = trail + 1;
            },
            _ => {
                more = false;
            },
        }
    }
    (lead, trail)
}

/// The fuzz that the message on a hunk gives.
fn fuzz_to_report(hunk: &Hunk, level: usize, start: usize, offset: i64, file_len: usize) -> (r:
    usize)
    ensures
        forall|a: Applied|
            a.level == level && a.start == start ==> r == #[trigger] reported_fuzz(
                hunk@,
                a,
                offset,
                file_len as nat,
            ),
{
    let (lead, trail) = count_context(hunk);
    let end = start.wrapping_add(old_len_from_hunk(hunk));
    let cut_short = lead > trail && hunk.old_start > 1 && end < file_len;
    let uneven: usize = if lead != trail && (offset != 0 || cut_short) {
        if lead > trail {
            lead - trail
        } else {
            trail - lead
        }
    } else {
        0
    };
    if level >= uneven {
        level
    } else {
        uneven
    }
}

/// Carries out hunk `i`.
fn take_hunk(run: Run, hunk: &Hunk, i: usize, m: Manner) -> (r: Result<Run, ApplyError>)
    requires
        i < usize::MAX,
    ensures
        match r {
            Ok(r2) => after_hunk(run@, hunk@, i as int, m) == Ok::<_, ApplyError>(r2@),
            Err(e) => after_hunk(run@, hunk@, i as int, m) == Err::<RunModel, _>(e),
        },
{
    let ghost r0 = run@;
    let mut run = run;
    match apply_hunk(&run.lines, hunk, m.fuzz, m.reverse, m.strip_cr) {
        Err(e) => {
            return Err(e);
        },
        Ok(Some((lines, level, _, start))) => {
            let line = signed(start).wrapping_add(1);
            let offset = line.wrapping_sub(expected_line(hunk, m.reverse, run.delta));
            let fuzz = fuzz_to_report(hunk, level, start, offset, run.lines.len());
            let ghost a = applied(r0.lines, hunk@, m.fuzz as int, m.reverse, m.strip_cr)->Ok_0->0;
            assert(fuzz == reported_fuzz(hunk@, a, offset, r0.lines.len()));
            run.lines = lines;
            run.delta = run.delta.wrapping_add(grows_by(hunk, m.reverse));
            if offset != 0 || fuzz > 0 || m.verbose {
                say(&mut run.messages, success_message(i + 1, line, offset, fuzz));
            }
            return Ok(run);
        },
        Ok(None) => {},
    }
    if m.forward {
        match apply_hunk(&run.lines, hunk, m.fuzz, !m.reverse, m.strip_cr) {
            Err(e) => {
                return Err(e);
            },
            Ok(Some(_)) => {
                if !m.silent {
                    say(&mut run.messages, skipped_message(i + 1));
                }
                return Ok(run);
            },
            Ok(None) => {},
        }
    }
    run.failed.push(i);
    if !m.silent {
        let line = expected_line(hunk, m.reverse, run.delta);
        say(&mut run.messages, failure_message(i + 1, line, m.endings_differ));
    }
    Ok(run)
}

/// Splits a file into its lines.
pub fn split_content(content: &str, binary: bool) -> (r: Vec<String>)
    ensures
        texts(r@) == file_lines(content@, binary),
{
    if binary {
        split_lines(content)
    } else {
        lines_of(content)
    }
}

/// Carries out the hunks of a patch, one after the other, on the lines of a
/// file.
pub fn apply_hunks(lines: Vec<String>, patch: &FilePatch, m: Manner) -> (r: Result<
    Run,
    ApplyError,
>)
    ensures
        ({
            let start = RunModel {
                lines: texts(lines@),
                delta: 0,
                messages: Seq::empty(),
                failed: Seq::empty(),
            };
            match r {
                Ok(run) => {
                    &&& after_hunks(start, patch@.hunks, 0, m) == Ok::<_, ApplyError>(run@)
                    &&& failed_in_order(run@.failed, patch@.hunks.len() as int)
                },
                Err(e) => after_hunks(start, patch@.hunks, 0, m) == Err::<RunModel, _>(e),
            }
        }),
{
    let ghost hunks = patch@.hunks;
    let mut run = Run { lines, delta: 0, messages: no_lines(), failed: Vec::new() };
    let ghost start = run@;
    let n = patch.hunks.len();
    let mut i: usize = 0;
    assert(run.failed@ =~= Seq::empty());
    while i < n
        invariant
            hunks == patch@.hunks,
            n == patch.hunks@.len(),
            n == hunks.len(),
            i <= n,
            after_hunks(run@, hunks, i as int, m) == after_hunks(start, hunks, 0, m),
            start == (RunModel {
                lines: texts(lines@),
                delta: 0,
                messages: Seq::empty(),
                failed: Seq::empty(),
            }),
        decreases n - i,
    {
        assert(hunks[i as int] == patch.hunks@[i as int]@);
        match take_hunk(run, &patch.hunks[i], i, m) {
            Ok(next) => {
                run = next;
            },
            Err(e) => {
                return Err(e);
            },
        }
        i = i + 1;
    }
    proof {
        law_failures_are_hunks(start, hunks, 0, m, run@);
    }
    Ok(run)
}

/// Fails every hunk of a patch without trying it.
pub fn refuse_hunks(lines: Vec<String>, patch: &FilePatch, silent: bool) -> (r: Run)
    ensures
        r@ == after_refusal(texts(lines@), patch@.hunks, patch@.hunks.len() as int, silent),
        r@.failed == Seq::new(patch@.hunks.len(), |i: int| i as usize),
        r@.lines == texts(lines@),
{
    let ghost hunks = patch@.hunks;
    let ghost text = texts(lines@);
    let mut run = Run { lines, delta: 0, messages: no_lines(), failed: Vec::new() };
    let n = patch.hunks.len();
    let mut i: usize = 0;
    assert(run.failed@ =~= Seq::empty());
    while i < n
        invariant
            hunks == patch@.hunks,
            n == patch.hunks@.len(),
            n == hunks.len(),
            i <= n,
            run@ == after_refusal(text, hunks, i as int, silent),
            run@.failed == Seq::new(i as nat, |j: int| j as usize),
            run@.lines == text,
        decreases n - i,
    {
        let ghost before = run@.failed;
        assert(hunks[i as int] == patch.hunks@[i as int]@);
        let start = patch.hunks[i].old_start;
        run.failed.push(i);
        if !silent {
            let line: usize = if start == 0 {
                1
            } else {
                start
            };
            say(&mut run.messages, refusal_message(i + 1, line));
        }
        i = i + 1;
        assert(before.push((i - 1) as usize) =~= Seq::new(i as nat, |j: int| j as usize));
    }
    run
}

/// The text of the new file.
pub fn output_text(lines: &Vec<String>, content: &str, crlf: bool) -> (r: String)
    ensures
        r@ == new_text(texts(lines@), content@, crlf),
{
    let end = if crlf {
        "\r\n"
    } else {
        "\n"
    };
    let mut kept: Vec<String> = no_lines();
    let ghost all = texts(lines@);
    let ghost want = if crlf {
        Seq::new(all.len(), |i: int| without_cr(all[i]))
    } else {
        all
    };
    let mut i: usize = 0;
    assert(want.take(0) =~= Seq::empty());
    while i < lines.len()
        invariant
            all == texts(lines@),
            want == if crlf {
                Seq::new(all.len(), |i: int| without_cr(all[i]))
            } else {
                all
            },
            i <= lines@.len(),
            texts(kept@) == want.take(i as int),
        decreases lines@.len() - i,
    {
        assert(all[i as int] == lines@[i as int]@);
        if crlf {
            say(&mut kept, drop_cr(lines[i].as_str()).to_owned());
        } else {
            say(&mut kept, lines[i].clone());
        }
        assert(want.take(i + 1) =~= want.take(i as int).push(want[i as int]));
        i = i + 1;
    }
    assert(want.take(i as int) =~= want);
    let mut body = join(&kept, end);
    if !body.as_str().is_empty() && !content.is_empty() {
        body.append(end);
    }
    body
}

/// Decides what is done with a file after its hunks. `failures` counts the
/// hunks that failed.
pub fn finish(
    patch: &FilePatch,
    opts: &Options,
    target: &str,
    reverse: bool,
    failures: usize,
    text: String,
    crlf: bool,
) -> (r: Outcome)
    ensures
        r.text@ == text@,
        r.remove == is_removed(patch@, opts@, reverse, failures as nat, text@, crlf),
        ({
            let keeps = keeps_rest(patch@, opts@, reverse, failures as nat, text@, crlf);
            &&& r.failures == if keeps {
                1
            } else {
                failures
            }
            &&& texts(r.messages@) == if keeps && !opts@.on.silent {
                Seq::empty().push(kept_text(target@))
            } else {
                Seq::empty()
            }
        }),
{
    let end = if crlf {
        "\r\n"
    } else {
        "\n"
    };
    let old = strip_path_opt(patch.old_file.as_str(), opts.strip);
    let new = strip_path_opt(patch.new_file.as_str(), opts.strip);
    let undo = reverse && (str_eq(patch.old_file.as_str(), "/dev/null")
        || patch.git.new_file_mode.is_some());
    let delete = !reverse && str_eq(new.as_str(), "/dev/null") && !str_eq(
        old.as_str(),
        "/dev/null",
    ) && failures == 0 && !opts.on.posix;
    let blank = text.as_str().is_empty() || str_eq(text.as_str(), end);
    let mut messages = no_lines();
    let mut count: usize = failures;
    if delete && !blank {
        if !opts.on.silent {
            say(&mut messages, kept_message(target));
        }
        count = 1;
    }
    let hollow = opts.on.remove_empty && trim(text.as_str()).is_empty();
    Outcome { remove: hollow || undo || (delete && blank), text, messages, failures: count }
}

} // verus!
