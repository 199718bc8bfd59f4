//! Context diffs.
use vstd::prelude::*;

use crate::header::{context_range, parse_context_hunk_range};
use crate::model::{
    hunk_models, line_models, plain_git, DiffFormat, FilePatch, GitMeta, Hunk, HunkLine, HunkModel,
    LineModel, PatchError, PatchModel,
};
use crate::text::{has_prefix, slices, starts_with, str_eq, strip_prefix};
use crate::unified::{header_file, read_header_file};

verus! {

/// A line of one half of a context hunk: its marker and its text.
pub type Tagged = (char, Seq<char>);

/// The models of tagged lines.
pub open spec fn tagged(lines: Seq<(char, String)>) -> Seq<Tagged> {
    Seq::new(lines.len(), |i: int| (lines[i].0, lines[i].1@))
}

// ---------------------------------------------------------------------------
// The two halves of a hunk
// ---------------------------------------------------------------------------

/// A line of the old half. One space is enough to mark context.
pub open spec fn old_half_line(line: Seq<char>) -> Option<Tagged> {
    if has_prefix(line, "! "@) {
        Some(('!', line.skip("! "@.len() as int)))
    } else if has_prefix(line, "- "@) {
        Some(('-', line.skip("- "@.len() as int)))
    } else if has_prefix(line, "  "@) {
        Some((' ', line.skip("  "@.len() as int)))
    } else if has_prefix(line, " "@) {
        Some((' ', line.skip(" "@.len() as int)))
    } else {
        None
    }
}

/// A line of the new half. One space is enough when nothing follows it.
pub open spec fn new_half_line(line: Seq<char>) -> Option<Tagged> {
    if has_prefix(line, "! "@) {
        Some(('!', line.skip("! "@.len() as int)))
    } else if has_prefix(line, "+ "@) {
        Some(('+', line.skip("+ "@.len() as int)))
    } else if has_prefix(line, "  "@) {
        Some((' ', line.skip("  "@.len() as int)))
    } else if line == " "@ {
        Some((' ', Seq::empty()))
    } else {
        None
    }
}

/// The old half from line `i` on, after the lines `acc`, and where it ends:
/// at the range of the new half. Lines of no known form are passed over.
pub open spec fn old_half(lines: Seq<Seq<char>>, i: int, acc: Seq<Tagged>) -> (Seq<Tagged>, int)
    decreases lines.len() - i,
{
    if i >= lines.len() || has_prefix(lines[i], "--- "@) {
        (acc, i)
    } else {
        match old_half_line(lines[i]) {
            Some(l) => old_half(lines, i + 1, acc.push(l)),
            None => old_half(lines, i + 1, acc),
        }
    }
}

/// The line cannot belong to the new half of a hunk.
pub open spec fn ends_new_half(line: Seq<char>) -> bool {
    has_prefix(line, "***************"@) || has_prefix(line, "diff "@) || has_prefix(line, "*** "@)
}

/// The new half from line `i` on, after the lines `acc`, and where it ends:
/// at the first line of no known form.
pub open spec fn new_half(lines: Seq<Seq<char>>, i: int, acc: Seq<Tagged>) -> (Seq<Tagged>, int)
    decreases lines.len() - i,
{
    if i >= lines.len() || ends_new_half(lines[i]) {
        (acc, i)
    } else {
        match new_half_line(lines[i]) {
            Some(l) => new_half(lines, i + 1, acc.push(l)),
            None => (acc, i),
        }
    }
}

pub proof fn lemma_halves_advance(lines: Seq<Seq<char>>, i: int, acc: Seq<Tagged>)
    ensures
        old_half(lines, i, acc).1 >= i,
        new_half(lines, i, acc).1 >= i,
        new_half(lines, i, acc).1 - i == new_half(lines, i, acc).0.len() - acc.len(),
        i <= lines.len() ==> old_half(lines, i, acc).1 <= lines.len(),
        i <= lines.len() ==> new_half(lines, i, acc).1 <= lines.len(),
    decreases lines.len() - i,
{
    if i < lines.len() {
        lemma_halves_advance(lines, i + 1, acc);
        if let Some(l) = old_half_line(lines[i]) {
            lemma_halves_advance(lines, i + 1, acc.push(l));
        }
        if let Some(l) = new_half_line(lines[i]) {
            lemma_halves_advance(lines, i + 1, acc.push(l));
        }
    }
}

/// One half made out of the other: without the lines that the other side
/// alone has, marked `own`.
pub open spec fn implied(lines: Seq<Tagged>, own: char) -> Seq<Tagged>
    decreases lines.len(),
{
    if lines.len() == 0 {
        Seq::empty()
    } else {
        let rest = implied(lines.drop_last(), own);
        let (mark, text) = lines.last();
        if mark == own {
            rest
        } else {
            rest.push((if mark == '!' {
                '!'
            } else {
                ' '
            }, text))
        }
    }
}

/// The number of lines from `start` to `end`; none when the range ends before
/// it starts.
pub open spec fn range_len(start: usize, end: usize) -> int {
    if end >= start {
        end - start + 1
    } else {
        0
    }
}

/// The two halves of a hunk as one run of lines. Context that both halves
/// have is taken once, and the lines that one half alone has come before it,
/// removals first.
pub open spec fn merged(old: Seq<Tagged>, new: Seq<Tagged>) -> Seq<LineModel>
    decreases old.len() + new.len(),
{
    let old_is_context = old.len() > 0 && old[0].0 == ' ';
    let new_is_context = new.len() > 0 && new[0].0 == ' ';
    if old_is_context && new_is_context {
        seq![LineModel::Context(old[0].1)] + merged(old.skip(1), new.skip(1))
    } else if old.len() > 0 && (old[0].0 == '!' || old[0].0 == '-') {
        seq![LineModel::Remove(old[0].1)] + merged(old.skip(1), new)
    } else if new.len() > 0 && (new[0].0 == '!' || new[0].0 == '+') {
        seq![LineModel::Add(new[0].1)] + merged(old, new.skip(1))
    } else if old_is_context {
        seq![LineModel::Context(old[0].1)] + merged(old.skip(1), new)
    } else if new_is_context {
        seq![LineModel::Context(new[0].1)] + merged(old, new.skip(1))
    } else {
        Seq::empty()
    }
}

// ---------------------------------------------------------------------------
// Hunks
// ---------------------------------------------------------------------------

/// The halves of a hunk with the one that is left out filled in.
pub open spec fn filled(
    old: Seq<Tagged>,
    new: Seq<Tagged>,
    old_count: int,
    new_count: int,
) -> (Seq<Tagged>, Seq<Tagged>) {
    (
        if old.len() == 0 && old_count > 0 && new.len() > 0 {
            implied(new, '+')
        } else {
            old
        },
        if new.len() == 0 && new_count > 0 && old.len() > 0 {
            implied(old, '-')
        } else {
            new
        },
    )
}

/// The hunk made of two ranges and two halves.
pub open spec fn context_hunk(
    suffix: Seq<char>,
    old_range: (usize, usize),
    new_range: (usize, usize),
    old: Seq<Tagged>,
    new: Seq<Tagged>,
) -> HunkModel {
    let old_count = range_len(old_range.0, old_range.1);
    let new_count = range_len(new_range.0, new_range.1);
    let (o, n) = filled(old, new, old_count, new_count);
    HunkModel {
        old_start: old_range.0,
        old_count: if o.len() == 0 {
            0
        } else {
            old_count as usize
        },
        new_start: new_range.0,
        new_count: if n.len() == 0 {
            0
        } else {
            new_count as usize
        },
        header_suffix: suffix,
        lines: merged(o, n),
    }
}

/// What one hunk of a context diff comes to.
pub enum ContextStep {
    /// A hunk, and the line after it.
    Hunk { hunk: HunkModel, next: int },
    /// No more hunks from this line on.
    End { at: int },
    /// The hunk cannot be read.
    Bad { error: PatchError },
}

/// The hunk that starts with the row of stars at line `i`.
pub open spec fn context_step(lines: Seq<Seq<char>>, i: int) -> ContextStep {
    let suffix = lines[i].skip("***************"@.len() as int);
    if i + 1 >= lines.len() {
        ContextStep::End { at: i + 1 }
    } else {
        match context_range(lines[i + 1]) {
            Err(e) => ContextStep::Bad { error: e },
            Ok(None) => ContextStep::End { at: i + 1 },
            Ok(Some(old_range)) => {
                let (old, j) = old_half(lines, i + 2, Seq::empty());
                if j >= lines.len() {
                    ContextStep::End { at: j }
                } else {
                    match context_range(lines[j]) {
                        Err(e) => ContextStep::Bad { error: e },
                        Ok(None) => ContextStep::End { at: j },
                        Ok(Some(new_range)) => {
                            let (new, next) = new_half(lines, j + 1, Seq::empty());
                            if range_len(old_range.0, old_range.1) > usize::MAX || range_len(
                                new_range.0,
                                new_range.1,
                            ) > usize::MAX {
                                ContextStep::Bad { error: PatchError::NumberOutOfRange }
                            } else if new.len() > 0 && new.len() != range_len(
                                new_range.0,
                                new_range.1,
                            ) {
                                ContextStep::Bad {
                                    error: PatchError::MangledHunk {
                                        line: (next + 1 - new.len() - 2) as usize,
                                    },
                                }
                            } else {
                                ContextStep::Hunk {
                                    hunk: context_hunk(suffix, old_range, new_range, old, new),
                                    next,
                                }
                            }
                        },
                    }
                }
            },
        }
    }
}

pub proof fn lemma_context_step_advances(lines: Seq<Seq<char>>, i: int)
    requires
        0 <= i < lines.len(),
    ensures
        match context_step(lines, i) {
            ContextStep::Hunk { hunk, next } => i < next <= lines.len(),
            ContextStep::End { at } => i < at <= lines.len(),
            ContextStep::Bad { error } => true,
        },
{
    if i + 1 < lines.len() {
        lemma_halves_advance(lines, i + 2, Seq::empty());
        let j = old_half(lines, i + 2, Seq::empty()).1;
        lemma_halves_advance(lines, j + 1, Seq::empty());
    }
}

/// The hunks of a context diff from line `i` on, after the hunks `acc`, and
/// where they end.
pub open spec fn context_hunks(lines: Seq<Seq<char>>, i: int, acc: Seq<HunkModel>) -> Result<
    (Seq<HunkModel>, int),
    PatchError,
>
    decreases lines.len() - i,
{
    if i < 0 || i >= lines.len() || !has_prefix(lines[i], "***************"@) {
        Ok((acc, i))
    } else {
        proof {
            lemma_context_step_advances(lines, i);
        }
        match context_step(lines, i) {
            ContextStep::Bad { error } => Err(error),
            ContextStep::End { at } => Ok((acc, at)),
            ContextStep::Hunk { hunk, next } => context_hunks(lines, next, acc.push(hunk)),
        }
    }
}

pub proof fn lemma_context_hunks_advance(lines: Seq<Seq<char>>, i: int, acc: Seq<HunkModel>)
    requires
        0 <= i <= lines.len(),
    ensures
        context_hunks(lines, i, acc) matches Ok((hunks, next)) ==> {
            &&& i <= next <= lines.len()
            &&& hunks.len() >= acc.len()
            &&& hunks.len() > acc.len() ==> next > i
        },
    decreases lines.len() - i,
{
    if i < lines.len() && has_prefix(lines[i], "***************"@) {
        lemma_context_step_advances(lines, i);
        if let ContextStep::Hunk { hunk, next } = context_step(lines, i) {
            lemma_context_hunks_advance(lines, next, acc.push(hunk));
        }
    }
}

/// Where a context diff starts: at its header or, without one, at its first
/// hunk.
pub open spec fn context_start(lines: Seq<Seq<char>>, i: int) -> int
    decreases lines.len() - i,
{
    if i >= lines.len() || has_prefix(lines[i], "*** "@) || has_prefix(
        lines[i],
        "***************"@,
    ) {
        i
    } else {
        context_start(lines, i + 1)
    }
}

/// The context diff from line `start` on: the patch and where it ends, or
/// nothing.
pub open spec fn context_patch(lines: Seq<Seq<char>>, start: int) -> Result<
    Option<(PatchModel, int)>,
    PatchError,
> {
    let i = context_start(lines, start);
    let named = i < lines.len() && has_prefix(lines[i], "*** "@);
    if i >= lines.len() || (named && (i + 1 >= lines.len() || !has_prefix(
        lines[i + 1],
        "--- "@,
    ))) {
        Ok(None)
    } else {
        let first = if named {
            i + 2
        } else {
            i
        };
        match context_hunks(lines, first, Seq::empty()) {
            Err(e) => Err(e),
            Ok((hunks, next)) => if hunks.len() == 0 {
                Ok(None)
            } else {
                Ok(
                    Some(
                        (
                            PatchModel {
                                old_file: if named {
                                    header_file(lines[i])
                                } else {
                                    Seq::empty()
                                },
                                new_file: if named {
                                    header_file(lines[i + 1])
                                } else {
                                    Seq::empty()
                                },
                                old_header: if named {
                                    lines[i].skip(4)
                                } else {
                                    Seq::empty()
                                },
                                new_header: if named {
                                    lines[i + 1].skip(4)
                                } else {
                                    Seq::empty()
                                },
                                index_line: None,
                                hunks,
                                format: DiffFormat::Context,
                                git: plain_git(),
                            },
                            next,
                        ),
                    ),
                )
            },
        }
    }
}

proof fn lemma_context_start(lines: Seq<Seq<char>>, i: int)
    requires
        i <= lines.len(),
    ensures
        i <= context_start(lines, i) <= lines.len(),
    decreases lines.len() - i,
{
    if i < lines.len() && !has_prefix(lines[i], "*** "@) && !has_prefix(
        lines[i],
        "***************"@,
    ) {
        lemma_context_start(lines, i + 1);
    }
}

/// A patch ends below the line that reading started at.
pub proof fn lemma_context_patch_advances(lines: Seq<Seq<char>>, start: int)
    requires
        0 <= start <= lines.len(),
    ensures
        context_patch(lines, start) matches Ok(Some((patch, next))) ==> start < next <= lines.len(),
{
    lemma_context_start(lines, start);
    let i = context_start(lines, start);
    if i + 1 < lines.len() {
        lemma_context_hunks_advance(lines, i + 2, Seq::empty());
    }
    lemma_context_hunks_advance(lines, i, Seq::empty());
}

// ---------------------------------------------------------------------------
// What merging keeps
// ---------------------------------------------------------------------------

/// The texts of the lines.
pub open spec fn tag_texts(lines: Seq<Tagged>) -> Seq<Seq<char>> {
    Seq::new(lines.len(), |i: int| lines[i].1)
}

/// The texts of the context lines.
pub open spec fn context_texts(lines: Seq<Tagged>) -> Seq<Seq<char>>
    decreases lines.len(),
{
    if lines.len() == 0 {
        Seq::empty()
    } else if lines[0].0 == ' ' {
        seq![lines[0].1] + context_texts(lines.skip(1))
    } else {
        context_texts(lines.skip(1))
    }
}

/// The texts that hunk lines take from the old file.
pub open spec fn old_texts(lines: Seq<LineModel>) -> Seq<Seq<char>>
    decreases lines.len(),
{
    if lines.len() == 0 {
        Seq::empty()
    } else {
        match lines[0] {
            LineModel::Add(_) => old_texts(lines.skip(1)),
            LineModel::Context(s) | LineModel::Remove(s) => seq![s] + old_texts(lines.skip(1)),
        }
    }
}

/// The texts that hunk lines leave in the new file.
pub open spec fn new_texts(lines: Seq<LineModel>) -> Seq<Seq<char>>
    decreases lines.len(),
{
    if lines.len() == 0 {
        Seq::empty()
    } else {
        match lines[0] {
            LineModel::Remove(_) => new_texts(lines.skip(1)),
            LineModel::Context(s) | LineModel::Add(s) => seq![s] + new_texts(lines.skip(1)),
        }
    }
}

/// The old half of hunk lines. Removed lines are marked as changed when the
/// hunk both removes and adds.
pub open spec fn old_tags(lines: Seq<LineModel>, change: bool) -> Seq<Tagged>
    decreases lines.len(),
{
    if lines.len() == 0 {
        Seq::empty()
    } else {
        match lines[0] {
            LineModel::Context(s) => seq![(' ', s)] + old_tags(lines.skip(1), change),
            LineModel::Remove(s) => seq![
                (if change {
                    '!'
                } else {
                    '-'
                }, s),
            ] + old_tags(lines.skip(1), change),
            LineModel::Add(_) => old_tags(lines.skip(1), change),
        }
    }
}

/// The new half of hunk lines. Added lines are marked as changed when the hunk
/// both removes and adds.
pub open spec fn new_tags(lines: Seq<LineModel>, change: bool) -> Seq<Tagged>
    decreases lines.len(),
{
    if lines.len() == 0 {
        Seq::empty()
    } else {
        match lines[0] {
            LineModel::Context(s) => seq![(' ', s)] + new_tags(lines.skip(1), change),
            LineModel::Add(s) => seq![
                (if change {
                    '!'
                } else {
                    '+'
                }, s),
            ] + new_tags(lines.skip(1), change),
            LineModel::Remove(_) => new_tags(lines.skip(1), change),
        }
    }
}

/// After the added lines at the start comes a removed line.
pub open spec fn removes_next(lines: Seq<LineModel>) -> bool
    decreases lines.len(),
{
    if lines.len() == 0 {
        false
    } else {
        match lines[0] {
            LineModel::Context(_) => false,
            LineModel::Remove(_) => true,
            LineModel::Add(_) => removes_next(lines.skip(1)),
        }
    }
}

/// Between two context lines, the removed lines come before the added ones.
pub open spec fn removes_first(lines: Seq<LineModel>) -> bool
    decreases lines.len(),
{
    if lines.len() == 0 {
        true
    } else {
        (lines[0] is Add ==> !removes_next(lines.skip(1))) && removes_first(lines.skip(1))
    }
}

proof fn lemma_old_tags_start(lines: Seq<LineModel>, change: bool)
    requires
        !removes_next(lines),
    ensures
        old_tags(lines, change).len() > 0 ==> old_tags(lines, change)[0].0 == ' ',
    decreases lines.len(),
{
    if lines.len() > 0 {
        if let LineModel::Add(_) = lines[0] {
            lemma_old_tags_start(lines.skip(1), change);
        }
    }
}

/// Splitting hunk lines into two halves and merging these gives the lines
/// back, when removed lines come before added ones.
pub proof fn law_merge_undoes_split(lines: Seq<LineModel>, change: bool)
    requires
        removes_first(lines),
    ensures
        merged(old_tags(lines, change), new_tags(lines, change)) == lines,
    decreases lines.len(),
{
    let old = old_tags(lines, change);
    let new = new_tags(lines, change);
    if lines.len() > 0 {
        let rest = lines.skip(1);
        law_merge_undoes_split(rest, change);
        match lines[0] {
            LineModel::Context(s) => {
                assert(old.skip(1) =~= old_tags(rest, change));
                assert(new.skip(1) =~= new_tags(rest, change));
            },
            LineModel::Remove(s) => {
                assert(old.skip(1) =~= old_tags(rest, change));
            },
            LineModel::Add(s) => {
                lemma_old_tags_start(rest, change);
                assert(new.skip(1) =~= new_tags(rest, change));
            },
        }
        assert(lines =~= seq![lines[0]] + rest);
    }
}

/// Two halves of a hunk that are marked as a context diff marks them and have
/// the same context come out of the merge unharmed: its old side is the old
/// half, and its new side the new half.
pub proof fn law_merge_keeps_both_sides(old: Seq<Tagged>, new: Seq<Tagged>)
    requires
        forall|i: int|
            0 <= i < old.len() ==> ((#[trigger] old[i]).0 == ' ' || old[i].0 == '!' || old[i].0
                == '-'),
        forall|i: int|
            0 <= i < new.len() ==> ((#[trigger] new[i]).0 == ' ' || new[i].0 == '!' || new[i].0
                == '+'),
        context_texts(old) == context_texts(new),
    ensures
        old_texts(merged(old, new)) == tag_texts(old),
        new_texts(merged(old, new)) == tag_texts(new),
    decreases old.len() + new.len(),
{
    let m = merged(old, new);
    let old_is_context = old.len() > 0 && old[0].0 == ' ';
    let new_is_context = new.len() > 0 && new[0].0 == ' ';
    if old_is_context && new_is_context {
        let a = seq![old[0].1] + context_texts(old.skip(1));
        let b = seq![new[0].1] + context_texts(new.skip(1));
        assert(a[0] == old[0].1 && b[0] == new[0].1);
        assert(a.skip(1) =~= context_texts(old.skip(1)));
        assert(b.skip(1) =~= context_texts(new.skip(1)));
        law_merge_keeps_both_sides(old.skip(1), new.skip(1));
        assert(m.skip(1) =~= merged(old.skip(1), new.skip(1)));
        assert(tag_texts(old) =~= seq![old[0].1] + tag_texts(old.skip(1)));
        assert(tag_texts(new) =~= seq![new[0].1] + tag_texts(new.skip(1)));
    } else if old.len() > 0 && (old[0].0 == '!' || old[0].0 == '-') {
        law_merge_keeps_both_sides(old.skip(1), new);
        assert(m.skip(1) =~= merged(old.skip(1), new));
        assert(tag_texts(old) =~= seq![old[0].1] + tag_texts(old.skip(1)));
    } else if new.len() > 0 && (new[0].0 == '!' || new[0].0 == '+') {
        law_merge_keeps_both_sides(old, new.skip(1));
        assert(m.skip(1) =~= merged(old, new.skip(1)));
        assert(tag_texts(new) =~= seq![new[0].1] + tag_texts(new.skip(1)));
    } else {
        if old_is_context {
            assert(new.len() == 0);
            assert(context_texts(old).len() > 0);
        }
        if new_is_context {
            assert(old.len() == 0);
            assert(context_texts(new).len() > 0);
        }
        assert(tag_texts(old) =~= Seq::empty());
        assert(tag_texts(new) =~= Seq::empty());
    }
}

// ---------------------------------------------------------------------------
// Operations
// ---------------------------------------------------------------------------

/// Makes one run of hunk lines out of the two halves of a context hunk.
pub fn context_to_unified_lines(
    old_lines: &Vec<(char, String)>,
    new_lines: &Vec<(char, String)>,
) -> (r: Vec<HunkLine>)
    ensures
        line_models(r@) == merged(tagged(old_lines@), tagged(new_lines@)),
{
    let ghost old = tagged(old_lines@);
    let ghost new = tagged(new_lines@);
    let mut out: Vec<HunkLine> = Vec::new();
    let mut oi: usize = 0;
    let mut ni: usize = 0;
    let on = old_lines.len();
    let nn = new_lines.len();
    proof {
        assert(old.skip(0) =~= old);
        assert(new.skip(0) =~= new);
        assert(line_models(out@) + merged(old, new) =~= merged(old, new));
    }
    while oi < on || ni < nn
        invariant
            old == tagged(old_lines@),
            new == tagged(new_lines@),
            on == old_lines@.len(),
            nn == new_lines@.len(),
            oi <= on,
            ni <= nn,
            line_models(out@) + merged(old.skip(oi as int), new.skip(ni as int)) == merged(
                old,
                new,
            ),
        decreases on - oi + nn - ni,
    {
        let ghost o = old.skip(oi as int);
        let ghost n = new.skip(ni as int);
        let ghost before = line_models(out@);
        let old_is_context = oi < on && old_lines[oi].0 == ' ';
        let new_is_context = ni < nn && new_lines[ni].0 == ' ';
        proof {
            if oi < on {
                assert(o[0] == (old_lines@[oi as int].0, old_lines@[oi as int].1@));
                assert(o.skip(1) =~= old.skip(oi + 1));
            }
            if ni < nn {
                assert(n[0] == (new_lines@[ni as int].0, new_lines@[ni as int].1@));
                assert(n.skip(1) =~= new.skip(ni + 1));
            }
        }
        let line: HunkLine;
        if old_is_context && new_is_context {
            line = HunkLine::Context(old_lines[oi].1.clone());
            oi = oi + 1;
            ni = ni + 1;
        } else if oi < on && (old_lines[oi].0 == '!' || old_lines[oi].0 == '-') {
            line = HunkLine::Remove(old_lines[oi].1.clone());
            oi = oi + 1;
        } else if ni < nn && (new_lines[ni].0 == '!' || new_lines[ni].0 == '+') {
            line = HunkLine::Add(new_lines[ni].1.clone());
            ni = ni + 1;
        } else if old_is_context {
            line = HunkLine::Context(old_lines[oi].1.clone());
            oi = oi + 1;
        } else if new_is_context {
            line = HunkLine::Context(new_lines[ni].1.clone());
            ni = ni + 1;
        } else {
            assert(before + Seq::<LineModel>::empty() =~= before);
            return out;
        }
        let ghost model = line@;
        out.push(line);
        proof {
            let rest = merged(old.skip(oi as int), new.skip(ni as int));
            assert(line_models(out@) =~= before.push(model));
            assert(merged(o, n) == seq![model] + rest);
            assert(before + (seq![model] + rest) =~= before.push(model) + rest);
        }
    }
    proof {
        assert(merged(old.skip(oi as int), new.skip(ni as int)) =~= Seq::empty());
        assert(line_models(out@) + Seq::<LineModel>::empty() =~= line_models(out@));
    }
    out
}

/// Reads a line of the old half of a hunk.
fn read_old_half_line(line: &str) -> (r: Option<(char, String)>)
    ensures
        match r {
            Some(l) => old_half_line(line@) == Some((l.0, l.1@)),
            None => old_half_line(line@) is None,
        },
{
    if let Some(rest) = strip_prefix(line, "! ") {
        Some(('!', rest.to_owned()))
    } else if let Some(rest) = strip_prefix(line, "- ") {
        Some(('-', rest.to_owned()))
    } else if let Some(rest) = strip_prefix(line, "  ") {
        Some((' ', rest.to_owned()))
    } else if let Some(rest) = strip_prefix(line, " ") {
        Some((' ', rest.to_owned()))
    } else {
        None
    }
}

/// Reads a line of the new half of a hunk.
fn read_new_half_line(line: &str) -> (r: Option<(char, String)>)
    ensures
        match r {
            Some(l) => new_half_line(line@) == Some((l.0, l.1@)),
            None => new_half_line(line@) is None,
        },
{
    if let Some(rest) = strip_prefix(line, "! ") {
        Some(('!', rest.to_owned()))
    } else if let Some(rest) = strip_prefix(line, "+ ") {
        Some(('+', rest.to_owned()))
    } else if let Some(rest) = strip_prefix(line, "  ") {
        Some((' ', rest.to_owned()))
    } else if str_eq(line, " ") {
        Some((' ', String::new()))
    } else {
        None
    }
}

/// Reads the old half of a hunk.
fn read_old_half(lines: &[&str], start: usize) -> (r: (Vec<(char, String)>, usize))
    requires
        start <= lines@.len(),
    ensures
        (tagged(r.0@), r.1 as int) == old_half(slices(lines@), start as int, Seq::empty()),
        start <= r.1 <= lines@.len(),
{
    let ghost all = slices(lines@);
    let n = lines.len();
    let mut out: Vec<(char, String)> = Vec::new();
    let mut i: usize = start;
    assert(tagged(out@) =~= Seq::empty());
    while i < n && !starts_with(lines[i], "--- ")
        invariant
            all == slices(lines@),
            n == lines@.len(),
            start <= i <= n,
            old_half(all, i as int, tagged(out@)) == old_half(all, start as int, Seq::empty()),
        decreases n - i,
    {
        assert(all[i as int] == lines@[i as int]@);
        let ghost before = tagged(out@);
        if let Some(l) = read_old_half_line(lines[i]) {
            let ghost model = (l.0, l.1@);
            out.push(l);
            assert(tagged(out@) =~= before.push(model));
        }
        i = i + 1;
    }
    proof {
        if i < n {
            assert(all[i as int] == lines@[i as int]@);
        }
    }
    (out, i)
}

/// Reads the new half of a hunk.
fn read_new_half(lines: &[&str], start: usize) -> (r: (Vec<(char, String)>, usize))
    requires
        start <= lines@.len(),
    ensures
        (tagged(r.0@), r.1 as int) == new_half(slices(lines@), start as int, Seq::empty()),
        start <= r.1 <= lines@.len(),
{
    let ghost all = slices(lines@);
    let n = lines.len();
    let mut out: Vec<(char, String)> = Vec::new();
    let mut i: usize = start;
    assert(tagged(out@) =~= Seq::empty());
    while i < n && !starts_with(lines[i], "***************") && !starts_with(lines[i], "diff ")
        && !starts_with(lines[i], "*** ")
        invariant
            all == slices(lines@),
            n == lines@.len(),
            start <= i <= n,
            new_half(all, i as int, tagged(out@)) == new_half(all, start as int, Seq::empty()),
        decreases n - i,
    {
        assert(all[i as int] == lines@[i as int]@);
        let ghost before = tagged(out@);
        match read_new_half_line(lines[i]) {
            Some(l) => {
                let ghost model = (l.0, l.1@);
                out.push(l);
                assert(tagged(out@) =~= before.push(model));
            },
            None => {
                return (out, i);
            },
        }
        i = i + 1;
    }
    proof {
        if i < n {
            assert(all[i as int] == lines@[i as int]@);
        }
    }
    (out, i)
}

/// Makes one half of a hunk out of the other.
fn imply(lines: &Vec<(char, String)>, own: char) -> (r: Vec<(char, String)>)
    ensures
        tagged(r@) == implied(tagged(lines@), own),
{
    let ghost all = tagged(lines@);
    let mut out: Vec<(char, String)> = Vec::new();
    let mut i: usize = 0;
    assert(tagged(out@) =~= Seq::empty());
    while i < lines.len()
        invariant
            all == tagged(lines@),
            i <= lines@.len(),
            tagged(out@) == implied(all.take(i as int), own),
        decreases lines@.len() - i,
    {
        proof {
            assert(all.take(i + 1).drop_last() =~= all.take(i as int));
            assert(all.take(i + 1).last() == (lines@[i as int].0, lines@[i as int].1@));
        }
        let mark = lines[i].0;
        if mark != own {
            let ghost before = tagged(out@);
            let kind = if mark == '!' {
                '!'
            } else {
                ' '
            };
            let text = lines[i].1.clone();
            out.push((kind, text));
            assert(tagged(out@) =~= before.push((kind, text@)));
        }
        i = i + 1;
    }
    assert(all.take(all.len() as int) =~= all);
    out
}

/// What one hunk of a context diff comes to.
enum Step {
    Hunk(Hunk, usize),
    End(usize),
    Bad(PatchError),
}

/// The number of lines of a range; `None` when it does not fit.
fn count_range(range: (usize, usize)) -> (r: Option<usize>)
    ensures
        match r {
            Some(n) => n == range_len(range.0, range.1),
            None => range_len(range.0, range.1) > usize::MAX,
        },
{
    if range.1 >= range.0 {
        (range.1 - range.0).checked_add(1)
    } else {
        Some(0)
    }
}

/// Reads the hunk that starts with the row of stars at line `i`.
fn read_context_step(lines: &[&str], i: usize) -> (r: Step)
    requires
        i < lines@.len(),
        has_prefix(slices(lines@)[i as int], "***************"@),
    ensures
        match r {
            Step::Hunk(hunk, next) => {
                &&& context_step(slices(lines@), i as int) == ContextStep::Hunk {
                    hunk: hunk@,
                    next: next as int,
                }
                &&& i < next <= lines@.len()
            },
            Step::End(at) => {
                &&& context_step(slices(lines@), i as int) == ContextStep::End { at: at as int }
                &&& i < at <= lines@.len()
            },
            Step::Bad(e) => context_step(slices(lines@), i as int) == ContextStep::Bad { error: e },
        },
{
    let ghost all = slices(lines@);
    let n = lines.len();
    let suffix = match strip_prefix(lines[i], "***************") {
        Some(rest) => rest.to_owned(),
        None => String::new(),
    };
    assert(all[i as int] == lines@[i as int]@);
    if i + 1 >= n {
        return Step::End(i + 1);
    }
    assert(all[i + 1] == lines@[i + 1]@);
    let old_range = match parse_context_hunk_range(lines[i + 1]) {
        Err(e) => return Step::Bad(e),
        Ok(None) => return Step::End(i + 1),
        Ok(Some(range)) => range,
    };
    let (old, j) = read_old_half(lines, i + 2);
    if j >= n {
        return Step::End(j);
    }
    assert(all[j as int] == lines@[j as int]@);
    let new_range = match parse_context_hunk_range(lines[j]) {
        Err(e) => return Step::Bad(e),
        Ok(None) => return Step::End(j),
        Ok(Some(range)) => range,
    };
    let (new, next) = read_new_half(lines, j + 1);
    proof {
        lemma_halves_advance(all, j + 1, Seq::empty());
        assert(tagged(new@).len() == new@.len());
        assert(tagged(old@).len() == old@.len());
    }
    let old_count = match count_range(old_range) {
        Some(c) => c,
        None => return Step::Bad(PatchError::NumberOutOfRange),
    };
    let new_count = match count_range(new_range) {
        Some(c) => c,
        None => return Step::Bad(PatchError::NumberOutOfRange),
    };
    if new.len() > 0 && new.len() != new_count {
        return Step::Bad(PatchError::MangledHunk { line: next - new.len() - 1 });
    }
    let fill_old = old.len() == 0 && old_count > 0 && new.len() > 0;
    let fill_new = new.len() == 0 && new_count > 0 && old.len() > 0;
    let ghost model = context_hunk(suffix@, old_range, new_range, tagged(old@), tagged(new@));
    let ghost sides = filled(tagged(old@), tagged(new@), old_count as int, new_count as int);
    let effective_old = if fill_old {
        imply(&new, '+')
    } else {
        old
    };
    let effective_new = if fill_new {
        imply(&effective_old, '-')
    } else {
        new
    };
    proof {
        assert(tagged(effective_old@) == sides.0);
        assert(tagged(effective_new@) == sides.1);
        assert(tagged(effective_old@).len() == effective_old@.len());
        assert(tagged(effective_new@).len() == effective_new@.len());
    }
    let hunk = Hunk {
        old_start: old_range.0,
        old_count: if effective_old.len() == 0 {
            0
        } else {
            old_count
        },
        new_start: new_range.0,
        new_count: if effective_new.len() == 0 {
            0
        } else {
            new_count
        },
        header_suffix: suffix,
        lines: context_to_unified_lines(&effective_old, &effective_new),
    };
    assert(hunk@ == model);
    Step::Hunk(hunk, next)
}

/// Reads the context diff from line `start` on: the patch and the line after
/// it, or `None` when there is no patch there.
pub fn parse_context_patch(lines: &[&str], start: usize) -> (r: Result<
    Option<(FilePatch, usize)>,
    PatchError,
>)
    requires
        start <= lines@.len(),
    ensures
        match r {
            Ok(Some((patch, next))) => context_patch(slices(lines@), start as int) == Ok::<
                _,
                PatchError,
            >(Some((patch@, next as int))) && start < next <= lines@.len(),
            Ok(None) => context_patch(slices(lines@), start as int) == Ok::<
                Option<(PatchModel, int)>,
                PatchError,
            >(None),
            Err(e) => context_patch(slices(lines@), start as int) == Err::<
                Option<(PatchModel, int)>,
                _,
            >(e),
        },
{
    let ghost all = slices(lines@);
    let n = lines.len();
    let mut i: usize = start;
    while i < n && !starts_with(lines[i], "*** ") && !starts_with(lines[i], "***************")
        invariant
            all == slices(lines@),
            n == lines@.len(),
            start <= i <= n,
            context_start(all, i as int) == context_start(all, start as int),
        decreases n - i,
    {
        assert(all[i as int] == lines@[i as int]@);
        i = i + 1;
    }
    if i >= n {
        return Ok(None);
    }
    assert(all[i as int] == lines@[i as int]@);
    let ghost at = i as int;
    assert(context_start(all, start as int) == at);
    let mut old_file = String::new();
    let mut new_file = String::new();
    let mut old_header = String::new();
    let mut new_header = String::new();
    proof {
        reveal_strlit("*** ");
        reveal_strlit("--- ");
    }
    if let Some(rest) = strip_prefix(lines[i], "*** ") {
        old_file = read_header_file(lines[i], "*** ");
        old_header = rest.to_owned();
        i = i + 1;
        if i >= n {
            return Ok(None);
        }
        assert(all[i as int] == lines@[i as int]@);
        match strip_prefix(lines[i], "--- ") {
            Some(rest) => {
                new_file = read_header_file(lines[i], "--- ");
                new_header = rest.to_owned();
            },
            None => {
                return Ok(None);
            },
        }
        i = i + 1;
    }
    let ghost first = i as int;
    let mut hunks: Vec<Hunk> = Vec::new();
    let mut done = false;
    assert(hunk_models(hunks@) =~= Seq::empty());
    while !done && i < n && starts_with(lines[i], "***************")
        invariant
            all == slices(lines@),
            n == lines@.len(),
            start <= first <= i <= n,
            hunks@.len() > 0 ==> first < i,
            context_hunks(all, first, Seq::empty()) matches Err(e) ==> context_patch(
                all,
                start as int,
            ) == Err::<Option<(PatchModel, int)>, _>(e),
            !done ==> context_hunks(all, i as int, hunk_models(hunks@)) == context_hunks(
                all,
                first,
                Seq::empty(),
            ),
            done ==> context_hunks(all, first, Seq::empty()) == Ok::<_, PatchError>(
                (hunk_models(hunks@), i as int),
            ),
        ensures
            context_hunks(all, first, Seq::empty()) == Ok::<_, PatchError>(
                (hunk_models(hunks@), i as int),
            ),
            start <= first <= i <= n,
            hunks@.len() > 0 ==> first < i,
        decreases n - i,
    {
        assert(all[i as int] == lines@[i as int]@);
        match read_context_step(lines, i) {
            Step::Bad(e) => {
                return Err(e);
            },
            Step::End(at) => {
                i = at;
                done = true;
            },
            Step::Hunk(hunk, next) => {
                let ghost before = hunk_models(hunks@);
                let ghost model = hunk@;
                hunks.push(hunk);
                assert(hunk_models(hunks@) =~= before.push(model));
                i = next;
            },
        }
        proof {
            if !done && i < n {
                assert(all[i as int] == lines@[i as int]@);
            }
        }
    }
    assert(hunk_models(hunks@).len() == hunks@.len());
    if hunks.len() == 0 {
        return Ok(None);
    }
    let patch = FilePatch {
        old_file,
        new_file,
        old_header,
        new_header,
        index_line: None,
        hunks,
        format: DiffFormat::Context,
        git: GitMeta::default(),
    };
    Ok(Some((patch, i)))
}

} // verus!
