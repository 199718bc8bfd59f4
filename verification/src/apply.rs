//! Placing a hunk in a file and carrying it out there.
use vstd::prelude::*;

use crate::model::{Hunk, HunkLine, HunkModel, LineModel};
use crate::text::{drop_cr, texts, without_cr};

verus! {

/// What a hunk line does to the file, in the direction of application.
#[derive(Debug, Clone, Copy, PartialEq, Eq, Structural)]
pub enum Kind {
    /// Expected in the file and kept.
    Context,
    /// Expected in the file and dropped.
    Consume,
    /// Written to the file.
    Produce,
}

/// A hunk line in the direction of application.
#[derive(Debug)]
pub struct Step {
    pub kind: Kind,
    pub text: String,
}

/// A step with its text.
pub struct StepModel {
    pub kind: Kind,
    pub text: Seq<char>,
}

impl View for Step {
    type V = StepModel;

    open spec fn view(&self) -> StepModel {
        StepModel { kind: self.kind, text: self.text@ }
    }
}

/// Why a hunk cannot be tried to the end.
#[derive(Debug, Clone, Copy, PartialEq, Eq, Structural)]
pub enum ApplyError {
    /// The hunk is context only, and the lines that fuzz would leave out at
    /// its two ends overlap.
    FuzzOverlap,
}

/// What a hunk line does, forward or in reverse. Without carriage returns
/// when they are stripped.
pub open spec fn step_of(line: LineModel, reverse: bool, strip_cr: bool) -> StepModel {
    let (kind, text) = match line {
        LineModel::Context(s) => (Kind::Context, s),
        LineModel::Remove(s) => (if reverse {
            Kind::Produce
        } else {
            Kind::Consume
        }, s),
        LineModel::Add(s) => (if reverse {
            Kind::Consume
        } else {
            Kind::Produce
        }, s),
    };
    StepModel {
        kind,
        text: if strip_cr {
            without_cr(text)
        } else {
            text
        },
    }
}

/// The steps of hunk lines.
pub open spec fn steps_of(lines: Seq<LineModel>, reverse: bool, strip_cr: bool) -> Seq<StepModel> {
    Seq::new(lines.len(), |i: int| step_of(lines[i], reverse, strip_cr))
}

/// The lines that the steps expect in the file.
pub open spec fn old_side(steps: Seq<StepModel>) -> Seq<Seq<char>>
    decreases steps.len(),
{
    if steps.len() == 0 {
        Seq::empty()
    } else if steps.last().kind == Kind::Produce {
        old_side(steps.drop_last())
    } else {
        old_side(steps.drop_last()).push(steps.last().text)
    }
}

/// The lines that the steps leave in the file.
pub open spec fn new_side(steps: Seq<StepModel>) -> Seq<Seq<char>>
    decreases steps.len(),
{
    if steps.len() == 0 {
        Seq::empty()
    } else if steps.last().kind == Kind::Consume {
        new_side(steps.drop_last())
    } else {
        new_side(steps.drop_last()).push(steps.last().text)
    }
}

/// The number of context lines that the steps begin with.
pub open spec fn leading_context(steps: Seq<StepModel>) -> nat
    decreases steps.len(),
{
    if steps.len() > 0 && steps[0].kind == Kind::Context {
        1 + leading_context(steps.skip(1))
    } else {
        0
    }
}

/// The number of context lines that the steps end with.
pub open spec fn trailing_context(steps: Seq<StepModel>) -> nat
    decreases steps.len(),
{
    if steps.len() > 0 && steps.last().kind == Kind::Context {
        1 + trailing_context(steps.drop_last())
    } else {
        0
    }
}

/// The file holds the old side of the steps from line `pos` on.
pub open spec fn fits(file: Seq<Seq<char>>, steps: Seq<StepModel>, pos: int) -> bool {
    let n = old_side(steps).len();
    0 <= pos && pos + n <= file.len() && file.subrange(pos, pos + n) == old_side(steps)
}

/// The file with the old side of the steps at line `pos` replaced by the new
/// side.
pub open spec fn replaced(file: Seq<Seq<char>>, steps: Seq<StepModel>, pos: int) -> Seq<Seq<char>> {
    file.take(pos) + new_side(steps) + file.skip(pos + old_side(steps).len())
}

/// `n` read as a signed number of 64 bits.
pub open spec fn as_signed(n: usize) -> int {
    if n <= i64::MAX {
        n as int
    } else {
        n - 0x1_0000_0000_0000_0000
    }
}

/// The line, counted from zero, at which a range of a hunk header starts. A
/// range of no lines names the line before it.
pub open spec fn range_start(start: usize, count: usize) -> usize {
    if start == 0 || count == 0 {
        start
    } else {
        (start - 1) as usize
    }
}

/// The line at which the hunk says it belongs.
pub open spec fn expected_pos(h: HunkModel, reverse: bool) -> int {
    if reverse {
        as_signed(range_start(h.new_start, h.new_count))
    } else {
        as_signed(range_start(h.old_start, h.old_count))
    }
}

/// How many context lines fuzz leaves out at the start.
pub open spec fn lead_cut(steps: Seq<StepModel>, fuzz: int) -> int {
    if fuzz <= leading_context(steps) {
        fuzz
    } else {
        leading_context(steps) as int
    }
}

/// How many context lines fuzz leaves out at the end.
pub open spec fn trail_cut(steps: Seq<StepModel>, fuzz: int) -> int {
    if fuzz <= trailing_context(steps) {
        fuzz
    } else {
        trailing_context(steps) as int
    }
}

/// The cuts at the two ends of the steps overlap.
pub open spec fn cuts_overlap(steps: Seq<StepModel>, fuzz: int) -> bool {
    lead_cut(steps, fuzz) + trail_cut(steps, fuzz) > steps.len()
}

/// The steps that are left at this fuzz.
pub open spec fn cut(steps: Seq<StepModel>, fuzz: int) -> Seq<StepModel> {
    steps.subrange(lead_cut(steps, fuzz), steps.len() - trail_cut(steps, fuzz))
}

/// How far from its place a hunk is looked for.
pub open spec fn reach(file: Seq<Seq<char>>) -> int {
    if file.len() <= i64::MAX {
        file.len() as int
    } else {
        i64::MAX as int
    }
}

/// The offset `a` is tried before the offset `b`: nearer first, and forward
/// before backward.
pub open spec fn sooner(a: int, b: int) -> bool {
    let (m, n) = (if a < 0 {
        -a
    } else {
        a
    }, if b < 0 {
        -b
    } else {
        b
    });
    m < n || (m == n && a > b)
}

/// At this fuzz, the steps fit at this offset from line `base`.
pub open spec fn fits_at(
    file: Seq<Seq<char>>,
    steps: Seq<StepModel>,
    base: int,
    fuzz: int,
    offset: int,
) -> bool {
    fits(file, cut(steps, fuzz), base + offset + lead_cut(steps, fuzz))
}

/// At this fuzz, the steps fit nowhere within reach.
pub open spec fn fits_nowhere(
    file: Seq<Seq<char>>,
    steps: Seq<StepModel>,
    base: int,
    fuzz: int,
) -> bool {
    forall|o: int| -reach(file) <= o <= reach(file) ==> !#[trigger] fits_at(file, steps, base, fuzz, o)
}

/// The least fuzz up to `fuzz`, and at it the first offset, at which the
/// steps fit.
pub open spec fn first_fit(
    file: Seq<Seq<char>>,
    steps: Seq<StepModel>,
    base: int,
    fuzz: int,
    level: int,
    offset: int,
) -> bool {
    &&& 0 <= level <= fuzz
    &&& forall|l: int| 0 <= l <= level ==> !#[trigger] cuts_overlap(steps, l)
    &&& forall|l: int| 0 <= l < level ==> #[trigger] fits_nowhere(file, steps, base, l)
    &&& -reach(file) <= offset <= reach(file)
    &&& fits_at(file, steps, base, level, offset)
    &&& forall|o: int|
        -reach(file) <= o <= reach(file) && sooner(o, offset) ==> !#[trigger] fits_at(
            file,
            steps,
            base,
            level,
            o,
        )
}

/// The steps fit at no fuzz up to `fuzz`.
pub open spec fn no_fit(file: Seq<Seq<char>>, steps: Seq<StepModel>, base: int, fuzz: int) -> bool {
    &&& forall|l: int| 0 <= l <= fuzz ==> !#[trigger] cuts_overlap(steps, l)
    &&& forall|l: int| 0 <= l <= fuzz ==> #[trigger] fits_nowhere(file, steps, base, l)
}

/// The cuts overlap at a fuzz up to `fuzz` before the steps fit.
pub open spec fn overlap_first(
    file: Seq<Seq<char>>,
    steps: Seq<StepModel>,
    base: int,
    fuzz: int,
) -> bool {
    exists|level: int|
        0 <= level <= fuzz && #[trigger] cuts_overlap(steps, level) && forall|l: int|
            0 <= l < level ==> #[trigger] fits_nowhere(file, steps, base, l)
}

/// What carrying out a hunk gives.
pub struct Applied {
    /// The file after it.
    pub lines: Seq<Seq<char>>,
    /// The fuzz that it took.
    pub level: int,
    /// How far from its place it was carried out.
    pub offset: int,
    /// The line, counted from zero, at which it starts, with the context that
    /// fuzz left out.
    pub start: int,
}

/// What carrying out a hunk at its first fit gives; `None` when it fits
/// nowhere.
pub open spec fn applied(
    file: Seq<Seq<char>>,
    h: HunkModel,
    fuzz: int,
    reverse: bool,
    strip_cr: bool,
) -> Result<Option<Applied>, ApplyError> {
    let steps = steps_of(h.lines, reverse, strip_cr);
    let base = expected_pos(h, reverse);
    if exists|level: int, offset: int| first_fit(file, steps, base, fuzz, level, offset) {
        let (level, offset) = choose|level: int, offset: int|
            first_fit(file, steps, base, fuzz, level, offset);
        Ok(Some(applied_at(file, steps, base, level, offset)))
    } else if no_fit(file, steps, base, fuzz) {
        Ok(None)
    } else {
        Err(ApplyError::FuzzOverlap)
    }
}

/// What carrying out steps at this fuzz and offset gives.
pub open spec fn applied_at(
    file: Seq<Seq<char>>,
    steps: Seq<StepModel>,
    base: int,
    level: int,
    offset: int,
) -> Applied {
    Applied {
        lines: replaced(file, cut(steps, level), base + offset + lead_cut(steps, level)),
        level,
        offset,
        start: if base + offset < 0 {
            0
        } else {
            base + offset
        },
    }
}

// ---------------------------------------------------------------------------
// Facts
// ---------------------------------------------------------------------------

proof fn lemma_sides_push(steps: Seq<StepModel>, s: StepModel)
    ensures
        old_side(steps.push(s)) == if s.kind == Kind::Produce {
            old_side(steps)
        } else {
            old_side(steps).push(s.text)
        },
        new_side(steps.push(s)) == if s.kind == Kind::Consume {
            new_side(steps)
        } else {
            new_side(steps).push(s.text)
        },
{
    assert(steps.push(s).drop_last() =~= steps);
}

proof fn lemma_old_side_prefix(steps: Seq<StepModel>, n: int)
    requires
        0 <= n <= steps.len(),
    ensures
        old_side(steps.take(n)).len() <= old_side(steps).len(),
        old_side(steps).take(old_side(steps.take(n)).len() as int) == old_side(steps.take(n)),
    decreases steps.len() - n,
{
    if n == steps.len() {
        assert(steps.take(n) =~= steps);
        assert(old_side(steps).take(old_side(steps).len() as int) =~= old_side(steps));
    } else {
        lemma_old_side_prefix(steps, n + 1);
        assert(steps.take(n + 1) =~= steps.take(n).push(steps[n]));
        lemma_sides_push(steps.take(n), steps[n]);
        let a = old_side(steps.take(n));
        let b = old_side(steps.take(n + 1));
        let all = old_side(steps);
        assert(b.take(a.len() as int) =~= a);
        assert(all.take(b.len() as int).take(a.len() as int) =~= all.take(a.len() as int));
    }
}

/// The runs of context are parts of the steps.
pub proof fn lemma_context_runs(steps: Seq<StepModel>)
    ensures
        leading_context(steps) <= steps.len(),
        trailing_context(steps) <= steps.len(),
    decreases steps.len(),
{
    if steps.len() > 0 {
        lemma_context_runs(steps.skip(1));
        lemma_context_runs(steps.drop_last());
    }
}

/// Reversing a hunk swaps its two sides and keeps the context at its ends.
pub proof fn lemma_reversed_sides(lines: Seq<LineModel>, reverse: bool, strip_cr: bool)
    ensures
        old_side(steps_of(lines, !reverse, strip_cr)) == new_side(
            steps_of(lines, reverse, strip_cr),
        ),
        new_side(steps_of(lines, !reverse, strip_cr)) == old_side(
            steps_of(lines, reverse, strip_cr),
        ),
        leading_context(steps_of(lines, !reverse, strip_cr)) == leading_context(
            steps_of(lines, reverse, strip_cr),
        ),
        trailing_context(steps_of(lines, !reverse, strip_cr)) == trailing_context(
            steps_of(lines, reverse, strip_cr),
        ),
    decreases lines.len(),
{
    let a = steps_of(lines, reverse, strip_cr);
    let b = steps_of(lines, !reverse, strip_cr);
    if lines.len() > 0 {
        lemma_reversed_sides(lines.drop_last(), reverse, strip_cr);
        assert(a.drop_last() =~= steps_of(lines.drop_last(), reverse, strip_cr));
        assert(b.drop_last() =~= steps_of(lines.drop_last(), !reverse, strip_cr));
        lemma_reversed_sides(lines.skip(1), reverse, strip_cr);
        assert(a.skip(1) =~= steps_of(lines.skip(1), reverse, strip_cr));
        assert(b.skip(1) =~= steps_of(lines.skip(1), !reverse, strip_cr));
    }
}

/// Carrying out a hunk and then the same hunk in reverse, at the same line
/// and fuzz, gives the file back: the reversed hunk fits where the hunk was
/// carried out, and replacing there restores every line.
pub proof fn law_reverse_undoes(
    file: Seq<Seq<char>>,
    lines: Seq<LineModel>,
    reverse: bool,
    strip_cr: bool,
    fuzz: int,
    pos: int,
)
    requires
        0 <= fuzz,
        !cuts_overlap(steps_of(lines, reverse, strip_cr), fuzz),
        fits(file, cut(steps_of(lines, reverse, strip_cr), fuzz), pos),
    ensures
        ({
            let there = cut(steps_of(lines, reverse, strip_cr), fuzz);
            let back = cut(steps_of(lines, !reverse, strip_cr), fuzz);
            &&& fits(replaced(file, there, pos), back, pos)
            &&& replaced(replaced(file, there, pos), back, pos) == file
        }),
{
    let steps = steps_of(lines, reverse, strip_cr);
    let there = cut(steps, fuzz);
    lemma_context_runs(steps);
    lemma_reversed_sides(lines, reverse, strip_cr);
    let part = lines.subrange(lead_cut(steps, fuzz), lines.len() - trail_cut(steps, fuzz));
    assert(there =~= steps_of(part, reverse, strip_cr));
    let back = cut(steps_of(lines, !reverse, strip_cr), fuzz);
    assert(back =~= steps_of(part, !reverse, strip_cr));
    lemma_reversed_sides(part, reverse, strip_cr);
    let after = replaced(file, there, pos);
    let n = new_side(there).len();
    assert(after.subrange(pos, pos + n) =~= new_side(there));
    assert(after.take(pos) =~= file.take(pos));
    assert(after.skip(pos + n) =~= file.skip(pos + old_side(there).len()));
    assert(replaced(after, back, pos) =~= file) by {
        assert(file =~= file.take(pos) + file.subrange(pos, pos + old_side(there).len())
            + file.skip(pos + old_side(there).len()));
    }
}

/// A hunk that stands in the file exactly where its header says is carried
/// out there, without fuzz or offset.
pub proof fn law_exact_place_wins(
    file: Seq<Seq<char>>,
    steps: Seq<StepModel>,
    base: int,
    fuzz: int,
    level: int,
    offset: int,
)
    requires
        fits_at(file, steps, base, 0, 0),
        first_fit(file, steps, base, fuzz, level, offset),
    ensures
        level == 0,
        offset == 0,
{
    if level > 0 {
        assert(fits_nowhere(file, steps, base, 0));
    }
}

/// At most one fuzz and offset are the first fit.
pub proof fn law_first_fit_is_unique(
    file: Seq<Seq<char>>,
    steps: Seq<StepModel>,
    base: int,
    fuzz: int,
    level1: int,
    offset1: int,
    level2: int,
    offset2: int,
)
    requires
        first_fit(file, steps, base, fuzz, level1, offset1),
        first_fit(file, steps, base, fuzz, level2, offset2),
    ensures
        level1 == level2,
        offset1 == offset2,
{
    if level1 < level2 {
        assert(fits_nowhere(file, steps, base, level1));
    } else if level2 < level1 {
        assert(fits_nowhere(file, steps, base, level2));
    } else if offset1 != offset2 {
        assert(sooner(offset1, offset2) || sooner(offset2, offset1));
    }
}

proof fn lemma_sides_add(a: Seq<StepModel>, b: Seq<StepModel>)
    ensures
        old_side(a + b) == old_side(a) + old_side(b),
        new_side(a + b) == new_side(a) + new_side(b),
    decreases b.len(),
{
    if b.len() == 0 {
        assert(a + b =~= a);
        assert(old_side(a) + old_side(b) =~= old_side(a));
        assert(new_side(a) + new_side(b) =~= new_side(a));
    } else {
        lemma_sides_add(a, b.drop_last());
        assert((a + b).drop_last() =~= a + b.drop_last());
        assert(old_side(a + b) =~= old_side(a) + old_side(b));
        assert(new_side(a + b) =~= new_side(a) + new_side(b));
    }
}

proof fn lemma_context_sides(steps: Seq<StepModel>)
    requires
        forall|i: int| 0 <= i < steps.len() ==> (#[trigger] steps[i]).kind == Kind::Context,
    ensures
        old_side(steps).len() == steps.len(),
        new_side(steps).len() == steps.len(),
    decreases steps.len(),
{
    if steps.len() > 0 {
        lemma_context_sides(steps.drop_last());
    }
}

proof fn lemma_runs_are_context(steps: Seq<StepModel>)
    ensures
        leading_context(steps) <= steps.len(),
        trailing_context(steps) <= steps.len(),
        forall|i: int|
            0 <= i < leading_context(steps) ==> (#[trigger] steps[i]).kind == Kind::Context,
        forall|i: int|
            steps.len() - trailing_context(steps) <= i < steps.len() ==> (
            #[trigger] steps[i]).kind == Kind::Context,
    decreases steps.len(),
{
    if steps.len() > 0 {
        lemma_runs_are_context(steps.skip(1));
        lemma_runs_are_context(steps.drop_last());
        assert forall|i: int| 0 <= i < leading_context(steps) implies (#[trigger] steps[i]).kind
            == Kind::Context by {
            if i > 0 {
                assert(steps[i] == steps.skip(1)[i - 1]);
            }
        }
        assert forall|i: int|
            steps.len() - trailing_context(steps) <= i < steps.len() implies (
        #[trigger] steps[i]).kind == Kind::Context by {
            if i < steps.len() - 1 {
                assert(steps[i] == steps.drop_last()[i]);
            }
        }
    }
}

/// What fuzz leaves out makes no difference to how much longer the file gets.
pub proof fn lemma_cut_keeps_growth(steps: Seq<StepModel>, fuzz: int)
    requires
        0 <= fuzz,
        !cuts_overlap(steps, fuzz),
    ensures
        new_side(cut(steps, fuzz)).len() - old_side(cut(steps, fuzz)).len() == new_side(
            steps,
        ).len() - old_side(steps).len(),
{
    lemma_runs_are_context(steps);
    let a = lead_cut(steps, fuzz);
    let b = steps.len() - trail_cut(steps, fuzz);
    let head = steps.take(a);
    let tail = steps.skip(b);
    let part = cut(steps, fuzz);
    assert forall|i: int| 0 <= i < tail.len() implies (#[trigger] tail[i]).kind == Kind::Context by {
        assert(tail[i] == steps[b + i]);
    }
    lemma_context_sides(head);
    lemma_context_sides(tail);
    lemma_sides_add(head, part);
    lemma_sides_add(head + part, tail);
    assert(head + part + tail =~= steps);
}

/// A first fit decides what carrying out the hunk gives.
pub proof fn lemma_applied_fit(
    file: Seq<Seq<char>>,
    h: HunkModel,
    fuzz: int,
    reverse: bool,
    strip_cr: bool,
    level: int,
    offset: int,
)
    requires
        first_fit(
            file,
            steps_of(h.lines, reverse, strip_cr),
            expected_pos(h, reverse),
            fuzz,
            level,
            offset,
        ),
    ensures
        applied(file, h, fuzz, reverse, strip_cr) == Ok::<_, ApplyError>(
            Some(
                applied_at(
                    file,
                    steps_of(h.lines, reverse, strip_cr),
                    expected_pos(h, reverse),
                    level,
                    offset,
                ),
            ),
        ),
{
    let steps = steps_of(h.lines, reverse, strip_cr);
    let base = expected_pos(h, reverse);
    let (l, o) = choose|l: int, o: int| first_fit(file, steps, base, fuzz, l, o);
    law_first_fit_is_unique(file, steps, base, fuzz, level, offset, l, o);
}

/// Without a fit, nothing is carried out.
proof fn lemma_applied_none(
    file: Seq<Seq<char>>,
    h: HunkModel,
    fuzz: int,
    reverse: bool,
    strip_cr: bool,
)
    ensures
        no_fit(file, steps_of(h.lines, reverse, strip_cr), expected_pos(h, reverse), fuzz)
            ==> applied(file, h, fuzz, reverse, strip_cr) == Ok::<Option<Applied>, ApplyError>(
            None,
        ),
        overlap_first(file, steps_of(h.lines, reverse, strip_cr), expected_pos(h, reverse), fuzz)
            ==> applied(file, h, fuzz, reverse, strip_cr) == Err::<Option<Applied>, _>(
            ApplyError::FuzzOverlap,
        ),
{
    let steps = steps_of(h.lines, reverse, strip_cr);
    let base = expected_pos(h, reverse);
    if exists|l: int, o: int| first_fit(file, steps, base, fuzz, l, o) {
        let (l, o) = choose|l: int, o: int| first_fit(file, steps, base, fuzz, l, o);
        if no_fit(file, steps, base, fuzz) {
            assert(fits_nowhere(file, steps, base, l));
        }
        if overlap_first(file, steps, base, fuzz) {
            let level = choose|level: int|
                0 <= level <= fuzz && #[trigger] cuts_overlap(steps, level) && forall|k: int|
                    0 <= k < level ==> #[trigger] fits_nowhere(file, steps, base, k);
            if l < level {
                assert(fits_nowhere(file, steps, base, l));
            }
        }
    }
}

/// A hunk that was carried out exactly where its header says, and whose header
/// names the same line on both sides, is undone by carrying it out in reverse:
/// that succeeds, without fuzz or offset, and gives the file back.
pub proof fn law_hunk_in_reverse_gives_back(
    file: Seq<Seq<char>>,
    h: HunkModel,
    fuzz: int,
    reverse: bool,
    strip_cr: bool,
    a: Applied,
)
    requires
        0 <= fuzz,
        applied(file, h, fuzz, reverse, strip_cr) == Ok::<_, ApplyError>(Some(a)),
        a.level == 0,
        a.offset == 0,
        expected_pos(h, !reverse) == expected_pos(h, reverse),
    ensures
        applied(a.lines, h, fuzz, !reverse, strip_cr) == Ok::<_, ApplyError>(
            Some(Applied { lines: file, level: 0, offset: 0, start: a.start }),
        ),
{
    let steps = steps_of(h.lines, reverse, strip_cr);
    let back = steps_of(h.lines, !reverse, strip_cr);
    let base = expected_pos(h, reverse);
    let (level, offset) = choose|level: int, offset: int|
        first_fit(file, steps, base, fuzz, level, offset);
    assert(level == 0 && offset == 0);
    lemma_context_runs(steps);
    lemma_context_runs(back);
    assert(!cuts_overlap(steps, 0));
    assert(!cuts_overlap(back, 0));
    law_reverse_undoes(file, h.lines, reverse, strip_cr, 0, base);
    assert(fits_at(a.lines, back, base, 0, 0));
    assert(first_fit(a.lines, back, base, fuzz, 0, 0));
    lemma_applied_fit(a.lines, h, fuzz, !reverse, strip_cr, 0, 0);
}

// ---------------------------------------------------------------------------
// Operations
// ---------------------------------------------------------------------------

/// The models of steps.
pub open spec fn step_models(steps: Seq<Step>) -> Seq<StepModel> {
    Seq::new(steps.len(), |i: int| steps[i]@)
}

/// The steps of a hunk.
fn classify(hunk: &Hunk, reverse: bool, strip_cr: bool) -> (r: Vec<Step>)
    ensures
        step_models(r@) == steps_of(hunk@.lines, reverse, strip_cr),
{
    let mut out: Vec<Step> = Vec::new();
    let mut i: usize = 0;
    let ghost all = steps_of(hunk@.lines, reverse, strip_cr);
    while i < hunk.lines.len()
        invariant
            i <= hunk.lines@.len(),
            all == steps_of(hunk@.lines, reverse, strip_cr),
            step_models(out@) == all.take(i as int),
        decreases hunk.lines@.len() - i,
    {
        let (kind, text) = match &hunk.lines[i] {
            HunkLine::Context(s) => (Kind::Context, s),
            HunkLine::Remove(s) => (if reverse {
                Kind::Produce
            } else {
                Kind::Consume
            }, s),
            HunkLine::Add(s) => (if reverse {
                Kind::Consume
            } else {
                Kind::Produce
            }, s),
        };
        let ghost before = step_models(out@);
        let text = if strip_cr {
            drop_cr(text.as_str()).to_owned()
        } else {
            text.clone()
        };
        let step = Step { kind, text };
        out.push(step);
        proof {
            assert(hunk@.lines[i as int] == hunk.lines@[i as int]@);
            assert(step@ == all[i as int]);
            assert(step_models(out@) =~= before.push(step@));
            assert(all.take(i + 1) =~= all.take(i as int).push(all[i as int]));
        }
        i = i + 1;
    }
    assert(all.take(all.len() as int) =~= all);
    out
}

/// The number of context steps at the start.
fn count_leading(steps: &Vec<Step>) -> (r: usize)
    ensures
        r == leading_context(step_models(steps@)),
        r <= steps@.len(),
{
    let ghost all = step_models(steps@);
    let mut i: usize = 0;
    assert(all.skip(0) =~= all);
    while i < steps.len() && steps[i].kind == Kind::Context
        invariant
            all == step_models(steps@),
            i <= steps@.len(),
            leading_context(all) == i + leading_context(all.skip(i as int)),
        decreases steps@.len() - i,
    {
        assert(all.skip(i as int).skip(1) =~= all.skip(i + 1));
        i = i + 1;
    }
    i
}

/// The number of context steps at the end.
fn count_trailing(steps: &Vec<Step>) -> (r: usize)
    ensures
        r == trailing_context(step_models(steps@)),
        r <= steps@.len(),
{
    let ghost all = step_models(steps@);
    let n = steps.len();
    let mut i: usize = 0;
    assert(all.take(n as int) =~= all);
    while i < n && steps[n - 1 - i].kind == Kind::Context
        invariant
            all == step_models(steps@),
            n == steps@.len(),
            i <= n,
            trailing_context(all) == i + trailing_context(all.take(n - i)),
        decreases n - i,
    {
        assert(all.take(n - i).drop_last() =~= all.take(n - i - 1));
        i = i + 1;
    }
    i
}

/// The number of lines that the steps from `a` to `b` expect.
fn count_old(steps: &Vec<Step>, a: usize, b: usize) -> (r: usize)
    requires
        a <= b <= steps@.len(),
    ensures
        r == old_side(step_models(steps@).subrange(a as int, b as int)).len(),
{
    let ghost all = step_models(steps@);
    let mut i: usize = a;
    let mut n: usize = 0;
    assert(all.subrange(a as int, a as int) =~= Seq::empty());
    while i < b
        invariant
            all == step_models(steps@),
            a <= i <= b <= steps@.len(),
            n <= i - a,
            n == old_side(all.subrange(a as int, i as int)).len(),
        decreases b - i,
    {
        proof {
            lemma_sides_push(all.subrange(a as int, i as int), all[i as int]);
            assert(all.subrange(a as int, i + 1) =~= all.subrange(a as int, i as int).push(
                all[i as int],
            ));
        }
        if steps[i].kind != Kind::Produce {
            n = n + 1;
        }
        i = i + 1;
    }
    n
}

/// Whether the steps from `a` to `b` fit at line `pos`.
fn try_at(file: &Vec<String>, steps: &Vec<Step>, a: usize, b: usize, old_len: usize, pos: i128) -> (r:
    bool)
    requires
        a <= b <= steps@.len(),
        old_len == old_side(step_models(steps@).subrange(a as int, b as int)).len(),
        -0x4000_0000_0000_0000_0000 <= pos <= 0x4000_0000_0000_0000_0000,
    ensures
        r == fits(texts(file@), step_models(steps@).subrange(a as int, b as int), pos as int),
{
    if pos < 0 || pos + old_len as i128 > file.len() as i128 {
        return false;
    }
    let start: usize = pos as usize;
    let total = file.len();
    let ghost all = step_models(steps@);
    let ghost part = all.subrange(a as int, b as int);
    let ghost lines = texts(file@);
    let mut i: usize = a;
    let mut at: usize = start;
    assert(all.subrange(a as int, a as int) =~= Seq::empty());
    assert(lines.subrange(start as int, at as int) =~= Seq::empty());
    while i < b
        invariant
            all == step_models(steps@),
            part == all.subrange(a as int, b as int),
            lines == texts(file@),
            total == file@.len(),
            a <= i <= b <= steps@.len(),
            start <= at,
            start == pos,
            start + old_side(part).len() <= file@.len(),
            at == start + old_side(all.subrange(a as int, i as int)).len(),
            at <= total,
            lines.subrange(start as int, at as int) == old_side(all.subrange(a as int, i as int)),
        decreases b - i,
    {
        let ghost seen = all.subrange(a as int, i as int);
        let ghost next = all.subrange(a as int, i + 1);
        proof {
            lemma_sides_push(seen, all[i as int]);
            assert(next =~= seen.push(all[i as int]));
            assert(part.take(i + 1 - a) =~= next);
            lemma_old_side_prefix(part, i + 1 - a);
        }
        if steps[i].kind != Kind::Produce {
            if file[at] != steps[i].text {
                proof {
                    let k = old_side(seen).len() as int;
                    assert(old_side(next)[k] == steps@[i as int].text@);
                    assert(old_side(part)[k] == old_side(part).take(old_side(next).len() as int)[k]);
                    assert(lines.subrange(start as int, start + old_side(part).len())[k]
                        == lines[at as int]);
                }
                return false;
            }
            proof {
                assert(lines.subrange(start as int, at + 1) =~= lines.subrange(
                    start as int,
                    at as int,
                ).push(lines[at as int]));
            }
            at = at + 1;
        }
        i = i + 1;
    }
    true
}

/// The first offset from `base` at which the steps from `a` to `b` fit.
fn try_level(
    file: &Vec<String>,
    steps: &Vec<Step>,
    a: usize,
    b: usize,
    base: i128,
) -> (r: Option<i64>)
    requires
        a <= b <= steps@.len(),
        -0x1_0000_0000_0000_0000 <= base <= 0x2_0000_0000_0000_0000,
    ensures
        ({
            let part = step_models(steps@).subrange(a as int, b as int);
            let lines = texts(file@);
            match r {
                Some(o) => {
                    &&& -reach(lines) <= o <= reach(lines)
                    &&& fits(lines, part, base + o)
                    &&& forall|p: int|
                        -reach(lines) <= p <= reach(lines) && sooner(p, o as int) ==> !#[trigger] fits(
                            lines,
                            part,
                            base + p,
                        )
                },
                None => forall|p: int|
                    -reach(lines) <= p <= reach(lines) ==> !#[trigger] fits(lines, part, base + p),
            }
        }),
{
    let ghost part = step_models(steps@).subrange(a as int, b as int);
    let ghost lines = texts(file@);
    let old_len = count_old(steps, a, b);
    let limit: i64 = if file.len() as u64 <= i64::MAX as u64 {
        file.len() as i64
    } else {
        i64::MAX
    };
    let mut m: i64 = 0;
    loop
        invariant
            a <= b <= steps@.len(),
            part == step_models(steps@).subrange(a as int, b as int),
            lines == texts(file@),
            old_len == old_side(part).len(),
            limit == reach(lines),
            0 <= m <= limit,
            -0x1_0000_0000_0000_0000 <= base <= 0x2_0000_0000_0000_0000,
            forall|p: int| -m < p < m ==> !#[trigger] fits(lines, part, base + p),
        decreases limit - m,
    {
        if try_at(file, steps, a, b, old_len, base + m as i128) {
            return Some(m);
        }
        if m > 0 {
            if try_at(file, steps, a, b, old_len, base - m as i128) {
                assert(fits(lines, part, base + (-m)));
                return Some(-m);
            }
        }
        if m == limit {
            assert forall|p: int| -reach(lines) <= p <= reach(lines) implies !#[trigger] fits(
                lines,
                part,
                base + p,
            ) by {
                if p == -m {
                    assert(base + p == base - m);
                }
            }
            return None;
        }
        assert forall|p: int| -(m + 1) < p < m + 1 implies !#[trigger] fits(
            lines,
            part,
            base + p,
        ) by {
            if p == -m {
                assert(base + p == base - m);
            }
        }
        m = m + 1;
    }
}

/// Carries out the steps from `a` to `b` at line `pos`.
fn rebuild(file: &Vec<String>, steps: &Vec<Step>, a: usize, b: usize, pos: usize) -> (r: Vec<String>)
    requires
        a <= b <= steps@.len(),
        fits(texts(file@), step_models(steps@).subrange(a as int, b as int), pos as int),
    ensures
        texts(r@) == replaced(
            texts(file@),
            step_models(steps@).subrange(a as int, b as int),
            pos as int,
        ),
{
    let ghost all = step_models(steps@);
    let ghost part = all.subrange(a as int, b as int);
    let ghost lines = texts(file@);
    let total = file.len();
    let mut out: Vec<String> = Vec::new();
    push_lines(&mut out, file, 0, pos);
    assert(texts(out@) =~= lines.take(pos as int));
    let mut i: usize = a;
    let mut at: usize = pos;
    assert(all.subrange(a as int, a as int) =~= Seq::empty());
    while i < b
        invariant
            all == step_models(steps@),
            part == all.subrange(a as int, b as int),
            lines == texts(file@),
            a <= i <= b <= steps@.len(),
            fits(lines, part, pos as int),
            total == file@.len(),
            at == pos + old_side(all.subrange(a as int, i as int)).len(),
            at <= pos + old_side(part).len(),
            texts(out@) == lines.take(pos as int) + new_side(all.subrange(a as int, i as int)),
        decreases b - i,
    {
        let ghost seen = all.subrange(a as int, i as int);
        let ghost next = all.subrange(a as int, i + 1);
        let ghost before = texts(out@);
        proof {
            lemma_sides_push(seen, all[i as int]);
            assert(next =~= seen.push(all[i as int]));
            assert(part.take(i + 1 - a) =~= next);
            lemma_old_side_prefix(part, i + 1 - a);
        }
        match steps[i].kind {
            Kind::Context => {
                proof {
                    let k = old_side(seen).len() as int;
                    assert(old_side(next)[k] == steps@[i as int].text@);
                    assert(old_side(part)[k] == old_side(part).take(old_side(next).len() as int)[k]);
                    assert(lines.subrange(pos as int, pos + old_side(part).len())[k]
                        == lines[at as int]);
                }
                let line = file[at].clone();
                out.push(line);
                assert(texts(out@) =~= before.push(line@));
                at = at + 1;
            },
            Kind::Consume => {
                at = at + 1;
            },
            Kind::Produce => {
                let line = steps[i].text.clone();
                out.push(line);
                assert(texts(out@) =~= before.push(line@));
            },
        }
        proof {
            assert(texts(out@) =~= lines.take(pos as int) + new_side(next));
        }
        i = i + 1;
    }
    let ghost before = texts(out@);
    push_lines(&mut out, file, at, total);
    assert(texts(out@) =~= before + lines.skip(at as int));
    out
}

/// Appends copies of the lines `file[from..to]`.
fn push_lines(out: &mut Vec<String>, file: &Vec<String>, from: usize, to: usize)
    requires
        from <= to <= file@.len(),
    ensures
        texts(final(out)@) == texts(old(out)@) + texts(file@).subrange(from as int, to as int),
{
    let ghost start = texts(out@);
    let ghost lines = texts(file@);
    let mut i: usize = from;
    assert(texts(out@) =~= start + lines.subrange(from as int, i as int));
    while i < to
        invariant
            from <= i <= to <= file@.len(),
            lines == texts(file@),
            texts(out@) == start + lines.subrange(from as int, i as int),
        decreases to - i,
    {
        let ghost before = texts(out@);
        let line = file[i].clone();
        out.push(line);
        proof {
            assert(texts(out@) =~= before.push(line@));
            assert(texts(out@) =~= start + lines.subrange(from as int, i + 1));
        }
        i = i + 1;
    }
}

/// `n` read as a signed number.
fn signed(n: usize) -> (r: i128)
    ensures
        r == as_signed(n),
{
    if n as u64 <= i64::MAX as u64 {
        n as i128
    } else {
        n as i128 - 0x1_0000_0000_0000_0000i128
    }
}

/// Looks for the place of a hunk in a file, first without fuzz and then with
/// more and more context left out at its ends, at each fuzz first where the
/// hunk says it belongs and then ever farther from there, and carries the
/// hunk out at the first place that fits. Gives the new lines, the fuzz, the
/// offset, and the line, counted from zero, that the hunk as a whole starts
/// at.
pub fn apply_hunk(
    file_lines: &Vec<String>,
    hunk: &Hunk,
    fuzz: usize,
    reverse: bool,
    strip_cr: bool,
) -> (r: Result<Option<(Vec<String>, usize, i64, usize)>, ApplyError>)
    ensures
        ({
            let file = texts(file_lines@);
            let steps = steps_of(hunk@.lines, reverse, strip_cr);
            let base = expected_pos(hunk@, reverse);
            match r {
                Ok(Some((lines, level, offset, start))) => {
                    &&& first_fit(file, steps, base, fuzz as int, level as int, offset as int)
                    &&& texts(lines@) == replaced(
                        file,
                        cut(steps, level as int),
                        base + offset + lead_cut(steps, level as int),
                    )
                    &&& start == if base + offset < 0 {
                        0
                    } else {
                        base + offset
                    }
                },
                Ok(None) => no_fit(file, steps, base, fuzz as int),
                Err(ApplyError::FuzzOverlap) => overlap_first(file, steps, base, fuzz as int),
            }
        }),
        match r {
            Ok(Some((lines, level, offset, start))) => {
                applied(texts(file_lines@), hunk@, fuzz as int, reverse, strip_cr) == Ok::<
                    _,
                    ApplyError,
                >(
                    Some(
                        Applied {
                            lines: texts(lines@),
                            level: level as int,
                            offset: offset as int,
                            start: start as int,
                        },
                    ),
                )
            },
            Ok(None) => applied(texts(file_lines@), hunk@, fuzz as int, reverse, strip_cr) == Ok::<
                Option<Applied>,
                ApplyError,
            >(None),
            Err(e) => applied(texts(file_lines@), hunk@, fuzz as int, reverse, strip_cr) == Err::<
                Option<Applied>,
                _,
            >(e),
        },
{
    let (start, count) = if reverse {
        (hunk.new_start, hunk.new_count)
    } else {
        (hunk.old_start, hunk.old_count)
    };
    let target: usize = if start == 0 || count == 0 {
        start
    } else {
        start - 1
    };
    let base = signed(target);
    let steps = classify(hunk, reverse, strip_cr);
    let lead = count_leading(&steps);
    let trail = count_trailing(&steps);
    let n = steps.len();
    let total = file_lines.len();
    let ghost file = texts(file_lines@);
    let ghost model = steps_of(hunk@.lines, reverse, strip_cr);
    let mut level: usize = 0;
    loop
        invariant
            base == expected_pos(hunk@, reverse),
            -0x1_0000_0000_0000_0000 <= base <= 0x1_0000_0000_0000_0000,
            model == steps_of(hunk@.lines, reverse, strip_cr),
            model == step_models(steps@),
            n == steps@.len(),
            lead == leading_context(model),
            trail == trailing_context(model),
            lead <= n,
            trail <= n,
            file == texts(file_lines@),
            total == file.len(),
            level <= fuzz,
            forall|l: int| 0 <= l < level ==> !#[trigger] cuts_overlap(model, l),
            forall|l: int| 0 <= l < level ==> #[trigger] fits_nowhere(
                file,
                model,
                expected_pos(hunk@, reverse),
                l,
            ),
        decreases fuzz - level,
    {
        let a: usize = if level <= lead {
            level
        } else {
            lead
        };
        let t: usize = if level <= trail {
            level
        } else {
            trail
        };
        if t > n - a {
            proof {
                assert(cuts_overlap(model, level as int));
                lemma_applied_none(file, hunk@, fuzz as int, reverse, strip_cr);
            }
            return Err(ApplyError::FuzzOverlap);
        }
        let b: usize = n - t;
        assert(!cuts_overlap(model, level as int));
        let from = base + a as i128;
        let ghost part = model.subrange(a as int, b as int);
        assert(part == cut(model, level as int));
        match try_level(file_lines, &steps, a, b, from) {
            Some(offset) => {
                let pos: usize = (from + offset as i128) as usize;
                proof {
                    assert(from + offset == base + offset + a);
                    assert(fits_at(file, model, base as int, level as int, offset as int));
                    assert forall|o: int|
                        -reach(file) <= o <= reach(file) && sooner(
                            o,
                            offset as int,
                        ) implies !#[trigger] fits_at(
                        file,
                        model,
                        base as int,
                        level as int,
                        o,
                    ) by {
                        assert(!fits(file, part, from + o));
                        assert(from + o == base + o + a);
                    }
                }
                let lines = rebuild(file_lines, &steps, a, b, pos);
                let virt: i128 = base + offset as i128;
                let start: usize = if virt < 0 {
                    0
                } else {
                    virt as usize
                };
                proof {
                    lemma_applied_fit(
                        file,
                        hunk@,
                        fuzz as int,
                        reverse,
                        strip_cr,
                        level as int,
                        offset as int,
                    );
                }
                return Ok(Some((lines, level, offset, start)));
            },
            None => {},
        }
        proof {
            assert forall|o: int| -reach(file) <= o <= reach(file) implies !#[trigger] fits_at(
                file,
                model,
                base as int,
                level as int,
                o,
            ) by {
                assert(!fits(file, part, from + o));
                assert(from + o == base + o + a);
            }
            assert(fits_nowhere(file, model, expected_pos(hunk@, reverse), level as int));
        }
        if level == fuzz {
            proof {
                lemma_applied_none(file, hunk@, fuzz as int, reverse, strip_cr);
            }
            return Ok(None);
        }
        level = level + 1;
    }
}

} // verus!
