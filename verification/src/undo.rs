//! Applying a whole patch in reverse.
use vstd::prelude::*;

use crate::apply::{
    applied, applied_at, cut, cuts_overlap, expected_pos, first_fit, fits, fits_at, lead_cut,
    lemma_applied_fit, lemma_context_runs, lemma_reversed_sides, new_side, old_side, reach, replaced,
    sooner, steps_of, ApplyError, StepModel,
};
use crate::model::HunkModel;
use crate::run::{after_hunk, after_hunks, Manner, RunModel};

verus! {

/// The steps of hunk `i`.
pub open spec fn steps_at(hunks: Seq<HunkModel>, i: int, m: Manner) -> Seq<StepModel> {
    steps_of(hunks[i].lines, m.reverse, m.strip_cr)
}

/// The hunks from `i` on are carried out, each without fuzz, at these lines
/// counted from zero.
pub open spec fn carried_out_at(
    lines: Seq<Seq<char>>,
    hunks: Seq<HunkModel>,
    i: int,
    m: Manner,
    places: Seq<int>,
) -> bool
    decreases hunks.len() - i,
{
    i >= hunks.len() || match applied(lines, hunks[i], m.fuzz as int, m.reverse, m.strip_cr) {
        Ok(Some(a)) => {
            &&& a.level == 0
            &&& a.start == places[i]
            &&& carried_out_at(a.lines, hunks, i + 1, m, places)
        },
        _ => false,
    }
}

/// Each hunk is carried out below what the hunk before it left.
pub open spec fn one_below_the_other(hunks: Seq<HunkModel>, m: Manner, places: Seq<int>) -> bool {
    forall|i: int|
        0 <= i < hunks.len() - 1 ==> #[trigger] places[i] + new_side(steps_at(hunks, i, m)).len()
            <= places[i + 1]
}

/// By how many lines the hunks before `i` make the file longer.
pub open spec fn grown(hunks: Seq<HunkModel>, i: int, m: Manner) -> int
    decreases i,
{
    if i <= 0 {
        0
    } else {
        grown(hunks, i - 1, m) + new_side(steps_at(hunks, i - 1, m)).len() - old_side(
            steps_at(hunks, i - 1, m),
        ).len()
    }
}

/// The lines at which hunks that were carried out at `places` are undone: the
/// hunks above have been undone by then.
pub open spec fn undone_at(hunks: Seq<HunkModel>, m: Manner, places: Seq<int>) -> Seq<int> {
    Seq::new(hunks.len(), |i: int| places[i] - grown(hunks, i, m))
}

/// Carrying out the hunks from `i` on at `places`, every place is within reach
/// of where the hunk says it belongs, and the hunk fits at no place that is
/// tried sooner.
pub open spec fn nothing_nearer(
    lines: Seq<Seq<char>>,
    hunks: Seq<HunkModel>,
    i: int,
    m: Manner,
    places: Seq<int>,
) -> bool
    decreases hunks.len() - i,
{
    i >= hunks.len() || {
        let steps = steps_at(hunks, i, m);
        let base = expected_pos(hunks[i], m.reverse);
        let offset = places[i] - base;
        &&& -reach(lines) <= offset <= reach(lines)
        &&& forall|o: int|
            -reach(lines) <= o <= reach(lines) && sooner(o, offset) ==> !#[trigger] fits_at(
                lines,
                steps,
                base,
                0,
                o,
            )
        &&& nothing_nearer(replaced(lines, steps, places[i]), hunks, i + 1, m, places)
    }
}

/// A run before its first hunk.
pub open spec fn fresh_run(lines: Seq<Seq<char>>) -> RunModel {
    RunModel { lines, delta: 0, messages: Seq::empty(), failed: Seq::empty() }
}

/// Without fuzz nothing is cut off.
proof fn lemma_no_cut(steps: Seq<StepModel>)
    ensures
        cut(steps, 0) == steps,
        lead_cut(steps, 0) == 0,
        !cuts_overlap(steps, 0),
{
    lemma_context_runs(steps);
    assert(cut(steps, 0) =~= steps);
}

/// A hunk that was carried out without fuzz fits where it was carried out.
proof fn lemma_carried_out(
    lines: Seq<Seq<char>>,
    hunks: Seq<HunkModel>,
    i: int,
    m: Manner,
    places: Seq<int>,
)
    requires
        0 <= i < hunks.len(),
        carried_out_at(lines, hunks, i, m, places),
    ensures
        fits(lines, steps_at(hunks, i, m), places[i]),
        applied(lines, hunks[i], m.fuzz as int, m.reverse, m.strip_cr)->Ok_0->0.lines == replaced(
            lines,
            steps_at(hunks, i, m),
            places[i],
        ),
{
    let steps = steps_at(hunks, i, m);
    let base = expected_pos(hunks[i], m.reverse);
    let (level, offset) = choose|level: int, offset: int|
        first_fit(lines, steps, base, m.fuzz as int, level, offset);
    lemma_no_cut(steps);
    assert(applied(lines, hunks[i], m.fuzz as int, m.reverse, m.strip_cr) == Ok::<_, ApplyError>(
        Some(applied_at(lines, steps, base, level, offset)),
    ));
    assert(fits_at(lines, steps, base, 0, offset));
}

/// What stands above a hunk is not changed by the hunks from it on.
proof fn lemma_above_is_kept(
    r: RunModel,
    hunks: Seq<HunkModel>,
    i: int,
    m: Manner,
    places: Seq<int>,
    floor: int,
    end: RunModel,
)
    requires
        0 <= i <= hunks.len(),
        0 <= floor <= r.lines.len(),
        i < hunks.len() ==> floor <= places[i],
        carried_out_at(r.lines, hunks, i, m, places),
        one_below_the_other(hunks, m, places),
        after_hunks(r, hunks, i, m) == Ok::<_, ApplyError>(end),
    ensures
        floor <= end.lines.len(),
        end.lines.take(floor) == r.lines.take(floor),
    decreases hunks.len() - i,
{
    if i < hunks.len() {
        lemma_carried_out(r.lines, hunks, i, m, places);
        let steps = steps_at(hunks, i, m);
        let next = after_hunk(r, hunks[i], i, m)->Ok_0;
        let below = places[i] + new_side(steps).len();
        lemma_above_is_kept(next, hunks, i + 1, m, places, below, end);
        assert(end.lines.take(floor) =~= end.lines.take(below).take(floor));
        assert(next.lines.take(below).take(floor) =~= r.lines.take(floor));
    }
}

/// Lines `old` at `p` of `lines` were replaced by `new`, and `end` begins with
/// what that gave. From `floor` on `lines` is `file` from `from` on. Then `new`
/// stands at the same distance from `from` in what is `file` down to `from` and
/// `end` from `floor` on, and replacing it there by `old` moves both borders
/// below it.
proof fn lemma_spliced(
    file: Seq<Seq<char>>,
    lines: Seq<Seq<char>>,
    end: Seq<Seq<char>>,
    old_lines: Seq<Seq<char>>,
    new_lines: Seq<Seq<char>>,
    floor: int,
    from: int,
    p: int,
)
    requires
        0 <= floor <= p,
        0 <= from <= file.len(),
        p + old_lines.len() <= lines.len(),
        lines.subrange(p, p + old_lines.len()) == old_lines,
        lines.skip(floor) == file.skip(from),
        p + new_lines.len() <= end.len(),
        end.take(p + new_lines.len()) == (lines.take(p) + new_lines + lines.skip(
            p + old_lines.len(),
        )).take(p + new_lines.len()),
    ensures
        ({
            let mixed = file.take(from) + end.skip(floor);
            let q = p - floor + from;
            let n = new_lines.len();
            let o = old_lines.len();
            &&& q + n <= mixed.len()
            &&& q + o <= file.len()
            &&& mixed.subrange(q, q + n) == new_lines
            &&& mixed.take(q) + old_lines + mixed.skip(q + n) == file.take(q + o) + end.skip(p + n)
            &&& (lines.take(p) + new_lines + lines.skip(p + o)).skip(p + n) == file.skip(q + o)
        }),
{
    let n = new_lines.len();
    let o = old_lines.len();
    let q = p - floor + from;
    let mixed = file.take(from) + end.skip(floor);
    let next = lines.take(p) + new_lines + lines.skip(p + o);
    let tail = lines.skip(floor);
    assert(tail.len() == file.len() - from);
    assert(next.take(p + n) =~= lines.take(p) + new_lines);
    assert forall|k: int| floor <= k < p implies #[trigger] end[k] == file[k - floor + from] by {
        assert(end[k] == end.take(p + n)[k]);
        assert(lines[k] == tail[k - floor]);
    }
    assert forall|k: int| p <= k < p + n implies #[trigger] end[k] == new_lines[k - p] by {
        assert(end[k] == end.take(p + n)[k]);
    }
    assert forall|k: int| 0 <= k < o implies #[trigger] old_lines[k] == file[q + k] by {
        assert(lines.subrange(p, p + o)[k] == lines[p + k]);
        assert(lines[p + k] == tail[p + k - floor]);
    }
    assert(mixed.subrange(q, q + n) =~= new_lines);
    assert(mixed.take(q) =~= file.take(q));
    assert(mixed.skip(q + n) =~= end.skip(p + n));
    assert(file.take(q) + old_lines =~= file.take(q + o));
    assert(next.skip(p + n) =~= lines.skip(p + o));
    assert(lines.skip(p + o) =~= tail.skip(p + o - floor));
    assert(file.skip(q + o) =~= file.skip(from).skip(p + o - floor));
}

/// The hunks from `i` on are undone, when those above have been: the file is
/// then `file` down to `floor` less `grown` lines, and what the run left from
/// `floor` on.
proof fn lemma_rest_is_undone(
    file: Seq<Seq<char>>,
    r: RunModel,
    hunks: Seq<HunkModel>,
    i: int,
    m: Manner,
    places: Seq<int>,
    floor: int,
    end: RunModel,
    back: RunModel,
    back_m: Manner,
)
    requires
        back_m.reverse == !m.reverse,
        back_m.strip_cr == m.strip_cr,
        0 <= i <= hunks.len(),
        0 <= floor <= r.lines.len(),
        0 <= floor - grown(hunks, i, m) <= file.len(),
        i < hunks.len() ==> floor <= places[i],
        carried_out_at(r.lines, hunks, i, m, places),
        one_below_the_other(hunks, m, places),
        after_hunks(r, hunks, i, m) == Ok::<_, ApplyError>(end),
        r.lines.skip(floor) == file.skip(floor - grown(hunks, i, m)),
        floor <= end.lines.len(),
        back.lines == file.take(floor - grown(hunks, i, m)) + end.lines.skip(floor),
        nothing_nearer(back.lines, hunks, i, back_m, undone_at(hunks, m, places)),
    ensures
        after_hunks(back, hunks, i, back_m) is Ok,
        after_hunks(back, hunks, i, back_m)->Ok_0.lines == file,
        after_hunks(back, hunks, i, back_m)->Ok_0.failed == back.failed,
    decreases hunks.len() - i,
{
    let d = grown(hunks, i, m);
    if i >= hunks.len() {
        assert(end == r);
        assert(file.take(floor - d) + file.skip(floor - d) =~= file);
    } else {
        lemma_carried_out(r.lines, hunks, i, m, places);
        let steps = steps_at(hunks, i, m);
        let undo = steps_at(hunks, i, back_m);
        let p = places[i];
        let q = p - d;
        let o = old_side(steps).len();
        let n = new_side(steps).len();
        let next = after_hunk(r, hunks[i], i, m)->Ok_0;
        assert(next.lines == replaced(r.lines, steps, p));
        let below = p + n;
        lemma_above_is_kept(next, hunks, i + 1, m, places, below, end);
        lemma_reversed_sides(hunks[i].lines, m.reverse, m.strip_cr);
        let g = back.lines;
        lemma_spliced(
            file,
            r.lines,
            end.lines,
            old_side(steps),
            new_side(steps),
            floor,
            floor - d,
            p,
        );
        assert(fits(g, undo, q));
        let base = expected_pos(hunks[i], back_m.reverse);
        let places_back = undone_at(hunks, m, places);
        assert(places_back[i] == q);
        lemma_no_cut(undo);
        assert(fits_at(g, undo, base, 0, q - base));
        assert(first_fit(g, undo, base, back_m.fuzz as int, 0, q - base));
        lemma_applied_fit(
            g,
            hunks[i],
            back_m.fuzz as int,
            back_m.reverse,
            back_m.strip_cr,
            0,
            q - base,
        );
        let back2 = after_hunk(back, hunks[i], i, back_m)->Ok_0;
        assert(back2.lines == replaced(g, undo, q));
        assert(grown(hunks, i + 1, m) == d + n - o);
        lemma_rest_is_undone(
            file,
            next,
            hunks,
            i + 1,
            m,
            places,
            below,
            end,
            back2,
            back_m,
        );
    }
}

/// Hunks that were carried out one below the other and without fuzz are undone
/// by carrying them out in reverse, in the same order: every one of them
/// succeeds, and the file is given back. A hunk is looked for from the line
/// that its header names. So each must be within reach of it, and must not fit
/// at a place that is tried sooner.
pub proof fn law_run_in_reverse_gives_back(
    file: Seq<Seq<char>>,
    hunks: Seq<HunkModel>,
    m: Manner,
    back_m: Manner,
    places: Seq<int>,
    end: RunModel,
)
    requires
        back_m.reverse == !m.reverse,
        back_m.strip_cr == m.strip_cr,
        after_hunks(fresh_run(file), hunks, 0, m) == Ok::<_, ApplyError>(end),
        carried_out_at(file, hunks, 0, m, places),
        one_below_the_other(hunks, m, places),
        nothing_nearer(end.lines, hunks, 0, back_m, undone_at(hunks, m, places)),
    ensures
        after_hunks(fresh_run(end.lines), hunks, 0, back_m) matches Ok(back) && back.lines == file
            && back.failed.len() == 0,
{
    if hunks.len() > 0 {
        lemma_carried_out(file, hunks, 0, m, places);
    }
    assert(file.take(0) + end.lines.skip(0) =~= end.lines);
    lemma_rest_is_undone(
        file,
        fresh_run(file),
        hunks,
        0,
        m,
        places,
        0,
        end,
        fresh_run(end.lines),
        back_m,
    );
}

} // verus!
