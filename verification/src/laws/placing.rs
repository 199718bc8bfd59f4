//! Where a hunk is carried out, and what it makes of the file.
use vstd::prelude::*;

use crate::apply::{
    applied, applied_at, cut, cuts_overlap, expected_pos, first_fit, fits, fits_at, fits_nowhere,
    lead_cut, leading_context, lemma_applied_fit, no_fit, new_side, old_side, reach, replaced,
    sooner, steps_of, trail_cut, trailing_context, Applied, ApplyError, Kind, StepModel,
};
use crate::model::{HunkModel, LineModel};

verus! {

// ---------------------------------------------------------------------------
// The two sides of a hunk
// ---------------------------------------------------------------------------

/// The text of a hunk line.
pub open spec fn text_of(line: LineModel) -> Seq<char> {
    match line {
        LineModel::Context(s) => s,
        LineModel::Remove(s) => s,
        LineModel::Add(s) => s,
    }
}

/// The texts of the lines that are not added.
pub open spec fn texts_before(lines: Seq<LineModel>) -> Seq<Seq<char>> {
    lines.filter(|l: LineModel| !(l is Add)).map_values(|l: LineModel| text_of(l))
}

/// The texts of the lines that are not removed.
pub open spec fn texts_after(lines: Seq<LineModel>) -> Seq<Seq<char>> {
    lines.filter(|l: LineModel| !(l is Remove)).map_values(|l: LineModel| text_of(l))
}

proof fn lemma_map_push(s: Seq<LineModel>, l: LineModel)
    ensures
        s.push(l).map_values(|l: LineModel| text_of(l)) == s.map_values(
            |l: LineModel| text_of(l),
        ).push(text_of(l)),
{
    assert(s.push(l).map_values(|l: LineModel| text_of(l)) =~= s.map_values(
        |l: LineModel| text_of(l),
    ).push(text_of(l)));
}

/// A hunk expects its context and the lines that it removes, and leaves its
/// context and the lines that it adds, all in order.
pub proof fn law_sides_of_a_hunk(lines: Seq<LineModel>)
    ensures
        old_side(steps_of(lines, false, false)) == texts_before(lines),
        new_side(steps_of(lines, false, false)) == texts_after(lines),
    decreases lines.len(),
{
    reveal(Seq::filter);
    let steps = steps_of(lines, false, false);
    if lines.len() > 0 {
        let rest = lines.drop_last();
        let last = lines.last();
        law_sides_of_a_hunk(rest);
        assert(steps.drop_last() =~= steps_of(rest, false, false));
        lemma_map_push(rest.filter(|l: LineModel| !(l is Add)), last);
        lemma_map_push(rest.filter(|l: LineModel| !(l is Remove)), last);
    } else {
        assert(texts_before(lines) =~= Seq::empty());
        assert(texts_after(lines) =~= Seq::empty());
    }
}

/// The hunk that takes back what this one does.
pub open spec fn mirrored(h: HunkModel) -> HunkModel {
    HunkModel {
        old_start: h.new_start,
        old_count: h.new_count,
        new_start: h.old_start,
        new_count: h.old_count,
        header_suffix: h.header_suffix,
        lines: h.lines.map_values(
            |l: LineModel|
                match l {
                    LineModel::Context(s) => LineModel::Context(s),
                    LineModel::Remove(s) => LineModel::Add(s),
                    LineModel::Add(s) => LineModel::Remove(s),
                },
        ),
    }
}

/// To carry out a hunk in reverse is to carry out the hunk that adds what it
/// removes, removes what it adds, and has its two ranges swapped.
pub proof fn law_reverse_is_the_mirrored_hunk(
    file: Seq<Seq<char>>,
    h: HunkModel,
    fuzz: int,
    strip_cr: bool,
)
    ensures
        applied(file, h, fuzz, true, strip_cr) == applied(file, mirrored(h), fuzz, false, strip_cr),
{
    assert(steps_of(h.lines, true, strip_cr) =~= steps_of(mirrored(h).lines, false, strip_cr));
}

/// The text without a carriage return at its end.
pub open spec fn bare_text(s: Seq<char>) -> Seq<char> {
    if s.len() > 0 && s[s.len() - 1] == '\r' {
        s.subrange(0, s.len() - 1)
    } else {
        s
    }
}

/// The hunk with no carriage return at the end of a line.
pub open spec fn bare_hunk(h: HunkModel) -> HunkModel {
    HunkModel {
        lines: h.lines.map_values(
            |l: LineModel|
                match l {
                    LineModel::Context(s) => LineModel::Context(bare_text(s)),
                    LineModel::Remove(s) => LineModel::Remove(bare_text(s)),
                    LineModel::Add(s) => LineModel::Add(bare_text(s)),
                },
        ),
        ..h
    }
}

/// To strip carriage returns is to carry out the hunk without those at the ends
/// of its lines, added lines among them.
pub proof fn law_stripping_leaves_bare_lines(
    file: Seq<Seq<char>>,
    h: HunkModel,
    fuzz: int,
    reverse: bool,
)
    ensures
        applied(file, h, fuzz, reverse, true) == applied(file, bare_hunk(h), fuzz, reverse, false),
{
    let a = steps_of(h.lines, reverse, true);
    let b = steps_of(bare_hunk(h).lines, reverse, false);
    assert forall|i: int| 0 <= i < h.lines.len() implies a[i] == b[i] by {
        let t = text_of(h.lines[i]);
        if t.len() > 0 {
            assert(t.subrange(0, t.len() - 1) =~= t.drop_last());
        }
    }
    assert(a =~= b);
}

// ---------------------------------------------------------------------------
// Where a hunk belongs
// ---------------------------------------------------------------------------

/// The line, counted from zero, that the header of a hunk gives for its old
/// side. A side without lines is given by the line above it.
pub open spec fn header_line(h: HunkModel) -> int {
    if h.old_start > 0 && h.old_count > 0 {
        h.old_start - 1
    } else {
        h.old_start as int
    }
}

/// Fuzz `level` leaves out the first `n` lines: they are context, and they are
/// as many as the fuzz says, or all the context there is at the start.
pub open spec fn left_out_first(lines: Seq<LineModel>, level: int, n: int) -> bool {
    &&& 0 <= n <= level
    &&& n <= lines.len()
    &&& forall|i: int| 0 <= i < n ==> #[trigger] lines[i] is Context
    &&& n == level || n == lines.len() || !(lines[n] is Context)
}

/// Fuzz `level` leaves out the last `n` lines.
pub open spec fn left_out_last(lines: Seq<LineModel>, level: int, n: int) -> bool {
    &&& 0 <= n <= level
    &&& n <= lines.len()
    &&& forall|i: int| lines.len() - n <= i < lines.len() ==> #[trigger] lines[i] is Context
    &&& n == level || n == lines.len() || !(lines[lines.len() - n - 1] is Context)
}

/// The file holds these lines from line `pos` on.
pub open spec fn holds(file: Seq<Seq<char>>, block: Seq<Seq<char>>, pos: int) -> bool {
    0 <= pos && pos + block.len() <= file.len() && file.subrange(pos, pos + block.len()) == block
}

/// The distance of an offset.
pub open spec fn distance(offset: int) -> int {
    if offset < 0 {
        -offset
    } else {
        offset
    }
}

pub proof fn lemma_leading(steps: Seq<StepModel>, n: int)
    requires
        0 <= n <= steps.len(),
        forall|i: int| 0 <= i < n ==> (#[trigger] steps[i]).kind == Kind::Context,
    ensures
        leading_context(steps) >= n,
        n == steps.len() || steps[n].kind != Kind::Context ==> leading_context(steps) == n,
    decreases n,
{
    if n > 0 {
        assert(steps[0].kind == Kind::Context);
        let rest = steps.skip(1);
        assert forall|i: int| 0 <= i < n - 1 implies (#[trigger] rest[i]).kind == Kind::Context by {
            assert(rest[i] == steps[i + 1]);
        }
        lemma_leading(rest, n - 1);
    }
}

pub proof fn lemma_trailing(steps: Seq<StepModel>, n: int)
    requires
        0 <= n <= steps.len(),
        forall|i: int|
            steps.len() - n <= i < steps.len() ==> (#[trigger] steps[i]).kind == Kind::Context,
    ensures
        trailing_context(steps) >= n,
        n == steps.len() || steps[steps.len() - n - 1].kind != Kind::Context
            ==> trailing_context(steps) == n,
    decreases n,
{
    if n > 0 {
        assert(steps[steps.len() - 1].kind == Kind::Context);
        let rest = steps.drop_last();
        assert forall|i: int| rest.len() - (n - 1) <= i < rest.len() implies (
        #[trigger] rest[i]).kind == Kind::Context by {
            assert(rest[i] == steps[i]);
        }
        lemma_trailing(rest, n - 1);
    }
}

proof fn lemma_cuts(lines: Seq<LineModel>, level: int, a: int, b: int)
    requires
        left_out_first(lines, level, a),
        left_out_last(lines, level, b),
    ensures
        lead_cut(steps_of(lines, false, false), level) == a,
        trail_cut(steps_of(lines, false, false), level) == b,
        a + b <= lines.len() ==> {
            let part = lines.subrange(a, lines.len() - b);
            &&& !cuts_overlap(steps_of(lines, false, false), level)
            &&& cut(steps_of(lines, false, false), level) == steps_of(part, false, false)
            &&& old_side(cut(steps_of(lines, false, false), level)) == texts_before(part)
            &&& new_side(cut(steps_of(lines, false, false), level)) == texts_after(part)
        },
{
    let steps = steps_of(lines, false, false);
    assert forall|i: int| 0 <= i < a implies (#[trigger] steps[i]).kind == Kind::Context by {
        assert(lines[i] is Context);
    }
    assert forall|i: int| steps.len() - b <= i < steps.len() implies (#[trigger] steps[i]).kind
        == Kind::Context by {
        assert(lines[i] is Context);
    }
    lemma_leading(steps, a);
    lemma_trailing(steps, b);
    if a + b <= lines.len() {
        let part = lines.subrange(a, lines.len() - b);
        assert(cut(steps, level) =~= steps_of(part, false, false));
        law_sides_of_a_hunk(part);
    }
}

proof fn lemma_cuts_exist(lines: Seq<LineModel>, level: int)
    requires
        0 <= level,
    ensures
        left_out_first(lines, level, lead_cut(steps_of(lines, false, false), level)),
        left_out_last(lines, level, trail_cut(steps_of(lines, false, false), level)),
{
    let steps = steps_of(lines, false, false);
    lemma_run_ends(steps);
    let a = lead_cut(steps, level);
    let b = trail_cut(steps, level);
    assert forall|i: int| 0 <= i < a implies #[trigger] lines[i] is Context by {
        assert(steps[i].kind == Kind::Context);
    }
    assert forall|i: int| lines.len() - b <= i < lines.len() implies #[trigger] lines[i] is Context by {
        assert(steps[i].kind == Kind::Context);
    }
}

proof fn lemma_run_ends(steps: Seq<StepModel>)
    ensures
        leading_context(steps) <= steps.len(),
        forall|i: int|
            0 <= i < leading_context(steps) ==> (#[trigger] steps[i]).kind == Kind::Context,
        leading_context(steps) < steps.len() ==> steps[leading_context(steps) as int].kind
            != Kind::Context,
        trailing_context(steps) <= steps.len(),
        forall|i: int|
            steps.len() - trailing_context(steps) <= i < steps.len() ==> (#[trigger] steps[i]).kind
                == Kind::Context,
        trailing_context(steps) < steps.len() ==> steps[steps.len() - trailing_context(steps)
            - 1].kind != Kind::Context,
    decreases steps.len(),
{
    if steps.len() > 0 {
        let rest = steps.skip(1);
        lemma_run_ends(rest);
        if steps[0].kind == Kind::Context {
            assert forall|i: int| 0 <= i < leading_context(steps) implies (
            #[trigger] steps[i]).kind == Kind::Context by {
                if i > 0 {
                    assert(steps[i] == rest[i - 1]);
                }
            }
        }
        let init = steps.drop_last();
        lemma_run_ends(init);
        if steps.last().kind == Kind::Context {
            assert forall|i: int|
                steps.len() - trailing_context(steps) <= i < steps.len() implies (
            #[trigger] steps[i]).kind == Kind::Context by {
                if i < steps.len() - 1 {
                    assert(steps[i] == init[i]);
                }
            }
        }
    }
}

/// What is left of a hunk when fuzz leaves out `a` lines at its start and `b` at
/// its end.
pub open spec fn middle(h: HunkModel, a: int, b: int) -> Seq<LineModel> {
    h.lines.subrange(a, h.lines.len() - b)
}

/// A hunk is found wherever it stands. If what fuzz leaves of it is in the file,
/// up to the length of the file away from the line in its header, then the hunk
/// does not fail, and it is carried out there or sooner: with less fuzz, or
/// nearer to its line, or as near and further down. Only a hunk that is context
/// alone may be given up before, when fuzz would leave nothing of it.
pub proof fn law_hunk_is_found(
    file: Seq<Seq<char>>,
    h: HunkModel,
    fuzz: int,
    level: int,
    a: int,
    b: int,
    pos: int,
)
    requires
        file.len() <= i64::MAX,
        h.old_start <= i64::MAX,
        0 <= level <= fuzz,
        left_out_first(h.lines, level, a),
        left_out_last(h.lines, level, b),
        a + b <= h.lines.len(),
        holds(file, texts_before(middle(h, a, b)), pos),
        distance(pos - a - header_line(h)) <= file.len(),
    ensures
        match applied(file, h, fuzz, false, false) {
            Ok(Some(found)) => {
                let offset = pos - a - header_line(h);
                ||| found.level < level
                ||| found.level == level && distance(found.offset) < distance(offset)
                ||| found.level == level && distance(found.offset) == distance(offset)
                    && found.offset >= offset
            },
            Ok(None) => false,
            Err(_) => forall|i: int| 0 <= i < h.lines.len() ==> #[trigger] h.lines[i] is Context,
        },
{
    let steps = steps_of(h.lines, false, false);
    let base = expected_pos(h, false);
    assert(base == header_line(h));
    let offset = pos - a - base;
    lemma_cuts(h.lines, level, a, b);
    assert(fits_at(file, steps, base, level, offset));
    assert(!fits_nowhere(file, steps, base, level));
    if exists|l: int, o: int| first_fit(file, steps, base, fuzz, l, o) {
        let (l, o) = choose|l: int, o: int| first_fit(file, steps, base, fuzz, l, o);
        if l > level {
            assert(fits_nowhere(file, steps, base, level));
        }
        if l == level && sooner(offset, o) {
            assert(!fits_at(file, steps, base, level, offset));
        }
    } else {
        lemma_overlap_is_context(file, h, fuzz, level, offset);
    }
}

proof fn lemma_overlap_is_context(
    file: Seq<Seq<char>>,
    h: HunkModel,
    fuzz: int,
    level: int,
    offset: int,
)
    requires
        0 <= level <= fuzz,
        -reach(file) <= offset <= reach(file),
        fits_at(file, steps_of(h.lines, false, false), expected_pos(h, false), level, offset),
        !(exists|l: int, o: int|
            first_fit(
                file,
                steps_of(h.lines, false, false),
                expected_pos(h, false),
                fuzz,
                l,
                o,
            )),
    ensures
        forall|i: int| 0 <= i < h.lines.len() ==> #[trigger] h.lines[i] is Context,
{
    let steps = steps_of(h.lines, false, false);
    let base = expected_pos(h, false);
    if forall|l: int| 0 <= l <= level ==> !#[trigger] cuts_overlap(steps, l) {
        lemma_first_fit_exists(file, steps, base, fuzz, level, offset);
    } else {
        let l = choose|l: int| 0 <= l <= level && #[trigger] cuts_overlap(steps, l);
        lemma_all_context(h.lines, l);
    }
}

proof fn lemma_all_context(lines: Seq<LineModel>, l: int)
    requires
        0 <= l,
        cuts_overlap(steps_of(lines, false, false), l),
    ensures
        forall|i: int| 0 <= i < lines.len() ==> #[trigger] lines[i] is Context,
        2 * l > lines.len(),
{
    let steps = steps_of(lines, false, false);
    lemma_cuts_exist(lines, l);
    let a = lead_cut(steps, l);
    let b = trail_cut(steps, l);
    assert forall|i: int| 0 <= i < lines.len() implies #[trigger] lines[i] is Context by {
        assert(i < a || i >= lines.len() - b);
    }
}

/// Among the fits up to a fuzz there is a first one.
proof fn lemma_first_fit_exists(
    file: Seq<Seq<char>>,
    steps: Seq<StepModel>,
    base: int,
    fuzz: int,
    level: int,
    offset: int,
)
    requires
        0 <= level <= fuzz,
        forall|l: int| 0 <= l <= level ==> !#[trigger] cuts_overlap(steps, l),
        -reach(file) <= offset <= reach(file),
        fits_at(file, steps, base, level, offset),
    ensures
        exists|l: int, o: int| first_fit(file, steps, base, fuzz, l, o),
    decreases level, rank(offset),
{
    if exists|l: int| 0 <= l < level && !#[trigger] fits_nowhere(file, steps, base, l) {
        let l = choose|l: int| 0 <= l < level && !#[trigger] fits_nowhere(file, steps, base, l);
        let o = choose|o: int|
            -reach(file) <= o <= reach(file) && #[trigger] fits_at(file, steps, base, l, o);
        lemma_first_fit_exists(file, steps, base, fuzz, l, o);
    } else if exists|o: int|
        -reach(file) <= o <= reach(file) && sooner(o, offset) && #[trigger] fits_at(
            file,
            steps,
            base,
            level,
            o,
        ) {
        let o = choose|o: int|
            -reach(file) <= o <= reach(file) && sooner(o, offset) && #[trigger] fits_at(
                file,
                steps,
                base,
                level,
                o,
            );
        lemma_first_fit_exists(file, steps, base, fuzz, level, o);
    } else {
        assert(first_fit(file, steps, base, fuzz, level, offset));
    }
}

/// In which order an offset is tried.
spec fn rank(offset: int) -> nat {
    if offset > 0 {
        (2 * offset - 1) as nat
    } else {
        (-2 * offset) as nat
    }
}

/// A hunk that stands in the file word for word, up to the length of the file
/// away from the line in its header, is carried out without fuzz, at the place
/// nearest to that line where it stands, the lower one of two: there its lines
/// before are replaced by its lines after, and the rest of the file stays.
pub proof fn law_standing_hunk_is_carried_out(
    file: Seq<Seq<char>>,
    h: HunkModel,
    fuzz: int,
    pos: int,
)
    requires
        file.len() <= i64::MAX,
        h.old_start <= i64::MAX,
        0 <= fuzz,
        holds(file, texts_before(h.lines), pos),
        distance(pos - header_line(h)) <= file.len(),
    ensures
        applied(file, h, fuzz, false, false) matches Ok(Some(found)) && {
            &&& found.level == 0
            &&& found.offset == found.start - header_line(h)
            &&& holds(file, texts_before(h.lines), found.start)
            &&& distance(found.offset) <= distance(pos - header_line(h))
            &&& distance(found.offset) == distance(pos - header_line(h)) ==> found.start >= pos
            &&& found.lines == file.subrange(0, found.start) + texts_after(h.lines)
                + file.subrange(found.start + texts_before(h.lines).len(), file.len() as int)
        },
{
    let steps = steps_of(h.lines, false, false);
    let base = expected_pos(h, false);
    lemma_cuts_exist(h.lines, 0);
    lemma_cuts(h.lines, 0, 0, 0);
    assert(middle(h, 0, 0) =~= h.lines);
    law_hunk_is_found(file, h, fuzz, 0, 0, 0, pos);
    lemma_first_fit_exists(file, steps, base, fuzz, 0, pos - base);
    let (l, o) = choose|l: int, o: int| first_fit(file, steps, base, fuzz, l, o);
    lemma_applied_fit(file, h, fuzz, false, false, l, o);
    let found = applied_at(file, steps, base, l, o);
    assert(l == 0);
    assert(found.lines =~= file.subrange(0, found.start) + texts_after(h.lines) + file.subrange(
        found.start + texts_before(h.lines).len(),
        file.len() as int,
    ));
}

/// Carrying out a hunk as `found` says, with `a` and `b` lines left out at its
/// ends.
pub open spec fn is_result(
    file: Seq<Seq<char>>,
    h: HunkModel,
    fuzz: int,
    found: Applied,
    a: int,
    b: int,
) -> bool {
    let pos = header_line(h) + found.offset + a;
    let before = texts_before(middle(h, a, b));
    let after = texts_after(middle(h, a, b));
    &&& 0 <= found.level <= fuzz
    &&& left_out_first(h.lines, found.level, a)
    &&& left_out_last(h.lines, found.level, b)
    &&& a + b <= h.lines.len()
    &&& holds(file, before, pos)
    &&& distance(found.offset) <= file.len()
    &&& found.lines == file.subrange(0, pos) + after + file.subrange(
        pos + before.len(),
        file.len() as int,
    )
    &&& found.start == if pos - a < 0 {
        0
    } else {
        pos - a
    }
}

/// A hunk that is carried out stood in the file, but for the context that fuzz
/// leaves out; what stood there is replaced, and nothing else is.
pub proof fn law_result_of_a_hunk(file: Seq<Seq<char>>, h: HunkModel, fuzz: int, found: Applied)
    requires
        file.len() <= i64::MAX,
        h.old_start <= i64::MAX,
        applied(file, h, fuzz, false, false) == Ok::<_, ApplyError>(Some(found)),
    ensures
        exists|a: int, b: int| is_result(file, h, fuzz, found, a, b),
{
    let steps = steps_of(h.lines, false, false);
    let base = expected_pos(h, false);
    let (l, o) = choose|l: int, o: int| first_fit(file, steps, base, fuzz, l, o);
    assert(found == applied_at(file, steps, base, l, o));
    lemma_cuts_exist(h.lines, l);
    let a = lead_cut(steps, l);
    let b = trail_cut(steps, l);
    assert(!cuts_overlap(steps, l));
    lemma_cuts(h.lines, l, a, b);
    let pos = base + o + a;
    assert(fits(file, cut(steps, l), pos));
    let before = texts_before(middle(h, a, b));
    assert(found.lines =~= file.subrange(0, pos) + texts_after(middle(h, a, b)) + file.subrange(
        pos + before.len(),
        file.len() as int,
    ));
    assert(is_result(file, h, fuzz, found, a, b));
}

/// A hunk with a line that it adds or removes is carried out or fails; only one
/// that is context alone, with fewer lines than fuzz would leave out, is given
/// up.
pub proof fn law_changes_are_never_given_up(
    file: Seq<Seq<char>>,
    h: HunkModel,
    fuzz: int,
    reverse: bool,
    strip_cr: bool,
)
    requires
        applied(file, h, fuzz, reverse, strip_cr) is Err,
    ensures
        forall|i: int| 0 <= i < h.lines.len() ==> #[trigger] h.lines[i] is Context,
        2 * fuzz > h.lines.len(),
{
    let h1 = if reverse {
        mirrored(h)
    } else {
        h
    };
    if reverse {
        law_reverse_is_the_mirrored_hunk(file, h, fuzz, strip_cr);
    }
    let h2 = if strip_cr {
        bare_hunk(h1)
    } else {
        h1
    };
    if strip_cr {
        law_stripping_leaves_bare_lines(file, h1, fuzz, false);
    }
    let steps = steps_of(h2.lines, false, false);
    let base = expected_pos(h2, false);
    if forall|l: int| 0 <= l <= fuzz ==> !#[trigger] cuts_overlap(steps, l) {
        if !no_fit(file, steps, base, fuzz) {
            let l = choose|l: int| 0 <= l <= fuzz && !#[trigger] fits_nowhere(file, steps, base, l);
            let o = choose|o: int|
                -reach(file) <= o <= reach(file) && #[trigger] fits_at(file, steps, base, l, o);
            lemma_first_fit_exists(file, steps, base, fuzz, l, o);
        }
    } else {
        let l = choose|l: int| 0 <= l <= fuzz && #[trigger] cuts_overlap(steps, l);
        lemma_all_context(h2.lines, l);
        assert forall|i: int| 0 <= i < h.lines.len() implies #[trigger] h.lines[i] is Context by {
            assert(h2.lines[i] is Context);
        }
    }
}

} // verus!
