//! What the halves of a context hunk stand for.
use vstd::prelude::*;

use crate::context::{
    context_hunk, context_hunks, context_patch, context_start, context_step, implied,
    lemma_halves_advance, merged, new_half, new_half_line, old_half, old_half_line, ContextStep,
    Tagged,
};
use crate::header::context_range;
use crate::model::{plain_git, DiffFormat, HunkModel, LineModel, PatchError, PatchModel};
use crate::text::has_prefix;
use crate::unified::header_file;

verus! {

// ---------------------------------------------------------------------------
// Lines of a half
// ---------------------------------------------------------------------------

/// A line of the old half: what follows its mark and a space is its text. One
/// space alone marks context too.
pub proof fn law_lines_of_the_old_half(t: Seq<char>)
    ensures
        old_half_line(seq!['!', ' '] + t) == Some(('!', t)),
        old_half_line(seq!['-', ' '] + t) == Some(('-', t)),
        old_half_line(seq![' ', ' '] + t) == Some((' ', t)),
        t.len() == 0 || t[0] != ' ' ==> old_half_line(seq![' '] + t) == Some((' ', t)),
{
    reveal_strlit("! ");
    reveal_strlit("- ");
    reveal_strlit("  ");
    reveal_strlit(" ");
    let (a, b, c, d) = (
        seq!['!', ' '] + t,
        seq!['-', ' '] + t,
        seq![' ', ' '] + t,
        seq![' '] + t,
    );
    assert(a.take(2) =~= "! "@ && a.skip(2) =~= t);
    assert(b.take(2) =~= "- "@ && b.skip(2) =~= t && b.take(2)[0] != "! "@[0]);
    assert(c.take(2) =~= "  "@ && c.skip(2) =~= t && c.take(2)[0] != "! "@[0] && c.take(2)[0]
        != "- "@[0]);
    assert(d.take(1) =~= " "@ && d.skip(1) =~= t);
    if d.len() > 1 {
        assert(d.take(2)[0] != "! "@[0] && d.take(2)[0] != "- "@[0] && d.take(2)[1] == t[0]);
        assert("  "@[1] == ' ');
    }
    assert("! "@.len() == 2 && "- "@.len() == 2 && "  "@.len() == 2);
}

/// A line of the new half: what follows its mark and a space is its text. One
/// space marks context only when nothing follows it.
pub proof fn law_lines_of_the_new_half(t: Seq<char>)
    ensures
        new_half_line(seq!['!', ' '] + t) == Some(('!', t)),
        new_half_line(seq!['+', ' '] + t) == Some(('+', t)),
        new_half_line(seq![' ', ' '] + t) == Some((' ', t)),
        new_half_line(seq![' ']) == Some((' ', Seq::<char>::empty())),
        t.len() > 0 && t[0] != ' ' ==> new_half_line(seq![' '] + t) is None,
{
    reveal_strlit("! ");
    reveal_strlit("+ ");
    reveal_strlit("  ");
    reveal_strlit(" ");
    let (a, b, c, d) = (
        seq!['!', ' '] + t,
        seq!['+', ' '] + t,
        seq![' ', ' '] + t,
        seq![' '] + t,
    );
    assert(a.take(2) =~= "! "@ && a.skip(2) =~= t);
    assert(b.take(2) =~= "+ "@ && b.skip(2) =~= t && b.take(2)[0] != "! "@[0]);
    assert(c.take(2) =~= "  "@ && c.skip(2) =~= t && c.take(2)[0] != "! "@[0] && c.take(2)[0]
        != "+ "@[0]);
    assert(seq![' '] =~= " "@);
    assert("! "@.len() == 2 && "+ "@.len() == 2 && "  "@.len() == 2 && " "@.len() == 1);
    if t.len() > 0 {
        assert(d.take(2)[0] != "! "@[0] && d.take(2)[0] != "+ "@[0] && d.take(2)[1] == t[0]);
        assert("  "@[1] == ' ');
    }
}

/// A line that begins with another character belongs to neither half.
pub proof fn law_other_lines_belong_to_no_half(line: Seq<char>)
    requires
        line.len() == 0 || (line[0] != '!' && line[0] != '-' && line[0] != '+' && line[0] != ' '),
    ensures
        old_half_line(line) is None,
        new_half_line(line) is None,
{
    reveal_strlit("! ");
    reveal_strlit("- ");
    reveal_strlit("+ ");
    reveal_strlit("  ");
    reveal_strlit(" ");
    assert("! "@.len() == 2 && "- "@.len() == 2 && "+ "@.len() == 2 && "  "@.len() == 2 && " "@.len()
        == 1);
    if line.len() > 0 {
        assert(line.take(1)[0] == line[0]);
        assert(" "@[0] == ' ');
        if line.len() > 1 {
            assert(line.take(2)[0] == line[0]);
            assert("! "@[0] == '!' && "- "@[0] == '-' && "+ "@[0] == '+' && "  "@[0] == ' ');
        }
    }
}

/// The old half goes up to the line that begins with three dashes and a space,
/// and has all the lines above it that belong to it, in order.
pub proof fn law_old_half_is_read_line_by_line(lines: Seq<Seq<char>>, i: int, acc: Seq<Tagged>)
    requires
        0 <= i < lines.len(),
    ensures
        ({
            let line = lines[i];
            let ends = line.len() >= 4 && line.subrange(0, 4) == seq!['-', '-', '-', ' '];
            &&& ends ==> old_half(lines, i, acc) == (acc, i)
            &&& !ends && old_half_line(line) is Some ==> old_half(lines, i, acc) == old_half(
                lines,
                i + 1,
                acc.push(old_half_line(line)->0),
            )
            &&& !ends && old_half_line(line) is None ==> old_half(lines, i, acc) == old_half(
                lines,
                i + 1,
                acc,
            )
        }),
{
    reveal_strlit("--- ");
    assert("--- "@ =~= seq!['-', '-', '-', ' ']);
    assert(lines[i].len() >= 4 ==> lines[i].take(4) =~= lines[i].subrange(0, 4));
}

/// The new half goes up to the first line that does not belong to it, or that
/// begins another hunk or another diff.
pub proof fn law_new_half_is_read_line_by_line(lines: Seq<Seq<char>>, i: int, acc: Seq<Tagged>)
    requires
        0 <= i < lines.len(),
    ensures
        ({
            let line = lines[i];
            let ends = has_prefix(line, "***************"@) || has_prefix(line, "*** "@)
                || has_prefix(line, "diff "@);
            &&& ends || new_half_line(line) is None ==> new_half(lines, i, acc) == (acc, i)
            &&& !ends && new_half_line(line) is Some ==> new_half(lines, i, acc) == new_half(
                lines,
                i + 1,
                acc.push(new_half_line(line)->0),
            )
        }),
{
}

/// At the end of the text both halves end.
pub proof fn law_halves_end_with_the_text(lines: Seq<Seq<char>>, acc: Seq<Tagged>)
    ensures
        old_half(lines, lines.len() as int, acc) == (acc, lines.len() as int),
        new_half(lines, lines.len() as int, acc) == (acc, lines.len() as int),
{
}

// ---------------------------------------------------------------------------
// A half that is left out
// ---------------------------------------------------------------------------

proof fn lemma_implied_first(first: Tagged, rest: Seq<Tagged>, own: char)
    ensures
        implied(seq![first] + rest, own) == if first.0 == own {
            implied(rest, own)
        } else {
            seq![
                (if first.0 == '!' {
                    '!'
                } else {
                    ' '
                }, first.1),
            ] + implied(rest, own)
        },
    decreases rest.len(),
{
    let all = seq![first] + rest;
    if rest.len() == 0 {
        assert(all.drop_last() =~= Seq::empty());
        assert(all.last() == first);
        assert(implied(rest, own) =~= Seq::empty());
        assert(implied(all.drop_last(), own) =~= Seq::empty());
        if first.0 != own {
            assert(implied(all, own) =~= seq![
                (if first.0 == '!' {
                    '!'
                } else {
                    ' '
                }, first.1),
            ] + implied(rest, own));
        }
    } else {
        lemma_implied_first(first, rest.drop_last(), own);
        assert(all.drop_last() =~= seq![first] + rest.drop_last());
        assert(all.last() == rest.last());
        if first.0 != own {
            assert(implied(all, own) =~= seq![
                (if first.0 == '!' {
                    '!'
                } else {
                    ' '
                }, first.1),
            ] + implied(rest, own));
        }
    }
}

/// A half that is left out has the lines of the other that are not the other's
/// own, in order: changed lines as changed, and every other line as context.
pub proof fn law_left_out_half_has_the_common_lines(lines: Seq<Tagged>, own: char)
    ensures
        implied(lines, own) == lines.filter(|t: Tagged| t.0 != own).map_values(
            |t: Tagged|
                (if t.0 == '!' {
                    '!'
                } else {
                    ' '
                }, t.1),
        ),
    decreases lines.len(),
{
    reveal(Seq::filter);
    let f = |t: Tagged|
        (if t.0 == '!' {
            '!'
        } else {
            ' '
        }, t.1);
    if lines.len() > 0 {
        law_left_out_half_has_the_common_lines(lines.drop_last(), own);
        let kept = lines.drop_last().filter(|t: Tagged| t.0 != own);
        assert(kept.push(lines.last()).map_values(f) =~= kept.map_values(f).push(f(lines.last())));
    }
    assert(implied(lines, own) =~= lines.filter(|t: Tagged| t.0 != own).map_values(f));
}

/// The hunk lines of a half that has context and its own lines only.
pub open spec fn one_sided(half: Seq<Tagged>, own: char) -> Seq<LineModel> {
    half.map_values(
        |t: Tagged|
            if t.0 == ' ' {
                LineModel::Context(t.1)
            } else if own == '+' {
                LineModel::Add(t.1)
            } else {
                LineModel::Remove(t.1)
            },
    )
}

proof fn lemma_one_sided(half: Seq<Tagged>, own: char)
    requires
        own == '+' || own == '-',
        forall|i: int| 0 <= i < half.len() ==> (#[trigger] half[i]).0 == ' ' || half[i].0 == own,
    ensures
        own == '+' ==> merged(implied(half, '+'), half) == one_sided(half, '+'),
        own == '-' ==> merged(half, implied(half, '-')) == one_sided(half, '-'),
    decreases half.len(),
{
    if half.len() == 0 {
        assert(one_sided(half, own) =~= Seq::empty());
        assert(implied(half, own) =~= Seq::empty());
    } else {
        let first = half[0];
        let rest = half.skip(1);
        assert(half =~= seq![first] + rest);
        lemma_implied_first(first, rest, own);
        assert forall|i: int| 0 <= i < rest.len() implies (#[trigger] rest[i]).0 == ' '
            || rest[i].0 == own by {
            assert(rest[i] == half[i + 1]);
        }
        lemma_one_sided(rest, own);
        let other = implied(half, own);
        if first.0 == ' ' {
            assert(other.skip(1) =~= implied(rest, own));
        } else {
            lemma_implied_is_context(rest, own);
        }
        assert(one_sided(half, own) =~= seq![one_sided(half, own)[0]] + one_sided(rest, own));
    }
}

proof fn lemma_implied_is_context(half: Seq<Tagged>, own: char)
    requires
        forall|i: int| 0 <= i < half.len() ==> (#[trigger] half[i]).0 == ' ' || half[i].0 == own,
    ensures
        forall|i: int| 0 <= i < implied(half, own).len() ==> (#[trigger] implied(half, own)[i]).0 == ' ',
        implied(half, own).len() == 0 <==> (forall|i: int|
            0 <= i < half.len() ==> (#[trigger] half[i]).0 == own),
    decreases half.len(),
{
    if half.len() > 0 {
        let init = half.drop_last();
        assert forall|i: int| 0 <= i < init.len() implies (#[trigger] init[i]).0 == ' '
            || init[i].0 == own by {
            assert(init[i] == half[i]);
        }
        lemma_implied_is_context(init, own);
        if half.last().0 == own {
            if forall|i: int| 0 <= i < init.len() ==> (#[trigger] init[i]).0 == own {
                assert forall|i: int| 0 <= i < half.len() implies (#[trigger] half[i]).0 == own by {
                    if i < init.len() {
                        assert(init[i].0 == own);
                    }
                }
            } else {
                let k = choose|k: int| 0 <= k < init.len() && (#[trigger] init[k]).0 != own;
                assert(half[k].0 != own);
            }
        } else if own != ' ' {
            assert(half[half.len() - 1].0 != own);
        }
    }
}

/// A hunk whose old half is left out, and whose new half has only context and
/// added lines, is its new half: context stays context, the other lines are
/// added, and nothing is removed. Its ranges are the two that are written.
pub proof fn law_insertion_is_its_new_half(
    suffix: Seq<char>,
    old_range: (usize, usize),
    new_range: (usize, usize),
    new: Seq<Tagged>,
    k: int,
)
    requires
        forall|i: int| 0 <= i < new.len() ==> (#[trigger] new[i]).0 == ' ' || new[i].0 == '+',
        0 <= k < new.len() && new[k].0 == ' ',
        old_range.0 <= old_range.1 && old_range.1 - old_range.0 < usize::MAX,
        new_range.0 <= new_range.1 && new_range.1 - new_range.0 < usize::MAX,
    ensures
        context_hunk(suffix, old_range, new_range, Seq::empty(), new) == (HunkModel {
            old_start: old_range.0,
            old_count: (old_range.1 - old_range.0 + 1) as usize,
            new_start: new_range.0,
            new_count: (new_range.1 - new_range.0 + 1) as usize,
            header_suffix: suffix,
            lines: new.map_values(
                |t: Tagged|
                    if t.0 == '+' {
                        LineModel::Add(t.1)
                    } else {
                        LineModel::Context(t.1)
                    },
            ),
        }),
{
    lemma_one_sided(new, '+');
    lemma_implied_is_context(new, '+');
    assert(one_sided(new, '+') =~= new.map_values(
        |t: Tagged|
            if t.0 == '+' {
                LineModel::Add(t.1)
            } else {
                LineModel::Context(t.1)
            },
    ));
}

/// A hunk whose new half is left out, and whose old half has only context and
/// removed lines, is its old half: context stays context, the other lines are
/// removed, and nothing is added. Its ranges are the two that are written.
pub proof fn law_deletion_is_its_old_half(
    suffix: Seq<char>,
    old_range: (usize, usize),
    new_range: (usize, usize),
    old: Seq<Tagged>,
    k: int,
)
    requires
        forall|i: int| 0 <= i < old.len() ==> (#[trigger] old[i]).0 == ' ' || old[i].0 == '-',
        0 <= k < old.len() && old[k].0 == ' ',
        old_range.0 <= old_range.1 && old_range.1 - old_range.0 < usize::MAX,
        new_range.0 <= new_range.1 && new_range.1 - new_range.0 < usize::MAX,
    ensures
        context_hunk(suffix, old_range, new_range, old, Seq::empty()) == (HunkModel {
            old_start: old_range.0,
            old_count: (old_range.1 - old_range.0 + 1) as usize,
            new_start: new_range.0,
            new_count: (new_range.1 - new_range.0 + 1) as usize,
            header_suffix: suffix,
            lines: old.map_values(
                |t: Tagged|
                    if t.0 == '-' {
                        LineModel::Remove(t.1)
                    } else {
                        LineModel::Context(t.1)
                    },
            ),
        }),
{
    lemma_one_sided(old, '-');
    lemma_implied_is_context(old, '-');
    assert(one_sided(old, '-') =~= old.map_values(
        |t: Tagged|
            if t.0 == '-' {
                LineModel::Remove(t.1)
            } else {
                LineModel::Context(t.1)
            },
    ));
}

/// A hunk with one half alone, all of whose lines are its own, adds or removes
/// them all, and its other side has no lines.
pub proof fn law_half_of_its_own_lines(
    suffix: Seq<char>,
    old_range: (usize, usize),
    new_range: (usize, usize),
    half: Seq<Tagged>,
)
    requires
        half.len() > 0,
        old_range.0 <= old_range.1 && old_range.1 - old_range.0 < usize::MAX,
        new_range.0 <= new_range.1 && new_range.1 - new_range.0 < usize::MAX,
    ensures
        (forall|i: int| 0 <= i < half.len() ==> (#[trigger] half[i]).0 == '+') ==> {
            let hunk = context_hunk(suffix, old_range, new_range, Seq::empty(), half);
            &&& hunk.lines == half.map_values(|t: Tagged| LineModel::Add(t.1))
            &&& hunk.old_start == old_range.0 && hunk.old_count == 0
            &&& hunk.new_start == new_range.0 && hunk.new_count == new_range.1 - new_range.0 + 1
        },
        (forall|i: int| 0 <= i < half.len() ==> (#[trigger] half[i]).0 == '-') ==> {
            let hunk = context_hunk(suffix, old_range, new_range, half, Seq::empty());
            &&& hunk.lines == half.map_values(|t: Tagged| LineModel::Remove(t.1))
            &&& hunk.old_start == old_range.0 && hunk.old_count == old_range.1 - old_range.0 + 1
            &&& hunk.new_start == new_range.0 && hunk.new_count == 0
        },
{
    if forall|i: int| 0 <= i < half.len() ==> (#[trigger] half[i]).0 == '+' {
        lemma_one_sided(half, '+');
        lemma_implied_is_context(half, '+');
        assert(one_sided(half, '+') =~= half.map_values(|t: Tagged| LineModel::Add(t.1)));
        assert(implied(half, '+') =~= Seq::empty());
    }
    if forall|i: int| 0 <= i < half.len() ==> (#[trigger] half[i]).0 == '-' {
        lemma_one_sided(half, '-');
        lemma_implied_is_context(half, '-');
        assert(one_sided(half, '-') =~= half.map_values(|t: Tagged| LineModel::Remove(t.1)));
        assert(implied(half, '-') =~= Seq::empty());
    }
}

// ---------------------------------------------------------------------------
// Hunks and patches
// ---------------------------------------------------------------------------

/// The halves of a hunk become hunk lines from the front: a context line that
/// both have, in the words of the old half; then the removed or changed lines of
/// the old half; then the added or changed lines of the new half; and context
/// that one half alone has.
pub proof fn law_halves_are_merged_from_the_front(old: Seq<Tagged>, new: Seq<Tagged>)
    ensures
        old.len() == 0 && new.len() == 0 ==> merged(old, new) == Seq::<LineModel>::empty(),
        old.len() > 0 && new.len() > 0 && old[0].0 == ' ' && new[0].0 == ' ' ==> merged(old, new)
            == seq![LineModel::Context(old[0].1)] + merged(old.skip(1), new.skip(1)),
        old.len() > 0 && (old[0].0 == '-' || old[0].0 == '!') ==> merged(old, new) == seq![
            LineModel::Remove(old[0].1),
        ] + merged(old.skip(1), new),
        (old.len() == 0 || old[0].0 == ' ') && new.len() > 0 && (new[0].0 == '+' || new[0].0 == '!')
            ==> merged(old, new) == seq![LineModel::Add(new[0].1)] + merged(old, new.skip(1)),
        old.len() > 0 && old[0].0 == ' ' && new.len() == 0 ==> merged(old, new) == seq![
            LineModel::Context(old[0].1),
        ] + merged(old.skip(1), new),
        old.len() == 0 && new.len() > 0 && new[0].0 == ' ' ==> merged(old, new) == seq![
            LineModel::Context(new[0].1),
        ] + merged(old, new.skip(1)),
{
}

/// A hunk with two halves has the ranges that are written, and its lines are
/// those of the two halves. A range that ends before it starts has no lines.
pub proof fn law_hunk_of_two_halves(
    suffix: Seq<char>,
    old_range: (usize, usize),
    new_range: (usize, usize),
    old: Seq<Tagged>,
    new: Seq<Tagged>,
)
    requires
        old.len() > 0,
        new.len() > 0,
        old_range.1 - old_range.0 < usize::MAX,
        new_range.1 - new_range.0 < usize::MAX,
    ensures
        ({
            let hunk = context_hunk(suffix, old_range, new_range, old, new);
            &&& hunk.old_start == old_range.0
            &&& hunk.old_count == if old_range.0 <= old_range.1 {
                old_range.1 - old_range.0 + 1
            } else {
                0
            }
            &&& hunk.new_start == new_range.0
            &&& hunk.new_count == if new_range.0 <= new_range.1 {
                new_range.1 - new_range.0 + 1
            } else {
                0
            }
            &&& hunk.header_suffix == suffix
            &&& hunk.lines == merged(old, new)
        }),
{
}

/// Below a row of fifteen stars stand the old range, the old half, the new range
/// and the new half: one hunk, named by what follows the stars. A new half that
/// is there but is not as long as its range says stops the reading.
pub proof fn law_hunk_below_the_stars(
    lines: Seq<Seq<char>>,
    i: int,
    acc: Seq<HunkModel>,
    suffix: Seq<char>,
    old_range: (usize, usize),
    new_range: (usize, usize),
    old: Seq<Tagged>,
    j: int,
    new: Seq<Tagged>,
    next: int,
)
    requires
        0 <= i && i + 2 <= j < lines.len() <= usize::MAX,
        lines[i] == "***************"@ + suffix,
        context_range(lines[i + 1]) == Ok::<_, PatchError>(Some(old_range)),
        old_half(lines, i + 2, Seq::empty()) == (old, j),
        context_range(lines[j]) == Ok::<_, PatchError>(Some(new_range)),
        new_half(lines, j + 1, Seq::empty()) == (new, next),
        old_range.1 - old_range.0 < usize::MAX,
        new_range.1 - new_range.0 < usize::MAX,
    ensures
        new.len() == 0 || new.len() == new_range.1 - new_range.0 + 1 ==> context_hunks(
            lines,
            i,
            acc,
        ) == context_hunks(
            lines,
            next,
            acc.push(context_hunk(suffix, old_range, new_range, old, new)),
        ),
        new.len() > 0 && new_range.0 <= new_range.1 && new.len() != new_range.1 - new_range.0 + 1
            ==> context_hunks(lines, i, acc) == Err::<(Seq<HunkModel>, int), _>(
            PatchError::MangledHunk { line: j as usize },
        ),
{
    let stars = "***************"@;
    assert(lines[i].take(stars.len() as int) =~= stars);
    assert(lines[i].skip(stars.len() as int) =~= suffix);
    lemma_halves_advance(lines, j + 1, Seq::empty());
    if new.len() == 0 || new.len() == new_range.1 - new_range.0 + 1 {
        assert(context_step(lines, i) == (ContextStep::Hunk {
            hunk: context_hunk(suffix, old_range, new_range, old, new),
            next,
        }));
    }
}

/// Hunks end at the first line that is no row of stars, or at the end.
pub proof fn law_context_hunks_end(lines: Seq<Seq<char>>, i: int, acc: Seq<HunkModel>)
    requires
        0 <= i < lines.len() ==> !has_prefix(lines[i], "***************"@),
        0 <= i <= lines.len(),
    ensures
        context_hunks(lines, i, acc) == Ok::<_, PatchError>((acc, i)),
{
}

/// A context diff is named by its two header lines: the old file behind three
/// stars, the new one behind three dashes. What is written there is kept.
pub proof fn law_context_headers_name_files(
    lines: Seq<Seq<char>>,
    i: int,
    a: Seq<char>,
    b: Seq<char>,
)
    requires
        0 <= i && i + 1 < lines.len(),
        lines[i] == "*** "@ + a,
        lines[i + 1] == "--- "@ + b,
    ensures
        match context_hunks(lines, i + 2, Seq::empty()) {
            Err(e) => context_patch(lines, i) == Err::<Option<(PatchModel, int)>, _>(e),
            Ok((hunks, next)) => if hunks.len() == 0 {
                context_patch(lines, i) == Ok::<Option<(PatchModel, int)>, PatchError>(None)
            } else {
                context_patch(lines, i) == Ok::<_, PatchError>(
                    Some(
                        (
                            (PatchModel {
                                old_file: header_file("*** "@ + a),
                                new_file: header_file("--- "@ + b),
                                old_header: a,
                                new_header: b,
                                index_line: None,
                                hunks,
                                format: DiffFormat::Context,
                                git: plain_git(),
                            }),
                            next,
                        ),
                    ),
                )
            },
        },
{
    reveal_strlit("*** ");
    reveal_strlit("--- ");
    assert("*** "@.len() == 4 && "--- "@.len() == 4);
    assert(lines[i].take(4) =~= "*** "@);
    assert(lines[i + 1].take(4) =~= "--- "@);
    assert(lines[i].skip(4) =~= a);
    assert(lines[i + 1].skip(4) =~= b);
    assert(context_start(lines, i) == i);
}

/// A context diff may begin with its first row of stars: it then names no file.
pub proof fn law_bare_context_hunks_name_no_file(lines: Seq<Seq<char>>, i: int, s: Seq<char>)
    requires
        0 <= i < lines.len(),
        lines[i] == "***************"@ + s,
    ensures
        match context_hunks(lines, i, Seq::empty()) {
            Err(e) => context_patch(lines, i) == Err::<Option<(PatchModel, int)>, _>(e),
            Ok((hunks, next)) => if hunks.len() == 0 {
                context_patch(lines, i) == Ok::<Option<(PatchModel, int)>, PatchError>(None)
            } else {
                context_patch(lines, i) == Ok::<_, PatchError>(
                    Some(
                        (
                            (PatchModel {
                                old_file: Seq::empty(),
                                new_file: Seq::empty(),
                                old_header: Seq::empty(),
                                new_header: Seq::empty(),
                                index_line: None,
                                hunks,
                                format: DiffFormat::Context,
                                git: plain_git(),
                            }),
                            next,
                        ),
                    ),
                )
            },
        },
{
    reveal_strlit("*** ");
    reveal_strlit("***************");
    assert("*** "@.len() == 4 && "*** "@[3] == ' ');
    assert("***************"@.len() == 15 && "***************"@[3] == '*');
    assert(lines[i].take(15) =~= "***************"@);
    assert(lines[i].take(4)[3] == '*');
    assert(context_start(lines, i) == i);
}

/// A header line with three stars and no line with three dashes below it opens
/// no context diff, and neither does the end of the text.
pub proof fn law_half_a_header_is_no_context_diff(lines: Seq<Seq<char>>, i: int, a: Seq<char>)
    requires
        0 <= i < lines.len(),
        lines[i] == "*** "@ + a,
        i + 1 == lines.len() || !has_prefix(lines[i + 1], "--- "@),
    ensures
        context_patch(lines, i) == Ok::<Option<(PatchModel, int)>, PatchError>(None),
        context_patch(lines, lines.len() as int) == Ok::<Option<(PatchModel, int)>, PatchError>(
            None,
        ),
{
    reveal_strlit("*** ");
    assert("*** "@.len() == 4);
    assert(lines[i].take(4) =~= "*** "@);
    assert(context_start(lines, i) == i);
}

/// Lines above a context diff that are neither its header nor a row of stars
/// are passed over.
pub proof fn law_text_above_a_context_diff(lines: Seq<Seq<char>>, i: int)
    requires
        0 <= i < lines.len(),
        !has_prefix(lines[i], "*** "@),
        !has_prefix(lines[i], "***************"@),
    ensures
        context_patch(lines, i) == context_patch(lines, i + 1),
{
}

} // verus!
