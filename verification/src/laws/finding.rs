//! Which diffs a text holds.
use vstd::prelude::*;

use crate::context::context_patch;
use crate::header::normal_command;
use crate::laws::wording::{ended_lines, law_lines_of_a_text};
use crate::model::{DiffFormat, NotesModel, PatchError, PatchModel};
use crate::normal::normal_patch;
use crate::parse::{diff_at, format_from, patches_from, patches_in};
use crate::text::has_prefix;
use crate::unified::unified_patch;

verus! {

/// The line tells no form of a diff.
pub open spec fn tells_nothing(line: Seq<char>) -> bool {
    &&& !has_prefix(line, "@@"@)
    &&& !has_prefix(line, "***************"@)
    &&& normal_command(line) matches Ok(None)
}

/// The form of a diff is told by the first line that tells one: the marks of a
/// unified hunk, the stars of a context hunk, or a command. A diff that no line
/// tells the form of is unified.
pub proof fn law_first_telling_line_counts(lines: Seq<Seq<char>>, i: int, k: int)
    requires
        0 <= i <= k <= lines.len(),
        forall|j: int| i <= j < k ==> tells_nothing(#[trigger] lines[j]),
    ensures
        k == lines.len() ==> format_from(lines, i) == Ok::<DiffFormat, PatchError>(
            DiffFormat::Unified,
        ),
        k < lines.len() && has_prefix(lines[k], "@@"@) ==> format_from(lines, i) == Ok::<
            DiffFormat,
            PatchError,
        >(DiffFormat::Unified),
        k < lines.len() && has_prefix(lines[k], "***************"@) ==> format_from(lines, i)
            == Ok::<DiffFormat, PatchError>(DiffFormat::Context),
        k < lines.len() && !has_prefix(lines[k], "@@"@) && !has_prefix(
            lines[k],
            "***************"@,
        ) && (normal_command(lines[k]) matches Ok(Some(_))) ==> format_from(lines, i) == Ok::<
            DiffFormat,
            PatchError,
        >(DiffFormat::Normal),
        k < lines.len() && !has_prefix(lines[k], "@@"@) && !has_prefix(
            lines[k],
            "***************"@,
        ) && normal_command(lines[k]) is Err ==> format_from(lines, i) is Err,
    decreases k - i,
{
    if i < k {
        assert(tells_nothing(lines[i]));
        law_first_telling_line_counts(lines, i + 1, k);
    } else if k < lines.len() {
        reveal_strlit("@@");
        reveal_strlit("***************");
        if has_prefix(lines[k], "@@"@) && has_prefix(lines[k], "***************"@) {
            assert(lines[k].take(2)[0] == lines[k].take(15)[0]);
            assert("@@"@[0] == '@' && "***************"@[0] == '*');
        }
    }
}

/// A diff is read in the form that is told.
pub proof fn law_diff_is_read_in_its_form(lines: Seq<Seq<char>>, i: int, notes: NotesModel)
    ensures
        format_from(lines, i) matches Ok(DiffFormat::Unified) ==> diff_at(lines, i, notes)
            == unified_patch(lines, i, notes),
        format_from(lines, i) matches Ok(DiffFormat::Context) ==> diff_at(lines, i, notes) == (
            context_patch(lines, i),
            notes,
        ),
        format_from(lines, i) matches Ok(DiffFormat::Normal) ==> diff_at(lines, i, notes) == (
            normal_patch(lines, i),
            notes,
        ),
        format_from(lines, i) matches Err(e) ==> (diff_at(lines, i, notes).0 matches Err(f) && f
            == e),
{
}

/// Diffs are read one after the other, each where the one before it ends. A line
/// at which none can be read is passed over, and one that cannot be read to its
/// end stops all of it.
pub proof fn law_diffs_follow_one_another(
    lines: Seq<Seq<char>>,
    i: int,
    acc: Seq<PatchModel>,
    notes: NotesModel,
)
    requires
        0 <= i < lines.len(),
    ensures
        ({
            let (r, later) = diff_at(lines, i, notes);
            &&& r matches Ok(Some((patch, next))) ==> patches_from(lines, i, acc, notes)
                == patches_from(lines, next, acc.push(patch), later)
            &&& r matches Ok(None) ==> patches_from(lines, i, acc, notes) == patches_from(
                lines,
                i + 1,
                acc,
                later,
            )
            &&& r matches Err(e) ==> (patches_from(lines, i, acc, notes).0 matches Err(f) && f == e)
        }),
        patches_from(lines, lines.len() as int, acc, notes) == (
            Ok::<Seq<PatchModel>, PatchError>(acc),
            notes,
        ),
{
}

/// A diff that ends with the text is its only patch.
pub proof fn law_one_diff_is_one_patch(
    lines: Seq<Seq<char>>,
    notes: NotesModel,
    patch: PatchModel,
    later: NotesModel,
)
    requires
        lines.len() > 0,
        forall|i: int| 0 <= i < lines.len() ==> !(#[trigger] lines[i]).contains('\n'),
        diff_at(lines, 0, notes) == (
            Ok::<Option<(PatchModel, int)>, PatchError>(Some((patch, lines.len() as int))),
            later,
        ),
    ensures
        patches_in(ended_lines(lines), notes) == (
            Ok::<Seq<PatchModel>, PatchError>(seq![patch]),
            later,
        ),
{
    law_lines_of_a_text(lines, Seq::empty());
    law_diffs_follow_one_another(lines, 0, Seq::empty(), notes);
    law_diffs_follow_one_another(lines, 0, Seq::<PatchModel>::empty().push(patch), later);
    assert(Seq::<PatchModel>::empty().push(patch) =~= seq![patch]);
}

/// Two diffs are two patches, in their order.
pub proof fn law_two_diffs_are_two_patches(
    lines: Seq<Seq<char>>,
    middle: int,
    notes: NotesModel,
    first: PatchModel,
    between: NotesModel,
    second: PatchModel,
    later: NotesModel,
)
    requires
        0 < middle < lines.len(),
        forall|i: int| 0 <= i < lines.len() ==> !(#[trigger] lines[i]).contains('\n'),
        diff_at(lines, 0, notes) == (
            Ok::<Option<(PatchModel, int)>, PatchError>(Some((first, middle))),
            between,
        ),
        diff_at(lines, middle, between) == (
            Ok::<Option<(PatchModel, int)>, PatchError>(Some((second, lines.len() as int))),
            later,
        ),
    ensures
        patches_in(ended_lines(lines), notes) == (
            Ok::<Seq<PatchModel>, PatchError>(seq![first, second]),
            later,
        ),
{
    law_lines_of_a_text(lines, Seq::empty());
    let none = Seq::<PatchModel>::empty();
    law_diffs_follow_one_another(lines, 0, none, notes);
    law_diffs_follow_one_another(lines, middle, none.push(first), between);
    law_diffs_follow_one_another(lines, 0, none.push(first).push(second), later);
    assert(none.push(first).push(second) =~= seq![first, second]);
}

} // verus!
