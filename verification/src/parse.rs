//! Patch files: a run of diffs with other text between them.
use vstd::prelude::*;

use crate::context::{context_patch, lemma_context_patch_advances, parse_context_patch};
use crate::header::{normal_command, parse_normal_command};
use crate::model::{
    patch_models, DiffFormat, FilePatch, Notes, NotesModel, PatchError, PatchModel,
};
use crate::normal::{lemma_normal_patch_advances, normal_patch, parse_normal_patch};
use crate::text::{
    has_prefix, lemma_final_newline, newline_parts, slices, split_lines, starts_with, texts,
};
use crate::unified::{
    empty_preamble, lemma_empty_line_says_nothing, lemma_unified_patch_advances,
    parse_unified_patch, preamble_from, unified_patch,
};

verus! {

/// The form of the next diff from line `i` on: that of the first line that
/// only one form has. Without such a line it is unified.
pub open spec fn format_from(lines: Seq<Seq<char>>, i: int) -> Result<DiffFormat, PatchError>
    decreases lines.len() - i,
{
    if i >= lines.len() || has_prefix(lines[i], "@@"@) {
        Ok(DiffFormat::Unified)
    } else if has_prefix(lines[i], "***************"@) {
        Ok(DiffFormat::Context)
    } else {
        match normal_command(lines[i]) {
            Err(e) => Err(e),
            Ok(Some(_)) => Ok(DiffFormat::Normal),
            Ok(None) => format_from(lines, i + 1),
        }
    }
}

/// The diff from line `i` on, read as the form that comes next: the patch and
/// where it ends, or nothing; and the notes.
pub open spec fn diff_at(lines: Seq<Seq<char>>, i: int, notes: NotesModel) -> (
    Result<Option<(PatchModel, int)>, PatchError>,
    NotesModel,
) {
    match format_from(lines, i) {
        Err(e) => (Err(e), notes),
        Ok(DiffFormat::Unified) => unified_patch(lines, i, notes),
        Ok(DiffFormat::Context) => (context_patch(lines, i), notes),
        Ok(DiffFormat::Normal) => (normal_patch(lines, i), notes),
    }
}

/// A diff ends below the line that reading started at, whatever was noted
/// before.
pub proof fn law_reading_advances(lines: Seq<Seq<char>>, i: int, notes: NotesModel)
    requires
        0 <= i <= lines.len(),
    ensures
        diff_at(lines, i, notes).0 matches Ok(Some((patch, next))) ==> i < next <= lines.len(),
{
    lemma_unified_patch_advances(lines, i, notes);
    lemma_context_patch_advances(lines, i);
    lemma_normal_patch_advances(lines, i);
}

/// The patches from line `i` on, after the patches `acc`, and the notes. A
/// line at which no diff can be read is passed over.
pub open spec fn patches_from(
    lines: Seq<Seq<char>>,
    i: int,
    acc: Seq<PatchModel>,
    notes: NotesModel,
) -> (Result<Seq<PatchModel>, PatchError>, NotesModel)
    decreases lines.len() - i,
{
    if i < 0 || i >= lines.len() {
        (Ok(acc), notes)
    } else {
        proof {
            law_reading_advances(lines, i, notes);
        }
        let (r, notes2) = diff_at(lines, i, notes);
        match r {
            Err(e) => (Err(e), notes2),
            Ok(None) => patches_from(lines, i + 1, acc, notes2),
            Ok(Some((patch, next))) => patches_from(lines, next, acc.push(patch), notes2),
        }
    }
}

/// The patches in a text, and the notes.
pub open spec fn patches_in(input: Seq<char>, notes: NotesModel) -> (
    Result<Seq<PatchModel>, PatchError>,
    NotesModel,
) {
    patches_from(newline_parts(input), 0, Seq::empty(), notes)
}

/// A text and the same text with a final newline hold the same patches, and
/// reading them notes the same. When the text is empty, so is the one line that
/// the newline makes, and that line must be read as no command.
pub proof fn law_final_newline_changes_nothing(input: Seq<char>, notes: NotesModel)
    requires
        input.len() > 0 ==> input.last() != '\n',
        input.len() == 0 ==> normal_command(Seq::empty()) == Ok::<
            Option<(usize, usize, char, usize, usize)>,
            PatchError,
        >(None),
    ensures
        patches_in(input.push('\n'), notes) == patches_in(input, notes),
{
    lemma_final_newline(input);
    if input.len() == 0 {
        reveal_strlit("@@");
        reveal_strlit("***************");
        reveal_strlit("--- ");
        reveal_strlit("GIT binary patch");
        let lines = newline_parts(input.push('\n'));
        assert(lines[0].len() == 0);
        assert(format_from(lines, 0) == format_from(lines, 1));
        lemma_empty_line_says_nothing();
        assert(preamble_from(lines, 0, empty_preamble()) == preamble_from(
            lines,
            1,
            empty_preamble(),
        ));
        assert(diff_at(lines, 0, notes).0 == Ok::<Option<(PatchModel, int)>, PatchError>(None));
        assert(patches_from(lines, 0, Seq::empty(), notes) == patches_from(
            lines,
            1,
            Seq::empty(),
            notes,
        ));
    }
}

/// The form of the next diff from line `start` on.
pub fn detect_format(lines: &[&str], start: usize) -> (r: Result<DiffFormat, PatchError>)
    requires
        start <= lines@.len(),
    ensures
        r == format_from(slices(lines@), start as int),
{
    let ghost all = slices(lines@);
    let n = lines.len();
    let mut i: usize = start;
    while i < n
        invariant
            all == slices(lines@),
            n == lines@.len(),
            i <= n,
            format_from(all, i as int) == format_from(all, start as int),
        decreases n - i,
    {
        assert(all[i as int] == lines@[i as int]@);
        if starts_with(lines[i], "@@") {
            return Ok(DiffFormat::Unified);
        }
        if starts_with(lines[i], "***************") {
            return Ok(DiffFormat::Context);
        }
        match parse_normal_command(lines[i]) {
            Err(e) => {
                return Err(e);
            },
            Ok(Some(_)) => {
                return Ok(DiffFormat::Normal);
            },
            Ok(None) => {},
        }
        i = i + 1;
    }
    Ok(DiffFormat::Unified)
}

/// Reads the diff from line `i` on.
fn read_diff_at(lines: &[&str], i: usize, notes: &mut Notes) -> (r: Result<
    Option<(FilePatch, usize)>,
    PatchError,
>)
    requires
        i <= lines@.len(),
    ensures
        ({
            let (model, notes2) = diff_at(slices(lines@), i as int, old(notes)@);
            &&& final(notes)@ == notes2
            &&& match r {
                Ok(Some((patch, next))) => model == Ok::<_, PatchError>(
                    Some((patch@, next as int)),
                ) && i < next <= lines@.len(),
                Ok(None) => model == Ok::<Option<(PatchModel, int)>, PatchError>(None),
                Err(e) => model == Err::<Option<(PatchModel, int)>, _>(e),
            }
        }),
{
    match detect_format(lines, i) {
        Err(e) => Err(e),
        Ok(DiffFormat::Unified) => parse_unified_patch(lines, i, notes),
        Ok(DiffFormat::Context) => parse_context_patch(lines, i),
        Ok(DiffFormat::Normal) => parse_normal_patch(lines, i),
    }
}

/// Reads all the patches in `input`.
pub fn parse_patches(input: &str, notes: &mut Notes) -> (r: Result<Vec<FilePatch>, PatchError>)
    ensures
        ({
            let (model, notes2) = patches_in(input@, old(notes)@);
            &&& final(notes)@ == notes2
            &&& match r {
                Ok(patches) => model == Ok::<_, PatchError>(patch_models(patches@)),
                Err(e) => model == Err::<Seq<PatchModel>, _>(e),
            }
        }),
{
    let owned = split_lines(input);
    let mut lines: Vec<&str> = Vec::new();
    let mut k: usize = 0;
    while k < owned.len()
        invariant
            k <= owned@.len(),
            slices(lines@) == texts(owned@).take(k as int),
        decreases owned@.len() - k,
    {
        let ghost before = slices(lines@);
        let line = owned[k].as_str();
        lines.push(line);
        proof {
            assert(slices(lines@) =~= before.push(line@));
            assert(texts(owned@).take(k + 1) =~= texts(owned@).take(k as int).push(line@));
        }
        k = k + 1;
    }
    assert(texts(owned@).take(k as int) =~= texts(owned@));
    let lines = lines.as_slice();
    let ghost all = slices(lines@);
    let ghost notes0 = notes@;
    let n = lines.len();
    let mut patches: Vec<FilePatch> = Vec::new();
    let mut i: usize = 0;
    assert(patch_models(patches@) =~= Seq::empty());
    while i < n
        invariant
            all == slices(lines@),
            all == newline_parts(input@),
            notes0 == old(notes)@,
            n == lines@.len(),
            i <= n,
            patches_from(all, i as int, patch_models(patches@), notes@) == patches_from(
                all,
                0,
                Seq::empty(),
                notes0,
            ),
        decreases n - i,
    {
        match read_diff_at(lines, i, notes) {
            Err(e) => {
                return Err(e);
            },
            Ok(None) => {
                i = i + 1;
            },
            Ok(Some((patch, next))) => {
                let ghost before = patch_models(patches@);
                let ghost model = patch@;
                patches.push(patch);
                assert(patch_models(patches@) =~= before.push(model));
                i = next;
            },
        }
    }
    Ok(patches)
}

} // verus!
