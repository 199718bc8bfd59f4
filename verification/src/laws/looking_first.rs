//! What is looked at before a file is changed.
use vstd::prelude::*;

use crate::laws::deciding::has_cr;
use crate::model::{DiffFormat, HunkModel, PatchModel};
use crate::number::decimal;
use crate::options::{OptionsModel, ReadOnlyMode};
use crate::paths::{base_of, is_dangerous, quoted, seen_from, stripped_opt, target_of};
use crate::preflight::{
    announcement, chosen_target, dangerous_text, describes_link, hunk_has_cr, hunks_have_cr,
    line_text, name_check, preflight_check, NameFacts, NameVerdict, TargetFacts, VerdictModel,
};
use crate::report::{not_found_lines, reject_name};
use crate::text::has_suffix;

verus! {

// ---------------------------------------------------------------------------
// Names
// ---------------------------------------------------------------------------

/// The name can be that of a file.
pub open spec fn is_file_name(name: Seq<char>) -> bool {
    name.len() > 0 && name != "/dev/null"@
}

/// The text of a string that may be absent.
pub open spec fn text_if(s: Option<String>) -> Option<Seq<char>> {
    match s {
        Some(t) => Some(t@),
        None => None,
    }
}

/// The patch and the command line name no file.
pub open spec fn without_names(p: PatchModel, o: OptionsModel) -> bool {
    o.positional_file is None && p.old_file.len() == 0 && p.new_file.len() == 0 && p.hunks.len() > 0
}

/// A strip count leaves nothing of the names, though there are some.
pub open spec fn without_rest(p: PatchModel, o: OptionsModel) -> bool {
    &&& o.strip is Some && o.positional_file is None
    &&& p.old_file.len() > 0 || p.new_file.len() > 0
    &&& !is_file_name(stripped_opt(p.old_file, o.strip))
    &&& !is_file_name(stripped_opt(p.new_file, o.strip))
}

/// A name leads out of the working directory, and no other name has a file that
/// is there and does not.
pub open spec fn without_safe_file(p: PatchModel, o: OptionsModel, f: NameFacts) -> bool {
    let cwd = text_if(f.cwd);
    let old = stripped_opt(p.old_file, o.strip);
    let new = stripped_opt(p.new_file, o.strip);
    let old_out = is_dangerous(old, f.old_place, cwd);
    let new_out = is_dangerous(new, f.new_place, cwd);
    &&& old_out || new_out
    &&& !(is_file_name(old) && !old_out && f.old_exists)
    &&& !(is_file_name(new) && !new_out && f.new_exists)
}

/// A patch without names is garbage, or passed over when it is forced. One of
/// whose names nothing is left is passed over, and so is one whose names lead
/// out of the working directory. Every other patch goes on.
pub proof fn law_patches_that_are_passed_over(p: PatchModel, o: OptionsModel, f: NameFacts)
    ensures
        without_names(p, o) && !o.on.force ==> name_check(p, o, f) == (
            Seq::<Seq<char>>::empty(),
            NameVerdict::Garbage,
        ),
        without_names(p, o) && o.on.force ==> name_check(p, o, f).1 == NameVerdict::Skip,
        !without_names(p, o) && without_rest(p, o) ==> name_check(p, o, f).1 == NameVerdict::Skip,
        !without_names(p, o) && without_safe_file(p, o, f) ==> name_check(p, o, f).1
            == NameVerdict::Skip,
        !without_names(p, o) && chosen_target(p, o, f) is None ==> name_check(p, o, f).1
            == NameVerdict::Skip,
        !without_names(p, o) && !without_rest(p, o) && !without_safe_file(p, o, f) && chosen_target(
            p,
            o,
            f,
        ) is Some ==> name_check(p, o, f) == (Seq::<Seq<char>>::empty(), NameVerdict::Go),
        o.on.silent ==> name_check(p, o, f).0 == Seq::<Seq<char>>::empty(),
{
}

/// What is said of a patch that is passed over: that there is no file, or the
/// two headers and a hint, behind the names that lead out if all of them do.
pub proof fn law_what_is_said_of_names(p: PatchModel, o: OptionsModel, f: NameFacts)
    requires
        !o.on.silent,
    ensures
        ({
            let said = name_check(p, o, f).0;
            let hint = "Perhaps you used the wrong -p or --strip option?"@;
            let cwd = text_if(f.cwd);
            let old = stripped_opt(p.old_file, o.strip);
            let new = stripped_opt(p.new_file, o.strip);
            let old_out = is_dangerous(old, f.old_place, cwd);
            let new_out = is_dangerous(new, f.new_place, cwd);
            let ignored = "Ignoring potentially dangerous file name "@;
            let lost = without_safe_file(p, o, f) && !without_names(p, o) && !without_rest(p, o);
            &&& without_names(p, o) && o.on.force ==> said == seq![
                "can't find file to patch at input line 1"@,
                "No file to patch.  Skipping patch."@,
                decimal(p.hunks.len()) + " out of "@ + decimal(p.hunks.len()) + " hunk ignored"@,
            ]
            &&& !without_names(p, o) && without_rest(p, o) ==> said == not_found_lines(p, hint)
            &&& lost && old_out && new_out && old != new ==> said == seq![
                ignored + quoted(old),
                ignored + quoted(new),
            ] + not_found_lines(p, hint)
            &&& lost && old_out && new_out && old == new ==> said == seq![ignored + quoted(old)]
                + not_found_lines(p, hint)
            &&& lost && old_out && !is_file_name(new) && !new_out ==> said == seq![
                ignored + quoted(old),
            ] + not_found_lines(p, hint)
            &&& lost && new_out && !is_file_name(old) && !old_out ==> said == seq![
                ignored + quoted(new),
            ] + not_found_lines(p, hint)
            &&& lost && ((is_file_name(old) && !old_out) || (is_file_name(new) && !new_out)) ==> said
                == not_found_lines(p, hint)
        }),
{
    let said = name_check(p, o, f).0;
    let hint = "Perhaps you used the wrong -p or --strip option?"@;
    let none = Seq::<Seq<char>>::empty();
    assert(none + not_found_lines(p, hint) =~= not_found_lines(p, hint));
    if without_names(p, o) && o.on.force {
        assert(said =~= seq![
            "can't find file to patch at input line 1"@,
            "No file to patch.  Skipping patch."@,
            decimal(p.hunks.len()) + " out of "@ + decimal(p.hunks.len()) + " hunk ignored"@,
        ]);
    }
    let old = stripped_opt(p.old_file, o.strip);
    let new = stripped_opt(p.new_file, o.strip);
    assert(none.push(dangerous_text(old)) =~= seq![dangerous_text(old)]);
    assert(none.push(dangerous_text(new)) =~= seq![dangerous_text(new)]);
    assert(none.push(dangerous_text(old)).push(dangerous_text(new)) =~= seq![
        dangerous_text(old),
        dangerous_text(new),
    ]);
}

/// The file that is chosen is the target, with a name that leads out counted as
/// one without a file; and none is chosen if the target is such a name.
pub proof fn law_file_that_is_chosen(p: PatchModel, o: OptionsModel, f: NameFacts)
    ensures
        ({
            let cwd = text_if(f.cwd);
            let old = stripped_opt(p.old_file, o.strip);
            let new = stripped_opt(p.new_file, o.strip);
            let old_out = is_dangerous(old, f.old_place, cwd);
            let new_out = is_dangerous(new, f.new_place, cwd);
            let target = target_of(p, o, f.old_exists && !old_out, f.new_exists && !new_out);
            let bad = (old_out && target == seen_from(base_of(o), old)) || (new_out && target
                == seen_from(base_of(o), new));
            &&& o.positional_file is Some ==> chosen_target(p, o, f) == o.positional_file
            &&& o.positional_file is None && bad ==> chosen_target(p, o, f) is None
            &&& o.positional_file is None && !bad ==> chosen_target(p, o, f) == Some(target)
        }),
{
}

/// That no file was found is said with the two headers behind their marks, and
/// that all hunks are passed over.
pub proof fn law_what_is_said_without_a_file(p: PatchModel, hint: Seq<char>)
    ensures
        ({
            let marks = if p.format == DiffFormat::Context {
                ("|*** "@, "|--- "@)
            } else {
                ("|--- "@, "|+++ "@)
            };
            let n = decimal(p.hunks.len());
            not_found_lines(p, hint) == seq![
                "can't find file to patch at input line 3"@,
                hint,
                "The text leading up to this was:"@,
                "--------------------------"@,
                marks.0 + p.old_header,
                marks.1 + p.new_header,
                "--------------------------"@,
                "No file to patch.  Skipping patch."@,
                n + " out of "@ + n + " hunk ignored"@,
            ]
        }),
{
    reveal_strlit("|");
    reveal_strlit("*** ");
    reveal_strlit("--- ");
    reveal_strlit("+++ ");
    reveal_strlit("|*** ");
    reveal_strlit("|--- ");
    reveal_strlit("|+++ ");
    assert("|"@ + "*** "@ =~= "|*** "@);
    assert("|"@ + "--- "@ =~= "|--- "@);
    assert("|"@ + "+++ "@ =~= "|+++ "@);
    let n = decimal(p.hunks.len());
    let marks = if p.format == DiffFormat::Context {
        ("|*** "@, "|--- "@)
    } else {
        ("|--- "@, "|+++ "@)
    };
    assert(not_found_lines(p, hint)[4] =~= marks.0 + p.old_header);
    assert(not_found_lines(p, hint)[5] =~= marks.1 + p.new_header);
    assert(not_found_lines(p, hint) =~= seq![
        "can't find file to patch at input line 3"@,
        hint,
        "The text leading up to this was:"@,
        "--------------------------"@,
        marks.0 + p.old_header,
        marks.1 + p.new_header,
        "--------------------------"@,
        "No file to patch.  Skipping patch."@,
        n + " out of "@ + n + " hunk ignored"@,
    ]);
}

// ---------------------------------------------------------------------------
// Files
// ---------------------------------------------------------------------------

/// The patch makes its file.
pub open spec fn makes_file(p: PatchModel, o: OptionsModel) -> bool {
    stripped_opt(p.old_file, o.strip) == "/dev/null"@ && is_file_name(
        stripped_opt(p.new_file, o.strip),
    )
}

/// The patch deletes its file.
pub open spec fn drops_file(p: PatchModel, o: OptionsModel) -> bool {
    stripped_opt(p.new_file, o.strip) == "/dev/null"@ && is_file_name(
        stripped_opt(p.old_file, o.strip),
    )
}

/// The hunks take lines from the file and leave none.
pub open spec fn empties_file(hunks: Seq<HunkModel>) -> bool {
    &&& hunks.len() > 0
    &&& forall|i: int| 0 <= i < hunks.len() ==> (#[trigger] hunks[i]).new_count == 0
    &&& exists|i: int| 0 <= i < hunks.len() && (#[trigger] hunks[i]).old_count > 0
}

/// A file is refused: its name has a NUL; it is a link though the patch is not
/// about one and links are not followed; it cannot be written and that is not
/// allowed; links lead around or out; or the patch deletes it and it is not
/// there, unless that is forced, nothing is to be said, or it is a link.
pub open spec fn is_refused(p: PatchModel, o: OptionsModel, target: Seq<char>, f: TargetFacts) -> bool {
    ||| target.contains('\0')
    ||| f.is_link && !o.on.follow_symlinks && !describes_link(p.git)
    ||| f.readonly && o.read_only == ReadOnlyMode::Fail
    ||| f.loops || f.escapes
    ||| drops_file(p, o) && !f.present && !o.on.silent && !o.on.force && !describes_link(p.git)
}

/// Files are refused for these reasons and no others. Hunks are saved as rejects
/// only when the file is the wrong kind of file or cannot be written, and not in
/// a dry run.
pub proof fn law_files_that_are_refused(
    p: PatchModel,
    o: OptionsModel,
    target: Seq<char>,
    f: TargetFacts,
    already_renamed: bool,
    cr_told: bool,
)
    ensures
        ({
            let verdict = preflight_check(p, o, target, f, already_renamed, cr_told).1;
            let wrong = f.is_link && !o.on.follow_symlinks && !describes_link(p.git);
            let readonly = f.readonly && o.read_only == ReadOnlyMode::Fail;
            let named = !target.contains('\0');
            &&& (verdict is Refuse) == is_refused(p, o, target, f)
            &&& named && wrong ==> verdict == (VerdictModel::Refuse {
                save: !o.on.dry_run && p.hunks.len() > 0,
            })
            &&& named && !wrong && readonly ==> verdict == (VerdictModel::Refuse {
                save: !o.on.dry_run,
            })
            &&& is_refused(p, o, target, f) && !(named && (wrong || readonly)) ==> verdict == (
            VerdictModel::Refuse { save: false })
        }),
{
}

/// A name with a newline stops the run: that of the output first, then that of
/// the file.
pub proof fn law_names_that_stop_the_run(
    p: PatchModel,
    o: OptionsModel,
    target: Seq<char>,
    f: TargetFacts,
    already_renamed: bool,
    cr_told: bool,
)
    requires
        !is_refused(p, o, target, f),
    ensures
        ({
            let verdict = preflight_check(p, o, target, f, already_renamed, cr_told).1;
            let bad_output = o.output matches Some(out) && out.contains('\n');
            &&& (verdict is Abort) == (bad_output || target.contains('\n'))
            &&& o.output matches Some(out) ==> (out.contains('\n') ==> verdict == (
            VerdictModel::Abort {
                message: "Can't create file "@ + quoted(out) + " : Invalid byte sequence"@,
            }))
            &&& !bad_output && target.contains('\n') && o.output is Some ==> verdict == (
            VerdictModel::Abort {
                message: "Can't create file "@ + quoted(target) + " : Invalid byte sequence"@,
            })
            &&& !bad_output && target.contains('\n') && o.output is None ==> verdict == (
            VerdictModel::Abort {
                message: "Can't rename file ab.XXXXXX to "@ + quoted(target)
                    + " : Invalid byte sequence"@,
            })
        }),
{
}

/// How a patch is carried out that is neither refused nor stopped: in the
/// direction that is asked for, but in reverse when it would empty an empty file
/// and nobody is there to ask; without the carriage returns of its lines,
/// outside of binary mode; and with all its hunks refused when it makes a file
/// that is there.
pub proof fn law_how_a_patch_goes_on(
    p: PatchModel,
    o: OptionsModel,
    target: Seq<char>,
    f: TargetFacts,
    already_renamed: bool,
    cr_told: bool,
)
    requires
        !is_refused(p, o, target, f),
        !target.contains('\n'),
        o.output matches Some(out) ==> !out.contains('\n'),
    ensures
        preflight_check(p, o, target, f, already_renamed, cr_told).1 == (VerdictModel::Go {
            reverse: o.on.reverse || (empties_file(p.hunks) && f.exists && f.empty && o.on.batch
                && !o.on.silent),
            strip_cr: !o.on.binary && hunks_have_cr(p.hunks),
            refuse_hunks: makes_file(p, o) && f.exists && !o.on.reverse,
        }),
{
}

/// Hunks have carriage returns if one of their lines ends with one.
pub proof fn law_hunks_with_carriage_returns(hunks: Seq<HunkModel>, i: int, j: int)
    ensures
        0 <= i < hunks.len() && 0 <= j < hunks[i].lines.len() && has_cr(hunks[i].lines[j])
            ==> hunks_have_cr(hunks),
        (forall|i: int, j: int|
            0 <= i < hunks.len() && 0 <= j < hunks[i].lines.len() ==> !has_cr(
                #[trigger] hunks[i].lines[j],
            )) ==> !hunks_have_cr(hunks),
{
    reveal_strlit("\r");
    assert("\r"@ =~= seq!['\r']);
    if 0 <= i < hunks.len() && 0 <= j < hunks[i].lines.len() && has_cr(hunks[i].lines[j]) {
        let t = line_text(hunks[i].lines[j]);
        assert(t.skip(t.len() - 1) =~= "\r"@);
        assert(hunk_has_cr(hunks[i]));
    }
    if forall|i: int, j: int|
        0 <= i < hunks.len() && 0 <= j < hunks[i].lines.len() ==> !has_cr(
            #[trigger] hunks[i].lines[j],
        ) {
        assert forall|a: int| 0 <= a < hunks.len() implies !hunk_has_cr(#[trigger] hunks[a]) by {
            if hunk_has_cr(hunks[a]) {
                let b = choose|b: int|
                    0 <= b < hunks[a].lines.len() && has_suffix(
                        line_text(#[trigger] hunks[a].lines[b]),
                        "\r"@,
                    );
                let t = line_text(hunks[a].lines[b]);
                assert(t.skip(t.len() - 1)[0] == '\r');
                assert(has_cr(hunks[a].lines[b]));
            }
        }
    }
}

/// What is said, and then the line if it is to be said too.
pub open spec fn and_if(said: Seq<Seq<char>>, say: bool, line: Seq<char>) -> Seq<Seq<char>> {
    if say {
        said.push(line)
    } else {
        said
    }
}

/// What is said of a patch that goes on: that its file is not writable, that a
/// file that it makes is there, that one that it deletes is not, that one that
/// it empties is empty, once that carriage returns are left out, and what is
/// done.
pub proof fn law_what_is_said_of_a_patch(
    p: PatchModel,
    o: OptionsModel,
    target: Seq<char>,
    f: TargetFacts,
    already_renamed: bool,
    cr_told: bool,
)
    requires
        !is_refused(p, o, target, f),
        !target.contains('\n'),
        o.output matches Some(out) ==> !out.contains('\n'),
    ensures
        ({
            let (said, verdict, told) = preflight_check(p, o, target, f, already_renamed, cr_told);
            let aloud = !o.on.silent;
            let there = aloud && makes_file(p, o) && f.exists && !o.on.reverse;
            let gone = aloud && drops_file(p, o) && !f.present && !describes_link(p.git);
            let empty = aloud && empties_file(p.hunks) && f.exists && f.empty && !o.on.reverse;
            let bare = !o.on.binary && hunks_have_cr(p.hunks) && !f.has_crlf;
            let said1 = and_if(
                Seq::empty(),
                aloud && f.readonly && o.read_only == ReadOnlyMode::Warn,
                "File "@ + quoted(target) + " is read-only; trying to patch anyway"@,
            );
            let said2 = and_if(
                and_if(
                    said1,
                    there,
                    "The next patch would create the file "@ + quoted(target) + ","@,
                ),
                there,
                "which already exists!  Applying it anyway."@,
            );
            let said3 = and_if(
                and_if(
                    said2,
                    gone,
                    "The next patch would delete the file "@ + quoted(target) + ","@,
                ),
                gone,
                "which does not exist!  Applying it anyway."@,
            );
            let said4 = and_if(
                said3,
                empty && (o.on.batch || o.on.force),
                "The next patch would empty out the file "@ + quoted(target) + ","@,
            );
            let said5 = and_if(said4, empty && o.on.batch, "which is already empty!  Assuming -R."@);
            let said6 = and_if(
                said5,
                empty && !o.on.batch && o.on.force,
                "which is already empty!  Applying it anyway."@,
            );
            let said7 = and_if(
                said6,
                bare && !cr_told,
                "(Stripping trailing CRs from patch; use --binary to disable.)"@,
            );
            &&& told == (cr_told || bare)
            &&& said == and_if(said7, aloud, announcement(p, o, target, already_renamed))
        }),
{
}

/// What is said of a file that is refused: what is wrong with it, and where its
/// hunks go; nothing when nothing is to be said.
pub proof fn law_what_is_said_of_refused_files(
    p: PatchModel,
    o: OptionsModel,
    target: Seq<char>,
    f: TargetFacts,
    already_renamed: bool,
    cr_told: bool,
)
    requires
        is_refused(p, o, target, f),
    ensures
        ({
            let (said, verdict, told) = preflight_check(p, o, target, f, already_renamed, cr_told);
            let n = decimal(p.hunks.len());
            let wrong = f.is_link && !o.on.follow_symlinks && !describes_link(p.git);
            let readonly = f.readonly && o.read_only == ReadOnlyMode::Fail;
            let named = !target.contains('\0');
            let saved = n + " out of "@ + n + if p.hunks.len() == 1 {
                " hunk ignored -- saving rejects to file "@
            } else {
                " hunks ignored -- saving rejects to file "@
            } + quoted(reject_name(o, target));
            &&& told == cr_told
            &&& o.on.silent ==> said == Seq::<Seq<char>>::empty()
            &&& !o.on.silent && !named ==> said == not_found_lines(
                p,
                "Perhaps you should have used the -p or --strip option?"@,
            )
            &&& !o.on.silent && named && wrong ==> said == seq![
                "File "@ + quoted(target) + " is not a regular file -- refusing to patch"@,
                saved,
            ]
            &&& !o.on.silent && named && !wrong && readonly ==> said == seq![
                "File "@ + quoted(target) + " is read-only; refusing to patch"@,
                saved,
            ]
            &&& !o.on.silent && named && !wrong && !readonly && (f.loops || f.escapes)
                ==> said.len() > 0 && said.last() == "Invalid file name "@ + quoted(target)
                + " -- skipping patch"@
        }),
{
    reveal_strlit(" ");
    reveal_strlit("hunk");
    reveal_strlit("hunks");
    reveal_strlit(" ignored -- saving rejects to file ");
    reveal_strlit(" hunk ignored -- saving rejects to file ");
    reveal_strlit(" hunks ignored -- saving rejects to file ");
    assert(" "@ + "hunk"@ + " ignored -- saving rejects to file "@
        =~= " hunk ignored -- saving rejects to file "@);
    assert(" "@ + "hunks"@ + " ignored -- saving rejects to file "@
        =~= " hunks ignored -- saving rejects to file "@);
    let (said, verdict, told) = preflight_check(p, o, target, f, already_renamed, cr_told);
    let n = decimal(p.hunks.len());
    let words = if p.hunks.len() == 1 {
        " hunk ignored -- saving rejects to file "@
    } else {
        " hunks ignored -- saving rejects to file "@
    };
    let saved = n + " out of "@ + n + words + quoted(reject_name(o, target));
    assert(crate::report::saved_text(p.hunks.len(), reject_name(o, target)) =~= saved);
    let wrong = f.is_link && !o.on.follow_symlinks && !describes_link(p.git);
    let readonly = f.readonly && o.read_only == ReadOnlyMode::Fail;
    if !o.on.silent && !target.contains('\0') && wrong {
        assert(said =~= seq![
            "File "@ + quoted(target) + " is not a regular file -- refusing to patch"@,
            saved,
        ]);
    } else if !o.on.silent && !target.contains('\0') && readonly {
        assert(said =~= seq![
            "File "@ + quoted(target) + " is read-only; refusing to patch"@,
            saved,
        ]);
    }
}

/// What is done is told with the word for a dry run or for a run, the kind of
/// file, its name or that of the output, and where it comes from: what it was
/// renamed or copied from, in the direction of application, or read from.
pub proof fn law_what_is_told_of_a_file(
    p: PatchModel,
    o: OptionsModel,
    target: Seq<char>,
    already_renamed: bool,
)
    ensures
        ({
            let told = announcement(p, o, target, already_renamed);
            let verb = if o.on.dry_run {
                "checking "@
            } else {
                "patching "@
            };
            let kind = if describes_link(p.git) {
                "symbolic link "@
            } else {
                "file "@
            };
            let name = match o.output {
                Some(out) => quoted(out),
                None => quoted(target),
            };
            let renamed = if o.on.reverse && p.git.rename_to is Some && p.git.rename_from is Some {
                p.git.rename_to
            } else {
                p.git.rename_from
            };
            let copied = if o.on.reverse && p.git.copy_to is Some && p.git.copy_from is Some {
                p.git.copy_to
            } else {
                p.git.copy_from
            };
            &&& renamed matches Some(from) ==> (!already_renamed ==> told == verb + kind + name
                + " (renamed from "@ + quoted(from) + ")"@)
            &&& renamed matches Some(from) ==> (already_renamed ==> told == verb + kind + name
                + " (already renamed from "@ + quoted(from) + ")"@)
            &&& renamed is None ==> (copied matches Some(from) ==> told == verb + kind + name
                + " (copied from "@ + quoted(from) + ")"@)
            &&& renamed is None && copied is None && o.output is Some ==> told == verb + kind + name
                + " (read from "@ + quoted(target) + ")"@
            &&& renamed is None && copied is None && o.output is None ==> told == verb + kind + name
        }),
{
    let told = announcement(p, o, target, already_renamed);
    let verb = if o.on.dry_run {
        "checking "@
    } else {
        "patching "@
    };
    let kind = if describes_link(p.git) {
        "symbolic link "@
    } else {
        "file "@
    };
    let name = match o.output {
        Some(out) => quoted(out),
        None => quoted(target),
    };
    let start = verb + kind + name;
    assert(start + Seq::<char>::empty() =~= start);
    let renamed = crate::preflight::origin(p.git.rename_from, p.git.rename_to, o.on.reverse);
    let copied = crate::preflight::origin(p.git.copy_from, p.git.copy_to, o.on.reverse);
    if let Some(from) = renamed {
        assert(start + (" (renamed from "@ + quoted(from) + ")"@) =~= start + " (renamed from "@
            + quoted(from) + ")"@);
        assert(start + (" (already renamed from "@ + quoted(from) + ")"@) =~= start
            + " (already renamed from "@ + quoted(from) + ")"@);
    }
    if let Some(from) = copied {
        assert(start + (" (copied from "@ + quoted(from) + ")"@) =~= start + " (copied from "@
            + quoted(from) + ")"@);
    }
    assert(start + (" (read from "@ + quoted(target) + ")"@) =~= start + " (read from "@ + quoted(
        target,
    ) + ")"@);
}

} // verus!
