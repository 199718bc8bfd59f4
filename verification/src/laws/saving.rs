//! What is saved: rejects and backups.
use vstd::prelude::*;

use crate::backup::{
    backed_up, backup_place, directories_above, has_numbered, number_step, numbered_name,
    parent_of, path_after, BackupEnvModel, BackupPlaceModel, NumberStepModel,
};
use crate::model::{DiffFormat, HunkModel, LineModel, PatchModel};
use crate::number::decimal;
use crate::options::OptionsModel;
use crate::paths::{quoted, seen_from};
use crate::reject::{
    context_hunk_text, context_new_lines, context_old_lines, context_range_text, hunks_at,
    is_change, reject_hunks, rejects, unified_hunk_text, unified_lines,
};
use crate::report::{failure_lines, ignored_text, kept_text, reject_name, saved_text};
use crate::text::{has_prefix, has_suffix};

verus! {

// ---------------------------------------------------------------------------
// Rejects
// ---------------------------------------------------------------------------

/// Each line of a unified hunk is written behind its mark, with a newline.
pub proof fn law_unified_lines_are_marked(lines: Seq<LineModel>, s: Seq<char>)
    ensures
        unified_lines(Seq::empty()) == Seq::<char>::empty(),
        unified_lines(lines.push(LineModel::Context(s))) == unified_lines(lines) + seq![' '] + s
            + seq!['\n'],
        unified_lines(lines.push(LineModel::Remove(s))) == unified_lines(lines) + seq!['-'] + s
            + seq!['\n'],
        unified_lines(lines.push(LineModel::Add(s))) == unified_lines(lines) + seq!['+'] + s
            + seq!['\n'],
{
    reveal_strlit(" ");
    reveal_strlit("-");
    reveal_strlit("+");
    reveal_strlit("\n");
    assert(lines.push(LineModel::Context(s)).drop_last() =~= lines);
    assert(lines.push(LineModel::Remove(s)).drop_last() =~= lines);
    assert(lines.push(LineModel::Add(s)).drop_last() =~= lines);
    let before = unified_lines(lines);
    assert(before + (" "@ + s) + "\n"@ =~= before + seq![' '] + s + seq!['\n']);
    assert(before + ("-"@ + s) + "\n"@ =~= before + seq!['-'] + s + seq!['\n']);
    assert(before + ("+"@ + s) + "\n"@ =~= before + seq!['+'] + s + seq!['\n']);
}

/// The count of a range is left out when it is one.
pub open spec fn counted(start: usize, count: usize) -> Seq<char> {
    if count == 1 {
        decimal(start as nat)
    } else {
        decimal(start as nat) + seq![','] + decimal(count as nat)
    }
}

/// A unified hunk is its two ranges between the marks, what follows them, and
/// its lines.
pub proof fn law_unified_hunk_is_its_lines(h: HunkModel)
    ensures
        unified_hunk_text(h) == seq!['@', '@', ' ', '-'] + counted(h.old_start, h.old_count)
            + seq![' ', '+'] + counted(h.new_start, h.new_count) + seq![' ', '@', '@']
            + h.header_suffix + seq!['\n'] + unified_lines(h.lines),
{
    reveal_strlit("@@ -");
    reveal_strlit(" +");
    reveal_strlit(" @@");
    reveal_strlit(",");
    reveal_strlit("\n");
    assert("@@ -"@ =~= seq!['@', '@', ' ', '-']);
    assert(" +"@ =~= seq![' ', '+']);
    assert(" @@"@ =~= seq![' ', '@', '@']);
    assert(","@ =~= seq![',']);
    assert("\n"@ =~= seq!['\n']);
    assert(unified_hunk_text(h) =~= seq!['@', '@', ' ', '-'] + counted(h.old_start, h.old_count)
        + seq![' ', '+'] + counted(h.new_start, h.new_count) + seq![' ', '@', '@']
        + h.header_suffix + seq!['\n'] + unified_lines(h.lines));
}

/// The line of one side of a context hunk: two characters, the text and a
/// newline.
pub open spec fn half_line(mark: char, s: Seq<char>) -> Seq<char> {
    seq![mark, ' '] + s + seq!['\n']
}

/// The old side of a context hunk has its unchanged and its removed lines, and
/// the new side its unchanged and its added ones, each behind its mark. A hunk
/// that both removes and adds has the mark of a change in both sides.
pub proof fn law_halves_are_marked(lines: Seq<LineModel>, change: bool, s: Seq<char>)
    ensures
        context_old_lines(Seq::empty(), change) == Seq::<char>::empty(),
        context_new_lines(Seq::empty(), change) == Seq::<char>::empty(),
        context_old_lines(lines.push(LineModel::Context(s)), change) == context_old_lines(
            lines,
            change,
        ) + half_line(' ', s),
        context_new_lines(lines.push(LineModel::Context(s)), change) == context_new_lines(
            lines,
            change,
        ) + half_line(' ', s),
        context_old_lines(lines.push(LineModel::Remove(s)), false) == context_old_lines(
            lines,
            false,
        ) + half_line('-', s),
        context_old_lines(lines.push(LineModel::Remove(s)), true) == context_old_lines(lines, true)
            + half_line('!', s),
        context_new_lines(lines.push(LineModel::Remove(s)), change) == context_new_lines(
            lines,
            change,
        ),
        context_new_lines(lines.push(LineModel::Add(s)), false) == context_new_lines(lines, false)
            + half_line('+', s),
        context_new_lines(lines.push(LineModel::Add(s)), true) == context_new_lines(lines, true)
            + half_line('!', s),
        context_old_lines(lines.push(LineModel::Add(s)), change) == context_old_lines(lines, change),
{
    reveal_strlit("  ");
    reveal_strlit("- ");
    reveal_strlit("+ ");
    reveal_strlit("! ");
    reveal_strlit("\n");
    assert(lines.push(LineModel::Context(s)).drop_last() =~= lines);
    assert(lines.push(LineModel::Remove(s)).drop_last() =~= lines);
    assert(lines.push(LineModel::Add(s)).drop_last() =~= lines);
    let old = context_old_lines(lines, change);
    let new = context_new_lines(lines, change);
    assert(old + "  "@ + s + "\n"@ =~= old + half_line(' ', s));
    assert(new + "  "@ + s + "\n"@ =~= new + half_line(' ', s));
    assert(context_old_lines(lines, false) + "- "@ + s + "\n"@ =~= context_old_lines(lines, false)
        + half_line('-', s));
    assert(context_old_lines(lines, true) + "! "@ + s + "\n"@ =~= context_old_lines(lines, true)
        + half_line('!', s));
    assert(context_new_lines(lines, false) + "+ "@ + s + "\n"@ =~= context_new_lines(lines, false)
        + half_line('+', s));
    assert(context_new_lines(lines, true) + "! "@ + s + "\n"@ =~= context_new_lines(lines, true)
        + half_line('!', s));
}

/// The range of one side of a context hunk is its first and its last line: one
/// line stands for itself, and of no lines the first is given twice.
pub proof fn law_ranges_of_a_context_hunk(start: usize, count: usize)
    ensures
        count == 1 ==> context_range_text(start, count) == decimal(start as nat),
        count == 0 ==> context_range_text(start, count) == decimal(start as nat) + seq![',']
            + decimal(start as nat),
        count > 1 && start + count - 1 <= usize::MAX ==> context_range_text(start, count)
            == decimal(start as nat) + seq![','] + decimal((start + count - 1) as nat),
{
    reveal_strlit(",");
    assert(","@ =~= seq![',']);
}

/// A context hunk is its old side under its range and its new side under its
/// range. Its lines count as changes if some are removed and some added.
pub proof fn law_context_hunk_is_its_halves(h: HunkModel, change: bool)
    requires
        change == ((exists|i: int| 0 <= i < h.lines.len() && #[trigger] h.lines[i] is Remove) && (
        exists|i: int| 0 <= i < h.lines.len() && #[trigger] h.lines[i] is Add)),
    ensures
        context_hunk_text(h) == "*** "@ + context_range_text(h.old_start, h.old_count)
            + " ****\n"@ + context_old_lines(h.lines, change) + "--- "@ + context_range_text(
            h.new_start,
            h.new_count,
        ) + " ----\n"@ + context_new_lines(h.lines, change),
{
    assert(change == is_change(h.lines));
}

/// The name of a file in a reject file.
pub open spec fn named(header: Seq<char>, name: Seq<char>, other: Seq<char>) -> Seq<char> {
    if header.len() > 0 {
        header
    } else if name.len() > 0 {
        name
    } else {
        other
    }
}

/// The format of a reject file is the one that is asked for, and otherwise that
/// of the patch.
pub open spec fn in_context_form(p: PatchModel, o: OptionsModel) -> bool {
    ||| o.reject_format == Some("context"@)
    ||| o.reject_format != Some("unified"@) && p.format == DiffFormat::Context
}

/// A reject file has the line that names its file, the two headers in its
/// format, and the hunks one after the other, those of a context diff under a
/// line of stars.
pub proof fn law_reject_file(
    p: PatchModel,
    o: OptionsModel,
    hunks: Seq<HunkModel>,
    h: HunkModel,
)
    ensures
        ({
            let index = match p.index_line {
                Some(line) => line + "\n"@,
                None => Seq::empty(),
            };
            let old = named(p.old_header, p.old_file, "a"@);
            let new = named(p.new_header, p.new_file, "b"@);
            &&& in_context_form(p, o) ==> rejects(p, o, Seq::empty()) == index + ("*** "@ + old
                + "\n"@ + "--- "@ + new + "\n"@)
            &&& !in_context_form(p, o) ==> rejects(p, o, Seq::empty()) == index + ("--- "@ + old
                + "\n"@ + "+++ "@ + new + "\n"@)
            &&& in_context_form(p, o) ==> rejects(p, o, hunks.push(h)) == rejects(p, o, hunks)
                + "***************"@ + h.header_suffix + "\n"@ + context_hunk_text(h)
            &&& !in_context_form(p, o) ==> rejects(p, o, hunks.push(h)) == rejects(p, o, hunks)
                + unified_hunk_text(h)
        }),
{
    reveal_strlit("context");
    reveal_strlit("unified");
    assert("context"@[0] == 'c' && "unified"@[0] == 'u');
    assert(hunks.push(h).drop_last() =~= hunks);
    let context = in_context_form(p, o);
    let index = match p.index_line {
        Some(line) => line + "\n"@,
        None => Seq::empty(),
    };
    let heads = index + crate::reject::reject_headers(p, context);
    assert(heads + reject_hunks(Seq::empty(), context) =~= heads);
    let before = reject_hunks(hunks, context);
    if context {
        assert(heads + (before + "***************"@ + h.header_suffix + "\n"@ + context_hunk_text(
            h,
        )) =~= heads + before + "***************"@ + h.header_suffix + "\n"@ + context_hunk_text(
            h,
        ));
    } else {
        assert(heads + (before + unified_hunk_text(h)) =~= heads + before + unified_hunk_text(h));
    }
}

/// The hunks at some places are those of the patch, in the order of the places.
pub proof fn law_rejected_hunks_are_those_of_the_patch(
    hunks: Seq<HunkModel>,
    places: Seq<usize>,
    i: int,
)
    requires
        0 <= i < places.len(),
        places[i] < hunks.len(),
    ensures
        hunks_at(hunks, places).len() == places.len(),
        hunks_at(hunks, places)[i] == hunks[places[i] as int],
{
}

/// Rejects go to the file that is named, or else to one beside the target.
pub proof fn law_name_of_a_reject_file(o: OptionsModel, target: Seq<char>)
    ensures
        o.reject_file matches Some(name) ==> reject_name(o, target) == name,
        o.reject_file is None ==> reject_name(o, target) == target + seq!['.', 'r', 'e', 'j'],
{
    reveal_strlit(".rej");
    assert(".rej"@ =~= seq!['.', 'r', 'e', 'j']);
}

/// What is said of hunks that failed: how many of how many, and where they are
/// saved, but not in a dry run; before it, that the file's time is not set if
/// that was asked for. Nothing is said when none failed or nothing is to be
/// said.
pub proof fn law_what_is_said_of_failed_hunks(
    o: OptionsModel,
    target: Seq<char>,
    failed: nat,
    total: nat,
)
    ensures
        ({
            let said = failure_lines(o, target, failed, total);
            let hunks = if total == 1 {
                " hunk FAILED"@
            } else {
                " hunks FAILED"@
            };
            let count = decimal(failed) + " out of "@ + decimal(total) + hunks;
            let line = if o.on.dry_run {
                count
            } else {
                count + " -- saving rejects to file "@ + quoted(reject_name(o, target))
            };
            &&& failed == 0 || o.on.silent ==> said == Seq::<Seq<char>>::empty()
            &&& failed > 0 && !o.on.silent && !(o.on.set_utc || o.on.set_time) ==> said == seq![line]
            &&& failed > 0 && !o.on.silent && (o.on.set_utc || o.on.set_time) ==> said == seq![
                "Not setting time of file "@ + quoted(target) + " (time mismatch)"@,
                line,
            ]
        }),
{
    reveal_strlit(" ");
    reveal_strlit("hunk");
    reveal_strlit("hunks");
    reveal_strlit(" FAILED");
    reveal_strlit(" hunk FAILED");
    reveal_strlit(" hunks FAILED");
    assert(" "@ + "hunk"@ + " FAILED"@ =~= " hunk FAILED"@);
    assert(" "@ + "hunks"@ + " FAILED"@ =~= " hunks FAILED"@);
    let said = failure_lines(o, target, failed, total);
    let hunks = if total == 1 {
        " hunk FAILED"@
    } else {
        " hunks FAILED"@
    };
    let count = decimal(failed) + " out of "@ + decimal(total) + hunks;
    let line = if o.on.dry_run {
        count
    } else {
        count + " -- saving rejects to file "@ + quoted(reject_name(o, target))
    };
    if failed > 0 && !o.on.silent {
        assert(said.last() =~= line);
        if o.on.set_utc || o.on.set_time {
            assert(said =~= seq![
                "Not setting time of file "@ + quoted(target) + " (time mismatch)"@,
                line,
            ]);
        } else {
            assert(said =~= seq![line]);
        }
    }
}

/// That hunks are passed over is said with their number; that they are saved,
/// with the file; and that a file stays, with its name.
pub proof fn law_what_is_said_of_hunks_and_files(n: nat, name: Seq<char>)
    ensures
        ignored_text(n) == decimal(n) + " out of "@ + decimal(n) + " hunk ignored"@,
        n == 1 ==> saved_text(n, name) == decimal(n) + " out of "@ + decimal(n)
            + " hunk ignored -- saving rejects to file "@ + quoted(name),
        n != 1 ==> saved_text(n, name) == decimal(n) + " out of "@ + decimal(n)
            + " hunks ignored -- saving rejects to file "@ + quoted(name),
        kept_text(name) == "Not deleting file "@ + quoted(name) + " as content differs from patch"@,
{
    reveal_strlit(" ");
    reveal_strlit("hunk");
    reveal_strlit("hunks");
    reveal_strlit(" ignored -- saving rejects to file ");
    reveal_strlit(" hunk ignored -- saving rejects to file ");
    reveal_strlit(" hunks ignored -- saving rejects to file ");
    assert(" "@ + "hunk"@ + " ignored -- saving rejects to file "@
        =~= " hunk ignored -- saving rejects to file "@);
    assert(" "@ + "hunks"@ + " ignored -- saving rejects to file "@
        =~= " hunks ignored -- saving rejects to file "@);
    let words = if n == 1 {
        " hunk ignored -- saving rejects to file "@
    } else {
        " hunks ignored -- saving rejects to file "@
    };
    assert(saved_text(n, name) =~= decimal(n) + " out of "@ + decimal(n) + words + quoted(name));
}

// ---------------------------------------------------------------------------
// Backups
// ---------------------------------------------------------------------------

/// An option that says how a backup is named.
pub open spec fn asks_for_a_name(o: OptionsModel) -> bool {
    o.backup_prefix is Some || o.basename_prefix is Some || o.backup_suffix is Some
}

/// The text that says what backups are like: the option's, or that of the first
/// variable that is set; none leaves it to the backups that are there.
pub open spec fn manner_of_backups(o: OptionsModel, env: BackupEnvModel) -> Seq<char> {
    if let Some(s) = o.version_control {
        s
    } else if let Some(s) = env.patch_version_control {
        s
    } else if let Some(s) = env.version_control {
        s
    } else {
        "existing"@
    }
}

/// Backups are numbered when that is asked for and no option says how they are
/// named; when it is left to the backups that are there, if some are numbered;
/// and otherwise never.
pub proof fn law_backups_that_are_numbered(
    o: OptionsModel,
    env: BackupEnvModel,
    target: Seq<char>,
    dir: Option<Seq<char>>,
    name: Seq<char>,
    siblings: Seq<Seq<char>>,
)
    ensures
        ({
            let place = backup_place(o, env, target, dir, Some(name), siblings);
            let manner = manner_of_backups(o, env);
            let always = manner == "numbered"@ || manner == "t"@;
            let sometimes = manner == "existing"@ || manner == "nil"@;
            let there = exists|i: int|
                0 <= i < siblings.len() && has_prefix(#[trigger] siblings[i], name + ".~"@)
                    && has_suffix(siblings[i], "~"@);
            &&& !asks_for_a_name(o) && (always || (sometimes && there)) ==> place == (
            BackupPlaceModel::Numbered(target))
            &&& asks_for_a_name(o) || !(always || (sometimes && there)) ==> place is At
        }),
{
    assert(has_numbered(Some(name), siblings) == exists|i: int|
        0 <= i < siblings.len() && has_prefix(#[trigger] siblings[i], name + ".~"@) && has_suffix(
            siblings[i],
            "~"@,
        ));
}

/// A backup that is not numbered has the name of its file with the suffix of
/// the option, of the environment, or `.orig`. With a prefix it has only the
/// suffix of the option: a prefix comes before the whole path, and otherwise
/// before its last component.
pub proof fn law_names_of_backups(
    o: OptionsModel,
    env: BackupEnvModel,
    target: Seq<char>,
    dir: Seq<char>,
    name: Seq<char>,
    siblings: Seq<Seq<char>>,
)
    requires
        backup_place(o, env, target, Some(dir), Some(name), siblings) is At,
    ensures
        ({
            let place = backup_place(o, env, target, Some(dir), Some(name), siblings);
            let tail = match o.backup_suffix {
                Some(s) => s,
                None => Seq::empty(),
            };
            &&& o.backup_prefix matches Some(prefix) ==> place == BackupPlaceModel::At(
                prefix + target + tail,
            )
            &&& o.backup_prefix is None ==> (o.basename_prefix matches Some(prefix) ==> place
                == BackupPlaceModel::At(seen_from(dir, prefix + name + tail)))
            &&& o.backup_prefix is None && o.basename_prefix is None && o.backup_suffix is Some
                ==> place == BackupPlaceModel::At(target + tail)
            &&& o.backup_prefix is None && o.basename_prefix is None && o.backup_suffix is None ==> (
            env.suffix matches Some(s) ==> place == BackupPlaceModel::At(target + s))
            &&& o.backup_prefix is None && o.basename_prefix is None && o.backup_suffix is None
                && env.suffix is None ==> place == BackupPlaceModel::At(target + ".orig"@)
        }),
{
}

/// Numbered backups are named by their number between tildes, and one is looked
/// for after the other.
pub proof fn law_numbers_of_backups(target: Seq<char>, n: u32)
    ensures
        numbered_name(target, n as nat) == target + seq!['.', '~'] + decimal(n as nat) + seq!['~'],
        number_step(target, n, false) == NumberStepModel::Use(numbered_name(target, n as nat)),
        n < u32::MAX ==> number_step(target, n, true) == NumberStepModel::Next((n + 1) as u32),
        number_step(target, u32::MAX, true) == NumberStepModel::Exhausted,
{
    reveal_strlit(".~");
    reveal_strlit("~");
    assert(".~"@ =~= seq!['.', '~']);
    assert("~"@ =~= seq!['~']);
}

/// The file that is backed up is the one that follows a leading `./`.
pub proof fn law_file_that_is_backed_up(target: Seq<char>)
    ensures
        path_after(target, "./"@) matches Some(rest) ==> backed_up(target) == rest,
        path_after(target, "./"@) is None ==> backed_up(target) == target,
{
}

/// The directories that may have become empty are the one that a path lies in
/// and those above it; the working directory is none of them.
pub proof fn law_directories_that_may_be_removed(path: Seq<char>, dir: Seq<char>)
    ensures
        parent_of(path) is None ==> directories_above(path) == Seq::<Seq<char>>::empty(),
        parent_of(path) == Some(dir) && (dir.len() == 0 || dir == "."@) ==> directories_above(path)
            == Seq::<Seq<char>>::empty(),
        parent_of(path) == Some(dir) && 0 < dir.len() < path.len() && dir != "."@
            ==> directories_above(path) == seq![dir] + directories_above(dir),
{
}

} // verus!
