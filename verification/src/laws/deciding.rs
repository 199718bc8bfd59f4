//! What is decided about an input, a patch and its file.
use vstd::prelude::*;

use crate::apply::ApplyError;
use crate::ed::is_script;
use crate::header::{timestamp_field, timestamp_seconds};
use crate::laws::looking_first::and_if;
use crate::model::{GitModel, HunkModel, LineModel, PatchModel};
use crate::options::OptionsModel;
use crate::paths::{is_dangerous, quoted, seen_from, stripped_opt};
use crate::preflight::{describes_link, destination, origin};
use crate::report::not_found_lines;
use crate::run::{after_hunks, after_refusal, file_lines, Manner, RunModel};
use crate::session::{
    added_text, added_texts, asks_for_backup, changes_link, content_from, header_action,
    hunks_done, is_backed_up, is_touched, keeps_crlf, keeps_rejects, manner_of, mode_given,
    moved_paths, newlines, planned_move, refusal_lines, renamed_paths, run_plan, time_of,
    written_move, HeaderStep, MoveFacts, MoveModel, NamePlace, RunPlan, Source,
};
use crate::text::{has_suffix, has_text, std_lines, trimmed};

verus! {

// ---------------------------------------------------------------------------
// The input
// ---------------------------------------------------------------------------

/// An input with nothing but binary content is told as such. One with patches
/// has them carried out. One that is white space does nothing, or copies the
/// file to the output that is asked for. A script is run if a file is given on
/// the command line. All else is garbage.
pub proof fn law_what_is_done_with_an_input(
    input: Seq<char>,
    o: OptionsModel,
    patches: Seq<PatchModel>,
    binary_seen: bool,
    k: int,
)
    ensures
        ({
            let plan = run_plan(input, o, patches, binary_seen);
            let blank = trimmed(input).len() == 0;
            &&& !binary_seen && patches.len() > 0 ==> plan == RunPlan::Patches
            &&& 0 <= k < patches.len() && patches[k].hunks.len() > 0 ==> plan == RunPlan::Patches
            &&& binary_seen && (forall|i: int|
                0 <= i < patches.len() ==> (#[trigger] patches[i]).hunks.len() == 0) ==> plan
                == RunPlan::BinaryOnly
            &&& !binary_seen && patches.len() == 0 && blank && (o.output is None || o.on.dry_run)
                ==> plan == RunPlan::Nothing
            &&& !binary_seen && patches.len() == 0 && blank && o.output is Some && !o.on.dry_run
                ==> plan == RunPlan::CopyInput
            &&& !binary_seen && patches.len() == 0 && !blank && o.positional_file is Some
                && is_script(std_lines(input)) ==> plan == RunPlan::EdScript
            &&& !binary_seen && patches.len() == 0 && !blank && !(o.positional_file is Some
                && is_script(std_lines(input))) ==> plan == RunPlan::Garbage
        }),
{
}

/// Newlines are counted one by one.
pub proof fn law_newlines_are_counted(s: Seq<char>, c: char)
    ensures
        newlines(Seq::empty()) == 0,
        newlines(s.push('\n')) == newlines(s) + 1,
        c != '\n' ==> newlines(s.push(c)) == newlines(s),
{
    assert(s.push('\n').drop_last() =~= s);
    assert(s.push(c).drop_last() =~= s);
}

// ---------------------------------------------------------------------------
// Moves
// ---------------------------------------------------------------------------

/// A rename with both its names moves the file of the first to the second, or
/// back in reverse; without one, a copy with both its names copies it. Any other
/// header moves nothing.
pub proof fn law_moves_that_are_written(git: GitModel, base: Seq<char>)
    ensures
        git.rename_from matches Some(from) ==> (git.rename_to matches Some(to) ==> {
            &&& written_move(git, base, false) == (MoveModel::Rename {
                source: seen_from(base, from),
                target: seen_from(base, to),
            })
            &&& written_move(git, base, true) == (MoveModel::Rename {
                source: seen_from(base, to),
                target: seen_from(base, from),
            })
        }),
        git.rename_from is None || git.rename_to is None ==> (git.copy_from matches Some(from)
            ==> (git.copy_to matches Some(to) ==> {
            &&& written_move(git, base, false) == (MoveModel::Copy {
                source: seen_from(base, from),
                target: seen_from(base, to),
            })
            &&& written_move(git, base, true) == (MoveModel::Copy {
                source: seen_from(base, to),
                target: seen_from(base, from),
            })
        })),
        (git.rename_from is None || git.rename_to is None) && (git.copy_from is None || git.copy_to
            is None) ==> written_move(git, base, false) == MoveModel::Stay && written_move(
            git,
            base,
            true,
        ) == MoveModel::Stay,
{
}

/// A move is made as it is written, unless this is a dry run or the content is
/// binary. It is refused if one of the names in the header leads out of the
/// working directory, and only then.
pub proof fn law_moves_that_are_made(git: GitModel, o: OptionsModel, f: MoveFacts)
    ensures
        ({
            let cwd = match f.cwd {
                Some(dir) => Some(dir@),
                None => None,
            };
            let out = (git.rename_from matches Some(s) && (is_dangerous(
                s,
                f.rename_from.place,
                cwd,
            ) || f.rename_from.escapes)) || (git.rename_to matches Some(s) && (is_dangerous(
                s,
                f.rename_to.place,
                cwd,
            ) || f.rename_to.escapes)) || (git.copy_from matches Some(s) && (is_dangerous(
                s,
                f.copy_from.place,
                cwd,
            ) || f.copy_from.escapes)) || (git.copy_to matches Some(s) && (is_dangerous(
                s,
                f.copy_to.place,
                cwd,
            ) || f.copy_to.escapes));
            let base = match o.directory {
                Some(dir) => dir,
                None => "."@,
            };
            &&& out ==> planned_move(git, o, f) == MoveModel::Refuse
            &&& !out && (o.on.dry_run || git.binary_payload) ==> planned_move(git, o, f)
                == MoveModel::Stay
            &&& !out && !o.on.dry_run && !git.binary_payload ==> planned_move(git, o, f)
                == written_move(git, base, o.on.reverse)
        }),
{
}

/// The name leads out of the working directory, by itself or through links.
pub open spec fn is_outside(name: Option<Seq<char>>, at: NamePlace, cwd: Option<Seq<char>>) -> bool {
    name matches Some(s) && (is_dangerous(s, at.place, cwd) || at.escapes)
}

/// Of a move that is refused, each name that leads out is told, in the order of
/// rename and copy and of source and target, and then that no file was found.
pub proof fn law_what_is_said_of_refused_moves(p: PatchModel, o: OptionsModel, f: MoveFacts)
    ensures
        ({
            let cwd = match f.cwd {
                Some(dir) => Some(dir@),
                None => None,
            };
            let ignored = "Ignoring potentially dangerous file name "@;
            let said1 = and_if(
                Seq::empty(),
                is_outside(p.git.rename_from, f.rename_from, cwd),
                ignored + quoted(p.git.rename_from->0),
            );
            let said2 = and_if(
                said1,
                is_outside(p.git.rename_to, f.rename_to, cwd),
                ignored + quoted(p.git.rename_to->0),
            );
            let said3 = and_if(
                said2,
                is_outside(p.git.copy_from, f.copy_from, cwd),
                ignored + quoted(p.git.copy_from->0),
            );
            let said4 = and_if(
                said3,
                is_outside(p.git.copy_to, f.copy_to, cwd),
                ignored + quoted(p.git.copy_to->0),
            );
            &&& o.on.silent ==> refusal_lines(p, o, f) == Seq::<Seq<char>>::empty()
            &&& !o.on.silent ==> refusal_lines(p, o, f) == said4 + not_found_lines(
                p,
                "Perhaps you used the wrong -p or --strip option?"@,
            )
        }),
{
}

/// In reverse a move starts from where it leads, if both ends are named.
pub proof fn law_ends_of_a_move(from: Option<Seq<char>>, to: Option<Seq<char>>)
    ensures
        origin(from, to, false) == from,
        destination(from, to, false) == to,
        from is Some && to is Some ==> origin(from, to, true) == to && destination(from, to, true)
            == from,
        from is None || to is None ==> origin(from, to, true) == from && destination(from, to, true)
            == to,
{
}

/// The files that a patch more moves are remembered behind those of the patches
/// before it: what it renames, to what, what it copies, to what.
pub proof fn law_moved_files_are_remembered_in_order(
    patches: Seq<PatchModel>,
    p: PatchModel,
    base: Seq<char>,
)
    ensures
        moved_paths(Seq::empty(), base) == Seq::<Seq<char>>::empty(),
        moved_paths(patches.push(p), base) == moved_paths(patches, base) + seen(
            base,
            p.git.rename_from,
        ) + seen(base, p.git.rename_to) + seen(base, p.git.copy_from) + seen(base, p.git.copy_to),
{
    assert(patches.push(p).drop_last() =~= patches);
    assert(moved_paths(patches.push(p), base) =~= moved_paths(patches, base) + seen(
        base,
        p.git.rename_from,
    ) + seen(base, p.git.rename_to) + seen(base, p.git.copy_from) + seen(base, p.git.copy_to));
}

/// A name seen from the directory, if there is one.
pub open spec fn seen(base: Seq<char>, name: Option<Seq<char>>) -> Seq<Seq<char>> {
    match name {
        Some(s) => seq![seen_from(base, s)],
        None => Seq::empty(),
    }
}

/// The files that renames lead to are those that the headers name, the other end
/// in reverse if both are named. A header without a rename names none.
pub proof fn law_files_that_renames_lead_to(
    patches: Seq<PatchModel>,
    p: PatchModel,
    base: Seq<char>,
)
    ensures
        renamed_paths(Seq::empty(), base, false) == Set::<Seq<char>>::empty(),
        renamed_paths(Seq::empty(), base, true) == Set::<Seq<char>>::empty(),
        p.git.rename_to matches Some(to) ==> renamed_paths(patches.push(p), base, false)
            == renamed_paths(patches, base, false).insert(seen_from(base, to)),
        p.git.rename_to is None ==> renamed_paths(patches.push(p), base, false) == renamed_paths(
            patches,
            base,
            false,
        ),
        p.git.rename_to is Some ==> (p.git.rename_from matches Some(from) ==> renamed_paths(
            patches.push(p),
            base,
            true,
        ) == renamed_paths(patches, base, true).insert(seen_from(base, from))),
        p.git.rename_from is None && p.git.rename_to is None ==> renamed_paths(
            patches.push(p),
            base,
            true,
        ) == renamed_paths(patches, base, true),
{
    assert(patches.push(p).drop_last() =~= patches);
}

// ---------------------------------------------------------------------------
// Headers without hunks, modes, links and times
// ---------------------------------------------------------------------------

/// A header without hunks deletes its file, or makes an empty one with its mode,
/// or sets a mode, in this order. Binary content leaves the file alone; a file
/// whose binary content is to be deleted stays, and may be backed up. A dry run
/// does nothing.
pub proof fn law_headers_without_hunks(git: GitModel, o: OptionsModel)
    ensures
        git.binary_payload ==> header_action(git, o) == HeaderStep::Nothing,
        !git.binary_payload && git.deleted_file_mode is Some && git.binary_summary ==> header_action(
            git,
            o,
        ) == (HeaderStep::Keep { backup: o.on.backup && !o.on.dry_run }),
        !git.binary_payload && !(git.deleted_file_mode is Some && git.binary_summary)
            && o.on.dry_run ==> header_action(git, o) == HeaderStep::Nothing,
        !git.binary_payload && !git.binary_summary && !o.on.dry_run && git.deleted_file_mode is Some
            ==> header_action(git, o) == HeaderStep::Delete,
        !git.binary_payload && !o.on.dry_run && git.deleted_file_mode is None
            ==> (git.new_file_mode matches Some(mode) ==> header_action(git, o) == (
        HeaderStep::Create { mode })),
        !git.binary_payload && !o.on.dry_run && git.deleted_file_mode is None && git.new_file_mode
            is None ==> (git.new_mode matches Some(mode) ==> header_action(git, o) == (
        HeaderStep::SetMode { mode })),
        !git.binary_payload && !o.on.dry_run && git.deleted_file_mode is None && git.new_file_mode
            is None && git.new_mode is None ==> header_action(git, o) == HeaderStep::Nothing,
{
}

/// A patch with hunks gives its file the new mode, or the old one in reverse, or
/// else the mode of a new file. A dry run gives none.
pub proof fn law_modes_of_patched_files(git: GitModel, o: OptionsModel)
    ensures
        o.on.dry_run ==> mode_given(git, o) is None,
        !o.on.dry_run && !o.on.reverse && git.new_mode is Some ==> mode_given(git, o)
            == git.new_mode,
        !o.on.dry_run && o.on.reverse && git.old_mode is Some ==> mode_given(git, o)
            == git.old_mode,
        !o.on.dry_run && !o.on.reverse && git.new_mode is None ==> mode_given(git, o)
            == git.new_file_mode,
        !o.on.dry_run && o.on.reverse && git.old_mode is None ==> mode_given(git, o)
            == git.new_file_mode,
{
}

/// The type bits of a mode say that it is a symbolic link.
pub open spec fn is_link(mode: Option<u32>) -> bool {
    mode matches Some(m) && m & 0xf000 == 0xa000
}

/// A header is about a symbolic link if one of its modes is that of a link, and
/// then the link is changed, but for dry runs and binary content.
pub proof fn law_headers_about_links(git: GitModel, o: OptionsModel)
    ensures
        describes_link(git) == (is_link(git.new_file_mode) || is_link(git.deleted_file_mode)
            || is_link(git.old_mode) || is_link(git.new_mode) || is_link(git.index_mode)),
        changes_link(git, o) == (describes_link(git) && !o.on.dry_run && !git.binary_payload),
{
}

/// The target of a link is the text of the added lines of the hunks, one behind
/// the other.
pub proof fn law_target_of_a_link(
    lines: Seq<LineModel>,
    l: LineModel,
    hunks: Seq<HunkModel>,
    h: HunkModel,
)
    ensures
        added_text(Seq::empty()) == Seq::<char>::empty(),
        l matches LineModel::Add(s) ==> added_text(lines.push(l)) == added_text(lines) + s,
        !(l is Add) ==> added_text(lines.push(l)) == added_text(lines),
        added_texts(Seq::empty()) == Seq::<char>::empty(),
        added_texts(hunks.push(h)) == added_texts(hunks) + added_text(h.lines),
{
    assert(lines.push(l).drop_last() =~= lines);
    assert(hunks.push(h).drop_last() =~= hunks);
}

/// A file gets the time in the header of the new file, or of the old one in
/// reverse, when one of the two options asks for it, every hunk was carried out
/// and this is no dry run; and else none.
pub proof fn law_times_of_patched_files(p: PatchModel, o: OptionsModel, failures: nat)
    ensures
        !(o.on.set_utc || o.on.set_time) || failures > 0 || o.on.dry_run ==> time_of(p, o, failures)
            is None,
        (o.on.set_utc || o.on.set_time) && failures == 0 && !o.on.dry_run ==> time_of(p, o, failures)
            == match timestamp_field(
            "--- "@ + if o.on.reverse {
                p.old_header
            } else {
                p.new_header
            },
        ) {
            Some(ts) => timestamp_seconds(ts),
            None => None,
        },
{
}

// ---------------------------------------------------------------------------
// Content
// ---------------------------------------------------------------------------

/// A patch is carried out on what an earlier patch made of its file, or on the
/// file. If neither is there, it is carried out on nothing when it makes the
/// file, when it only adds, or when it deletes the file and is forced; else the
/// file is missing. A patch that makes its file never takes what an earlier one
/// made of it.
pub proof fn law_where_content_comes_from(
    p: PatchModel,
    o: OptionsModel,
    cached: bool,
    exists: bool,
)
    ensures
        ({
            let null = "/dev/null"@;
            let old = stripped_opt(p.old_file, o.strip);
            let new = stripped_opt(p.new_file, o.strip);
            let makes = p.old_file == null || p.old_file.len() == 0;
            let adds = forall|i: int| 0 <= i < p.hunks.len() ==> (#[trigger] p.hunks[i]).old_count == 0;
            let deletes = new == null && old.len() > 0 && old != null;
            let nothing = makes || p.git.new_file_mode is Some || adds || (deletes && o.on.force);
            &&& cached && !makes ==> content_from(p, o, cached, exists) == Source::Cached
            &&& !(cached && !makes) && exists ==> content_from(p, o, cached, exists) == Source::Disk
            &&& !(cached && !makes) && !exists && nothing ==> content_from(p, o, cached, exists)
                == Source::Empty
            &&& !(cached && !makes) && !exists && !nothing ==> content_from(p, o, cached, exists)
                == Source::Missing
        }),
{
}

/// The hunks are carried out as the options ask: with their fuzz, silently or
/// telling all, passing over what is there already. Other line endings are told
/// of in binary mode, when the hunks have carriage returns and the file has
/// none.
pub proof fn law_manner_of_a_patch(
    p: PatchModel,
    o: OptionsModel,
    reverse: bool,
    strip_cr: bool,
    target_has_crlf: bool,
    i: int,
    j: int,
)
    ensures
        ({
            let m = manner_of(p, o, reverse, strip_cr, target_has_crlf);
            &&& m.fuzz == o.fuzz
            &&& m.reverse == reverse
            &&& m.strip_cr == strip_cr
            &&& m.silent == o.on.silent
            &&& m.verbose == o.on.verbose
            &&& m.forward == o.on.forward
            &&& m.endings_differ ==> o.on.binary && !target_has_crlf
            &&& o.on.binary && !target_has_crlf && 0 <= i < p.hunks.len() && 0 <= j
                < p.hunks[i].lines.len() && has_cr(p.hunks[i].lines[j]) ==> m.endings_differ
            &&& (forall|i: int, j: int|
                0 <= i < p.hunks.len() && 0 <= j < p.hunks[i].lines.len() ==> !has_cr(
                    #[trigger] p.hunks[i].lines[j],
                )) ==> !m.endings_differ
        }),
{
    reveal_strlit("\r");
    assert("\r"@ =~= seq!['\r']);
    if 0 <= i < p.hunks.len() && 0 <= j < p.hunks[i].lines.len() && has_cr(p.hunks[i].lines[j]) {
        let t = crate::preflight::line_text(p.hunks[i].lines[j]);
        assert(t.skip(t.len() - 1) =~= "\r"@);
        assert(crate::preflight::hunk_has_cr(p.hunks[i]));
    }
    if forall|i: int, j: int|
        0 <= i < p.hunks.len() && 0 <= j < p.hunks[i].lines.len() ==> !has_cr(
            #[trigger] p.hunks[i].lines[j],
        ) {
        assert forall|a: int| 0 <= a < p.hunks.len() implies !crate::preflight::hunk_has_cr(
            #[trigger] p.hunks[a],
        ) by {
            if crate::preflight::hunk_has_cr(p.hunks[a]) {
                let b = choose|b: int|
                    0 <= b < p.hunks[a].lines.len() && has_suffix(
                        crate::preflight::line_text(#[trigger] p.hunks[a].lines[b]),
                        "\r"@,
                    );
                let t = crate::preflight::line_text(p.hunks[a].lines[b]);
                assert(t.skip(t.len() - 1)[0] == '\r');
                assert(has_cr(p.hunks[a].lines[b]));
            }
        }
    }
}

/// The line ends with a carriage return.
pub open spec fn has_cr(line: LineModel) -> bool {
    let text = match line {
        LineModel::Context(s) => s,
        LineModel::Remove(s) => s,
        LineModel::Add(s) => s,
    };
    text.len() > 0 && text[text.len() - 1] == '\r'
}

/// The hunks are carried out from the first on, on the lines of the file, or all
/// fail when they are refused.
pub proof fn law_hunks_of_a_patch(
    p: PatchModel,
    o: OptionsModel,
    content: Seq<char>,
    m: Manner,
)
    ensures
        hunks_done(p, o, content, m, false) == after_hunks(
            (RunModel {
                lines: file_lines(content, o.on.binary),
                delta: 0,
                messages: Seq::empty(),
                failed: Seq::empty(),
            }),
            p.hunks,
            0,
            m,
        ),
        hunks_done(p, o, content, m, true) == Ok::<_, ApplyError>(
            after_refusal(
                file_lines(content, o.on.binary),
                p.hunks,
                p.hunks.len() as int,
                o.on.silent,
            ),
        ),
{
}

/// A file is touched unless this is a dry run or all of one hunk or more failed.
/// Carriage returns before newlines are put back outside of binary mode. Failed
/// hunks are saved unless this is a dry run.
pub proof fn law_what_is_written(
    p: PatchModel,
    o: OptionsModel,
    content: Seq<char>,
    failed: nat,
)
    ensures
        is_touched(p, o, failed) == (!o.on.dry_run && (p.hunks.len() == 0 || failed
            != p.hunks.len())),
        keeps_crlf(content, o) == (!o.on.binary && has_text(content, seq!['\r', '\n'])),
        keeps_rejects(o, failed) == (failed > 0 && !o.on.dry_run),
{
    reveal_strlit("\r\n");
    assert("\r\n"@ =~= seq!['\r', '\n']);
}

/// A file that is there is backed up when that is asked for, but not in a dry
/// run, nor after a failure if that is not wanted. An old name with `.orig`
/// behind the new one asks for a backup under it.
pub proof fn law_when_backups_are_made(
    p: PatchModel,
    o: OptionsModel,
    exists: bool,
    failures: nat,
)
    ensures
        is_backed_up(o, exists, failures) == (o.on.backup && exists && !o.on.dry_run && (failures
            == 0 || !o.on.no_backup_if_mismatch)),
        asks_for_backup(p, o) == ({
            let old = stripped_opt(p.old_file, o.strip);
            let new = stripped_opt(p.new_file, o.strip);
            !o.on.dry_run && old == new + ".orig"@ && old != "/dev/null"@ && new != "/dev/null"@
        }),
{
    reveal_strlit(".orig");
    assert(".orig"@.len() == 5);
    let old = stripped_opt(p.old_file, o.strip);
    let new = stripped_opt(p.new_file, o.strip);
    if old == new + ".orig"@ {
        assert(old.skip(old.len() - 5) =~= ".orig"@);
        assert(old.take(old.len() - 5) =~= new);
    }
    if has_suffix(old, ".orig"@) && old.take(old.len() - 5) == new {
        assert(old =~= new + ".orig"@);
    }
}

} // verus!
