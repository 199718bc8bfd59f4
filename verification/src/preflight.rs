//! What is looked at before a patch is carried out, and what is said about it.
use vstd::prelude::*;

use crate::mode::{is_link_mode, mode_is_link};
use crate::model::{FilePatch, GitMeta, GitModel, Hunk, HunkLine, HunkModel, LineModel, PatchModel};
use crate::number::decimal;
use crate::options::{Options, OptionsModel, ReadOnlyMode};
use crate::paths::{
    base_directory, base_of, filename_is_invalid, is_dangerous, is_dangerous_path, is_null,
    join_path, names_a_file, quote_for_display, quoted, resolve_target_file, seen_from,
    strip_path_opt, stripped_opt, target_of, Whereabouts,
};
use crate::report::{
    ignored_message, ignored_text, no_lines, not_found_lines, not_found_message, reject_name,
    reject_path, saved_message, saved_text, say, text3,
};
use crate::text::{clone_opt, contains_char, ends_with, has_suffix, opt_text, str_eq, texts};

verus! {

// ---------------------------------------------------------------------------
// Which name
// ---------------------------------------------------------------------------

/// What is known of the two names of a patch.
#[derive(Debug)]
pub struct NameFacts {
    /// The working directory, if its name is known.
    pub cwd: Option<String>,
    /// Where the old name, as it stands, leads.
    pub old_place: Whereabouts,
    /// Where the new name, as it stands, leads.
    pub new_place: Whereabouts,
    /// The file of the old name is there.
    pub old_exists: bool,
    /// The file of the new name is there.
    pub new_exists: bool,
}

/// What follows from the names of a patch.
#[derive(Debug, Clone, Copy, PartialEq, Eq, Structural)]
pub enum NameVerdict {
    /// A file can be looked for.
    Go,
    /// The patch is passed over.
    Skip,
    /// The input is no patch.
    Garbage,
}

/// The patch names no file, and neither does the command line.
pub open spec fn is_nameless(p: PatchModel, o: OptionsModel) -> bool {
    o.positional_file is None && p.old_file.len() == 0 && p.new_file.len() == 0 && p.hunks.len() > 0
}

/// Nothing is left of the names after stripping.
pub open spec fn is_stripped_away(p: PatchModel, o: OptionsModel) -> bool {
    &&& o.strip is Some
    &&& o.positional_file is None
    &&& !names_a_file(stripped_opt(p.old_file, o.strip))
    &&& !names_a_file(stripped_opt(p.new_file, o.strip))
    &&& p.old_file.len() > 0 || p.new_file.len() > 0
}

/// The old name leads out of the working directory.
pub open spec fn old_is_dangerous(p: PatchModel, o: OptionsModel, f: NameFacts) -> bool {
    is_dangerous(stripped_opt(p.old_file, o.strip), f.old_place, opt_text(f.cwd))
}

/// The new name leads out of the working directory.
pub open spec fn new_is_dangerous(p: PatchModel, o: OptionsModel, f: NameFacts) -> bool {
    is_dangerous(stripped_opt(p.new_file, o.strip), f.new_place, opt_text(f.cwd))
}

/// One of the names leads out of the working directory, and the other, if it
/// does not, names no file that is there.
pub open spec fn is_unsafe(p: PatchModel, o: OptionsModel, f: NameFacts) -> bool {
    let old_safe = names_a_file(stripped_opt(p.old_file, o.strip)) && !old_is_dangerous(p, o, f);
    let new_safe = names_a_file(stripped_opt(p.new_file, o.strip)) && !new_is_dangerous(p, o, f);
    &&& old_is_dangerous(p, o, f) || new_is_dangerous(p, o, f)
    &&& !(old_safe && f.old_exists)
    &&& !(new_safe && f.new_exists)
}

/// The file to change, if its name does not lead out of the working directory:
/// a name that does counts as one without a file, and is never taken.
pub open spec fn chosen_target(p: PatchModel, o: OptionsModel, f: NameFacts) -> Option<Seq<char>> {
    let base = base_of(o);
    let target = target_of(
        p,
        o,
        f.old_exists && !old_is_dangerous(p, o, f),
        f.new_exists && !new_is_dangerous(p, o, f),
    );
    if o.positional_file is None && ((old_is_dangerous(p, o, f) && target == seen_from(
        base,
        stripped_opt(p.old_file, o.strip),
    )) || (new_is_dangerous(p, o, f) && target == seen_from(
        base,
        stripped_opt(p.new_file, o.strip),
    ))) {
        None
    } else {
        Some(target)
    }
}

/// A name in the git header stands for this file.
pub open spec fn is_moved_file(git: GitModel, base: Seq<char>, target: Seq<char>) -> bool {
    ||| git.rename_from matches Some(name) && target == seen_from(base, name)
    ||| git.rename_to matches Some(name) && target == seen_from(base, name)
    ||| git.copy_from matches Some(name) && target == seen_from(base, name)
    ||| git.copy_to matches Some(name) && target == seen_from(base, name)
}

/// The file that a patch changes is the one on the command line, or it goes by
/// a name of the patch that does not lead out of the working directory, or by
/// one of the git header. Without any name it is the directory.
pub proof fn law_target_stays_inside(p: PatchModel, o: OptionsModel, f: NameFacts)
    ensures
        chosen_target(p, o, f) matches Some(target) ==> {
            let old = stripped_opt(p.old_file, o.strip);
            let new = stripped_opt(p.new_file, o.strip);
            let base = base_of(o);
            ||| o.positional_file == Some(target)
            ||| target == seen_from(base, old) && !old_is_dangerous(p, o, f)
            ||| target == seen_from(base, new) && !new_is_dangerous(p, o, f)
            ||| is_moved_file(p.git, base, target)
            ||| old.len() == 0 && new.len() == 0 && target == base
        },
{
}

/// That a name is passed over.
pub open spec fn dangerous_text(name: Seq<char>) -> Seq<char> {
    "Ignoring potentially dangerous file name "@ + quoted(name)
}

/// The names that are passed over, each once; none when one name is safe.
pub open spec fn dangerous_lines(p: PatchModel, o: OptionsModel, f: NameFacts) -> Seq<Seq<char>> {
    let old = stripped_opt(p.old_file, o.strip);
    let new = stripped_opt(p.new_file, o.strip);
    let old_danger = old_is_dangerous(p, o, f);
    let new_danger = new_is_dangerous(p, o, f);
    let first = if old_danger {
        Seq::empty().push(dangerous_text(old))
    } else {
        Seq::empty()
    };
    if (names_a_file(old) && !old_danger) || (names_a_file(new) && !new_danger) {
        Seq::empty()
    } else if new_danger && !(old_danger && old == new) {
        first.push(dangerous_text(new))
    } else {
        first
    }
}

/// What follows from the names of a patch, and what is said.
pub open spec fn name_check(p: PatchModel, o: OptionsModel, f: NameFacts) -> (
    Seq<Seq<char>>,
    NameVerdict,
) {
    let quiet = o.on.silent;
    let hint = "Perhaps you used the wrong -p or --strip option?"@;
    if is_nameless(p, o) {
        if !o.on.force {
            (Seq::empty(), NameVerdict::Garbage)
        } else if quiet {
            (Seq::empty(), NameVerdict::Skip)
        } else {
            (
                Seq::empty().push("can't find file to patch at input line 1"@).push(
                    "No file to patch.  Skipping patch."@,
                ).push(ignored_text(p.hunks.len())),
                NameVerdict::Skip,
            )
        }
    } else if is_stripped_away(p, o) {
        if quiet {
            (Seq::empty(), NameVerdict::Skip)
        } else {
            (not_found_lines(p, hint), NameVerdict::Skip)
        }
    } else if is_unsafe(p, o, f) || chosen_target(p, o, f) is None {
        if quiet {
            (Seq::empty(), NameVerdict::Skip)
        } else {
            (dangerous_lines(p, o, f) + not_found_lines(p, hint), NameVerdict::Skip)
        }
    } else {
        (Seq::empty(), NameVerdict::Go)
    }
}

/// A patch with a dangerous name and no safe one is passed over, whatever
/// files are there and whatever the command line names.
pub proof fn law_dangerous_names_are_refused(p: PatchModel, o: OptionsModel, f: NameFacts)
    requires
        old_is_dangerous(p, o, f) || new_is_dangerous(p, o, f),
        old_is_dangerous(p, o, f) || !names_a_file(stripped_opt(p.old_file, o.strip)),
        new_is_dangerous(p, o, f) || !names_a_file(stripped_opt(p.new_file, o.strip)),
    ensures
        name_check(p, o, f).1 != NameVerdict::Go,
{
}

/// A patch that is not passed over has a file to change.
pub proof fn law_checked_names_have_a_target(p: PatchModel, o: OptionsModel, f: NameFacts)
    requires
        name_check(p, o, f).1 == NameVerdict::Go,
    ensures
        chosen_target(p, o, f) is Some,
{
}

fn usable(name: &str) -> (r: bool)
    ensures
        r == names_a_file(name@),
{
    !name.is_empty() && !str_eq(name, "/dev/null")
}

/// The file to change, if its name does not lead out of the working directory.
pub fn choose_target(patch: &FilePatch, opts: &Options, facts: &NameFacts) -> (r: Option<String>)
    ensures
        opt_text(r) == chosen_target(patch@, opts@, *facts),
{
    let cwd = match &facts.cwd {
        Some(dir) => Some(dir.as_str()),
        None => None,
    };
    let old = strip_path_opt(patch.old_file.as_str(), opts.strip);
    let new = strip_path_opt(patch.new_file.as_str(), opts.strip);
    let old_danger = is_dangerous_path(old.as_str(), facts.old_place, cwd);
    let new_danger = is_dangerous_path(new.as_str(), facts.new_place, cwd);
    let target = resolve_target_file(
        patch,
        opts,
        facts.old_exists && !old_danger,
        facts.new_exists && !new_danger,
    );
    if opts.positional_file.is_none() {
        let base = base_directory(opts);
        if old_danger && str_eq(target.as_str(), join_path(base, old.as_str()).as_str()) {
            return None;
        }
        if new_danger && str_eq(target.as_str(), join_path(base, new.as_str()).as_str()) {
            return None;
        }
    }
    Some(target)
}

/// Decides whether a file can be looked for under the names of a patch.
pub fn check_names(patch: &FilePatch, opts: &Options, facts: &NameFacts) -> (r: (
    Vec<String>,
    NameVerdict,
))
    ensures
        (texts(r.0@), r.1) == name_check(patch@, opts@, *facts),
{
    let mut out = no_lines();
    let quiet = opts.on.silent;
    let old = strip_path_opt(patch.old_file.as_str(), opts.strip);
    let new = strip_path_opt(patch.new_file.as_str(), opts.strip);
    let old_named = !patch.old_file.as_str().is_empty();
    let new_named = !patch.new_file.as_str().is_empty();
    if opts.positional_file.is_none() && !old_named && !new_named && patch.hunks.len() > 0 {
        if !opts.on.force {
            return (out, NameVerdict::Garbage);
        }
        if !quiet {
            say(&mut out, "can't find file to patch at input line 1".to_owned());
            say(&mut out, "No file to patch.  Skipping patch.".to_owned());
            say(&mut out, ignored_message(patch.hunks.len()));
        }
        return (out, NameVerdict::Skip);
    }
    let old_usable = usable(old.as_str());
    let new_usable = usable(new.as_str());
    if opts.strip.is_some() && opts.positional_file.is_none() && !old_usable && !new_usable && (
    old_named || new_named) {
        if !quiet {
            not_found_message(&mut out, patch, "Perhaps you used the wrong -p or --strip option?");
            assert(texts(out@) =~= not_found_lines(
                patch@,
                "Perhaps you used the wrong -p or --strip option?"@,
            ));
        }
        return (out, NameVerdict::Skip);
    }
    let cwd = match &facts.cwd {
        Some(dir) => Some(dir.as_str()),
        None => None,
    };
    let old_danger = is_dangerous_path(old.as_str(), facts.old_place, cwd);
    let new_danger = is_dangerous_path(new.as_str(), facts.new_place, cwd);
    let old_safe = old_usable && !old_danger;
    let new_safe = new_usable && !new_danger;
    if ((old_danger || new_danger) && !(old_safe && facts.old_exists) && !(new_safe
        && facts.new_exists)) || choose_target(patch, opts, facts).is_none() {
        if !quiet {
            if !old_safe && !new_safe {
                if old_danger {
                    let mut s = "Ignoring potentially dangerous file name ".to_owned();
                    s.append(quote_for_display(old.as_str()).as_str());
                    say(&mut out, s);
                }
                if new_danger && !(old_danger && str_eq(old.as_str(), new.as_str())) {
                    let mut s = "Ignoring potentially dangerous file name ".to_owned();
                    s.append(quote_for_display(new.as_str()).as_str());
                    say(&mut out, s);
                }
            }
            not_found_message(&mut out, patch, "Perhaps you used the wrong -p or --strip option?");
        }
        return (out, NameVerdict::Skip);
    }
    (out, NameVerdict::Go)
}

// ---------------------------------------------------------------------------
// Which file
// ---------------------------------------------------------------------------

/// What is known of the file that a patch is about.
#[derive(Debug, Clone, Copy, PartialEq, Eq, Structural)]
pub struct TargetFacts {
    /// It is a symbolic link.
    pub is_link: bool,
    /// Its owner cannot write it.
    pub readonly: bool,
    /// It is there, behind links.
    pub exists: bool,
    /// It is there, be it as a link that leads nowhere.
    pub present: bool,
    /// Links lead around in a circle.
    pub loops: bool,
    /// A directory on the way to it is a link out of the working directory.
    pub escapes: bool,
    /// It is there and has no content.
    pub empty: bool,
    /// It is there, and a line in it ends with carriage return and newline.
    pub has_crlf: bool,
}

/// What follows from looking at a file.
#[derive(Debug)]
pub enum Verdict {
    /// The patch is passed over; its hunks may be saved as rejects.
    Refuse { save: bool },
    /// The run ends with this message.
    Abort { message: String },
    /// The patch is carried out.
    Go {
        reverse: bool,
        strip_cr: bool,
        /// The patch creates a file that is there: its hunks fail untried.
        refuse_hunks: bool,
    },
}

/// The verdict with its text.
pub enum VerdictModel {
    Refuse { save: bool },
    Abort { message: Seq<char> },
    Go { reverse: bool, strip_cr: bool, refuse_hunks: bool },
}

impl View for Verdict {
    type V = VerdictModel;

    open spec fn view(&self) -> VerdictModel {
        match self {
            Verdict::Refuse { save } => VerdictModel::Refuse { save: *save },
            Verdict::Abort { message } => VerdictModel::Abort { message: message@ },
            Verdict::Go { reverse, strip_cr, refuse_hunks } => VerdictModel::Go {
                reverse: *reverse,
                strip_cr: *strip_cr,
                refuse_hunks: *refuse_hunks,
            },
        }
    }
}

/// The git header gives a mode of a symbolic link.
pub open spec fn describes_link(git: GitModel) -> bool {
    ||| is_link_mode(git.new_file_mode)
    ||| is_link_mode(git.deleted_file_mode)
    ||| is_link_mode(git.old_mode)
    ||| is_link_mode(git.new_mode)
    ||| is_link_mode(git.index_mode)
}

/// The patch creates a file.
pub open spec fn creates_file(p: PatchModel, o: OptionsModel) -> bool {
    is_null(stripped_opt(p.old_file, o.strip)) && names_a_file(stripped_opt(p.new_file, o.strip))
}

/// The patch deletes a file.
pub open spec fn deletes_file(p: PatchModel, o: OptionsModel) -> bool {
    is_null(stripped_opt(p.new_file, o.strip)) && names_a_file(stripped_opt(p.old_file, o.strip))
}

/// The hunks leave nothing of the lines that they are about.
pub open spec fn would_empty(hunks: Seq<HunkModel>) -> bool {
    &&& hunks.len() > 0
    &&& forall|i: int| 0 <= i < hunks.len() ==> (#[trigger] hunks[i]).new_count == 0
    &&& exists|i: int| 0 <= i < hunks.len() && (#[trigger] hunks[i]).old_count > 0
}

/// The text of a hunk line.
pub open spec fn line_text(line: LineModel) -> Seq<char> {
    match line {
        LineModel::Context(s) => s,
        LineModel::Remove(s) => s,
        LineModel::Add(s) => s,
    }
}

/// A line of the hunk ends with a carriage return.
pub open spec fn hunk_has_cr(h: HunkModel) -> bool {
    exists|i: int|
        0 <= i < h.lines.len() && has_suffix(line_text(#[trigger] h.lines[i]), "\r"@)
}

/// A line of a hunk ends with a carriage return.
pub open spec fn hunks_have_cr(hunks: Seq<HunkModel>) -> bool {
    exists|i: int| 0 <= i < hunks.len() && hunk_has_cr(#[trigger] hunks[i])
}

/// What a rename or a copy starts from, in the direction of application.
pub open spec fn origin(
    from: Option<Seq<char>>,
    to: Option<Seq<char>>,
    reverse: bool,
) -> Option<Seq<char>> {
    if reverse && from is Some && to is Some {
        to
    } else {
        from
    }
}

/// What a rename or a copy leads to, in the direction of application.
pub open spec fn destination(
    from: Option<Seq<char>>,
    to: Option<Seq<char>>,
    reverse: bool,
) -> Option<Seq<char>> {
    if reverse && from is Some && to is Some {
        from
    } else {
        to
    }
}

/// What is said when a patch is carried out.
pub open spec fn announcement(
    p: PatchModel,
    o: OptionsModel,
    target: Seq<char>,
    already_renamed: bool,
) -> Seq<char> {
    let verb = if o.on.dry_run {
        "checking "@
    } else {
        "patching "@
    };
    let kind = if describes_link(p.git) {
        "symbolic link "@
    } else {
        "file "@
    };
    let name = match o.output {
        Some(out) => quoted(out),
        None => quoted(target),
    };
    let source = if let Some(from) = origin(p.git.rename_from, p.git.rename_to, o.on.reverse) {
        if already_renamed {
            " (already renamed from "@ + quoted(from) + ")"@
        } else {
            " (renamed from "@ + quoted(from) + ")"@
        }
    } else if let Some(from) = origin(p.git.copy_from, p.git.copy_to, o.on.reverse) {
        " (copied from "@ + quoted(from) + ")"@
    } else if o.output is Some {
        " (read from "@ + quoted(target) + ")"@
    } else {
        Seq::empty()
    };
    verb + kind + name + source
}

/// Lines that come after others unless nothing is to be said.
pub open spec fn unless(quiet: bool, before: Seq<Seq<char>>, line: Seq<char>) -> Seq<Seq<char>> {
    if quiet {
        before
    } else {
        before.push(line)
    }
}

/// The patch is refused because of what kind of file this is.
pub open spec fn is_wrong_kind(p: PatchModel, o: OptionsModel, f: TargetFacts) -> bool {
    !o.on.follow_symlinks && !describes_link(p.git) && f.is_link
}

/// What is said of a file that is there though the patch creates it.
pub open spec fn already_there(before: Seq<Seq<char>>, target: Seq<char>) -> Seq<Seq<char>> {
    before.push("The next patch would create the file "@ + quoted(target) + ","@).push(
        "which already exists!  Applying it anyway."@,
    )
}

/// What is said of a file that is not there though the patch deletes it.
pub open spec fn would_delete(before: Seq<Seq<char>>, target: Seq<char>) -> Seq<Seq<char>> {
    before.push("The next patch would delete the file "@ + quoted(target) + ","@)
}

/// What is said of a file that has no content though the patch empties it.
pub open spec fn would_be_emptied(before: Seq<Seq<char>>, target: Seq<char>) -> Seq<Seq<char>> {
    before.push("The next patch would empty out the file "@ + quoted(target) + ","@)
}

/// The direction, and what is said, after looking at how empty the file is.
/// Unattended, a patch that would empty an empty file is reversed.
pub open spec fn emptiness_check(
    p: PatchModel,
    o: OptionsModel,
    target: Seq<char>,
    f: TargetFacts,
    said: Seq<Seq<char>>,
) -> (Seq<Seq<char>>, bool) {
    if would_empty(p.hunks) && f.exists && f.empty && !o.on.silent && !o.on.reverse {
        if o.on.batch {
            (
                would_be_emptied(said, target).push("which is already empty!  Assuming -R."@),
                true,
            )
        } else if o.on.force {
            (
                would_be_emptied(said, target).push(
                    "which is already empty!  Applying it anyway."@,
                ),
                o.on.reverse,
            )
        } else {
            (said, o.on.reverse)
        }
    } else {
        (said, o.on.reverse)
    }
}

/// Why a file name with a newline stops the run.
pub open spec fn bad_name_text(creates: bool, name: Seq<char>) -> Seq<char> {
    if creates {
        "Can't create file "@ + quoted(name) + " : Invalid byte sequence"@
    } else {
        "Can't rename file ab.XXXXXX to "@ + quoted(name) + " : Invalid byte sequence"@
    }
}

/// The last part of looking at a file: what is said of line endings and of
/// what is done, and whether names stop the run. `cr_told` says whether the
/// notice on carriage returns was given before, and the last component whether
/// it has been given now.
pub open spec fn last_look(
    p: PatchModel,
    o: OptionsModel,
    target: Seq<char>,
    f: TargetFacts,
    already_renamed: bool,
    cr_told: bool,
    reverse: bool,
    said: Seq<Seq<char>>,
) -> (Seq<Seq<char>>, VerdictModel, bool) {
    let strip_cr = !o.on.binary && hunks_have_cr(p.hunks);
    let tell = strip_cr && !f.has_crlf;
    let said1 = if tell && !cr_told {
        said.push(cr_notice())
    } else {
        said
    };
    let said2 = unless(o.on.silent, said1, announcement(p, o, target, already_renamed));
    if o.output matches Some(out) && out.contains('\n') {
        (said, VerdictModel::Abort { message: bad_name_text(true, o.output->0) }, cr_told)
    } else if target.contains('\n') {
        (
            said2,
            VerdictModel::Abort { message: bad_name_text(o.output is Some, target) },
            cr_told || tell,
        )
    } else {
        (
            said2,
            VerdictModel::Go {
                reverse,
                strip_cr,
                refuse_hunks: creates_file(p, o) && f.exists && !o.on.reverse,
            },
            cr_told || tell,
        )
    }
}

/// The middle part of looking at a file: whether it can be what the patch is
/// about.
pub open spec fn middle_look(
    p: PatchModel,
    o: OptionsModel,
    target: Seq<char>,
    f: TargetFacts,
    already_renamed: bool,
    cr_told: bool,
    said: Seq<Seq<char>>,
) -> (Seq<Seq<char>>, VerdictModel, bool) {
    let quiet = o.on.silent;
    if f.loops || f.escapes {
        (
            unless(quiet, said, "Invalid file name "@ + quoted(target) + " -- skipping patch"@),
            VerdictModel::Refuse { save: false },
            cr_told,
        )
    } else if deletes_file(p, o) && !f.present && !quiet && !describes_link(p.git) && !o.on.force {
        (
            would_delete(said, target).push("which does not exist!  Assume -R? [n] "@).push(
                "Apply anyway? [n] "@,
            ).push("Skipping patch."@).push(ignored_text(p.hunks.len())),
            VerdictModel::Refuse { save: false },
            cr_told,
        )
    } else {
        let said2 = if deletes_file(p, o) && !f.present && !quiet && !describes_link(p.git) {
            would_delete(said, target).push("which does not exist!  Applying it anyway."@)
        } else {
            said
        };
        let (said3, reverse) = emptiness_check(p, o, target, f, said2);
        last_look(p, o, target, f, already_renamed, cr_told, reverse, said3)
    }
}

/// What follows from looking at the file that a patch is about, and what is
/// said, with `target` the file's name as it is shown.
pub open spec fn preflight_check(
    p: PatchModel,
    o: OptionsModel,
    target: Seq<char>,
    f: TargetFacts,
    already_renamed: bool,
    cr_told: bool,
) -> (Seq<Seq<char>>, VerdictModel, bool) {
    let quiet = o.on.silent;
    let saved = saved_text(p.hunks.len(), reject_name(o, target));
    if target.contains('\0') {
        (
            if quiet {
                Seq::empty()
            } else {
                not_found_lines(p, "Perhaps you should have used the -p or --strip option?"@)
            },
            VerdictModel::Refuse { save: false },
            cr_told,
        )
    } else if is_wrong_kind(p, o, f) {
        (
            unless(
                quiet,
                unless(
                    quiet,
                    Seq::empty(),
                    "File "@ + quoted(target) + " is not a regular file -- refusing to patch"@,
                ),
                saved,
            ),
            VerdictModel::Refuse { save: !o.on.dry_run && p.hunks.len() > 0 },
            cr_told,
        )
    } else if o.read_only == ReadOnlyMode::Fail && f.readonly {
        (
            unless(
                quiet,
                unless(
                    quiet,
                    Seq::empty(),
                    "File "@ + quoted(target) + " is read-only; refusing to patch"@,
                ),
                saved,
            ),
            VerdictModel::Refuse { save: !o.on.dry_run },
            cr_told,
        )
    } else {
        let said1 = if o.read_only == ReadOnlyMode::Warn && f.readonly {
            unless(
                quiet,
                Seq::empty(),
                "File "@ + quoted(target) + " is read-only; trying to patch anyway"@,
            )
        } else {
            Seq::empty()
        };
        let said2 = if creates_file(p, o) && f.exists && !o.on.reverse && !quiet {
            already_there(said1, target)
        } else {
            said1
        };
        middle_look(p, o, target, f, already_renamed, cr_told, said2)
    }
}

/// A patch is carried out only on a file that is not a link which it does not
/// describe, that may be written, and that lies within the working directory,
/// and under a name without a newline.
pub proof fn law_refused_files_are_not_patched(
    p: PatchModel,
    o: OptionsModel,
    target: Seq<char>,
    f: TargetFacts,
    already_renamed: bool,
    cr_told: bool,
)
    ensures
        preflight_check(p, o, target, f, already_renamed, cr_told).1 is Go ==> {
            &&& !is_wrong_kind(p, o, f)
            &&& !(o.read_only == ReadOnlyMode::Fail && f.readonly)
            &&& !f.loops
            &&& !f.escapes
            &&& !target.contains('\n')
            &&& !target.contains('\0')
        },
{
}

/// The notice that carriage returns are left out.
pub open spec fn cr_notice() -> Seq<char> {
    "(Stripping trailing CRs from patch; use --binary to disable.)"@
}

/// None of the lines begins like the notice on carriage returns.
spec fn without_notice(lines: Seq<Seq<char>>) -> bool {
    forall|i: int| 0 <= i < lines.len() ==> (#[trigger] lines[i]).len() > 0 && lines[i][0] != '('
}

proof fn lemma_decimal_start(n: nat)
    ensures
        decimal(n).len() > 0,
        decimal(n)[0] != '(',
    decreases n,
{
    if n >= 10 {
        lemma_decimal_start(n / 10);
    }
}

proof fn lemma_not_found_without_notice(p: PatchModel, hint: Seq<char>)
    requires
        hint.len() > 0,
        hint[0] != '(',
    ensures
        without_notice(not_found_lines(p, hint)),
{
    reveal_strlit("can't find file to patch at input line 3");
    reveal_strlit("The text leading up to this was:");
    reveal_strlit("--------------------------");
    reveal_strlit("|");
    reveal_strlit("No file to patch.  Skipping patch.");
    lemma_decimal_start(p.hunks.len());
}

proof fn lemma_last_look_without_notice(
    p: PatchModel,
    o: OptionsModel,
    target: Seq<char>,
    f: TargetFacts,
    already_renamed: bool,
    reverse: bool,
    said: Seq<Seq<char>>,
)
    requires
        without_notice(said),
    ensures
        without_notice(last_look(p, o, target, f, already_renamed, true, reverse, said).0),
        last_look(p, o, target, f, already_renamed, true, reverse, said).2,
{
    reveal_strlit("checking ");
    reveal_strlit("patching ");
    let line = announcement(p, o, target, already_renamed);
    assert(line[0] == 'c' || line[0] == 'p');
}

proof fn lemma_middle_look_without_notice(
    p: PatchModel,
    o: OptionsModel,
    target: Seq<char>,
    f: TargetFacts,
    already_renamed: bool,
    said: Seq<Seq<char>>,
)
    requires
        without_notice(said),
    ensures
        without_notice(middle_look(p, o, target, f, already_renamed, true, said).0),
        middle_look(p, o, target, f, already_renamed, true, said).2,
{
    reveal_strlit("Invalid file name ");
    reveal_strlit("which does not exist!  Assume -R? [n] ");
    reveal_strlit("Apply anyway? [n] ");
    reveal_strlit("Skipping patch.");
    reveal_strlit("The next patch would delete the file ");
    reveal_strlit("which does not exist!  Applying it anyway.");
    reveal_strlit("The next patch would empty out the file ");
    reveal_strlit("which is already empty!  Assuming -R.");
    reveal_strlit("which is already empty!  Applying it anyway.");
    lemma_decimal_start(p.hunks.len());
    let said2 = if deletes_file(p, o) && !f.present && !o.on.silent && !describes_link(p.git) {
        would_delete(said, target).push("which does not exist!  Applying it anyway."@)
    } else {
        said
    };
    let (said3, reverse) = emptiness_check(p, o, target, f, said2);
    lemma_last_look_without_notice(p, o, target, f, already_renamed, reverse, said3);
}

/// The notice on carriage returns is given at most once in a run: once it has
/// been given, no later patch gives it, and this is remembered.
pub proof fn law_cr_notice_is_given_once(
    p: PatchModel,
    o: OptionsModel,
    target: Seq<char>,
    f: TargetFacts,
    already_renamed: bool,
)
    ensures
        !preflight_check(p, o, target, f, already_renamed, true).0.contains(cr_notice()),
        preflight_check(p, o, target, f, already_renamed, true).2,
        preflight_check(p, o, target, f, already_renamed, false).0.contains(cr_notice())
            ==> preflight_check(p, o, target, f, already_renamed, false).2,
{
    reveal_strlit("(Stripping trailing CRs from patch; use --binary to disable.)");
    reveal_strlit("Perhaps you should have used the -p or --strip option?");
    reveal_strlit("File ");
    reveal_strlit("The next patch would create the file ");
    reveal_strlit("which already exists!  Applying it anyway.");
    lemma_not_found_without_notice(p, "Perhaps you should have used the -p or --strip option?"@);
    lemma_decimal_start(p.hunks.len());
    let quiet = o.on.silent;
    let said1 = if o.read_only == ReadOnlyMode::Warn && f.readonly {
        unless(
            quiet,
            Seq::empty(),
            "File "@ + quoted(target) + " is read-only; trying to patch anyway"@,
        )
    } else {
        Seq::empty()
    };
    let said2 = if creates_file(p, o) && f.exists && !o.on.reverse && !quiet {
        already_there(said1, target)
    } else {
        said1
    };
    assert(without_notice(said2));
    lemma_middle_look_without_notice(p, o, target, f, already_renamed, said2);
    let r = preflight_check(p, o, target, f, already_renamed, true);
    assert(without_notice(r.0));
    if !preflight_check(p, o, target, f, already_renamed, false).2 {
        assert(preflight_check(p, o, target, f, already_renamed, false).0 == r.0);
    }
}

// ---------------------------------------------------------------------------
// Operations
// ---------------------------------------------------------------------------

/// Whether the git header gives a mode of a symbolic link.
pub fn is_symlink_patch(git: &GitMeta) -> (r: bool)
    ensures
        r == describes_link(git@),
{
    mode_is_link(git.new_file_mode) || mode_is_link(git.deleted_file_mode) || mode_is_link(
        git.old_mode,
    ) || mode_is_link(git.new_mode) || mode_is_link(git.index_mode)
}

fn cr_in_hunk(hunk: &Hunk) -> (r: bool)
    ensures
        r == hunk_has_cr(hunk@),
{
    let mut i: usize = 0;
    while i < hunk.lines.len()
        invariant
            i <= hunk.lines@.len(),
            forall|j: int|
                0 <= j < i ==> !has_suffix(line_text(#[trigger] hunk@.lines[j]), "\r"@),
        decreases hunk.lines@.len() - i,
    {
        assert(hunk@.lines[i as int] == hunk.lines@[i as int]@);
        let s = match &hunk.lines[i] {
            HunkLine::Context(s) => s,
            HunkLine::Remove(s) => s,
            HunkLine::Add(s) => s,
        };
        if ends_with(s.as_str(), "\r") {
            return true;
        }
        i = i + 1;
    }
    false
}

/// Whether a line of a hunk ends with a carriage return.
pub fn patch_has_cr(patch: &FilePatch) -> (r: bool)
    ensures
        r == hunks_have_cr(patch@.hunks),
{
    let mut i: usize = 0;
    while i < patch.hunks.len()
        invariant
            i <= patch.hunks@.len(),
            forall|j: int| 0 <= j < i ==> !hunk_has_cr(#[trigger] patch@.hunks[j]),
        decreases patch.hunks@.len() - i,
    {
        assert(patch@.hunks[i as int] == patch.hunks@[i as int]@);
        if cr_in_hunk(&patch.hunks[i]) {
            return true;
        }
        i = i + 1;
    }
    false
}

fn empties(patch: &FilePatch) -> (r: bool)
    ensures
        r == would_empty(patch@.hunks),
{
    let ghost hunks = patch@.hunks;
    let mut removes = false;
    let mut i: usize = 0;
    while i < patch.hunks.len()
        invariant
            hunks == patch@.hunks,
            i <= patch.hunks@.len(),
            forall|j: int| 0 <= j < i ==> (#[trigger] hunks[j]).new_count == 0,
            removes == exists|j: int| 0 <= j < i && (#[trigger] hunks[j]).old_count > 0,
        decreases patch.hunks@.len() - i,
    {
        assert(hunks[i as int] == patch.hunks@[i as int]@);
        if patch.hunks[i].new_count != 0 {
            return false;
        }
        if patch.hunks[i].old_count > 0 {
            removes = true;
        }
        i = i + 1;
    }
    patch.hunks.len() > 0 && removes
}

/// What a rename or a copy starts from, in the direction of application.
pub fn effective_from(from: &Option<String>, to: &Option<String>, reverse: bool) -> (r: Option<
    String,
>)
    ensures
        opt_text(r) == origin(opt_text(*from), opt_text(*to), reverse),
{
    if reverse && from.is_some() && to.is_some() {
        clone_opt(to)
    } else {
        clone_opt(from)
    }
}

/// What a rename or a copy leads to, in the direction of application.
pub fn effective_to(from: &Option<String>, to: &Option<String>, reverse: bool) -> (r: Option<
    String,
>)
    ensures
        opt_text(r) == destination(opt_text(*from), opt_text(*to), reverse),
{
    if reverse && from.is_some() && to.is_some() {
        clone_opt(from)
    } else {
        clone_opt(to)
    }
}

/// What is said when a patch is carried out.
pub fn announce(patch: &FilePatch, opts: &Options, target: &str, already_renamed: bool) -> (r:
    String)
    ensures
        r@ == announcement(patch@, opts@, target@, already_renamed),
{
    let reverse = opts.on.reverse;
    let renamed = effective_from(&patch.git.rename_from, &patch.git.rename_to, reverse);
    let copied = effective_from(&patch.git.copy_from, &patch.git.copy_to, reverse);
    let source = if let Some(from) = &renamed {
        if already_renamed {
            text3(" (already renamed from ", quote_for_display(from.as_str()).as_str(), ")")
        } else {
            text3(" (renamed from ", quote_for_display(from.as_str()).as_str(), ")")
        }
    } else if let Some(from) = &copied {
        text3(" (copied from ", quote_for_display(from.as_str()).as_str(), ")")
    } else if opts.output.is_some() {
        text3(" (read from ", quote_for_display(target).as_str(), ")")
    } else {
        String::new()
    };
    let name = match &opts.output {
        Some(out) => quote_for_display(out.as_str()),
        None => quote_for_display(target),
    };
    let mut s = if opts.on.dry_run {
        "checking ".to_owned()
    } else {
        "patching ".to_owned()
    };
    if is_symlink_patch(&patch.git) {
        s.append("symbolic link ");
    } else {
        s.append("file ");
    }
    s.append(name.as_str());
    s.append(source.as_str());
    s
}

fn bad_name_message(creates: bool, name: &str) -> (r: String)
    ensures
        r@ == bad_name_text(creates, name@),
{
    let name = quote_for_display(name);
    if creates {
        text3("Can't create file ", name.as_str(), " : Invalid byte sequence")
    } else {
        text3("Can't rename file ab.XXXXXX to ", name.as_str(), " : Invalid byte sequence")
    }
}

fn take_last_look(
    patch: &FilePatch,
    opts: &Options,
    target: &str,
    facts: TargetFacts,
    already_renamed: bool,
    cr_told: &mut bool,
    reverse: bool,
    refuse_hunks: bool,
    said: Vec<String>,
) -> (r: (Vec<String>, Verdict))
    requires
        refuse_hunks == (creates_file(patch@, opts@) && facts.exists && !opts@.on.reverse),
    ensures
        (texts(r.0@), r.1@, *final(cr_told)) == last_look(
            patch@,
            opts@,
            target@,
            facts,
            already_renamed,
            *old(cr_told),
            reverse,
            texts(said@),
        ),
{
    let mut out = said;
    if let Some(name) = &opts.output {
        if filename_is_invalid(name.as_str()) {
            return (out, Verdict::Abort { message: bad_name_message(true, name.as_str()) });
        }
    }
    let strip_cr = !opts.on.binary && patch_has_cr(patch);
    if strip_cr && !facts.has_crlf {
        if !*cr_told {
            say(
                &mut out,
                "(Stripping trailing CRs from patch; use --binary to disable.)".to_owned(),
            );
        }
        *cr_told = true;
    }
    if !opts.on.silent {
        say(&mut out, announce(patch, opts, target, already_renamed));
    }
    if filename_is_invalid(target) {
        return (
            out,
            Verdict::Abort { message: bad_name_message(opts.output.is_some(), target) },
        );
    }
    (out, Verdict::Go { reverse, strip_cr, refuse_hunks })
}

/// Looks at the file that a patch is about and decides whether the patch is
/// carried out on it. `target` is the file's name as it is shown. Gives the
/// lines to print and the verdict. `cr_told` remembers over a whole run
/// whether the notice on carriage returns was given.
pub fn preflight(
    patch: &FilePatch,
    opts: &Options,
    target: &str,
    facts: TargetFacts,
    already_renamed: bool,
    cr_told: &mut bool,
) -> (r: (Vec<String>, Verdict))
    ensures
        (texts(r.0@), r.1@, *final(cr_told)) == preflight_check(
            patch@,
            opts@,
            target@,
            facts,
            already_renamed,
            *old(cr_told),
        ),
{
    let mut out = no_lines();
    let name = quote_for_display(target);
    let quiet = opts.on.silent;
    let total = patch.hunks.len();
    assert(total == patch@.hunks.len());
    if contains_char(target, '\0') {
        if !quiet {
            not_found_message(
                &mut out,
                patch,
                "Perhaps you should have used the -p or --strip option?",
            );
            assert(texts(out@) =~= not_found_lines(
                patch@,
                "Perhaps you should have used the -p or --strip option?"@,
            ));
        }
        return (out, Verdict::Refuse { save: false });
    }
    let link_patch = is_symlink_patch(&patch.git);
    if !opts.on.follow_symlinks && !link_patch && facts.is_link {
        if !quiet {
            say(&mut out, text3("File ", name.as_str(), " is not a regular file -- refusing to patch"));
            say(&mut out, saved_message(total, reject_path(opts, target).as_str()));
        }
        return (out, Verdict::Refuse { save: !opts.on.dry_run && total > 0 });
    }
    if facts.readonly {
        match opts.read_only {
            ReadOnlyMode::Fail => {
                if !quiet {
                    say(&mut out, text3("File ", name.as_str(), " is read-only; refusing to patch"));
                    say(&mut out, saved_message(total, reject_path(opts, target).as_str()));
                }
                return (out, Verdict::Refuse { save: !opts.on.dry_run });
            },
            ReadOnlyMode::Warn => {
                if !quiet {
                    say(
                        &mut out,
                        text3("File ", name.as_str(), " is read-only; trying to patch anyway"),
                    );
                }
            },
            ReadOnlyMode::Ignore => {},
        }
    }
    let old = strip_path_opt(patch.old_file.as_str(), opts.strip);
    let new = strip_path_opt(patch.new_file.as_str(), opts.strip);
    let creates = str_eq(old.as_str(), "/dev/null") && usable(new.as_str());
    let deletes = str_eq(new.as_str(), "/dev/null") && usable(old.as_str());
    let refuse_hunks = creates && facts.exists && !opts.on.reverse;
    if refuse_hunks && !quiet {
        say(&mut out, text3("The next patch would create the file ", name.as_str(), ","));
        say(&mut out, "which already exists!  Applying it anyway.".to_owned());
    }
    if facts.loops || facts.escapes {
        if !quiet {
            say(&mut out, text3("Invalid file name ", name.as_str(), " -- skipping patch"));
        }
        return (out, Verdict::Refuse { save: false });
    }
    if deletes && !facts.present && !quiet && !link_patch {
        say(&mut out, text3("The next patch would delete the file ", name.as_str(), ","));
        if opts.on.force {
            say(&mut out, "which does not exist!  Applying it anyway.".to_owned());
        } else {
            say(&mut out, "which does not exist!  Assume -R? [n] ".to_owned());
            say(&mut out, "Apply anyway? [n] ".to_owned());
            say(&mut out, "Skipping patch.".to_owned());
            say(&mut out, ignored_message(total));
            return (out, Verdict::Refuse { save: false });
        }
    }
    let mut reverse = opts.on.reverse;
    if empties(patch) && facts.exists && facts.empty && !quiet && !opts.on.reverse {
        if opts.on.batch {
            say(&mut out, text3("The next patch would empty out the file ", name.as_str(), ","));
            say(&mut out, "which is already empty!  Assuming -R.".to_owned());
            reverse = true;
        } else if opts.on.force {
            say(&mut out, text3("The next patch would empty out the file ", name.as_str(), ","));
            say(&mut out, "which is already empty!  Applying it anyway.".to_owned());
        }
    }
    take_last_look(
        patch,
        opts,
        target,
        facts,
        already_renamed,
        cr_told,
        reverse,
        refuse_hunks,
        out,
    )
}

} // verus!
