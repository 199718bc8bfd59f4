//! A run over all the patches of an input: what is done for each of them.
use vstd::prelude::*;

use crate::apply::ApplyError;
use crate::ed::{ed_plan, is_script, looks_like_ed_script, EdPlan, EdPlanModel};
use crate::header::{
    extract_timestamp_field, parse_header_timestamp, timestamp_field, timestamp_seconds,
};
use crate::model::{
    patch_models, FilePatch, GitMeta, GitModel, Hunk, HunkLine, HunkModel, LineModel, PatchModel,
};
use crate::options::{Options, OptionsModel};
use crate::paths::{
    base_directory, base_of, is_dangerous, is_dangerous_path, is_null, join_path,
    quote_for_display, seen_from, strip_path_opt, stripped_opt, Whereabouts,
};
use crate::preflight::{
    dangerous_text, deletes_file, describes_link, destination, effective_from, effective_to,
    hunks_have_cr, is_symlink_patch, origin, patch_has_cr, preflight_check, NameVerdict,
    TargetFacts, Verdict, VerdictModel,
};
use crate::report::{
    failure_lines, failure_summary, kept_text, no_lines, not_found_lines, not_found_message, say,
};
use crate::run::{
    after_hunks, after_refusal, apply_hunks, failed_in_order, file_lines, finish, is_removed,
    keeps_rest, new_text, output_text, refuse_hunks, split_content, Manner, Outcome, Run, RunModel,
};
use crate::store::PathSet;
use crate::text::{
    chars_of, contains_text, has_suffix, has_text, lemma_position, opt_text,
    position, position_in, std_lines, str_eq, strip_suffix, texts, trim, trimmed,
};

verus! {

/// Every patch was carried out.
pub const EXIT_SUCCESS: i32 = 0;

/// A hunk failed.
pub const EXIT_HUNKS_FAILED: i32 = 1;

/// Something else went wrong.
pub const EXIT_TROUBLE: i32 = 2;

/// The exit status for a patch with this many failures.
pub fn exit_status(failures: usize) -> (r: i32)
    ensures
        r == if failures > 0 {
            EXIT_HUNKS_FAILED
        } else {
            EXIT_SUCCESS
        },
{
    if failures > 0 {
        EXIT_HUNKS_FAILED
    } else {
        EXIT_SUCCESS
    }
}

/// The worse of two exit statuses.
pub fn worse(a: i32, b: i32) -> (r: i32)
    ensures
        r == if b > a {
            b
        } else {
            a
        },
{
    if b > a {
        b
    } else {
        a
    }
}

// ---------------------------------------------------------------------------
// The input
// ---------------------------------------------------------------------------

/// The number of newlines.
pub open spec fn newlines(s: Seq<char>) -> nat
    decreases s.len(),
{
    if s.len() == 0 {
        0
    } else {
        newlines(s.drop_last()) + if s.last() == '\n' {
            1nat
        } else {
            0
        }
    }
}

/// The line, counted from one, with the first NUL character.
pub fn nul_line(input: &str) -> (r: Option<usize>)
    ensures
        match r {
            Some(line) => input@.contains('\0') && line == 1 + newlines(
                input@.take(position(input@, '\0') as int),
            ),
            None => !input@.contains('\0'),
        },
{
    let cs = chars_of(input);
    let end = position_in(&cs, 0, '\0');
    proof {
        assert(cs@.skip(0) =~= input@);
        lemma_position(input@, '\0');
    }
    if end == cs.len() {
        return None;
    }
    assert(input@[end as int] == '\0');
    let total = cs.len();
    let mut line: usize = 1;
    let mut i: usize = 0;
    assert(input@.take(0) =~= Seq::empty());
    while i < end
        invariant
            cs@ == input@,
            total == cs@.len(),
            i <= end < total,
            line <= 1 + i,
            line == 1 + newlines(input@.take(i as int)),
        decreases end - i,
    {
        proof {
            assert(input@.take(i + 1).drop_last() =~= input@.take(i as int));
            assert(input@.take(i + 1).last() == cs@[i as int]);
        }
        if cs[i] == '\n' {
            line = line + 1;
        }
        i = i + 1;
    }
    Some(line)
}

/// What is to be done with an input.
#[derive(Debug, Clone, Copy, PartialEq, Eq, Structural)]
pub enum RunPlan {
    /// Nothing: all it has is binary content, which is not read.
    BinaryOnly,
    /// Nothing: it is empty, and there is no output file or this is a dry run.
    Nothing,
    /// The file on the command line is copied to the output file.
    CopyInput,
    /// It is a script for `ed`.
    EdScript,
    /// Nothing: it is no patch.
    Garbage,
    /// Its patches are carried out.
    Patches,
}

/// No patch has a hunk.
pub open spec fn all_without_hunks(patches: Seq<PatchModel>) -> bool {
    forall|i: int| 0 <= i < patches.len() ==> (#[trigger] patches[i]).hunks.len() == 0
}

/// What is to be done with an input and the patches in it.
pub open spec fn run_plan(
    input: Seq<char>,
    o: OptionsModel,
    patches: Seq<PatchModel>,
    binary_seen: bool,
) -> RunPlan {
    if binary_seen && all_without_hunks(patches) {
        RunPlan::BinaryOnly
    } else if patches.len() > 0 {
        RunPlan::Patches
    } else if trimmed(input).len() == 0 {
        if o.output is None || o.on.dry_run {
            RunPlan::Nothing
        } else {
            RunPlan::CopyInput
        }
    } else if o.positional_file is Some && is_script(std_lines(input)) {
        RunPlan::EdScript
    } else {
        RunPlan::Garbage
    }
}

/// Decides what is to be done with an input and the patches in it.
/// `binary_seen` says whether binary content was passed over.
pub fn plan_run(
    input: &str,
    opts: &Options,
    patches: &Vec<FilePatch>,
    binary_seen: bool,
) -> (r: RunPlan)
    ensures
        r == run_plan(input@, opts@, patch_models(patches@), binary_seen),
{
    let ghost all = patch_models(patches@);
    let mut hunks_seen = false;
    let mut i: usize = 0;
    while i < patches.len()
        invariant
            all == patch_models(patches@),
            i <= patches@.len(),
            hunks_seen == exists|j: int| 0 <= j < i && (#[trigger] all[j]).hunks.len() != 0,
        decreases patches@.len() - i,
    {
        assert(all[i as int] == patches@[i as int]@);
        if patches[i].hunks.len() > 0 {
            hunks_seen = true;
        }
        i = i + 1;
    }
    if binary_seen && !hunks_seen {
        RunPlan::BinaryOnly
    } else if patches.len() > 0 {
        assert(!(binary_seen && all_without_hunks(all)));
        RunPlan::Patches
    } else if trim(input).is_empty() {
        if opts.output.is_none() || opts.on.dry_run {
            RunPlan::Nothing
        } else {
            RunPlan::CopyInput
        }
    } else if opts.positional_file.is_some() && looks_like_ed_script(input) {
        RunPlan::EdScript
    } else {
        RunPlan::Garbage
    }
}

// ---------------------------------------------------------------------------
// Renames and copies
// ---------------------------------------------------------------------------

/// The path that a git header gives, seen from the directory, if it gives one.
pub open spec fn push_seen(
    paths: Seq<Seq<char>>,
    base: Seq<char>,
    path: Option<Seq<char>>,
) -> Seq<Seq<char>> {
    match path {
        Some(p) => paths.push(seen_from(base, p)),
        None => paths,
    }
}

/// The files that renames and copies start from and lead to, in order.
pub open spec fn moved_paths(patches: Seq<PatchModel>, base: Seq<char>) -> Seq<Seq<char>>
    decreases patches.len(),
{
    if patches.len() == 0 {
        Seq::empty()
    } else {
        let git = patches.last().git;
        push_seen(
            push_seen(
                push_seen(
                    push_seen(moved_paths(patches.drop_last(), base), base, git.rename_from),
                    base,
                    git.rename_to,
                ),
                base,
                git.copy_from,
            ),
            base,
            git.copy_to,
        )
    }
}

/// Every file that a patch renames or copies, and every one that it renames or
/// copies to, is among the moved paths, in whichever direction patches are
/// carried out.
pub proof fn law_moves_are_remembered(patches: Seq<PatchModel>, base: Seq<char>, i: int)
    requires
        0 <= i < patches.len(),
    ensures
        patches[i].git.rename_from matches Some(p) ==> moved_paths(patches, base).contains(
            seen_from(base, p),
        ),
        patches[i].git.rename_to matches Some(p) ==> moved_paths(patches, base).contains(
            seen_from(base, p),
        ),
        patches[i].git.copy_from matches Some(p) ==> moved_paths(patches, base).contains(
            seen_from(base, p),
        ),
        patches[i].git.copy_to matches Some(p) ==> moved_paths(patches, base).contains(
            seen_from(base, p),
        ),
    decreases patches.len(),
{
    let git = patches.last().git;
    let p0 = moved_paths(patches.drop_last(), base);
    let p1 = push_seen(p0, base, git.rename_from);
    let p2 = push_seen(p1, base, git.rename_to);
    let p3 = push_seen(p2, base, git.copy_from);
    if i < patches.len() - 1 {
        law_moves_are_remembered(patches.drop_last(), base, i);
        assert(patches.drop_last()[i] == patches[i]);
    }
    assert forall|x: Seq<char>| #[trigger] p0.contains(x) implies moved_paths(
        patches,
        base,
    ).contains(x) by {
        lemma_still_seen(p0, base, git.rename_from, x);
        lemma_still_seen(p1, base, git.rename_to, x);
        lemma_still_seen(p2, base, git.copy_from, x);
        lemma_still_seen(p3, base, git.copy_to, x);
    }
    if let Some(p) = git.rename_from {
        lemma_just_seen(p0, base, p);
        lemma_still_seen(p1, base, git.rename_to, seen_from(base, p));
        lemma_still_seen(p2, base, git.copy_from, seen_from(base, p));
        lemma_still_seen(p3, base, git.copy_to, seen_from(base, p));
    }
    if let Some(p) = git.rename_to {
        lemma_just_seen(p1, base, p);
        lemma_still_seen(p2, base, git.copy_from, seen_from(base, p));
        lemma_still_seen(p3, base, git.copy_to, seen_from(base, p));
    }
    if let Some(p) = git.copy_from {
        lemma_just_seen(p2, base, p);
        lemma_still_seen(p3, base, git.copy_to, seen_from(base, p));
    }
    if let Some(p) = git.copy_to {
        lemma_just_seen(p3, base, p);
    }
}

proof fn lemma_still_seen(
    paths: Seq<Seq<char>>,
    base: Seq<char>,
    path: Option<Seq<char>>,
    x: Seq<char>,
)
    requires
        paths.contains(x),
    ensures
        push_seen(paths, base, path).contains(x),
{
    let i = paths.index_of(x);
    assert(push_seen(paths, base, path)[i] == x);
}

proof fn lemma_just_seen(paths: Seq<Seq<char>>, base: Seq<char>, path: Seq<char>)
    ensures
        push_seen(paths, base, Some(path)).contains(seen_from(base, path)),
{
    assert(push_seen(paths, base, Some(path))[paths.len() as int] == seen_from(base, path));
}

/// The files that renames lead to, in the direction of application.
pub open spec fn renamed_paths(
    patches: Seq<PatchModel>,
    base: Seq<char>,
    reverse: bool,
) -> Set<Seq<char>>
    decreases patches.len(),
{
    if patches.len() == 0 {
        Set::empty()
    } else {
        let git = patches.last().git;
        let before = renamed_paths(patches.drop_last(), base, reverse);
        match destination(git.rename_from, git.rename_to, reverse) {
            Some(p) => before.insert(seen_from(base, p)),
            None => before,
        }
    }
}

fn add_seen(out: &mut Vec<String>, base: &str, path: &Option<String>)
    ensures
        texts(final(out)@) == push_seen(texts(old(out)@), base@, opt_text(*path)),
{
    if let Some(p) = path {
        say(out, join_path(base, p.as_str()));
    }
}

/// The files whose content is remembered from before the run, so that renames
/// and copies start from it.
pub fn paths_to_remember(patches: &Vec<FilePatch>, opts: &Options) -> (r: Vec<String>)
    ensures
        texts(r@) == moved_paths(patch_models(patches@), base_of(opts@)),
{
    let base = base_directory(opts);
    let ghost all = patch_models(patches@);
    let mut out = no_lines();
    let mut i: usize = 0;
    assert(all.take(0) =~= Seq::empty());
    while i < patches.len()
        invariant
            base@ == base_of(opts@),
            all == patch_models(patches@),
            i <= patches@.len(),
            texts(out@) == moved_paths(all.take(i as int), base@),
        decreases patches@.len() - i,
    {
        proof {
            assert(all.take(i + 1).drop_last() =~= all.take(i as int));
            assert(all.take(i + 1).last() == patches@[i as int]@);
        }
        let git = &patches[i].git;
        add_seen(&mut out, base, &git.rename_from);
        add_seen(&mut out, base, &git.rename_to);
        add_seen(&mut out, base, &git.copy_from);
        add_seen(&mut out, base, &git.copy_to);
        i = i + 1;
    }
    assert(all.take(i as int) =~= all);
    out
}

/// The files that renames of this run lead to.
pub fn rename_destinations(patches: &Vec<FilePatch>, opts: &Options) -> (r: PathSet)
    ensures
        r.well_formed(),
        r@ == renamed_paths(patch_models(patches@), base_of(opts@), opts@.on.reverse),
{
    let base = base_directory(opts);
    let ghost all = patch_models(patches@);
    let mut out = PathSet::new();
    let mut i: usize = 0;
    assert(all.take(0) =~= Seq::empty());
    while i < patches.len()
        invariant
            base@ == base_of(opts@),
            all == patch_models(patches@),
            i <= patches@.len(),
            out.well_formed(),
            out@ == renamed_paths(all.take(i as int), base@, opts@.on.reverse),
        decreases patches@.len() - i,
    {
        proof {
            assert(all.take(i + 1).drop_last() =~= all.take(i as int));
            assert(all.take(i + 1).last() == patches@[i as int]@);
        }
        let git = &patches[i].git;
        if let Some(path) = &effective_to(&git.rename_from, &git.rename_to, opts.on.reverse) {
            out.insert(join_path(base, path.as_str()).as_str());
        }
        i = i + 1;
    }
    assert(all.take(i as int) =~= all);
    out
}

/// What a patch moves before its hunks are carried out.
#[derive(Debug)]
pub enum Move {
    Stay,
    /// Nothing: a name in the git header leads out of the working directory.
    Refuse,
    Rename { source: String, target: String },
    Copy { source: String, target: String },
}

/// The move with its texts.
pub enum MoveModel {
    Stay,
    Refuse,
    Rename { source: Seq<char>, target: Seq<char> },
    Copy { source: Seq<char>, target: Seq<char> },
}

impl View for Move {
    type V = MoveModel;

    open spec fn view(&self) -> MoveModel {
        match self {
            Move::Stay => MoveModel::Stay,
            Move::Refuse => MoveModel::Refuse,
            Move::Rename { source, target } => MoveModel::Rename {
                source: source@,
                target: target@,
            },
            Move::Copy { source, target } => MoveModel::Copy { source: source@, target: target@ },
        }
    }
}

/// What a git header says to move: what it renames or else copies, the other
/// way round in reverse.
pub open spec fn written_move(git: GitModel, base: Seq<char>, reverse: bool) -> MoveModel {
    if git.rename_from is Some && git.rename_to is Some {
        MoveModel::Rename {
            source: seen_from(base, origin(git.rename_from, git.rename_to, reverse)->0),
            target: seen_from(base, destination(git.rename_from, git.rename_to, reverse)->0),
        }
    } else if git.copy_from is Some && git.copy_to is Some {
        MoveModel::Copy {
            source: seen_from(base, origin(git.copy_from, git.copy_to, reverse)->0),
            target: seen_from(base, destination(git.copy_from, git.copy_to, reverse)->0),
        }
    } else {
        MoveModel::Stay
    }
}

/// The move with its two ends swapped.
pub open spec fn swapped(m: MoveModel) -> MoveModel {
    match m {
        MoveModel::Stay => MoveModel::Stay,
        MoveModel::Refuse => MoveModel::Refuse,
        MoveModel::Rename { source, target } => MoveModel::Rename {
            source: target,
            target: source,
        },
        MoveModel::Copy { source, target } => MoveModel::Copy { source: target, target: source },
    }
}

/// Where a name in a git header leads.
#[derive(Debug, Clone, Copy, PartialEq, Eq, Structural)]
pub struct NamePlace {
    pub place: Whereabouts,
    /// A directory on the way to the file is a link out of the working
    /// directory.
    pub escapes: bool,
}

/// What is known of the names in a git header. It says nothing of a name that
/// is not there.
#[derive(Debug)]
pub struct MoveFacts {
    /// The working directory, if its name is known.
    pub cwd: Option<String>,
    pub rename_from: NamePlace,
    pub rename_to: NamePlace,
    pub copy_from: NamePlace,
    pub copy_to: NamePlace,
}

/// The name is there and leads out of the working directory.
pub open spec fn leads_out(
    name: Option<Seq<char>>,
    at: NamePlace,
    cwd: Option<Seq<char>>,
) -> bool {
    name matches Some(path) && (is_dangerous(path, at.place, cwd) || at.escapes)
}

/// A name in the git header leads out of the working directory.
pub open spec fn moves_outside(git: GitModel, f: MoveFacts) -> bool {
    let cwd = opt_text(f.cwd);
    ||| leads_out(git.rename_from, f.rename_from, cwd)
    ||| leads_out(git.rename_to, f.rename_to, cwd)
    ||| leads_out(git.copy_from, f.copy_from, cwd)
    ||| leads_out(git.copy_to, f.copy_to, cwd)
}

/// What a patch moves: what its git header says, unless a name in it leads out
/// of the working directory. A dry run moves nothing, and neither does a patch
/// with binary content.
pub open spec fn planned_move(git: GitModel, o: OptionsModel, f: MoveFacts) -> MoveModel {
    if moves_outside(git, f) {
        MoveModel::Refuse
    } else if o.on.dry_run || git.binary_payload {
        MoveModel::Stay
    } else {
        written_move(git, base_of(o), o.on.reverse)
    }
}

/// That a name is passed over, if it leads out of the working directory.
pub open spec fn push_leading_out(
    lines: Seq<Seq<char>>,
    name: Option<Seq<char>>,
    at: NamePlace,
    cwd: Option<Seq<char>>,
) -> Seq<Seq<char>> {
    if leads_out(name, at, cwd) {
        lines.push(dangerous_text(name->0))
    } else {
        lines
    }
}

/// What is said of a patch whose move is refused.
pub open spec fn refusal_lines(p: PatchModel, o: OptionsModel, f: MoveFacts) -> Seq<Seq<char>> {
    let cwd = opt_text(f.cwd);
    let l1 = push_leading_out(Seq::empty(), p.git.rename_from, f.rename_from, cwd);
    let l2 = push_leading_out(l1, p.git.rename_to, f.rename_to, cwd);
    let l3 = push_leading_out(l2, p.git.copy_from, f.copy_from, cwd);
    let l4 = push_leading_out(l3, p.git.copy_to, f.copy_to, cwd);
    if o.on.silent {
        Seq::empty()
    } else {
        l4 + not_found_lines(p, "Perhaps you used the wrong -p or --strip option?"@)
    }
}

/// In reverse, a patch moves the other way round.
pub proof fn law_reverse_swaps_moves(git: GitModel, base: Seq<char>, reverse: bool)
    ensures
        written_move(git, base, !reverse) == swapped(written_move(git, base, reverse)),
{
}

/// A file that is renamed by the only patch of a run does not wait for another
/// patch to write it, in whichever direction the patch is carried out.
pub proof fn law_lone_rename_is_not_awaited(p: PatchModel, base: Seq<char>, reverse: bool)
    requires
        written_move(p.git, base, reverse) matches MoveModel::Rename { source, target } && source
            != target,
    ensures
        written_move(p.git, base, reverse) matches MoveModel::Rename { source, target }
            && !renamed_paths(seq![p], base, reverse).contains(source),
{
    let patches = seq![p];
    assert(patches.drop_last() =~= Seq::empty());
    assert(renamed_paths(patches.drop_last(), base, reverse) =~= Set::empty());
}

/// A file is moved only when neither its name nor its new name leads out of the
/// working directory, in whichever direction the patch is carried out.
pub proof fn law_moves_stay_inside(git: GitModel, o: OptionsModel, f: MoveFacts)
    ensures
        planned_move(git, o, f) is Rename ==> {
            &&& git.rename_from matches Some(from) && !is_dangerous(
                from,
                f.rename_from.place,
                opt_text(f.cwd),
            )
            &&& git.rename_to matches Some(to) && !is_dangerous(
                to,
                f.rename_to.place,
                opt_text(f.cwd),
            )
            &&& !f.rename_from.escapes
            &&& !f.rename_to.escapes
        },
        planned_move(git, o, f) is Copy ==> {
            &&& git.copy_from matches Some(from) && !is_dangerous(
                from,
                f.copy_from.place,
                opt_text(f.cwd),
            )
            &&& git.copy_to matches Some(to) && !is_dangerous(
                to,
                f.copy_to.place,
                opt_text(f.cwd),
            )
            &&& !f.copy_from.escapes
            &&& !f.copy_to.escapes
        },
{
}

fn is_leading_out(name: &Option<String>, at: NamePlace, cwd: Option<&str>) -> (r: bool)
    ensures
        r == leads_out(
            opt_text(*name),
            at,
            match cwd {
                Some(dir) => Some(dir@),
                None => None,
            },
        ),
{
    match name {
        Some(path) => is_dangerous_path(path.as_str(), at.place, cwd) || at.escapes,
        None => false,
    }
}

/// What a git header says to move.
fn read_move(patch: &FilePatch, opts: &Options) -> (r: Move)
    ensures
        r@ == written_move(patch@.git, base_of(opts@), opts@.on.reverse),
{
    let base = base_directory(opts);
    let reverse = opts.on.reverse;
    let git = &patch.git;
    let from = effective_from(&git.rename_from, &git.rename_to, reverse);
    let to = effective_to(&git.rename_from, &git.rename_to, reverse);
    if let (Some(from), Some(to)) = (from, to) {
        return Move::Rename {
            source: join_path(base, from.as_str()),
            target: join_path(base, to.as_str()),
        };
    }
    let from = effective_from(&git.copy_from, &git.copy_to, reverse);
    let to = effective_to(&git.copy_from, &git.copy_to, reverse);
    if let (Some(from), Some(to)) = (from, to) {
        return Move::Copy {
            source: join_path(base, from.as_str()),
            target: join_path(base, to.as_str()),
        };
    }
    Move::Stay
}

/// What a patch moves before its hunks are carried out.
pub fn plan_move(patch: &FilePatch, opts: &Options, facts: &MoveFacts) -> (r: Move)
    ensures
        r@ == planned_move(patch@.git, opts@, *facts),
{
    let cwd = match &facts.cwd {
        Some(dir) => Some(dir.as_str()),
        None => None,
    };
    let git = &patch.git;
    if is_leading_out(&git.rename_from, facts.rename_from, cwd) || is_leading_out(
        &git.rename_to,
        facts.rename_to,
        cwd,
    ) || is_leading_out(&git.copy_from, facts.copy_from, cwd) || is_leading_out(
        &git.copy_to,
        facts.copy_to,
        cwd,
    ) {
        return Move::Refuse;
    }
    if opts.on.dry_run || git.binary_payload {
        return Move::Stay;
    }
    read_move(patch, opts)
}

fn say_leading_out(out: &mut Vec<String>, name: &Option<String>, at: NamePlace, cwd: Option<&str>)
    ensures
        texts(final(out)@) == push_leading_out(
            texts(old(out)@),
            opt_text(*name),
            at,
            match cwd {
                Some(dir) => Some(dir@),
                None => None,
            },
        ),
{
    if is_leading_out(name, at, cwd) {
        if let Some(path) = name {
            let mut s = "Ignoring potentially dangerous file name ".to_owned();
            s.append(quote_for_display(path.as_str()).as_str());
            say(out, s);
        }
    }
}

/// What is said of a patch whose move is refused.
pub fn refused_move(patch: &FilePatch, opts: &Options, facts: &MoveFacts) -> (r: Vec<String>)
    ensures
        texts(r@) == refusal_lines(patch@, opts@, *facts),
{
    let cwd = match &facts.cwd {
        Some(dir) => Some(dir.as_str()),
        None => None,
    };
    let mut out = no_lines();
    if opts.on.silent {
        return out;
    }
    say_leading_out(&mut out, &patch.git.rename_from, facts.rename_from, cwd);
    say_leading_out(&mut out, &patch.git.rename_to, facts.rename_to, cwd);
    say_leading_out(&mut out, &patch.git.copy_from, facts.copy_from, cwd);
    say_leading_out(&mut out, &patch.git.copy_to, facts.copy_to, cwd);
    not_found_message(&mut out, patch, "Perhaps you used the wrong -p or --strip option?");
    out
}

/// The file that a dry run looks at in place of the one that a patch would move
/// here: what it would rename or copy.
pub fn stand_in(patch: &FilePatch, opts: &Options) -> (r: Option<String>)
    ensures
        match (r, written_move(patch@.git, base_of(opts@), opts@.on.reverse)) {
            (Some(path), MoveModel::Rename { source, target }) => opts@.on.dry_run && path@ == source,
            (Some(path), MoveModel::Copy { source, target }) => opts@.on.dry_run && path@ == source,
            (Some(_), _) => false,
            (None, MoveModel::Stay) => true,
            (None, _) => !opts@.on.dry_run,
        },
{
    if !opts.on.dry_run {
        return None;
    }
    match read_move(patch, opts) {
        Move::Rename { source, target: _ } => Some(source),
        Move::Copy { source, target: _ } => Some(source),
        _ => None,
    }
}

/// How a rename is done.
#[derive(Debug, Clone, Copy, PartialEq, Eq, Structural)]
pub enum RenameStep {
    /// It was done before.
    Already,
    /// The remembered content of the source is written to the target, and the
    /// source may be removed.
    WriteOriginal { unlink: bool },
    /// The file is renamed.
    Rename,
}

/// Decides how a rename is done. `remembered` says whether the content of the
/// source from before the run is known, `same` whether source and target are
/// one path, and `awaited` whether another patch renames something to the
/// source.
pub fn rename_step(
    source_exists: bool,
    target_exists: bool,
    remembered: bool,
    same: bool,
    awaited: bool,
) -> (r: RenameStep)
    ensures
        r == if !source_exists && target_exists {
            RenameStep::Already
        } else if remembered {
            RenameStep::WriteOriginal { unlink: !same && !awaited }
        } else {
            RenameStep::Rename
        },
{
    if !source_exists && target_exists {
        RenameStep::Already
    } else if remembered {
        RenameStep::WriteOriginal { unlink: !same && !awaited }
    } else {
        RenameStep::Rename
    }
}

// ---------------------------------------------------------------------------
// Links and headers
// ---------------------------------------------------------------------------

/// The texts of the added lines, in a row.
pub open spec fn added_text(lines: Seq<LineModel>) -> Seq<char>
    decreases lines.len(),
{
    if lines.len() == 0 {
        Seq::empty()
    } else {
        match lines.last() {
            LineModel::Add(s) => added_text(lines.drop_last()) + s,
            _ => added_text(lines.drop_last()),
        }
    }
}

/// The texts of the added lines of hunks, in a row.
pub open spec fn added_texts(hunks: Seq<HunkModel>) -> Seq<char>
    decreases hunks.len(),
{
    if hunks.len() == 0 {
        Seq::empty()
    } else {
        added_texts(hunks.drop_last()) + added_text(hunks.last().lines)
    }
}

/// What is done with a symbolic link that a patch describes.
#[derive(Debug)]
pub enum LinkStep {
    /// It is removed.
    Remove,
    /// Nothing: the patch does not say where it leads.
    NoTarget,
    /// It is made to lead here.
    Create(String),
}

fn append_added(out: &mut String, hunk: &Hunk)
    ensures
        final(out)@ == old(out)@ + added_text(hunk@.lines),
{
    let ghost all = hunk@.lines;
    let ghost out0 = out@;
    let mut i: usize = 0;
    proof {
        assert(all.take(0) =~= Seq::empty());
        assert(out0 + Seq::<char>::empty() =~= out0);
    }
    while i < hunk.lines.len()
        invariant
            all == hunk@.lines,
            out0 == old(out)@,
            i <= hunk.lines@.len(),
            out@ == out0 + added_text(all.take(i as int)),
        decreases hunk.lines@.len() - i,
    {
        proof {
            assert(all.take(i + 1).drop_last() =~= all.take(i as int));
            assert(all.take(i + 1).last() == hunk.lines@[i as int]@);
        }
        match &hunk.lines[i] {
            HunkLine::Add(s) => {
                let ghost before = added_text(all.take(i as int));
                out.append(s.as_str());
                assert(out0 + before + s@ =~= out0 + (before + s@));
            },
            _ => {},
        }
        i = i + 1;
    }
    assert(all.take(i as int) =~= all);
}

/// Decides what is done with a symbolic link: what the added lines say is
/// where it leads.
pub fn link_step(patch: &FilePatch) -> (r: LinkStep)
    ensures
        match r {
            LinkStep::Remove => patch@.git.deleted_file_mode is Some,
            LinkStep::NoTarget => patch@.git.deleted_file_mode is None && added_texts(
                patch@.hunks,
            ).len() == 0,
            LinkStep::Create(text) => patch@.git.deleted_file_mode is None && text@.len() > 0
                && text@ == added_texts(patch@.hunks),
        },
{
    if patch.git.deleted_file_mode.is_some() {
        return LinkStep::Remove;
    }
    let ghost all = patch@.hunks;
    let mut text = String::new();
    let mut i: usize = 0;
    assert(all.take(0) =~= Seq::empty());
    while i < patch.hunks.len()
        invariant
            all == patch@.hunks,
            i <= patch.hunks@.len(),
            text@ == added_texts(all.take(i as int)),
        decreases patch.hunks@.len() - i,
    {
        proof {
            assert(all.take(i + 1).drop_last() =~= all.take(i as int));
            assert(all.take(i + 1).last() == patch.hunks@[i as int]@);
        }
        append_added(&mut text, &patch.hunks[i]);
        i = i + 1;
    }
    assert(all.take(i as int) =~= all);
    if text.as_str().is_empty() {
        LinkStep::NoTarget
    } else {
        LinkStep::Create(text)
    }
}

/// What a git header without hunks does to its file.
#[derive(Debug, Clone, Copy, PartialEq, Eq, Structural)]
pub enum HeaderStep {
    /// It deletes binary content, which cannot be compared: the file stays. It
    /// may be backed up.
    Keep { backup: bool },
    Delete,
    /// It creates an empty file with this mode.
    Create { mode: u32 },
    SetMode { mode: u32 },
    Nothing,
}

/// What a git header without hunks does to its file. In a dry run it does
/// nothing, and neither does it with binary content.
pub open spec fn header_action(git: GitModel, o: OptionsModel) -> HeaderStep {
    if git.binary_payload {
        HeaderStep::Nothing
    } else if git.deleted_file_mode is Some && git.binary_summary {
        HeaderStep::Keep { backup: o.on.backup && !o.on.dry_run }
    } else if o.on.dry_run {
        HeaderStep::Nothing
    } else if git.deleted_file_mode is Some {
        HeaderStep::Delete
    } else if let Some(mode) = git.new_file_mode {
        HeaderStep::Create { mode }
    } else if let Some(mode) = git.new_mode {
        HeaderStep::SetMode { mode }
    } else {
        HeaderStep::Nothing
    }
}

/// The mode that a patch with hunks gives its file: the changed mode in the
/// direction of application, or else that of a new file. A dry run gives none.
pub open spec fn mode_given(git: GitModel, o: OptionsModel) -> Option<u32> {
    let change = if o.on.reverse {
        git.old_mode
    } else {
        git.new_mode
    };
    if o.on.dry_run {
        None
    } else if change is Some {
        change
    } else {
        git.new_file_mode
    }
}

/// The mode on an `index` line is never given to a file.
pub proof fn law_index_mode_is_never_applied(git: GitModel, other: Option<u32>, o: OptionsModel)
    ensures
        header_action(GitModel { index_mode: other, ..git }, o) == header_action(git, o),
        mode_given(GitModel { index_mode: other, ..git }, o) == mode_given(git, o),
{
}

/// What a git header without hunks does to its file.
pub fn header_step(git: &GitMeta, opts: &Options) -> (r: HeaderStep)
    ensures
        r == header_action(git@, opts@),
{
    if git.binary_payload {
        HeaderStep::Nothing
    } else if git.deleted_file_mode.is_some() && git.binary_summary {
        HeaderStep::Keep { backup: opts.on.backup && !opts.on.dry_run }
    } else if opts.on.dry_run {
        HeaderStep::Nothing
    } else if git.deleted_file_mode.is_some() {
        HeaderStep::Delete
    } else if let Some(mode) = git.new_file_mode {
        HeaderStep::Create { mode }
    } else if let Some(mode) = git.new_mode {
        HeaderStep::SetMode { mode }
    } else {
        HeaderStep::Nothing
    }
}

/// The mode that a patch with hunks gives its file.
pub fn mode_after(git: &GitMeta, opts: &Options) -> (r: Option<u32>)
    ensures
        r == mode_given(git@, opts@),
{
    if opts.on.dry_run {
        return None;
    }
    let change = if opts.on.reverse {
        git.old_mode
    } else {
        git.new_mode
    };
    if change.is_some() {
        change
    } else {
        git.new_file_mode
    }
}

/// The patch makes, changes or removes a symbolic link. A dry run leaves links
/// alone, and so does binary content.
pub open spec fn changes_link(git: GitModel, o: OptionsModel) -> bool {
    describes_link(git) && !o.on.dry_run && !git.binary_payload
}

/// A patch with binary content leaves its file as it is.
pub proof fn law_binary_content_changes_nothing(git: GitModel, o: OptionsModel, f: MoveFacts)
    requires
        git.binary_payload,
    ensures
        planned_move(git, o, f) is Stay || planned_move(git, o, f) is Refuse,
        header_action(git, o) == HeaderStep::Nothing,
        !changes_link(git, o),
{
}

/// Whether the patch makes, changes or removes a symbolic link.
pub fn patches_link(git: &GitMeta, opts: &Options) -> (r: bool)
    ensures
        r == changes_link(git@, opts@),
{
    is_symlink_patch(git) && !opts.on.dry_run && !git.binary_payload
}

/// The time, in seconds from the epoch, that a patch gives its file: the one
/// in the header of the new file, or of the old file in reverse, when that is
/// asked for, nothing failed, and this is no dry run.
pub open spec fn time_of(p: PatchModel, o: OptionsModel, failures: nat) -> Option<int> {
    let header = if o.on.reverse {
        p.old_header
    } else {
        p.new_header
    };
    if (o.on.set_utc || o.on.set_time) && failures == 0 && !o.on.dry_run {
        match timestamp_field("--- "@ + header) {
            Some(ts) => timestamp_seconds(ts),
            None => None,
        }
    } else {
        None
    }
}

/// The time, in seconds from the epoch, that a patch gives its file.
pub fn time_after(patch: &FilePatch, opts: &Options, failures: usize) -> (r: Option<i64>)
    ensures
        match r {
            Some(n) => time_of(patch@, opts@, failures as nat) == Some(n as int),
            None => time_of(patch@, opts@, failures as nat) is None,
        },
{
    if !(opts.on.set_utc || opts.on.set_time) || failures > 0 || opts.on.dry_run {
        return None;
    }
    let mut line = "--- ".to_owned();
    if opts.on.reverse {
        line.append(patch.old_header.as_str());
    } else {
        line.append(patch.new_header.as_str());
    }
    match extract_timestamp_field(line.as_str()) {
        Some(ts) => parse_header_timestamp(ts, opts.on.set_utc),
        None => None,
    }
}

// ---------------------------------------------------------------------------
// Content
// ---------------------------------------------------------------------------

/// Where the content that hunks are carried out on comes from.
#[derive(Debug, Clone, Copy, PartialEq, Eq, Structural)]
pub enum Source {
    /// What an earlier patch of this run made of the file.
    Cached,
    /// The file.
    Disk,
    /// Nowhere: it is empty.
    Empty,
    /// Nowhere: the file is missing.
    Missing,
}

/// The patch makes a file out of nothing.
pub open spec fn starts_empty(p: PatchModel) -> bool {
    is_null(p.old_file) || p.old_file.len() == 0
}

/// No hunk has lines of the old file.
pub open spec fn only_adds(hunks: Seq<HunkModel>) -> bool {
    forall|i: int| 0 <= i < hunks.len() ==> (#[trigger] hunks[i]).old_count == 0
}

/// Where the content comes from. `cached` says whether an earlier patch of this
/// run changed the file.
pub open spec fn content_from(p: PatchModel, o: OptionsModel, cached: bool, exists: bool) -> Source {
    if !starts_empty(p) && cached {
        Source::Cached
    } else if exists {
        Source::Disk
    } else if starts_empty(p) || p.git.new_file_mode is Some || only_adds(p.hunks) || (deletes_file(
        p,
        o,
    ) && o.on.force) {
        Source::Empty
    } else {
        Source::Missing
    }
}

/// A patch that makes a file out of nothing never starts from what an earlier
/// patch made of the file.
pub proof fn law_creation_skips_cache(p: PatchModel, o: OptionsModel, cached: bool, exists: bool)
    requires
        starts_empty(p),
    ensures
        content_from(p, o, cached, exists) != Source::Cached,
        content_from(p, o, cached, exists) != Source::Missing,
{
}

fn adds_only(patch: &FilePatch) -> (r: bool)
    ensures
        r == only_adds(patch@.hunks),
{
    let mut i: usize = 0;
    while i < patch.hunks.len()
        invariant
            i <= patch.hunks@.len(),
            forall|j: int| 0 <= j < i ==> (#[trigger] patch@.hunks[j]).old_count == 0,
        decreases patch.hunks@.len() - i,
    {
        assert(patch@.hunks[i as int] == patch.hunks@[i as int]@);
        if patch.hunks[i].old_count != 0 {
            return false;
        }
        i = i + 1;
    }
    true
}

/// Decides where the content comes from.
pub fn content_source(patch: &FilePatch, opts: &Options, cached: bool, exists: bool) -> (r: Source)
    ensures
        r == content_from(patch@, opts@, cached, exists),
{
    let creates = str_eq(patch.old_file.as_str(), "/dev/null")
        || patch.old_file.as_str().is_empty();
    if !creates && cached {
        return Source::Cached;
    }
    if exists {
        return Source::Disk;
    }
    let old = strip_path_opt(patch.old_file.as_str(), opts.strip);
    let new = strip_path_opt(patch.new_file.as_str(), opts.strip);
    let deletes = str_eq(new.as_str(), "/dev/null") && !old.as_str().is_empty() && !str_eq(
        old.as_str(),
        "/dev/null",
    );
    if creates || patch.git.new_file_mode.is_some() || adds_only(patch) || (deletes
        && opts.on.force) {
        Source::Empty
    } else {
        Source::Missing
    }
}

/// What a patch makes of a file.
#[derive(Debug)]
pub struct Patched {
    pub run: Run,
    /// What is said of failures, after rejects are saved.
    pub summary: Vec<String>,
    /// What is done with the file; `None` when it is not touched.
    pub outcome: Option<Outcome>,
}

/// How the hunks of a patch are carried out.
pub open spec fn manner_of(
    p: PatchModel,
    o: OptionsModel,
    reverse: bool,
    strip_cr: bool,
    target_has_crlf: bool,
) -> Manner {
    Manner {
        fuzz: o.fuzz,
        reverse,
        strip_cr,
        silent: o.on.silent,
        verbose: o.on.verbose,
        forward: o.on.forward,
        endings_differ: o.on.binary && hunks_have_cr(p.hunks) && !target_has_crlf,
    }
}

/// The lines of the file after the hunks.
pub open spec fn hunks_done(
    p: PatchModel,
    o: OptionsModel,
    content: Seq<char>,
    m: Manner,
    refuse: bool,
) -> Result<RunModel, ApplyError> {
    let lines = file_lines(content, o.on.binary);
    if refuse {
        Ok(after_refusal(lines, p.hunks, p.hunks.len() as int, o.on.silent))
    } else {
        after_hunks(
            RunModel { lines, delta: 0, messages: Seq::empty(), failed: Seq::empty() },
            p.hunks,
            0,
            m,
        )
    }
}

/// The file is touched: this is not only a check, and a hunk was carried out.
pub open spec fn is_touched(p: PatchModel, o: OptionsModel, failed: nat) -> bool {
    !o.on.dry_run && !(p.hunks.len() > 0 && failed == p.hunks.len())
}

/// The content has carriage returns before newlines that are put back at the
/// end.
pub open spec fn keeps_crlf(content: Seq<char>, o: OptionsModel) -> bool {
    !o.on.binary && has_text(content, "\r\n"@)
}

/// Carries out a patch on the content of a file: its hunks, what is said of
/// them, and what is done with the file. `target` is the file's name as it is
/// shown; `refuse` says that the hunks fail untried.
pub fn patch_content(
    patch: &FilePatch,
    opts: &Options,
    target: &str,
    content: &str,
    reverse: bool,
    strip_cr: bool,
    refuse: bool,
    target_has_crlf: bool,
) -> (r: Result<Patched, ApplyError>)
    ensures
        ({
            let m = manner_of(patch@, opts@, reverse, strip_cr, target_has_crlf);
            let done = hunks_done(patch@, opts@, content@, m, refuse);
            match r {
                Err(e) => done == Err::<RunModel, _>(e),
                Ok(patched) => {
                    let run = patched.run@;
                    let failed = run.failed.len();
                    let crlf = keeps_crlf(content@, opts@);
                    let text = new_text(run.lines, content@, crlf);
                    &&& done == Ok::<_, ApplyError>(run)
                    &&& failed_in_order(run.failed, patch@.hunks.len() as int)
                    &&& texts(patched.summary@) == failure_lines(
                        opts@,
                        target@,
                        failed,
                        patch@.hunks.len(),
                    )
                    &&& patched.outcome is Some == is_touched(patch@, opts@, failed)
                    &&& patched.outcome matches Some(o) ==> {
                        &&& o.text@ == text
                        &&& o.remove == is_removed(patch@, opts@, reverse, failed, text, crlf)
                        &&& o.failures == if keeps_rest(
                            patch@,
                            opts@,
                            reverse,
                            failed,
                            text,
                            crlf,
                        ) {
                            1
                        } else {
                            failed
                        }
                        &&& texts(o.messages@) == if keeps_rest(
                            patch@,
                            opts@,
                            reverse,
                            failed,
                            text,
                            crlf,
                        ) && !opts@.on.silent {
                            Seq::empty().push(kept_text(target@))
                        } else {
                            Seq::empty()
                        }
                    }
                },
            }
        }),
{
    let total = patch.hunks.len();
    assert(total == patch@.hunks.len());
    let lines = split_content(content, opts.on.binary);
    let m = Manner {
        fuzz: opts.fuzz,
        reverse,
        strip_cr,
        silent: opts.on.silent,
        verbose: opts.on.verbose,
        forward: opts.on.forward,
        endings_differ: opts.on.binary && patch_has_cr(patch) && !target_has_crlf,
    };
    let run = if refuse {
        refuse_hunks(lines, patch, opts.on.silent)
    } else {
        match apply_hunks(lines, patch, m) {
            Ok(run) => run,
            Err(e) => {
                return Err(e);
            },
        }
    };
    let failed = run.failed.len();
    let summary = failure_summary(opts, target, failed, total);
    if opts.on.dry_run || (total > 0 && failed == total) {
        return Ok(Patched { run, summary, outcome: None });
    }
    let crlf = !opts.on.binary && contains_text(content, "\r\n");
    let text = output_text(&run.lines, content, crlf);
    let outcome = finish(patch, opts, target, reverse, failed, text, crlf);
    Ok(Patched { run, summary, outcome: Some(outcome) })
}

// ---------------------------------------------------------------------------
// Files that are written more than once
// ---------------------------------------------------------------------------

/// Whether what is written to the output file of the command line goes after
/// what an earlier patch of this run wrote there. Remembers the file.
pub fn appends_output(written: &mut PathSet, opts: &Options, path: &str) -> (r: bool)
    requires
        old(written).well_formed(),
    ensures
        final(written).well_formed(),
        r == (opts@.output is Some && old(written)@.contains(path@)),
        final(written)@ == if opts@.output is Some {
            old(written)@.insert(path@)
        } else {
            old(written)@
        },
{
    opts.output.is_some() && !written.insert(path)
}

/// Hunks that failed are saved as rejects. A dry run saves none.
pub open spec fn keeps_rejects(o: OptionsModel, failed: nat) -> bool {
    failed > 0 && !o.on.dry_run
}

/// Whether hunks that failed are saved as rejects.
pub fn saves_rejects(opts: &Options, failed: usize) -> (r: bool)
    ensures
        r == keeps_rejects(opts@, failed as nat),
{
    failed > 0 && !opts.on.dry_run
}

/// Whether rejects go after those that an earlier patch of this run saved in
/// the same file. Remembers the file.
pub fn appends_rejects(written: &mut PathSet, path: &str) -> (r: bool)
    requires
        old(written).well_formed(),
    ensures
        final(written).well_formed(),
        r == old(written)@.contains(path@),
        final(written)@ == old(written)@.insert(path@),
{
    !written.insert(path)
}

// ---------------------------------------------------------------------------
// Backups
// ---------------------------------------------------------------------------

/// The old name is the new name with `.orig`: the old name asks for a backup
/// under it. A dry run makes none.
pub open spec fn asks_for_backup(p: PatchModel, o: OptionsModel) -> bool {
    let old = stripped_opt(p.old_file, o.strip);
    let new = stripped_opt(p.new_file, o.strip);
    &&& !o.on.dry_run
    &&& !is_null(old)
    &&& !is_null(new)
    &&& has_suffix(old, ".orig"@)
    &&& old.take(old.len() - 5) == new
}

/// The backup that the names of a patch ask for.
pub fn implicit_backup(patch: &FilePatch, opts: &Options) -> (r: Option<String>)
    ensures
        match r {
            Some(path) => asks_for_backup(patch@, opts@) && path@ == seen_from(
                base_of(opts@),
                stripped_opt(patch@.old_file, opts@.strip),
            ),
            None => !asks_for_backup(patch@, opts@),
        },
{
    let old = strip_path_opt(patch.old_file.as_str(), opts.strip);
    let new = strip_path_opt(patch.new_file.as_str(), opts.strip);
    proof {
        reveal_strlit(".orig");
    }
    if opts.on.dry_run || str_eq(old.as_str(), "/dev/null") || str_eq(new.as_str(), "/dev/null") {
        return None;
    }
    match strip_suffix(old.as_str(), ".orig") {
        Some(stem) => if str_eq(stem, new.as_str()) {
            Some(join_path(base_directory(opts), old.as_str()))
        } else {
            None
        },
        None => None,
    }
}

/// The file is backed up before it is written.
pub open spec fn is_backed_up(o: OptionsModel, exists: bool, failures: nat) -> bool {
    &&& o.on.backup
    &&& exists
    &&& failures == 0 || !o.on.no_backup_if_mismatch
    &&& !o.on.dry_run
}

/// Whether the file is backed up before it is written.
pub fn wants_backup(opts: &Options, exists: bool, failures: usize) -> (r: bool)
    ensures
        r == is_backed_up(opts@, exists, failures as nat),
{
    opts.on.backup && exists && (failures == 0 || !opts.on.no_backup_if_mismatch)
        && !opts.on.dry_run
}

// ---------------------------------------------------------------------------
// Dry runs
// ---------------------------------------------------------------------------

/// In a dry run no decision on an input changes a file: no script is run, and
/// nothing is copied.
pub proof fn law_dry_run_runs_nothing(
    input: Seq<char>,
    o: OptionsModel,
    patches: Seq<PatchModel>,
    binary_seen: bool,
)
    requires
        o.on.dry_run,
    ensures
        run_plan(input, o, patches, binary_seen) != RunPlan::CopyInput,
        ed_plan(input, o) matches EdPlanModel::Run(runs) ==> runs.len() == 0,
{
}

/// In a dry run no decision on a patch changes a file: nothing is renamed,
/// copied, created, deleted, written or backed up, no link is changed, no mode
/// or time is set, and no rejects are saved.
pub proof fn law_dry_run_changes_nothing(
    p: PatchModel,
    o: OptionsModel,
    names: MoveFacts,
    target: Seq<char>,
    facts: TargetFacts,
    already_renamed: bool,
    cr_told: bool,
    exists: bool,
    failed: nat,
)
    requires
        o.on.dry_run,
    ensures
        planned_move(p.git, o, names) is Stay || planned_move(p.git, o, names) is Refuse,
        header_action(p.git, o) == HeaderStep::Nothing || header_action(p.git, o) == (
        HeaderStep::Keep { backup: false }),
        !changes_link(p.git, o),
        preflight_check(p, o, target, facts, already_renamed, cr_told).1 matches
            VerdictModel::Refuse { save } ==> !save,
        !is_touched(p, o, failed),
        !keeps_rejects(o, failed),
        !asks_for_backup(p, o),
        !is_backed_up(o, exists, failed),
        mode_given(p.git, o) is None,
        time_of(p, o, failed) is None,
{
}

// ---------------------------------------------------------------------------
// Exit statuses
// ---------------------------------------------------------------------------

/// The exit status that a plan for the input ends the run with; `None` where
/// the run goes on.
pub fn plan_status(plan: RunPlan) -> (r: Option<i32>)
    ensures
        r == match plan {
            RunPlan::BinaryOnly => Some(EXIT_HUNKS_FAILED),
            RunPlan::Nothing => Some(EXIT_SUCCESS),
            RunPlan::Garbage => Some(EXIT_TROUBLE),
            RunPlan::CopyInput | RunPlan::EdScript | RunPlan::Patches => None,
        },
{
    match plan {
        RunPlan::BinaryOnly => Some(EXIT_HUNKS_FAILED),
        RunPlan::Nothing => Some(EXIT_SUCCESS),
        RunPlan::Garbage => Some(EXIT_TROUBLE),
        RunPlan::CopyInput | RunPlan::EdScript | RunPlan::Patches => None,
    }
}

/// The exit status that a plan for a script ends the run with; `None` where its
/// scripts are run. A script without a file is passed over under `--force`, and
/// otherwise it is garbage.
pub fn ed_status(plan: &EdPlan, opts: &Options) -> (r: Option<i32>)
    ensures
        r == match plan@ {
            EdPlanModel::Shell => Some(EXIT_TROUBLE),
            EdPlanModel::NoFile => if opts@.on.force {
                Some(EXIT_HUNKS_FAILED)
            } else {
                Some(EXIT_TROUBLE)
            },
            EdPlanModel::Run(_) => None,
        },
{
    match plan {
        EdPlan::Shell => Some(EXIT_TROUBLE),
        EdPlan::NoFile => if opts.on.force {
            Some(EXIT_HUNKS_FAILED)
        } else {
            Some(EXIT_TROUBLE)
        },
        EdPlan::Run(_) => None,
    }
}

/// The exit status of a patch that ends with its move; `None` where it goes on.
/// `done` says whether the move, if there is one, was made.
pub fn move_status(step: &Move, done: bool) -> (r: Option<i32>)
    ensures
        r == match step@ {
            MoveModel::Refuse => Some(EXIT_HUNKS_FAILED),
            MoveModel::Stay => None,
            MoveModel::Rename { .. } | MoveModel::Copy { .. } => if done {
                None
            } else {
                Some(EXIT_TROUBLE)
            },
        },
{
    match step {
        Move::Refuse => Some(EXIT_HUNKS_FAILED),
        Move::Stay => None,
        Move::Rename { .. } | Move::Copy { .. } => if done {
            None
        } else {
            Some(EXIT_TROUBLE)
        },
    }
}

/// The exit status of a patch that ends with the check of its names; `None`
/// where it goes on.
pub fn name_status(verdict: NameVerdict) -> (r: Option<i32>)
    ensures
        r == match verdict {
            NameVerdict::Skip => Some(EXIT_HUNKS_FAILED),
            NameVerdict::Garbage => Some(EXIT_TROUBLE),
            NameVerdict::Go => None,
        },
{
    match verdict {
        NameVerdict::Skip => Some(EXIT_HUNKS_FAILED),
        NameVerdict::Garbage => Some(EXIT_TROUBLE),
        NameVerdict::Go => None,
    }
}

/// The exit status of a patch for which no file is chosen; `None` where one is.
pub fn target_status(target: &Option<String>) -> (r: Option<i32>)
    ensures
        r == match target {
            Some(_) => None,
            None => Some(EXIT_HUNKS_FAILED),
        },
{
    match target {
        Some(_) => None,
        None => Some(EXIT_HUNKS_FAILED),
    }
}

/// The exit status of a patch that ends before anything is done with its file;
/// `None` where it goes on.
pub fn verdict_status(verdict: &Verdict) -> (r: Option<i32>)
    ensures
        r == match verdict@ {
            VerdictModel::Refuse { .. } => Some(EXIT_HUNKS_FAILED),
            VerdictModel::Abort { .. } => Some(EXIT_TROUBLE),
            VerdictModel::Go { .. } => None,
        },
{
    match verdict {
        Verdict::Refuse { .. } => Some(EXIT_HUNKS_FAILED),
        Verdict::Abort { .. } => Some(EXIT_TROUBLE),
        Verdict::Go { .. } => None,
    }
}

/// The exit status of a patch that describes a symbolic link. `done` says
/// whether the link was removed or made.
pub fn link_status(step: &LinkStep, done: bool) -> (r: i32)
    ensures
        r == match step {
            LinkStep::NoTarget => EXIT_HUNKS_FAILED,
            LinkStep::Remove | LinkStep::Create(_) => if done {
                EXIT_SUCCESS
            } else {
                EXIT_TROUBLE
            },
        },
{
    match step {
        LinkStep::NoTarget => EXIT_HUNKS_FAILED,
        LinkStep::Remove | LinkStep::Create(_) => if done {
            EXIT_SUCCESS
        } else {
            EXIT_TROUBLE
        },
    }
}

/// The exit status of a patch without hunks. `done` says whether the file was
/// removed or made.
pub fn header_status(step: HeaderStep, done: bool) -> (r: i32)
    ensures
        r == match step {
            HeaderStep::Keep { .. } => EXIT_HUNKS_FAILED,
            HeaderStep::Delete | HeaderStep::Create { .. } => if done {
                EXIT_SUCCESS
            } else {
                EXIT_TROUBLE
            },
            HeaderStep::SetMode { .. } | HeaderStep::Nothing => EXIT_SUCCESS,
        },
{
    match step {
        HeaderStep::Keep { .. } => EXIT_HUNKS_FAILED,
        HeaderStep::Delete | HeaderStep::Create { .. } => if done {
            EXIT_SUCCESS
        } else {
            EXIT_TROUBLE
        },
        HeaderStep::SetMode { .. } | HeaderStep::Nothing => EXIT_SUCCESS,
    }
}

/// The exit status of a patch that ends for want of content; `None` where there
/// is some. `readable` says whether the file, where it has the content, could be
/// read.
pub fn source_status(source: Source, readable: bool) -> (r: Option<i32>)
    ensures
        r == match source {
            Source::Missing => Some(EXIT_TROUBLE),
            Source::Disk => if readable {
                None
            } else {
                Some(EXIT_TROUBLE)
            },
            Source::Cached | Source::Empty => None,
        },
{
    match source {
        Source::Missing => Some(EXIT_TROUBLE),
        Source::Disk => if readable {
            None
        } else {
            Some(EXIT_TROUBLE)
        },
        Source::Cached | Source::Empty => None,
    }
}

/// The exit status of a patch whose hunks were tried: the failures of what is
/// done with the file count, or the failed hunks where it is not touched.
pub fn patched_status(patched: &Patched) -> (r: i32)
    ensures
        r == if (match patched.outcome {
            Some(outcome) => outcome.failures > 0,
            None => patched.run@.failed.len() > 0,
        }) {
            EXIT_HUNKS_FAILED
        } else {
            EXIT_SUCCESS
        },
{
    match &patched.outcome {
        Some(outcome) => exit_status(outcome.failures),
        None => exit_status(patched.run.failed.len()),
    }
}

} // verus!
