//! Normal diffs.
use vstd::prelude::*;

use crate::header::{normal_command, parse_normal_command};
use crate::model::{
    hunk_models, line_models, plain_git, DiffFormat, FilePatch, GitMeta, Hunk, HunkLine, HunkModel,
    LineModel, PatchError, PatchModel,
};
use crate::text::{
    drop_cr, has_prefix, slices, split_whitespace, starts_with, str_eq, strip_prefix, texts,
    without_cr, words,
};

verus! {

/// The file names that a `diff` line ends with, or the names so far.
pub open spec fn diff_line_names(
    line: Seq<char>,
    names: (Seq<char>, Seq<char>),
) -> (Seq<char>, Seq<char>) {
    let parts = words(line);
    if has_prefix(line, "diff "@) && parts.len() >= 3 {
        (parts[parts.len() - 2], parts[parts.len() - 1])
    } else {
        names
    }
}

/// Where the commands start, from line `i` on, and the names in the `diff`
/// lines before them.
pub open spec fn normal_start(
    lines: Seq<Seq<char>>,
    i: int,
    names: (Seq<char>, Seq<char>),
) -> Result<(int, (Seq<char>, Seq<char>)), PatchError>
    decreases lines.len() - i,
{
    if i >= lines.len() {
        Ok((i, names))
    } else {
        match normal_command(lines[i]) {
            Err(e) => Err(e),
            Ok(Some(_)) => Ok((i, names)),
            Ok(None) => normal_start(lines, i + 1, diff_line_names(lines[i], names)),
        }
    }
}

/// Where the lines that begin with `mark`, from line `i` on, end.
pub open spec fn run_end(lines: Seq<Seq<char>>, i: int, mark: Seq<char>) -> int
    decreases lines.len() - i,
{
    if i >= lines.len() || !has_prefix(lines[i], mark) {
        i
    } else {
        run_end(lines, i + 1, mark)
    }
}

pub proof fn lemma_run_end(lines: Seq<Seq<char>>, i: int, mark: Seq<char>)
    ensures
        run_end(lines, i, mark) >= i,
        i <= lines.len() ==> run_end(lines, i, mark) <= lines.len(),
    decreases lines.len() - i,
{
    if i < lines.len() && has_prefix(lines[i], mark) {
        lemma_run_end(lines, i + 1, mark);
    }
}

/// The lines from `a` to `b` without their mark, as removals.
pub open spec fn removals(lines: Seq<Seq<char>>, a: int, b: int) -> Seq<LineModel> {
    Seq::new((b - a) as nat, |k: int| LineModel::Remove(lines[a + k].skip(2)))
}

/// The lines from `a` to `b` without their mark, as additions.
pub open spec fn additions(lines: Seq<Seq<char>>, a: int, b: int) -> Seq<LineModel> {
    Seq::new((b - a) as nat, |k: int| LineModel::Add(lines[a + k].skip(2)))
}

/// The number of lines of a range, which must not end before it starts.
pub open spec fn exact_len(start: usize, end: usize) -> Option<usize> {
    if start <= end && end - start < usize::MAX {
        Some((end - start + 1) as usize)
    } else {
        None
    }
}

/// Where the additions of a change start: after the removals and the line
/// `---`, if it is there.
pub open spec fn after_separator(lines: Seq<Seq<char>>, i: int) -> int {
    if i < lines.len() && without_cr(lines[i]) == "---"@ {
        i + 1
    } else {
        i
    }
}

/// The lines of a command whose body starts at line `i`, and where it ends.
pub open spec fn command_body(lines: Seq<Seq<char>>, i: int, cmd: char) -> (Seq<LineModel>, int) {
    if cmd == 'a' {
        let end = run_end(lines, i, "> "@);
        (additions(lines, i, end), end)
    } else if cmd == 'd' {
        let end = run_end(lines, i, "< "@);
        (removals(lines, i, end), end)
    } else {
        let mid = run_end(lines, i, "< "@);
        let from = after_separator(lines, mid);
        let end = run_end(lines, from, "> "@);
        (removals(lines, i, mid) + additions(lines, from, end), end)
    }
}

pub proof fn lemma_command_body(lines: Seq<Seq<char>>, i: int, cmd: char)
    ensures
        command_body(lines, i, cmd).1 >= i,
        i <= lines.len() ==> command_body(lines, i, cmd).1 <= lines.len(),
{
    lemma_run_end(lines, i, "> "@);
    lemma_run_end(lines, i, "< "@);
    lemma_run_end(lines, after_separator(lines, run_end(lines, i, "< "@)), "> "@);
}

/// The hunk that a command and its body describe. An addition has no old
/// lines and a deletion no new ones.
pub open spec fn command_hunk(
    command: (usize, usize, char, usize, usize),
    body: Seq<LineModel>,
) -> Result<HunkModel, PatchError> {
    let (s1, e1, cmd, s2, e2) = command;
    let old_count = if cmd == 'a' {
        Some(0usize)
    } else {
        exact_len(s1, e1)
    };
    let new_count = if cmd == 'd' {
        Some(0usize)
    } else {
        exact_len(s2, e2)
    };
    match (old_count, new_count) {
        (Some(old_count), Some(new_count)) => Ok(
            HunkModel {
                old_start: s1,
                old_count,
                new_start: s2,
                new_count,
                header_suffix: Seq::empty(),
                lines: body,
            },
        ),
        _ => Err(PatchError::NumberOutOfRange),
    }
}

/// The hunks of a normal diff from line `i` on, after the hunks `acc`, and
/// where they end.
pub open spec fn normal_hunks(lines: Seq<Seq<char>>, i: int, acc: Seq<HunkModel>) -> Result<
    (Seq<HunkModel>, int),
    PatchError,
>
    decreases lines.len() - i,
{
    if i >= lines.len() {
        Ok((acc, i))
    } else {
        match normal_command(lines[i]) {
            Err(e) => Err(e),
            Ok(None) => Ok((acc, i)),
            Ok(Some(command)) => {
                let (body, next) = command_body(lines, i + 1, command.2);
                proof {
                    lemma_command_body(lines, i + 1, command.2);
                }
                match command_hunk(command, body) {
                    Err(e) => Err(e),
                    Ok(hunk) => normal_hunks(lines, next, acc.push(hunk)),
                }
            },
        }
    }
}

/// The normal diff from line `start` on: the patch and where it ends, or
/// nothing.
pub open spec fn normal_patch(lines: Seq<Seq<char>>, start: int) -> Result<
    Option<(PatchModel, int)>,
    PatchError,
> {
    match normal_start(lines, start, (Seq::empty(), Seq::empty())) {
        Err(e) => Err(e),
        Ok((first, names)) => match normal_hunks(lines, first, Seq::empty()) {
            Err(e) => Err(e),
            Ok((hunks, next)) => if hunks.len() == 0 {
                Ok(None)
            } else {
                Ok(
                    Some(
                        (
                            PatchModel {
                                old_file: names.0,
                                new_file: names.1,
                                old_header: names.0,
                                new_header: names.1,
                                index_line: None,
                                hunks,
                                format: DiffFormat::Normal,
                                git: plain_git(),
                            },
                            next,
                        ),
                    ),
                )
            },
        },
    }
}

proof fn lemma_normal_start(lines: Seq<Seq<char>>, i: int, names: (Seq<char>, Seq<char>))
    requires
        0 <= i <= lines.len(),
    ensures
        normal_start(lines, i, names) matches Ok((first, n)) ==> i <= first <= lines.len(),
    decreases lines.len() - i,
{
    if i < lines.len() {
        lemma_normal_start(lines, i + 1, diff_line_names(lines[i], names));
    }
}

proof fn lemma_normal_hunks_advance(lines: Seq<Seq<char>>, i: int, acc: Seq<HunkModel>)
    requires
        0 <= i <= lines.len(),
    ensures
        normal_hunks(lines, i, acc) matches Ok((hunks, next)) ==> {
            &&& i <= next <= lines.len()
            &&& hunks.len() > acc.len() ==> i < next
            &&& hunks.len() >= acc.len()
        },
    decreases lines.len() - i,
{
    if i < lines.len() {
        if let Ok(Some(command)) = normal_command(lines[i]) {
            let (body, next) = command_body(lines, i + 1, command.2);
            lemma_command_body(lines, i + 1, command.2);
            if let Ok(hunk) = command_hunk(command, body) {
                lemma_normal_hunks_advance(lines, next, acc.push(hunk));
            }
        }
    }
}

/// A patch ends below the line that reading started at.
pub proof fn lemma_normal_patch_advances(lines: Seq<Seq<char>>, start: int)
    requires
        0 <= start <= lines.len(),
    ensures
        normal_patch(lines, start) matches Ok(Some((patch, next))) ==> start < next <= lines.len(),
{
    lemma_normal_start(lines, start, (Seq::empty(), Seq::empty()));
    if let Ok((first, names)) = normal_start(lines, start, (Seq::empty(), Seq::empty())) {
        lemma_normal_hunks_advance(lines, first, Seq::empty());
    }
}

// ---------------------------------------------------------------------------
// Operations
// ---------------------------------------------------------------------------

/// Appends the lines that begin with `mark`, from line `start` on, to a hunk,
/// as removals or as additions; gives the line after them.
fn take_run(
    lines: &[&str],
    start: usize,
    mark: &str,
    remove: bool,
    body: &mut Vec<HunkLine>,
) -> (r: usize)
    requires
        start <= lines@.len(),
        mark@.len() == 2,
    ensures
        r == run_end(slices(lines@), start as int, mark@),
        start <= r <= lines@.len(),
        line_models(final(body)@) == line_models(old(body)@) + if remove {
            removals(slices(lines@), start as int, r as int)
        } else {
            additions(slices(lines@), start as int, r as int)
        },
{
    let ghost all = slices(lines@);
    let ghost body0 = line_models(body@);
    let n = lines.len();
    let mut i: usize = start;
    proof {
        assert(body0 + removals(all, start as int, i as int) =~= body0);
        assert(body0 + additions(all, start as int, i as int) =~= body0);
    }
    while i < n
        invariant
            all == slices(lines@),
            body0 == line_models(old(body)@),
            n == lines@.len(),
            start <= i <= n,
            mark@.len() == 2,
            run_end(all, i as int, mark@) == run_end(all, start as int, mark@),
            line_models(body@) == body0 + if remove {
                removals(all, start as int, i as int)
            } else {
                additions(all, start as int, i as int)
            },
        decreases n - i,
    {
        assert(all[i as int] == lines@[i as int]@);
        match strip_prefix(lines[i], mark) {
            None => {
                return i;
            },
            Some(rest) => {
                let text = rest.to_owned();
                let ghost before = line_models(body@);
                let line = if remove {
                    HunkLine::Remove(text)
                } else {
                    HunkLine::Add(text)
                };
                let ghost model = line@;
                body.push(line);
                proof {
                    assert(line_models(body@) =~= before.push(model));
                    if remove {
                        assert(line_models(body@) =~= body0 + removals(all, start as int, i + 1));
                    } else {
                        assert(line_models(body@) =~= body0 + additions(all, start as int, i + 1));
                    }
                }
            },
        }
        i = i + 1;
    }
    i
}

/// The number of lines of a range; `None` when it ends before it starts.
fn count_exact(start: usize, end: usize) -> (r: Option<usize>)
    ensures
        r == exact_len(start, end),
{
    if start <= end {
        (end - start).checked_add(1)
    } else {
        None
    }
}

/// Reads the body of a command.
fn read_command_body(lines: &[&str], start: usize, cmd: char) -> (r: (Vec<HunkLine>, usize))
    requires
        start <= lines@.len(),
    ensures
        (line_models(r.0@), r.1 as int) == command_body(slices(lines@), start as int, cmd),
        start <= r.1 <= lines@.len(),
{
    let ghost all = slices(lines@);
    let mut body: Vec<HunkLine> = Vec::new();
    proof {
        reveal_strlit("> ");
        reveal_strlit("< ");
        assert(line_models(body@) =~= Seq::empty());
    }
    if cmd == 'a' {
        let end = take_run(lines, start, "> ", false, &mut body);
        assert(line_models(body@) =~= additions(all, start as int, end as int));
        (body, end)
    } else if cmd == 'd' {
        let end = take_run(lines, start, "< ", true, &mut body);
        assert(line_models(body@) =~= removals(all, start as int, end as int));
        (body, end)
    } else {
        let mid = take_run(lines, start, "< ", true, &mut body);
        assert(line_models(body@) =~= removals(all, start as int, mid as int));
        let mut from: usize = mid;
        if mid < lines.len() {
            assert(all[mid as int] == lines@[mid as int]@);
            if str_eq(drop_cr(lines[mid]), "---") {
                from = mid + 1;
            }
        }
        let end = take_run(lines, from, "> ", false, &mut body);
        (body, end)
    }
}

/// Reads the normal diff from line `start` on: the patch and the line after
/// it, or `None` when there is no patch there.
pub fn parse_normal_patch(lines: &[&str], start: usize) -> (r: Result<
    Option<(FilePatch, usize)>,
    PatchError,
>)
    requires
        start <= lines@.len(),
    ensures
        match r {
            Ok(Some((patch, next))) => normal_patch(slices(lines@), start as int) == Ok::<
                _,
                PatchError,
            >(Some((patch@, next as int))) && start < next <= lines@.len(),
            Ok(None) => normal_patch(slices(lines@), start as int) == Ok::<
                Option<(PatchModel, int)>,
                PatchError,
            >(None),
            Err(e) => normal_patch(slices(lines@), start as int) == Err::<
                Option<(PatchModel, int)>,
                _,
            >(e),
        },
{
    let ghost all = slices(lines@);
    let ghost none: (Seq<char>, Seq<char>) = (Seq::empty(), Seq::empty());
    let n = lines.len();
    let mut i: usize = start;
    let mut old_file = String::new();
    let mut new_file = String::new();
    let mut found = false;
    while !found && i < n
        invariant
            all == slices(lines@),
            none == (Seq::<char>::empty(), Seq::<char>::empty()),
            n == lines@.len(),
            start <= i <= n,
            normal_start(all, i as int, (old_file@, new_file@)) == normal_start(
                all,
                start as int,
                none,
            ),
            found ==> normal_start(all, start as int, none) == Ok::<_, PatchError>(
                (i as int, (old_file@, new_file@)),
            ),
        ensures
            normal_start(all, start as int, none) == Ok::<_, PatchError>(
                (i as int, (old_file@, new_file@)),
            ),
            start <= i <= n,
        decreases n - i, if found { 0int } else { 1int },
    {
        assert(all[i as int] == lines@[i as int]@);
        match parse_normal_command(lines[i]) {
            Err(e) => {
                return Err(e);
            },
            Ok(Some(_)) => {
                found = true;
            },
            Ok(None) => {
                if starts_with(lines[i], "diff ") {
                    let parts = split_whitespace(lines[i]);
                    let k = parts.len();
                    assert(texts(parts@).len() == parts@.len());
                    if k >= 3 {
                        proof {
                            assert(texts(parts@)[k - 2] == parts@[k - 2]@);
                            assert(texts(parts@)[k - 1] == parts@[k - 1]@);
                        }
                        old_file = parts[k - 2].clone();
                        new_file = parts[k - 1].clone();
                    }
                }
                i = i + 1;
            },
        }
    }
    let ghost first = i as int;
    let ghost names = (old_file@, new_file@);
    let mut hunks: Vec<Hunk> = Vec::new();
    let mut done = false;
    assert(hunk_models(hunks@) =~= Seq::empty());
    while !done && i < n
        invariant
            all == slices(lines@),
            n == lines@.len(),
            start <= first <= i <= n,
            hunks@.len() > 0 ==> first < i,
            normal_hunks(all, first, Seq::empty()) matches Err(e) ==> normal_patch(
                all,
                start as int,
            ) == Err::<Option<(PatchModel, int)>, _>(e),
            normal_hunks(all, i as int, hunk_models(hunks@)) == normal_hunks(
                all,
                first,
                Seq::empty(),
            ),
            done ==> normal_hunks(all, first, Seq::empty()) == Ok::<_, PatchError>(
                (hunk_models(hunks@), i as int),
            ),
        ensures
            normal_hunks(all, first, Seq::empty()) == Ok::<_, PatchError>(
                (hunk_models(hunks@), i as int),
            ),
            start <= first <= i <= n,
            hunks@.len() > 0 ==> first < i,
        decreases n - i, if done { 0int } else { 1int },
    {
        assert(all[i as int] == lines@[i as int]@);
        match parse_normal_command(lines[i]) {
            Err(e) => {
                return Err(e);
            },
            Ok(None) => {
                done = true;
            },
            Ok(Some((s1, e1, cmd, s2, e2))) => {
                let (body, next) = read_command_body(lines, i + 1, cmd);
                let old_count = if cmd == 'a' {
                    Some(0)
                } else {
                    count_exact(s1, e1)
                };
                let new_count = if cmd == 'd' {
                    Some(0)
                } else {
                    count_exact(s2, e2)
                };
                match (old_count, new_count) {
                    (Some(old_count), Some(new_count)) => {
                        let ghost before = hunk_models(hunks@);
                        let hunk = Hunk {
                            old_start: s1,
                            old_count,
                            new_start: s2,
                            new_count,
                            header_suffix: String::new(),
                            lines: body,
                        };
                        let ghost model = hunk@;
                        hunks.push(hunk);
                        proof {
                            assert(hunk_models(hunks@) =~= before.push(model));
                            assert(command_hunk((s1, e1, cmd, s2, e2), line_models(body@)) == Ok::<
                                _,
                                PatchError,
                            >(model));
                        }
                        i = next;
                    },
                    _ => {
                        return Err(PatchError::NumberOutOfRange);
                    },
                }
            },
        }
    }
    assert(hunk_models(hunks@).len() == hunks@.len());
    if hunks.len() == 0 {
        return Ok(None);
    }
    let patch = FilePatch {
        old_header: old_file.clone(),
        new_header: new_file.clone(),
        old_file,
        new_file,
        index_line: None,
        hunks,
        format: DiffFormat::Normal,
        git: GitMeta::default(),
    };
    Ok(Some((patch, i)))
}

} // verus!
