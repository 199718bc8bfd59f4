//! What the commands of a normal diff stand for.
use vstd::prelude::*;

use crate::header::normal_command;
use crate::model::{plain_git, DiffFormat, HunkModel, LineModel, PatchError, PatchModel};
use crate::normal::{
    additions, command_body, diff_line_names, normal_hunks, normal_patch, normal_start, removals,
    run_end,
};
use crate::text::{has_prefix, without_cr, words};

verus! {

/// From line `i` on stand these texts, each behind the mark and a space, and no
/// more such lines.
pub open spec fn marked_from(
    lines: Seq<Seq<char>>,
    i: int,
    mark: char,
    block: Seq<Seq<char>>,
) -> bool {
    &&& 0 <= i && i + block.len() <= lines.len()
    &&& forall|k: int| 0 <= k < block.len() ==> #[trigger] lines[i + k] == seq![mark, ' '] + block[k]
    &&& i + block.len() < lines.len() ==> {
        let next = lines[i + block.len()];
        next.len() < 2 || next[0] != mark || next[1] != ' '
    }
}

/// Removals of these texts.
pub open spec fn removing(block: Seq<Seq<char>>) -> Seq<LineModel> {
    block.map_values(|t: Seq<char>| LineModel::Remove(t))
}

/// Additions of these texts.
pub open spec fn adding(block: Seq<Seq<char>>) -> Seq<LineModel> {
    block.map_values(|t: Seq<char>| LineModel::Add(t))
}

proof fn lemma_mark(mark: char)
    requires
        mark == '<' || mark == '>',
    ensures
        mark == '<' ==> "< "@ == seq![mark, ' '],
        mark == '>' ==> "> "@ == seq![mark, ' '],
{
    reveal_strlit("< ");
    reveal_strlit("> ");
    assert(mark == '<' ==> "< "@ =~= seq![mark, ' ']);
    assert(mark == '>' ==> "> "@ =~= seq![mark, ' ']);
}

proof fn lemma_run(lines: Seq<Seq<char>>, i: int, mark: char, block: Seq<Seq<char>>)
    requires
        marked_from(lines, i, mark, block),
    ensures
        run_end(lines, i, seq![mark, ' ']) == i + block.len(),
    decreases block.len(),
{
    let m = seq![mark, ' '];
    if block.len() > 0 {
        assert(lines[i + 0] == m + block[0]);
        assert(lines[i].take(2) =~= m);
        let rest = block.skip(1);
        assert forall|k: int| 0 <= k < rest.len() implies #[trigger] lines[i + 1 + k] == m
            + rest[k] by {
            assert(lines[i + (k + 1)] == m + block[k + 1]);
        }
        lemma_run(lines, i + 1, mark, rest);
    } else if i < lines.len() {
        let next = lines[i + block.len()];
        if has_prefix(next, m) {
            assert(next.take(2)[0] == mark && next.take(2)[1] == ' ');
        }
    }
}

proof fn lemma_texts(lines: Seq<Seq<char>>, i: int, mark: char, block: Seq<Seq<char>>)
    requires
        marked_from(lines, i, mark, block),
    ensures
        removals(lines, i, i + block.len()) == removing(block),
        additions(lines, i, i + block.len()) == adding(block),
{
    assert forall|k: int| 0 <= k < block.len() implies (#[trigger] lines[i + k]).skip(2)
        == block[k] by {
        assert((seq![mark, ' '] + block[k]).skip(2) =~= block[k]);
    }
    assert(removals(lines, i, i + block.len()) =~= removing(block));
    assert(additions(lines, i, i + block.len()) =~= adding(block));
}

/// The lines below an `a` command, each behind `> `, are added, in order and all
/// of them.
pub proof fn law_append_adds_its_lines(lines: Seq<Seq<char>>, i: int, block: Seq<Seq<char>>)
    requires
        marked_from(lines, i, '>', block),
    ensures
        command_body(lines, i, 'a') == (adding(block), i + block.len()),
{
    lemma_mark('>');
    lemma_run(lines, i, '>', block);
    lemma_texts(lines, i, '>', block);
}

/// The lines below a `d` command, each behind `< `, are removed, in order and
/// all of them.
pub proof fn law_delete_removes_its_lines(lines: Seq<Seq<char>>, i: int, block: Seq<Seq<char>>)
    requires
        marked_from(lines, i, '<', block),
    ensures
        command_body(lines, i, 'd') == (removing(block), i + block.len()),
{
    lemma_mark('<');
    lemma_run(lines, i, '<', block);
    lemma_texts(lines, i, '<', block);
}

/// The lines below a `c` command behind `< ` are removed, and those behind `> `
/// below them are added. A line `---` stands between them, or none.
pub proof fn law_change_replaces_lines(
    lines: Seq<Seq<char>>,
    i: int,
    old: Seq<Seq<char>>,
    separated: bool,
    new: Seq<Seq<char>>,
)
    requires
        marked_from(lines, i, '<', old),
        separated ==> i + old.len() < lines.len() && (lines[i + old.len()] == seq!['-', '-', '-']
            || lines[i + old.len()] == seq!['-', '-', '-', '\r']),
        separated ==> marked_from(lines, i + old.len() + 1, '>', new),
        !separated ==> marked_from(lines, i + old.len() as int, '>', new),
        !separated ==> new.len() > 0,
    ensures
        command_body(lines, i, 'c') == (
            removing(old) + adding(new),
            i + old.len() + new.len() + if separated {
                1int
            } else {
                0
            },
        ),
{
    reveal_strlit("---");
    assert("---"@ =~= seq!['-', '-', '-']);
    lemma_mark('<');
    lemma_mark('>');
    lemma_run(lines, i, '<', old);
    lemma_texts(lines, i, '<', old);
    let mid = i + old.len();
    if separated {
        assert(without_cr(lines[mid]) =~= "---"@);
        lemma_run(lines, mid + 1, '>', new);
        lemma_texts(lines, mid + 1, '>', new);
    } else {
        assert(lines[mid + 0] == seq!['>', ' '] + new[0]);
        assert(lines[mid][0] == '>');
        assert(without_cr(lines[mid]) != "---"@) by {
            if without_cr(lines[mid]) == "---"@ {
                assert(without_cr(lines[mid])[0] == '-');
            }
        }
        lemma_run(lines, mid, '>', new);
        lemma_texts(lines, mid, '>', new);
    }
}

/// A command becomes one hunk with the ranges that it names and the lines of
/// its body, and reading goes on below the body. An `a` has no old lines and a
/// `d` no new ones.
pub proof fn law_command_is_a_hunk(
    lines: Seq<Seq<char>>,
    i: int,
    acc: Seq<HunkModel>,
    command: (usize, usize, char, usize, usize),
)
    requires
        0 <= i < lines.len(),
        normal_command(lines[i]) == Ok::<_, PatchError>(Some(command)),
        command.2 == 'a' || command.2 == 'c' || command.2 == 'd',
        command.2 != 'a' ==> command.0 <= command.1 && command.1 - command.0 < usize::MAX,
        command.2 != 'd' ==> command.3 <= command.4 && command.4 - command.3 < usize::MAX,
    ensures
        normal_hunks(lines, i, acc) == normal_hunks(
            lines,
            command_body(lines, i + 1, command.2).1,
            acc.push(
                (HunkModel {
                    old_start: command.0,
                    old_count: if command.2 == 'a' {
                        0
                    } else {
                        (command.1 - command.0 + 1) as usize
                    },
                    new_start: command.3,
                    new_count: if command.2 == 'd' {
                        0
                    } else {
                        (command.4 - command.3 + 1) as usize
                    },
                    header_suffix: Seq::empty(),
                    lines: command_body(lines, i + 1, command.2).0,
                }),
            ),
        ),
{
}

/// A command whose range ends before it starts is refused, unless the range is
/// on the side that the command leaves empty.
pub proof fn law_backward_ranges_are_refused(
    lines: Seq<Seq<char>>,
    i: int,
    acc: Seq<HunkModel>,
    command: (usize, usize, char, usize, usize),
)
    requires
        0 <= i < lines.len(),
        normal_command(lines[i]) == Ok::<_, PatchError>(Some(command)),
        (command.2 != 'a' && command.0 > command.1) || (command.2 != 'd' && command.3 > command.4),
    ensures
        normal_hunks(lines, i, acc) == Err::<(Seq<HunkModel>, int), _>(
            PatchError::NumberOutOfRange,
        ),
{
}

/// The hunks end at the first line that is no command, or at the end.
pub proof fn law_hunks_end_at_other_lines(lines: Seq<Seq<char>>, i: int, acc: Seq<HunkModel>)
    requires
        i < lines.len() ==> normal_command(lines[i]) == Ok::<
            Option<(usize, usize, char, usize, usize)>,
            PatchError,
        >(None),
    ensures
        normal_hunks(lines, i, acc) == Ok::<_, PatchError>((acc, i)),
{
}

/// A normal diff is named by the last `diff` line above its first command: its
/// last two words, if there are more, are the old and the new file.
pub proof fn law_diff_line_names_files(
    lines: Seq<Seq<char>>,
    start: int,
    rest: Seq<char>,
    first: Seq<Seq<char>>,
    old: Seq<char>,
    new: Seq<char>,
)
    requires
        0 <= start && start + 1 < lines.len(),
        lines[start] == "diff "@ + rest,
        words(lines[start]) == first + seq![old, new],
        first.len() > 0,
        normal_command(lines[start]) == Ok::<
            Option<(usize, usize, char, usize, usize)>,
            PatchError,
        >(None),
        normal_command(lines[start + 1]) matches Ok(Some(_)),
    ensures
        match normal_hunks(lines, start + 1, Seq::empty()) {
            Err(e) => normal_patch(lines, start) == Err::<Option<(PatchModel, int)>, _>(e),
            Ok((hunks, next)) => hunks.len() > 0 ==> normal_patch(lines, start) == Ok::<
                _,
                PatchError,
            >(
                Some(
                    (
                        (PatchModel {
                            old_file: old,
                            new_file: new,
                            old_header: old,
                            new_header: new,
                            index_line: None,
                            hunks,
                            format: DiffFormat::Normal,
                            git: plain_git(),
                        }),
                        next,
                    ),
                ),
            ),
        },
{
    let line = lines[start];
    assert(line.take("diff "@.len() as int) =~= "diff "@);
    let parts = words(line);
    assert(parts[parts.len() - 2] == old && parts[parts.len() - 1] == new);
    let none = (Seq::<char>::empty(), Seq::<char>::empty());
    assert(diff_line_names(line, none) == (old, new));
    assert(normal_start(lines, start + 1, (old, new)) == Ok::<_, PatchError>(
        (start + 1, (old, new)),
    ));
    assert(normal_start(lines, start, none) == Ok::<_, PatchError>((start + 1, (old, new))));
}

/// Without a `diff` line a normal diff names no file.
pub proof fn law_bare_commands_name_no_file(lines: Seq<Seq<char>>, start: int)
    requires
        0 <= start < lines.len(),
        normal_command(lines[start]) matches Ok(Some(_)),
    ensures
        normal_patch(lines, start) matches Ok(Some((patch, next))) ==> {
            &&& patch.old_file == Seq::<char>::empty() && patch.new_file == Seq::<char>::empty()
            &&& patch.format == DiffFormat::Normal
            &&& normal_hunks(lines, start, Seq::empty()) == Ok::<_, PatchError>(
                (patch.hunks, next),
            )
        },
{
}

} // verus!
