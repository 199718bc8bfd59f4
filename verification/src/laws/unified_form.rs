//! What the lines of a unified diff and of a git header stand for.
use vstd::prelude::*;

use crate::header::{header_suffix, unified_header};
use crate::model::{
    plain_git, DiffFormat, GitModel, HunkModel, LineModel, NotesModel, PatchError, PatchModel,
};
use crate::laws::wording::{
    law_digits_make_a_number, law_octal_numbers, law_trimming, lemma_two_words,
};
use crate::number::{octal, parsed};
use crate::text::{has_prefix, is_white, trimmed, words};
use crate::unified::{
    ends_body, header_file, marked_line, new_len, noted, old_len, payload_end, preamble_from,
    unified_body, unified_hunks, unified_names, unified_patch, unified_rest, without_leading,
    PreambleEnd, PreambleModel,
};

verus! {

// ---------------------------------------------------------------------------
// Bodies of hunks
// ---------------------------------------------------------------------------

/// A line of a hunk is its text behind a minus, a plus or a space.
pub proof fn law_marks_of_a_unified_hunk(t: Seq<char>)
    ensures
        marked_line(seq!['-'] + t) == Some(LineModel::Remove(t)),
        marked_line(seq!['+'] + t) == Some(LineModel::Add(t)),
        marked_line(seq![' '] + t) == Some(LineModel::Context(t)),
        t.len() == 0 || (t[0] != '-' && t[0] != '+' && t[0] != ' ') ==> marked_line(t) is None,
{
    reveal_strlit("-");
    reveal_strlit("+");
    reveal_strlit(" ");
    let (a, b, c) = (seq!['-'] + t, seq!['+'] + t, seq![' '] + t);
    assert("-"@.len() == 1 && "+"@.len() == 1 && " "@.len() == 1);
    assert("-"@[0] == '-' && "+"@[0] == '+' && " "@[0] == ' ');
    assert(a.take(1) =~= "-"@ && a.skip(1) =~= t);
    assert(b.take(1) =~= "+"@ && b.skip(1) =~= t && b.take(1)[0] == '+');
    assert(c.take(1) =~= " "@ && c.skip(1) =~= t && c.take(1)[0] == ' ');
    if t.len() > 0 {
        assert(t.take(1)[0] == t[0]);
    }
}

pub proof fn lemma_lengths(lines: Seq<LineModel>)
    ensures
        old_len(lines) == lines.filter(|l: LineModel| !(l is Add)).len(),
        new_len(lines) == lines.filter(|l: LineModel| !(l is Remove)).len(),
    decreases lines.len(),
{
    reveal(Seq::filter);
    if lines.len() > 0 {
        lemma_lengths(lines.drop_last());
    }
}

/// The lines so far fall short of the header: fewer than `old_count` of them
/// are not added, or fewer than `new_count` are not removed.
pub open spec fn falls_short(lines: Seq<LineModel>, old_count: usize, new_count: usize) -> bool {
    ||| lines.filter(|l: LineModel| !(l is Add)).len() < old_count
    ||| lines.filter(|l: LineModel| !(l is Remove)).len() < new_count
}

/// The line begins another hunk, another file or another diff.
pub open spec fn begins_another(line: Seq<char>) -> bool {
    ||| line.len() >= 2 && line.subrange(0, 2) == seq!['@', '@']
    ||| line.len() >= 4 && line.subrange(0, 4) == seq!['-', '-', '-', ' ']
    ||| line.len() >= 5 && line.subrange(0, 5) == seq!['d', 'i', 'f', 'f', ' ']
}

proof fn lemma_begins_another(line: Seq<char>)
    ensures
        begins_another(line) == ends_body(line),
{
    reveal_strlit("@@");
    reveal_strlit("--- ");
    reveal_strlit("diff ");
    assert("@@"@ =~= seq!['@', '@']);
    assert("--- "@ =~= seq!['-', '-', '-', ' ']);
    assert("diff "@ =~= seq!['d', 'i', 'f', 'f', ' ']);
    assert(line.len() >= 2 ==> line.take(2) =~= line.subrange(0, 2));
    assert(line.len() >= 4 ==> line.take(4) =~= line.subrange(0, 4));
    assert(line.len() >= 5 ==> line.take(5) =~= line.subrange(0, 5));
}

/// The body of a hunk is read line by line. It ends at the end of the text and
/// where another hunk, file or diff begins. Marked lines belong to it whatever
/// the header says. The remark that there is no newline says nothing. Any other
/// line ends a body that is complete; in one that falls short an empty line is
/// empty context, and another line is malformed: the first of these is noted,
/// with its number.
pub proof fn law_body_is_read_line_by_line(
    lines: Seq<Seq<char>>,
    i: int,
    acc: Seq<LineModel>,
    old_count: usize,
    new_count: usize,
    notes: NotesModel,
)
    requires
        0 <= i <= lines.len() < usize::MAX,
    ensures
        ({
            let line = lines[i];
            let body = unified_body(lines, i, acc, old_count, new_count, notes);
            let remark = "\\ No newline at end of file"@;
            let other = !begins_another(line) && marked_line(line) is None && line != remark;
            &&& i == lines.len() ==> body == (acc, i, notes)
            &&& i < lines.len() && begins_another(line) ==> body == (acc, i, notes)
            &&& i < lines.len() && !begins_another(line) && marked_line(line) is Some ==> body
                == unified_body(
                lines,
                i + 1,
                acc.push(marked_line(line)->0),
                old_count,
                new_count,
                notes,
            )
            &&& i < lines.len() && line == remark ==> body == unified_body(
                lines,
                i + 1,
                acc,
                old_count,
                new_count,
                notes,
            )
            &&& i < lines.len() && other && !falls_short(acc, old_count, new_count) ==> body == (
                acc,
                i,
                notes,
            )
            &&& i < lines.len() && other && falls_short(acc, old_count, new_count) && line.len()
                == 0 ==> body == unified_body(
                lines,
                i + 1,
                acc.push(LineModel::Context(Seq::empty())),
                old_count,
                new_count,
                notes,
            )
            &&& i < lines.len() && other && falls_short(acc, old_count, new_count) && line.len()
                > 0 ==> body.0 == acc && body.1 == i && body.2.binary_files == notes.binary_files
                && body.2.malformed == match notes.malformed {
                Some(first) => Some(first),
                None => Some(((i + 1) as usize, line)),
            }
        }),
{
    lemma_lengths(acc);
    if i < lines.len() {
        lemma_begins_another(lines[i]);
        let remark = "\\ No newline at end of file"@;
        reveal_strlit("\\ No newline at end of file");
        assert(remark[0] == '\\' && remark[1] == ' ' && remark[2] == 'N');
        reveal_strlit("-");
        reveal_strlit("+");
        reveal_strlit(" ");
        reveal_strlit("@@");
        reveal_strlit("--- ");
        reveal_strlit("diff ");
        assert("-"@.len() == 1 && "+"@.len() == 1 && " "@.len() == 1 && "@@"@.len() == 2
            && "--- "@.len() == 4 && "diff "@.len() == 5);
        assert("-"@[0] == '-' && "+"@[0] == '+' && " "@[0] == ' ' && "@@"@[0] == '@' && "--- "@[0]
            == '-' && "diff "@[0] == 'd');
        if lines[i] == remark {
            assert(remark.take(1)[0] == '\\' && remark.take(2)[0] == '\\' && remark.take(4)[0]
                == '\\' && remark.take(5)[0] == '\\');
        }
    }
}

/// A hunk header makes a hunk with the ranges and the text that it gives and the
/// body below it, and reading goes on below the body.
pub proof fn law_header_makes_a_hunk(
    lines: Seq<Seq<char>>,
    i: int,
    acc: Seq<HunkModel>,
    notes: NotesModel,
    ranges: (usize, usize, usize, usize),
)
    requires
        0 <= i < lines.len(),
        has_prefix(lines[i], "@@"@),
        unified_header(lines[i]) == Ok::<_, PatchError>(Some(ranges)),
    ensures
        ({
            let (body, next, after) = unified_body(
                lines,
                i + 1,
                Seq::empty(),
                ranges.1,
                ranges.3,
                notes,
            );
            unified_hunks(lines, i, acc, notes) == unified_hunks(
                lines,
                next,
                acc.push(
                    (HunkModel {
                        old_start: ranges.0,
                        old_count: ranges.1,
                        new_start: ranges.2,
                        new_count: ranges.3,
                        header_suffix: header_suffix(lines[i]),
                        lines: body,
                    }),
                ),
                after,
            )
        }),
{
}

/// The hunks end at the end of the text, and at the first line that does not
/// begin like a hunk header or is none.
pub proof fn law_unified_hunks_end(
    lines: Seq<Seq<char>>,
    i: int,
    acc: Seq<HunkModel>,
    notes: NotesModel,
)
    requires
        0 <= i <= lines.len(),
        i < lines.len() ==> !has_prefix(lines[i], "@@"@) || unified_header(lines[i]) == Ok::<
            Option<(usize, usize, usize, usize)>,
            PatchError,
        >(None),
    ensures
        unified_hunks(lines, i, acc, notes) == (Ok::<_, PatchError>((acc, i)), notes),
{
}

// ---------------------------------------------------------------------------
// Lines of a git header
// ---------------------------------------------------------------------------

/// The literals that lines of a git header begin with.
proof fn lemma_header_words()
    ensures
        "Index: "@.len() == 7 && "Index: "@[0] == 'I',
        "diff --git "@.len() == 11 && "diff --git "@[0] == 'd' && "diff --git "@[1] == 'i',
        "new file mode "@.len() == 14 && "new file mode "@[0] == 'n' && "new file mode "@[4] == 'f',
        "deleted file mode "@.len() == 18 && "deleted file mode "@[0] == 'd'
            && "deleted file mode "@[1] == 'e',
        "old mode "@.len() == 9 && "old mode "@[0] == 'o',
        "new mode "@.len() == 9 && "new mode "@[0] == 'n' && "new mode "@[4] == 'm',
        "index "@.len() == 6 && "index "@[0] == 'i',
        "rename from "@.len() == 12 && "rename from "@[0] == 'r' && "rename from "@[7] == 'f',
        "rename to "@.len() == 10 && "rename to "@[0] == 'r' && "rename to "@[7] == 't',
        "copy from "@.len() == 10 && "copy from "@[0] == 'c' && "copy from "@[5] == 'f',
        "copy to "@.len() == 8 && "copy to "@[0] == 'c' && "copy to "@[5] == 't',
        "Binary files "@.len() == 13 && "Binary files "@[0] == 'B',
{
    reveal_strlit("Index: ");
    reveal_strlit("diff --git ");
    reveal_strlit("new file mode ");
    reveal_strlit("deleted file mode ");
    reveal_strlit("old mode ");
    reveal_strlit("new mode ");
    reveal_strlit("index ");
    reveal_strlit("rename from ");
    reveal_strlit("rename to ");
    reveal_strlit("copy from ");
    reveal_strlit("copy to ");
    reveal_strlit("Binary files ");
}

/// A text that differs from `p` at place `k` does not begin with it.
proof fn lemma_differs(s: Seq<char>, p: Seq<char>, k: int)
    requires
        0 <= k < p.len(),
        k < s.len() ==> s[k] != p[k],
    ensures
        !has_prefix(s, p),
{
    if has_prefix(s, p) {
        assert(s.take(p.len() as int)[k] == s[k]);
    }
}

/// What a line does not begin with, by its first letter.
proof fn lemma_first_letter(s: Seq<char>)
    ensures
        s.len() == 0 || s[0] != 'I' ==> !has_prefix(s, "Index: "@),
        s.len() == 0 || s[0] != 'd' ==> !has_prefix(s, "diff --git "@) && !has_prefix(
            s,
            "deleted file mode "@,
        ),
        s.len() == 0 || s[0] != 'n' ==> !has_prefix(s, "new file mode "@) && !has_prefix(
            s,
            "new mode "@,
        ),
        s.len() == 0 || s[0] != 'o' ==> !has_prefix(s, "old mode "@),
        s.len() == 0 || s[0] != 'i' ==> !has_prefix(s, "index "@),
        s.len() == 0 || s[0] != 'r' ==> !has_prefix(s, "rename from "@) && !has_prefix(
            s,
            "rename to "@,
        ),
        s.len() == 0 || s[0] != 'c' ==> !has_prefix(s, "copy from "@) && !has_prefix(s, "copy to "@),
        s.len() == 0 || s[0] != 'B' ==> !has_prefix(s, "Binary files "@),
{
    lemma_header_words();
    if s.len() == 0 || s[0] != 'I' {
        lemma_differs(s, "Index: "@, 0);
    }
    if s.len() == 0 || s[0] != 'd' {
        lemma_differs(s, "diff --git "@, 0);
        lemma_differs(s, "deleted file mode "@, 0);
    }
    if s.len() == 0 || s[0] != 'n' {
        lemma_differs(s, "new file mode "@, 0);
        lemma_differs(s, "new mode "@, 0);
    }
    if s.len() == 0 || s[0] != 'o' {
        lemma_differs(s, "old mode "@, 0);
    }
    if s.len() == 0 || s[0] != 'i' {
        lemma_differs(s, "index "@, 0);
    }
    if s.len() == 0 || s[0] != 'r' {
        lemma_differs(s, "rename from "@, 0);
        lemma_differs(s, "rename to "@, 0);
    }
    if s.len() == 0 || s[0] != 'c' {
        lemma_differs(s, "copy from "@, 0);
        lemma_differs(s, "copy to "@, 0);
    }
    if s.len() == 0 || s[0] != 'B' {
        lemma_differs(s, "Binary files "@, 0);
    }
}

/// A line is its beginning and the rest.
proof fn lemma_beginning(p: Seq<char>, s: Seq<char>)
    ensures
        has_prefix(p + s, p),
        (p + s).skip(p.len() as int) == s,
        forall|k: int| 0 <= k < p.len() ==> (p + s)[k] == p[k],
{
    assert((p + s).take(p.len() as int) =~= p);
    assert((p + s).skip(p.len() as int) =~= s);
}

/// The lines that name the files of a rename or of a copy set that name, and
/// nothing else.
pub proof fn law_move_lines(p: PreambleModel, s: Seq<char>)
    ensures
        noted(p, "rename from "@ + s) == (PreambleModel {
            git: GitModel { rename_from: Some(s), ..p.git },
            ..p
        }),
        noted(p, "rename to "@ + s) == (PreambleModel {
            git: GitModel { rename_to: Some(s), ..p.git },
            ..p
        }),
        noted(p, "copy from "@ + s) == (PreambleModel {
            git: GitModel { copy_from: Some(s), ..p.git },
            ..p
        }),
        noted(p, "copy to "@ + s) == (PreambleModel {
            git: GitModel { copy_to: Some(s), ..p.git },
            ..p
        }),
{
    lemma_header_words();
    lemma_beginning("rename from "@, s);
    lemma_beginning("rename to "@, s);
    lemma_beginning("copy from "@, s);
    lemma_beginning("copy to "@, s);
    lemma_first_letter("rename from "@ + s);
    lemma_first_letter("rename to "@ + s);
    lemma_first_letter("copy from "@ + s);
    lemma_first_letter("copy to "@ + s);
    lemma_differs("rename to "@ + s, "rename from "@, 7);
    lemma_differs("copy to "@ + s, "copy from "@, 5);
}

/// The lines that give modes set that mode, and nothing else.
pub proof fn law_mode_lines(p: PreambleModel, s: Seq<char>)
    ensures
        noted(p, "new file mode "@ + s) == (PreambleModel {
            git: GitModel { new_file_mode: octal(trimmed(s)), ..p.git },
            ..p
        }),
        noted(p, "deleted file mode "@ + s) == (PreambleModel {
            git: GitModel { deleted_file_mode: octal(trimmed(s)), ..p.git },
            ..p
        }),
        noted(p, "old mode "@ + s) == (PreambleModel {
            git: GitModel { old_mode: octal(trimmed(s)), ..p.git },
            ..p
        }),
        noted(p, "new mode "@ + s) == (PreambleModel {
            git: GitModel { new_mode: octal(trimmed(s)), ..p.git },
            ..p
        }),
{
    lemma_header_words();
    lemma_beginning("new file mode "@, s);
    lemma_beginning("deleted file mode "@, s);
    lemma_beginning("old mode "@, s);
    lemma_beginning("new mode "@, s);
    lemma_first_letter("new file mode "@ + s);
    lemma_first_letter("deleted file mode "@ + s);
    lemma_first_letter("old mode "@ + s);
    lemma_first_letter("new mode "@ + s);
    lemma_differs("deleted file mode "@ + s, "diff --git "@, 1);
    lemma_differs("new mode "@ + s, "new file mode "@, 4);
}

/// The `index` line gives a mode only if its second word is one.
pub proof fn law_index_line(p: PreambleModel, s: Seq<char>)
    ensures
        words(s).len() >= 2 && octal(words(s)[1]) is Some ==> noted(p, "index "@ + s) == (
        PreambleModel { git: GitModel { index_mode: octal(words(s)[1]), ..p.git }, ..p }),
        words(s).len() < 2 || octal(words(s)[1]) is None ==> noted(p, "index "@ + s) == p,
{
    lemma_header_words();
    lemma_beginning("index "@, s);
    lemma_first_letter("index "@ + s);
}

/// The `diff --git` line names the two files if it has two words, and else says
/// nothing.
pub proof fn law_diff_git_line(p: PreambleModel, s: Seq<char>)
    ensures
        words(s).len() == 2 ==> noted(p, "diff --git "@ + s) == (PreambleModel {
            git_a: Some(words(s)[0]),
            git_b: Some(words(s)[1]),
            ..p
        }),
        words(s).len() != 2 ==> noted(p, "diff --git "@ + s) == p,
{
    lemma_header_words();
    lemma_beginning("diff --git "@, s);
    lemma_first_letter("diff --git "@ + s);
}

/// The `Index:` line is kept whole, and a line that says that binary files
/// differ is noted as such; each says nothing else.
pub proof fn law_index_and_binary_lines(p: PreambleModel, s: Seq<char>)
    ensures
        noted(p, "Index: "@ + s) == (PreambleModel { index_line: Some("Index: "@ + s), ..p }),
        noted(p, "Binary files "@ + s + " differ"@) == (PreambleModel {
            git: GitModel { binary_summary: true, ..p.git },
            ..p
        }),
{
    lemma_header_words();
    reveal_strlit(" differ");
    lemma_beginning("Index: "@, s);
    let line = "Binary files "@ + s + " differ"@;
    assert(line =~= "Binary files "@ + (s + " differ"@));
    lemma_beginning("Binary files "@, s + " differ"@);
    assert(line.skip(line.len() - " differ"@.len()) =~= " differ"@);
    lemma_first_letter(line);
}

/// A line that begins with another letter says nothing.
pub proof fn law_other_lines_say_nothing(p: PreambleModel, line: Seq<char>)
    requires
        line.len() == 0 || (line[0] != 'I' && line[0] != 'd' && line[0] != 'n' && line[0] != 'o'
            && line[0] != 'i' && line[0] != 'r' && line[0] != 'c' && line[0] != 'B'),
    ensures
        noted(p, line) == p,
{
    lemma_first_letter(line);
}

// ---------------------------------------------------------------------------
// Headers and patches
// ---------------------------------------------------------------------------

/// What stands above a unified diff is read line by line, and every line adds
/// what it says. It ends where a file header or a hunk begins, at binary
/// content, which goes on to the next diff, and above the next git diff once a
/// file is named. At the end of the text a header that names a file stands
/// alone.
pub proof fn law_preamble_is_read_line_by_line(lines: Seq<Seq<char>>, i: int, p: PreambleModel)
    requires
        0 <= i <= lines.len(),
    ensures
        ({
            let line = lines[i];
            let end = preamble_from(lines, i, p);
            let named = p.git_a is Some || p.git_b is Some;
            let body = has_prefix(line, "--- "@) || has_prefix(line, "@@"@);
            let next = noted(p, line);
            let next_named = next.git_a is Some || next.git_b is Some;
            let above_next = i + 1 < lines.len() && has_prefix(lines[i + 1], "diff --git "@)
                && next_named;
            &&& i == lines.len() && named ==> end == (PreambleEnd::HeaderOnly { at: i, preamble: p })
            &&& i == lines.len() && !named ==> end is Nothing
            &&& i < lines.len() && body ==> end == (PreambleEnd::Body { at: i, preamble: p })
            &&& i < lines.len() && !body && line == "GIT binary patch"@ ==> end == (
            PreambleEnd::Binary { at: payload_end(lines, i + 1), preamble: p })
            &&& i < lines.len() && !body && line != "GIT binary patch"@ && above_next ==> end == (
            PreambleEnd::HeaderOnly { at: i + 1, preamble: next })
            &&& i < lines.len() && !body && line != "GIT binary patch"@ && !above_next ==> end
                == preamble_from(lines, i + 1, next)
        }),
{
}

/// Binary content goes on up to the next `diff --git` line, file header or the
/// end.
pub proof fn law_binary_content_goes_on(lines: Seq<Seq<char>>, i: int)
    requires
        0 <= i <= lines.len(),
    ensures
        i <= payload_end(lines, i) <= lines.len(),
        forall|k: int|
            i <= k < payload_end(lines, i) ==> !has_prefix(#[trigger] lines[k], "diff --git "@)
                && !has_prefix(lines[k], "--- "@),
        payload_end(lines, i) < lines.len() ==> has_prefix(
            lines[payload_end(lines, i)],
            "diff --git "@,
        ) || has_prefix(lines[payload_end(lines, i)], "--- "@),
    decreases lines.len() - i,
{
    if i < lines.len() && !has_prefix(lines[i], "diff --git "@) && !has_prefix(lines[i], "--- "@) {
        law_binary_content_goes_on(lines, i + 1);
    }
}

/// The name, or the empty name.
pub open spec fn name_of(name: Option<Seq<char>>) -> Seq<char> {
    match name {
        Some(s) => s,
        None => Seq::empty(),
    }
}

/// A git header alone is a patch without hunks. Its files are those of the
/// `diff --git` line, or else of the rename, or else of the copy; what the
/// header says is kept.
pub proof fn law_header_alone_is_a_patch(
    lines: Seq<Seq<char>>,
    start: int,
    notes: NotesModel,
    at: int,
    p: PreambleModel,
)
    requires
        preamble_from(
            lines,
            start,
            (PreambleModel { git: plain_git(), git_a: None, git_b: None, index_line: None }),
        ) == (PreambleEnd::HeaderOnly { at, preamble: p }),
    ensures
        unified_patch(lines, start, notes).1 == notes,
        unified_patch(lines, start, notes).0 matches Ok(Some((patch, next))) && {
            &&& next == at
            &&& patch.old_file == if p.git_a is Some {
                name_of(p.git_a)
            } else if p.git.rename_from is Some {
                name_of(p.git.rename_from)
            } else {
                name_of(p.git.copy_from)
            }
            &&& patch.new_file == if p.git_b is Some {
                name_of(p.git_b)
            } else if p.git.rename_to is Some {
                name_of(p.git.rename_to)
            } else {
                name_of(p.git.copy_to)
            }
            &&& patch.old_header == patch.old_file
            &&& patch.new_header == patch.new_file
            &&& patch.index_line == p.index_line
            &&& patch.hunks == Seq::<HunkModel>::empty()
            &&& patch.format == DiffFormat::Unified
            &&& patch.git == p.git
        },
{
}

/// Binary content is a patch without hunks for the files of the `diff --git`
/// line, marked as binary, and its new file is noted.
pub proof fn law_binary_content_is_a_patch(
    lines: Seq<Seq<char>>,
    start: int,
    notes: NotesModel,
    at: int,
    p: PreambleModel,
)
    requires
        preamble_from(
            lines,
            start,
            (PreambleModel { git: plain_git(), git_a: None, git_b: None, index_line: None }),
        ) == (PreambleEnd::Binary { at, preamble: p }),
    ensures
        unified_patch(lines, start, notes).1 == (NotesModel {
            malformed: notes.malformed,
            binary_files: notes.binary_files.push(
                without_leading(name_of(p.git_b), seq!['b', '/']),
            ),
        }),
        unified_patch(lines, start, notes).0 matches Ok(Some((patch, next))) && {
            &&& next == at
            &&& patch.old_file == name_of(p.git_a)
            &&& patch.new_file == name_of(p.git_b)
            &&& patch.hunks == Seq::<HunkModel>::empty()
            &&& patch.git == (GitModel { binary_payload: true, ..p.git })
        },
{
    reveal_strlit("b/");
    assert("b/"@ =~= seq!['b', '/']);
}

/// A file with binary content is noted without the `b/` that its name begins
/// with.
pub proof fn law_binary_files_lose_their_mark(s: Seq<char>)
    ensures
        without_leading(seq!['b', '/'] + s, seq!['b', '/']) == without_leading(
            s,
            seq!['b', '/'],
        ),
        s.len() < 2 || s[0] != 'b' || s[1] != '/' ==> without_leading(s, seq!['b', '/']) == s,
{
    let mark = seq!['b', '/'];
    assert((mark + s).take(2) =~= mark);
    assert((mark + s).skip(2) =~= s);
    if s.len() >= 2 {
        assert(s.take(2)[0] == s[0] && s.take(2)[1] == s[1]);
    }
}

/// Below the two header lines stand the hunks. The files are those that the
/// headers name, or where a header names none, those of the `diff --git` line;
/// what is written in the headers and above them is kept.
pub proof fn law_headers_and_hunks_are_a_patch(
    lines: Seq<Seq<char>>,
    at: int,
    p: PreambleModel,
    notes: NotesModel,
    a: Seq<char>,
    b: Seq<char>,
)
    requires
        0 <= at && at + 1 < lines.len(),
        lines[at] == "--- "@ + a,
        lines[at + 1] == "+++ "@ + b,
        unified_hunks(lines, at + 2, Seq::empty(), notes).0 matches Ok((hunks, next))
            && hunks.len() > 0,
    ensures
        ({
            let (read, after) = unified_hunks(lines, at + 2, Seq::empty(), notes);
            let old = header_file("--- "@ + a);
            let new = header_file("+++ "@ + b);
            unified_rest(lines, at, p, notes) == (
                Ok::<_, PatchError>(
                    Some(
                        (
                            (PatchModel {
                                old_file: if old.len() > 0 {
                                    old
                                } else {
                                    name_of(p.git_a)
                                },
                                new_file: if new.len() > 0 {
                                    new
                                } else {
                                    name_of(p.git_b)
                                },
                                old_header: a,
                                new_header: b,
                                index_line: p.index_line,
                                hunks: read->Ok_0.0,
                                format: DiffFormat::Unified,
                                git: p.git,
                            }),
                            read->Ok_0.1,
                        ),
                    ),
                ),
                after,
            )
        }),
{
    reveal_strlit("--- ");
    reveal_strlit("+++ ");
    reveal_strlit("@@");
    assert("--- "@.len() == 4 && "+++ "@.len() == 4);
    assert(lines[at].take(4) =~= "--- "@ && lines[at].skip(4) =~= a);
    assert(lines[at + 1].take(4) =~= "+++ "@ && lines[at + 1].skip(4) =~= b);
    let names = unified_names(lines, at, p);
    assert(names.next == at + 2);
    assert(names.old_file =~= if header_file(lines[at]).len() > 0 {
        header_file(lines[at])
    } else {
        name_of(p.git_a)
    });
    assert(names.new_file =~= if header_file(lines[at + 1]).len() > 0 {
        header_file(lines[at + 1])
    } else {
        name_of(p.git_b)
    });
    if at + 2 >= lines.len() || !has_prefix(lines[at + 2], "@@"@) {
        law_unified_hunks_end(lines, at + 2, Seq::empty(), notes);
    }
}

/// Names come from the header lines that are there, and otherwise from the
/// `diff --git` line: a hunk alone has only those, and one header alone names
/// one side.
pub proof fn law_names_without_headers(
    lines: Seq<Seq<char>>,
    i: int,
    p: PreambleModel,
    s: Seq<char>,
)
    requires
        0 <= i < lines.len(),
    ensures
        ({
            let names = unified_names(lines, i, p);
            &&& lines[i] == "@@"@ + s ==> {
                &&& names.old_file == name_of(p.git_a)
                &&& names.new_file == name_of(p.git_b)
                &&& names.old_header.len() == 0 && names.new_header.len() == 0
                &&& names.next == i
            }
            &&& lines[i] == "+++ "@ + s ==> {
                &&& names.old_file == name_of(p.git_a)
                &&& header_file(lines[i]).len() > 0 ==> names.new_file == header_file(lines[i])
                &&& names.old_header.len() == 0 && names.new_header == s
                &&& names.next == i + 1
            }
            &&& lines[i] == "--- "@ + s && (i + 1 == lines.len() || !has_prefix(
                lines[i + 1],
                "+++ "@,
            )) ==> {
                &&& header_file(lines[i]).len() > 0 ==> names.old_file == header_file(lines[i])
                &&& names.new_file == name_of(p.git_b)
                &&& names.old_header == s && names.new_header.len() == 0
                &&& names.next == i + 1
            }
        }),
{
    reveal_strlit("--- ");
    reveal_strlit("+++ ");
    reveal_strlit("@@");
    assert("--- "@.len() == 4 && "--- "@[0] == '-');
    assert("+++ "@.len() == 4 && "+++ "@[0] == '+');
    assert("@@"@.len() == 2 && "@@"@[0] == '@');
    let line = lines[i];
    if line.len() >= 4 {
        assert(line.take(4)[0] == line[0]);
    }
    if line == "+++ "@ + s {
        assert(line.take(4) =~= "+++ "@ && line.skip(4) =~= s);
    }
    if line == "--- "@ + s {
        assert(line.take(4) =~= "--- "@ && line.skip(4) =~= s);
    }
    assert(name_of(p.git_a) =~= match p.git_a {
        Some(a) => a,
        None => Seq::empty(),
    });
}

/// Below the two header lines no hunk can be read: there is no patch, unless a
/// malformed hunk was met, which leaves a patch without hunks.
pub proof fn law_headers_without_hunks_are_no_patch(
    lines: Seq<Seq<char>>,
    at: int,
    p: PreambleModel,
    notes: NotesModel,
    a: Seq<char>,
    b: Seq<char>,
)
    requires
        0 <= at && at + 1 < lines.len(),
        lines[at] == "--- "@ + a,
        lines[at + 1] == "+++ "@ + b,
        header_file(lines[at]).len() > 0,
        unified_hunks(lines, at + 2, Seq::empty(), notes).0 matches Ok((hunks, next))
            && hunks.len() == 0 && next != at,
    ensures
        ({
            let (read, after) = unified_hunks(lines, at + 2, Seq::empty(), notes);
            let (patch, later) = unified_rest(lines, at, p, notes);
            &&& later == after
            &&& after.malformed is None ==> patch == Ok::<Option<(PatchModel, int)>, PatchError>(
                None,
            )
            &&& after.malformed is Some ==> (patch matches Ok(Some((m, next))) && m.hunks.len() == 0
                && m.old_file == header_file(lines[at]) && next == read->Ok_0.1)
        }),
{
    reveal_strlit("--- ");
    reveal_strlit("+++ ");
    assert("--- "@.len() == 4 && "+++ "@.len() == 4);
    assert(lines[at].take(4) =~= "--- "@);
    assert(lines[at + 1].take(4) =~= "+++ "@);
    assert(unified_names(lines, at, p).next == at + 2);
}

/// A patch without a git header says nothing of modes, moves or binary content.
pub proof fn law_no_git_header_says_nothing()
    ensures
        ({
            let g = plain_git();
            &&& g.new_file_mode is None && g.deleted_file_mode is None
            &&& g.old_mode is None && g.new_mode is None && g.index_mode is None
            &&& g.rename_from is None && g.rename_to is None
            &&& g.copy_from is None && g.copy_to is None
            &&& !g.binary_summary && !g.binary_payload
        }),
{
}

// ---------------------------------------------------------------------------
// A git header is read as it is written
// ---------------------------------------------------------------------------

/// A mode in octal.
pub open spec fn octal_text(n: nat) -> Seq<char>
    decreases n,
{
    if n < 8 {
        seq![(48 + n) as char]
    } else {
        octal_text(n / 8).push((48 + n % 8) as char)
    }
}

/// A line that is written if there is something to write.
pub open spec fn line_if(start: Seq<char>, rest: Option<Seq<char>>) -> Seq<Seq<char>> {
    match rest {
        Some(s) => seq![start + s],
        None => Seq::empty(),
    }
}

/// A mode as it is written, if there is one.
pub open spec fn mode_text(mode: Option<u32>) -> Option<Seq<char>> {
    match mode {
        Some(m) => Some(octal_text(m as nat)),
        None => None,
    }
}

/// The lines of a git header below its `diff --git` line.
pub open spec fn git_lines(g: GitModel) -> Seq<Seq<char>> {
    line_if("old mode "@, mode_text(g.old_mode)) + line_if("new mode "@, mode_text(g.new_mode))
        + line_if("deleted file mode "@, mode_text(g.deleted_file_mode)) + line_if(
        "new file mode "@,
        mode_text(g.new_file_mode),
    ) + line_if("copy from "@, g.copy_from) + line_if("copy to "@, g.copy_to) + line_if(
        "rename from "@,
        g.rename_from,
    ) + line_if("rename to "@, g.rename_to)
}

/// The line is neither the beginning of a body nor that of another git diff, nor
/// binary content.
spec fn is_header_line(line: Seq<char>) -> bool {
    &&& !has_prefix(line, "--- "@)
    &&& !has_prefix(line, "@@"@)
    &&& !has_prefix(line, "diff --git "@)
    &&& line != "GIT binary patch"@
}

/// What lines add to a preamble.
spec fn all_noted(p: PreambleModel, lines: Seq<Seq<char>>) -> PreambleModel
    decreases lines.len(),
{
    if lines.len() == 0 {
        p
    } else {
        all_noted(noted(p, lines[0]), lines.skip(1))
    }
}

proof fn lemma_all_noted_add(p: PreambleModel, a: Seq<Seq<char>>, b: Seq<Seq<char>>)
    ensures
        all_noted(p, a + b) == all_noted(all_noted(p, a), b),
    decreases a.len(),
{
    if a.len() == 0 {
        assert(a + b =~= b);
    } else {
        lemma_all_noted_add(noted(p, a[0]), a.skip(1), b);
        assert((a + b).skip(1) =~= a.skip(1) + b);
    }
}

proof fn lemma_preamble_notes_all(lines: Seq<Seq<char>>, i: int, p: PreambleModel)
    requires
        0 <= i <= lines.len(),
        p.git_a is Some,
        forall|k: int| i <= k < lines.len() ==> is_header_line(#[trigger] lines[k]),
        forall|k: int, q: PreambleModel|
            i <= k < lines.len() ==> (#[trigger] noted(q, lines[k])).git_a == q.git_a,
    ensures
        preamble_from(lines, i, p) == (PreambleEnd::HeaderOnly {
            at: lines.len() as int,
            preamble: all_noted(p, lines.skip(i)),
        }),
    decreases lines.len() - i,
{
    if i < lines.len() {
        let next = noted(p, lines[i]);
        lemma_preamble_notes_all(lines, i + 1, next);
        assert(lines.skip(i).skip(1) =~= lines.skip(i + 1));
        assert(lines.skip(i)[0] == lines[i]);
        if i + 1 < lines.len() {
            assert(is_header_line(lines[i + 1]));
        }
    } else {
        assert(lines.skip(i) =~= Seq::empty());
    }
}

proof fn lemma_octal_text(n: nat)
    requires
        n <= u32::MAX,
    ensures
        octal(octal_text(n)) == Some(n as u32),
        parsed(octal_text(n), 8, 0xffff_ffff) == Some(n),
        octal_text(n).len() > 0,
        octal_text(n)[0] != '+',
        trimmed(octal_text(n)) == octal_text(n),
    decreases n,
{
    let s = octal_text(n);
    if n < 8 {
        law_digits_make_a_number(Seq::empty(), n, 8, 0, 0xffff_ffff);
    } else {
        lemma_octal_text(n / 8);
        law_digits_make_a_number(octal_text(n / 8), n % 8, 8, n / 8, 0xffff_ffff);
        assert(s[0] == octal_text(n / 8)[0]);
        assert((n / 8) * 8 + n % 8 == n);
    }
    law_octal_numbers(s);
    lemma_octal_digits(n);
    law_trimming(s, s);
}

proof fn lemma_octal_digits(n: nat)
    ensures
        octal_text(n).len() > 0,
        forall|i: int| 0 <= i < octal_text(n).len() ==> '0' <= #[trigger] octal_text(n)[i] <= '7',
        !is_white(octal_text(n)[0]),
        !is_white(octal_text(n).last()),
    decreases n,
{
    if n >= 8 {
        lemma_octal_digits(n / 8);
        let init = octal_text(n / 8);
        assert forall|i: int| 0 <= i < octal_text(n).len() implies '0' <= #[trigger] octal_text(
            n,
        )[i] <= '7' by {
            if i < init.len() {
                assert(octal_text(n)[i] == init[i]);
            }
        }
    }
    assert('0' <= octal_text(n)[0] <= '7');
    assert('0' <= octal_text(n)[octal_text(n).len() - 1] <= '7');
}

/// A line that begins with one of these letters is part of a header.
proof fn lemma_is_header_line(line: Seq<char>)
    requires
        line.len() > 1,
        line[0] == 'o' || line[0] == 'n' || line[0] == 'c' || line[0] == 'r' || (line[0] == 'd'
            && line[1] == 'e'),
    ensures
        is_header_line(line),
{
    reveal_strlit("--- ");
    reveal_strlit("@@");
    reveal_strlit("GIT binary patch");
    lemma_header_words();
    assert("--- "@[0] == '-' && "@@"@[0] == '@' && "GIT binary patch"@[0] == 'G');
    assert("--- "@.len() == 4 && "@@"@.len() == 2);
    lemma_differs(line, "--- "@, 0);
    lemma_differs(line, "@@"@, 0);
    if line[0] == 'd' {
        lemma_differs(line, "diff --git "@, 1);
    } else {
        lemma_differs(line, "diff --git "@, 0);
    }
}

/// Each part of a written header sets one field.
proof fn lemma_part(p: PreambleModel, start: Seq<char>, rest: Option<Seq<char>>)
    ensures
        rest is None ==> all_noted(p, line_if(start, rest)) == p,
        rest matches Some(s) ==> all_noted(p, line_if(start, rest)) == noted(p, start + s),
{
    if let Some(s) = rest {
        let lines = line_if(start, rest);
        assert(lines.skip(1) =~= Seq::empty());
        assert(all_noted(noted(p, lines[0]), lines.skip(1)) == noted(p, lines[0]));
    }
}

proof fn lemma_mode_part(p: PreambleModel, mode: Option<u32>)
    ensures
        all_noted(p, line_if("old mode "@, mode_text(mode))).git == if mode is Some {
            (GitModel { old_mode: mode, ..p.git })
        } else {
            p.git
        },
        all_noted(p, line_if("new mode "@, mode_text(mode))).git == if mode is Some {
            (GitModel { new_mode: mode, ..p.git })
        } else {
            p.git
        },
        all_noted(p, line_if("deleted file mode "@, mode_text(mode))).git == if mode is Some {
            (GitModel { deleted_file_mode: mode, ..p.git })
        } else {
            p.git
        },
        all_noted(p, line_if("new file mode "@, mode_text(mode))).git == if mode is Some {
            (GitModel { new_file_mode: mode, ..p.git })
        } else {
            p.git
        },
{
    let text = mode_text(mode);
    lemma_part(p, "old mode "@, text);
    lemma_part(p, "new mode "@, text);
    lemma_part(p, "deleted file mode "@, text);
    lemma_part(p, "new file mode "@, text);
    if let Some(m) = mode {
        lemma_octal_text(m as nat);
        law_mode_lines(p, octal_text(m as nat));
    }
}

proof fn lemma_move_part(p: PreambleModel, name: Option<Seq<char>>)
    ensures
        all_noted(p, line_if("copy from "@, name)).git == if name is Some {
            (GitModel { copy_from: name, ..p.git })
        } else {
            p.git
        },
        all_noted(p, line_if("copy to "@, name)).git == if name is Some {
            (GitModel { copy_to: name, ..p.git })
        } else {
            p.git
        },
        all_noted(p, line_if("rename from "@, name)).git == if name is Some {
            (GitModel { rename_from: name, ..p.git })
        } else {
            p.git
        },
        all_noted(p, line_if("rename to "@, name)).git == if name is Some {
            (GitModel { rename_to: name, ..p.git })
        } else {
            p.git
        },
{
    lemma_part(p, "copy from "@, name);
    lemma_part(p, "copy to "@, name);
    lemma_part(p, "rename from "@, name);
    lemma_part(p, "rename to "@, name);
    if let Some(s) = name {
        law_move_lines(p, s);
    }
}

/// Every line of a written header is a header line that names no other file.
proof fn lemma_git_lines(g: GitModel, k: int)
    requires
        0 <= k < git_lines(g).len(),
    ensures
        is_header_line(git_lines(g)[k]),
        forall|q: PreambleModel|
            (#[trigger] noted(q, git_lines(g)[k])).git_a == q.git_a && noted(
                q,
                git_lines(g)[k],
            ).git_b == q.git_b && noted(q, git_lines(g)[k]).index_line == q.index_line,
{
    lemma_header_words();
    let line = git_lines(g)[k];
    assert(line.len() > 1 && (line[0] == 'o' || line[0] == 'n' || line[0] == 'c' || line[0] == 'r'
        || (line[0] == 'd' && line[1] == 'e')));
    lemma_is_header_line(line);
    lemma_first_letter(line);
}

proof fn lemma_all_noted_keeps_names(p: PreambleModel, lines: Seq<Seq<char>>)
    requires
        forall|k: int, q: PreambleModel|
            0 <= k < lines.len() ==> (#[trigger] noted(q, lines[k])).git_a == q.git_a && noted(
                q,
                lines[k],
            ).git_b == q.git_b && noted(q, lines[k]).index_line == q.index_line,
    ensures
        all_noted(p, lines).git_a == p.git_a,
        all_noted(p, lines).git_b == p.git_b,
        all_noted(p, lines).index_line == p.index_line,
    decreases lines.len(),
{
    if lines.len() > 0 {
        let rest = lines.skip(1);
        assert forall|k: int, q: PreambleModel| 0 <= k < rest.len() implies (#[trigger] noted(
            q,
            rest[k],
        )).git_a == q.git_a && noted(q, rest[k]).git_b == q.git_b && noted(q, rest[k]).index_line
            == q.index_line by {
            assert(rest[k] == lines[k + 1]);
            assert(noted(q, lines[k + 1]).git_a == q.git_a);
        }
        assert(noted(p, lines[0]).git_a == p.git_a);
        lemma_all_noted_keeps_names(noted(p, lines[0]), rest);
    }
}

proof fn lemma_git_lines_noted(p: PreambleModel, g: GitModel)
    requires
        p.git == plain_git(),
    ensures
        all_noted(p, git_lines(g)).git == (GitModel {
            index_mode: None,
            binary_summary: false,
            binary_payload: false,
            ..g
        }),
{
    let l1 = line_if("old mode "@, mode_text(g.old_mode));
    let l2 = line_if("new mode "@, mode_text(g.new_mode));
    let l3 = line_if("deleted file mode "@, mode_text(g.deleted_file_mode));
    let l4 = line_if("new file mode "@, mode_text(g.new_file_mode));
    let l5 = line_if("copy from "@, g.copy_from);
    let l6 = line_if("copy to "@, g.copy_to);
    let l7 = line_if("rename from "@, g.rename_from);
    let l8 = line_if("rename to "@, g.rename_to);
    lemma_all_noted_add(p, l1, l2);
    lemma_all_noted_add(p, l1 + l2, l3);
    lemma_all_noted_add(p, l1 + l2 + l3, l4);
    lemma_all_noted_add(p, l1 + l2 + l3 + l4, l5);
    lemma_all_noted_add(p, l1 + l2 + l3 + l4 + l5, l6);
    lemma_all_noted_add(p, l1 + l2 + l3 + l4 + l5 + l6, l7);
    lemma_all_noted_add(p, l1 + l2 + l3 + l4 + l5 + l6 + l7, l8);
    let p1 = all_noted(p, l1);
    let p2 = all_noted(p1, l2);
    let p3 = all_noted(p2, l3);
    let p4 = all_noted(p3, l4);
    let p5 = all_noted(p4, l5);
    let p6 = all_noted(p5, l6);
    let p7 = all_noted(p6, l7);
    lemma_mode_part(p, g.old_mode);
    lemma_mode_part(p1, g.new_mode);
    lemma_mode_part(p2, g.deleted_file_mode);
    lemma_mode_part(p3, g.new_file_mode);
    lemma_move_part(p4, g.copy_from);
    lemma_move_part(p5, g.copy_to);
    lemma_move_part(p6, g.rename_from);
    lemma_move_part(p7, g.rename_to);
}

/// A git header without hunks is read as it is written: modes, copies and
/// renames come back, each as what it is, and the files are those of the
/// `diff --git` line.
pub proof fn law_git_header_reads_back(g: GitModel, a: Seq<char>, b: Seq<char>, notes: NotesModel)
    requires
        a.len() > 0,
        b.len() > 0,
        forall|i: int| 0 <= i < a.len() ==> !is_white(#[trigger] a[i]),
        forall|i: int| 0 <= i < b.len() ==> !is_white(#[trigger] b[i]),
        g.index_mode is None,
        !g.binary_summary,
        !g.binary_payload,
    ensures
        ({
            let lines = seq!["diff --git "@ + (a + seq![' '] + b)] + git_lines(g);
            unified_patch(lines, 0, notes) == (
                Ok::<_, PatchError>(
                    Some(
                        (
                            (PatchModel {
                                old_file: a,
                                new_file: b,
                                old_header: a,
                                new_header: b,
                                index_line: None,
                                hunks: Seq::empty(),
                                format: DiffFormat::Unified,
                                git: g,
                            }),
                            lines.len() as int,
                        ),
                    ),
                ),
                notes,
            )
        }),
{
    let first = "diff --git "@ + (a + seq![' '] + b);
    let more = git_lines(g);
    let lines = seq![first] + more;
    let none = PreambleModel { git: plain_git(), git_a: None, git_b: None, index_line: None };
    lemma_two_words(a, b);
    law_diff_git_line(none, a + seq![' '] + b);
    let p = noted(none, first);
    assert forall|k: int| 1 <= k < lines.len() implies is_header_line(#[trigger] lines[k]) by {
        assert(lines[k] == more[k - 1]);
        lemma_git_lines(g, k - 1);
    }
    assert forall|k: int, q: PreambleModel| 1 <= k < lines.len() implies (#[trigger] noted(
        q,
        lines[k],
    )).git_a == q.git_a by {
        assert(lines[k] == more[k - 1]);
        lemma_git_lines(g, k - 1);
    }
    assert forall|k: int, q: PreambleModel| 0 <= k < more.len() implies (#[trigger] noted(
        q,
        more[k],
    )).git_a == q.git_a && noted(q, more[k]).git_b == q.git_b && noted(q, more[k]).index_line
        == q.index_line by {
        lemma_git_lines(g, k);
    }
    lemma_preamble_notes_all(lines, 1, p);
    assert(lines.skip(1) =~= more);
    lemma_git_lines_noted(p, g);
    lemma_all_noted_keeps_names(p, more);
    lemma_header_words();
    reveal_strlit("--- ");
    reveal_strlit("@@");
    reveal_strlit("GIT binary patch");
    assert("--- "@[0] == '-' && "@@"@[0] == '@' && "GIT binary patch"@[0] == 'G');
    assert("--- "@.len() == 4 && "@@"@.len() == 2);
    assert(first[0] == 'd');
    lemma_differs(first, "--- "@, 0);
    lemma_differs(first, "@@"@, 0);
    assert(preamble_from(lines, 0, none) == preamble_from(lines, 1, p)) by {
        assert(lines[0] == first);
        if 1 < lines.len() {
            assert(is_header_line(lines[1]));
        }
    }
}

} // verus!
