//! What scripts for the line editor are, and which of them are run.
use vstd::prelude::*;

use crate::ed::{
    after_address, after_pattern, calls_shell, delimits, ed_plan, is_allowed, is_command_line,
    is_continued, is_diff_line, is_script, names_shell_plainly, next_reading, open_replacement,
    runs_shell, script_runs_shell, scripts_from, shell_from, EdPlanModel, Reading,
};
use crate::number::all_digits;
use crate::options::OptionsModel;
use crate::paths::{is_dangerous, Whereabouts};
use crate::text::{
    has_prefix, is_white, lemma_trimmed_start_step, newline_parts, std_lines, trimmed,
    trimmed_start,
};

verus! {

// ---------------------------------------------------------------------------
// What a script is
// ---------------------------------------------------------------------------

/// Lines that only diffs have are those that begin with the marks of headers
/// and hunks.
pub proof fn law_lines_of_diffs(s: Seq<char>)
    ensures
        is_diff_line("--- "@ + s),
        is_diff_line("+++ "@ + s),
        is_diff_line("@@"@ + s),
        is_diff_line("*** "@ + s),
        is_diff_line("diff --git "@ + s),
        s.len() > 0 && s[0] != '-' && s[0] != '+' && s[0] != '@' && s[0] != '*' && s[0] != 'd'
            ==> !is_diff_line(s),
{
    reveal_strlit("--- ");
    reveal_strlit("+++ ");
    reveal_strlit("@@");
    reveal_strlit("*** ");
    reveal_strlit("diff --git ");
    assert(("--- "@ + s).take(4) =~= "--- "@);
    assert(("+++ "@ + s).take(4) =~= "+++ "@);
    assert(("@@"@ + s).take(2) =~= "@@"@);
    assert(("*** "@ + s).take(4) =~= "*** "@);
    assert(("diff --git "@ + s).take(11) =~= "diff --git "@);
    if s.len() > 0 {
        assert("--- "@[0] == '-' && "+++ "@[0] == '+' && "@@"@[0] == '@' && "*** "@[0] == '*'
            && "diff --git "@[0] == 'd');
        if s.len() >= 4 {
            assert(s.take(4)[0] == s[0]);
        }
        if s.len() >= 2 {
            assert(s.take(2)[0] == s[0]);
        }
        if s.len() >= 11 {
            assert(s.take(11)[0] == s[0]);
        }
    }
}

/// Commands for the last line, or up to it from a line, are commands whatever
/// white space stands before them.
pub proof fn law_commands_for_the_last_line(white: Seq<char>, digits: Seq<char>, c: char)
    requires
        forall|i: int| 0 <= i < white.len() ==> is_white(#[trigger] white[i]),
        digits.len() > 0,
        forall|i: int| 0 <= i < digits.len() ==> '0' <= #[trigger] digits[i] <= '9',
        c == 'a' || c == 'c' || c == 'd',
    ensures
        is_command_line(white + seq!['$', c]),
        is_command_line(white + digits + seq![',', '$', c]),
{
    let plain = seq!['$', c];
    lemma_white_goes(white, plain);
    let ranged = digits + seq![',', '$', c];
    assert(white + digits + seq![',', '$', c] =~= white + ranged);
    assert(ranged[0] == digits[0]);
    lemma_white_goes(white, ranged);
    let n = ranged.len() as int;
    assert(ranged.take(n - 3) =~= digits);
    assert(all_digits(digits, 10)) by {
        assert forall|i: int| 0 <= i < digits.len() implies crate::number::is_digit(
            #[trigger] digits[i],
            10,
        ) by {
            assert('0' <= digits[i] <= '9');
        }
    }
}

proof fn lemma_white_goes(white: Seq<char>, s: Seq<char>)
    requires
        forall|i: int| 0 <= i < white.len() ==> is_white(#[trigger] white[i]),
        s.len() > 0,
        !is_white(s[0]),
    ensures
        trimmed_start(white + s) == s,
    decreases white.len(),
{
    lemma_trimmed_start_step(white + s);
    if white.len() == 0 {
        assert(white + s =~= s);
    } else {
        let rest = white.skip(1);
        assert(is_white(white[0]));
        assert forall|i: int| 0 <= i < rest.len() implies is_white(#[trigger] rest[i]) by {
            assert(rest[i] == white[i + 1]);
        }
        assert((white + s).skip(1) =~= rest + s);
        lemma_white_goes(rest, s);
    }
}

/// Lines are a script if one of them is a command and none is a line that only
/// a diff has.
pub proof fn law_lines_of_scripts(lines: Seq<Seq<char>>, i: int)
    requires
        0 <= i < lines.len(),
    ensures
        is_diff_line(lines[i]) ==> !is_script(lines),
        is_command_line(lines[i]) && (forall|j: int|
            0 <= j < lines.len() ==> !is_diff_line(#[trigger] lines[j])) ==> is_script(lines),
        (forall|j: int| 0 <= j < lines.len() ==> !is_command_line(#[trigger] lines[j]))
            ==> !is_script(lines),
{
}

// ---------------------------------------------------------------------------
// What runs a shell command
// ---------------------------------------------------------------------------

/// A line that begins with a `!` runs a shell command, and so does one with a
/// command that takes a file and a `!` in its place, with white space before it
/// or none, also behind the `q` of `wq`.
pub proof fn law_commands_that_run_a_shell(
    c: char,
    q: char,
    white: Seq<char>,
    rest: Seq<char>,
)
    requires
        c == 'e' || c == 'E' || c == 'r' || c == 'w' || c == 'W',
        q == 'q' || q == 'Q',
        forall|i: int| 0 <= i < white.len() ==> is_white(#[trigger] white[i]),
    ensures
        runs_shell(seq!['!'] + rest),
        runs_shell(seq![c] + (white + (seq!['!'] + rest))),
        runs_shell(seq![c, q] + (white + (seq!['!'] + rest))),
{
    let mark = seq!['!'] + rest;
    lemma_white_goes(white, mark);
    let one = seq![c] + (white + mark);
    assert(one.skip(1) =~= white + mark);
    assert(after_address(one) == one);
    let two = seq![c, q] + (white + mark);
    assert(two.skip(1) =~= seq![q] + (white + mark));
    assert(two.skip(1).skip(1) =~= white + mark);
    assert(after_address(two) == two);
    assert(after_address(mark) == mark);
}

/// Other commands run none: not one with another letter, nor one that takes a
/// file whose name begins with anything but a `!`.
pub proof fn law_commands_that_run_no_shell(c: char, rest: Seq<char>, f: char, name: Seq<char>)
    requires
        'a' <= c <= 'z' || 'A' <= c <= 'Z',
        f == 'e' || f == 'E' || f == 'r' || f == 'w' || f == 'W',
        name.len() > 0,
        name[0] != '!' && !is_white(name[0]),
    ensures
        c != 'e' && c != 'E' && c != 'r' && c != 'w' && c != 'W' && c != 'g' && c != 'v'
            ==> !runs_shell(seq![c] + rest),
        !runs_shell(seq![f, ' '] + name),
        !runs_shell(seq![c]),
{
    let one = seq![c] + rest;
    assert(after_address(one) == one);
    assert(after_address(seq![c]) == seq![c]);
    assert(seq![c].skip(1) =~= Seq::<char>::empty());
    lemma_trimmed_start_step(Seq::<char>::empty());
    lemma_trimmed_start_step(seq![c].skip(1).skip(1));
    let two = seq![f, ' '] + name;
    assert(after_address(two) == two);
    assert(two.skip(1) =~= seq![' '] + name);
    lemma_white_goes(seq![' '], name);
}

/// A pattern ends at the first delimiter that is neither behind a backslash nor
/// in brackets.
pub proof fn law_end_of_a_pattern(plain: Seq<char>, d: char, c: char, rest: Seq<char>)
    requires
        forall|i: int|
            0 <= i < plain.len() ==> #[trigger] plain[i] != d && plain[i] != '\\' && plain[i] != '[',
    ensures
        after_pattern(plain + (seq![d] + rest), d) == Some(rest),
        after_pattern(plain, d) is None,
        d != '\\' ==> after_pattern(plain + (seq!['\\', c] + rest), d) == after_pattern(rest, d),
    decreases plain.len(),
{
    let one = plain + (seq![d] + rest);
    let two = plain + (seq!['\\', c] + rest);
    if plain.len() == 0 {
        assert(one =~= seq![d] + rest);
        assert(one.skip(1) =~= rest);
        assert(two =~= seq!['\\', c] + rest);
        assert(two.skip(2) =~= rest);
    } else {
        let tail = plain.skip(1);
        assert(plain[0] != d && plain[0] != '\\' && plain[0] != '[');
        assert forall|i: int| 0 <= i < tail.len() implies #[trigger] tail[i] != d && tail[i] != '\\'
            && tail[i] != '[' by {
            assert(tail[i] == plain[i + 1]);
        }
        law_end_of_a_pattern(tail, d, c, rest);
        assert(one.skip(1) =~= tail + (seq![d] + rest));
        assert(two.skip(1) =~= tail + (seq!['\\', c] + rest));
    }
}

proof fn lemma_members(members: Seq<char>, rest: Seq<char>)
    requires
        forall|i: int| 0 <= i < members.len() ==> #[trigger] members[i] != ']' && members[i] != '[',
    ensures
        crate::ed::after_members(members + (seq![']'] + rest)) == rest,
    decreases members.len(),
{
    let s = members + (seq![']'] + rest);
    if members.len() == 0 {
        assert(s =~= seq![']'] + rest);
        assert(s.skip(1) =~= rest);
    } else {
        let tail = members.skip(1);
        assert(members[0] != ']' && members[0] != '[');
        assert forall|i: int| 0 <= i < tail.len() implies #[trigger] tail[i] != ']' && tail[i]
            != '[' by {
            assert(tail[i] == members[i + 1]);
        }
        lemma_members(tail, rest);
        assert(s.skip(1) =~= tail + (seq![']'] + rest));
    }
}

/// A delimiter in brackets ends no pattern, and a `]` that comes first in them,
/// or first behind a `^`, does not end them.
pub proof fn law_brackets_in_a_pattern(members: Seq<char>, d: char, rest: Seq<char>)
    requires
        members.len() > 0 ==> members[0] != '^',
        forall|i: int| 0 <= i < members.len() ==> #[trigger] members[i] != ']' && members[i] != '[',
        d != '[',
    ensures
        members.len() > 0 ==> after_pattern(seq!['['] + (members + (seq![']'] + rest)), d)
            == after_pattern(rest, d),
        after_pattern(seq!['[', ']'] + (members + (seq![']'] + rest)), d) == after_pattern(rest, d),
        after_pattern(seq!['[', '^', ']'] + (members + (seq![']'] + rest)), d) == after_pattern(
            rest,
            d,
        ),
        members.len() > 0 ==> after_pattern(seq!['[', '^'] + (members + (seq![']'] + rest)), d)
            == after_pattern(rest, d),
{
    let end = members + (seq![']'] + rest);
    lemma_members(members, rest);
    let one = seq!['['] + end;
    assert(one.skip(1) =~= end);
    if members.len() > 0 {
        assert(members[0] != ']');
        assert(end[0] == members[0]);
    }
    let two = seq!['[', ']'] + end;
    assert(two.skip(1) =~= seq![']'] + end);
    assert(two.skip(1).skip(1) =~= end);
    let three = seq!['[', '^', ']'] + end;
    assert(three.skip(1) =~= seq!['^', ']'] + end);
    assert(three.skip(1).skip(1) =~= seq![']'] + end);
    assert(three.skip(1).skip(1).skip(1) =~= end);
    let four = seq!['[', '^'] + end;
    assert(four.skip(1) =~= seq!['^'] + end);
    assert(four.skip(1).skip(1) =~= end);
}

proof fn lemma_class(inner: Seq<char>, mark: char, rest: Seq<char>)
    requires
        forall|i: int| 0 <= i < inner.len() ==> #[trigger] inner[i] != mark,
    ensures
        crate::ed::after_class(inner + (seq![mark, ']'] + rest), mark) == rest,
    decreases inner.len(),
{
    let s = inner + (seq![mark, ']'] + rest);
    if inner.len() == 0 {
        assert(s =~= seq![mark, ']'] + rest);
        assert(s.skip(2) =~= rest);
    } else {
        let tail = inner.skip(1);
        assert(inner[0] != mark);
        assert forall|i: int| 0 <= i < tail.len() implies #[trigger] tail[i] != mark by {
            assert(tail[i] == inner[i + 1]);
        }
        lemma_class(tail, mark, rest);
        assert(s.skip(1) =~= tail + (seq![mark, ']'] + rest));
    }
}

/// A class in brackets, such as `[:alpha:]`, does not end them, whatever it
/// holds.
pub proof fn law_classes_in_brackets(
    inner: Seq<char>,
    mark: char,
    members: Seq<char>,
    d: char,
    rest: Seq<char>,
)
    requires
        mark == ':' || mark == '.' || mark == '=',
        forall|i: int| 0 <= i < inner.len() ==> #[trigger] inner[i] != mark,
        forall|i: int| 0 <= i < members.len() ==> #[trigger] members[i] != ']' && members[i] != '[',
        d != '[',
    ensures
        after_pattern(
            seq!['[', '[', mark] + (inner + (seq![mark, ']'] + (members + (seq![']'] + rest)))),
            d,
        ) == after_pattern(rest, d),
{
    let end = members + (seq![']'] + rest);
    let class = inner + (seq![mark, ']'] + end);
    lemma_class(inner, mark, end);
    lemma_members(members, rest);
    let s = seq!['[', '[', mark] + class;
    assert(s.skip(1) =~= seq!['[', mark] + class);
    assert(s.skip(1).skip(2) =~= class);
}

/// Patterns and marks in an address hide no shell command, and neither does a
/// list of commands that is carried out on the lines with a pattern.
pub proof fn law_patterns_hide_no_shell(
    plain: Seq<char>,
    d: char,
    g: char,
    m: char,
    command: Seq<char>,
)
    requires
        d == '/' || d == '?',
        g == 'g' || g == 'v',
        command.len() > 0,
        command[0] != 'I',
        forall|i: int|
            0 <= i < plain.len() ==> #[trigger] plain[i] != d && plain[i] != '\\' && plain[i] != '[',
    ensures
        runs_shell(seq![d] + (plain + (seq![d] + command))) == runs_shell(command),
        runs_shell(seq![d] + (plain + (seq![d, 'I'] + command))) == runs_shell(command),
        runs_shell(seq!['\'', m] + command) == runs_shell(command),
        runs_shell(seq![g, d] + (plain + (seq![d] + command))) == calls_shell(
            after_address(command),
        ),
{
    let one = seq![d] + (plain + (seq![d] + command));
    law_end_of_a_pattern(plain, d, m, command);
    assert(one.skip(1) =~= plain + (seq![d] + command));
    assert(after_address(one) == after_address(command));
    let two = seq![d] + (plain + (seq![d, 'I'] + command));
    let rest = seq!['I'] + command;
    assert(two.skip(1) =~= plain + (seq![d] + rest));
    law_end_of_a_pattern(plain, d, m, rest);
    assert(rest.skip(1) =~= command);
    assert(after_address(two) == after_address(command));
    let three = seq!['\'', m] + command;
    assert(three.skip(2) =~= command);
    assert(after_address(three) == after_address(command));
    let four = seq![g, d] + (plain + (seq![d] + command));
    assert(four.skip(2) =~= plain + (seq![d] + command));
    assert(after_address(four) == four);
}

// ---------------------------------------------------------------------------
// How lines are read
// ---------------------------------------------------------------------------

/// Text for the file follows a command that adds, inserts or changes lines, and
/// ends with a line of a single dot. A line is no text before such a command.
pub proof fn law_text_for_the_file(c: char, line: Seq<char>, d: char)
    requires
        c == 'a' || c == 'i' || c == 'c',
        d == 'd' || d == 'p' || d == 'w' || d == 'q',
    ensures
        next_reading(Reading::Command, seq![c]) == Reading::Text,
        next_reading(Reading::Command, seq!['1', c]) == Reading::Text,
        next_reading(Reading::Command, seq!['$', c]) == Reading::Text,
        next_reading(Reading::Command, seq![d]) == Reading::Command,
        next_reading(Reading::Text, seq!['.']) == Reading::Command,
        line != seq!['.'] ==> next_reading(Reading::Text, line) == Reading::Text,
{
    reveal_strlit(".");
    assert("."@ =~= seq!['.']);
    assert(after_address(seq![c]) == seq![c]);
    assert(seq!['1', c].skip(1) =~= seq![c]);
    assert(after_address(seq!['1', c]) == seq![c]);
    assert(seq!['$', c].skip(1) =~= seq![c]);
    assert(after_address(seq!['$', c]) == seq![c]);
    assert(after_address(seq![d]) == seq![d]);
    assert(seq![c].skip(1) =~= Seq::<char>::empty());
    assert(seq![d].skip(1) =~= Seq::<char>::empty());
    assert(!is_continued(Seq::<char>::empty()));
    assert(!is_continued(seq![c]));
    assert(!is_continued(seq![d]));
    assert(!is_continued(seq!['1', c]));
    assert(!is_continued(seq!['$', c]));
}

/// A line is continued if it ends with a backslash that no other backslash
/// stands for.
pub proof fn law_lines_that_go_on(plain: Seq<char>, c: char)
    requires
        forall|i: int| 0 <= i < plain.len() ==> #[trigger] plain[i] != '\\',
    ensures
        !is_continued(plain),
        is_continued(plain + seq!['\\']),
        !is_continued(plain + seq!['\\', c]),
    decreases plain.len(),
{
    let one = plain + seq!['\\'];
    let two = plain + seq!['\\', c];
    if plain.len() == 0 {
        assert(one =~= seq!['\\']);
        assert(two =~= seq!['\\', c]);
        assert(two.skip(2) =~= Seq::<char>::empty());
        assert(!is_continued(two.skip(2)));
    } else {
        let tail = plain.skip(1);
        assert(plain[0] != '\\');
        assert forall|i: int| 0 <= i < tail.len() implies #[trigger] tail[i] != '\\' by {
            assert(tail[i] == plain[i + 1]);
        }
        law_lines_that_go_on(tail, c);
        assert(one.skip(1) =~= tail + seq!['\\']);
        assert(two.skip(1) =~= tail + seq!['\\', c]);
    }
}

proof fn lemma_never_closes(plain: Seq<char>, d: char, rest: Seq<char>)
    requires
        d != '\\',
        forall|i: int| 0 <= i < plain.len() ==> #[trigger] plain[i] != '\\' && plain[i] != d,
    ensures
        !crate::ed::closes_replacement(plain, d),
        !crate::ed::closes_replacement(plain + seq!['\\'], d),
        crate::ed::closes_replacement(plain + (seq![d] + rest), d),
    decreases plain.len(),
{
    let one = plain + seq!['\\'];
    let two = plain + (seq![d] + rest);
    if plain.len() == 0 {
        assert(one =~= seq!['\\']);
        assert(two =~= seq![d] + rest);
    } else {
        let tail = plain.skip(1);
        assert(plain[0] != '\\' && plain[0] != d);
        assert forall|i: int| 0 <= i < tail.len() implies #[trigger] tail[i] != '\\' && tail[i]
            != d by {
            assert(tail[i] == plain[i + 1]);
        }
        lemma_never_closes(tail, d, rest);
        assert(one.skip(1) =~= tail + seq!['\\']);
        assert(two.skip(1) =~= tail + (seq![d] + rest));
    }
}

/// Any character delimits a substitution but white space, a digit and the letters
/// that repeat the last one.
pub proof fn law_delimiters_of_a_substitution(c: char)
    ensures
        '!' <= c <= '/' || ':' <= c <= '@' || 'A' <= c <= 'f' || 'h' <= c <= 'o' || c == 'q' || 's'
            <= c <= '~' ==> delimits(c),
        '0' <= c <= '9' || c == 'g' || c == 'p' || c == 'r' || c == ' ' || c == '\t' ==> !delimits(c),
{
}

/// A replacement goes on in the next line behind a backslash at the end of its
/// line, up to its delimiter or a line that does not go on.
pub proof fn law_replacements_over_lines(pattern: Seq<char>, d: char, text: Seq<char>, rest: Seq<char>)
    requires
        d == '/' || d == ',' || d == '|',
        forall|i: int|
            0 <= i < pattern.len() ==> #[trigger] pattern[i] != d && pattern[i] != '\\'
                && pattern[i] != '[',
        forall|i: int| 0 <= i < text.len() ==> #[trigger] text[i] != d && text[i] != '\\',
    ensures
        open_replacement(seq!['s', d] + (pattern + (seq![d] + (text + seq!['\\'])))) == Some(d),
        open_replacement(seq!['s', d] + (pattern + (seq![d] + text))) is None,
        open_replacement(seq!['s', d] + (pattern + (seq![d] + (text + (seq![d] + rest))))) is None,
        next_reading(Reading::Replacement(d), text + seq!['\\']) == Reading::Replacement(d),
        next_reading(Reading::Replacement(d), text) == Reading::Command,
        next_reading(Reading::Replacement(d), text + (seq![d] + rest)) == Reading::Command,
{
    lemma_never_closes(text, d, rest);
    assert(forall|i: int| 0 <= i < text.len() ==> #[trigger] text[i] != '\\');
    law_lines_that_go_on(text, d);
    let one = seq!['s', d] + (pattern + (seq![d] + (text + seq!['\\'])));
    assert(one.skip(2) =~= pattern + (seq![d] + (text + seq!['\\'])));
    law_end_of_a_pattern(pattern, d, d, text + seq!['\\']);
    let two = seq!['s', d] + (pattern + (seq![d] + text));
    assert(two.skip(2) =~= pattern + (seq![d] + text));
    law_end_of_a_pattern(pattern, d, d, text);
    let end = text + (seq![d] + rest);
    let three = seq!['s', d] + (pattern + (seq![d] + end));
    assert(three.skip(2) =~= pattern + (seq![d] + end));
    law_end_of_a_pattern(pattern, d, d, end);
}

/// A line that is read as a command, alone or in a list, counts if it runs a
/// shell command. Text and replacements do not count, and the lines after it are
/// read as it leaves the editor.
pub proof fn law_lines_that_count(lines: Seq<Seq<char>>, i: int, d: char)
    requires
        0 <= i < lines.len(),
    ensures
        runs_shell(lines[i]) ==> shell_from(lines, i, Reading::Command) && shell_from(
            lines,
            i,
            Reading::Listed,
        ),
        !runs_shell(lines[i]) ==> shell_from(lines, i, Reading::Command) == shell_from(
            lines,
            i + 1,
            next_reading(Reading::Command, lines[i]),
        ),
        shell_from(lines, i, Reading::Text) == shell_from(
            lines,
            i + 1,
            next_reading(Reading::Text, lines[i]),
        ),
        shell_from(lines, i, Reading::Replacement(d)) == shell_from(
            lines,
            i + 1,
            next_reading(Reading::Replacement(d), lines[i]),
        ),
        shell_from(lines, i, Reading::ListedText) == shell_from(
            lines,
            i + 1,
            next_reading(Reading::ListedText, lines[i]),
        ),
        !shell_from(lines, lines.len() as int, Reading::Command),
{
}

/// A list of commands goes on from line to line behind backslashes, and so does
/// text in it, up to a dot. The line that does not go on ends both.
pub proof fn law_lists_over_lines(plain: Seq<char>, pattern: Seq<char>, c: char, g: char)
    requires
        c == 'a' || c == 'i' || c == 'c',
        g == 'g' || g == 'v',
        forall|i: int| 0 <= i < plain.len() ==> #[trigger] plain[i] != '\\',
        forall|i: int|
            0 <= i < pattern.len() ==> #[trigger] pattern[i] != '/' && pattern[i] != '\\'
                && pattern[i] != '[',
    ensures
        next_reading(Reading::Listed, plain) == Reading::Command,
        next_reading(Reading::ListedText, plain) == Reading::Command,
        next_reading(Reading::Listed, seq![c, '\\']) == Reading::ListedText,
        next_reading(Reading::Listed, seq!['p', '\\']) == Reading::Listed,
        next_reading(Reading::ListedText, seq!['.', '\\']) == Reading::Listed,
        plain != seq!['.'] ==> next_reading(Reading::ListedText, plain + seq!['\\'])
            == Reading::ListedText,
        next_reading(Reading::Command, seq![g, '/'] + (pattern + (seq!['/'] + seq![c, '\\'])))
            == Reading::ListedText,
        next_reading(Reading::Command, seq![g, '/'] + (pattern + (seq!['/'] + seq![c])))
            == Reading::Command,
{
    reveal_strlit(".");
    assert("."@ =~= seq!['.']);
    law_lines_that_go_on(plain, c);
    law_lines_that_go_on(seq![c], c);
    law_lines_that_go_on(seq!['p'], c);
    law_lines_that_go_on(seq!['.'], c);
    assert(seq![c] + seq!['\\'] =~= seq![c, '\\']);
    assert(seq!['p'] + seq!['\\'] =~= seq!['p', '\\']);
    assert(seq!['.'] + seq!['\\'] =~= seq!['.', '\\']);
    assert(seq![c, '\\'].drop_last() =~= seq![c]);
    assert(seq!['p', '\\'].drop_last() =~= seq!['p']);
    assert(seq!['.', '\\'].drop_last() =~= seq!['.']);
    assert((plain + seq!['\\']).drop_last() =~= plain);
    assert(after_address(seq![c]) == seq![c]);
    assert(after_address(seq!['p']) == seq!['p']);
    let body = seq![g, '/'] + (pattern + (seq!['/'] + seq![c]));
    let line = seq![g, '/'] + (pattern + (seq!['/'] + seq![c, '\\']));
    assert(line =~= body + seq!['\\']);
    assert(line.drop_last() =~= body);
    assert forall|i: int| 0 <= i < body.len() implies #[trigger] body[i] != '\\' by {
        if 2 <= i < 2 + pattern.len() {
            assert(body[i] == pattern[i - 2]);
        }
    }
    law_lines_that_go_on(body, c);
    law_end_of_a_pattern(pattern, '/', c, seq![c]);
    assert(body.skip(2) =~= pattern + (seq!['/'] + seq![c]));
    assert(after_address(body) == body);
}

// ---------------------------------------------------------------------------
// What is run
// ---------------------------------------------------------------------------

/// Lines go to the script of the file that is named before them, in their order;
/// two header lines name the next file; and every script ends with the commands
/// to write the file and quit.
pub proof fn law_scripts_of_files(
    lines: Seq<Seq<char>>,
    i: int,
    file: Seq<char>,
    script: Seq<char>,
    runs: Seq<(Seq<char>, Seq<char>)>,
)
    requires
        0 <= i,
    ensures
        i >= lines.len() && script.len() > 0 ==> scripts_from(lines, i, Some(file), script, runs)
            == runs.push((file, script + seq!['w', '\n', 'q', '\n'])),
        i >= lines.len() && script.len() == 0 ==> scripts_from(lines, i, Some(file), script, runs)
            == runs,
        i >= lines.len() ==> scripts_from(lines, i, None, script, runs) == runs,
        i < lines.len() && !has_prefix(lines[i], "--- "@) ==> scripts_from(
            lines,
            i,
            Some(file),
            script,
            runs,
        ) == scripts_from(lines, i + 1, Some(file), script + lines[i] + seq!['\n'], runs),
        i + 1 < lines.len() && has_prefix(lines[i], "--- "@) && has_prefix(lines[i + 1], "+++ "@)
            && script.len() > 0 ==> scripts_from(lines, i, Some(file), script, runs)
            == scripts_from(
            lines,
            i + 2,
            Some(trimmed(lines[i].skip(4))),
            Seq::empty(),
            runs.push((file, script + seq!['w', '\n', 'q', '\n'])),
        ),
        i + 1 < lines.len() && has_prefix(lines[i], "--- "@) && has_prefix(lines[i + 1], "+++ "@)
            ==> scripts_from(lines, i, None, script, runs) == scripts_from(
            lines,
            i + 2,
            Some(trimmed(lines[i].skip(4))),
            script,
            runs,
        ),
{
    reveal_strlit("w\nq\n");
    reveal_strlit("\n");
    assert("w\nq\n"@ =~= seq!['w', '\n', 'q', '\n']);
    assert("\n"@ =~= seq!['\n']);
}

/// No script is run when one of its lines names a shell command, when no file is
/// named, or in a dry run; and otherwise each is run on its file.
pub proof fn law_scripts_that_are_run(input: Seq<char>, o: OptionsModel)
    ensures
        ({
            let lines = std_lines(input);
            let runs = scripts_from(
                newline_parts(input),
                0,
                o.positional_file,
                Seq::empty(),
                Seq::empty(),
            );
            let plain = exists|i: int|
                0 <= i < lines.len() && names_shell_plainly(#[trigger] lines[i]);
            let named = o.positional_file is Some || exists|i: int|
                0 <= i < lines.len() && has_prefix(#[trigger] lines[i], "--- "@);
            let shell = exists|k: int|
                0 <= k < runs.len() && script_runs_shell((#[trigger] runs[k]).1);
            &&& plain ==> ed_plan(input, o) == EdPlanModel::Shell
            &&& !plain && !named ==> ed_plan(input, o) == EdPlanModel::NoFile
            &&& !plain && named && shell ==> ed_plan(input, o) == EdPlanModel::Shell
            &&& !plain && named && !shell && o.on.dry_run ==> ed_plan(input, o)
                == EdPlanModel::Run(Seq::empty())
            &&& !plain && named && !shell && !o.on.dry_run ==> ed_plan(input, o)
                == EdPlanModel::Run(runs)
        }),
{
}

/// A line with a command to read or write and a `!` behind it names a shell
/// command wherever it stands.
pub proof fn law_lines_that_name_a_shell(
    before: Seq<char>,
    c: char,
    white: Seq<char>,
    rest: Seq<char>,
)
    requires
        forall|i: int| 0 <= i < before.len() ==> is_white(#[trigger] before[i]),
        forall|i: int| 0 <= i < white.len() ==> is_white(#[trigger] white[i]),
        c == 'r' || c == 'w',
    ensures
        names_shell_plainly(before + (seq![c, ' '] + (white + (seq!['!'] + rest)))),
{
    reveal_strlit("r ");
    reveal_strlit("w ");
    reveal_strlit("!");
    let mark = seq!['!'] + rest;
    let start = seq![c, ' '] + (white + mark);
    lemma_white_goes(before, start);
    assert(start.take(2) =~= seq![c, ' ']);
    assert("r "@ =~= seq!['r', ' ']);
    assert("w "@ =~= seq!['w', ' ']);
    let blank = seq![' '] + white;
    assert forall|i: int| 0 <= i < blank.len() implies is_white(#[trigger] blank[i]) by {
        if i > 0 {
            assert(blank[i] == white[i - 1]);
        }
    }
    assert(start.skip(1) =~= blank + mark);
    lemma_white_goes(blank, mark);
    assert(mark.take(1) =~= "!"@);
}

/// A script may be run on the file of the command line whatever its name, and on
/// another if its name does not lead out of the working directory.
pub proof fn law_files_that_scripts_change(
    file: Seq<char>,
    o: OptionsModel,
    place: Whereabouts,
    cwd: Option<Seq<char>>,
)
    ensures
        o.positional_file == Some(file) ==> is_allowed(file, o, place, cwd),
        o.positional_file != Some(file) ==> is_allowed(file, o, place, cwd) == !is_dangerous(
            file,
            place,
            cwd,
        ),
{
}

} // verus!
