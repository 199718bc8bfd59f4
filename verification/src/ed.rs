//! Scripts for the editor `ed`.
use vstd::prelude::*;

use crate::number::{all_digits, is_digit};
use crate::options::{Options, OptionsModel};
use crate::paths::{is_dangerous, is_dangerous_path, Whereabouts};
use crate::pattern::{is_match, matches_of, ED_COMMAND};
use crate::text::{
    chars_of, clone_opt, has_prefix, has_suffix, is_white, is_whitespace, joined,
    law_join_undoes_split, lemma_split_on, lemma_trimmed_start_step, lines_of, newline_parts,
    opt_text, split_lines, split_on, starts_with, std_lines, str_eq, strip_prefix, texts, trim,
    trim_start, trimmed, trimmed_start,
};

verus! {

/// A line that only a diff has.
pub open spec fn is_diff_line(line: Seq<char>) -> bool {
    has_prefix(line, "--- "@) || has_prefix(line, "+++ "@) || has_prefix(line, "@@"@) || has_prefix(
        line,
        "*** "@,
    ) || has_prefix(line, "diff --git "@)
}

/// A command for the last line, or for the lines from a number up to it, such
/// as `$d` or `3,$c`.
pub open spec fn is_last_line_command(s: Seq<char>) -> bool {
    let n = s.len() as int;
    &&& n >= 2
    &&& s[n - 2] == '$'
    &&& s[n - 1] == 'a' || s[n - 1] == 'c' || s[n - 1] == 'd'
    &&& n == 2 || (n >= 4 && s[n - 3] == ',' && all_digits(s.take(n - 3), 10))
}

/// A line with an address and a command.
pub open spec fn is_command_line(line: Seq<char>) -> bool {
    matches_of(ED_COMMAND@, trimmed_start(line)) || is_last_line_command(trimmed_start(line))
}

/// The lines hold a command and nothing that only a diff has.
pub open spec fn is_script(lines: Seq<Seq<char>>) -> bool {
    &&& forall|i: int| 0 <= i < lines.len() ==> !is_diff_line(#[trigger] lines[i])
    &&& exists|i: int| 0 <= i < lines.len() && is_command_line(#[trigger] lines[i])
}

/// A character of an address, other than those that begin a pattern or a mark.
pub open spec fn is_address_char(c: char) -> bool {
    is_white(c) || '0' <= c <= '9' || c == '.' || c == '$' || c == ',' || c == ';' || c == '%' || c
        == '+' || c == '-' || c == '^'
}

/// The command takes a file, or a shell command in its place.
pub open spec fn takes_file(c: char) -> bool {
    c == 'e' || c == 'E' || c == 'r' || c == 'w' || c == 'W'
}

/// What follows a command that takes a file begins with a `!`, after white
/// space or none, and after the `q` of `wq`.
pub open spec fn names_shell(s: Seq<char>) -> bool {
    let rest = trimmed_start(s);
    let after_q = trimmed_start(s.skip(1));
    ||| rest.len() > 0 && rest[0] == '!'
    ||| s.len() > 0 && (s[0] == 'q' || s[0] == 'Q') && after_q.len() > 0 && after_q[0] == '!'
}

/// What follows the end of a class in a bracket expression, such as `:]`;
/// `mark` is its first character. Nothing if there is none.
pub open spec fn after_class(s: Seq<char>, mark: char) -> Seq<char>
    decreases s.len(),
{
    if s.len() < 2 {
        Seq::empty()
    } else if s[0] == mark && s[1] == ']' {
        s.skip(2)
    } else {
        after_class(s.skip(1), mark)
    }
}

/// The character begins a class in a bracket expression, after a `[`.
pub open spec fn begins_class(c: char) -> bool {
    c == '.' || c == ':' || c == '='
}

/// What follows the `]` that ends a bracket expression, `s` being its members
/// and the rest. Nothing if it does not end.
pub open spec fn after_members(s: Seq<char>) -> Seq<char>
    decreases s.len(),
{
    if s.len() == 0 {
        s
    } else if s[0] == ']' {
        s.skip(1)
    } else if s[0] == '[' && s.len() > 1 && begins_class(s[1]) {
        proof {
            lemma_after_class(s.skip(2), s[1]);
        }
        after_members(after_class(s.skip(2), s[1]))
    } else {
        after_members(s.skip(1))
    }
}

/// What follows a bracket expression, `s` being what follows its `[`. A `]`
/// that comes first, or first after a `^`, is a member.
pub open spec fn after_brackets(s: Seq<char>) -> Seq<char> {
    let t = if s.len() > 0 && s[0] == '^' {
        s.skip(1)
    } else {
        s
    };
    after_members(
        if t.len() > 0 && t[0] == ']' {
            t.skip(1)
        } else {
            t
        },
    )
}

/// What follows the delimiter that ends a pattern: the first that is neither
/// escaped nor in brackets. `None` if there is none.
pub open spec fn after_pattern(s: Seq<char>, delimiter: char) -> Option<Seq<char>>
    decreases s.len(),
{
    if s.len() == 0 {
        None
    } else if s[0] == delimiter {
        Some(s.skip(1))
    } else if s[0] == '\\' {
        if s.len() > 1 {
            after_pattern(s.skip(2), delimiter)
        } else {
            None
        }
    } else if s[0] == '[' {
        proof {
            lemma_after_brackets(s.skip(1));
        }
        after_pattern(after_brackets(s.skip(1)), delimiter)
    } else {
        after_pattern(s.skip(1), delimiter)
    }
}

/// What follows a pattern and the `I` that lets it match either case. Nothing
/// if it does not end.
pub open spec fn after_match(s: Seq<char>, delimiter: char) -> Seq<char> {
    match after_pattern(s, delimiter) {
        Some(rest) => if rest.len() > 0 && rest[0] == 'I' {
            rest.skip(1)
        } else {
            rest
        },
        None => Seq::empty(),
    }
}

/// What follows the addresses: the command.
pub open spec fn after_address(s: Seq<char>) -> Seq<char>
    decreases s.len(),
{
    if s.len() == 0 {
        s
    } else if is_address_char(s[0]) {
        after_address(s.skip(1))
    } else if s[0] == '\'' {
        if s.len() > 1 {
            after_address(s.skip(2))
        } else {
            Seq::empty()
        }
    } else if s[0] == '/' || s[0] == '?' {
        proof {
            lemma_after_match(s.skip(1), s[0]);
        }
        after_address(after_match(s.skip(1), s[0]))
    } else {
        s
    }
}

/// The first command of the list that `g` or `v` carries out on the lines it
/// picks, after its address.
pub open spec fn listed_command(command: Seq<char>) -> Option<Seq<char>> {
    if command.len() > 1 && (command[0] == 'g' || command[0] == 'v') && !is_white(command[1]) {
        Some(after_address(after_match(command.skip(2), command[1])))
    } else {
        None
    }
}

/// The command is a `!`, or one that takes a file with a `!` in its place.
pub open spec fn calls_shell(command: Seq<char>) -> bool {
    command.len() > 0 && (command[0] == '!' || (takes_file(command[0]) && names_shell(
        command.skip(1),
    )))
}

/// Read as a command of the editor, the line runs a shell command: after an
/// address or none, or on the lines that `g` or `v` picks.
pub open spec fn runs_shell(line: Seq<char>) -> bool {
    let command = after_address(line);
    ||| calls_shell(command)
    ||| (listed_command(command) matches Some(listed) && calls_shell(listed))
}

/// `t` is the end of `s`.
pub open spec fn is_tail(t: Seq<char>, s: Seq<char>) -> bool {
    t.len() <= s.len() && t == s.skip(s.len() - t.len())
}

proof fn lemma_tail_of_tail(t: Seq<char>, s: Seq<char>, n: int)
    requires
        0 <= n <= s.len(),
        is_tail(t, s.skip(n)),
    ensures
        is_tail(t, s),
{
    assert(t =~= s.skip(s.len() - t.len()));
}

proof fn lemma_tail_contains(t: Seq<char>, s: Seq<char>, c: char)
    requires
        is_tail(t, s),
        t.contains(c),
    ensures
        s.contains(c),
{
    let k = choose|k: int| 0 <= k < t.len() && t[k] == c;
    assert(s[s.len() - t.len() + k] == c);
}

pub proof fn lemma_after_class(s: Seq<char>, mark: char)
    ensures
        is_tail(after_class(s, mark), s),
    decreases s.len(),
{
    if s.len() < 2 {
        assert(s.skip(s.len() as int) =~= Seq::empty());
    } else if !(s[0] == mark && s[1] == ']') {
        lemma_after_class(s.skip(1), mark);
        lemma_tail_of_tail(after_class(s, mark), s, 1);
    }
}

proof fn lemma_after_members(s: Seq<char>)
    ensures
        is_tail(after_members(s), s),
    decreases s.len(),
{
    if s.len() == 0 {
        assert(s.skip(0) =~= s);
    } else if s[0] != ']' {
        if s[0] == '[' && s.len() > 1 && begins_class(s[1]) {
            let rest = after_class(s.skip(2), s[1]);
            lemma_after_class(s.skip(2), s[1]);
            lemma_after_members(rest);
            lemma_tail_of_tail(rest, s, 2);
            lemma_tail_of_tail(after_members(s), s, s.len() - rest.len());
        } else {
            lemma_after_members(s.skip(1));
            lemma_tail_of_tail(after_members(s), s, 1);
        }
    }
}

pub proof fn lemma_after_brackets(s: Seq<char>)
    ensures
        is_tail(after_brackets(s), s),
{
    let t = if s.len() > 0 && s[0] == '^' {
        s.skip(1)
    } else {
        s
    };
    let u = if t.len() > 0 && t[0] == ']' {
        t.skip(1)
    } else {
        t
    };
    lemma_after_members(u);
    assert(u =~= s.skip(s.len() - u.len()));
    lemma_tail_of_tail(after_brackets(s), s, s.len() - u.len());
}

proof fn lemma_after_pattern(s: Seq<char>, delimiter: char)
    ensures
        after_pattern(s, delimiter) matches Some(rest) ==> is_tail(rest, s),
    decreases s.len(),
{
    if s.len() > 0 && s[0] != delimiter {
        let n: int = if s[0] == '\\' {
            2
        } else if s[0] == '[' {
            let rest = after_brackets(s.skip(1));
            lemma_after_brackets(s.skip(1));
            lemma_tail_of_tail(rest, s, 1);
            s.len() - rest.len()
        } else {
            1
        };
        if n <= s.len() {
            lemma_after_pattern(s.skip(n), delimiter);
            if let Some(rest) = after_pattern(s, delimiter) {
                lemma_tail_of_tail(rest, s, n);
            }
        }
    }
}

pub proof fn lemma_after_match(s: Seq<char>, delimiter: char)
    ensures
        is_tail(after_match(s, delimiter), s),
{
    lemma_after_pattern(s, delimiter);
    match after_pattern(s, delimiter) {
        Some(rest) => {
            if rest.len() > 0 && rest[0] == 'I' {
                assert(rest.skip(1) =~= s.skip(s.len() - rest.len() + 1));
            }
        },
        None => {
            assert(s.skip(s.len() as int) =~= Seq::empty());
        },
    }
}

proof fn lemma_after_address(s: Seq<char>)
    ensures
        is_tail(after_address(s), s),
    decreases s.len(),
{
    if s.len() == 0 {
        assert(s.skip(0) =~= s);
    } else if is_address_char(s[0]) {
        lemma_after_address(s.skip(1));
        lemma_tail_of_tail(after_address(s), s, 1);
    } else if s[0] == '\'' {
        if s.len() > 1 {
            lemma_after_address(s.skip(2));
            lemma_tail_of_tail(after_address(s), s, 2);
        } else {
            assert(s.skip(1) =~= Seq::empty());
        }
    } else if s[0] == '/' || s[0] == '?' {
        let rest = after_match(s.skip(1), s[0]);
        lemma_after_match(s.skip(1), s[0]);
        lemma_after_address(rest);
        lemma_tail_of_tail(rest, s, 1);
        lemma_tail_of_tail(after_address(s), s, s.len() - rest.len());
    } else {
        assert(s.skip(0) =~= s);
    }
}

proof fn lemma_call_has_mark(command: Seq<char>)
    requires
        calls_shell(command),
    ensures
        command.contains('!'),
{
    if command[0] != '!' {
        let s = command.skip(1);
        let after_q = s.skip(1);
        lemma_trimmed_start_step(s);
        let rest = trimmed_start(s);
        if rest.len() > 0 && rest[0] == '!' {
            assert(rest.contains(rest[0]));
            lemma_tail_contains(rest, s, '!');
        } else {
            lemma_trimmed_start_step(after_q);
            let rest = trimmed_start(after_q);
            assert(rest.contains(rest[0]));
            lemma_tail_contains(rest, after_q, '!');
            lemma_tail_contains(after_q, s, '!');
        }
        lemma_tail_contains(s, command, '!');
    }
}

/// A line without a `!` runs no shell command.
pub proof fn law_shell_needs_a_mark(line: Seq<char>)
    requires
        runs_shell(line),
    ensures
        line.contains('!'),
{
    let command = after_address(line);
    lemma_after_address(line);
    if calls_shell(command) {
        lemma_call_has_mark(command);
    } else {
        let picked = after_match(command.skip(2), command[1]);
        let listed = after_address(picked);
        lemma_call_has_mark(listed);
        lemma_after_address(picked);
        lemma_tail_contains(listed, picked, '!');
        lemma_after_match(command.skip(2), command[1]);
        lemma_tail_of_tail(picked, command, 2);
        lemma_tail_contains(picked, command, '!');
    }
    lemma_tail_contains(command, line, '!');
}

/// An address makes no difference: a line runs a shell command when what
/// follows its line numbers does.
pub proof fn law_addresses_hide_no_shell(address: Seq<char>, command: Seq<char>)
    requires
        forall|i: int| 0 <= i < address.len() ==> is_address_char(#[trigger] address[i]),
    ensures
        runs_shell(address + command) == runs_shell(command),
    decreases address.len(),
{
    let line = address + command;
    if address.len() == 0 {
        assert(line =~= command);
    } else {
        assert(is_address_char(address[0]));
        let rest = address.skip(1);
        assert forall|i: int| 0 <= i < rest.len() implies is_address_char(#[trigger] rest[i]) by {
            assert(rest[i] == address[i + 1]);
        }
        law_addresses_hide_no_shell(rest, command);
        assert(line.skip(1) =~= rest + command);
    }
}

/// A substitution runs no shell command, at whatever address and whatever it
/// puts in place of what.
pub proof fn law_substitutions_run_nothing(line: Seq<char>)
    requires
        after_address(line).len() > 0,
        after_address(line)[0] == 's',
    ensures
        !runs_shell(line),
{
}

// ---------------------------------------------------------------------------
// Lines of a script
// ---------------------------------------------------------------------------

/// How the editor reads a line, in a script whose commands succeed: after one
/// that fails, what was to be its text is read as commands.
#[derive(Debug, Clone, Copy)]
pub enum Reading {
    /// As a command.
    Command,
    /// As text for the file, which a line with a single dot ends.
    Text,
    /// As more of a replacement that this character ends.
    Replacement(char),
    /// As one more command for the lines that `g` or `v` picks.
    Listed,
    /// As text among such commands.
    ListedText,
}

/// The text ends with a backslash that escapes what comes next.
pub open spec fn is_continued(s: Seq<char>) -> bool
    decreases s.len(),
{
    if s.len() == 0 {
        false
    } else if s[0] == '\\' {
        s.len() == 1 || is_continued(s.skip(2))
    } else {
        is_continued(s.skip(1))
    }
}

/// The command is followed by text: it is `a`, `i` or `c`, and nothing but
/// ways to print a line stands behind it.
pub open spec fn opens_text(command: Seq<char>) -> bool {
    &&& command.len() > 0
    &&& command[0] == 'a' || command[0] == 'i' || command[0] == 'c'
    &&& forall|i: int|
        1 <= i < command.len() ==> (#[trigger] command[i] == 'p' || command[i] == 'l' || command[i]
            == 'n')
}

/// The replacement ends: its delimiter is in the text, and not escaped.
pub open spec fn closes_replacement(s: Seq<char>, delimiter: char) -> bool
    decreases s.len(),
{
    if s.len() == 0 {
        false
    } else if s[0] == delimiter {
        true
    } else if s[0] == '\\' {
        s.len() > 1 && closes_replacement(s.skip(2), delimiter)
    } else {
        closes_replacement(s.skip(1), delimiter)
    }
}

/// A substitution has this delimiter; behind `s`, white space, digits and the
/// letters `g`, `p` and `r` repeat the last one.
pub open spec fn delimits(c: char) -> bool {
    !is_white(c) && !('0' <= c <= '9') && c != 'g' && c != 'p' && c != 'r'
}

/// The delimiter of a replacement that goes on in the next line.
pub open spec fn open_replacement(command: Seq<char>) -> Option<char> {
    if command.len() > 1 && command[0] == 's' && delimits(command[1]) {
        match after_pattern(command.skip(2), command[1]) {
            Some(rest) => if !closes_replacement(rest, command[1]) && is_continued(rest) {
                Some(command[1])
            } else {
                None
            },
            None => None,
        }
    } else {
        None
    }
}

/// How the editor reads the line after `line`, which it reads as `now` says.
pub open spec fn next_reading(now: Reading, line: Seq<char>) -> Reading {
    let body = if is_continued(line) {
        line.drop_last()
    } else {
        line
    };
    match now {
        Reading::Command => {
            let command = after_address(body);
            match listed_command(command) {
                Some(listed) => if !is_continued(line) {
                    Reading::Command
                } else if opens_text(listed) {
                    Reading::ListedText
                } else {
                    Reading::Listed
                },
                None => if opens_text(after_address(line)) {
                    Reading::Text
                } else {
                    match open_replacement(after_address(line)) {
                        Some(delimiter) => Reading::Replacement(delimiter),
                        None => Reading::Command,
                    }
                },
            }
        },
        Reading::Text => if line == "."@ {
            Reading::Command
        } else {
            Reading::Text
        },
        Reading::Replacement(delimiter) => if !closes_replacement(line, delimiter) && is_continued(
            line,
        ) {
            now
        } else {
            Reading::Command
        },
        Reading::Listed => if !is_continued(line) {
            Reading::Command
        } else if opens_text(after_address(body)) {
            Reading::ListedText
        } else {
            Reading::Listed
        },
        Reading::ListedText => if !is_continued(line) {
            Reading::Command
        } else if body == "."@ {
            Reading::Listed
        } else {
            Reading::ListedText
        },
    }
}

/// The line is read as a command.
pub open spec fn is_command(now: Reading) -> bool {
    now is Command || now is Listed
}

/// A line from `i` on that the editor reads as a command runs a shell command;
/// it reads line `i` as `now` says.
pub open spec fn shell_from(lines: Seq<Seq<char>>, i: int, now: Reading) -> bool
    decreases lines.len() - i,
{
    i < lines.len() && ((is_command(now) && runs_shell(lines[i])) || shell_from(
        lines,
        i + 1,
        next_reading(now, lines[i]),
    ))
}

/// The script makes the editor run a shell command, as long as the commands
/// before it succeed.
pub open spec fn script_runs_shell(script: Seq<char>) -> bool {
    shell_from(newline_parts(script), 0, Reading::Command)
}

/// Text for the file runs nothing, whatever it is: up to the line with a
/// single dot no line is read as a command, and the one after it is.
pub proof fn law_text_runs_nothing(lines: Seq<Seq<char>>, i: int, end: int)
    requires
        0 <= i <= end < lines.len(),
        lines[end] == "."@,
        forall|k: int| i <= k < end ==> #[trigger] lines[k] != "."@,
    ensures
        shell_from(lines, i, Reading::Text) == shell_from(lines, end + 1, Reading::Command),
    decreases end - i,
{
    if i < end {
        law_text_runs_nothing(lines, i + 1, end);
    }
}

/// The line begins with `r` or `w` and a space, and then, after white space or
/// none, a `!`. Such a line is refused wherever it stands.
pub open spec fn names_shell_plainly(line: Seq<char>) -> bool {
    let start = trimmed_start(line);
    (has_prefix(start, "r "@) || has_prefix(start, "w "@)) && has_prefix(
        trimmed_start(start.skip(1)),
        "!"@,
    )
}

/// The names of files and the scripts for them.
#[derive(Debug)]
pub struct EdRun {
    pub file: String,
    pub script: String,
}

/// A file and its script as texts.
pub open spec fn run_model(run: EdRun) -> (Seq<char>, Seq<char>) {
    (run.file@, run.script@)
}

/// Files and their scripts as texts.
pub open spec fn run_models(runs: Seq<EdRun>) -> Seq<(Seq<char>, Seq<char>)> {
    Seq::new(runs.len(), |i: int| run_model(runs[i]))
}

/// What a script ends with, so that the editor writes the file and quits.
pub open spec fn finished(script: Seq<char>) -> Seq<char> {
    script + "w\nq\n"@
}

/// The scripts so far, with the one for `file` if it has a file and commands.
pub open spec fn with_run(
    runs: Seq<(Seq<char>, Seq<char>)>,
    file: Option<Seq<char>>,
    script: Seq<char>,
) -> Seq<(Seq<char>, Seq<char>)> {
    if file is Some && script.len() > 0 {
        runs.push((file->0, finished(script)))
    } else {
        runs
    }
}

/// The scripts from line `i` on. Two header lines name the file for the lines
/// that follow; commands before any file is named stay for the next one.
pub open spec fn scripts_from(
    lines: Seq<Seq<char>>,
    i: int,
    file: Option<Seq<char>>,
    script: Seq<char>,
    runs: Seq<(Seq<char>, Seq<char>)>,
) -> Seq<(Seq<char>, Seq<char>)>
    decreases lines.len() - i,
{
    if i >= lines.len() {
        with_run(runs, file, script)
    } else if has_prefix(lines[i], "--- "@) && i + 1 < lines.len() && has_prefix(
        lines[i + 1],
        "+++ "@,
    ) {
        scripts_from(
            lines,
            i + 2,
            Some(trimmed(lines[i].skip(4))),
            if file is Some {
                Seq::empty()
            } else {
                script
            },
            with_run(runs, file, script),
        )
    } else {
        scripts_from(lines, i + 1, file, script + lines[i] + "\n"@, runs)
    }
}

/// What is to be done with a script.
#[derive(Debug)]
pub enum EdPlan {
    /// Nothing: it would run a shell command.
    Shell,
    /// Nothing: no file is named anywhere.
    NoFile,
    /// These scripts are run, one after the other.
    Run(Vec<EdRun>),
}

/// The plan with its texts.
pub enum EdPlanModel {
    Shell,
    NoFile,
    Run(Seq<(Seq<char>, Seq<char>)>),
}

impl View for EdPlan {
    type V = EdPlanModel;

    open spec fn view(&self) -> EdPlanModel {
        match self {
            EdPlan::Shell => EdPlanModel::Shell,
            EdPlan::NoFile => EdPlanModel::NoFile,
            EdPlan::Run(runs) => EdPlanModel::Run(run_models(runs@)),
        }
    }
}

/// What is to be done with the script `input`. A dry run runs none.
pub open spec fn ed_plan(input: Seq<char>, o: OptionsModel) -> EdPlanModel {
    let lines = std_lines(input);
    let runs = scripts_from(
        newline_parts(input),
        0,
        o.positional_file,
        Seq::empty(),
        Seq::empty(),
    );
    if exists|i: int| 0 <= i < lines.len() && names_shell_plainly(#[trigger] lines[i]) {
        EdPlanModel::Shell
    } else if o.positional_file is None && !(exists|i: int|
        0 <= i < lines.len() && has_prefix(#[trigger] lines[i], "--- "@)) {
        EdPlanModel::NoFile
    } else if exists|k: int| 0 <= k < runs.len() && script_runs_shell((#[trigger] runs[k]).1) {
        EdPlanModel::Shell
    } else if o.on.dry_run {
        EdPlanModel::Run(Seq::empty())
    } else {
        EdPlanModel::Run(runs)
    }
}

proof fn lemma_scripts_finish(
    lines: Seq<Seq<char>>,
    i: int,
    file: Option<Seq<char>>,
    script: Seq<char>,
    runs: Seq<(Seq<char>, Seq<char>)>,
    k: int,
)
    requires
        forall|j: int|
            0 <= j < runs.len() ==> has_suffix((#[trigger] runs[j]).1, "w\nq\n"@),
        0 <= k < scripts_from(lines, i, file, script, runs).len(),
    ensures
        has_suffix(scripts_from(lines, i, file, script, runs)[k].1, "w\nq\n"@),
    decreases lines.len() - i,
{
    let more = with_run(runs, file, script);
    assert(finished(script).skip(finished(script).len() - "w\nq\n"@.len()) =~= "w\nq\n"@);
    if i < lines.len() {
        if has_prefix(lines[i], "--- "@) && i + 1 < lines.len() && has_prefix(
            lines[i + 1],
            "+++ "@,
        ) {
            lemma_scripts_finish(
                lines,
                i + 2,
                Some(trimmed(lines[i].skip(4))),
                if file is Some {
                    Seq::empty()
                } else {
                    script
                },
                more,
                k,
            );
        } else {
            lemma_scripts_finish(lines, i + 1, file, script + lines[i] + "\n"@, runs, k);
        }
    }
}

/// Whatever the input, a script is run only when no line that the editor reads
/// as a command runs a shell command, as long as its commands succeed, and it
/// ends with the commands to write the file and quit.
pub proof fn law_scripts_are_safe_and_end(input: Seq<char>, o: OptionsModel)
    ensures
        ed_plan(input, o) matches EdPlanModel::Run(runs) ==> {
            &&& forall|k: int|
                0 <= k < runs.len() ==> has_suffix((#[trigger] runs[k]).1, "w\nq\n"@)
                    && !script_runs_shell(runs[k].1)
            &&& forall|i: int|
                0 <= i < std_lines(input).len() ==> !names_shell_plainly(
                    #[trigger] std_lines(input)[i],
                )
        },
{
    if let EdPlanModel::Run(runs) = ed_plan(input, o) {
        assert forall|k: int| 0 <= k < runs.len() implies has_suffix(
            (#[trigger] runs[k]).1,
            "w\nq\n"@,
        ) by {
            lemma_scripts_finish(
                newline_parts(input),
                0,
                o.positional_file,
                Seq::empty(),
                Seq::empty(),
                k,
            );
        }
    }
}

proof fn lemma_plain_lines(
    lines: Seq<Seq<char>>,
    i: int,
    file: Option<Seq<char>>,
    script: Seq<char>,
)
    requires
        0 <= i <= lines.len(),
        forall|j: int| 0 <= j < lines.len() ==> !has_prefix(#[trigger] lines[j], "--- "@),
        script == if i == 0 {
            Seq::empty()
        } else {
            joined(lines.take(i), "\n"@) + "\n"@
        },
    ensures
        scripts_from(lines, i, file, script, Seq::empty()) == with_run(
            Seq::empty(),
            file,
            if lines.len() == 0 {
                Seq::empty()
            } else {
                joined(lines, "\n"@) + "\n"@
            },
        ),
    decreases lines.len() - i,
{
    if i == lines.len() {
        assert(lines.take(i) =~= lines);
    } else {
        let next = lines.take(i + 1);
        assert(next.drop_last() =~= lines.take(i));
        assert(script + lines[i] + "\n"@ =~= joined(next, "\n"@) + "\n"@) by {
            if i == 0 {
                assert(joined(next, "\n"@) == lines[0]);
            }
        }
        lemma_plain_lines(lines, i + 1, file, script + lines[i] + "\n"@);
    }
}

/// A script without headers reaches the editor as it is, carriage returns and
/// all, for the file on the command line.
pub proof fn law_plain_script_is_kept(input: Seq<char>, file: Seq<char>)
    requires
        has_suffix(input, "\n"@),
        forall|i: int|
            0 <= i < newline_parts(input).len() ==> !has_prefix(
                #[trigger] newline_parts(input)[i],
                "--- "@,
            ),
    ensures
        scripts_from(newline_parts(input), 0, Some(file), Seq::empty(), Seq::empty()) == seq![
            (file, finished(input)),
        ],
{
    reveal_strlit("\n");
    assert("\n"@ =~= seq!['\n']);
    let parts = split_on(input, '\n');
    let lines = newline_parts(input);
    law_join_undoes_split(input, '\n');
    lemma_split_on(input, '\n');
    assert(input.last() == '\n') by {
        assert(input.skip(input.len() - 1)[0] == '\n');
    }
    assert(parts.last().len() == 0) by {
        if parts.last().len() > 0 {
            assert(joined(parts, seq!['\n']).last() == parts.last().last());
            assert(parts[parts.len() - 1].contains(parts.last().last()));
        }
    }
    assert(lines =~= parts.drop_last());
    if parts.len() == 1 {
        assert(joined(parts, seq!['\n']) == parts[0]);
    }
    assert(joined(parts, seq!['\n']) =~= joined(lines, seq!['\n']) + seq!['\n']);
    lemma_plain_lines(lines, 0, Some(file), Seq::empty());
    assert(Seq::<(Seq<char>, Seq<char>)>::empty().push((file, finished(input))) =~= seq![
        (file, finished(input)),
    ]);
}

// ---------------------------------------------------------------------------
// Operations
// ---------------------------------------------------------------------------

fn diff_line(line: &str) -> (r: bool)
    ensures
        r == is_diff_line(line@),
{
    starts_with(line, "--- ") || starts_with(line, "+++ ") || starts_with(line, "@@")
        || starts_with(line, "*** ") || starts_with(line, "diff --git ")
}

fn last_line_command(s: &str) -> (r: bool)
    ensures
        r == is_last_line_command(s@),
{
    let cs = chars_of(s);
    let n = cs.len();
    if n < 2 || cs[n - 2] != '$' || !(cs[n - 1] == 'a' || cs[n - 1] == 'c' || cs[n - 1] == 'd') {
        return false;
    }
    if n == 2 {
        return true;
    }
    if n < 4 || cs[n - 3] != ',' {
        return false;
    }
    let ghost number = s@.take(n - 3);
    let mut i: usize = 0;
    while i < n - 3
        invariant
            cs@ == s@,
            n == cs@.len(),
            4 <= n,
            i <= n - 3,
            number == s@.take(n - 3),
            forall|j: int| 0 <= j < i ==> is_digit(#[trigger] number[j], 10),
        decreases n - 3 - i,
    {
        assert(number[i as int] == cs@[i as int]);
        if !('0' <= cs[i] && cs[i] <= '9') {
            assert(!is_digit(number[i as int], 10));
            return false;
        }
        i = i + 1;
    }
    true
}

/// Whether `input` looks like a script for `ed`.
pub fn looks_like_ed_script(input: &str) -> (r: bool)
    ensures
        r == is_script(std_lines(input@)),
{
    let lines = lines_of(input);
    let ghost all = std_lines(input@);
    let mut commands = false;
    let mut i: usize = 0;
    while i < lines.len()
        invariant
            all == std_lines(input@),
            all == texts(lines@),
            i <= lines@.len(),
            forall|j: int| 0 <= j < i ==> !is_diff_line(#[trigger] all[j]),
            commands == exists|j: int| 0 <= j < i && is_command_line(#[trigger] all[j]),
        decreases lines@.len() - i,
    {
        assert(all[i as int] == lines@[i as int]@);
        if diff_line(lines[i].as_str()) {
            return false;
        }
        let line = trim_start(lines[i].as_str());
        if is_match(ED_COMMAND, line) || last_line_command(line) {
            commands = true;
            assert(is_command_line(all[i as int]));
        }
        i = i + 1;
    }
    commands
}

fn address_char(c: char) -> (r: bool)
    ensures
        r == is_address_char(c),
{
    is_whitespace(c) || ('0' <= c && c <= '9') || c == '.' || c == '$' || c == ',' || c == ';' || c
        == '%' || c == '+' || c == '-' || c == '^'
}

/// Whether the first character from `from` on that is not white space is a
/// `!`.
fn mark_follows(cs: &Vec<char>, from: usize) -> (r: bool)
    requires
        from <= cs@.len(),
    ensures
        ({
            let rest = trimmed_start(cs@.skip(from as int));
            r == (rest.len() > 0 && rest[0] == '!')
        }),
{
    let ghost want = trimmed_start(cs@.skip(from as int));
    let mut i: usize = from;
    while i < cs.len() && is_whitespace(cs[i])
        invariant
            from <= i <= cs@.len(),
            trimmed_start(cs@.skip(i as int)) == want,
        decreases cs@.len() - i,
    {
        proof {
            lemma_trimmed_start_step(cs@.skip(i as int));
            assert(cs@.skip(i as int).skip(1) =~= cs@.skip(i + 1));
        }
        i = i + 1;
    }
    proof {
        lemma_trimmed_start_step(cs@.skip(i as int));
    }
    i < cs.len() && cs[i] == '!'
}

/// Whether what follows a command that takes a file, from `from` on, is a shell
/// command.
fn shell_named(cs: &Vec<char>, from: usize) -> (r: bool)
    requires
        from <= cs@.len(),
    ensures
        r == names_shell(cs@.skip(from as int)),
{
    if mark_follows(cs, from) {
        return true;
    }
    if from < cs.len() && (cs[from] == 'q' || cs[from] == 'Q') {
        assert(cs@.skip(from as int).skip(1) =~= cs@.skip(from + 1));
        return mark_follows(cs, from + 1);
    }
    false
}

/// Where the text goes on behind the end of a class.
fn class_end(cs: &Vec<char>, from: usize, mark: char) -> (r: usize)
    requires
        from <= cs@.len(),
    ensures
        from <= r <= cs@.len(),
        cs@.skip(r as int) == after_class(cs@.skip(from as int), mark),
{
    let n = cs.len();
    let mut i: usize = from;
    while i < n && n - i >= 2
        invariant
            n == cs@.len(),
            from <= i <= n,
            after_class(cs@.skip(i as int), mark) == after_class(cs@.skip(from as int), mark),
        decreases n - i,
    {
        proof {
            assert(cs@.skip(i as int).skip(1) =~= cs@.skip(i + 1));
            assert(cs@.skip(i as int).skip(2) =~= cs@.skip(i + 2));
        }
        if cs[i] == mark && cs[i + 1] == ']' {
            return i + 2;
        }
        i = i + 1;
    }
    assert(cs@.skip(n as int) =~= Seq::empty());
    n
}

/// Where the text goes on behind the members of a bracket expression.
fn members_end(cs: &Vec<char>, from: usize) -> (r: usize)
    requires
        from <= cs@.len(),
    ensures
        from <= r <= cs@.len(),
        cs@.skip(r as int) == after_members(cs@.skip(from as int)),
{
    let n = cs.len();
    let mut i: usize = from;
    while i < n
        invariant
            n == cs@.len(),
            from <= i <= n,
            after_members(cs@.skip(i as int)) == after_members(cs@.skip(from as int)),
        decreases n - i,
    {
        assert(cs@.skip(i as int).skip(1) =~= cs@.skip(i + 1));
        let c = cs[i];
        if c == ']' {
            return i + 1;
        }
        if c == '[' && n - i > 1 && (cs[i + 1] == '.' || cs[i + 1] == ':' || cs[i + 1] == '=') {
            assert(cs@.skip(i as int).skip(2) =~= cs@.skip(i + 2));
            i = class_end(cs, i + 2, cs[i + 1]);
        } else {
            i = i + 1;
        }
    }
    assert(cs@.skip(n as int) =~= Seq::empty());
    n
}

/// Where the text goes on behind a bracket expression.
fn brackets_end(cs: &Vec<char>, from: usize) -> (r: usize)
    requires
        from <= cs@.len(),
    ensures
        from <= r <= cs@.len(),
        cs@.skip(r as int) == after_brackets(cs@.skip(from as int)),
{
    let n = cs.len();
    let mut i: usize = from;
    if i < n && cs[i] == '^' {
        assert(cs@.skip(i as int).skip(1) =~= cs@.skip(i + 1));
        i = i + 1;
    }
    if i < n && cs[i] == ']' {
        assert(cs@.skip(i as int).skip(1) =~= cs@.skip(i + 1));
        i = i + 1;
    }
    members_end(cs, i)
}

/// Where the text goes on behind the delimiter that ends a pattern.
fn pattern_end(cs: &Vec<char>, from: usize, delimiter: char) -> (r: Option<usize>)
    requires
        from <= cs@.len(),
    ensures
        match r {
            Some(end) => from < end <= cs@.len() && after_pattern(
                cs@.skip(from as int),
                delimiter,
            ) == Some(cs@.skip(end as int)),
            None => after_pattern(cs@.skip(from as int), delimiter) is None,
        },
{
    let n = cs.len();
    let mut i: usize = from;
    while i < n
        invariant
            n == cs@.len(),
            from <= i <= n,
            after_pattern(cs@.skip(i as int), delimiter) == after_pattern(
                cs@.skip(from as int),
                delimiter,
            ),
        decreases n - i,
    {
        assert(cs@.skip(i as int).skip(1) =~= cs@.skip(i + 1));
        let c = cs[i];
        if c == delimiter {
            return Some(i + 1);
        }
        if c == '\\' {
            if n - i == 1 {
                return None;
            }
            assert(cs@.skip(i as int).skip(2) =~= cs@.skip(i + 2));
            i = i + 2;
        } else if c == '[' {
            i = brackets_end(cs, i + 1);
        } else {
            i = i + 1;
        }
    }
    None
}

/// Where the text goes on behind a pattern.
fn match_end(cs: &Vec<char>, from: usize, delimiter: char) -> (r: usize)
    requires
        from <= cs@.len(),
    ensures
        from <= r <= cs@.len(),
        cs@.skip(r as int) == after_match(cs@.skip(from as int), delimiter),
{
    match pattern_end(cs, from, delimiter) {
        Some(end) => {
            if end < cs.len() && cs[end] == 'I' {
                assert(cs@.skip(end as int).skip(1) =~= cs@.skip(end + 1));
                end + 1
            } else {
                end
            }
        },
        None => {
            assert(cs@.skip(cs@.len() as int) =~= Seq::empty());
            cs.len()
        },
    }
}

/// Where the command begins.
fn address_end(cs: &Vec<char>, from: usize) -> (r: usize)
    requires
        from <= cs@.len(),
    ensures
        from <= r <= cs@.len(),
        cs@.skip(r as int) == after_address(cs@.skip(from as int)),
{
    let n = cs.len();
    let mut i: usize = from;
    while i < n
        invariant
            n == cs@.len(),
            from <= i <= n,
            after_address(cs@.skip(i as int)) == after_address(cs@.skip(from as int)),
        decreases n - i,
    {
        assert(cs@.skip(i as int).skip(1) =~= cs@.skip(i + 1));
        let c = cs[i];
        if address_char(c) {
            i = i + 1;
        } else if c == '\'' {
            if n - i == 1 {
                assert(cs@.skip(n as int) =~= Seq::empty());
                return n;
            }
            assert(cs@.skip(i as int).skip(2) =~= cs@.skip(i + 2));
            i = i + 2;
        } else if c == '/' || c == '?' {
            i = match_end(cs, i + 1, c);
        } else {
            return i;
        }
    }
    n
}

/// Where the first command for the lines that `g` or `v` picks begins.
fn list_start(cs: &Vec<char>, from: usize) -> (r: Option<usize>)
    requires
        from <= cs@.len(),
    ensures
        match r {
            Some(start) => from <= start <= cs@.len() && listed_command(cs@.skip(from as int))
                == Some(cs@.skip(start as int)),
            None => listed_command(cs@.skip(from as int)) is None,
        },
{
    if cs.len() - from > 1 && (cs[from] == 'g' || cs[from] == 'v') && !is_whitespace(cs[from + 1]) {
        assert(cs@.skip(from as int).skip(2) =~= cs@.skip(from + 2));
        let rest = match_end(cs, from + 2, cs[from + 1]);
        return Some(address_end(cs, rest));
    }
    None
}

/// Whether the command that begins at `from` runs a shell command.
fn shell_called(cs: &Vec<char>, from: usize) -> (r: bool)
    requires
        from <= cs@.len(),
    ensures
        r == calls_shell(cs@.skip(from as int)),
{
    if from == cs.len() {
        return false;
    }
    assert(cs@.skip(from as int).skip(1) =~= cs@.skip(from + 1));
    let c = cs[from];
    c == '!' || ((c == 'e' || c == 'E' || c == 'r' || c == 'w' || c == 'W') && shell_named(
        cs,
        from + 1,
    ))
}

/// Whether the line, read as a command of the editor, runs a shell command.
pub fn shell_line(line: &str) -> (r: bool)
    ensures
        r == runs_shell(line@),
{
    let cs = chars_of(line);
    assert(cs@.skip(0) =~= line@);
    let start = address_end(&cs, 0);
    if shell_called(&cs, start) {
        return true;
    }
    match list_start(&cs, start) {
        Some(listed) => shell_called(&cs, listed),
        None => false,
    }
}

/// Whether the text from `from` on ends with a backslash that escapes what
/// comes next.
fn continued(cs: &Vec<char>, from: usize) -> (r: bool)
    requires
        from <= cs@.len(),
    ensures
        r == is_continued(cs@.skip(from as int)),
        r ==> from < cs@.len(),
{
    let n = cs.len();
    let mut i: usize = from;
    while i < n
        invariant
            n == cs@.len(),
            from <= i <= n,
            is_continued(cs@.skip(i as int)) == is_continued(cs@.skip(from as int)),
        decreases n - i,
    {
        assert(cs@.skip(i as int).skip(1) =~= cs@.skip(i + 1));
        if cs[i] == '\\' {
            if n - i == 1 {
                return true;
            }
            assert(cs@.skip(i as int).skip(2) =~= cs@.skip(i + 2));
            i = i + 2;
        } else {
            i = i + 1;
        }
    }
    false
}

/// Whether the command that begins at `from` is followed by text.
fn text_follows(cs: &Vec<char>, from: usize) -> (r: bool)
    requires
        from <= cs@.len(),
    ensures
        r == opens_text(cs@.skip(from as int)),
{
    let ghost command = cs@.skip(from as int);
    let n = cs.len();
    if from == n || !(cs[from] == 'a' || cs[from] == 'i' || cs[from] == 'c') {
        return false;
    }
    let mut i: usize = from + 1;
    while i < n
        invariant
            n == cs@.len(),
            from < i <= n,
            command == cs@.skip(from as int),
            forall|j: int|
                1 <= j < i - from ==> (#[trigger] command[j] == 'p' || command[j] == 'l'
                    || command[j] == 'n'),
        decreases n - i,
    {
        assert(command[i - from] == cs@[i as int]);
        if !(cs[i] == 'p' || cs[i] == 'l' || cs[i] == 'n') {
            return false;
        }
        i = i + 1;
    }
    true
}

/// Whether a replacement ends in the text from `from` on.
fn replacement_closed(cs: &Vec<char>, from: usize, delimiter: char) -> (r: bool)
    requires
        from <= cs@.len(),
    ensures
        r == closes_replacement(cs@.skip(from as int), delimiter),
{
    let n = cs.len();
    let mut i: usize = from;
    while i < n
        invariant
            n == cs@.len(),
            from <= i <= n,
            closes_replacement(cs@.skip(i as int), delimiter) == closes_replacement(
                cs@.skip(from as int),
                delimiter,
            ),
        decreases n - i,
    {
        assert(cs@.skip(i as int).skip(1) =~= cs@.skip(i + 1));
        if cs[i] == delimiter {
            return true;
        }
        if cs[i] == '\\' {
            if n - i == 1 {
                return false;
            }
            assert(cs@.skip(i as int).skip(2) =~= cs@.skip(i + 2));
            i = i + 2;
        } else {
            i = i + 1;
        }
    }
    false
}

/// The delimiter of a replacement that goes on in the next line; the command
/// begins at `from`.
fn replacement_open(cs: &Vec<char>, from: usize) -> (r: Option<char>)
    requires
        from <= cs@.len(),
    ensures
        r == open_replacement(cs@.skip(from as int)),
{
    if cs.len() - from < 2 || cs[from] != 's' {
        return None;
    }
    let c = cs[from + 1];
    if is_whitespace(c) || ('0' <= c && c <= '9') || c == 'g' || c == 'p' || c == 'r' {
        return None;
    }
    assert(cs@.skip(from as int).skip(2) =~= cs@.skip(from + 2));
    match pattern_end(cs, from + 2, c) {
        Some(rest) => {
            if !replacement_closed(cs, rest, c) && continued(cs, rest) {
                Some(c)
            } else {
                None
            }
        },
        None => None,
    }
}

/// How the editor reads the line after a command.
fn after_command(cs: &Vec<char>, body: &Vec<char>, goes_on: bool) -> (r: Reading)
    requires
        goes_on == is_continued(cs@),
        body@ == if goes_on {
            cs@.drop_last()
        } else {
            cs@
        },
    ensures
        r == next_reading(Reading::Command, cs@),
{
    assert(body@.skip(0) =~= body@);
    assert(cs@.skip(0) =~= cs@);
    let start = address_end(body, 0);
    match list_start(body, start) {
        Some(listed) => {
            if !goes_on {
                Reading::Command
            } else if text_follows(body, listed) {
                Reading::ListedText
            } else {
                Reading::Listed
            }
        },
        None => {
            let start = address_end(cs, 0);
            if text_follows(cs, start) {
                return Reading::Text;
            }
            match replacement_open(cs, start) {
                Some(delimiter) => Reading::Replacement(delimiter),
                None => Reading::Command,
            }
        },
    }
}

fn is_dot(cs: &Vec<char>) -> (r: bool)
    ensures
        r == (cs@ == "."@),
{
    proof {
        reveal_strlit(".");
    }
    if cs.len() == 1 && cs[0] == '.' {
        assert(cs@ =~= "."@);
        return true;
    }
    false
}

/// How the editor reads the line after `line`.
pub fn reading_after(now: Reading, line: &str) -> (r: Reading)
    ensures
        r == next_reading(now, line@),
{
    let cs = chars_of(line);
    assert(cs@.skip(0) =~= line@);
    let goes_on = continued(&cs, 0);
    let mut body = chars_of(line);
    if goes_on {
        body.pop();
    }
    assert(body@.skip(0) =~= body@);
    match now {
        Reading::Command => after_command(&cs, &body, goes_on),
        Reading::Text => if is_dot(&cs) {
            Reading::Command
        } else {
            Reading::Text
        },
        Reading::Replacement(delimiter) => if !replacement_closed(&cs, 0, delimiter) && goes_on {
            now
        } else {
            Reading::Command
        },
        Reading::Listed => {
            let start = address_end(&body, 0);
            if !goes_on {
                Reading::Command
            } else if text_follows(&body, start) {
                Reading::ListedText
            } else {
                Reading::Listed
            }
        },
        Reading::ListedText => if !goes_on {
            Reading::Command
        } else if is_dot(&body) {
            Reading::Listed
        } else {
            Reading::ListedText
        },
    }
}

/// Whether the script makes the editor run a shell command.
pub fn shell_script(script: &str) -> (r: bool)
    ensures
        r == script_runs_shell(script@),
{
    let lines = split_lines(script);
    let ghost all = newline_parts(script@);
    let n = lines.len();
    let mut now = Reading::Command;
    let mut i: usize = 0;
    while i < n
        invariant
            all == newline_parts(script@),
            all == texts(lines@),
            n == lines@.len(),
            i <= n,
            shell_from(all, i as int, now) == shell_from(all, 0, Reading::Command),
        decreases n - i,
    {
        assert(all[i as int] == lines@[i as int]@);
        let command = match now {
            Reading::Command | Reading::Listed => true,
            _ => false,
        };
        if command && shell_line(lines[i].as_str()) {
            return true;
        }
        now = reading_after(now, lines[i].as_str());
        i = i + 1;
    }
    false
}

/// Whether the line names a shell command plainly, with `r` or `w`.
fn shell_named_plainly(line: &str) -> (r: bool)
    ensures
        r == names_shell_plainly(line@),
{
    proof {
        reveal_strlit("r ");
        reveal_strlit("w ");
        reveal_strlit("!");
    }
    let start = trim_start(line);
    if !(starts_with(start, "r ") || starts_with(start, "w ")) {
        return false;
    }
    let cs = chars_of(start);
    let marked = mark_follows(&cs, 1);
    proof {
        let rest = trimmed_start(start@.skip(1));
        if marked {
            assert(rest.take(1) =~= "!"@);
        } else if has_prefix(rest, "!"@) {
            assert(rest.take(1)[0] == '!');
        }
    }
    marked
}

fn add_run(runs: &mut Vec<EdRun>, file: &Option<String>, script: &String)
    ensures
        run_models(final(runs)@) == with_run(run_models(old(runs)@), opt_text(*file), script@),
{
    if let Some(name) = file {
        if !script.as_str().is_empty() {
            let ghost before = run_models(runs@);
            let mut whole = script.clone();
            whole.append("w\nq\n");
            let run = EdRun { file: name.clone(), script: whole };
            let ghost model = run_model(run);
            runs.push(run);
            assert(run_models(runs@) =~= before.push(model));
        }
    }
}

fn split_scripts(input: &str, first: &Option<String>) -> (r: Vec<EdRun>)
    ensures
        run_models(r@) == scripts_from(
            newline_parts(input@),
            0,
            opt_text(*first),
            Seq::empty(),
            Seq::empty(),
        ),
{
    let lines = split_lines(input);
    let ghost all = newline_parts(input@);
    let mut file = clone_opt(first);
    let mut script = String::new();
    let mut runs: Vec<EdRun> = Vec::new();
    let n = lines.len();
    let mut i: usize = 0;
    assert(run_models(runs@) =~= Seq::empty());
    while i < n
        invariant
            all == texts(lines@),
            n == lines@.len(),
            i <= n,
            scripts_from(all, i as int, opt_text(file), script@, run_models(runs@))
                == scripts_from(all, 0, opt_text(*first), Seq::empty(), Seq::empty()),
        decreases n - i,
    {
        assert(all[i as int] == lines@[i as int]@);
        assert(i + 1 < n ==> all[i + 1] == lines@[i + 1]@);
        proof {
            reveal_strlit("--- ");
        }
        let mut name: Option<&str> = None;
        if i + 1 < n && starts_with(lines[i + 1].as_str(), "+++ ") {
            name = strip_prefix(lines[i].as_str(), "--- ");
        }
        match name {
            Some(name) => {
                add_run(&mut runs, &file, &script);
                if file.is_some() {
                    script = String::new();
                }
                file = Some(trim(name).to_owned());
                i = i + 2;
            },
            None => {
                script.append(lines[i].as_str());
                script.append("\n");
                i = i + 1;
            },
        }
    }
    add_run(&mut runs, &file, &script);
    runs
}

/// A script may be run on its file: the command line names the file, or its
/// name does not lead out of the working directory.
pub open spec fn is_allowed(
    file: Seq<char>,
    o: OptionsModel,
    place: Whereabouts,
    cwd: Option<Seq<char>>,
) -> bool {
    o.positional_file == Some(file) || !is_dangerous(file, place, cwd)
}

/// Whether a script may be run on its file. `place` says where the file is
/// found, and `cwd` is the name of the working directory if it is known.
pub fn allows_run(run: &EdRun, opts: &Options, place: Whereabouts, cwd: Option<&str>) -> (r: bool)
    ensures
        r == is_allowed(
            run.file@,
            opts@,
            place,
            match cwd {
                Some(dir) => Some(dir@),
                None => None,
            },
        ),
{
    if let Some(name) = &opts.positional_file {
        if str_eq(name.as_str(), run.file.as_str()) {
            return true;
        }
    }
    !is_dangerous_path(run.file.as_str(), place, cwd)
}

/// Decides what is to be done with the script `input`: whether it is refused,
/// and else which file gets which commands.
pub fn plan_ed_patches(input: &str, opts: &Options) -> (r: EdPlan)
    ensures
        r@ == ed_plan(input@, opts@),
{
    let lines = lines_of(input);
    let ghost all = std_lines(input@);
    let mut named = false;
    let mut i: usize = 0;
    while i < lines.len()
        invariant
            all == std_lines(input@),
            all == texts(lines@),
            i <= lines@.len(),
            forall|j: int| 0 <= j < i ==> !names_shell_plainly(#[trigger] all[j]),
            named == exists|j: int| 0 <= j < i && has_prefix(#[trigger] all[j], "--- "@),
        decreases lines@.len() - i,
    {
        assert(all[i as int] == lines@[i as int]@);
        if shell_named_plainly(lines[i].as_str()) {
            assert(names_shell_plainly(all[i as int]));
            return EdPlan::Shell;
        }
        if starts_with(lines[i].as_str(), "--- ") {
            named = true;
            assert(has_prefix(all[i as int], "--- "@));
        }
        i = i + 1;
    }
    if opts.positional_file.is_none() && !named {
        return EdPlan::NoFile;
    }
    let runs = split_scripts(input, &opts.positional_file);
    let ghost models = run_models(runs@);
    let mut k: usize = 0;
    while k < runs.len()
        invariant
            models == run_models(runs@),
            models == scripts_from(
                newline_parts(input@),
                0,
                opts@.positional_file,
                Seq::empty(),
                Seq::empty(),
            ),
            all == std_lines(input@),
            forall|j: int| 0 <= j < all.len() ==> !names_shell_plainly(#[trigger] all[j]),
            opts@.positional_file is None ==> exists|j: int|
                0 <= j < all.len() && has_prefix(#[trigger] all[j], "--- "@),
            k <= runs@.len(),
            forall|j: int| 0 <= j < k ==> !script_runs_shell((#[trigger] models[j]).1),
        decreases runs@.len() - k,
    {
        assert(models[k as int].1 == runs@[k as int].script@);
        if shell_script(runs[k].script.as_str()) {
            assert(script_runs_shell(models[k as int].1));
            return EdPlan::Shell;
        }
        k = k + 1;
    }
    if opts.on.dry_run {
        let none: Vec<EdRun> = Vec::new();
        assert(run_models(none@) =~= Seq::empty());
        return EdPlan::Run(none);
    }
    EdPlan::Run(runs)
}

} // verus!
