//! The regular expressions of the patch formats, and the calls into the
//! `regex` crate that run them.
use regex::Regex;
use vstd::prelude::*;

use crate::number::all_digits;
use crate::text::opt_text;

verus! {

/// `@@ -start,count +start,count @@`, with the four numbers as groups.
pub const UNIFIED_HEADER: &'static str = r"^@@\s+-(\d+)(?:,(\d+))?\s+\+(\d+)(?:,(\d+))?\s+@@";

/// `@@ -start,count +start,count @@`, without groups.
pub const UNIFIED_SPAN: &'static str = r"^@@\s+-\d+(?:,\d+)?\s+\+\d+(?:,\d+)?\s+@@";

/// `*** start,end ****` or `--- start,end ----`.
pub const CONTEXT_RANGE: &'static str = r"^[\*\-]{3}\s+(\d+)\s*(?:,\s*(\d+))?\s+[\*\-]{4}";

/// `start,end` `a`, `c` or `d` `start,end`.
pub const NORMAL_COMMAND: &'static str = r"^(\d+)(?:,(\d+))?([acd])(\d+)(?:,(\d+))?$";

/// `YYYY-MM-DD HH:MM:SS`, then perhaps a fraction and an offset from UTC.
pub const TIMESTAMP: &'static str =
    r"^(\d{4})-(\d{2})-(\d{2})[T ](\d{2}):(\d{2}):(\d{2})(?:\.(\d+))?(?:\s*([+-])(\d{2}):?(\d{2}))?";

/// The address and the command letter of an `ed` command.
pub const ED_COMMAND: &'static str = r"^\d+(?:,\d+)?[acds]";

/// The patterns of this module. Each is a valid regular expression.
pub open spec fn known_pattern(pattern: Seq<char>) -> bool {
    ||| pattern == UNIFIED_HEADER@
    ||| pattern == UNIFIED_SPAN@
    ||| pattern == CONTEXT_RANGE@
    ||| pattern == NORMAL_COMMAND@
    ||| pattern == TIMESTAMP@
    ||| pattern == ED_COMMAND@
}

/// The texts of the groups of a match.
pub open spec fn group_texts(groups: Seq<Option<String>>) -> Seq<Option<Seq<char>>> {
    Seq::new(groups.len(), |i: int| opt_text(groups[i]))
}

/// The texts of the groups of a match that may be absent.
pub open spec fn captured(r: Option<Vec<Option<String>>>) -> Option<Seq<Option<Seq<char>>>> {
    match r {
        Some(groups) => Some(group_texts(groups@)),
        None => None,
    }
}

/// What `Regex::captures` finds of a pattern in a text: the texts of the
/// groups of the leftmost match, the whole match first, `None` for a group
/// that took no part in it.
pub uninterp spec fn captures_of(pattern: Seq<char>, text: Seq<char>) -> Option<
    Seq<Option<Seq<char>>>,
>;

/// What `Regex::find` finds of a pattern in a text: what stands before the
/// leftmost match, the match, and what stands after it.
pub uninterp spec fn find_of(pattern: Seq<char>, text: Seq<char>) -> Option<
    (Seq<char>, Seq<char>, Seq<char>),
>;

/// Whether `Regex::is_match` finds a pattern in a text.
pub uninterp spec fn matches_of(pattern: Seq<char>, text: Seq<char>) -> bool;

/// The groups that a pattern has, those among them that take part in every
/// match, and the lengths that `{n}` gives them.
pub open spec fn group_shape(pattern: Seq<char>, groups: Seq<Option<Seq<char>>>) -> bool {
    &&& pattern == UNIFIED_HEADER@ ==> groups.len() == 5 && groups[1] is Some && groups[3] is Some
    &&& pattern == CONTEXT_RANGE@ ==> groups.len() == 3 && groups[1] is Some
    &&& pattern == NORMAL_COMMAND@ ==> {
        &&& groups.len() == 6
        &&& groups[1] is Some
        &&& groups[3] == Some(seq!['a']) || groups[3] == Some(seq!['c']) || groups[3] == Some(
            seq!['d'],
        )
        &&& groups[4] is Some
    }
    &&& pattern == TIMESTAMP@ ==> {
        &&& groups.len() == 11
        &&& groups[1] matches Some(s) && s.len() == 4
        &&& forall|i: int|
            2 <= i <= 6 ==> (#[trigger] groups[i] matches Some(s) && s.len() == 2)
        &&& groups[9] matches Some(s) ==> s.len() == 2
        &&& groups[10] matches Some(s) ==> s.len() == 2
    }
}

/// A run of ASCII digits.
pub open spec fn is_number(s: Seq<char>) -> bool {
    s.len() > 0 && all_digits(s, 10)
}

/// A run of ASCII digits, or nothing.
pub open spec fn is_number_or_absent(s: Option<Seq<char>>) -> bool {
    s matches Some(t) ==> is_number(t)
}

/// A start and perhaps a count, with a comma between them.
pub open spec fn range_text(start: Seq<char>, count: Option<Seq<char>>) -> Seq<char> {
    match count {
        Some(c) => start + ","@ + c,
        None => start,
    }
}

/// A unified hunk header with single spaces, and what follows it.
pub open spec fn unified_text(
    old_start: Seq<char>,
    old_count: Option<Seq<char>>,
    new_start: Seq<char>,
    new_count: Option<Seq<char>>,
    rest: Seq<char>,
) -> Seq<char> {
    "@@ -"@ + range_text(old_start, old_count) + " +"@ + range_text(new_start, new_count) + " @@"@
        + rest
}

/// If the text is a unified hunk header with single spaces and ASCII digits,
/// the groups are the header and its numbers.
pub open spec fn are_header_groups(
    text: Seq<char>,
    groups: Option<Seq<Option<Seq<char>>>>,
) -> bool {
    forall|
        a: Seq<char>,
        b: Option<Seq<char>>,
        c: Seq<char>,
        d: Option<Seq<char>>,
        rest: Seq<char>,
    |
        text == #[trigger] unified_text(a, b, c, d, rest) && is_number(a) && is_number_or_absent(b)
            && is_number(c) && is_number_or_absent(d) ==> groups == Some(
            seq![Some(unified_text(a, b, c, d, Seq::empty())), Some(a), b, Some(c), d],
        )
}

/// The range of one side of a context hunk with single spaces, and what follows
/// it.
pub open spec fn context_text(
    mark: char,
    start: Seq<char>,
    end: Option<Seq<char>>,
    rest: Seq<char>,
) -> Seq<char> {
    seq![mark, mark, mark, ' '] + range_text(start, end) + seq![' ', mark, mark, mark, mark] + rest
}

/// If the text is the range of one side of a context hunk with single spaces
/// and ASCII digits, the groups are the range and its numbers.
pub open spec fn are_range_groups(text: Seq<char>, groups: Option<Seq<Option<Seq<char>>>>) -> bool {
    forall|mark: char, a: Seq<char>, b: Option<Seq<char>>, rest: Seq<char>|
        text == #[trigger] context_text(mark, a, b, rest) && (mark == '*' || mark == '-')
            && is_number(a) && is_number_or_absent(b) ==> groups == Some(
            seq![Some(context_text(mark, a, b, Seq::empty())), Some(a), b],
        )
}

/// A command of a normal diff.
pub open spec fn command_text(
    old_start: Seq<char>,
    old_end: Option<Seq<char>>,
    letter: char,
    new_start: Seq<char>,
    new_end: Option<Seq<char>>,
) -> Seq<char> {
    range_text(old_start, old_end) + seq![letter] + range_text(new_start, new_end)
}

/// If the text is a command of a normal diff with ASCII digits, the groups are
/// the command, its numbers and its letter.
pub open spec fn are_command_groups(
    text: Seq<char>,
    groups: Option<Seq<Option<Seq<char>>>>,
) -> bool {
    forall|
        a: Seq<char>,
        b: Option<Seq<char>>,
        letter: char,
        c: Seq<char>,
        d: Option<Seq<char>>,
    |
        text == #[trigger] command_text(a, b, letter, c, d) && (letter == 'a' || letter == 'c'
            || letter == 'd') && is_number(a) && is_number_or_absent(b) && is_number(c)
            && is_number_or_absent(d) ==> groups == Some(
            seq![Some(text), Some(a), b, Some(seq![letter]), Some(c), d],
        )
}

/// The texts of a find that may be absent.
pub open spec fn found(r: Option<(String, String, String)>) -> Option<
    (Seq<char>, Seq<char>, Seq<char>),
> {
    match r {
        Some(parts) => Some((parts.0@, parts.1@, parts.2@)),
        None => None,
    }
}

/// If the text is a unified hunk header with single spaces and ASCII digits,
/// the header is found at the start.
pub open spec fn is_header_span(
    text: Seq<char>,
    parts: Option<(Seq<char>, Seq<char>, Seq<char>)>,
) -> bool {
    forall|
        a: Seq<char>,
        b: Option<Seq<char>>,
        c: Seq<char>,
        d: Option<Seq<char>>,
        rest: Seq<char>,
    |
        text == #[trigger] unified_text(a, b, c, d, rest) && is_number(a) && is_number_or_absent(b)
            && is_number(c) && is_number_or_absent(d) ==> parts == Some(
            (Seq::<char>::empty(), unified_text(a, b, c, d, Seq::empty()), rest),
        )
}

/// Calls `Regex::captures`, after `Regex::new`, which accepts each of the
/// known patterns. The claim: the result is `captures_of` of the pattern and
/// the text, it has the groups that the pattern writes down, and in a unified
/// hunk header, a context range or a normal command with ASCII digits, and with
/// single spaces where there are spaces, the groups are its parts. An empty
/// text is no normal command.
#[verifier::external_body]
pub(crate) fn captures(pattern: &str, text: &str) -> (r: Option<Vec<Option<String>>>)
    requires
        known_pattern(pattern@),
    ensures
        captured(r) == captures_of(pattern@, text@),
        r matches Some(groups) ==> group_shape(pattern@, group_texts(groups@)),
        pattern@ == UNIFIED_HEADER@ ==> are_header_groups(text@, captured(r)),
        pattern@ == CONTEXT_RANGE@ ==> are_range_groups(text@, captured(r)),
        pattern@ == NORMAL_COMMAND@ ==> are_command_groups(text@, captured(r)),
        pattern@ == NORMAL_COMMAND@ && text@.len() == 0 ==> r is None,
{
    let re = Regex::new(pattern).unwrap();
    re.captures(text).map(
        |caps| caps.iter().map(|group| group.map(|m| m.as_str().to_string())).collect(),
    )
}

/// Calls `Regex::find`, after `Regex::new`. The claim: the result is `find_of`
/// of the pattern and the text, its three parts make up the text, and a unified
/// hunk header with single spaces and ASCII digits is found at the start.
#[verifier::external_body]
pub(crate) fn find(pattern: &str, text: &str) -> (r: Option<(String, String, String)>)
    requires
        known_pattern(pattern@),
    ensures
        found(r) == find_of(pattern@, text@),
        r matches Some(parts) ==> parts.0@ + parts.1@ + parts.2@ == text@,
        pattern@ == UNIFIED_SPAN@ ==> is_header_span(text@, found(r)),
{
    let re = Regex::new(pattern).unwrap();
    re.find(text).map(
        |m|
            (
                text[..m.start()].to_string(),
                m.as_str().to_string(),
                text[m.end()..].to_string(),
            ),
    )
}

/// Calls `Regex::is_match`, after `Regex::new`. The claim: the result is
/// `matches_of` of the pattern and the text.
#[verifier::external_body]
pub(crate) fn is_match(pattern: &str, text: &str) -> (r: bool)
    requires
        known_pattern(pattern@),
    ensures
        r == matches_of(pattern@, text@),
{
    Regex::new(pattern).unwrap().is_match(text)
}

} // verus!
