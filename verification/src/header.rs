//! The header lines of a patch: file names, time stamps, hunk ranges.
use vstd::prelude::*;

use crate::model::{HunkModel, PatchError};
use crate::number::{
    all_digits, decimal, digit_char, is_digit, lemma_decimal_reads_back, number, parse_u32,
    parse_usize, parsed, unsigned_part,
};
use crate::pattern::{
    captures, captures_of, command_text, context_text, find, find_of, group_shape, group_texts,
    is_number, is_number_or_absent, unified_text, CONTEXT_RANGE, NORMAL_COMMAND, TIMESTAMP,
    UNIFIED_HEADER, UNIFIED_SPAN,
};
use crate::text::{
    chars_of, contains_text, drop_cr, has_prefix, has_text, lemma_position, opt_text, position,
    position_in, starts_with, str_eq, trim, trimmed, without_cr,
};

verus! {

// ---------------------------------------------------------------------------
// Ranges
// ---------------------------------------------------------------------------

/// The `usize` that `s` stands for.
pub open spec fn size(s: Seq<char>) -> Option<usize> {
    match parsed(s, 10, usize::MAX as nat) {
        Some(n) => Some(n as usize),
        None => None,
    }
}

/// The `usize` that the text stands for, or `default` when there is no text.
pub open spec fn size_or(s: Option<Seq<char>>, default: usize) -> Option<usize> {
    match s {
        Some(t) => size(t),
        None => Some(default),
    }
}

/// The two ranges in the groups of a unified hunk header. A count that is not
/// written is one.
pub open spec fn unified_ranges(g: Seq<Option<Seq<char>>>) -> Result<
    (usize, usize, usize, usize),
    PatchError,
> {
    match (size(g[1]->0), size_or(g[2], 1), size(g[3]->0), size_or(g[4], 1)) {
        (Some(a), Some(b), Some(c), Some(d)) => Ok((a, b, c, d)),
        _ => Err(PatchError::NumberOutOfRange),
    }
}

/// The range in the groups of a context range. An end that is not written is
/// the start.
pub open spec fn context_ends(g: Seq<Option<Seq<char>>>) -> Result<(usize, usize), PatchError> {
    match size(g[1]->0) {
        Some(start) => match size_or(g[2], start) {
            Some(end) => Ok((start, end)),
            None => Err(PatchError::NumberOutOfRange),
        },
        None => Err(PatchError::NumberOutOfRange),
    }
}

/// The two ranges and the letter in the groups of a normal diff command.
pub open spec fn normal_parts(g: Seq<Option<Seq<char>>>) -> Result<
    (usize, usize, char, usize, usize),
    PatchError,
> {
    match (size(g[1]->0), size(g[4]->0)) {
        (Some(s1), Some(s2)) => match (size_or(g[2], s1), size_or(g[5], s2)) {
            (Some(e1), Some(e2)) => Ok((s1, e1, g[3]->0[0], s2, e2)),
            _ => Err(PatchError::NumberOutOfRange),
        },
        _ => Err(PatchError::NumberOutOfRange),
    }
}

/// What the line says as a unified hunk header.
pub open spec fn unified_header(line: Seq<char>) -> Result<
    Option<(usize, usize, usize, usize)>,
    PatchError,
> {
    match captures_of(UNIFIED_HEADER@, line) {
        Some(g) => match unified_ranges(g) {
            Ok(v) => Ok(Some(v)),
            Err(e) => Err(e),
        },
        None => Ok(None),
    }
}

/// A range of a unified hunk header. The count is left out when it is one.
pub open spec fn unified_range(start: usize, count: usize) -> Seq<char> {
    if count == 1 {
        decimal(start as nat)
    } else {
        decimal(start as nat) + ","@ + decimal(count as nat)
    }
}

/// The header of a unified hunk.
pub open spec fn unified_header_text(h: HunkModel) -> Seq<char> {
    "@@ -"@ + unified_range(h.old_start, h.old_count) + " +"@ + unified_range(
        h.new_start,
        h.new_count,
    ) + " @@"@ + h.header_suffix
}

/// The ranges of a hunk header, as they are written, are read back from the
/// texts that the header is made of.
pub proof fn law_written_ranges_read_back(h: HunkModel, whole: Option<Seq<char>>)
    ensures
        unified_ranges(
            seq![
                whole,
                Some(decimal(h.old_start as nat)),
                if h.old_count == 1 {
                    None
                } else {
                    Some(decimal(h.old_count as nat))
                },
                Some(decimal(h.new_start as nat)),
                if h.new_count == 1 {
                    None
                } else {
                    Some(decimal(h.new_count as nat))
                },
            ],
        ) == Ok::<_, PatchError>((h.old_start, h.old_count, h.new_start, h.new_count)),
{
    lemma_decimal_reads_back(h.old_start as nat);
    lemma_decimal_reads_back(h.old_count as nat);
    lemma_decimal_reads_back(h.new_start as nat);
    lemma_decimal_reads_back(h.new_count as nat);
    assert(parsed(decimal(h.old_start as nat), 10, usize::MAX as nat) == Some(h.old_start as nat));
    assert(parsed(decimal(h.old_count as nat), 10, usize::MAX as nat) == Some(h.old_count as nat));
    assert(parsed(decimal(h.new_start as nat), 10, usize::MAX as nat) == Some(h.new_start as nat));
    assert(parsed(decimal(h.new_count as nat), 10, usize::MAX as nat) == Some(h.new_count as nat));
}

/// What the line says as the range of one side of a context hunk.
pub open spec fn context_range(line: Seq<char>) -> Result<Option<(usize, usize)>, PatchError> {
    match captures_of(CONTEXT_RANGE@, line) {
        Some(g) => match context_ends(g) {
            Ok(v) => Ok(Some(v)),
            Err(e) => Err(e),
        },
        None => Ok(None),
    }
}

/// What the line, without a carriage return at its end, says as a command of
/// a normal diff.
pub open spec fn normal_command(line: Seq<char>) -> Result<
    Option<(usize, usize, char, usize, usize)>,
    PatchError,
> {
    match captures_of(NORMAL_COMMAND@, without_cr(line)) {
        Some(g) => match normal_parts(g) {
            Ok(v) => Ok(Some(v)),
            Err(e) => Err(e),
        },
        None => Ok(None),
    }
}

/// What follows the ranges on a unified hunk header.
pub open spec fn header_suffix(line: Seq<char>) -> Seq<char> {
    match find_of(UNIFIED_SPAN@, line) {
        Some((_, _, after)) => after,
        None => Seq::empty(),
    }
}

/// The numbers that the header of a hunk is written with. A count of one is
/// left out.
spec fn header_numbers(h: HunkModel) -> (
    Seq<char>,
    Option<Seq<char>>,
    Seq<char>,
    Option<Seq<char>>,
) {
    (
        decimal(h.old_start as nat),
        if h.old_count == 1 {
            None
        } else {
            Some(decimal(h.old_count as nat))
        },
        decimal(h.new_start as nat),
        if h.new_count == 1 {
            None
        } else {
            Some(decimal(h.new_count as nat))
        },
    )
}

proof fn lemma_header_is_canonical(h: HunkModel)
    ensures
        ({
            let (a, b, c, d) = header_numbers(h);
            &&& unified_header_text(h) == unified_text(a, b, c, d, h.header_suffix)
            &&& is_number(a)
            &&& is_number_or_absent(b)
            &&& is_number(c)
            &&& is_number_or_absent(d)
        }),
{
    lemma_decimal_reads_back(h.old_start as nat);
    lemma_decimal_reads_back(h.old_count as nat);
    lemma_decimal_reads_back(h.new_start as nat);
    lemma_decimal_reads_back(h.new_count as nat);
}

/// A number that may be absent, in decimal.
pub open spec fn opt_decimal(n: Option<usize>) -> Option<Seq<char>> {
    match n {
        Some(n) => Some(decimal(n as nat)),
        None => None,
    }
}

/// A range as it is written: its start, and its end if that is written.
pub open spec fn written_range(start: usize, end: Option<usize>) -> (usize, usize) {
    (start, match end {
        Some(end) => end,
        None => start,
    })
}

proof fn lemma_size_reads_back(n: usize)
    ensures
        size(decimal(n as nat)) == Some(n),
        is_number(decimal(n as nat)),
{
    lemma_decimal_reads_back(n as nat);
    assert(parsed(decimal(n as nat), 10, usize::MAX as nat) == Some(n as nat));
}

proof fn lemma_opt_size_reads_back(n: Option<usize>, default: usize)
    ensures
        size_or(opt_decimal(n), default) == Some(
            match n {
                Some(n) => n,
                None => default,
            },
        ),
        is_number_or_absent(opt_decimal(n)),
{
    if let Some(n) = n {
        lemma_size_reads_back(n);
    }
}

proof fn lemma_decimal_ends_in_digit(n: nat)
    ensures
        decimal(n).len() > 0,
        decimal(n).last() != '\r',
{
    let d = if n < 10 {
        n
    } else {
        n % 10
    };
    assert(decimal(n).last() == digit_char(d));
}

/// The text of a group that took part in the match.
fn group(groups: &Vec<Option<String>>, i: usize) -> (r: &str)
    requires
        i < groups@.len(),
        groups@[i as int] is Some,
    ensures
        Some(r@) == group_texts(groups@)[i as int],
{
    groups[i].as_ref().unwrap().as_str()
}

/// The number in a group, or `default` when the group took no part.
fn group_or(groups: &Vec<Option<String>>, i: usize, default: usize) -> (r: Option<usize>)
    requires
        i < groups@.len(),
    ensures
        r == size_or(group_texts(groups@)[i as int], default),
{
    match &groups[i] {
        Some(s) => parse_usize(s.as_str()),
        None => Some(default),
    }
}

/// Reads the two ranges out of the groups of a unified hunk header.
pub fn read_unified_ranges(groups: &Vec<Option<String>>) -> (r: Result<
    (usize, usize, usize, usize),
    PatchError,
>)
    requires
        groups@.len() == 5,
        groups@[1] is Some,
        groups@[3] is Some,
    ensures
        r == unified_ranges(group_texts(groups@)),
{
    let a = parse_usize(group(groups, 1));
    let b = group_or(groups, 2, 1);
    let c = parse_usize(group(groups, 3));
    let d = group_or(groups, 4, 1);
    match (a, b, c, d) {
        (Some(a), Some(b), Some(c), Some(d)) => Ok((a, b, c, d)),
        _ => Err(PatchError::NumberOutOfRange),
    }
}

/// Reads the range out of the groups of a context range.
pub fn read_context_range(groups: &Vec<Option<String>>) -> (r: Result<(usize, usize), PatchError>)
    requires
        groups@.len() == 3,
        groups@[1] is Some,
    ensures
        r == context_ends(group_texts(groups@)),
{
    match parse_usize(group(groups, 1)) {
        Some(start) => match group_or(groups, 2, start) {
            Some(end) => Ok((start, end)),
            None => Err(PatchError::NumberOutOfRange),
        },
        None => Err(PatchError::NumberOutOfRange),
    }
}

/// Reads the ranges and the letter out of the groups of a normal diff command.
pub fn read_normal_command(groups: &Vec<Option<String>>) -> (r: Result<
    (usize, usize, char, usize, usize),
    PatchError,
>)
    requires
        groups@.len() == 6,
        groups@[1] is Some,
        groups@[3] matches Some(s) && s@.len() > 0,
        groups@[4] is Some,
    ensures
        r == normal_parts(group_texts(groups@)),
{
    let s1 = parse_usize(group(groups, 1));
    let s2 = parse_usize(group(groups, 4));
    match (s1, s2) {
        (Some(s1), Some(s2)) => {
            let e1 = group_or(groups, 2, s1);
            let e2 = group_or(groups, 5, s2);
            match (e1, e2) {
                (Some(e1), Some(e2)) => {
                    let cmd = group(groups, 3).get_char(0);
                    Ok((s1, e1, cmd, s2, e2))
                },
                _ => Err(PatchError::NumberOutOfRange),
            }
        },
        _ => Err(PatchError::NumberOutOfRange),
    }
}

/// The ranges of `@@ -start,count +start,count @@`: `Ok(None)` when the line
/// is no such header, an error when one of its numbers is out of range.
pub fn parse_unified_hunk_header(line: &str) -> (r: Result<
    Option<(usize, usize, usize, usize)>,
    PatchError,
>)
    ensures
        r == unified_header(line@),
        forall|h: HunkModel|
            line@ == #[trigger] unified_header_text(h) ==> r == Ok::<_, PatchError>(
                Some((h.old_start, h.old_count, h.new_start, h.new_count)),
            ),
{
    let groups = captures(UNIFIED_HEADER, line);
    proof {
        assert forall|h: HunkModel| line@ == #[trigger] unified_header_text(h) implies unified_header(
            line@,
        ) == Ok::<_, PatchError>(
            Some((h.old_start, h.old_count, h.new_start, h.new_count)),
        ) by {
            lemma_header_is_canonical(h);
            let (a, b, c, d) = header_numbers(h);
            let whole = unified_text(a, b, c, d, Seq::empty());
            assert(captures_of(UNIFIED_HEADER@, line@) == Some(
                seq![Some(whole), Some(a), b, Some(c), d],
            ));
            law_written_ranges_read_back(h, Some(whole));
        }
    }
    match groups {
        Some(groups) => {
            proof {
                let g = group_texts(groups@);
                assert(g[1] is Some && g[3] is Some);
                assert(opt_text(groups@[1]) == g[1] && opt_text(groups@[3]) == g[3]);
            }
            match read_unified_ranges(&groups) {
                Ok(v) => Ok(Some(v)),
                Err(e) => Err(e),
            }
        },
        None => Ok(None),
    }
}

/// The range of `*** start,end ****` or `--- start,end ----`: `Ok(None)` when
/// the line is no such range, an error when one of its numbers is out of
/// range. A range that is written with single spaces is always read.
pub fn parse_context_hunk_range(line: &str) -> (r: Result<Option<(usize, usize)>, PatchError>)
    ensures
        r == context_range(line@),
        forall|mark: char, start: usize, end: Option<usize>, rest: Seq<char>|
            (mark == '*' || mark == '-') && line@ == #[trigger] context_text(
                mark,
                decimal(start as nat),
                opt_decimal(end),
                rest,
            ) ==> r == Ok::<_, PatchError>(Some(written_range(start, end))),
{
    let groups = captures(CONTEXT_RANGE, line);
    proof {
        assert forall|mark: char, start: usize, end: Option<usize>, rest: Seq<char>|
            (mark == '*' || mark == '-') && line@ == #[trigger] context_text(
                mark,
                decimal(start as nat),
                opt_decimal(end),
                rest,
            ) implies context_range(line@) == Ok::<_, PatchError>(
            Some(written_range(start, end)),
        ) by {
            lemma_size_reads_back(start);
            lemma_opt_size_reads_back(end, start);
        }
    }
    match groups {
        Some(groups) => {
            assert(opt_text(groups@[1]) == group_texts(groups@)[1]);
            match read_context_range(&groups) {
                Ok(v) => Ok(Some(v)),
                Err(e) => Err(e),
            }
        },
        None => Ok(None),
    }
}

/// The command of a normal diff, such as `3,5c4,7`: `Ok(None)` when the line
/// is no command, an error when one of its numbers is out of range. A command
/// that is written in plain decimals is always read.
pub fn parse_normal_command(line: &str) -> (r: Result<
    Option<(usize, usize, char, usize, usize)>,
    PatchError,
>)
    ensures
        r == normal_command(line@),
        line@.len() == 0 ==> r == Ok::<Option<(usize, usize, char, usize, usize)>, PatchError>(None),
        forall|s1: usize, e1: Option<usize>, letter: char, s2: usize, e2: Option<usize>|
            (letter == 'a' || letter == 'c' || letter == 'd') && line@ == #[trigger] command_text(
                decimal(s1 as nat),
                opt_decimal(e1),
                letter,
                decimal(s2 as nat),
                opt_decimal(e2),
            ) ==> r == Ok::<_, PatchError>(
                Some(
                    (
                        s1,
                        written_range(s1, e1).1,
                        letter,
                        s2,
                        written_range(s2, e2).1,
                    ),
                ),
            ),
{
    let bare = drop_cr(line);
    let groups = captures(NORMAL_COMMAND, bare);
    proof {
        assert forall|s1: usize, e1: Option<usize>, letter: char, s2: usize, e2: Option<usize>|
            (letter == 'a' || letter == 'c' || letter == 'd') && line@ == #[trigger] command_text(
                decimal(s1 as nat),
                opt_decimal(e1),
                letter,
                decimal(s2 as nat),
                opt_decimal(e2),
            ) implies normal_command(line@) == Ok::<_, PatchError>(
            Some((s1, written_range(s1, e1).1, letter, s2, written_range(s2, e2).1)),
        ) by {
            lemma_size_reads_back(s1);
            lemma_size_reads_back(s2);
            lemma_opt_size_reads_back(e1, s1);
            lemma_opt_size_reads_back(e2, s2);
            lemma_decimal_ends_in_digit(s2 as nat);
            if let Some(e) = e2 {
                lemma_decimal_ends_in_digit(e as nat);
            }
            assert(line@.last() != '\r');
            assert(without_cr(line@) == line@);
        }
    }
    match groups {
        Some(groups) => {
            proof {
                let g = group_texts(groups@);
                assert(opt_text(groups@[1]) == g[1]);
                assert(opt_text(groups@[3]) == g[3]);
                assert(opt_text(groups@[4]) == g[4]);
            }
            match read_normal_command(&groups) {
                Ok(v) => Ok(Some(v)),
                Err(e) => Err(e),
            }
        },
        None => Ok(None),
    }
}

/// What follows the closing `@@` of a unified hunk header.
pub fn hunk_header_suffix(line: &str) -> (r: String)
    ensures
        r@ == header_suffix(line@),
        forall|h: HunkModel| line@ == #[trigger] unified_header_text(h) ==> r@ == h.header_suffix,
{
    let found = find(UNIFIED_SPAN, line);
    proof {
        assert forall|h: HunkModel| line@ == #[trigger] unified_header_text(h) implies header_suffix(
            line@,
        ) == h.header_suffix by {
            lemma_header_is_canonical(h);
            let (a, b, c, d) = header_numbers(h);
            assert(line@ == unified_text(a, b, c, d, h.header_suffix));
        }
    }
    match found {
        Some((_, _, after)) => after,
        None => String::new(),
    }
}

// ---------------------------------------------------------------------------
// Time stamps
// ---------------------------------------------------------------------------

/// What follows the first tab, without white space around it.
pub open spec fn timestamp_field(line: Seq<char>) -> Option<Seq<char>> {
    if line.contains('\t') {
        Some(trimmed(line.skip(position(line, '\t') as int + 1)))
    } else {
        None
    }
}

/// The number that the ASCII digits from `i` to `i + n` stand for.
pub open spec fn digits_at(s: Seq<char>, i: int, n: int) -> Option<nat> {
    if 0 <= i && i + n <= s.len() && all_digits(s.subrange(i, i + n), 10) {
        Some(number(s.subrange(i, i + n), 10))
    } else {
        None
    }
}

/// Where a fraction of a second from `i` on ends: a point and digits.
pub open spec fn fraction_end(s: Seq<char>, i: int) -> int {
    if i + 1 < s.len() && s[i] == '.' && is_digit(s[i + 1], 10) {
        digits_end(s, i + 1)
    } else {
        i
    }
}

/// Where the digits from `i` on end.
pub open spec fn digits_end(s: Seq<char>, i: int) -> int
    decreases s.len() - i,
{
    if 0 <= i < s.len() && is_digit(s[i], 10) {
        digits_end(s, i + 1)
    } else {
        i
    }
}

/// An offset from UTC in minutes, such as `+0100` or `-05:30`.
pub open spec fn zone_minutes(z: Seq<char>) -> Option<int> {
    let long = z.len() == 6 && z[3] == ':';
    let at: int = if long {
        4
    } else {
        3
    };
    if !long && z.len() != 5 {
        None
    } else {
        match (digits_at(z, 1, 2), digits_at(z, at, 2)) {
            (Some(h), Some(m)) => if z[0] == '+' {
                Some((h * 60 + m) as int)
            } else if z[0] == '-' {
                Some(-(h * 60 + m))
            } else {
                None
            },
            _ => None,
        }
    }
}

/// Seconds from 1970-01-01 00:00:00 UTC to a time stamp that is written with
/// its offset from UTC, such as `1970-01-01 01:00:00.000000000 +0100`: date,
/// time, perhaps a fraction, and the offset.
pub open spec fn zoned_seconds(ts: Seq<char>) -> Option<int> {
    let date = (digits_at(ts, 0, 4), digits_at(ts, 5, 2), digits_at(ts, 8, 2));
    let time = (digits_at(ts, 11, 2), digits_at(ts, 14, 2), digits_at(ts, 17, 2));
    match (date, time) {
        ((Some(y), Some(mo), Some(d)), (Some(h), Some(mi), Some(s))) => {
            let marked = ts[4] == '-' && ts[7] == '-' && (ts[10] == ' ' || ts[10] == 'T') && ts[13]
                == ':' && ts[16] == ':';
            match zone_minutes(trimmed(ts.skip(fraction_end(ts, 19)))) {
                Some(zone) => if marked {
                    Some(
                        day_number(y as int, mo as int, d as int) * 86400 + h * 3600 + mi * 60 + s
                            - zone * 60,
                    )
                } else {
                    None
                },
                None => None,
            }
        },
        _ => None,
    }
}

/// The time stamp on the line is midnight of 1970-01-01, or that moment in
/// another time zone, which marks a file that is not there.
pub open spec fn is_epoch_line(line: Seq<char>) -> bool {
    match timestamp_field(line) {
        Some(ts) => {
            ||| has_prefix(ts, "1970-01-01"@) && has_text(ts, "00:00:00"@)
            ||| has_text(ts, "1970"@) && has_text(ts, "Jan"@) && has_text(ts, "00:00:00"@)
            ||| zoned_seconds(ts) == Some(0int)
        },
        None => false,
    }
}

/// The time stamp field of a header line: what follows its first tab.
pub fn extract_timestamp_field(line: &str) -> (r: Option<&str>)
    ensures
        match r {
            Some(ts) => timestamp_field(line@) == Some(ts@),
            None => timestamp_field(line@) is None,
        },
{
    let cs = chars_of(line);
    let p = position_in(&cs, 0, '\t');
    proof {
        assert(cs@.skip(0) =~= line@);
        lemma_position(line@, '\t');
    }
    if p == cs.len() {
        return None;
    }
    assert(line@[p as int] == '\t');
    let rest = line.substring_char(p + 1, cs.len());
    assert(line@.subrange(p + 1, line@.len() as int) =~= line@.skip(p + 1));
    Some(trim(rest))
}

/// The `u32` that `s` stands for.
pub open spec fn small(s: Seq<char>) -> Option<int> {
    match parsed(s, 10, u32::MAX as nat) {
        Some(n) => Some(n as int),
        None => None,
    }
}

/// The year that a date falls in when years start in March.
pub open spec fn march_year(y: int, month: int) -> int {
    if month <= 2 {
        y - 1
    } else {
        y
    }
}

/// The month, counted from zero, in years that start in March.
pub open spec fn march_month(month: int) -> int {
    if month <= 2 {
        month + 9
    } else {
        month - 3
    }
}

/// Days from 1970-01-01 to a date of the Gregorian calendar: the days of the
/// years before it, in years that start in March, then those of the months
/// before it, then those of its month.
pub open spec fn day_number(y: int, month: int, day: int) -> int {
    let ys = march_year(y, month);
    365 * ys + ys / 4 - ys / 100 + ys / 400 + (153 * march_month(month) + 2) / 5 + day - 1 - 719468
}

/// A year with a 29th of February.
pub open spec fn is_leap(y: int) -> bool {
    y % 4 == 0 && (y % 100 != 0 || y % 400 == 0)
}

/// The number of days of a month.
pub open spec fn month_len(y: int, month: int) -> int {
    if month == 2 {
        if is_leap(y) {
            29
        } else {
            28
        }
    } else if month == 4 || month == 6 || month == 9 || month == 11 {
        30
    } else {
        31
    }
}

/// The days before the year `y`, counted from a year zero.
spec fn days_before_year(y: int) -> int {
    365 * y + y / 4 - y / 100 + y / 400
}

proof fn lemma_year_len(y: int)
    ensures
        days_before_year(y) - days_before_year(y - 1) == if is_leap(y) {
            366int
        } else {
            365
        },
{
    assert(y / 4 - (y - 1) / 4 == if y % 4 == 0 {
        1int
    } else {
        0
    });
    assert(y / 100 - (y - 1) / 100 == if y % 100 == 0 {
        1int
    } else {
        0
    });
    assert(y / 400 - (y - 1) / 400 == if y % 400 == 0 {
        1int
    } else {
        0
    });
}

/// The last day of a month and the first of the next.
proof fn lemma_month_turns(y: int, month: int)
    requires
        1 <= month <= 12,
    ensures
        day_number(y, month, month_len(y, month)) + 1 == if month < 12 {
            day_number(y, month + 1, 1)
        } else {
            day_number(y + 1, 1, 1)
        },
{
    if month == 2 {
        lemma_year_len(y);
        assert(day_number(y, 3, 1) == days_before_year(y) - 719468);
        assert(day_number(y, 2, 1) == days_before_year(y - 1) + 337 - 719468);
    } else if month == 1 || month == 3 || month == 4 {
    } else if month == 5 || month == 6 || month == 7 {
    } else if month == 8 || month == 9 || month == 10 {
    } else {
        assert(month == 11 || month == 12);
    }
}

/// Days are numbered as the calendar has them, one after the other, from the
/// first of January 1970 as day zero.
pub proof fn law_days_follow_the_calendar(y: int, month: int, day: int)
    requires
        1 <= month <= 12,
        1 <= day <= month_len(y, month),
    ensures
        day_number(1970, 1, 1) == 0,
        day_number(y, month, day) + 1 == if day < month_len(y, month) {
            day_number(y, month, day + 1)
        } else if month < 12 {
            day_number(y, month + 1, 1)
        } else {
            day_number(y + 1, 1, 1)
        },
{
    lemma_month_turns(y, month);
    assert(day_number(y, month, day + 1) == day_number(y, month, day) + 1);
}

/// The offset from UTC, in seconds, in the groups of a time stamp: zero when
/// none is written, `None` when it is not a number.
pub open spec fn utc_offset(g: Seq<Option<Seq<char>>>) -> Option<int> {
    match (g[8], g[9], g[10]) {
        (Some(sign), Some(hh), Some(mm)) => match (small(hh), small(mm)) {
            (Some(h), Some(m)) => Some(
                if sign == "+"@ {
                    h * 3600 + m * 60
                } else {
                    -(h * 3600 + m * 60)
                },
            ),
            _ => None,
        },
        _ => Some(0),
    }
}

/// Seconds from 1970-01-01 00:00:00 UTC to the time in the groups of a time
/// stamp.
pub open spec fn group_seconds(g: Seq<Option<Seq<char>>>) -> Option<int> {
    match (small(g[1]->0), small(g[2]->0), small(g[3]->0)) {
        (Some(y), Some(mo), Some(d)) => match (small(g[4]->0), small(g[5]->0), small(g[6]->0)) {
            (Some(h), Some(mi), Some(s)) => match utc_offset(g) {
                Some(off) => Some(
                    day_number(y, mo, d) * 86400 + h * 3600 + mi * 60 + s - off,
                ),
                None => None,
            },
            _ => None,
        },
        _ => None,
    }
}

/// Seconds from 1970-01-01 00:00:00 UTC to a time stamp.
pub open spec fn timestamp_seconds(ts: Seq<char>) -> Option<int> {
    match captures_of(TIMESTAMP@, ts) {
        Some(g) => group_seconds(g),
        None => None,
    }
}

/// A number of `n` digits is below the power of ten.
proof fn lemma_two_digits(s: Seq<char>)
    requires
        parsed(s, 10, u32::MAX as nat) is Some,
    ensures
        s.len() == 2 ==> small(s)->0 < 100,
        s.len() == 4 ==> small(s)->0 < 10000,
{
    let d = unsigned_part(s);
    reveal_with_fuel(number, 5);
    assert forall|i: int| 0 <= i < d.len() implies 48 <= #[trigger] d[i] as nat <= 57 by {
        assert(is_digit(d[i], 10));
    }
    if d.len() == 1 {
        assert(d.drop_last() =~= Seq::empty());
    } else if d.len() == 2 {
        assert(d.drop_last().drop_last() =~= Seq::empty());
    } else if d.len() == 3 {
        assert(d.drop_last().drop_last().drop_last() =~= Seq::empty());
    } else if d.len() == 4 {
        assert(d.drop_last().drop_last().drop_last().drop_last() =~= Seq::empty());
    }
}

/// The number in a group of at most four digits.
fn small_group(groups: &Vec<Option<String>>, i: usize) -> (r: Option<i64>)
    requires
        i < groups@.len(),
        groups@[i as int] is Some,
        groups@[i as int]->0@.len() == 2 || groups@[i as int]->0@.len() == 4,
    ensures
        match r {
            Some(n) => {
                &&& small(groups@[i as int]->0@) == Some(n as int)
                &&& 0 <= n < 10000
                &&& groups@[i as int]->0@.len() == 2 ==> n < 100
            },
            None => small(groups@[i as int]->0@) is None,
        },
{
    match parse_u32(group(groups, i)) {
        Some(n) => {
            proof {
                lemma_two_digits(groups@[i as int]->0@);
            }
            Some(n as i64)
        },
        None => None,
    }
}

/// Days from 1970-01-01 to a date, counted in eras of 400 years.
fn count_days(y: i64, month: i64, day: i64) -> (r: i64)
    requires
        0 <= y < 10000,
        0 <= month < 100,
        0 <= day < 100,
    ensures
        r == day_number(y as int, month as int, day as int),
        -1_000_000 <= r <= 5_000_000,
{
    let (ys, ms): (i64, i64) = if month <= 2 {
        (y - 1, month + 9)
    } else {
        (y, month - 3)
    };
    let era: i64 = if ys >= 0 {
        ys / 400
    } else {
        -1
    };
    let yoe: i64 = ys - era * 400;
    let doy: i64 = (153 * ms + 2) / 5 + day - 1;
    proof {
        assert(era == ys as int / 400);
        assert(0 <= yoe < 400);
        assert(ys as int / 4 == era * 100 + yoe / 4);
        assert(ys as int / 100 == era * 4 + yoe / 100);
    }
    let before: i64 = yoe * 365 + yoe / 4 - yoe / 100;
    era * 146097 + before + doy - 719468
}

/// Seconds from 1970-01-01 00:00:00 UTC to the time in the groups of a time
/// stamp.
pub fn read_timestamp(groups: &Vec<Option<String>>) -> (r: Option<i64>)
    requires
        group_shape(TIMESTAMP@, group_texts(groups@)),
    ensures
        match r {
            Some(n) => group_seconds(group_texts(groups@)) == Some(n as int),
            None => group_seconds(group_texts(groups@)) is None,
        },
{
    let ghost g = group_texts(groups@);
    proof {
        assert forall|i: int| 0 <= i < 11 implies #[trigger] g[i] == opt_text(groups@[i]) by {}
        assert(g[2] is Some && g[3] is Some && g[4] is Some && g[5] is Some && g[6] is Some);
        assert(g[9] == opt_text(groups@[9]));
        assert(g[10] == opt_text(groups@[10]));
    }
    let y = match small_group(groups, 1) {
        Some(n) => n,
        None => return None,
    };
    let month = match small_group(groups, 2) {
        Some(n) => n,
        None => return None,
    };
    let day = match small_group(groups, 3) {
        Some(n) => n,
        None => return None,
    };
    let h = match small_group(groups, 4) {
        Some(n) => n,
        None => return None,
    };
    let mi = match small_group(groups, 5) {
        Some(n) => n,
        None => return None,
    };
    let s = match small_group(groups, 6) {
        Some(n) => n,
        None => return None,
    };
    let days = count_days(y, month, day);
    let off: i64 = if groups[8].is_some() && groups[9].is_some() && groups[10].is_some() {
        let hh = match small_group(groups, 9) {
            Some(n) => n,
            None => return None,
        };
        let mm = match small_group(groups, 10) {
            Some(n) => n,
            None => return None,
        };
        if str_eq(group(groups, 8), "+") {
            hh * 3600 + mm * 60
        } else {
            -(hh * 3600 + mm * 60)
        }
    } else {
        0
    };
    Some(days * 86400 + h * 3600 + mi * 60 + s - off)
}

/// Seconds from 1970-01-01 00:00:00 UTC to a time stamp such as
/// `2009-03-14 00:00:00`, with or without a fraction and an offset from UTC;
/// `None` when it cannot be read. A stamp without an offset is taken as UTC,
/// whatever `as_utc` says.
pub fn parse_header_timestamp(ts: &str, as_utc: bool) -> (r: Option<i64>)
    ensures
        match r {
            Some(n) => timestamp_seconds(ts@) == Some(n as int),
            None => timestamp_seconds(ts@) is None,
        },
{
    match captures(TIMESTAMP, ts) {
        Some(groups) => read_timestamp(&groups),
        None => None,
    }
}

/// The number that the ASCII digits from `i` to `i + n` stand for.
fn read_number(cs: &Vec<char>, i: usize, n: usize) -> (r: Option<i64>)
    requires
        i <= 100,
        n <= 4,
    ensures
        match r {
            Some(v) => digits_at(cs@, i as int, n as int) == Some(v as nat) && 0 <= v < 10000 && (n
                <= 2 ==> v < 100),
            None => digits_at(cs@, i as int, n as int) is None,
        },
{
    if i + n > cs.len() {
        return None;
    }
    let ghost part = cs@.subrange(i as int, i + n);
    let mut value: i64 = 0;
    let mut k: usize = 0;
    assert(part.take(0) =~= Seq::empty());
    while k < n
        invariant
            i <= 100,
            i + n <= cs@.len(),
            n <= 4,
            k <= n,
            part == cs@.subrange(i as int, i + n),
            value == number(part.take(k as int), 10),
            forall|j: int| 0 <= j < k ==> is_digit(#[trigger] part[j], 10),
            k == 0 ==> value == 0,
            k == 1 ==> 0 <= value < 10,
            k == 2 ==> 0 <= value < 100,
            k == 3 ==> 0 <= value < 1000,
            k == 4 ==> 0 <= value < 10000,
        decreases n - k,
    {
        let c = cs[i + k];
        assert(part[k as int] == c);
        if !('0' <= c && c <= '9') {
            assert(!is_digit(part[k as int], 10));
            return None;
        }
        proof {
            assert(part.take(k + 1).drop_last() =~= part.take(k as int));
            assert(part.take(k + 1).last() == c);
        }
        value = value * 10 + (c as u32 - 48) as i64;
        k = k + 1;
    }
    assert(part.take(n as int) =~= part);
    Some(value)
}

/// Where a fraction of a second from `i` on ends.
fn find_fraction_end(cs: &Vec<char>, i: usize) -> (r: usize)
    requires
        i <= cs@.len(),
    ensures
        r == fraction_end(cs@, i as int),
        i <= r <= cs@.len(),
{
    let total = cs.len();
    if total - i < 2 || cs[i] != '.' || !('0' <= cs[i + 1] && cs[i + 1] <= '9') {
        return i;
    }
    let mut k: usize = i + 1;
    while k < total && '0' <= cs[k] && cs[k] <= '9'
        invariant
            total == cs@.len(),
            i < k <= total,
            digits_end(cs@, k as int) == digits_end(cs@, i + 1),
        decreases total - k,
    {
        k = k + 1;
    }
    k
}

/// An offset from UTC in minutes.
fn read_zone(z: &str) -> (r: Option<i64>)
    ensures
        match r {
            Some(m) => zone_minutes(z@) == Some(m as int) && -10000 < m < 10000,
            None => zone_minutes(z@) is None,
        },
{
    let cs = chars_of(z);
    let long = cs.len() == 6 && cs[3] == ':';
    if !long && cs.len() != 5 {
        return None;
    }
    let at: usize = if long {
        4
    } else {
        3
    };
    match (read_number(&cs, 1, 2), read_number(&cs, at, 2)) {
        (Some(h), Some(m)) => if cs[0] == '+' {
            Some(h * 60 + m)
        } else if cs[0] == '-' {
            Some(-(h * 60 + m))
        } else {
            None
        },
        _ => None,
    }
}

/// Whether a time stamp with an offset from UTC is the first moment of 1970.
fn is_zoned_epoch(ts: &str) -> (r: bool)
    ensures
        r == (zoned_seconds(ts@) == Some(0int)),
{
    let cs = chars_of(ts);
    let date = (read_number(&cs, 0, 4), read_number(&cs, 5, 2), read_number(&cs, 8, 2));
    let time = (read_number(&cs, 11, 2), read_number(&cs, 14, 2), read_number(&cs, 17, 2));
    match (date, time) {
        ((Some(y), Some(mo), Some(d)), (Some(h), Some(mi), Some(s))) => {
            let end = find_fraction_end(&cs, 19);
            let rest = ts.substring_char(end, cs.len());
            assert(rest@ =~= ts@.skip(end as int));
            match read_zone(trim(rest)) {
                Some(zone) => {
                    let marked = cs[4] == '-' && cs[7] == '-' && (cs[10] == ' ' || cs[10] == 'T')
                        && cs[13] == ':' && cs[16] == ':';
                    marked && count_days(y, mo, d) * 86400 + h * 3600 + mi * 60 + s - zone * 60 == 0
                },
                None => false,
            }
        },
        _ => false,
    }
}

/// Whether the time stamp on the line marks a file that is not there.
pub fn is_epoch_timestamp_line(line: &str) -> (r: bool)
    ensures
        r == is_epoch_line(line@),
{
    match extract_timestamp_field(line) {
        Some(ts) => {
            (starts_with(ts, "1970-01-01") && contains_text(ts, "00:00:00")) || (contains_text(
                ts,
                "1970",
            ) && contains_text(ts, "Jan") && contains_text(ts, "00:00:00")) || is_zoned_epoch(ts)
        },
        None => false,
    }
}

// ---------------------------------------------------------------------------
// File names
// ---------------------------------------------------------------------------

/// `char::from_u32` gives the character with that number: every number up to
/// `0x10ffff` has one, except those of surrogates.
pub assume_specification[ char::from_u32 ](i: u32) -> (r: Option<char>)
    ensures
        r == if i < 0xd800 || 0xe000 <= i <= 0x10ffff {
            Some(i as char)
        } else {
            None
        },
;

/// The character that `\` and this letter stand for.
pub open spec fn letter_escape(c: char) -> Option<char> {
    match c {
        'n' => Some('\n'),
        't' => Some('\t'),
        'r' => Some('\r'),
        'b' => Some('\u{8}'),
        'f' => Some('\u{c}'),
        'a' => Some('\u{7}'),
        'v' => Some('\u{b}'),
        '\\' => Some('\\'),
        '"' => Some('"'),
        '\'' => Some('\''),
        _ => None,
    }
}

/// The value of an octal or hexadecimal digit.
pub open spec fn digit_of(c: char, radix: nat) -> Option<nat> {
    let v = if '0' <= c <= '9' {
        (c as nat - 48) as nat
    } else if 'a' <= c <= 'f' {
        (c as nat - 87) as nat
    } else if 'A' <= c <= 'F' {
        (c as nat - 55) as nat
    } else {
        16
    };
    if v < radix {
        Some(v)
    } else {
        None
    }
}

/// The number of digits that `s` begins with, at most `max`.
pub open spec fn digit_count(s: Seq<char>, radix: nat, max: nat) -> nat
    decreases max,
{
    if max > 0 && s.len() > 0 && digit_of(s[0], radix) is Some {
        1 + digit_count(s.skip(1), radix, (max - 1) as nat)
    } else {
        0
    }
}

/// The number that digits stand for.
pub open spec fn digits_value(s: Seq<char>, radix: nat) -> nat
    decreases s.len(),
{
    if s.len() == 0 {
        0
    } else {
        digits_value(s.drop_last(), radix) * radix + digit_of(s.last(), radix)->0
    }
}

/// The text that a C string literal with these contents stands for.
pub open spec fn unquoted(s: Seq<char>) -> Seq<char>
    decreases s.len(),
{
    if s.len() == 0 {
        Seq::empty()
    } else if s[0] != '\\' {
        seq![s[0]] + unquoted(s.skip(1))
    } else if s.len() == 1 {
        seq!['\\']
    } else if letter_escape(s[1]) is Some {
        seq![letter_escape(s[1])->0] + unquoted(s.skip(2))
    } else if digit_of(s[1], 8) is Some {
        let n = digit_count(s.skip(1), 8, 3) as int;
        if 1 + n <= s.len() {
            seq![digits_value(s.subrange(1, 1 + n), 8) as char] + unquoted(s.skip(1 + n))
        } else {
            Seq::empty()
        }
    } else if s[1] == 'x' {
        let n = digit_count(s.skip(2), 16, 2) as int;
        if 2 + n <= s.len() {
            seq![digits_value(s.subrange(2, 2 + n), 16) as char] + unquoted(s.skip(2 + n))
        } else {
            Seq::empty()
        }
    } else {
        seq!['\\', s[1]] + unquoted(s.skip(2))
    }
}

/// Where the first quote stands that no backslash escapes; the length when
/// there is none.
pub open spec fn closing_quote(s: Seq<char>) -> nat
    decreases s.len(),
{
    if s.len() == 0 || s[0] == '"' {
        0
    } else if s[0] != '\\' {
        1 + closing_quote(s.skip(1))
    } else if s.len() == 1 {
        1
    } else {
        2 + closing_quote(s.skip(2))
    }
}

/// The file name on a header line, after its marker: the contents of a quoted
/// name, else what stands before the first tab, without white space around
/// it.
pub open spec fn file_path(rest: Seq<char>) -> Seq<char> {
    let inner = rest.skip(1);
    if rest.len() > 0 && rest[0] == '"' && closing_quote(inner) < inner.len() {
        unquoted(inner.take(closing_quote(inner) as int))
    } else {
        trimmed(rest.take(position(rest, '\t') as int))
    }
}

/// The value of a digit.
fn digit_value(c: char, radix: u32) -> (r: Option<u32>)
    requires
        radix <= 16,
    ensures
        match r {
            Some(v) => digit_of(c, radix as nat) == Some(v as nat) && v < radix,
            None => digit_of(c, radix as nat) is None,
        },
{
    let v: u32 = if '0' <= c && c <= '9' {
        c as u32 - 48
    } else if 'a' <= c && c <= 'f' {
        c as u32 - 87
    } else if 'A' <= c && c <= 'F' {
        c as u32 - 55
    } else {
        16
    };
    if v < radix {
        Some(v)
    } else {
        None
    }
}

/// Reads at most `max` digits from `from` on: their value and where they end.
fn read_digits(cs: &Vec<char>, from: usize, radix: u32, max: usize) -> (r: (u32, usize))
    requires
        from <= cs@.len(),
        radix == 8 || radix == 16,
        max <= 3,
    ensures
        r.1 == from + digit_count(cs@.skip(from as int), radix as nat, max as nat),
        from <= r.1 <= cs@.len(),
        r.0 == digits_value(cs@.subrange(from as int, r.1 as int), radix as nat),
        r.0 < 4096,
{
    let mut i: usize = from;
    let mut value: u32 = 0;
    let mut used: usize = 0;
    assert(cs@.subrange(from as int, from as int) =~= Seq::empty());
    while used < max && i < cs.len()
        invariant
            from <= i <= cs@.len(),
            i == from + used,
            used <= max <= 3,
            radix == 8 || radix == 16,
            value == digits_value(cs@.subrange(from as int, i as int), radix as nat),
            used == 0 ==> value == 0,
            used == 1 ==> value < 16,
            used == 2 ==> value < 256,
            used == 3 ==> value < 4096,
            used + digit_count(cs@.skip(i as int), radix as nat, (max - used) as nat)
                == digit_count(cs@.skip(from as int), radix as nat, max as nat),
        decreases max - used,
    {
        match digit_value(cs[i], radix) {
            Some(d) => {
                proof {
                    let next = cs@.subrange(from as int, i + 1);
                    assert(next.drop_last() =~= cs@.subrange(from as int, i as int));
                    assert(next.last() == cs@[i as int]);
                    assert(cs@.skip(i as int).skip(1) =~= cs@.skip(i + 1));
                    assert(value * 8 < 0x10000 && value * 16 < 0x10000);
                }
                value = if radix == 8 {
                    value * 8 + d
                } else {
                    value * 16 + d
                };
                i = i + 1;
                used = used + 1;
            },
            None => {
                return (value, i);
            },
        }
    }
    (value, i)
}

/// The text that a C string literal with the contents `s` stands for.
pub fn unquote_c_string(s: &str) -> (r: String)
    ensures
        r@ == unquoted(s@),
{
    let cs = chars_of(s);
    let mut out = String::new();
    let mut i: usize = 0;
    assert(cs@.skip(0) =~= s@);
    assert(out@ + unquoted(s@) =~= unquoted(s@));
    while i < cs.len()
        invariant
            cs@ == s@,
            i <= cs@.len(),
            out@ + unquoted(cs@.skip(i as int)) == unquoted(s@),
        decreases cs@.len() - i,
    {
        let ghost rest = cs@.skip(i as int);
        let ghost before = out@;
        let c = cs[i];
        let ghost mut piece: Seq<char> = seq![c];
        let next: usize;
        if c != '\\' {
            out.push(c);
            next = i + 1;
        } else if i + 1 == cs.len() {
            out.push('\\');
            assert(out@ =~= before + seq!['\\']);
            return out;
        } else {
            let e = cs[i + 1];
            assert(rest[1] == e);
            let letter: Option<char> = match e {
                'n' => Some('\n'),
                't' => Some('\t'),
                'r' => Some('\r'),
                'b' => Some('\u{8}'),
                'f' => Some('\u{c}'),
                'a' => Some('\u{7}'),
                'v' => Some('\u{b}'),
                '\\' => Some('\\'),
                '"' => Some('"'),
                '\'' => Some('\''),
                _ => None,
            };
            if let Some(l) = letter {
                out.push(l);
                next = i + 2;
                proof {
                    piece = seq![l];
                }
            } else if '0' <= e && e <= '7' {
                let (value, end) = read_digits(&cs, i + 1, 8, 3);
                proof {
                    assert(rest.skip(1) =~= cs@.skip(i + 1));
                    assert(rest.subrange(1, end - i) =~= cs@.subrange(i + 1, end as int));
                    piece = seq![value as char];
                }
                if let Some(l) = char::from_u32(value) {
                    out.push(l);
                }
                next = end;
            } else if e == 'x' {
                let (value, end) = read_digits(&cs, i + 2, 16, 2);
                proof {
                    assert(rest.skip(2) =~= cs@.skip(i + 2));
                    assert(rest.subrange(2, end - i) =~= cs@.subrange(i + 2, end as int));
                    piece = seq![value as char];
                }
                if let Some(l) = char::from_u32(value) {
                    out.push(l);
                }
                next = end;
            } else {
                out.push('\\');
                out.push(e);
                next = i + 2;
                proof {
                    piece = seq!['\\', e];
                }
            }
        }
        proof {
            assert(out@ =~= before + piece);
            assert(rest.skip(next - i) =~= cs@.skip(next as int));
            assert(unquoted(rest) == piece + unquoted(cs@.skip(next as int)));
            assert(before + (piece + unquoted(cs@.skip(next as int))) =~= before + piece + unquoted(
                cs@.skip(next as int),
            ));
        }
        i = next;
    }
    assert(cs@.skip(i as int) =~= Seq::empty());
    assert(out@ + Seq::<char>::empty() =~= out@);
    out
}

/// Where the first quote from `from` on stands that no backslash escapes.
fn find_closing_quote(cs: &Vec<char>, from: usize) -> (r: usize)
    requires
        from <= cs@.len(),
    ensures
        r == from + closing_quote(cs@.skip(from as int)),
        r <= cs@.len(),
{
    let total = cs.len();
    let mut i: usize = from;
    while i < total && cs[i] != '"'
        invariant
            total == cs@.len(),
            from <= i <= total,
            i + closing_quote(cs@.skip(i as int)) == from + closing_quote(cs@.skip(from as int)),
        decreases total - i,
    {
        let ghost rest = cs@.skip(i as int);
        if cs[i] == '\\' && i + 1 < total {
            assert(rest.skip(2) =~= cs@.skip(i + 2));
            i = i + 2;
        } else {
            assert(rest.skip(1) =~= cs@.skip(i + 1));
            i = i + 1;
        }
    }
    i
}

/// The file name on a header line that begins with `prefix`.
pub fn parse_file_path(line: &str, prefix: &str) -> (r: String)
    requires
        has_prefix(line@, prefix@),
    ensures
        r@ == file_path(line@.skip(prefix@.len() as int)),
{
    let n = prefix.unicode_len();
    let m = line.unicode_len();
    let rest = line.substring_char(n, m);
    assert(rest@ =~= line@.skip(n as int));
    let cs = chars_of(rest);
    if cs.len() > 0 && cs[0] == '"' {
        let end = find_closing_quote(&cs, 1);
        if end < cs.len() {
            let name = rest.substring_char(1, end);
            assert(rest@.subrange(1, end as int) =~= rest@.skip(1).take(end - 1));
            return unquote_c_string(name);
        }
    }
    let tab = position_in(&cs, 0, '\t');
    proof {
        assert(cs@.skip(0) =~= rest@);
        assert(rest@.subrange(0, tab as int) =~= rest@.take(tab as int));
    }
    trim(rest.substring_char(0, tab)).to_owned()
}

} // verus!
