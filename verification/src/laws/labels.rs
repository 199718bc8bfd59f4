//! What header lines say: names, times and ranges.
use vstd::prelude::*;

use crate::header::{
    closing_quote, context_ends, day_number, digit_count, digit_of, digits_at, digits_end,
    digits_value, file_path, fraction_end, group_seconds, is_epoch_line, normal_parts, size,
    timestamp_field, unified_ranges, unquoted, zone_minutes, zoned_seconds,
};
use crate::laws::wording::law_trimming;
use crate::model::PatchError;
use crate::number::{
    all_digits, decimal, is_digit, lemma_decimal_reads_back, number, parsed,
};
use crate::text::{
    has_prefix, has_text, lemma_position_is, lemma_trimmed_start_step, trimmed,
};
use crate::unified::header_file;

verus! {

// ---------------------------------------------------------------------------
// Names
// ---------------------------------------------------------------------------

/// The name on a header line ends at the first tab, or with the line, and white
/// space around it does not belong to it.
pub proof fn law_name_ends_at_the_tab(name: Seq<char>, rest: Seq<char>)
    requires
        !name.contains('\t'),
        name.len() > 0 ==> name[0] != '"',
    ensures
        file_path(name) == trimmed(name),
        file_path(name + seq!['\t'] + rest) == trimmed(name),
{
    let line = name + seq!['\t'] + rest;
    assert forall|i: int| 0 <= i < name.len() implies line[i] != '\t' && name[i] != '\t' by {
        assert(line[i] == name[i]);
        assert(name.contains(name[i]));
    }
    lemma_position_is(line, '\t', name.len());
    lemma_position_is(name, '\t', name.len());
    assert(line.take(name.len() as int) =~= name);
    assert(name.take(name.len() as int) =~= name);
    if name.len() > 0 {
        assert(line[0] == name[0]);
    }
}

/// A name in double quotes is what stands between them, whatever comes after.
pub proof fn law_quoted_name(inner: Seq<char>, rest: Seq<char>)
    requires
        forall|i: int| 0 <= i < inner.len() ==> #[trigger] inner[i] != '"' && inner[i] != '\\',
    ensures
        file_path(seq!['"'] + inner + seq!['"'] + rest) == inner,
{
    let line = seq!['"'] + inner + seq!['"'] + rest;
    let body = line.skip(1);
    assert(body =~= inner + (seq!['"'] + rest));
    lemma_closing_quote(inner, rest);
    assert(body.take(inner.len() as int) =~= inner);
    lemma_plain_unquoted(inner);
}

proof fn lemma_closing_quote(inner: Seq<char>, rest: Seq<char>)
    requires
        forall|i: int| 0 <= i < inner.len() ==> #[trigger] inner[i] != '"' && inner[i] != '\\',
    ensures
        closing_quote(inner + (seq!['"'] + rest)) == inner.len(),
    decreases inner.len(),
{
    let s = inner + (seq!['"'] + rest);
    if inner.len() == 0 {
        assert(s[0] == '"');
    } else {
        assert(s[0] == inner[0]);
        let more = inner.skip(1);
        assert forall|i: int| 0 <= i < more.len() implies #[trigger] more[i] != '"' && more[i]
            != '\\' by {
            assert(more[i] == inner[i + 1]);
        }
        lemma_closing_quote(more, rest);
        assert(s.skip(1) =~= more + (seq!['"'] + rest));
    }
}

proof fn lemma_plain_unquoted(inner: Seq<char>)
    requires
        forall|i: int| 0 <= i < inner.len() ==> #[trigger] inner[i] != '"' && inner[i] != '\\',
    ensures
        unquoted(inner) == inner,
    decreases inner.len(),
{
    if inner.len() > 0 {
        let more = inner.skip(1);
        assert forall|i: int| 0 <= i < more.len() implies #[trigger] more[i] != '"' && more[i]
            != '\\' by {
            assert(more[i] == inner[i + 1]);
        }
        lemma_plain_unquoted(more);
        assert(inner[0] != '\\');
        assert(seq![inner[0]] + more =~= inner);
    }
}

/// A quote ends the name unless a backslash stands before it; a backslash takes
/// the next character with it.
pub proof fn law_quote_that_closes(c: char, s: Seq<char>)
    ensures
        closing_quote(Seq::<char>::empty()) == 0,
        closing_quote(seq!['"'] + s) == 0,
        c != '"' && c != '\\' ==> closing_quote(seq![c] + s) == 1 + closing_quote(s),
        closing_quote(seq!['\\', c] + s) == 2 + closing_quote(s),
{
    assert((seq![c] + s).skip(1) =~= s);
    assert((seq!['\\', c] + s).skip(2) =~= s);
}

/// A character that no backslash stands before stands for itself. A backslash
/// and a letter stand for a control character, and a backslash and a quote, or
/// another backslash, for that. Any other pair stays as it is.
pub proof fn law_letters_behind_a_backslash(c: char, s: Seq<char>)
    ensures
        unquoted(Seq::<char>::empty()) == Seq::<char>::empty(),
        c != '\\' ==> unquoted(seq![c] + s) == seq![c] + unquoted(s),
        unquoted(seq!['\\', 'n'] + s) == seq!['\n'] + unquoted(s),
        unquoted(seq!['\\', 't'] + s) == seq!['\t'] + unquoted(s),
        unquoted(seq!['\\', 'r'] + s) == seq!['\r'] + unquoted(s),
        unquoted(seq!['\\', 'a'] + s) == seq!['\u{7}'] + unquoted(s),
        unquoted(seq!['\\', 'b'] + s) == seq!['\u{8}'] + unquoted(s),
        unquoted(seq!['\\', 'v'] + s) == seq!['\u{b}'] + unquoted(s),
        unquoted(seq!['\\', 'f'] + s) == seq!['\u{c}'] + unquoted(s),
        unquoted(seq!['\\', '\\'] + s) == seq!['\\'] + unquoted(s),
        unquoted(seq!['\\', '"'] + s) == seq!['"'] + unquoted(s),
        unquoted(seq!['\\', '\''] + s) == seq!['\''] + unquoted(s),
        c == 'c' || c == 'd' || c == 'e' || c == '8' || c == '9' || c == ' ' || c == 'N' || c == 'z'
            || c == '.' || c == '/' ==> unquoted(seq!['\\', c] + s) == seq!['\\', c] + unquoted(s),
        unquoted(seq!['\\']) == seq!['\\'],
{
    assert((seq![c] + s).skip(1) =~= s);
    assert((seq!['\\', 'n'] + s).skip(2) =~= s);
    assert((seq!['\\', 't'] + s).skip(2) =~= s);
    assert((seq!['\\', 'r'] + s).skip(2) =~= s);
    assert((seq!['\\', 'a'] + s).skip(2) =~= s);
    assert((seq!['\\', 'b'] + s).skip(2) =~= s);
    assert((seq!['\\', 'v'] + s).skip(2) =~= s);
    assert((seq!['\\', 'f'] + s).skip(2) =~= s);
    assert((seq!['\\', '\\'] + s).skip(2) =~= s);
    assert((seq!['\\', '"'] + s).skip(2) =~= s);
    assert((seq!['\\', '\''] + s).skip(2) =~= s);
    assert((seq!['\\', c] + s).skip(2) =~= s);
}

/// A backslash and three octal digits stand for the character with that number;
/// fewer do when no more follow.
pub proof fn law_digits_behind_a_backslash(a: nat, b: nat, c: nat, s: Seq<char>)
    requires
        a < 8,
        b < 8,
        c < 8,
    ensures
        unquoted(seq!['\\', (48 + a) as char, (48 + b) as char, (48 + c) as char] + s) == seq![
            (64 * a + 8 * b + c) as char,
        ] + unquoted(s),
        s.len() == 0 || !('0' <= s[0] <= '7') ==> unquoted(
            seq!['\\', (48 + a) as char, (48 + b) as char] + s,
        ) == seq![(8 * a + b) as char] + unquoted(s),
        s.len() == 0 || !('0' <= s[0] <= '7') ==> unquoted(seq!['\\', (48 + a) as char] + s)
            == seq![a as char] + unquoted(s),
{
    let (x, y, z) = ((48 + a) as char, (48 + b) as char, (48 + c) as char);
    let three = seq!['\\', x, y, z] + s;
    let t = three.skip(1);
    assert(t[0] == x && t.skip(1)[0] == y && t.skip(1).skip(1)[0] == z);
    reveal_with_fuel(digit_count, 4);
    assert(digit_count(t, 8, 3) == 3);
    assert(three.subrange(1, 4) =~= seq![x, y, z]);
    lemma_value(seq![x, y], z, 8);
    lemma_value(seq![x], y, 8);
    lemma_value(Seq::empty(), x, 8);
    assert(Seq::<char>::empty().push(x) =~= seq![x]);
    assert(seq![x].push(y) =~= seq![x, y]);
    assert(seq![x, y].push(z) =~= seq![x, y, z]);
    assert(three.skip(4) =~= s);
    if s.len() == 0 || !('0' <= s[0] <= '7') {
        let two = seq!['\\', x, y] + s;
        let u = two.skip(1);
        assert(u[0] == x && u.skip(1)[0] == y);
        assert(u.skip(1).skip(1) =~= s);
        assert(digit_count(u, 8, 3) == 2);
        assert(two.subrange(1, 3) =~= seq![x, y]);
        assert(two.skip(3) =~= s);
        let one = seq!['\\', x] + s;
        let v = one.skip(1);
        assert(v[0] == x);
        assert(v.skip(1) =~= s);
        assert(digit_count(v, 8, 3) == 1);
        assert(one.subrange(1, 2) =~= seq![x]);
        assert(one.skip(2) =~= s);
    }
}

/// The character is the digit of this value to the base sixteen.
pub open spec fn is_digit_of_sixteen(c: char, v: nat) -> bool {
    ||| '0' <= c <= '9' && v == c as nat - '0' as nat
    ||| 'a' <= c <= 'f' && v == 10 + c as nat - 'a' as nat
    ||| 'A' <= c <= 'F' && v == 10 + c as nat - 'A' as nat
}

/// A backslash, an `x` and two digits to the base sixteen stand for the
/// character with that number; one digit does when no other follows.
pub proof fn law_digits_behind_an_x(x: char, y: char, v: nat, w: nat, s: Seq<char>)
    requires
        is_digit_of_sixteen(x, v),
        is_digit_of_sixteen(y, w),
    ensures
        unquoted(seq!['\\', 'x', x, y] + s) == seq![(16 * v + w) as char] + unquoted(s),
        s.len() == 0 || !('0' <= s[0] <= '9' || 'a' <= s[0] <= 'f' || 'A' <= s[0] <= 'F')
            ==> unquoted(seq!['\\', 'x', x] + s) == seq![v as char] + unquoted(s),
{
    let two = seq!['\\', 'x', x, y] + s;
    let t = two.skip(2);
    assert(t[0] == x && t.skip(1)[0] == y);
    reveal_with_fuel(digit_count, 3);
    assert(digit_count(t, 16, 2) == 2);
    assert(two.subrange(2, 4) =~= seq![x, y]);
    lemma_value(seq![x], y, 16);
    lemma_value(Seq::empty(), x, 16);
    assert(Seq::<char>::empty().push(x) =~= seq![x]);
    assert(seq![x].push(y) =~= seq![x, y]);
    assert(two.skip(4) =~= s);
    if s.len() == 0 || !('0' <= s[0] <= '9' || 'a' <= s[0] <= 'f' || 'A' <= s[0] <= 'F') {
        let one = seq!['\\', 'x', x] + s;
        let u = one.skip(2);
        assert(u[0] == x);
        assert(u.skip(1) =~= s);
        assert(digit_count(u, 16, 2) == 1);
        assert(one.subrange(2, 3) =~= seq![x]);
        assert(one.skip(3) =~= s);
    }
}

proof fn lemma_value(s: Seq<char>, c: char, radix: nat)
    ensures
        digits_value(s.push(c), radix) == digits_value(s, radix) * radix + digit_of(c, radix)->0,
        digits_value(Seq::<char>::empty(), radix) == 0,
{
    assert(s.push(c).drop_last() =~= s);
}

/// A header line names the file behind its mark, unless its time stamp says that
/// there is none.
pub proof fn law_file_of_a_header_line(mark: Seq<char>, rest: Seq<char>)
    requires
        mark.len() == 4,
    ensures
        is_epoch_line(mark + rest) ==> header_file(mark + rest) == "/dev/null"@,
        !is_epoch_line(mark + rest) ==> header_file(mark + rest) == file_path(rest),
{
    assert((mark + rest).skip(4) =~= rest);
}

// ---------------------------------------------------------------------------
// Times
// ---------------------------------------------------------------------------

/// The time stamp is what follows the first tab, without white space around it;
/// without a tab there is none.
pub proof fn law_time_stamp_follows_the_tab(name: Seq<char>, rest: Seq<char>)
    requires
        !name.contains('\t'),
    ensures
        timestamp_field(name + seq!['\t'] + rest) == Some(trimmed(rest)),
        timestamp_field(name) is None,
{
    let line = name + seq!['\t'] + rest;
    assert forall|i: int| 0 <= i < name.len() implies line[i] != '\t' by {
        assert(line[i] == name[i]);
        assert(name.contains(name[i]));
    }
    lemma_position_is(line, '\t', name.len());
    assert(line[name.len() as int] == '\t');
    assert(line.contains('\t'));
    assert(line.skip(name.len() as int + 1) =~= rest);
}

/// A line says that there is no file if its time stamp begins with the first of
/// January 1970 and has midnight in it, or has that year, that month's name and
/// midnight in it, or is that moment in another time zone; and only then.
pub proof fn law_time_stamps_of_no_file(name: Seq<char>, ts: Seq<char>)
    requires
        !name.contains('\t'),
        trimmed(ts) == ts,
    ensures
        !is_epoch_line(name),
        is_epoch_line(name + seq!['\t'] + ts) == ((has_prefix(ts, "1970-01-01"@) && has_text(
            ts,
            "00:00:00"@,
        )) || (has_text(ts, "1970"@) && has_text(ts, "Jan"@) && has_text(ts, "00:00:00"@))
            || zoned_seconds(ts) == Some(0int)),
{
    law_time_stamp_follows_the_tab(name, ts);
}

/// Two digits.
pub open spec fn two(n: nat) -> Seq<char> {
    seq![(48 + n / 10) as char, (48 + n % 10) as char]
}

/// Four digits.
pub open spec fn four(n: nat) -> Seq<char> {
    two(n / 100) + two(n % 100)
}

proof fn lemma_two(n: nat)
    requires
        n < 100,
    ensures
        all_digits(two(n), 10),
        number(two(n), 10) == n,
{
    let (a, b) = ((48 + n / 10) as char, (48 + n % 10) as char);
    assert(two(n).drop_last() =~= seq![a]);
    assert(seq![a].drop_last() =~= Seq::<char>::empty());
    assert(number(Seq::<char>::empty(), 10) == 0);
    assert(number(seq![a], 10) == n / 10);
    assert(is_digit(a, 10) && is_digit(b, 10));
}

proof fn lemma_four(n: nat)
    requires
        n < 10000,
    ensures
        all_digits(four(n), 10),
        number(four(n), 10) == n,
{
    let (h, l) = (n / 100, n % 100);
    lemma_two(h);
    lemma_two(l);
    let s = four(n);
    assert(s.drop_last().drop_last() =~= two(h));
    assert(s.drop_last().last() == two(l)[0] && s.last() == two(l)[1]);
    assert forall|i: int| 0 <= i < s.len() implies is_digit(#[trigger] s[i], 10) by {
        if i < 2 {
            assert(is_digit(two(h)[i], 10));
        } else {
            assert(is_digit(two(l)[i - 2], 10));
        }
    }
    assert(number(s.drop_last(), 10) == number(two(h), 10) * 10 + l / 10);
    assert(number(s, 10) == number(s.drop_last(), 10) * 10 + l % 10);
}

/// An offset from UTC is hours and minutes behind its sign.
pub proof fn law_offset_from_utc(h: nat, m: nat)
    requires
        h < 100,
        m < 100,
    ensures
        zone_minutes(seq!['+'] + two(h) + two(m)) == Some(60 * h + m as int),
        zone_minutes(seq!['-'] + two(h) + two(m)) == Some(-(60 * h + m)),
        zone_minutes(seq!['+'] + two(h) + seq![':'] + two(m)) == Some(60 * h + m as int),
        zone_minutes(seq!['-'] + two(h) + seq![':'] + two(m)) == Some(-(60 * h + m)),
{
    lemma_two(h);
    lemma_two(m);
    lemma_zone('+', h, m);
    lemma_zone('-', h, m);
}

proof fn lemma_zone(sign: char, h: nat, m: nat)
    requires
        h < 100,
        m < 100,
    ensures
        ({
            let short = seq![sign] + two(h) + two(m);
            let long = seq![sign] + two(h) + seq![':'] + two(m);
            &&& digits_at(short, 1, 2) == Some(h) && digits_at(short, 3, 2) == Some(m)
            &&& digits_at(long, 1, 2) == Some(h) && digits_at(long, 4, 2) == Some(m)
            &&& short.len() == 5 && long.len() == 6 && long[3] == ':' && short[0] == sign && long[0]
                == sign
        }),
{
    lemma_two(h);
    lemma_two(m);
    let short = seq![sign] + two(h) + two(m);
    let long = seq![sign] + two(h) + seq![':'] + two(m);
    assert(short.subrange(1, 3) =~= two(h));
    assert(short.subrange(3, 5) =~= two(m));
    assert(long.subrange(1, 3) =~= two(h));
    assert(long.subrange(4, 6) =~= two(m));
}

/// A date and a time of day stand at the start, as time stamps have them.
pub open spec fn is_dated(
    ts: Seq<char>,
    y: nat,
    mo: nat,
    d: nat,
    h: nat,
    mi: nat,
    s: nat,
) -> bool {
    &&& ts.len() > 19
    &&& ts.subrange(0, 4) == four(y) && ts[4] == '-'
    &&& ts.subrange(5, 7) == two(mo) && ts[7] == '-'
    &&& ts.subrange(8, 10) == two(d) && ts[10] == ' '
    &&& ts.subrange(11, 13) == two(h) && ts[13] == ':'
    &&& ts.subrange(14, 16) == two(mi) && ts[16] == ':'
    &&& ts.subrange(17, 19) == two(s)
}

/// A time stamp with its offset from UTC is the moment that it names, whatever
/// fraction of a second is written between them, up to `end`.
pub proof fn law_zoned_time_stamp(
    ts: Seq<char>,
    y: nat,
    mo: nat,
    d: nat,
    h: nat,
    mi: nat,
    s: nat,
    end: int,
    sign: char,
    oh: nat,
    om: nat,
)
    requires
        y < 10000 && mo < 100 && d < 100 && h < 100 && mi < 100 && s < 100 && oh < 100 && om < 100,
        sign == '+' || sign == '-',
        is_dated(ts, y, mo, d, h, mi, s),
        19 <= end < ts.len(),
        end > 19 ==> end > 20 && ts[19] == '.' && forall|k: int|
            20 <= k < end ==> is_digit(#[trigger] ts[k], 10),
        ts.skip(end) == seq![' '] + (seq![sign] + two(oh) + two(om)),
    ensures
        zoned_seconds(ts) == Some(
            day_number(y as int, mo as int, d as int) * 86400 + h * 3600 + mi * 60 + s - if sign
                == '+' {
                (60 * oh + om) * 60 as int
            } else {
                -((60 * oh + om) * 60)
            },
        ),
{
    let zone = seq![sign] + two(oh) + two(om);
    law_offset_from_utc(oh, om);
    lemma_four(y);
    lemma_two(mo);
    lemma_two(d);
    lemma_two(h);
    lemma_two(mi);
    lemma_two(s);
    assert(four(y).len() == 4);
    let tail = ts.skip(end);
    assert(ts[end] == tail[0]);
    assert(tail[0] == ' ');
    if end > 19 {
        assert(is_digit(ts[20], 10));
        lemma_digits_end(ts, 20, end);
    }
    assert(fraction_end(ts, 19) == end);
    lemma_zone_is_left(zone, tail, sign, oh, om);
}

proof fn lemma_zone_is_left(zone: Seq<char>, tail: Seq<char>, sign: char, oh: nat, om: nat)
    requires
        oh < 100 && om < 100,
        sign == '+' || sign == '-',
        zone == seq![sign] + two(oh) + two(om),
        tail == seq![' '] + zone,
    ensures
        trimmed(tail) == zone,
{
    lemma_two(om);
    assert(is_digit(two(om)[1], 10));
    assert(zone[0] == sign && zone.len() == 5 && zone[4] == two(om)[1]);
    lemma_trimmed_start_step(tail);
    assert(tail.skip(1) =~= zone);
    lemma_trimmed_start_step(zone);
    law_trimming(zone, zone);
}

proof fn lemma_digits_end(s: Seq<char>, i: int, end: int)
    requires
        0 <= i <= end < s.len(),
        forall|k: int| i <= k < end ==> is_digit(#[trigger] s[k], 10),
        !is_digit(s[end], 10),
    ensures
        digits_end(s, i) == end,
    decreases end - i,
{
    if i < end {
        assert(is_digit(s[i], 10));
        lemma_digits_end(s, i + 1, end);
    }
}

/// A digit stands at every place of a date and a time of day.
pub open spec fn is_digit_place(k: int) -> bool {
    0 <= k < 19 && k != 4 && k != 7 && k != 10 && k != 13 && k != 16
}

/// A text that is too short, that has something else in the place of a digit, or
/// other signs between the numbers, names no moment.
pub proof fn law_other_texts_name_no_moment(ts: Seq<char>, k: int)
    ensures
        ts.len() < 19 ==> zoned_seconds(ts) is None,
        ts.len() >= 19 && is_digit_place(k) && !('0' <= ts[k] <= '9') ==> zoned_seconds(ts) is None,
        ts.len() >= 19 && !(ts[4] == '-' && ts[7] == '-' && (ts[10] == ' ' || ts[10] == 'T')
            && ts[13] == ':' && ts[16] == ':') ==> zoned_seconds(ts) is None,
{
    if ts.len() >= 19 && is_digit_place(k) && !('0' <= ts[k] <= '9') {
        if k < 4 {
            lemma_no_digits(ts, 0, 4, k);
        } else if 5 <= k < 7 {
            lemma_no_digits(ts, 5, 2, k);
        } else if 8 <= k < 10 {
            lemma_no_digits(ts, 8, 2, k);
        } else if 11 <= k < 13 {
            lemma_no_digits(ts, 11, 2, k);
        } else if 14 <= k < 16 {
            lemma_no_digits(ts, 14, 2, k);
        } else {
            lemma_no_digits(ts, 17, 2, k);
        }
    }
}

proof fn lemma_no_digits(s: Seq<char>, i: int, n: int, k: int)
    requires
        0 <= i <= k < i + n <= s.len(),
        !('0' <= s[k] <= '9'),
    ensures
        digits_at(s, i, n) is None,
{
    let part = s.subrange(i, i + n);
    assert(part[k - i] == s[k]);
    assert(!is_digit(part[k - i], 10));
}

/// The days of a year that is not a leap year before a month.
pub open spec fn days_before(month: int) -> int {
    if month == 1 {
        0
    } else if month == 2 {
        31
    } else if month == 3 {
        59
    } else if month == 4 {
        90
    } else if month == 5 {
        120
    } else if month == 6 {
        151
    } else if month == 7 {
        181
    } else if month == 8 {
        212
    } else if month == 9 {
        243
    } else if month == 10 {
        273
    } else if month == 11 {
        304
    } else {
        334
    }
}

/// Days are counted from the first of January 1970: those of the years since
/// then, one more for each leap year, then those of the months and of the month.
pub proof fn law_days_of_the_calendar(y: int, month: int, day: int)
    requires
        y >= 1601,
        1 <= month <= 12,
    ensures
        ({
            let leap = y % 4 == 0 && (y % 100 != 0 || y % 400 == 0);
            day_number(y, month, day) == 365 * (y - 1970) + (y - 1969) / 4 - (y - 1901) / 100 + (y
                - 1601) / 400 + days_before(month) + (if leap && month > 2 {
                1int
            } else {
                0
            }) + day - 1
        }),
{
    assert((y - 1) / 4 == (y - 1969) / 4 + 492);
    assert((y - 1) / 100 == (y - 1901) / 100 + 19);
    assert((y - 1) / 400 == (y - 1601) / 400 + 4);
    assert(y / 4 == (y - 1) / 4 + if y % 4 == 0 {
        1int
    } else {
        0
    });
    assert(y / 100 == (y - 1) / 100 + if y % 100 == 0 {
        1int
    } else {
        0
    });
    assert(y / 400 == (y - 1) / 400 + if y % 400 == 0 {
        1int
    } else {
        0
    });
    assert(y % 100 == 0 ==> y % 4 == 0);
    assert(y % 400 == 0 ==> y % 100 == 0);
}

/// The groups of a time stamp give the moment: the day of the calendar, the time
/// of day, and the offset from UTC taken off. Without an offset it is UTC.
pub proof fn law_moment_of_a_time_stamp(
    g: Seq<Option<Seq<char>>>,
    y: u32,
    mo: u32,
    d: u32,
    h: u32,
    mi: u32,
    s: u32,
    oh: u32,
    om: u32,
)
    requires
        g.len() == 11,
        g[1] == Some(decimal(y as nat)),
        g[2] == Some(decimal(mo as nat)),
        g[3] == Some(decimal(d as nat)),
        g[4] == Some(decimal(h as nat)),
        g[5] == Some(decimal(mi as nat)),
        g[6] == Some(decimal(s as nat)),
    ensures
        ({
            let moment = day_number(y as int, mo as int, d as int) * 86400 + h * 3600 + mi * 60 + s;
            &&& g[8] is None && g[9] is None && g[10] is None ==> group_seconds(g) == Some(moment)
            &&& g[8] == Some(seq!['+']) && g[9] == Some(decimal(oh as nat)) && g[10] == Some(
                decimal(om as nat),
            ) ==> group_seconds(g) == Some(moment - oh * 3600 - om * 60)
            &&& g[8] == Some(seq!['-']) && g[9] == Some(decimal(oh as nat)) && g[10] == Some(
                decimal(om as nat),
            ) ==> group_seconds(g) == Some(moment + oh * 3600 + om * 60)
        }),
{
    reveal_strlit("+");
    assert("+"@ =~= seq!['+']);
    assert(seq!['-'][0] != seq!['+'][0]);
    lemma_small(y);
    lemma_small(mo);
    lemma_small(d);
    lemma_small(h);
    lemma_small(mi);
    lemma_small(s);
    lemma_small(oh);
    lemma_small(om);
}

proof fn lemma_small(n: u32)
    ensures
        parsed(decimal(n as nat), 10, u32::MAX as nat) == Some(n as nat),
{
    lemma_decimal_reads_back(n as nat);
}

// ---------------------------------------------------------------------------
// Ranges
// ---------------------------------------------------------------------------

proof fn lemma_size(n: usize)
    ensures
        size(decimal(n as nat)) == Some(n),
{
    lemma_decimal_reads_back(n as nat);
    assert(parsed(decimal(n as nat), 10, usize::MAX as nat) == Some(n as nat));
}

/// The numbers of a unified hunk header are, in order, the start and the count
/// of the old side and those of the new side; a count that is not written is
/// one.
pub proof fn law_numbers_of_a_unified_header(
    g: Seq<Option<Seq<char>>>,
    a: usize,
    b: usize,
    c: usize,
    d: usize,
)
    requires
        g.len() == 5,
        g[1] == Some(decimal(a as nat)),
        g[2] == Some(decimal(b as nat)) || (g[2] is None && b == 1),
        g[3] == Some(decimal(c as nat)),
        g[4] == Some(decimal(d as nat)) || (g[4] is None && d == 1),
    ensures
        unified_ranges(g) == Ok::<_, PatchError>((a, b, c, d)),
{
    lemma_size(a);
    lemma_size(b);
    lemma_size(c);
    lemma_size(d);
}

/// The numbers of a context range are its first and its last line; a last line
/// that is not written is the first.
pub proof fn law_numbers_of_a_context_range(g: Seq<Option<Seq<char>>>, a: usize, b: usize)
    requires
        g.len() == 3,
        g[1] == Some(decimal(a as nat)),
        g[2] == Some(decimal(b as nat)) || (g[2] is None && b == a),
    ensures
        context_ends(g) == Ok::<_, PatchError>((a, b)),
{
    lemma_size(a);
    lemma_size(b);
}

/// A normal command is the first and the last line on the old side, its letter,
/// and the first and the last line on the new side; a last line that is not
/// written is the first.
pub proof fn law_numbers_of_a_normal_command(
    g: Seq<Option<Seq<char>>>,
    a: usize,
    b: usize,
    letter: char,
    c: usize,
    d: usize,
)
    requires
        g.len() == 6,
        g[1] == Some(decimal(a as nat)),
        g[2] == Some(decimal(b as nat)) || (g[2] is None && b == a),
        g[3] == Some(seq![letter]),
        g[4] == Some(decimal(c as nat)),
        g[5] == Some(decimal(d as nat)) || (g[5] is None && d == c),
    ensures
        normal_parts(g) == Ok::<_, PatchError>((a, b, letter, c, d)),
{
    lemma_size(a);
    lemma_size(b);
    lemma_size(c);
    lemma_size(d);
}

} // verus!
