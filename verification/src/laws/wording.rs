//! What the operations on text give.
use vstd::prelude::*;

use crate::number::{
    all_digits, decimal, is_digit, number, octal, parsed, signed_decimal, unsigned_part,
};
use crate::text::{
    has_prefix, has_suffix, has_text, is_white, joined, lemma_position, lemma_position_is,
    lemma_white_run, lemma_word_run, newline_parts, position, split_on, std_lines, trimmed,
    trimmed_end, trimmed_start, white_run, without_cr, word_run, words,
};

verus! {

// ---------------------------------------------------------------------------
// Beginnings, ends and white space
// ---------------------------------------------------------------------------

/// A text begins with its beginning, ends with its end and has what stands in
/// it; and it has none of these that is not written in it.
pub proof fn law_beginnings_and_ends(a: Seq<char>, p: Seq<char>, b: Seq<char>, s: Seq<char>)
    ensures
        has_prefix(p + b, p),
        has_suffix(a + p, p),
        has_text(a + p + b, p),
        has_prefix(s, p) ==> s == p + s.subrange(p.len() as int, s.len() as int),
        has_suffix(s, p) ==> s == s.subrange(0, s.len() - p.len()) + p,
        has_text(s, p) ==> exists|i: int|
            0 <= i <= s.len() - p.len() && s == (#[trigger] s.subrange(0, i)) + p + s.subrange(
                i + p.len(),
                s.len() as int,
            ),
{
    assert((p + b).take(p.len() as int) =~= p);
    assert((a + p).skip(a.len() as int) =~= p);
    assert((a + p + b).subrange(a.len() as int, (a.len() + p.len()) as int) =~= p);
    if has_prefix(s, p) {
        assert(s =~= p + s.subrange(p.len() as int, s.len() as int)) by {
            assert(s.take(p.len() as int) =~= p);
        }
    }
    if has_suffix(s, p) {
        assert(s =~= s.subrange(0, s.len() - p.len()) + p);
    }
    if has_text(s, p) {
        let i = choose|i: int|
            0 <= i <= s.len() - p.len() && #[trigger] s.subrange(i, i + p.len()) == p;
        assert(s =~= s.subrange(0, i) + s.subrange(i, i + p.len()) + s.subrange(
            i + p.len(),
            s.len() as int,
        ));
    }
}

/// Blanks, tabs and line ends are white space; letters, digits and signs are
/// not.
pub proof fn law_white_space(c: char)
    ensures
        is_white(' ') && is_white('\t') && is_white('\n') && is_white('\r'),
        is_white('\u{b}') && is_white('\u{c}') && is_white('\u{a0}') && is_white('\u{3000}'),
        '!' <= c <= '~' ==> !is_white(c),
        c < '\t' ==> !is_white(c),
{
}

/// What is trimmed off is white space, and what is left begins and ends with
/// none.
pub proof fn law_trimming(s: Seq<char>, t: Seq<char>)
    ensures
        trimmed(s).len() > 0 ==> !is_white(trimmed(s)[0]) && !is_white(trimmed(s).last()),
        exists|a: Seq<char>, b: Seq<char>|
            s == #[trigger] (a + trimmed(s) + b) && (forall|i: int|
                0 <= i < a.len() ==> is_white(#[trigger] a[i])) && (forall|i: int|
                0 <= i < b.len() ==> is_white(#[trigger] b[i])),
        t.len() > 0 && !is_white(t[0]) && !is_white(t.last()) ==> trimmed(t) == t,
        (forall|i: int| 0 <= i < t.len() ==> is_white(#[trigger] t[i])) ==> trimmed(t) == Seq::<
            char,
        >::empty(),
{
    lemma_white_run(s);
    let a = s.take(white_run(s) as int);
    let m = trimmed_start(s);
    lemma_trimmed_end(m);
    let b = m.skip(trimmed(s).len() as int);
    assert forall|i: int| 0 <= i < b.len() implies is_white(#[trigger] b[i]) by {
        assert(b[i] == m[trimmed(s).len() + i]);
    }
    assert(s =~= a + trimmed(s) + b);
    lemma_white_run(t);
    lemma_trimmed_end(trimmed_start(t));
    if t.len() > 0 && !is_white(t[0]) {
        assert(white_run(t) == 0);
        assert(trimmed_start(t) =~= t);
    }
    if forall|i: int| 0 <= i < t.len() ==> is_white(#[trigger] t[i]) {
        assert(white_run(t) == t.len());
        assert(trimmed_start(t) =~= Seq::empty());
    }
}

proof fn lemma_trimmed_end(s: Seq<char>)
    ensures
        trimmed_end(s).len() <= s.len(),
        trimmed_end(s) == s.take(trimmed_end(s).len() as int),
        trimmed_end(s).len() > 0 ==> !is_white(trimmed_end(s).last()),
        forall|i: int| trimmed_end(s).len() <= i < s.len() ==> is_white(#[trigger] s[i]),
        s.len() > 0 && !is_white(s.last()) ==> trimmed_end(s) == s,
    decreases s.len(),
{
    if s.len() > 0 && is_white(s.last()) {
        let init = s.drop_last();
        lemma_trimmed_end(init);
        assert(init.take(trimmed_end(s).len() as int) =~= s.take(trimmed_end(s).len() as int));
        assert forall|i: int| trimmed_end(s).len() <= i < s.len() implies is_white(
            #[trigger] s[i],
        ) by {
            if i < init.len() {
                assert(init[i] == s[i]);
            }
        }
    } else {
        assert(s.take(s.len() as int) =~= s);
    }
}

/// A word that white space or the end of the text follows comes first among the
/// words.
pub proof fn law_first_word(w: Seq<char>, rest: Seq<char>)
    requires
        w.len() > 0,
        forall|i: int| 0 <= i < w.len() ==> !is_white(#[trigger] w[i]),
        rest.len() == 0 || is_white(rest[0]),
    ensures
        words(w + rest) == seq![w] + words(rest),
{
    let s = w + rest;
    lemma_white_run(s);
    assert(s[0] == w[0]);
    assert(white_run(s) == 0);
    let t = s.skip(0);
    assert(t =~= s);
    lemma_word_run(t);
    let n = word_run(t) as int;
    if n < w.len() {
        assert(t[n] == w[n]);
    }
    if n > w.len() {
        assert(t[w.len() as int] == rest[0]);
    }
    assert(t.take(n) =~= w);
    assert(t.skip(n) =~= rest);
}

/// White space in front makes no difference to the words, and a text of white
/// space has none.
pub proof fn law_words_begin_after_white_space(c: char, s: Seq<char>)
    requires
        is_white(c),
    ensures
        words(seq![c] + s) == words(s),
        words(Seq::<char>::empty()) == Seq::<Seq<char>>::empty(),
{
    let t = seq![c] + s;
    assert(t.skip(1) =~= s);
    assert(white_run(t) == 1 + white_run(s));
    lemma_white_run(s);
    assert(t.skip(white_run(t) as int) =~= s.skip(white_run(s) as int));
    let rest = s.skip(white_run(s) as int);
    lemma_word_run(rest);
    assert(Seq::<char>::empty().skip(0) =~= Seq::<char>::empty());
}

/// Two words with a blank between them.
pub proof fn lemma_two_words(a: Seq<char>, b: Seq<char>)
    requires
        a.len() > 0,
        b.len() > 0,
        forall|i: int| 0 <= i < a.len() ==> !is_white(#[trigger] a[i]),
        forall|i: int| 0 <= i < b.len() ==> !is_white(#[trigger] b[i]),
    ensures
        words(a + seq![' '] + b) == seq![a, b],
{
    assert(a + seq![' '] + b =~= a + (seq![' '] + b));
    law_first_word(a, seq![' '] + b);
    law_words_begin_after_white_space(' ', b);
    law_first_word(b, Seq::empty());
    assert(b + Seq::<char>::empty() =~= b);
    assert(seq![a] + (seq![b] + Seq::<Seq<char>>::empty()) =~= seq![a, b]);
}

// ---------------------------------------------------------------------------
// Lines
// ---------------------------------------------------------------------------

/// A carriage return at the end is left out, one and no other.
pub proof fn law_carriage_return_at_the_end(s: Seq<char>)
    ensures
        without_cr(s + seq!['\r']) == s,
        s.len() == 0 || s[s.len() - 1] != '\r' ==> without_cr(s) == s,
{
    assert((s + seq!['\r']).drop_last() =~= s);
}

/// The lines, each followed by a newline.
pub open spec fn ended_lines(lines: Seq<Seq<char>>) -> Seq<char>
    decreases lines.len(),
{
    if lines.len() == 0 {
        Seq::empty()
    } else {
        lines[0] + seq!['\n'] + ended_lines(lines.skip(1))
    }
}

proof fn lemma_ended_lines(lines: Seq<Seq<char>>, last: Seq<char>)
    requires
        forall|i: int| 0 <= i < lines.len() ==> !(#[trigger] lines[i]).contains('\n'),
        !last.contains('\n'),
    ensures
        split_on(ended_lines(lines) + last, '\n') == lines.push(last),
    decreases lines.len(),
{
    let s = ended_lines(lines) + last;
    lemma_position(s, '\n');
    if lines.len() == 0 {
        assert(s =~= last);
        let p = position(s, '\n') as int;
        if p < s.len() {
            assert(last[p] == '\n');
        }
        assert(lines.push(last) =~= seq![last]);
    } else {
        let rest = lines.skip(1);
        assert forall|i: int| 0 <= i < rest.len() implies !(#[trigger] rest[i]).contains('\n') by {
            assert(rest[i] == lines[i + 1]);
        }
        lemma_ended_lines(rest, last);
        let n = lines[0].len();
        assert(s =~= lines[0] + seq!['\n'] + (ended_lines(rest) + last));
        assert forall|i: int| 0 <= i < n implies s[i] != '\n' by {
            assert(s[i] == lines[0][i]);
            assert(lines[0].contains(lines[0][i]));
        }
        lemma_position_is(s, '\n', n);
        assert(s.take(n as int) =~= lines[0]);
        assert(s.skip(n as int + 1) =~= ended_lines(rest) + last);
        assert(lines.push(last) =~= seq![lines[0]] + rest.push(last));
    }
}

/// A text is its lines, whether its last line has a newline or not. Carriage
/// returns are part of the lines; or, read the other way, one before a newline
/// is not, but one at the very end of the text is.
pub proof fn law_lines_of_a_text(lines: Seq<Seq<char>>, last: Seq<char>)
    requires
        forall|i: int| 0 <= i < lines.len() ==> !(#[trigger] lines[i]).contains('\n'),
        !last.contains('\n'),
    ensures
        newline_parts(ended_lines(lines)) == lines,
        last.len() > 0 ==> newline_parts(ended_lines(lines) + last) == lines.push(last),
        std_lines(ended_lines(lines)) == lines.map_values(|l: Seq<char>| without_cr(l)),
        last.len() > 0 ==> std_lines(ended_lines(lines) + last) == lines.map_values(
            |l: Seq<char>| without_cr(l),
        ).push(last),
{
    let bare = lines.map_values(|l: Seq<char>| without_cr(l));
    lemma_ended_lines(lines, Seq::empty());
    assert(ended_lines(lines) + Seq::<char>::empty() =~= ended_lines(lines));
    assert(lines.push(Seq::empty()).drop_last() =~= lines);
    lemma_ended_lines(lines, last);
    let parts = lines.push(last);
    assert(Seq::new((parts.len() - 1) as nat, |i: int| without_cr(parts[i])) =~= bare);
    let more = lines.push(Seq::empty());
    assert(Seq::new((more.len() - 1) as nat, |i: int| without_cr(more[i])) =~= bare);
}

/// Joined texts stand one after the other with the separator between them.
pub proof fn law_joining(parts: Seq<Seq<char>>, last: Seq<char>, sep: Seq<char>)
    ensures
        joined(Seq::empty(), sep) == Seq::<char>::empty(),
        joined(seq![last], sep) == last,
        parts.len() > 0 ==> joined(parts.push(last), sep) == joined(parts, sep) + sep + last,
{
    assert(parts.push(last).drop_last() =~= parts);
}

// ---------------------------------------------------------------------------
// Numbers
// ---------------------------------------------------------------------------

/// A digit more makes a number ten times as large, or eight times, plus the
/// digit; one digit is its own value.
pub proof fn law_digits_make_a_number(s: Seq<char>, d: nat, radix: nat, n: nat, max: nat)
    requires
        radix == 8 || radix == 10,
        d < radix,
    ensures
        d <= max ==> parsed(seq![(48 + d) as char], radix, max) == Some(d),
        s.len() > 0 && s[0] != '+' && parsed(s, radix, max) == Some(n) ==> parsed(
            s.push((48 + d) as char),
            radix,
            max,
        ) == if n * radix + d <= max {
            Some(n * radix + d)
        } else {
            None
        },
{
    let c = (48 + d) as char;
    assert(is_digit(c, radix));
    let one = seq![c];
    assert(one.drop_last() =~= Seq::empty());
    assert(number(Seq::<char>::empty(), radix) == 0);
    assert(number(one, radix) == d);
    assert(unsigned_part(one) == one);
    assert(all_digits(one, radix));
    if s.len() > 0 && s[0] != '+' && parsed(s, radix, max) == Some(n) {
        let t = s.push(c);
        assert(t.drop_last() =~= s);
        assert(t[0] == s[0]);
        assert(unsigned_part(t) == t && unsigned_part(s) == s);
        assert forall|i: int| 0 <= i < t.len() implies is_digit(#[trigger] t[i], radix) by {
            if i < s.len() {
                assert(t[i] == s[i]);
                assert(is_digit(s[i], radix));
            }
        }
    }
}

/// A text with a character that is no digit, but for a plus sign in front, is no
/// number, and neither is one without digits. A plus sign in front of digits
/// makes no difference.
pub proof fn law_other_texts_are_no_numbers(s: Seq<char>, k: int, radix: nat, max: nat)
    requires
        radix == 8 || radix == 10,
    ensures
        s.len() == 0 || s == seq!['+'] ==> parsed(s, radix, max) is None,
        0 <= k < s.len() && !(48 <= s[k] as nat && (s[k] as nat) < 48 + radix) && (k > 0 || s[k]
            != '+') ==> parsed(s, radix, max) is None,
        s.len() > 0 && s[0] != '+' ==> parsed(seq!['+'] + s, radix, max) == parsed(s, radix, max),
{
    if s == seq!['+'] {
        assert(s.skip(1) =~= Seq::empty());
    }
    if 0 <= k < s.len() && !(48 <= s[k] as nat && (s[k] as nat) < 48 + radix) && (k > 0 || s[k]
        != '+') {
        let j = if s[0] == '+' {
            k - 1
        } else {
            k
        };
        assert(unsigned_part(s)[j] == s[k]);
        assert(!is_digit(s[k], radix));
    }
    assert((seq!['+'] + s).skip(1) =~= s);
}

/// A mode is an octal number that fits, and nothing else is.
pub proof fn law_octal_numbers(s: Seq<char>)
    ensures
        match parsed(s, 8, 0xffff_ffff) {
            Some(n) => octal(s) == Some(n as u32) && n <= 0xffff_ffff,
            None => octal(s) is None,
        },
{
}

/// A number is written with its own digits, the last one behind the others, and
/// a negative one with a minus sign.
pub proof fn law_numbers_as_they_are_written(n: nat, d: nat)
    requires
        d < 10,
    ensures
        decimal(d) == seq![(48 + d) as char],
        n > 0 ==> decimal(10 * n + d) == decimal(n).push((48 + d) as char),
        signed_decimal(n as int) == decimal(n),
        n > 0 ==> signed_decimal(-(n as int)) == seq!['-'] + decimal(n),
{
    if n > 0 {
        assert((10 * n + d) / 10 == n && (10 * n + d) % 10 == d);
    }
    reveal_strlit("-");
    assert("-"@ =~= seq!['-']);
}

} // verus!
