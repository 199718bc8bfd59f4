//! Text as sequences of characters: the string operations that the rest of
//! the crate is written with.
use vstd::prelude::*;

verus! {

/// `String::push` appends one character.
pub assume_specification[ String::push ](s: &mut String, c: char)
    ensures
        final(s)@ == old(s)@.push(c),
;

// ---------------------------------------------------------------------------
// Vocabulary
// ---------------------------------------------------------------------------

/// `s` begins with `p`.
pub open spec fn has_prefix(s: Seq<char>, p: Seq<char>) -> bool {
    p.len() <= s.len() && s.take(p.len() as int) == p
}

/// `s` ends with `p`.
pub open spec fn has_suffix(s: Seq<char>, p: Seq<char>) -> bool {
    p.len() <= s.len() && s.skip(s.len() - p.len()) == p
}

/// `p` occurs in `s`.
pub open spec fn has_text(s: Seq<char>, p: Seq<char>) -> bool {
    exists|i: int| 0 <= i <= s.len() - p.len() && #[trigger] s.subrange(i, i + p.len()) == p
}

/// The number of characters before the first `c`; all of them when there is
/// no `c`.
pub open spec fn position(s: Seq<char>, c: char) -> nat
    decreases s.len(),
{
    if s.len() == 0 || s[0] == c {
        0
    } else {
        1 + position(s.skip(1), c)
    }
}

/// The pieces of `s` between the occurrences of `c`; one more than there are
/// occurrences.
pub open spec fn split_on(s: Seq<char>, c: char) -> Seq<Seq<char>>
    decreases s.len(),
{
    let p = position(s, c) as int;
    if p >= s.len() {
        seq![s]
    } else {
        seq![s.take(p)] + split_on(s.skip(p + 1), c)
    }
}

/// The white space characters of Unicode (the property `White_Space`).
pub open spec fn is_white(c: char) -> bool {
    ||| '\u{9}' <= c <= '\u{d}'
    ||| c == ' '
    ||| c == '\u{85}'
    ||| c == '\u{a0}'
    ||| c == '\u{1680}'
    ||| '\u{2000}' <= c <= '\u{200a}'
    ||| c == '\u{2028}'
    ||| c == '\u{2029}'
    ||| c == '\u{202f}'
    ||| c == '\u{205f}'
    ||| c == '\u{3000}'
}

/// The number of leading white space characters.
pub open spec fn white_run(s: Seq<char>) -> nat
    decreases s.len(),
{
    if s.len() > 0 && is_white(s[0]) {
        1 + white_run(s.skip(1))
    } else {
        0
    }
}

/// The number of leading characters that are not white space.
pub open spec fn word_run(s: Seq<char>) -> nat
    decreases s.len(),
{
    if s.len() > 0 && !is_white(s[0]) {
        1 + word_run(s.skip(1))
    } else {
        0
    }
}

/// `s` without its leading white space.
pub open spec fn trimmed_start(s: Seq<char>) -> Seq<char> {
    s.skip(white_run(s) as int)
}

/// Leading white space goes one character at a time.
pub proof fn lemma_trimmed_start_step(s: Seq<char>)
    ensures
        trimmed_start(s) == if s.len() > 0 && is_white(s[0]) {
            trimmed_start(s.skip(1))
        } else {
            s
        },
        trimmed_start(s).len() <= s.len(),
        s.skip(s.len() - trimmed_start(s).len()) == trimmed_start(s),
    decreases s.len(),
{
    if s.len() > 0 && is_white(s[0]) {
        lemma_trimmed_start_step(s.skip(1));
        let n = white_run(s.skip(1)) as int;
        lemma_white_run(s.skip(1));
        assert(s.skip(1).skip(n) =~= s.skip(1 + n));
    } else {
        assert(s.skip(0) =~= s);
    }
}

/// `s` without its trailing white space.
pub open spec fn trimmed_end(s: Seq<char>) -> Seq<char>
    decreases s.len(),
{
    if s.len() > 0 && is_white(s.last()) {
        trimmed_end(s.drop_last())
    } else {
        s
    }
}

/// `s` without its leading and trailing white space.
pub open spec fn trimmed(s: Seq<char>) -> Seq<char> {
    trimmed_end(trimmed_start(s))
}

/// The words of `s`: its longest pieces without white space.
pub open spec fn words(s: Seq<char>) -> Seq<Seq<char>>
    decreases s.len(),
{
    let w = white_run(s) as int;
    let t = s.skip(w);
    let n = word_run(t) as int;
    if n == 0 || w + n > s.len() {
        Seq::empty()
    } else {
        seq![t.take(n)] + words(t.skip(n))
    }
}

/// `s` without one trailing carriage return, if there is one.
pub open spec fn without_cr(s: Seq<char>) -> Seq<char> {
    if s.len() > 0 && s.last() == '\r' {
        s.drop_last()
    } else {
        s
    }
}

/// The lines of `s`, each without its newline. Carriage returns stay. A
/// newline at the very end opens no further line.
pub open spec fn newline_parts(s: Seq<char>) -> Seq<Seq<char>> {
    let parts = split_on(s, '\n');
    if parts.last().len() == 0 {
        parts.drop_last()
    } else {
        parts
    }
}

/// The lines of `s`, each without its line ending, which is a newline with or
/// without a carriage return before it.
pub open spec fn std_lines(s: Seq<char>) -> Seq<Seq<char>> {
    let parts = split_on(s, '\n');
    let ended = Seq::new((parts.len() - 1) as nat, |i: int| without_cr(parts[i]));
    if parts.last().len() == 0 {
        ended
    } else {
        ended.push(parts.last())
    }
}

/// The texts with `sep` between them.
pub open spec fn joined(parts: Seq<Seq<char>>, sep: Seq<char>) -> Seq<char>
    decreases parts.len(),
{
    if parts.len() == 0 {
        Seq::empty()
    } else if parts.len() == 1 {
        parts[0]
    } else {
        joined(parts.drop_last(), sep) + sep + parts.last()
    }
}

/// The texts of a sequence of strings.
pub open spec fn texts(v: Seq<String>) -> Seq<Seq<char>> {
    Seq::new(v.len(), |i: int| v[i]@)
}

/// The texts of a sequence of string slices.
pub open spec fn slices(v: Seq<&str>) -> Seq<Seq<char>> {
    Seq::new(v.len(), |i: int| v[i]@)
}

/// The text of a string that may be absent.
pub open spec fn opt_text(o: Option<String>) -> Option<Seq<char>> {
    match o {
        Some(s) => Some(s@),
        None => None,
    }
}

// ---------------------------------------------------------------------------
// Facts
// ---------------------------------------------------------------------------

/// What `position` finds: no `c` before it, and a `c` at it unless it is the
/// end.
pub proof fn lemma_position(s: Seq<char>, c: char)
    ensures
        position(s, c) <= s.len(),
        forall|i: int| 0 <= i < position(s, c) ==> s[i] != c,
        position(s, c) < s.len() ==> s[position(s, c) as int] == c,
    decreases s.len(),
{
    if s.len() != 0 && s[0] != c {
        lemma_position(s.skip(1), c);
        assert forall|i: int| 0 <= i < position(s, c) implies s[i] != c by {
            if i > 0 {
                assert(s[i] == s.skip(1)[i - 1]);
            }
        }
    }
}

/// `position` is the only place with these two properties.
pub proof fn lemma_position_is(s: Seq<char>, c: char, n: nat)
    requires
        n <= s.len(),
        forall|i: int| 0 <= i < n ==> s[i] != c,
        n < s.len() ==> s[n as int] == c,
    ensures
        position(s, c) == n,
{
    lemma_position(s, c);
}

pub proof fn lemma_white_run(s: Seq<char>)
    ensures
        white_run(s) <= s.len(),
        forall|i: int| 0 <= i < white_run(s) ==> is_white(s[i]),
        white_run(s) < s.len() ==> !is_white(s[white_run(s) as int]),
    decreases s.len(),
{
    if s.len() > 0 && is_white(s[0]) {
        lemma_white_run(s.skip(1));
        assert forall|i: int| 0 <= i < white_run(s) implies is_white(s[i]) by {
            if i > 0 {
                assert(s[i] == s.skip(1)[i - 1]);
            }
        }
    }
}

pub proof fn lemma_word_run(s: Seq<char>)
    ensures
        word_run(s) <= s.len(),
        forall|i: int| 0 <= i < word_run(s) ==> !is_white(s[i]),
        word_run(s) < s.len() ==> is_white(s[word_run(s) as int]),
    decreases s.len(),
{
    if s.len() > 0 && !is_white(s[0]) {
        lemma_word_run(s.skip(1));
        assert forall|i: int| 0 <= i < word_run(s) implies !is_white(s[i]) by {
            if i > 0 {
                assert(s[i] == s.skip(1)[i - 1]);
            }
        }
    }
}

/// Every piece that `split_on` gives is free of the separator.
pub proof fn lemma_split_on(s: Seq<char>, c: char)
    ensures
        split_on(s, c).len() >= 1,
        forall|i: int| 0 <= i < split_on(s, c).len() ==> !(#[trigger] split_on(s, c)[i]).contains(c),
    decreases s.len(),
{
    lemma_position(s, c);
    let p = position(s, c) as int;
    if p < s.len() {
        lemma_split_on(s.skip(p + 1), c);
        let rest = split_on(s.skip(p + 1), c);
        assert forall|i: int| 0 <= i < split_on(s, c).len() implies !(#[trigger] split_on(
            s,
            c,
        )[i]).contains(c) by {
            if i > 0 {
                assert(split_on(s, c)[i] == rest[i - 1]);
            }
        }
    }
}

/// Splitting a text that starts with a piece and its separator.
pub proof fn lemma_split_on_step(piece: Seq<char>, c: char, rest: Seq<char>)
    requires
        !piece.contains(c),
    ensures
        split_on(piece.push(c) + rest, c) == seq![piece] + split_on(rest, c),
{
    let s = piece.push(c) + rest;
    assert forall|i: int| 0 <= i < piece.len() implies s[i] != c by {
        assert(s[i] == piece[i]);
    }
    lemma_position_is(s, c, piece.len());
    assert(s.take(piece.len() as int) =~= piece);
    assert(s.skip(piece.len() as int + 1) =~= rest);
}

/// Splitting a text without the separator.
pub proof fn lemma_split_on_last(piece: Seq<char>, c: char)
    requires
        !piece.contains(c),
    ensures
        split_on(piece, c) == seq![piece],
{
    lemma_position(piece, c);
}

proof fn lemma_joined_first(parts: Seq<Seq<char>>, c: char)
    requires
        parts.len() >= 2,
    ensures
        joined(parts, seq![c]) == parts[0].push(c) + joined(parts.skip(1), seq![c]),
    decreases parts.len(),
{
    let rest = parts.skip(1);
    let sep = seq![c];
    assert(joined(parts, sep) == joined(parts.drop_last(), sep) + sep + parts.last());
    if parts.len() == 2 {
        assert(joined(parts.drop_last(), sep) == parts[0]);
        assert(joined(rest, sep) == parts[1]);
        assert(joined(parts, sep) =~= parts[0].push(c) + parts[1]);
    } else {
        lemma_joined_first(parts.drop_last(), c);
        assert(parts.drop_last().skip(1) =~= rest.drop_last());
        assert(joined(rest, sep) == joined(rest.drop_last(), sep) + sep + rest.last());
        assert(joined(parts, sep) =~= parts[0].push(c) + joined(rest, sep));
    }
}

/// Splitting what was joined gives the parts back.
pub proof fn law_split_undoes_join(parts: Seq<Seq<char>>, c: char)
    requires
        parts.len() >= 1,
        forall|i: int| 0 <= i < parts.len() ==> !(#[trigger] parts[i]).contains(c),
    ensures
        split_on(joined(parts, seq![c]), c) == parts,
    decreases parts.len(),
{
    if parts.len() == 1 {
        lemma_split_on_last(parts[0], c);
        assert(parts =~= seq![parts[0]]);
    } else {
        let rest = parts.skip(1);
        lemma_joined_first(parts, c);
        assert forall|i: int| 0 <= i < rest.len() implies !(#[trigger] rest[i]).contains(c) by {
            assert(rest[i] == parts[i + 1]);
        }
        law_split_undoes_join(rest, c);
        lemma_split_on_step(parts[0], c, joined(rest, seq![c]));
        assert(parts =~= seq![parts[0]] + rest);
    }
}

/// Joining what was split gives the text back.
pub proof fn law_join_undoes_split(s: Seq<char>, c: char)
    ensures
        joined(split_on(s, c), seq![c]) == s,
    decreases s.len(),
{
    lemma_position(s, c);
    let p = position(s, c) as int;
    if p < s.len() {
        let rest = s.skip(p + 1);
        law_join_undoes_split(rest, c);
        lemma_split_on(rest, c);
        let parts = split_on(s, c);
        assert(parts.skip(1) =~= split_on(rest, c));
        lemma_joined_first(parts, c);
        assert(s =~= s.take(p).push(c) + rest);
    }
}

/// A newline at the end of a text that has none there adds no line, unless the
/// text is empty.
pub proof fn lemma_final_newline(s: Seq<char>)
    requires
        s.len() > 0 ==> s.last() != '\n',
    ensures
        s.len() > 0 ==> newline_parts(s.push('\n')) == newline_parts(s),
        s.len() == 0 ==> newline_parts(s) == Seq::<Seq<char>>::empty(),
        s.len() == 0 ==> newline_parts(s.push('\n')) == seq![Seq::<char>::empty()],
{
    let parts = split_on(s, '\n');
    let more = parts.push(Seq::empty());
    lemma_split_on(s, '\n');
    law_join_undoes_split(s, '\n');
    assert(more.drop_last() =~= parts);
    assert(joined(more, seq!['\n']) =~= s.push('\n'));
    law_split_undoes_join(more, '\n');
    if parts.len() == 1 {
        assert(joined(parts, seq!['\n']) == parts[0]);
    } else if parts.last().len() == 0 {
        assert(joined(parts, seq!['\n']).last() == '\n');
    }
    if s.len() == 0 {
        assert(s =~= Seq::empty());
        lemma_split_on_last(s, '\n');
        assert(parts =~= seq![s]);
        assert(parts.drop_last() =~= Seq::<Seq<char>>::empty());
        assert(more.drop_last() =~= seq![Seq::<char>::empty()]);
    }
}

// ---------------------------------------------------------------------------
// Operations
// ---------------------------------------------------------------------------

/// The characters of `s`.
pub fn chars_of(s: &str) -> (r: Vec<char>)
    ensures
        r@ == s@,
{
    let mut v: Vec<char> = Vec::new();
    for c in it: s.chars()
        invariant
            it.seq() == s@,
            v@ == s@.take(it.index()),
    {
        v.push(c);
        proof {
            assert(s@.take(it.index() + 1) =~= s@.take(it.index()).push(c));
        }
    }
    assert(s@.take(s@.len() as int) =~= s@);
    v
}

/// The text `cs[from..to]`.
pub fn string_of(cs: &Vec<char>, from: usize, to: usize) -> (r: String)
    requires
        from <= to <= cs@.len(),
    ensures
        r@ == cs@.subrange(from as int, to as int),
{
    let mut s = String::new();
    let mut i: usize = from;
    while i < to
        invariant
            from <= i <= to <= cs@.len(),
            s@ == cs@.subrange(from as int, i as int),
        decreases to - i,
    {
        s.push(cs[i]);
        proof {
            assert(cs@.subrange(from as int, i + 1) =~= cs@.subrange(from as int, i as int).push(
                cs@[i as int],
            ));
        }
        i = i + 1;
    }
    s
}

/// Whether two strings hold the same text.
pub fn str_eq(a: &str, b: &str) -> (r: bool)
    ensures
        r == (a@ == b@),
{
    let x = chars_of(a);
    let y = chars_of(b);
    if x.len() != y.len() {
        return false;
    }
    let mut i: usize = 0;
    while i < x.len()
        invariant
            x@ == a@,
            y@ == b@,
            x@.len() == y@.len(),
            i <= x@.len(),
            forall|j: int| 0 <= j < i ==> x@[j] == y@[j],
        decreases x@.len() - i,
    {
        if x[i] != y[i] {
            return false;
        }
        i = i + 1;
    }
    assert(x@ =~= y@);
    true
}

/// Whether `s` begins with `p`.
pub fn starts_with(s: &str, p: &str) -> (r: bool)
    ensures
        r == has_prefix(s@, p@),
{
    let n = p.unicode_len();
    let m = s.unicode_len();
    if n > m {
        return false;
    }
    let head = s.substring_char(0, n);
    assert(s@.subrange(0, n as int) =~= s@.take(n as int));
    str_eq(head, p)
}

/// Whether `s` ends with `p`.
pub fn ends_with(s: &str, p: &str) -> (r: bool)
    ensures
        r == has_suffix(s@, p@),
{
    let n = p.unicode_len();
    let m = s.unicode_len();
    if n > m {
        return false;
    }
    let tail = s.substring_char(m - n, m);
    assert(s@.subrange(m - n, m as int) =~= s@.skip(m - n));
    str_eq(tail, p)
}

/// What follows the prefix `p` in `s`.
pub fn strip_prefix<'a>(s: &'a str, p: &str) -> (r: Option<&'a str>)
    ensures
        r is Some == has_prefix(s@, p@),
        r matches Some(rest) ==> rest@ == s@.skip(p@.len() as int),
{
    if starts_with(s, p) {
        let n = p.unicode_len();
        let m = s.unicode_len();
        let rest = s.substring_char(n, m);
        assert(s@.subrange(n as int, m as int) =~= s@.skip(n as int));
        Some(rest)
    } else {
        None
    }
}

/// What precedes the suffix `p` in `s`.
pub fn strip_suffix<'a>(s: &'a str, p: &str) -> (r: Option<&'a str>)
    ensures
        r is Some == has_suffix(s@, p@),
        r matches Some(rest) ==> rest@ == s@.take(s@.len() - p@.len()),
{
    if ends_with(s, p) {
        let n = p.unicode_len();
        let m = s.unicode_len();
        let rest = s.substring_char(0, m - n);
        assert(s@.subrange(0, m - n) =~= s@.take(m - n));
        Some(rest)
    } else {
        None
    }
}

/// Whether `c` occurs in `s`.
pub fn contains_char(s: &str, c: char) -> (r: bool)
    ensures
        r == s@.contains(c),
{
    let cs = chars_of(s);
    let n = position_in(&cs, 0, c);
    proof {
        let t = cs@.skip(0);
        assert(t =~= s@);
        lemma_position(t, c);
        if n < cs@.len() {
            assert(s@[n as int] == c);
        }
    }
    n < cs.len()
}

/// Whether `p` occurs in `s`.
pub fn contains_text(s: &str, p: &str) -> (r: bool)
    ensures
        r == has_text(s@, p@),
{
    let n = p.unicode_len();
    let m = s.unicode_len();
    if n > m {
        return false;
    }
    let mut i: usize = 0;
    while i <= m - n
        invariant
            n == p@.len(),
            m == s@.len(),
            n <= m,
            i <= m - n + 1,
            forall|j: int| 0 <= j < i ==> #[trigger] s@.subrange(j, j + n) != p@,
        decreases m - n + 1 - i,
    {
        if str_eq(s.substring_char(i, i + n), p) {
            assert(s@.subrange(i as int, i + p@.len()) == p@);
            return true;
        }
        if i == m - n {
            assert forall|j: int| 0 <= j <= s@.len() - p@.len() implies #[trigger] s@.subrange(
                j,
                j + p@.len(),
            ) != p@ by {}
            return false;
        }
        i = i + 1;
    }
    false
}

/// Where the first `c` at or after `from` stands; the length when there is
/// none.
pub fn position_in(cs: &Vec<char>, from: usize, c: char) -> (r: usize)
    requires
        from <= cs@.len(),
    ensures
        from <= r <= cs@.len(),
        r == from + position(cs@.skip(from as int), c),
{
    let mut i: usize = from;
    while i < cs.len()
        invariant
            from <= i <= cs@.len(),
            forall|j: int| from <= j < i ==> cs@[j] != c,
        decreases cs@.len() - i,
    {
        if cs[i] == c {
            proof {
                lemma_position_is(cs@.skip(from as int), c, (i - from) as nat);
            }
            return i;
        }
        i = i + 1;
    }
    proof {
        lemma_position_is(cs@.skip(from as int), c, (i - from) as nat);
    }
    i
}

/// The pieces of `s` between the occurrences of `c`.
pub fn split(s: &str, c: char) -> (r: Vec<String>)
    ensures
        texts(r@) == split_on(s@, c),
{
    let cs = chars_of(s);
    let mut out: Vec<String> = Vec::new();
    let mut i: usize = 0;
    assert(cs@.skip(0) =~= s@);
    loop
        invariant
            cs@ == s@,
            i <= cs@.len(),
            texts(out@) + split_on(cs@.skip(i as int), c) == split_on(s@, c),
        decreases cs@.len() - i,
    {
        let p = position_in(&cs, i, c);
        let ghost rest = cs@.skip(i as int);
        let piece = string_of(&cs, i, p);
        let ghost before = texts(out@);
        out.push(piece);
        proof {
            assert(rest.take(p - i) =~= cs@.subrange(i as int, p as int));
            assert(texts(out@) =~= before.push(piece@));
        }
        if p == cs.len() {
            proof {
                assert(rest.take(p - i) =~= rest);
                assert(before + seq![piece@] =~= before.push(piece@));
            }
            return out;
        }
        proof {
            assert(rest.skip(p - i + 1) =~= cs@.skip(p + 1));
            assert(before + (seq![piece@] + split_on(cs@.skip(p + 1), c)) =~= before.push(piece@)
                + split_on(cs@.skip(p + 1), c));
        }
        i = p + 1;
    }
}

/// The lines of `s` without their newlines; carriage returns stay.
pub fn split_lines(s: &str) -> (r: Vec<String>)
    ensures
        texts(r@) == newline_parts(s@),
{
    let mut parts = split(s, '\n');
    proof {
        lemma_split_on(s@, '\n');
        assert(texts(parts@).last() == parts@.last()@);
    }
    let n = parts.len();
    if parts[n - 1].as_str().is_empty() {
        let ghost before = parts@;
        parts.pop();
        assert(texts(parts@) =~= texts(before).drop_last());
    }
    parts
}

/// `s` without one trailing carriage return.
pub fn drop_cr<'a>(s: &'a str) -> (r: &'a str)
    ensures
        r@ == without_cr(s@),
{
    let n = s.unicode_len();
    if n > 0 && s.get_char(n - 1) == '\r' {
        let r = s.substring_char(0, n - 1);
        assert(s@.subrange(0, n - 1) =~= s@.drop_last());
        r
    } else {
        s
    }
}

/// The lines of `s` without their line endings.
pub fn lines_of(s: &str) -> (r: Vec<String>)
    ensures
        texts(r@) == std_lines(s@),
{
    let parts = split(s, '\n');
    let ghost all = split_on(s@, '\n');
    proof {
        lemma_split_on(s@, '\n');
        assert forall|i: int| 0 <= i < parts@.len() implies parts@[i]@ == all[i] by {
            assert(texts(parts@)[i] == parts@[i]@);
        }
    }
    let n = parts.len();
    let mut out: Vec<String> = Vec::new();
    let mut i: usize = 0;
    while i < n - 1
        invariant
            n == parts@.len(),
            n >= 1,
            i <= n - 1,
            all.len() == n,
            forall|i: int| 0 <= i < n ==> (#[trigger] parts@[i])@ == all[i],
            texts(out@) == Seq::new(i as nat, |j: int| without_cr(all[j])),
        decreases n - 1 - i,
    {
        let ghost before = texts(out@);
        let line = drop_cr(parts[i].as_str()).to_owned();
        out.push(line);
        proof {
            assert(texts(out@) =~= before.push(line@));
            assert(texts(out@) =~= Seq::new((i + 1) as nat, |j: int| without_cr(all[j])));
        }
        i = i + 1;
    }
    if !parts[n - 1].as_str().is_empty() {
        let ghost before = texts(out@);
        out.push(parts[n - 1].clone());
        assert(texts(out@) =~= before.push(all.last()));
    }
    out
}

/// Whether `c` is white space.
pub fn is_whitespace(c: char) -> (r: bool)
    ensures
        r == is_white(c),
{
    ('\u{9}' <= c && c <= '\u{d}') || c == ' ' || c == '\u{85}' || c == '\u{a0}' || c == '\u{1680}'
        || ('\u{2000}' <= c && c <= '\u{200a}') || c == '\u{2028}' || c == '\u{2029}' || c
        == '\u{202f}' || c == '\u{205f}' || c == '\u{3000}'
}

/// `s` without its leading white space.
pub fn trim_start<'a>(s: &'a str) -> (r: &'a str)
    ensures
        r@ == trimmed_start(s@),
{
    let cs = chars_of(s);
    let w = skip_white(&cs, 0);
    proof {
        assert(cs@.skip(0) =~= s@);
        assert(s@.subrange(w as int, s@.len() as int) =~= s@.skip(w as int));
    }
    s.substring_char(w, cs.len())
}

/// `s` without its leading and trailing white space.
pub fn trim<'a>(s: &'a str) -> (r: &'a str)
    ensures
        r@ == trimmed(s@),
{
    let t = trim_start(s);
    let cs = chars_of(t);
    let mut n: usize = cs.len();
    assert(t@.take(n as int) =~= t@);
    while n > 0 && is_whitespace(cs[n - 1])
        invariant
            cs@ == t@,
            n <= cs@.len(),
            trimmed_end(t@.take(n as int)) == trimmed_end(t@),
        decreases n,
    {
        proof {
            assert(t@.take(n as int).drop_last() =~= t@.take(n - 1));
        }
        n = n - 1;
    }
    assert(t@.subrange(0, n as int) =~= t@.take(n as int));
    t.substring_char(0, n)
}

/// Where the white space that starts at `from` ends.
fn skip_white(cs: &Vec<char>, from: usize) -> (r: usize)
    requires
        from <= cs@.len(),
    ensures
        from <= r <= cs@.len(),
        r == from + white_run(cs@.skip(from as int)),
{
    let mut i: usize = from;
    assert(cs@.skip(from as int) =~= cs@.skip(i as int));
    while i < cs.len() && is_whitespace(cs[i])
        invariant
            from <= i <= cs@.len(),
            i + white_run(cs@.skip(i as int)) == from + white_run(cs@.skip(from as int)),
        decreases cs@.len() - i,
    {
        proof {
            assert(cs@.skip(i as int).skip(1) =~= cs@.skip(i + 1));
        }
        i = i + 1;
    }
    i
}

/// Where the word that starts at `from` ends.
fn skip_word(cs: &Vec<char>, from: usize) -> (r: usize)
    requires
        from <= cs@.len(),
    ensures
        from <= r <= cs@.len(),
        r == from + word_run(cs@.skip(from as int)),
{
    let mut i: usize = from;
    while i < cs.len() && !is_whitespace(cs[i])
        invariant
            from <= i <= cs@.len(),
            i + word_run(cs@.skip(i as int)) == from + word_run(cs@.skip(from as int)),
        decreases cs@.len() - i,
    {
        proof {
            assert(cs@.skip(i as int).skip(1) =~= cs@.skip(i + 1));
        }
        i = i + 1;
    }
    i
}

/// The words of `s`.
pub fn split_whitespace(s: &str) -> (r: Vec<String>)
    ensures
        texts(r@) == words(s@),
{
    let cs = chars_of(s);
    let mut out: Vec<String> = Vec::new();
    let mut i: usize = 0;
    assert(cs@.skip(0) =~= s@);
    assert(texts(out@) + words(s@) =~= words(s@));
    loop
        invariant
            cs@ == s@,
            i <= cs@.len(),
            texts(out@) + words(cs@.skip(i as int)) == words(s@),
        decreases cs@.len() - i,
    {
        let a = skip_white(&cs, i);
        let b = skip_word(&cs, a);
        let ghost rest = cs@.skip(i as int);
        proof {
            assert(rest.skip(a - i) =~= cs@.skip(a as int));
        }
        if a == b {
            assert(texts(out@) + Seq::<Seq<char>>::empty() =~= texts(out@));
            return out;
        }
        let word = string_of(&cs, a, b);
        let ghost before = texts(out@);
        out.push(word);
        proof {
            assert(cs@.skip(a as int).take(b - a) =~= cs@.subrange(a as int, b as int));
            assert(cs@.skip(a as int).skip(b - a) =~= cs@.skip(b as int));
            assert(texts(out@) =~= before.push(word@));
            assert(before + (seq![word@] + words(cs@.skip(b as int))) =~= before.push(word@)
                + words(cs@.skip(b as int)));
        }
        i = b;
    }
}

/// The texts with `sep` between them.
pub fn join(parts: &Vec<String>, sep: &str) -> (r: String)
    ensures
        r@ == joined(texts(parts@), sep@),
{
    let mut s = String::new();
    let mut i: usize = 0;
    let ghost all = texts(parts@);
    while i < parts.len()
        invariant
            all == texts(parts@),
            i <= parts@.len(),
            s@ == joined(all.take(i as int), sep@),
        decreases parts@.len() - i,
    {
        proof {
            assert(all.take(i + 1).drop_last() =~= all.take(i as int));
            assert(all.take(i + 1).last() == parts@[i as int]@);
        }
        if i > 0 {
            s.append(sep);
        }
        s.append(parts[i].as_str());
        proof {
            if i == 0 {
                assert(Seq::<char>::empty() + parts@[0]@ =~= parts@[0]@);
                assert(all.take(0) =~= Seq::empty());
            }
        }
        i = i + 1;
    }
    assert(all.take(all.len() as int) =~= all);
    s
}

/// A copy of a string that may be absent.
pub fn clone_opt(o: &Option<String>) -> (r: Option<String>)
    ensures
        opt_text(r) == opt_text(*o),
{
    match o {
        Some(s) => Some(s.clone()),
        None => None,
    }
}

} // verus!
