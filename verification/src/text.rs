//! Character-sequence helpers shared by the parsers and name matchers.
//!
//! Strings are handled as sequences of `char`; every helper states its result
//! over those sequences so that callers can reason about text exactly.

use vstd::prelude::*;

verus! {

broadcast use vstd::string::group_string_axioms;

/// `String::push` appends one character to the end of the string
/// (std documents it as "Appends the given char to the end of this String").
pub assume_specification[ String::push ](s: &mut String, ch: char)
    ensures
        final(s)@ == old(s)@.push(ch),
;

// ---------------------------------------------------------------------------
// Specifications
// ---------------------------------------------------------------------------

/// `t` occurs in `s` starting at index `i`.
pub open spec fn occurs_at(s: Seq<char>, t: Seq<char>, i: int) -> bool {
    &&& 0 <= i
    &&& i + t.len() <= s.len()
    &&& s.subrange(i, i + t.len()) == t
}

/// First index `>= i` at which `t` occurs in `s`.
pub open spec fn find_from(s: Seq<char>, t: Seq<char>, i: int) -> Option<int>
    decreases s.len() + 1 - i,
{
    if i < 0 || i + t.len() > s.len() {
        None
    } else if occurs_at(s, t, i) {
        Some(i)
    } else {
        find_from(s, t, i + 1)
    }
}

/// First index at which `t` occurs in `s` (what `str::find` returns, in chars).
pub open spec fn find_first(s: Seq<char>, t: Seq<char>) -> Option<int> {
    find_from(s, t, 0)
}

/// `s` contains `t` as a contiguous piece.
pub open spec fn contains_seq(s: Seq<char>, t: Seq<char>) -> bool {
    exists|i: int| occurs_at(s, t, i)
}

pub open spec fn starts_with(s: Seq<char>, p: Seq<char>) -> bool {
    p.len() <= s.len() && s.subrange(0, p.len() as int) == p
}

pub open spec fn ends_with(s: Seq<char>, p: Seq<char>) -> bool {
    p.len() <= s.len() && s.subrange(s.len() - p.len(), s.len() as int) == p
}

/// The last `n` characters of `s`.
pub open spec fn suffix_of(s: Seq<char>, n: int) -> Seq<char> {
    s.subrange(s.len() - n, s.len() as int)
}

/// Unicode `White_Space` characters, the set `char::is_whitespace` and
/// `str::trim` use.
pub open spec fn is_white_space(c: char) -> bool {
    ||| ('\u{9}' <= c && c <= '\u{d}')
    ||| c == ' '
    ||| c == '\u{85}'
    ||| c == '\u{a0}'
    ||| c == '\u{1680}'
    ||| ('\u{2000}' <= c && c <= '\u{200a}')
    ||| c == '\u{2028}'
    ||| c == '\u{2029}'
    ||| c == '\u{202f}'
    ||| c == '\u{205f}'
    ||| c == '\u{3000}'
}

/// Number of leading white-space characters of `s`.
pub open spec fn lead_ws(s: Seq<char>) -> nat
    decreases s.len(),
{
    if s.len() > 0 && is_white_space(s[0]) {
        1 + lead_ws(s.drop_first())
    } else {
        0
    }
}

/// Number of trailing white-space characters of `s`.
pub open spec fn trail_ws(s: Seq<char>) -> nat
    decreases s.len(),
{
    if s.len() > 0 && is_white_space(s.last()) {
        1 + trail_ws(s.drop_last())
    } else {
        0
    }
}

/// `s` without leading white space (`str::trim_start`).
pub open spec fn trim_start(s: Seq<char>) -> Seq<char> {
    s.skip(lead_ws(s) as int)
}

/// `s` without trailing white space (`str::trim_end`).
pub open spec fn trim_end(s: Seq<char>) -> Seq<char> {
    s.take(s.len() - trail_ws(s))
}

/// `s` without leading and trailing white space (`str::trim`).
pub open spec fn trim(s: Seq<char>) -> Seq<char> {
    trim_end(trim_start(s))
}

pub open spec fn is_ascii_digit(c: char) -> bool {
    '0' <= c && c <= '9'
}

pub open spec fn is_ascii_alpha(c: char) -> bool {
    ('a' <= c && c <= 'z') || ('A' <= c && c <= 'Z')
}

pub open spec fn is_ascii_alphanumeric(c: char) -> bool {
    is_ascii_digit(c) || is_ascii_alpha(c)
}

/// `char::to_ascii_lowercase`.
pub open spec fn ascii_lower_char(c: char) -> char {
    if 'A' <= c && c <= 'Z' {
        ((c as u32) + 32) as char
    } else {
        c
    }
}

/// `str::to_ascii_lowercase`.
pub open spec fn ascii_lower(s: Seq<char>) -> Seq<char> {
    s.map_values(|c: char| ascii_lower_char(c))
}

/// `str::eq_ignore_ascii_case`.
pub open spec fn eq_ignore_ascii_case(a: Seq<char>, b: Seq<char>) -> bool {
    ascii_lower(a) == ascii_lower(b)
}

/// Value of a run of ASCII digits.
pub open spec fn digits_value(s: Seq<char>) -> nat
    decreases s.len(),
{
    if s.len() == 0 {
        0
    } else {
        digits_value(s.drop_last()) * 10 + ((s.last() as u32) - ('0' as u32)) as nat
    }
}

pub open spec fn all_digits(s: Seq<char>) -> bool {
    forall|i: int| 0 <= i < s.len() ==> is_ascii_digit(#[trigger] s[i])
}

/// `s` with every occurrence of the character `from` replaced by `to`.
pub open spec fn replace_char(s: Seq<char>, from: char, to: char) -> Seq<char> {
    s.map_values(|c: char| if c == from { to } else { c })
}

/// Number of UTF-8 bytes a character encodes to (`char::len_utf8`).
pub open spec fn char_utf8_len(c: char) -> nat {
    if (c as u32) < 0x80 {
        1
    } else if (c as u32) < 0x800 {
        2
    } else if (c as u32) < 0x10000 {
        3
    } else {
        4
    }
}

/// Number of UTF-8 bytes a character sequence encodes to (`str::len`).
pub open spec fn utf8_len(s: Seq<char>) -> nat {
    vstd::utf8::encode_utf8(s).len()
}

/// The pieces of `s` between occurrences of `sep` (`str::split` with a
/// character pattern): always at least one piece.
pub open spec fn split_on(s: Seq<char>, sep: char) -> Seq<Seq<char>>
    decreases s.len(),
{
    if s.len() == 0 {
        seq![seq![]]
    } else {
        let prev = split_on(s.drop_last(), sep);
        if s.last() == sep {
            prev.push(seq![])
        } else {
            prev.update(prev.len() - 1, prev.last().push(s.last()))
        }
    }
}

/// Unicode lowercase mapping of a string (`str::to_lowercase`). It is not a
/// character-by-character map: the result may be longer, and a final sigma
/// depends on its neighbours.
pub uninterp spec fn unicode_lowercase(s: Seq<char>) -> Seq<char>;

/// Unicode uppercase mapping of a string (`str::to_uppercase`); like the
/// lowercase mapping it may change the length.
pub uninterp spec fn unicode_uppercase(s: Seq<char>) -> Seq<char>;

/// `s` with every leading and trailing `c` removed (`str::trim_matches`
/// with a character).
pub open spec fn trim_char(s: Seq<char>, c: char) -> Seq<char>
    decreases s.len(),
{
    if s.len() > 0 && s[0] == c {
        trim_char(s.drop_first(), c)
    } else if s.len() > 0 && s.last() == c {
        trim_char(s.drop_last(), c)
    } else {
        s
    }
}

/// `s` with the suffix `p` removed as many times as it ends `s`
/// (`str::trim_end_matches` with a non-empty string).
pub open spec fn trim_end_seq(s: Seq<char>, p: Seq<char>) -> Seq<char>
    decreases s.len(),
{
    if p.len() > 0 && ends_with(s, p) {
        trim_end_seq(s.take(s.len() - p.len()), p)
    } else {
        s
    }
}

/// The ASCII digit for `d < 10`.
pub open spec fn digit_char(d: nat) -> char {
    (('0' as u32) + d) as char
}

/// Decimal representation of `n` (`u64::to_string`).
pub open spec fn decimal(n: nat) -> Seq<char>
    decreases n,
{
    if n < 10 {
        seq![digit_char(n)]
    } else {
        decimal(n / 10).push(digit_char(n % 10))
    }
}

/// The digits `decimal` writes read back as the number: every character
/// is an ASCII digit, and their value is `n`.
pub proof fn lemma_decimal_digits(n: nat)
    ensures
        decimal(n).len() > 0,
        all_digits(decimal(n)),
        digits_value(decimal(n)) == n,
    decreases n,
{
    if n < 10 {
        assert(digit_char(n) as u32 == '0' as u32 + n);
        assert(decimal(n).drop_last() =~= Seq::<char>::empty());
        assert(digits_value(decimal(n).drop_last()) == 0);
        assert(decimal(n).last() == digit_char(n));
    } else {
        lemma_decimal_digits(n / 10);
        let d = digit_char(n % 10);
        assert(d as u32 == '0' as u32 + n % 10);
        assert(decimal(n).drop_last() =~= decimal(n / 10));
        assert forall|i: int| 0 <= i < decimal(n).len() implies is_ascii_digit(#[trigger] decimal(n)[i]) by {
            if i < decimal(n / 10).len() {
                assert(decimal(n)[i] == decimal(n / 10)[i]);
            }
        }
    }
}

/// `u64::from_str` reads back what `u64::to_string` writes.
pub proof fn lemma_parse_decimal(n: u64)
    ensures
        parse_u64(decimal(n as nat)) == Some(n),
{
    lemma_decimal_digits(n as nat);
    assert(is_ascii_digit(decimal(n as nat)[0]));
}

/// `parts` joined with `sep` between neighbours (`slice::join`).
pub open spec fn join_with(parts: Seq<Seq<char>>, sep: Seq<char>) -> Seq<char>
    decreases parts.len(),
{
    if parts.len() == 0 {
        seq![]
    } else if parts.len() == 1 {
        parts[0]
    } else {
        join_with(parts.drop_last(), sep) + sep + parts.last()
    }
}

/// Index of the first `c` in `s`.
pub open spec fn index_of_char(s: Seq<char>, c: char) -> Option<int> {
    if exists|i: int| 0 <= i < s.len() && s[i] == c {
        Some(choose|i: int| 0 <= i < s.len() && s[i] == c && forall|j: int| 0 <= j < i ==> s[j] != c)
    } else {
        None
    }
}

/// `u64::from_str`: an optional `+`, then at least one ASCII digit, with a
/// value that fits.
pub open spec fn parse_u64(s: Seq<char>) -> Option<u64> {
    let d = if s.len() > 0 && s[0] == '+' { s.drop_first() } else { s };
    if d.len() > 0 && all_digits(d) && digits_value(d) <= u64::MAX {
        Some(digits_value(d) as u64)
    } else {
        None
    }
}

// ---------------------------------------------------------------------------
// Lemmas
// ---------------------------------------------------------------------------

/// What `find_from` returns: the first occurrence at or after `i`.
pub proof fn lemma_find_from(s: Seq<char>, t: Seq<char>, i: int)
    requires
        0 <= i,
    ensures
        match find_from(s, t, i) {
            Some(j) => i <= j && occurs_at(s, t, j) && forall|k: int|
                i <= k < j ==> !occurs_at(s, t, k),
            None => forall|k: int| i <= k ==> !occurs_at(s, t, k),
        },
    decreases s.len() + 1 - i,
{
    if i + t.len() > s.len() {
    } else if occurs_at(s, t, i) {
    } else {
        lemma_find_from(s, t, i + 1);
        assert forall|k: int| i <= k && (find_from(s, t, i + 1) matches Some(j) ==> k < j)
            implies !occurs_at(s, t, k) by {
            if k == i {
            } else {
            }
        }
    }
}

/// What `find_first` returns.
pub proof fn lemma_find_first(s: Seq<char>, t: Seq<char>)
    ensures
        match find_first(s, t) {
            Some(j) => occurs_at(s, t, j) && forall|k: int| 0 <= k < j ==> !occurs_at(s, t, k),
            None => !contains_seq(s, t),
        },
{
    lemma_find_from(s, t, 0);
}

/// Encoding a concatenation encodes each part.
pub proof fn lemma_encode_concat(a: Seq<char>, b: Seq<char>)
    ensures
        vstd::utf8::encode_utf8(a + b) == vstd::utf8::encode_utf8(a) + vstd::utf8::encode_utf8(b),
    decreases a.len(),
{
    if a.len() == 0 {
        assert(a + b =~= b);
        assert(vstd::utf8::encode_utf8(a) =~= Seq::<u8>::empty());
        assert(vstd::utf8::encode_utf8(a) + vstd::utf8::encode_utf8(b) =~= vstd::utf8::encode_utf8(b));
    } else {
        lemma_encode_concat(a.drop_first(), b);
        assert((a + b).drop_first() =~= a.drop_first() + b);
        assert((a + b)[0] == a[0]);
        let e0 = vstd::utf8::encode_scalar(a[0] as u32);
        assert(vstd::utf8::encode_utf8(a + b) =~= e0 + vstd::utf8::encode_utf8(a.drop_first() + b));
        assert(vstd::utf8::encode_utf8(a) =~= e0 + vstd::utf8::encode_utf8(a.drop_first()));
        assert(e0 + (vstd::utf8::encode_utf8(a.drop_first()) + vstd::utf8::encode_utf8(b))
            =~= (e0 + vstd::utf8::encode_utf8(a.drop_first())) + vstd::utf8::encode_utf8(b));
    }
}

/// A character encodes to `char_utf8_len` bytes.
pub proof fn lemma_char_utf8_len(c: char)
    ensures
        utf8_len(seq![c]) == char_utf8_len(c),
        1 <= char_utf8_len(c) <= 4,
{
    broadcast use vstd::utf8::char_is_scalar;
    assert(vstd::utf8::is_scalar(c as u32));
    let e = vstd::utf8::encode_utf8(seq![c]);
    assert(seq![c].drop_first() =~= Seq::<char>::empty());
    assert(vstd::utf8::encode_utf8(Seq::<char>::empty()) =~= Seq::<u8>::empty());
    assert(e =~= vstd::utf8::encode_scalar(c as u32) + Seq::<u8>::empty());
}

/// Byte length of a concatenation.
pub proof fn lemma_utf8_len_concat(a: Seq<char>, b: Seq<char>)
    ensures
        utf8_len(a + b) == utf8_len(a) + utf8_len(b),
{
    lemma_encode_concat(a, b);
}

/// Appending a character adds its byte length.
pub proof fn lemma_utf8_len_push(s: Seq<char>, c: char)
    ensures
        utf8_len(s.push(c)) == utf8_len(s) + char_utf8_len(c),
{
    assert(s.push(c) =~= s + seq![c]);
    lemma_utf8_len_concat(s, seq![c]);
    lemma_char_utf8_len(c);
}

/// A longer prefix never encodes to fewer bytes, and a suffix never to more
/// than the whole.
pub proof fn lemma_utf8_len_split(s: Seq<char>, i: int)
    requires
        0 <= i <= s.len(),
    ensures
        utf8_len(s) == utf8_len(s.take(i)) + utf8_len(s.skip(i)),
{
    assert(s =~= s.take(i) + s.skip(i));
    lemma_utf8_len_concat(s.take(i), s.skip(i));
}

/// More characters encode to strictly more bytes.
pub proof fn lemma_utf8_len_mono(s: Seq<char>, i: int, j: int)
    requires
        0 <= i < j <= s.len(),
    ensures
        utf8_len(s.skip(j)) < utf8_len(s.skip(i)),
        i <= utf8_len(s.take(i)) <= 4 * i,
    decreases i,
{
    let t = s.skip(i);
    lemma_utf8_len_split(t, j - i);
    assert(t.skip(j - i) =~= s.skip(j));
    assert(t.take(j - i) =~= seq![t[0]] + t.take(j - i).drop_first());
    lemma_utf8_len_concat(seq![t[0]], t.take(j - i).drop_first());
    lemma_char_utf8_len(t[0]);
    if i > 0 {
        lemma_utf8_len_mono(s, i - 1, j);
        assert(s.take(i) =~= s.take(i - 1).push(s[i - 1]));
        lemma_utf8_len_push(s.take(i - 1), s[i - 1]);
        lemma_char_utf8_len(s[i - 1]);
    } else {
        assert(s.take(0) =~= Seq::<char>::empty());
        assert(vstd::utf8::encode_utf8(Seq::<char>::empty()) =~= Seq::<u8>::empty());
    }
}

/// What `index_of_char` returns: the first position of `c`.
pub proof fn lemma_index_of_char(s: Seq<char>, c: char)
    ensures
        match index_of_char(s, c) {
            Some(i) => 0 <= i < s.len() && s[i] == c && forall|j: int| 0 <= j < i ==> s[j] != c,
            None => forall|i: int| 0 <= i < s.len() ==> s[i] != c,
        },
{
    if exists|i: int| 0 <= i < s.len() && s[i] == c {
        let w = choose|i: int| 0 <= i < s.len() && s[i] == c;
        lemma_least_char(s, c, w);
    }
}

proof fn lemma_least_char(s: Seq<char>, c: char, w: int)
    requires
        0 <= w < s.len(),
        s[w] == c,
    ensures
        exists|i: int| 0 <= i < s.len() && s[i] == c && forall|j: int| 0 <= j < i ==> s[j] != c,
    decreases w,
{
    if exists|j: int| 0 <= j < w && s[j] == c {
        let j = choose|j: int| 0 <= j < w && s[j] == c;
        lemma_least_char(s, c, j);
    } else {
        assert(forall|j: int| 0 <= j < w ==> s[j] != c);
    }
}

/// `split_on` always yields at least one piece.
pub proof fn lemma_split_on_len(s: Seq<char>, sep: char)
    ensures
        split_on(s, sep).len() >= 1,
    decreases s.len(),
{
    if s.len() > 0 {
        lemma_split_on_len(s.drop_last(), sep);
    }
}

// ---------------------------------------------------------------------------
// Executable helpers
// ---------------------------------------------------------------------------

/// The characters of a string slice.
pub fn chars_of(s: &str) -> (v: Vec<char>)
    ensures
        v@ == s@,
{
    let mut v: Vec<char> = Vec::new();
    for c in it: s.chars()
        invariant
            v@ == it.seq().take(it.index() as int),
            it.seq() == s@,
    {
        v.push(c);
    }
    v
}

/// A string made of the given characters.
pub fn string_of(v: &[char]) -> (s: String)
    ensures
        s@ == v@,
{
    let mut s = String::new();
    let mut i: usize = 0;
    while i < v.len()
        invariant
            i <= v.len(),
            s@ == v@.take(i as int),
        decreases v.len() - i,
    {
        s.push(v[i]);
        i += 1;
        assert(v@.take(i as int) == v@.take(i - 1).push(v@[i - 1]));
    }
    assert(v@.take(v.len() as int) == v@);
    s
}

/// Characters `from..to` of `v`.
pub fn slice_chars(v: &[char], from: usize, to: usize) -> (r: Vec<char>)
    requires
        from <= to <= v.len(),
    ensures
        r@ == v@.subrange(from as int, to as int),
{
    let mut r: Vec<char> = Vec::new();
    let mut i: usize = from;
    while i < to
        invariant
            from <= i <= to <= v.len(),
            r@ == v@.subrange(from as int, i as int),
        decreases to - i,
    {
        r.push(v[i]);
        i += 1;
        assert(v@.subrange(from as int, i as int) == v@.subrange(from as int, i - 1).push(
            v@[i - 1],
        ));
    }
    r
}

/// `v` followed by `w`.
pub fn concat_chars(v: &[char], w: &[char]) -> (r: Vec<char>)
    ensures
        r@ == v@ + w@,
{
    let mut r = slice_chars(v, 0, v.len());
    let mut i: usize = 0;
    while i < w.len()
        invariant
            i <= w.len(),
            r@ == v@ + w@.take(i as int),
        decreases w.len() - i,
    {
        r.push(w[i]);
        i += 1;
        assert(w@.take(i as int) == w@.take(i - 1).push(w@[i - 1]));
    }
    assert(w@.take(w.len() as int) == w@);
    assert(v@.subrange(0, v@.len() as int) == v@);
    r
}

/// Does `t` occur in `s` at index `i`?
pub fn occurs_at_exec(s: &[char], t: &[char], i: usize) -> (b: bool)
    ensures
        b == occurs_at(s@, t@, i as int),
{
    if t.len() > s.len() || i > s.len() - t.len() {
        return false;
    }
    let mut k: usize = 0;
    while k < t.len()
        invariant
            i + t.len() <= s.len(),
            k <= t.len(),
            forall|j: int| 0 <= j < k ==> s@[i + j] == t@[j],
        decreases t.len() - k,
    {
        if s[i + k] != t[k] {
            assert(s@.subrange(i as int, i + t.len())[k as int] != t@[k as int]);
            return false;
        }
        k += 1;
    }
    assert(s@.subrange(i as int, i + t.len()) =~= t@);
    true
}

/// First index at or after `from` where `t` occurs in `s`.
pub fn find_chars_from(s: &[char], t: &[char], from: usize) -> (r: Option<usize>)
    ensures
        match r {
            Some(j) => find_from(s@, t@, from as int) == Some(j as int),
            None => find_from(s@, t@, from as int) is None,
        },
{
    if t.len() > s.len() || from > s.len() - t.len() {
        return None;
    }
    if t.len() == 0 {
        assert(s@.subrange(from as int, from as int) =~= t@);
        return Some(from);
    }
    let mut i: usize = from;
    while i <= s.len() - t.len()
        invariant
            1 <= t.len() <= s.len(),
            from <= i <= s.len() - t.len() + 1,
            find_from(s@, t@, from as int) == find_from(s@, t@, i as int),
        decreases s.len() - t.len() + 1 - i,
    {
        if occurs_at_exec(s, t, i) {
            return Some(i);
        }
        i += 1;
    }
    None
}

/// First index where `t` occurs in `s` (`str::find`, counted in chars).
pub fn find_chars(s: &[char], t: &[char]) -> (r: Option<usize>)
    ensures
        match r {
            Some(j) => find_first(s@, t@) == Some(j as int),
            None => find_first(s@, t@) is None,
        },
{
    find_chars_from(s, t, 0)
}

/// Does `s` contain `t`?
pub fn contains_chars(s: &[char], t: &[char]) -> (b: bool)
    ensures
        b == contains_seq(s@, t@),
{
    proof {
        lemma_find_first(s@, t@);
    }
    find_chars(s, t).is_some()
}

pub fn starts_with_chars(s: &[char], p: &[char]) -> (b: bool)
    ensures
        b == starts_with(s@, p@),
{
    let b = occurs_at_exec(s, p, 0);
    b
}

pub fn ends_with_chars(s: &[char], p: &[char]) -> (b: bool)
    ensures
        b == ends_with(s@, p@),
{
    if p.len() > s.len() {
        return false;
    }
    occurs_at_exec(s, p, s.len() - p.len())
}

pub fn chars_equal(a: &[char], b: &[char]) -> (r: bool)
    ensures
        r == (a@ == b@),
{
    if a.len() != b.len() {
        return false;
    }
    let r = occurs_at_exec(a, b, 0);
    assert(a@.subrange(0, b@.len() as int) =~= a@);
    r
}

pub fn is_white_space_exec(c: char) -> (b: bool)
    ensures
        b == is_white_space(c),
{
    ('\u{9}' <= c && c <= '\u{d}') || c == ' ' || c == '\u{85}' || c == '\u{a0}' || c
        == '\u{1680}' || ('\u{2000}' <= c && c <= '\u{200a}') || c == '\u{2028}' || c
        == '\u{2029}' || c == '\u{202f}' || c == '\u{205f}' || c == '\u{3000}'
}

pub fn is_ascii_digit_exec(c: char) -> (b: bool)
    ensures
        b == is_ascii_digit(c),
{
    '0' <= c && c <= '9'
}

pub fn is_ascii_alphanumeric_exec(c: char) -> (b: bool)
    ensures
        b == is_ascii_alphanumeric(c),
{
    ('0' <= c && c <= '9') || ('a' <= c && c <= 'z') || ('A' <= c && c <= 'Z')
}

proof fn lemma_lead_ws_bound(s: Seq<char>)
    ensures
        lead_ws(s) <= s.len(),
        forall|i: int| 0 <= i < lead_ws(s) ==> is_white_space(#[trigger] s[i]),
        lead_ws(s) < s.len() ==> !is_white_space(s[lead_ws(s) as int]),
    decreases s.len(),
{
    if s.len() > 0 && is_white_space(s[0]) {
        lemma_lead_ws_bound(s.drop_first());
        assert forall|i: int| 0 <= i < lead_ws(s) implies is_white_space(#[trigger] s[i]) by {
            if i > 0 {
                assert(s[i] == s.drop_first()[i - 1]);
            }
        }
    }
}

proof fn lemma_trail_ws_bound(s: Seq<char>)
    ensures
        trail_ws(s) <= s.len(),
    decreases s.len(),
{
    if s.len() > 0 && is_white_space(s.last()) {
        lemma_trail_ws_bound(s.drop_last());
    }
}

/// Index of the first non-white-space character of `v` at or after `from`,
/// or `v.len()`.
pub(crate) fn skip_ws_forward(v: &[char], from: usize) -> (i: usize)
    requires
        from <= v.len(),
    ensures
        i == from + lead_ws(v@.skip(from as int)),
        i <= v.len(),
    decreases v.len() - from,
{
    if from < v.len() && is_white_space_exec(v[from]) {
        proof {
            let s = v@.skip(from as int);
            assert(s[0] == v@[from as int]);
            assert(s.drop_first() =~= v@.skip(from + 1));
        }
        skip_ws_forward(v, from + 1)
    } else {
        proof {
            let s = v@.skip(from as int);
            if from < v.len() {
                assert(s[0] == v@[from as int]);
            }
        }
        from
    }
}

/// Length of `v@.take(to)` without its trailing white space.
fn skip_ws_backward(v: &[char], to: usize) -> (i: usize)
    requires
        to <= v.len(),
    ensures
        i == to - trail_ws(v@.take(to as int)),
        i <= to,
    decreases to,
{
    if to > 0 && is_white_space_exec(v[to - 1]) {
        proof {
            let s = v@.take(to as int);
            assert(s.last() == v@[to - 1]);
            assert(s.drop_last() =~= v@.take(to - 1));
            lemma_trail_ws_bound(s.drop_last());
        }
        skip_ws_backward(v, to - 1)
    } else {
        proof {
            let s = v@.take(to as int);
            if to > 0 {
                assert(s.last() == v@[to - 1]);
            }
        }
        to
    }
}

/// `str::trim` on a character sequence.
pub fn trim_chars(v: &[char]) -> (r: Vec<char>)
    ensures
        r@ == trim(v@),
{
    let start = skip_ws_forward(v, 0);
    assert(v@.skip(0) =~= v@);
    let rest = slice_chars(v, start, v.len());
    assert(rest@ == trim_start(v@));
    let end = skip_ws_backward(&rest, rest.len());
    assert(rest@.take(rest.len() as int) =~= rest@);
    let r = slice_chars(&rest, 0, end);
    assert(r@ =~= trim_end(rest@));
    r
}

/// `str::split` by a character, on a character sequence.
pub fn split_chars(v: &[char], sep: char) -> (r: Vec<Vec<char>>)
    ensures
        r@.map_values(|p: Vec<char>| p@) == split_on(v@, sep),
{
    let mut done: Vec<Vec<char>> = Vec::new();
    let mut cur: Vec<char> = Vec::new();
    let mut i: usize = 0;
    proof {
        assert(v@.take(0) =~= Seq::<char>::empty());
    }
    while i < v.len()
        invariant
            i <= v.len(),
            done@.map_values(|p: Vec<char>| p@).push(cur@) == split_on(v@.take(i as int), sep),
        decreases v.len() - i,
    {
        let ghost prev = split_on(v@.take(i as int), sep);
        proof {
            lemma_split_on_len(v@.take(i as int), sep);
            assert(v@.take(i + 1).drop_last() =~= v@.take(i as int));
            assert(v@.take(i + 1).last() == v@[i as int]);
        }
        if v[i] == sep {
            let finished = cur;
            done.push(finished);
            cur = Vec::new();
            assert(done@.map_values(|p: Vec<char>| p@).push(cur@) =~= prev.push(seq![]));
        } else {
            cur.push(v[i]);
            assert(done@.map_values(|p: Vec<char>| p@).push(cur@) =~= prev.update(
                prev.len() - 1,
                prev.last().push(v@[i as int]),
            ));
        }
        i += 1;
    }
    done.push(cur);
    assert(v@.take(v.len() as int) =~= v@);
    done
}

/// `str::to_lowercase`: Unicode lowercase mapping.
#[verifier::external_body]
pub(crate) fn to_lowercase(s: &str) -> (r: String)
    ensures
        r@ == unicode_lowercase(s@),
{
    s.to_lowercase()
}

/// `str::to_uppercase`: Unicode uppercase mapping.
#[verifier::external_body]
pub(crate) fn to_uppercase(s: &str) -> (r: String)
    ensures
        r@ == unicode_uppercase(s@),
{
    s.to_uppercase()
}

/// A component that reads the same on every platform: not empty, not `.`
/// or `..`, and free of `/`, `\` and `:`.
pub open spec fn plain_component(n: Seq<char>) -> bool {
    n.len() > 0 && !n.contains('/') && !n.contains('\\') && !n.contains(':') && n != "."@ && n != ".."@
}

/// `path` is plainly written with final component `n`: either `n` alone,
/// or a relative directory part (not starting with `/`, with no `\` or
/// `:`, so no platform reads a root or prefix in it) then `/` then `n`.
pub open spec fn plain_file_name(path: Seq<char>, n: Seq<char>) -> bool {
    plain_component(n) && (path == n || exists|d: Seq<char>|
        d.len() > 0 && d[0] != '/' && !d.contains('\\') && !d.contains(':') && path == d + "/"@ + n)
}

/// The final component of a plainly written path (see `plain_file_name`).
pub open spec fn plain_name_of(path: Seq<char>) -> Option<Seq<char>> {
    if exists|n: Seq<char>| plain_file_name(path, n) {
        Some(choose|n: Seq<char>| plain_file_name(path, n))
    } else {
        None
    }
}

/// A path has at most one plainly written final component.
pub proof fn lemma_plain_name_unique(path: Seq<char>, n1: Seq<char>, n2: Seq<char>)
    requires
        plain_file_name(path, n1),
        plain_file_name(path, n2),
    ensures
        n1 == n2,
{
    reveal_strlit("/");
    assert("/"@ =~= seq!['/']);
    if path == n1 && path != n2 {
        let d2 = choose|d: Seq<char>| d.len() > 0 && d[0] != '/' && !d.contains('\\') && !d.contains(':') && path == d + "/"@ + n2;
        assert(path[d2.len() as int] == '/');
        assert(n1[d2.len() as int] == '/');
        assert(false);
    } else if path == n2 && path != n1 {
        let d1 = choose|d: Seq<char>| d.len() > 0 && d[0] != '/' && !d.contains('\\') && !d.contains(':') && path == d + "/"@ + n1;
        assert(path[d1.len() as int] == '/');
        assert(n2[d1.len() as int] == '/');
        assert(false);
    } else if path != n1 && path != n2 {
        let d1 = choose|d: Seq<char>| d.len() > 0 && d[0] != '/' && !d.contains('\\') && !d.contains(':') && path == d + "/"@ + n1;
        let d2 = choose|d: Seq<char>| d.len() > 0 && d[0] != '/' && !d.contains('\\') && !d.contains(':') && path == d + "/"@ + n2;
        if n1.len() < n2.len() {
            let k = path.len() - n1.len() - 1;
            assert(path[k] == '/');
            assert(n2[k - d2.len() - 1] == path[k]);
            assert(false);
        } else if n2.len() < n1.len() {
            let k = path.len() - n2.len() - 1;
            assert(path[k] == '/');
            assert(n1[k - d1.len() - 1] == path[k]);
            assert(false);
        } else {
            assert(n1 =~= path.skip(path.len() - n1.len()));
            assert(n2 =~= path.skip(path.len() - n2.len()));
        }
    }
}

/// A plainly written final component is the one `plain_name_of` gives.
pub proof fn lemma_plain_name_of(path: Seq<char>, n: Seq<char>)
    requires
        plain_file_name(path, n),
    ensures
        plain_name_of(path) == Some(n),
{
    let c = choose|m: Seq<char>| plain_file_name(path, m);
    lemma_plain_name_unique(path, n, c);
}

/// `p` begins with `\\?\`, the verbatim prefix of Windows paths, in
/// which `/` does not separate components.
pub open spec fn verbatim_prefixed(p: Seq<char>) -> bool {
    p.len() >= 4 && p[0] == '\\' && p[1] == '\\' && p[2] == '?' && p[3] == '\\'
}

/// `Path::file_name` of a path given as text, converted lossily to a
/// `String`. How a path splits into components depends on the platform the
/// program is built for; what holds on every platform is stated: a file
/// name is a non-empty piece of the path; it holds no `/` unless the path
/// has a verbatim prefix (see `verbatim_prefixed`); and a path plainly
/// written (see `plain_file_name`) has its final component as its file
/// name.
#[verifier::external_body]
pub(crate) fn path_file_name(path: &str) -> (r: Option<String>)
    ensures
        r matches Some(n) ==> n@.len() > 0 && contains_seq(path@, n@) && (!verbatim_prefixed(path@)
            ==> !n@.contains('/')),
        r is None ==> plain_name_of(path@) is None,
        r matches Some(x) ==> (plain_name_of(path@) is Some ==> plain_name_of(path@) == Some(x@)),
{
    std::path::Path::new(path).file_name().map(|n| n.to_string_lossy().to_string())
}

/// Position of the last `.` in `n`, or -1 when there is none.
pub open spec fn last_dot(n: Seq<char>) -> int
    decreases n.len(),
{
    if n.len() == 0 {
        -1
    } else if n.last() == '.' {
        n.len() - 1
    } else {
        last_dot(n.drop_last())
    }
}

/// The stem of a file name other than `..`, by the rules `Path::file_stem`
/// documents: the whole name when it has no `.` or its only `.` is the first
/// character, else the part before the final `.`.
pub open spec fn stem_of(n: Seq<char>) -> Seq<char> {
    if last_dot(n) <= 0 {
        n
    } else {
        n.take(last_dot(n))
    }
}

/// `Path::file_stem` of a path given as text, converted lossily to a
/// `String`. As for `path_file_name`, the split into components is the
/// platform's; on every platform a stem is a non-empty piece of the path,
/// with no `/` in it unless the path has a verbatim prefix; and the stem of a
/// plainly written path (see `plain_file_name`) is `stem_of` its final
/// component.
#[verifier::external_body]
pub(crate) fn path_file_stem(path: &str) -> (r: Option<String>)
    ensures
        r matches Some(n) ==> n@.len() > 0 && contains_seq(path@, n@) && (!verbatim_prefixed(path@)
            ==> !n@.contains('/')),
        r is None ==> plain_name_of(path@) is None,
        r matches Some(x) ==> (plain_name_of(path@) is Some ==> x@ == stem_of(plain_name_of(path@)->0)),
{
    std::path::Path::new(path).file_stem().map(|n| n.to_string_lossy().to_string())
}

/// `str::trim_matches` with a character.
pub fn trim_char_chars(v: &[char], c: char) -> (r: Vec<char>)
    ensures
        r@ == trim_char(v@, c),
{
    let mut lo: usize = 0;
    let mut hi: usize = v.len();
    assert(v@.subrange(0, hi as int) =~= v@);
    while lo < hi && v[lo] == c
        invariant
            lo <= hi <= v.len(),
            hi == v.len(),
            trim_char(v@, c) == trim_char(v@.subrange(lo as int, hi as int), c),
        decreases hi - lo,
    {
        assert(v@.subrange(lo as int, hi as int).drop_first() =~= v@.subrange(lo + 1, hi as int));
        lo += 1;
    }
    while lo < hi && v[hi - 1] == c
        invariant
            lo <= hi <= v.len(),
            lo == hi || v[lo as int] != c,
            trim_char(v@, c) == trim_char(v@.subrange(lo as int, hi as int), c),
        decreases hi - lo,
    {
        let ghost t = v@.subrange(lo as int, hi as int);
        assert(t.drop_last() =~= v@.subrange(lo as int, hi - 1));
        assert(t[0] == v@[lo as int]);
        hi -= 1;
    }
    let r = slice_chars(v, lo, hi);
    proof {
        let t = v@.subrange(lo as int, hi as int);
        if t.len() > 0 {
            assert(t[0] == v@[lo as int]);
            assert(t.last() == v@[hi - 1]);
        }
    }
    r
}

/// `str::trim_end_matches` with a non-empty string pattern.
pub fn trim_end_seq_chars(v: &[char], p: &[char]) -> (r: Vec<char>)
    requires
        p.len() > 0,
    ensures
        r@ == trim_end_seq(v@, p@),
{
    let mut hi: usize = v.len();
    assert(v@.take(hi as int) =~= v@);
    loop
        invariant
            hi <= v.len(),
            p.len() > 0,
            trim_end_seq(v@, p@) == trim_end_seq(v@.take(hi as int), p@),
        decreases hi,
    {
        let head = slice_chars(v, 0, hi);
        if ends_with_chars(&head, p) {
            assert(v@.take(hi as int).take(hi - p.len()) =~= v@.take(hi - p.len()));
            hi = hi - p.len();
        } else {
            return head;
        }
    }
}

/// Decimal digits of `n`.
pub fn decimal_chars(n: u64) -> (r: Vec<char>)
    ensures
        r@ == decimal(n as nat),
        r@.len() >= 1,
    decreases n,
{
    if n < 10 {
        let d = (('0' as u8) + (n as u8)) as char;
        assert(d == digit_char(n as nat));
        vec![d]
    } else {
        let mut r = decimal_chars(n / 10);
        let d = (('0' as u8) + ((n % 10) as u8)) as char;
        assert(d == digit_char((n % 10) as nat));
        r.push(d);
        r
    }
}

/// Join character sequences with a separator.
pub fn join_chars(parts: &[Vec<char>], sep: &[char]) -> (r: Vec<char>)
    ensures
        r@ == join_with(parts@.map_values(|p: Vec<char>| p@), sep@),
{
    let ghost views = parts@.map_values(|p: Vec<char>| p@);
    let mut r: Vec<char> = Vec::new();
    let mut i: usize = 0;
    while i < parts.len()
        invariant
            i <= parts.len(),
            views == parts@.map_values(|p: Vec<char>| p@),
            r@ == join_with(views.take(i as int), sep@),
        decreases parts.len() - i,
    {
        let ghost before = r@;
        if i > 0 {
            let mut k: usize = 0;
            while k < sep.len()
                invariant
                    k <= sep.len(),
                    r@ == before + sep@.take(k as int),
                decreases sep.len() - k,
            {
                r.push(sep[k]);
                k += 1;
                assert(r@ =~= before + sep@.take(k as int));
            }
            assert(sep@.take(k as int) =~= sep@);
        }
        let ghost mid = r@;
        let part = &parts[i];
        let mut k: usize = 0;
        while k < part.len()
            invariant
                k <= part.len(),
                r@ == mid + part@.take(k as int),
            decreases part.len() - k,
        {
            r.push(part[k]);
            k += 1;
            assert(r@ =~= mid + part@.take(k as int));
        }
        assert(part@.take(k as int) =~= part@);
        proof {
            let t = views.take(i + 1);
            assert(t.drop_last() =~= views.take(i as int));
            assert(t.last() == part@);
            if i == 0 {
                assert(t.len() == 1);
                assert(r@ =~= part@);
            } else {
                assert(r@ =~= join_with(views.take(i as int), sep@) + sep@ + part@);
            }
        }
        i += 1;
    }
    assert(views.take(i as int) =~= views);
    r
}

/// Position of the first `c` in `v`.
pub fn index_of_char_exec(v: &[char], c: char) -> (r: Option<usize>)
    ensures
        match r {
            Some(i) => index_of_char(v@, c) == Some(i as int),
            None => index_of_char(v@, c) is None,
        },
{
    let mut i: usize = 0;
    while i < v.len()
        invariant
            i <= v.len(),
            forall|j: int| 0 <= j < i ==> v@[j] != c,
        decreases v.len() - i,
    {
        if v[i] == c {
            let ghost w = choose|k: int| 0 <= k < v@.len() && v@[k] == c && forall|j: int| 0 <= j < k ==> v@[j] != c;
            assert(0 <= i < v@.len() && v@[i as int] == c && forall|j: int| 0 <= j < i ==> v@[j] != c);
            assert(w == i) by {
                if w < i {
                } else if w > i {
                    assert(v@[i as int] != c);
                }
            }
            return Some(i);
        }
        i += 1;
    }
    None
}

/// `u64::from_str` on a character sequence.
pub fn parse_u64_chars(v: &[char]) -> (r: Option<u64>)
    ensures
        r == parse_u64(v@),
{
    let d = if v.len() > 0 && v[0] == '+' { slice_chars(v, 1, v.len()) } else { slice_chars(v, 0, v.len()) };
    assert(v@.len() > 0 && v@[0] == '+' ==> d@ =~= v@.drop_first());
    assert(!(v@.len() > 0 && v@[0] == '+') ==> d@ =~= v@);
    if d.len() == 0 || !all_digits_exec(&d) {
        return None;
    }
    parse_digits_u64(&d)
}

/// A single path component with no separator or drive letter in it, and
/// neither `.` nor `..`.
pub open spec fn simple_name(name: Seq<char>) -> bool {
    &&& name.len() > 0
    &&& !name.contains('/')
    &&& !name.contains('\\')
    &&& !name.contains(':')
    &&& name != seq!['.']
    &&& name != seq!['.', '.']
}

/// `r` is `base` and `name` put together, with `/`, `\` or nothing
/// between them.
pub open spec fn joined(r: Seq<char>, base: Seq<char>, name: Seq<char>) -> bool {
    r == base + name || r == base + seq!['/'] + name || r == base + seq!['\\'] + name
}

/// `Path::join` of a base path and a plain file or directory name, as text.
/// The separator put between them (or none, after a separator or a bare
/// drive) is the platform's; on every platform the result ends with the
/// name, and it is the base joined to the name unless the base has a
/// verbatim prefix, which `Path::join` rebuilds from its components.
#[verifier::external_body]
pub(crate) fn path_join(base: &str, name: &str) -> (r: String)
    requires
        simple_name(name@),
    ensures
        ends_with(r@, name@),
        !verbatim_prefixed(base@) ==> joined(r@, base@, name@),
{
    std::path::Path::new(base).join(name).to_string_lossy().to_string()
}

/// `str::trim` on a string slice.
pub fn trim_str(s: &str) -> (r: Vec<char>)
    ensures
        r@ == trim(s@),
{
    let v = chars_of(s);
    trim_chars(&v)
}

pub fn ascii_lower_char_exec(c: char) -> (r: char)
    ensures
        r == ascii_lower_char(c),
{
    if 'A' <= c && c <= 'Z' {
        let b: u8 = c as u8;
        assert(b == c as u32);
        let r = (b + 32) as char;
        assert(r as u32 == (c as u32) + 32);
        r
    } else {
        c
    }
}

/// `str::to_ascii_lowercase` on a character sequence.
pub fn ascii_lower_chars(v: &[char]) -> (r: Vec<char>)
    ensures
        r@ == ascii_lower(v@),
{
    let mut r: Vec<char> = Vec::new();
    let mut i: usize = 0;
    while i < v.len()
        invariant
            i <= v.len(),
            r@ == ascii_lower(v@.take(i as int)),
        decreases v.len() - i,
    {
        let c = ascii_lower_char_exec(v[i]);
        r.push(c);
        i += 1;
        assert(ascii_lower(v@.take(i as int)) =~= ascii_lower(v@.take(i - 1)).push(c));
    }
    assert(v@.take(v.len() as int) =~= v@);
    r
}

/// Value of a run of ASCII digits, when it fits in a `u64`.
pub fn parse_digits_u64(v: &[char]) -> (r: Option<u64>)
    requires
        all_digits(v@),
    ensures
        match r {
            Some(n) => n == digits_value(v@),
            None => digits_value(v@) > u64::MAX,
        },
{
    let mut acc: u64 = 0;
    let mut i: usize = 0;
    while i < v.len()
        invariant
            i <= v.len(),
            all_digits(v@),
            acc == digits_value(v@.take(i as int)),
        decreases v.len() - i,
    {
        assert(v@.take(i + 1).drop_last() =~= v@.take(i as int));
        assert(v@.take(i + 1).last() == v@[i as int]);
        let d = (v[i] as u32 - '0' as u32) as u64;
        assert(is_ascii_digit(v@[i as int]));
        if acc > (u64::MAX - d) / 10 {
            proof {
                lemma_digits_value_prefix_mono(v@, i + 1);
            }
            return None;
        }
        acc = acc * 10 + d;
        i += 1;
    }
    assert(v@.take(v.len() as int) =~= v@);
    Some(acc)
}

/// Digit values only grow as more digits are appended.
pub proof fn lemma_digits_value_prefix_mono(s: Seq<char>, k: int)
    requires
        0 <= k <= s.len(),
        all_digits(s),
    ensures
        digits_value(s.take(k)) <= digits_value(s),
    decreases s.len() - k,
{
    if k < s.len() {
        lemma_digits_value_prefix_mono(s, k + 1);
        assert(s.take(k + 1).drop_last() =~= s.take(k));
        assert(is_ascii_digit(s[k]));
    } else {
        assert(s.take(k) =~= s);
    }
}

pub fn all_digits_exec(v: &[char]) -> (b: bool)
    ensures
        b == all_digits(v@),
{
    let mut i: usize = 0;
    while i < v.len()
        invariant
            i <= v.len(),
            forall|j: int| 0 <= j < i ==> is_ascii_digit(#[trigger] v@[j]),
        decreases v.len() - i,
    {
        if !is_ascii_digit_exec(v[i]) {
            return false;
        }
        i += 1;
    }
    true
}

pub fn char_utf8_len_exec(c: char) -> (n: usize)
    ensures
        n == char_utf8_len(c),
        1 <= n <= 4,
{
    let u = c as u32;
    if u < 0x80 {
        1
    } else if u < 0x800 {
        2
    } else if u < 0x10000 {
        3
    } else {
        4
    }
}

/// Number of UTF-8 bytes of `v` (the `str::len` of the same text).
pub fn utf8_len_exec(v: &[char]) -> (n: usize)
    requires
        utf8_len(v@) <= usize::MAX,
    ensures
        n == utf8_len(v@),
{
    let mut n: usize = 0;
    let mut i: usize = 0;
    proof {
        assert(v@.take(0) =~= Seq::<char>::empty());
        assert(vstd::utf8::encode_utf8(Seq::<char>::empty()) =~= Seq::<u8>::empty());
    }
    while i < v.len()
        invariant
            i <= v.len(),
            utf8_len(v@) <= usize::MAX,
            n == utf8_len(v@.take(i as int)),
        decreases v.len() - i,
    {
        proof {
            assert(v@.take(i + 1) =~= v@.take(i as int).push(v@[i as int]));
            lemma_utf8_len_push(v@.take(i as int), v@[i as int]);
            lemma_utf8_len_split(v@, i + 1);
        }
        let k = char_utf8_len_exec(v[i]);
        n = n + k;
        i += 1;
    }
    assert(v@.take(v.len() as int) =~= v@);
    n
}

} // verus!
