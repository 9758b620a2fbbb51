//! Text as sequences of characters: white space, lines and ASCII case.

use vstd::prelude::*;
use vstd::slice::slice_subrange;

verus! {

/// The characters with the Unicode property `White_Space`.
pub open spec fn white_space(c: char) -> bool {
    ||| '\u{9}' <= c <= '\u{d}'
    ||| c == '\u{20}'
    ||| c == '\u{85}'
    ||| c == '\u{a0}'
    ||| c == '\u{1680}'
    ||| '\u{2000}' <= c <= '\u{200a}'
    ||| c == '\u{2028}'
    ||| c == '\u{2029}'
    ||| c == '\u{202f}'
    ||| c == '\u{205f}'
    ||| c == '\u{3000}'
}

/// `s` without its leading white space.
pub open spec fn trim_start_of(s: Seq<char>) -> Seq<char>
    decreases s.len(),
{
    if s.len() > 0 && white_space(s[0]) {
        trim_start_of(s.drop_first())
    } else {
        s
    }
}

/// `s` without its trailing white space.
pub open spec fn trim_end_of(s: Seq<char>) -> Seq<char>
    decreases s.len(),
{
    if s.len() > 0 && white_space(s.last()) {
        trim_end_of(s.drop_last())
    } else {
        s
    }
}

/// `s` without leading and trailing white space.
pub open spec fn trim_of(s: Seq<char>) -> Seq<char> {
    trim_end_of(trim_start_of(s))
}

/// `s` without its trailing occurrences of `c`.
pub open spec fn strip_trailing(s: Seq<char>, c: char) -> Seq<char>
    decreases s.len(),
{
    if s.len() > 0 && s.last() == c {
        strip_trailing(s.drop_last(), c)
    } else {
        s
    }
}

/// The part of `s` before the first `c`, or all of `s` where `c` does not occur.
pub open spec fn before_first(s: Seq<char>, c: char) -> Seq<char>
    decreases s.len(),
{
    if s.len() == 0 || s[0] == c {
        Seq::empty()
    } else {
        seq![s[0]] + before_first(s.drop_first(), c)
    }
}

/// The ASCII lower case of one character; other characters stay as they are.
pub open spec fn lower_char(c: char) -> char {
    if 'A' <= c <= 'Z' {
        ((c as u32 + 32) as u32) as char
    } else {
        c
    }
}

/// `s` with its ASCII letters in lower case.
pub open spec fn lower_of(s: Seq<char>) -> Seq<char> {
    s.map_values(|c: char| lower_char(c))
}

/// The length of the first line of `s`, its line feed included.
pub open spec fn line_len(s: Seq<char>) -> nat
    decreases s.len(),
{
    if s.len() == 0 {
        0
    } else if s[0] == '\n' {
        1
    } else {
        1 + line_len(s.drop_first())
    }
}

/// The lengths of lines: a line never exceeds its text, and is empty only where the text is.
pub proof fn lemma_line_len(s: Seq<char>)
    ensures
        line_len(s) <= s.len(),
        s.len() > 0 ==> line_len(s) > 0,
    decreases s.len(),
{
    if s.len() > 0 {
        lemma_line_len(s.drop_first());
    }
}

/// What trimming at the start leaves is a suffix that does not start with white space.
pub proof fn lemma_trim_start(s: Seq<char>)
    ensures
        trim_start_of(s).len() <= s.len(),
        trim_start_of(s) == s.skip(s.len() - trim_start_of(s).len()),
        trim_start_of(s).len() > 0 ==> !white_space(trim_start_of(s)[0]),
    decreases s.len(),
{
    if s.len() > 0 && white_space(s[0]) {
        lemma_trim_start(s.drop_first());
    }
}

/// What trimming at the end leaves is a prefix that does not end in white space.
pub proof fn lemma_trim_end(s: Seq<char>)
    ensures
        trim_end_of(s).len() <= s.len(),
        trim_end_of(s) == s.take(trim_end_of(s).len() as int),
        trim_end_of(s).len() > 0 ==> !white_space(trim_end_of(s).last()),
    decreases s.len(),
{
    if s.len() > 0 && white_space(s.last()) {
        lemma_trim_end(s.drop_last());
    }
}

/// What stripping leaves is a prefix that does not end in the stripped character.
pub proof fn lemma_strip_trailing(s: Seq<char>, c: char)
    ensures
        strip_trailing(s, c).len() <= s.len(),
        strip_trailing(s, c) == s.take(strip_trailing(s, c).len() as int),
        strip_trailing(s, c).len() > 0 ==> strip_trailing(s, c).last() != c,
    decreases s.len(),
{
    if s.len() > 0 && s.last() == c {
        lemma_strip_trailing(s.drop_last(), c);
    }
}

/// A character behind a text is cut off with the rest, or stays behind it.
pub proof fn lemma_cut_push(s: Seq<char>, c: char, x: char)
    requires
        x != c,
    ensures
        before_first(s.push(x), c) == before_first(s, c) || before_first(s.push(x), c)
            == before_first(s, c).push(x),
    decreases s.len(),
{
    let sx = s.push(x);
    if s.len() == 0 {
        assert(sx.drop_first() == Seq::<char>::empty());
        assert(before_first(sx.drop_first(), c) == Seq::<char>::empty());
        assert(before_first(sx, c) == before_first(s, c).push(x));
    } else if s[0] != c {
        assert(sx.drop_first() == s.drop_first().push(x));
        lemma_cut_push(s.drop_first(), c, x);
        let r = before_first(s.drop_first(), c);
        assert(seq![s[0]] + r.push(x) == (seq![s[0]] + r).push(x));
    }
}

/// What follows the character at which a text is cut does not count.
pub proof fn lemma_cut_rest(s: Seq<char>, c: char, rest: Seq<char>)
    ensures
        before_first(s.push(c) + rest, c) == before_first(s, c),
    decreases s.len(),
{
    let x = s.push(c) + rest;
    if s.len() == 0 {
        assert(x[0] == c);
    } else {
        assert(x[0] == s[0]);
        assert(x.drop_first() == s.drop_first().push(c) + rest);
        lemma_cut_rest(s.drop_first(), c, rest);
    }
}

/// White space behind a text does not count once the text is trimmed.
pub proof fn lemma_trim_push(s: Seq<char>, c: char)
    requires
        white_space(c),
    ensures
        trim_of(s.push(c)) == trim_of(s),
    decreases s.len(),
{
    let x = s.push(c);
    if s.len() > 0 && white_space(s[0]) {
        assert(x.drop_first() == s.drop_first().push(c));
        lemma_trim_push(s.drop_first(), c);
    } else if s.len() == 0 {
        assert(x.drop_first() == s);
    } else {
        assert(x.drop_last() == s);
    }
}

/// Lower case keeps what is no letter, and makes nothing else of a letter than a letter.
proof fn lemma_lower_char(c: char)
    ensures
        white_space(lower_char(c)) == white_space(c),
        lower_char(lower_char(c)) == lower_char(c),
        lower_char(c) == '#' <==> c == '#',
        lower_char(c) == '.' <==> c == '.',
{
}

/// Lower case and cutting at `#` can change places.
pub proof fn lemma_lower_cut(s: Seq<char>)
    ensures
        lower_of(before_first(s, '#')) == before_first(lower_of(s), '#'),
    decreases s.len(),
{
    let low = lower_of(s);
    if s.len() > 0 {
        lemma_lower_char(s[0]);
        assert(low[0] == lower_char(s[0]));
        assert(low.drop_first() == lower_of(s.drop_first()));
        if s[0] != '#' {
            lemma_lower_cut(s.drop_first());
            let rest = before_first(s.drop_first(), '#');
            assert(lower_of(seq![s[0]] + rest) == seq![low[0]] + lower_of(rest));
        } else {
            assert(lower_of(Seq::<char>::empty()) == Seq::<char>::empty());
        }
    } else {
        assert(lower_of(Seq::<char>::empty()) == Seq::<char>::empty());
    }
}

/// Lower case and trimming at the start can change places.
proof fn lemma_lower_trim_start(s: Seq<char>)
    ensures
        lower_of(trim_start_of(s)) == trim_start_of(lower_of(s)),
    decreases s.len(),
{
    if s.len() > 0 {
        lemma_lower_char(s[0]);
        assert(lower_of(s).drop_first() == lower_of(s.drop_first()));
        lemma_lower_trim_start(s.drop_first());
    }
}

/// Lower case and trimming at the end can change places.
proof fn lemma_lower_trim_end(s: Seq<char>)
    ensures
        lower_of(trim_end_of(s)) == trim_end_of(lower_of(s)),
    decreases s.len(),
{
    if s.len() > 0 {
        lemma_lower_char(s.last());
        assert(lower_of(s).drop_last() == lower_of(s.drop_last()));
        lemma_lower_trim_end(s.drop_last());
    }
}

/// Lower case and trimming can change places.
pub proof fn lemma_lower_trim(s: Seq<char>)
    ensures
        lower_of(trim_of(s)) == trim_of(lower_of(s)),
{
    lemma_lower_trim_start(s);
    lemma_lower_trim_end(trim_start_of(s));
}

/// Lower case and stripping dots can change places.
pub proof fn lemma_lower_strip(s: Seq<char>)
    ensures
        lower_of(strip_trailing(s, '.')) == strip_trailing(lower_of(s), '.'),
    decreases s.len(),
{
    if s.len() > 0 {
        lemma_lower_char(s.last());
        assert(lower_of(s).drop_last() == lower_of(s.drop_last()));
        lemma_lower_strip(s.drop_last());
    }
}

/// The first line of `s`, its line feed included.
pub open spec fn first_line(s: Seq<char>) -> Seq<char> {
    s.take(line_len(s) as int)
}

/// What follows the first line of `s`.
pub open spec fn after_line(s: Seq<char>) -> Seq<char> {
    s.skip(line_len(s) as int)
}

/// `line` without its line feed.
pub open spec fn without_feed(line: Seq<char>) -> Seq<char> {
    if line.len() > 0 && line.last() == '\n' {
        line.drop_last()
    } else {
        line
    }
}

/// Whether `c` has the Unicode property `White_Space`.
pub fn is_white_space(c: char) -> (r: bool)
    ensures
        r == white_space(c),
{
    ('\u{9}' <= c && c <= '\u{d}') || c == '\u{20}' || c == '\u{85}' || c == '\u{a0}' || c
        == '\u{1680}' || ('\u{2000}' <= c && c <= '\u{200a}') || c == '\u{2028}' || c == '\u{2029}'
        || c == '\u{202f}' || c == '\u{205f}' || c == '\u{3000}'
}

/// The characters of `s`.
pub fn chars_of(s: &str) -> (r: Vec<char>)
    ensures
        r@ == s@,
{
    let mut r: Vec<char> = Vec::new();
    for c in it: s.chars()
        invariant
            r@ == it.seq().take(it.index() as int),
            it.seq() == s@,
    {
        r.push(c);
    }
    r
}

/// Appends one character: `String::push`, of which it is claimed that the text grows by exactly
/// that character, at its end.
pub assume_specification[ String::push ](s: &mut String, c: char)
    ensures
        final(s)@ == old(s)@.push(c),
;

/// The text with the characters `chars`.
pub fn text_of(chars: &[char]) -> (r: String)
    ensures
        r@ == chars@,
{
    let mut r = String::new();
    let mut i: usize = 0;
    while i < chars.len()
        invariant
            i <= chars@.len(),
            r@ == chars@.take(i as int),
        decreases chars@.len() - i,
    {
        r.push(chars[i]);
        i += 1;
    }
    r
}

/// `s` without its leading white space.
pub fn trim_start(s: &[char]) -> (r: &[char])
    ensures
        r@ == trim_start_of(s@),
{
    let mut i: usize = 0;
    assert(s@.skip(0) == s@);
    while i < s.len() && is_white_space(s[i])
        invariant
            i <= s@.len(),
            trim_start_of(s@) == trim_start_of(s@.skip(i as int)),
        decreases s@.len() - i,
    {
        assert(s@.skip(i as int).drop_first() == s@.skip(i + 1));
        i += 1;
    }
    assert(s@.skip(i as int) == s@.subrange(i as int, s@.len() as int));
    slice_subrange(s, i, s.len())
}

/// `s` without its trailing white space.
pub fn trim_end(s: &[char]) -> (r: &[char])
    ensures
        r@ == trim_end_of(s@),
{
    let mut n: usize = s.len();
    assert(s@.take(n as int) == s@);
    while n > 0 && is_white_space(s[n - 1])
        invariant
            n <= s@.len(),
            trim_end_of(s@) == trim_end_of(s@.take(n as int)),
        decreases n,
    {
        assert(s@.take(n as int).drop_last() == s@.take(n - 1));
        n -= 1;
    }
    slice_subrange(s, 0, n)
}

/// `s` without leading and trailing white space.
pub fn trim(s: &[char]) -> (r: &[char])
    ensures
        r@ == trim_of(s@),
{
    trim_end(trim_start(s))
}

/// `s` without its trailing occurrences of `c`.
pub fn trim_end_char(s: &[char], c: char) -> (r: &[char])
    ensures
        r@ == strip_trailing(s@, c),
{
    let mut n: usize = s.len();
    assert(s@.take(n as int) == s@);
    while n > 0 && s[n - 1] == c
        invariant
            n <= s@.len(),
            strip_trailing(s@, c) == strip_trailing(s@.take(n as int), c),
        decreases n,
    {
        assert(s@.take(n as int).drop_last() == s@.take(n - 1));
        n -= 1;
    }
    slice_subrange(s, 0, n)
}

/// The part of `s` before the first `c`, or all of `s` where `c` does not occur.
pub fn before_char(s: &[char], c: char) -> (r: &[char])
    ensures
        r@ == before_first(s@, c),
{
    let mut i: usize = 0;
    assert(s@.skip(0) == s@);
    while i < s.len() && s[i] != c
        invariant
            i <= s@.len(),
            before_first(s@, c) == s@.take(i as int) + before_first(s@.skip(i as int), c),
        decreases s@.len() - i,
    {
        assert(s@.skip(i as int).drop_first() == s@.skip(i + 1));
        assert(s@.take(i as int) + seq![s@[i as int]] == s@.take(i + 1));
        i += 1;
    }
    slice_subrange(s, 0, i)
}

/// The ASCII lower case of one character.
pub fn to_lower(c: char) -> (r: char)
    ensures
        r == lower_char(c),
{
    if 'A' <= c && c <= 'Z' {
        ((c as u8) + 32) as char
    } else {
        c
    }
}

/// The length of the first line of `s`, its line feed included.
pub fn first_line_len(s: &[char]) -> (r: usize)
    ensures
        r == line_len(s@),
        r <= s@.len(),
        s@.len() > 0 ==> r > 0,
{
    let mut i: usize = 0;
    assert(s@.skip(0) == s@);
    while i < s.len() && s[i] != '\n'
        invariant
            i <= s@.len(),
            line_len(s@) == i + line_len(s@.skip(i as int)),
        decreases s@.len() - i,
    {
        assert(s@.skip(i as int).drop_first() == s@.skip(i + 1));
        i += 1;
    }
    proof {
        lemma_line_len(s@);
    }
    if i < s.len() {
        i + 1
    } else {
        i
    }
}

} // verus!
