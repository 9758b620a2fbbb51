//! What trimming, cutting, changing case and splitting into lines come to, character by character.

use vstd::prelude::*;

use crate::text::{
    after_line, before_first, first_line, lemma_line_len, line_len, lower_char, lower_of,
    strip_trailing, trim_end_of, trim_of, trim_start_of, white_space, without_feed,
};

verus! {

/// White space is dropped up to the first character that is none.
pub proof fn law_trim_start(s: Seq<char>)
    ensures
        exists|i: int|
            0 <= i <= s.len() && trim_start_of(s) == #[trigger] s.skip(i) && (i < s.len()
                ==> !white_space(s[i])) && forall|k: int| 0 <= k < i ==> white_space(#[trigger] s[k]),
    decreases s.len(),
{
    if s.len() > 0 && white_space(s[0]) {
        let t = s.drop_first();
        law_trim_start(t);
        let i = choose|i: int|
            0 <= i <= t.len() && trim_start_of(t) == #[trigger] t.skip(i) && (i < t.len()
                ==> !white_space(t[i])) && forall|k: int| 0 <= k < i ==> white_space(#[trigger] t[k]);
        assert(s.skip(i + 1) == t.skip(i));
        assert forall|k: int| 0 <= k < i + 1 implies white_space(#[trigger] s[k]) by {
            if k > 0 {
                assert(s[k] == t[k - 1]);
            }
        }
    } else {
        assert(s.skip(0) == s);
    }
}

/// White space is dropped down to the last character that is none.
pub proof fn law_trim_end(s: Seq<char>)
    ensures
        exists|j: int|
            0 <= j <= s.len() && trim_end_of(s) == #[trigger] s.take(j) && (j > 0 ==> !white_space(
                s[j - 1],
            )) && forall|k: int| j <= k < s.len() ==> white_space(#[trigger] s[k]),
    decreases s.len(),
{
    if s.len() > 0 && white_space(s.last()) {
        let t = s.drop_last();
        law_trim_end(t);
        let j = choose|j: int|
            0 <= j <= t.len() && trim_end_of(t) == #[trigger] t.take(j) && (j > 0 ==> !white_space(
                t[j - 1],
            )) && forall|k: int| j <= k < t.len() ==> white_space(#[trigger] t[k]);
        assert(s.take(j) == t.take(j));
        assert forall|k: int| j <= k < s.len() implies white_space(#[trigger] s[k]) by {
            if k < t.len() {
                assert(s[k] == t[k]);
            }
        }
    } else {
        assert(s.take(s.len() as int) == s);
    }
}

/// Trimming takes white space off both ends, all of it, and nothing else.
pub proof fn law_trim(s: Seq<char>)
    ensures
        exists|i: int, j: int|
            0 <= i <= j <= s.len() && trim_of(s) == #[trigger] s.subrange(i, j) && (i < j
                ==> !white_space(s[i]) && !white_space(s[j - 1])) && forall|k: int|
                0 <= k < i || j <= k < s.len() ==> white_space(#[trigger] s[k]),
{
    law_trim_start(s);
    let t = trim_start_of(s);
    law_trim_end(t);
    let i = choose|i: int|
        0 <= i <= s.len() && t == #[trigger] s.skip(i) && (i < s.len() ==> !white_space(s[i]))
            && forall|k: int| 0 <= k < i ==> white_space(#[trigger] s[k]);
    let j = choose|j: int|
        0 <= j <= t.len() && trim_end_of(t) == #[trigger] t.take(j) && (j > 0 ==> !white_space(
            t[j - 1],
        )) && forall|k: int| j <= k < t.len() ==> white_space(#[trigger] t[k]);
    assert(t.take(j) == s.subrange(i, i + j));
    assert forall|k: int| 0 <= k < i || i + j <= k < s.len() implies white_space(#[trigger] s[k]) by {
        if k >= i + j {
            assert(s[k] == t[k - i]);
        }
    }
}

/// Trailing occurrences of `c` go, all of them, and nothing else.
pub proof fn law_strip_trailing(s: Seq<char>, c: char)
    ensures
        exists|j: int|
            0 <= j <= s.len() && strip_trailing(s, c) == #[trigger] s.take(j) && (j > 0 ==> s[j - 1]
                != c) && forall|k: int| j <= k < s.len() ==> #[trigger] s[k] == c,
    decreases s.len(),
{
    if s.len() > 0 && s.last() == c {
        let t = s.drop_last();
        law_strip_trailing(t, c);
        let j = choose|j: int|
            0 <= j <= t.len() && strip_trailing(t, c) == #[trigger] t.take(j) && (j > 0 ==> t[j - 1]
                != c) && forall|k: int| j <= k < t.len() ==> #[trigger] t[k] == c;
        assert(s.take(j) == t.take(j));
        assert forall|k: int| j <= k < s.len() implies #[trigger] s[k] == c by {
            if k < t.len() {
                assert(s[k] == t[k]);
            }
        }
    } else {
        assert(s.take(s.len() as int) == s);
    }
}

/// A text is cut before the first `c`, and stays whole where there is none.
pub proof fn law_before_first(s: Seq<char>, c: char)
    ensures
        exists|n: int|
            0 <= n <= s.len() && before_first(s, c) == #[trigger] s.take(n) && (n < s.len() ==> s[n]
                == c) && forall|k: int| 0 <= k < n ==> #[trigger] s[k] != c,
    decreases s.len(),
{
    if s.len() > 0 && s[0] != c {
        let t = s.drop_first();
        law_before_first(t, c);
        let n = choose|n: int|
            0 <= n <= t.len() && before_first(t, c) == #[trigger] t.take(n) && (n < t.len() ==> t[n]
                == c) && forall|k: int| 0 <= k < n ==> #[trigger] t[k] != c;
        assert(seq![s[0]] + t.take(n) == s.take(n + 1));
        assert forall|k: int| 0 <= k < n + 1 implies #[trigger] s[k] != c by {
            if k > 0 {
                assert(s[k] == t[k - 1]);
            }
        }
        if n + 1 < s.len() {
            assert(s[n + 1] == t[n]);
        }
    } else {
        assert(s.take(0) == Seq::<char>::empty());
    }
}

/// The 26 ASCII capitals become small letters, in place, and every other character stays.
pub proof fn law_lower(s: Seq<char>, i: int)
    requires
        0 <= i < s.len(),
    ensures
        lower_of(s).len() == s.len(),
        'A' <= s[i] <= 'Z' ==> lower_of(s)[i] as int == s[i] as int + 32,
        !('A' <= s[i] <= 'Z') ==> lower_of(s)[i] == s[i],
        lower_of(s)[i] == lower_char(s[i]),
{
}

/// Whether the part of `text` from `i` to `j` is a line: line feeds, or the ends of the text, stand
/// around it, and none stands in it.
pub open spec fn line_at(text: Seq<char>, i: int, j: int) -> bool {
    &&& 0 <= i <= j <= text.len()
    &&& i == 0 || text[i - 1] == '\n'
    &&& j == text.len() || text[j] == '\n'
    &&& forall|k: int| i <= k < j ==> #[trigger] text[k] != '\n'
}

/// The first line of a text runs through the first line feed, and the rest follows.
pub proof fn law_first_line(text: Seq<char>)
    ensures
        first_line(text) + after_line(text) == text,
        forall|k: int| 0 <= k < first_line(text).len() - 1 ==> #[trigger] first_line(text)[k] != '\n',
        text.len() > 0 ==> first_line(text).len() > 0,
        after_line(text).len() > 0 ==> first_line(text).last() == '\n',
        without_feed(first_line(text)) == before_first(text, '\n'),
    decreases text.len(),
{
    lemma_line_len(text);
    assert(first_line(text) + after_line(text) == text);
    if text.len() > 0 && text[0] != '\n' {
        let rest = text.drop_first();
        lemma_line_len(rest);
        law_first_line(rest);
        assert(line_len(text) == 1 + line_len(rest));
        assert(first_line(text) == seq![text[0]] + first_line(rest));
        assert(after_line(text) == after_line(rest));
        assert forall|k: int| 0 <= k < first_line(text).len() - 1 implies #[trigger] first_line(
            text,
        )[k] != '\n' by {
            if k > 0 {
                assert(first_line(text)[k] == first_line(rest)[k - 1]);
            }
        }
        assert(without_feed(first_line(text)) == seq![text[0]] + without_feed(first_line(rest)));
    } else if text.len() > 0 {
        assert(first_line(text) == seq!['\n']);
        assert(without_feed(first_line(text)) == Seq::<char>::empty());
    } else {
        assert(without_feed(first_line(text)) == Seq::<char>::empty());
    }
}

/// A line at the start of a text is its first.
pub proof fn law_line_at_start(text: Seq<char>, j: int)
    requires
        text.len() > 0,
    ensures
        line_at(text, 0, j) <==> j == without_feed(first_line(text)).len(),
        text.subrange(0, without_feed(first_line(text)).len() as int) == without_feed(
            first_line(text),
        ),
{
    law_first_line(text);
    let first = first_line(text);
    let rest = after_line(text);
    let bare = without_feed(first);
    let m = bare.len() as int;
    assert(text == first + rest);
    assert forall|k: int| 0 <= k < m implies #[trigger] text[k] != '\n' by {
        assert(text[k] == first[k]);
    }
    assert(m < text.len() ==> text[m] == '\n') by {
        if m < text.len() && m < first.len() {
            assert(text[m] == first[m]);
        }
    }
    assert(text.subrange(0, m) == bare);
    if line_at(text, 0, j) && j < m {
        assert(text[j] == '\n');
    }
    if line_at(text, 0, j) && m < j {
        assert(text[m] == '\n');
    }
}

/// A line further on in a text is a line of what follows the first.
pub proof fn law_line_further_on(text: Seq<char>, i: int, j: int)
    requires
        text.len() > 0,
        i > 0,
        line_at(text, i, j),
    ensures
        i >= first_line(text).len(),
        line_at(after_line(text), i - first_line(text).len(), j - first_line(text).len()),
        text.subrange(i, j) == after_line(text).subrange(
            i - first_line(text).len(),
            j - first_line(text).len(),
        ),
{
    law_first_line(text);
    let first = first_line(text);
    let rest = after_line(text);
    let n = first.len() as int;
    assert(text == first + rest);
    assert(text[i - 1] == '\n');
    if i < n {
        assert(text[i - 1] == first[i - 1]);
        assert(false);
    }
    if i > n {
        assert(text[i - 1] == rest[i - n - 1]);
    }
    if j < text.len() {
        assert(text[j] == rest[j - n]);
    }
    assert forall|k: int| i - n <= k < j - n implies #[trigger] rest[k] != '\n' by {
        assert(text[k + n] == rest[k]);
    }
    assert(text.subrange(i, j) == rest.subrange(i - n, j - n));
}

/// A line of what follows the first line of a text is a line of the text.
pub proof fn law_line_of_rest(text: Seq<char>, i: int, j: int)
    requires
        after_line(text).len() > 0,
        line_at(after_line(text), i, j),
    ensures
        line_at(text, i + first_line(text).len(), j + first_line(text).len()),
        text.subrange(i + first_line(text).len(), j + first_line(text).len()) == after_line(
            text,
        ).subrange(i, j),
{
    law_first_line(text);
    let first = first_line(text);
    let rest = after_line(text);
    let n = first.len() as int;
    assert(text == first + rest);
    if i > 0 {
        assert(text[i + n - 1] == rest[i - 1]);
    } else {
        assert(text[n - 1] == first[n - 1]);
    }
    if j < rest.len() {
        assert(text[j + n] == rest[j]);
    }
    assert forall|k: int| i + n <= k < j + n implies #[trigger] text[k] != '\n' by {
        assert(text[k] == rest[k - n]);
    }
    assert(text.subrange(i + n, j + n) == rest.subrange(i, j));
}

} // verus!
