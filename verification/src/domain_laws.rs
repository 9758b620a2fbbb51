//! What the normal form of a domain name and the list of domains come to, character by character
//! and line by line.

use vstd::prelude::*;
use vstd::utf8::encode_utf8;

use crate::domain::{domain_list, lemma_listed_lines, listed_domains, normalized, silent, text_lines};
use crate::order::{ascending, law_bytes_less, law_sorted_set, law_text_less, text_less};
use crate::text::{
    after_line, before_first, first_line, lemma_line_len, strip_trailing, trim_of, without_feed,
};
use crate::text_laws::{
    law_first_line, law_line_at_start, law_line_further_on, law_line_of_rest, law_lower,
    law_strip_trailing, line_at,
};

verus! {

/// A normal form is the trimmed name up to the dots at its end, with its capitals made small, and
/// one dot. Nothing else is taken from the name or added to it.
pub proof fn law_normalized(domain: Seq<char>)
    ensures
        exists|n: int|
            0 <= n <= trim_of(domain).len() && normalized(domain).len() == (if n == 0 {
                1
            } else {
                n + 1
            }) && (n > 0 ==> #[trigger] trim_of(domain)[n - 1] != '.') && (forall|k: int|
                n <= k < trim_of(domain).len() ==> #[trigger] trim_of(domain)[k] == '.') && (forall|
                k: int,
            |
                0 <= k < n ==> #[trigger] normalized(domain)[k] as int == (if 'A' <= trim_of(domain)[k]
                    <= 'Z' {
                    trim_of(domain)[k] as int + 32
                } else {
                    trim_of(domain)[k] as int
                })) && normalized(domain).last() == '.',
{
    let t = trim_of(domain);
    law_strip_trailing(t, '.');
    let n = choose|j: int|
        0 <= j <= t.len() && strip_trailing(t, '.') == #[trigger] t.take(j) && (j > 0 ==> t[j - 1]
            != '.') && forall|k: int| j <= k < t.len() ==> #[trigger] t[k] == '.';
    let labels = t.take(n);
    assert forall|k: int| 0 <= k < n implies #[trigger] normalized(domain)[k] as int == (if 'A'
        <= t[k] <= 'Z' {
        t[k] as int + 32
    } else {
        t[k] as int
    }) by {
        law_lower(labels, k);
        assert(labels[k] == t[k]);
    }
    let before = trim_of(domain)[n - 1];
    assert(normalized(domain).last() == '.');
}

/// The lines of a text are the parts between line feeds. An empty part behind the last line feed
/// does not count as one.
pub proof fn law_text_lines(text: Seq<char>, line: Seq<char>)
    ensures
        text_lines(text).contains(line) ==> exists|i: int, j: int|
            line_at(text, i, j) && line == #[trigger] text.subrange(i, j),
        line.len() > 0 && (exists|i: int, j: int|
            line_at(text, i, j) && line == #[trigger] text.subrange(i, j)) ==> text_lines(
            text,
        ).contains(line),
    decreases text.len(),
{
    if text.len() > 0 {
        lemma_line_len(text);
        let rest = after_line(text);
        let n = first_line(text).len() as int;
        let bare = without_feed(first_line(text));
        let lines = text_lines(text);
        let later = text_lines(rest);
        law_text_lines(rest, line);
        law_first_line(text);
        law_line_at_start(text, bare.len() as int);
        assert(lines == seq![bare] + later);
        assert(lines[0] == bare);
        if lines.contains(line) {
            let k = choose|k: int| 0 <= k < lines.len() && lines[k] == line;
            if k > 0 {
                assert(later[k - 1] == line);
                assert(later.contains(line));
                let (i, j) = choose|i: int, j: int|
                    line_at(rest, i, j) && line == #[trigger] rest.subrange(i, j);
                if rest.len() == 0 {
                    assert(later.len() == 0);
                }
                law_line_of_rest(text, i, j);
                assert(line == text.subrange(i + n, j + n));
            } else {
                assert(line == text.subrange(0, bare.len() as int));
            }
        }
        if line.len() > 0 && exists|i: int, j: int|
            line_at(text, i, j) && line == #[trigger] text.subrange(i, j) {
            let (i, j) = choose|i: int, j: int|
                line_at(text, i, j) && line == #[trigger] text.subrange(i, j);
            if i == 0 {
                law_line_at_start(text, j);
                assert(line == bare);
            } else {
                law_line_further_on(text, i, j);
                assert(line == rest.subrange(i - n, j - n));
                assert(later.contains(line));
                let k = choose|k: int| 0 <= k < later.len() && later[k] == line;
                assert(lines[k + 1] == line);
            }
        }
    }
}

/// The list of domains holds the normal form of the text before a `#` of every line, where that is
/// more than white space, and nothing else.
pub proof fn law_every_line_counts(text: Seq<char>, domain: Seq<char>)
    ensures
        domain_list(text).contains(domain) <==> exists|i: int, j: int|
            line_at(text, i, j) && trim_of(
                before_first(#[trigger] text.subrange(i, j), '#'),
            ).len() > 0 && normalized(trim_of(before_first(text.subrange(i, j), '#'))) == domain,
{
    law_sorted_set(listed_domains(text));
    lemma_listed_lines(text, domain);
    let lines = text_lines(text);
    if domain_list(text).contains(domain) {
        let k = choose|k: int|
            0 <= k < lines.len() && !silent(#[trigger] lines[k]) && normalized(
                trim_of(before_first(lines[k], '#')),
            ) == domain;
        assert(lines.contains(lines[k]));
        law_text_lines(text, lines[k]);
        let (i, j) = choose|i: int, j: int|
            line_at(text, i, j) && lines[k] == #[trigger] text.subrange(i, j);
        assert(trim_of(before_first(text.subrange(i, j), '#')).len() > 0);
    }
    if exists|i: int, j: int|
        line_at(text, i, j) && trim_of(before_first(#[trigger] text.subrange(i, j), '#')).len() > 0
            && normalized(trim_of(before_first(text.subrange(i, j), '#'))) == domain {
        let (i, j) = choose|i: int, j: int|
            line_at(text, i, j) && trim_of(before_first(#[trigger] text.subrange(i, j), '#')).len()
                > 0 && normalized(trim_of(before_first(text.subrange(i, j), '#'))) == domain;
        let line = text.subrange(i, j);
        if line.len() == 0 {
            assert(before_first(line, '#') == Seq::<char>::empty());
            assert(false);
        }
        law_text_lines(text, line);
        let k = choose|k: int| 0 <= k < lines.len() && lines[k] == line;
        assert(!silent(lines[k]));
    }
}

/// The list of domains is in the order of the bytes of its texts, and names none twice.
pub proof fn law_list_is_sorted(text: Seq<char>, i: int, j: int, a: Seq<u8>, b: Seq<u8>)
    requires
        0 <= i < j < domain_list(text).len(),
        a == encode_utf8(domain_list(text)[i]),
        b == encode_utf8(domain_list(text)[j]),
    ensures
        exists|n: int|
            0 <= n <= a.len() && n < b.len() && #[trigger] a.take(n) == b.take(n) && (n == a.len()
                || a[n] < b[n]),
        domain_list(text)[i] != domain_list(text)[j],
{
    law_sorted_set(listed_domains(text));
    assert(ascending(domain_list(text)));
    assert(text_less(domain_list(text)[i], domain_list(text)[j]));
    law_text_less(domain_list(text)[i], domain_list(text)[j]);
    law_bytes_less(a, b);
}

} // verus!
