//! What holds of search domains that are put into a resolver configuration: they are what is read
//! back, nothing else changes, and doing it again changes nothing.

use vstd::prelude::*;
use vstd::utf8::{
    decode_utf8, encode_utf8, encode_utf8_decode_utf8, encode_utf8_valid_utf8, valid_utf8,
};

use crate::resolv::{
    comma_free, directive, lemma_word_len, line_parses, line_search, lines_parse, listed_servers,
    search_directive, search_or_none, word_len, words,
};
use crate::search::{
    fed, has_search_line, is_search_line, line_content, line_ending, rewritten, rewritten_line,
    rewritten_lines, search_change, search_text, spaced, SearchUpdate,
};
use crate::text::{
    after_line, before_first, first_line, lemma_cut_push, lemma_line_len, lemma_trim_start, line_len,
    trim_start_of, white_space, without_feed,
};

verus! {

/// Whether a text is a line: a line feed is nowhere but at its end.
pub open spec fn is_line(a: Seq<char>) -> bool {
    a.len() > 0 && forall|i: int| 0 <= i < a.len() - 1 ==> a[i] != '\n'
}

/// Whether a text is empty or its last line has its line feed.
pub open spec fn closed_text(a: Seq<char>) -> bool {
    a.len() == 0 || a.last() == '\n'
}

/// A word that can stand in a `search` directive: no white space, comma or comment sign.
pub open spec fn plain_word(d: Seq<char>) -> bool {
    d.len() > 0 && forall|i: int|
        0 <= i < d.len() ==> !white_space(#[trigger] d[i]) && d[i] != ',' && d[i] != ';' && d[i]
            != '#'
}

/// Words that can stand in a `search` directive.
pub open spec fn plain_words(domains: Seq<Seq<char>>) -> bool {
    forall|i: int| 0 <= i < domains.len() ==> plain_word(#[trigger] domains[i])
}

/// A text is its first line and the rest; only a last line can lack its line feed.
pub proof fn lemma_first_line(text: Seq<char>)
    requires
        text.len() > 0,
    ensures
        is_line(first_line(text)),
        first_line(text).len() == line_len(text),
        first_line(text) + after_line(text) == text,
        first_line(text).last() != '\n' ==> after_line(text).len() == 0,
        after_line(text).len() < text.len(),
    decreases text.len(),
{
    lemma_line_len(text);
    if text[0] != '\n' && text.len() > 1 {
        let rest = text.drop_first();
        lemma_first_line(rest);
        assert(first_line(text) == seq![text[0]] + first_line(rest));
        assert(after_line(text) == after_line(rest));
    }
    assert(first_line(text) + after_line(text) == text);
}

/// A line followed by a text is the first line of the two.
pub proof fn lemma_line_concat(a: Seq<char>, b: Seq<char>)
    requires
        is_line(a),
        a.last() == '\n' || b.len() == 0,
    ensures
        first_line(a + b) == a,
        after_line(a + b) == b,
    decreases a.len(),
{
    let s = a + b;
    if a.len() > 1 {
        assert(s.drop_first() == a.drop_first() + b);
        lemma_line_concat(a.drop_first(), b);
        lemma_line_len(s.drop_first());
        assert(first_line(s.drop_first()).len() == line_len(s.drop_first()));
        assert(line_len(s) == a.len());
    } else {
        assert(s.drop_first() == b);
        if a[0] != '\n' {
            assert(line_len(b) == 0);
        }
        assert(line_len(s) == 1);
    }
    assert(first_line(s) == a);
    assert(after_line(s) == b);
}

/// Leading white space does not count.
proof fn lemma_trim_lead(lead: Seq<char>, s: Seq<char>)
    requires
        forall|i: int| 0 <= i < lead.len() ==> white_space(#[trigger] lead[i]),
    ensures
        trim_start_of(lead + s) == trim_start_of(s),
    decreases lead.len(),
{
    if lead.len() > 0 {
        assert((lead + s)[0] == lead[0]);
        assert((lead + s).drop_first() == lead.drop_first() + s);
        lemma_trim_lead(lead.drop_first(), s);
    } else {
        assert(lead + s == s);
    }
}

/// A word ends where white space follows, or the text.
pub proof fn lemma_word_step(d: Seq<char>, tail: Seq<char>)
    requires
        d.len() > 0,
        forall|i: int| 0 <= i < d.len() ==> !white_space(#[trigger] d[i]),
        tail.len() == 0 || white_space(tail[0]),
    ensures
        words(d + tail) == seq![d] + words(tail),
{
    lemma_word_len_concat(d, tail);
    let s = d + tail;
    assert(s[0] == d[0]);
    assert(trim_start_of(s) == s);
    assert(s.take(d.len() as int) == d);
    assert(s.skip(d.len() as int) == tail);
}

/// The length of a word that white space follows, or nothing.
proof fn lemma_word_len_concat(d: Seq<char>, tail: Seq<char>)
    requires
        forall|i: int| 0 <= i < d.len() ==> !white_space(#[trigger] d[i]),
        tail.len() == 0 || white_space(tail[0]),
    ensures
        word_len(d + tail) == d.len(),
    decreases d.len(),
{
    if d.len() > 0 {
        assert((d + tail)[0] == d[0]);
        assert((d + tail).drop_first() == d.drop_first() + tail);
        lemma_word_len_concat(d.drop_first(), tail);
    } else {
        assert(d + tail == tail);
    }
}

/// Leading white space holds no words.
pub proof fn lemma_words_lead(lead: Seq<char>, s: Seq<char>)
    requires
        forall|i: int| 0 <= i < lead.len() ==> white_space(#[trigger] lead[i]),
    ensures
        words(lead + s) == words(s),
{
    lemma_trim_lead(lead, s);
}

/// Where a character does not occur, nothing is cut off.
pub proof fn lemma_before_none(s: Seq<char>, c: char)
    requires
        forall|i: int| 0 <= i < s.len() ==> s[i] != c,
    ensures
        before_first(s, c) == s,
    decreases s.len(),
{
    if s.len() > 0 {
        lemma_before_none(s.drop_first(), c);
        assert(seq![s[0]] + s.drop_first() == s);
    }
}

/// What is cut off starts behind a part without the character.
proof fn lemma_before_concat(x: Seq<char>, y: Seq<char>, c: char)
    requires
        forall|i: int| 0 <= i < x.len() ==> x[i] != c,
    ensures
        before_first(x + y, c) == x + before_first(y, c),
    decreases x.len(),
{
    if x.len() > 0 {
        assert((x + y)[0] == x[0]);
        assert((x + y).drop_first() == x.drop_first() + y);
        lemma_before_concat(x.drop_first(), y, c);
        assert(seq![x[0]] + (x.drop_first() + before_first(y, c)) == x + before_first(y, c));
    } else {
        assert(x + y == y);
        assert(x + before_first(y, c) == before_first(y, c));
    }
}

/// A cut text is a prefix without the character.
proof fn lemma_before(s: Seq<char>, c: char)
    ensures
        before_first(s, c).len() <= s.len(),
        before_first(s, c) == s.take(before_first(s, c).len() as int),
        forall|i: int| 0 <= i < before_first(s, c).len() ==> before_first(s, c)[i] != c,
    decreases s.len(),
{
    if s.len() > 0 && s[0] != c {
        lemma_before(s.drop_first(), c);
        let b = before_first(s, c);
        let r = before_first(s.drop_first(), c);
        assert forall|i: int| 0 <= i < b.len() implies b[i] != c by {
            if i > 0 {
                assert(b[i] == r[i - 1]);
            }
        }
        assert(b == s.take(b.len() as int));
    } else {
        assert(before_first(s, c) == s.take(0));
    }
}

/// Words without commas all count.
proof fn lemma_comma_free(domains: Seq<Seq<char>>)
    requires
        plain_words(domains),
    ensures
        comma_free(domains) == domains,
    decreases domains.len(),
{
    if domains.len() > 0 {
        let rest = domains.drop_first();
        assert forall|i: int| 0 <= i < rest.len() implies plain_word(#[trigger] rest[i]) by {
            assert(rest[i] == domains[i + 1]);
        }
        lemma_comma_free(rest);
        assert(plain_word(domains[0]));
        assert(!domains[0].contains(','));
        assert(seq![domains[0]] + rest == domains);
    }
}

/// The characters of spaced words.
proof fn lemma_spaced(domains: Seq<Seq<char>>)
    requires
        plain_words(domains),
    ensures
        forall|i: int|
            0 <= i < spaced(domains).len() ==> (#[trigger] spaced(domains)[i] == ' ' || !white_space(
                spaced(domains)[i],
            )) && spaced(domains)[i] != ';' && spaced(domains)[i] != '#',
        domains.len() > 0 ==> spaced(domains).len() > 1 && spaced(domains)[0] == ' '
            && !white_space(spaced(domains).last()),
    decreases domains.len(),
{
    if domains.len() > 0 {
        let d = domains[0];
        let rest = domains.drop_first();
        assert forall|i: int| 0 <= i < rest.len() implies plain_word(#[trigger] rest[i]) by {
            assert(rest[i] == domains[i + 1]);
        }
        lemma_spaced(rest);
        assert(plain_word(d));
        let s = spaced(domains);
        assert(s == seq![' '] + d + spaced(rest));
        assert forall|i: int| 0 <= i < s.len() implies (#[trigger] s[i] == ' ' || !white_space(s[i]))
            && s[i] != ';' && s[i] != '#' by {
            if 0 < i <= d.len() {
                assert(s[i] == d[i - 1]);
            } else if i > d.len() {
                assert(s[i] == spaced(rest)[i - 1 - d.len()]);
            }
        }
        if rest.len() > 0 {
            assert(s.last() == spaced(rest).last());
        } else {
            assert(s.last() == d.last());
            assert(d[d.len() - 1] == d.last());
        }
    }
}

/// Spaced words are read as those words.
proof fn lemma_words_spaced(domains: Seq<Seq<char>>, end: Seq<char>)
    requires
        plain_words(domains),
        forall|i: int| 0 <= i < end.len() ==> white_space(#[trigger] end[i]),
    ensures
        words(spaced(domains) + end) == domains,
    decreases domains.len(),
{
    if domains.len() == 0 {
        assert(spaced(domains) + end == end + Seq::<char>::empty());
        lemma_words_lead(end, Seq::empty());
        assert(words(Seq::<char>::empty()) == Seq::<Seq<char>>::empty());
        assert(domains == Seq::<Seq<char>>::empty());
    } else {
        let d = domains[0];
        let rest = domains.drop_first();
        assert forall|i: int| 0 <= i < rest.len() implies plain_word(#[trigger] rest[i]) by {
            assert(rest[i] == domains[i + 1]);
        }
        lemma_words_spaced(rest, end);
        lemma_spaced(rest);
        assert(plain_word(d));
        let tail = spaced(rest) + end;
        assert(spaced(domains) + end == seq![' '] + (d + tail));
        lemma_words_lead(seq![' '], d + tail);
        if rest.len() == 0 && end.len() > 0 {
            assert(tail[0] == end[0]);
        }
        lemma_word_step(d, tail);
        assert(seq![d] + rest == domains);
    }
}

/// What can end a line.
proof fn lemma_line_ending(line: Seq<char>)
    ensures
        line_content(line) + line_ending(line) == line,
        line_content(line).len() <= line.len(),
        line_ending(line) == Seq::<char>::empty() || line_ending(line) == seq!['\r'] || line_ending(
            line,
        ) == seq!['\n'] || line_ending(line) == seq!['\r', '\n'],
        line_ending(line).len() > 0 && line_ending(line).last() == '\n' <==> line.len() > 0
            && line.last() == '\n',
        forall|i: int| 0 <= i < line_ending(line).len() ==> white_space(#[trigger] line_ending(line)[i]),
{
    let c = line_content(line);
    let e = line_ending(line);
    assert(c == line.take(c.len() as int));
    assert(c + e == line);
    if e.len() == 0 {
        assert(e == Seq::<char>::empty());
    } else if e.len() == 1 {
        assert(e == seq![e[0]]);
    } else {
        assert(e == seq!['\r', '\n']);
    }
}

/// Whether the directive for the domains fits on a line: it holds no line feed.
pub open spec fn fits_line(domains: Seq<Seq<char>>) -> bool {
    !search_text(domains).contains('\n')
}

/// Whether the end of the directive for the domains can be told from the end of its line: it is no
/// carriage return.
pub open spec fn ends_clear(domains: Seq<Seq<char>>) -> bool {
    search_text(domains).last() != '\r'
}

/// The directive for some domains sets search domains, whatever follows it.
proof fn lemma_search_text(domains: Seq<Seq<char>>, end: Seq<char>)
    requires
        domains.len() > 0,
    ensures
        is_search_line(search_text(domains) + end),
{
    reveal_strlit("search");
    let key = "search"@;
    let y = spaced(domains) + end;
    assert(spaced(domains)[0] == ' ');
    assert(search_text(domains) + end == key + y);
    assert(y[0] == ' ');
    let y1 = before_first(y, ';');
    let y2 = before_first(y1, '#');
    lemma_before_concat(key, y, ';');
    lemma_before_concat(key, y1, '#');
    lemma_before(y, ';');
    lemma_before(y1, '#');
    if y2.len() > 0 {
        assert(y2[0] == y1[0] && y1[0] == y[0]);
    }
    lemma_word_step(key, y2);
}

/// A line for the wanted domains is a line that sets search domains, and keeps its ending.
proof fn lemma_search_text_line(domains: Seq<Seq<char>>, end: Seq<char>)
    requires
        fits_line(domains),
        domains.len() > 0,
        end == Seq::<char>::empty() || end == seq!['\r'] || end == seq!['\n'] || end == seq![
            '\r',
            '\n',
        ],
    ensures
        is_line(search_text(domains) + end),
        is_search_line(search_text(domains) + end),
        ends_clear(domains) ==> line_ending(search_text(domains) + end) == end,
        (search_text(domains) + end).last() == '\n' <==> end.len() > 0 && end.last() == '\n',
{
    reveal_strlit("search");
    let t = search_text(domains);
    let p = t + end;
    lemma_search_text(domains, end);
    assert forall|i: int| 0 <= i < t.len() implies #[trigger] t[i] != '\n' by {
        if t[i] == '\n' {
            assert(t.contains('\n'));
        }
    }
    assert(forall|i: int| 0 <= i < p.len() - 1 ==> p[i] != '\n') by {
        assert forall|i: int| 0 <= i < p.len() - 1 implies p[i] != '\n' by {
            if i < t.len() {
                assert(p[i] == t[i]);
            } else {
                assert(p[i] == end[i - t.len()]);
            }
        }
    }
    assert(t[t.len() - 1] == t.last());
    if end.len() > 0 {
        assert(p.last() == end.last());
        assert(p.drop_last() == t + end.drop_last());
        if end.len() == 2 {
            assert(p.drop_last().last() == '\r');
            assert(p.drop_last().drop_last() == t);
        } else {
            assert(p.drop_last() == t);
        }
    } else {
        assert(p == t);
    }
    if ends_clear(domains) {
        assert(line_content(p) == t);
        assert(line_ending(p) == end);
    }
}

/// A line for the wanted domains reads as a directive for them.
proof fn lemma_directive_line(domains: Seq<Seq<char>>, end: Seq<char>)
    requires
        plain_words(domains),
        domains.len() > 0,
        end == Seq::<char>::empty() || end == seq!['\r'] || end == seq!['\n'] || end == seq![
            '\r',
            '\n',
        ],
    ensures
        fits_line(domains),
        ends_clear(domains),
        line_search(search_text(domains) + end) == Some(domains),
{
    reveal_strlit("search");
    let t = search_text(domains);
    let p = t + end;
    let sp = spaced(domains);
    lemma_spaced(domains);
    assert forall|i: int| 0 <= i < t.len() implies (#[trigger] t[i] == ' ' || !white_space(t[i]))
        && t[i] != ';' && t[i] != '#' by {
        if i < 6 {
            assert(t[i] == "search"@[i]);
        } else {
            assert(t[i] == sp[i - 6]);
        }
    }
    assert(t.last() == sp.last());
    assert forall|i: int| 0 <= i < p.len() implies p[i] != ';' && p[i] != '#' by {
        if i < t.len() {
            assert(p[i] == t[i]);
        } else {
            assert(p[i] == end[i - t.len()]);
        }
    }
    lemma_before_none(p, ';');
    lemma_before_none(p, '#');
    let tail = sp + end;
    assert(p == "search"@ + tail);
    assert(tail[0] == ' ');
    lemma_word_step("search"@, tail);
    assert(forall|i: int| 0 <= i < end.len() ==> white_space(#[trigger] end[i]));
    lemma_words_spaced(domains, end);
    let w = directive(p);
    assert(w == seq!["search"@] + domains);
    assert(w.drop_first() == domains);
    lemma_comma_free(domains);
}

/// What is trimmed at the start is white space.
pub proof fn lemma_lead_is_white(s: Seq<char>)
    ensures
        trim_start_of(s).len() <= s.len(),
        forall|i: int| 0 <= i < s.len() - trim_start_of(s).len() ==> white_space(#[trigger] s[i]),
    decreases s.len(),
{
    if s.len() > 0 && white_space(s[0]) {
        lemma_lead_is_white(s.drop_first());
        assert forall|i: int| 0 <= i < s.len() - trim_start_of(s).len() implies white_space(
            #[trigger] s[i],
        ) by {
            if i > 0 {
                assert(s[i] == s.drop_first()[i - 1]);
            }
        }
    }
}

/// The rewritten form of a line is a line with the same end, where domains are wanted.
proof fn lemma_rewritten_line(line: Seq<char>, domains: Seq<Seq<char>>)
    requires
        is_line(line),
        fits_line(domains),
        domains.len() > 0,
    ensures
        is_line(rewritten_line(line, domains)),
        rewritten_line(line, domains).last() == '\n' <==> line.last() == '\n',
        is_search_line(rewritten_line(line, domains)) == is_search_line(line),
        ends_clear(domains) ==> rewritten_line(rewritten_line(line, domains), domains)
            == rewritten_line(line, domains),
{
    if is_search_line(line) {
        lemma_line_ending(line);
        lemma_search_text_line(domains, line_ending(line));
    }
}

/// The first line and the rest of a rewritten text.
proof fn lemma_rewritten_step(text: Seq<char>, domains: Seq<Seq<char>>)
    requires
        text.len() > 0,
        fits_line(domains),
        domains.len() > 0,
    ensures
        first_line(rewritten_lines(text, domains)) == rewritten_line(first_line(text), domains),
        after_line(rewritten_lines(text, domains)) == rewritten_lines(after_line(text), domains),
        rewritten_lines(text, domains).len() > 0,
{
    let line = first_line(text);
    lemma_first_line(text);
    lemma_rewritten_line(line, domains);
    lemma_line_concat(rewritten_line(line, domains), rewritten_lines(after_line(text), domains));
}

/// The directives of a rewritten text.
proof fn lemma_last_directive(text: Seq<char>, domains: Seq<Seq<char>>)
    requires
        plain_words(domains),
        domains.len() > 0,
    ensures
        search_directive(rewritten_lines(text, domains)) == if has_search_line(text) {
            Some(domains)
        } else {
            None
        },
    decreases text.len(),
{
    if text.len() > 0 {
        lemma_first_line(text);
        let line = first_line(text);
        lemma_last_directive(after_line(text), domains);
        lemma_line_ending(line);
        lemma_directive_line(domains, line_ending(line));
        lemma_rewritten_step(text, domains);
    }
}

/// Lines that set search domains are the only ones that vanish.
proof fn lemma_removed(text: Seq<char>)
    ensures
        search_directive(rewritten_lines(text, Seq::empty())) is None,
        !has_search_line(rewritten_lines(text, Seq::empty())),
        rewritten_lines(rewritten_lines(text, Seq::empty()), Seq::empty()) == rewritten_lines(
            text,
            Seq::empty(),
        ),
        listed_servers(rewritten_lines(text, Seq::empty())) == listed_servers(text),
        lines_parse(rewritten_lines(text, Seq::empty())) == lines_parse(text),
    decreases text.len(),
{
    let none = Seq::<Seq<char>>::empty();
    if text.len() > 0 {
        lemma_first_line(text);
        let line = first_line(text);
        let rest = rewritten_lines(after_line(text), none);
        lemma_removed(after_line(text));
        if is_search_line(line) {
            assert(rewritten_lines(text, none) == rest);
            reveal_strlit("search");
            reveal_strlit("nameserver");
            assert("search"@.len() != "nameserver"@.len());
        } else {
            lemma_line_concat(line, rest);
        }
    }
}

/// Nothing changes where no line sets search domains.
proof fn lemma_no_search_line(text: Seq<char>, domains: Seq<Seq<char>>)
    requires
        !has_search_line(text),
    ensures
        rewritten_lines(text, domains) == text,
    decreases text.len(),
{
    if text.len() > 0 {
        lemma_first_line(text);
        lemma_no_search_line(after_line(text), domains);
    }
}

/// Rewriting lines keeps whether any set search domains, is done after one pass, and does not
/// touch name servers.
proof fn lemma_rewritten_lines(text: Seq<char>, domains: Seq<Seq<char>>)
    requires
        fits_line(domains),
        domains.len() > 0,
    ensures
        has_search_line(rewritten_lines(text, domains)) == has_search_line(text),
        ends_clear(domains) ==> rewritten_lines(rewritten_lines(text, domains), domains)
            == rewritten_lines(text, domains),
        rewritten_lines(rewritten_lines(text, domains), Seq::empty()) == rewritten_lines(
            text,
            Seq::empty(),
        ),
        listed_servers(rewritten_lines(text, domains)) == listed_servers(text),
        lines_parse(rewritten_lines(text, domains)) == lines_parse(text),
    decreases text.len(),
{
    if text.len() > 0 {
        lemma_first_line(text);
        let line = first_line(text);
        lemma_rewritten_lines(after_line(text), domains);
        lemma_rewritten_step(text, domains);
        lemma_rewritten_line(line, domains);
        if is_search_line(line) {
            reveal_strlit("search");
            reveal_strlit("nameserver");
            assert("search"@.len() != "nameserver"@.len());
        }
    }
}

/// The lines of a text that another follows.
proof fn lemma_closed_step(a: Seq<char>, b: Seq<char>)
    requires
        closed_text(a),
        a.len() > 0,
    ensures
        first_line(a + b) == first_line(a),
        after_line(a + b) == after_line(a) + b,
        closed_text(after_line(a)),
{
    lemma_first_line(a);
    let line = first_line(a);
    let rest = after_line(a);
    assert(a + b == line + (rest + b));
    if rest.len() > 0 {
        assert(rest.last() == a.last());
    } else {
        assert(line == a);
    }
    lemma_line_concat(line, rest + b);
}

/// What two texts say, one after the other.
proof fn lemma_closed_concat(a: Seq<char>, b: Seq<char>, domains: Seq<Seq<char>>)
    requires
        closed_text(a),
    ensures
        search_directive(b) is Some ==> search_directive(a + b) == search_directive(b),
        has_search_line(a + b) == (has_search_line(a) || has_search_line(b)),
        rewritten_lines(a + b, domains) == rewritten_lines(a, domains) + rewritten_lines(b, domains),
        listed_servers(a + b) == listed_servers(a) + listed_servers(b),
        lines_parse(a + b) == (lines_parse(a) && lines_parse(b)),
    decreases a.len(),
{
    if a.len() == 0 {
        assert(a + b == b);
        assert(rewritten_lines(a, domains) + rewritten_lines(b, domains) == rewritten_lines(
            b,
            domains,
        ));
        assert(listed_servers(a) + listed_servers(b) == listed_servers(b));
    } else {
        lemma_first_line(a);
        lemma_closed_step(a, b);
        lemma_closed_concat(after_line(a), b, domains);
        let line = first_line(a);
        let rest = after_line(a);
        assert(rewritten_lines(a + b, domains) == rewritten_lines(a, domains) + rewritten_lines(
            b,
            domains,
        ));
        assert(listed_servers(a + b) == listed_servers(a) + listed_servers(b));
    }
}

/// White space behind a text adds no words.
proof fn lemma_words_push(s: Seq<char>, c: char)
    requires
        white_space(c),
    ensures
        words(s.push(c)) == words(s),
    decreases s.len(),
{
    let t = trim_start_of(s);
    lemma_trim_start(s);
    lemma_lead_is_white(s);
    let lead = s.take(s.len() - t.len());
    assert(s == lead + t);
    if t.len() == 0 {
        assert(s.push(c) == s.push(c) + Seq::<char>::empty());
        lemma_words_lead(s.push(c), Seq::empty());
        assert(words(Seq::<char>::empty()) == Seq::<Seq<char>>::empty());
    } else {
        let n = word_len(t) as int;
        lemma_word_len(t);
        lemma_word_end(t);
        let d = t.take(n);
        let tail = t.skip(n);
        assert(t == d + tail);
        assert(s.push(c) == lead + (d + tail.push(c)));
        lemma_words_lead(lead, d + tail.push(c));
        lemma_word_step(d, tail.push(c));
        lemma_words_push(tail, c);
    }
}

/// A word ends at white space or at the end of its text.
pub proof fn lemma_word_end(s: Seq<char>)
    ensures
        word_len(s) <= s.len(),
        word_len(s) < s.len() ==> white_space(s[word_len(s) as int]),
    decreases s.len(),
{
    if s.len() > 0 && !white_space(s[0]) {
        lemma_word_end(s.drop_first());
    }
}

/// A line says the same with its line feed and without.
pub proof fn lemma_directive_fed(line: Seq<char>)
    ensures
        directive(line.push('\n')) == directive(line),
{
    lemma_cut_push(line, ';', '\n');
    let b = before_first(line, ';');
    if before_first(line.push('\n'), ';') != b {
        lemma_cut_push(b, '#', '\n');
        let w = before_first(b, '#');
        if before_first(b.push('\n'), '#') != w {
            lemma_words_push(w, '\n');
        }
    }
}

/// The line feed that completes a last line changes nothing that the text says.
proof fn lemma_fed(text: Seq<char>)
    ensures
        closed_text(fed(text)),
        has_search_line(fed(text)) == has_search_line(text),
        listed_servers(fed(text)) == listed_servers(text),
        lines_parse(fed(text)) == lines_parse(text),
    decreases text.len(),
{
    if text.len() > 0 && text.last() != '\n' {
        lemma_first_line(text);
        let line = first_line(text);
        let rest = after_line(text);
        let f = text.push('\n');
        if rest.len() == 0 {
            assert(line == text);
            assert(is_line(f));
            lemma_line_concat(f, Seq::empty());
            assert(f + Seq::<char>::empty() == f);
            lemma_directive_fed(text);
            assert(without_feed(f) == text);
            assert(line_parses(f) == line_parses(text));
            assert(lines_parse(rest) && lines_parse(after_line(f)));
            assert(line_content(f) == line_content(text));
            assert(listed_servers(rest) == listed_servers(after_line(f)));
            assert(!has_search_line(rest));
            assert(!has_search_line(after_line(f)));
        } else {
            assert(rest.last() == text.last());
            lemma_fed(rest);
            assert(f == line + rest.push('\n'));
            lemma_line_concat(line, rest.push('\n'));
        }
    }
}

/// Once search domains are put into a configuration, reading it gives those domains. Left out are
/// texts that no `search` directive can list: with white space, a comma or a comment sign in them,
/// or nothing at all.
pub proof fn law_update_then_read(text: Seq<char>, domains: Seq<Seq<char>>)
    requires
        plain_words(domains),
    ensures
        search_or_none(search_directive(rewritten(text, domains))) == domains,
{
    if domains.len() == 0 {
        assert(domains == Seq::<Seq<char>>::empty());
        lemma_removed(text);
    } else if has_search_line(text) {
        lemma_last_directive(text, domains);
    } else {
        lemma_no_search_line(text, domains);
        lemma_fed(text);
        let p = search_text(domains) + seq!['\n'];
        lemma_directive_line(domains, seq!['\n']);
        lemma_search_text_line(domains, seq!['\n']);
        lemma_line_concat(p, Seq::empty());
        assert(p + Seq::<char>::empty() == p);
        assert(search_directive(after_line(p)) is None);
        assert(line_search(first_line(p)) == Some(domains));
        assert(search_directive(p) == Some(domains));
        lemma_closed_concat(fed(text), p, domains);
        assert(rewritten(text, domains) == fed(text) + p);
    }
}

/// A configuration that is replaced so that it sets the wanted search domains is UTF-8 again,
/// parses just where it parsed before, reads as setting them, and lists the same name servers.
/// Left out are the domains that `law_update_then_read` leaves out.
pub proof fn law_replaced_file_reads_back(
    bytes: Seq<u8>,
    current: Seq<Seq<char>>,
    domains: Seq<Seq<char>>,
    output: Seq<char>,
)
    requires
        plain_words(domains),
        search_change(bytes, current, domains) == SearchUpdate::Replaced(output),
    ensures
        valid_utf8(encode_utf8(output)),
        search_or_none(search_directive(decode_utf8(encode_utf8(output)))) == domains,
        listed_servers(decode_utf8(encode_utf8(output))) == listed_servers(decode_utf8(bytes)),
        lines_parse(decode_utf8(encode_utf8(output))) == lines_parse(decode_utf8(bytes)),
{
    encode_utf8_valid_utf8(output);
    encode_utf8_decode_utf8(output);
    law_update_then_read(decode_utf8(bytes), domains);
    if domains.len() > 0 {
        lemma_directive_line(domains, Seq::empty());
    }
    law_rewrite_keeps_the_rest(decode_utf8(bytes), domains);
}

/// Putting the same search domains into a configuration again changes nothing.
pub proof fn law_rewrite_idempotent(text: Seq<char>, domains: Seq<Seq<char>>)
    requires
        domains.len() > 0 ==> fits_line(domains) && ends_clear(domains),
    ensures
        rewritten(rewritten(text, domains), domains) == rewritten(text, domains),
{
    if domains.len() == 0 {
        assert(domains == Seq::<Seq<char>>::empty());
        lemma_removed(text);
    } else if has_search_line(text) {
        lemma_rewritten_lines(text, domains);
    } else {
        lemma_no_search_line(text, domains);
        lemma_fed(text);
        lemma_no_search_line(fed(text), domains);
        let p = search_text(domains) + seq!['\n'];
        lemma_search_text_line(domains, seq!['\n']);
        lemma_line_concat(p, Seq::empty());
        assert(p + Seq::<char>::empty() == p);
        assert(rewritten_lines(p, domains) == p + rewritten_lines(Seq::empty(), domains));
        assert(rewritten_lines(p, domains) == p);
        assert(has_search_line(p));
        lemma_closed_concat(fed(text), p, domains);
        assert(rewritten(text, domains) == fed(text) + p);
    }
}

/// Putting search domains into a configuration leaves its other lines as they are and in order,
/// but for a line feed that completes the last of them before a line is added; it lists the name
/// servers that it listed before, and parses just where it parsed before.
pub proof fn law_rewrite_keeps_the_rest(text: Seq<char>, domains: Seq<Seq<char>>)
    requires
        domains.len() > 0 ==> fits_line(domains),
    ensures
        rewritten_lines(rewritten(text, domains), Seq::empty()) == if has_search_line(text)
            || domains.len() == 0 {
            rewritten_lines(text, Seq::empty())
        } else {
            fed(rewritten_lines(text, Seq::empty()))
        },
        listed_servers(rewritten(text, domains)) == listed_servers(text),
        lines_parse(rewritten(text, domains)) == lines_parse(text),
{
    let none = Seq::<Seq<char>>::empty();
    if domains.len() == 0 {
        assert(domains == none);
        lemma_removed(text);
    } else if has_search_line(text) {
        lemma_rewritten_lines(text, domains);
    } else {
        lemma_no_search_line(text, domains);
        lemma_no_search_line(text, none);
        lemma_fed(text);
        lemma_no_search_line(fed(text), none);
        let p = search_text(domains) + seq!['\n'];
        lemma_search_text_line(domains, seq!['\n']);
        lemma_line_concat(p, Seq::empty());
        assert(p + Seq::<char>::empty() == p);
        assert(rewritten_lines(p, none) == Seq::<char>::empty() + rewritten_lines(Seq::empty(), none));
        assert(rewritten_lines(p, none) == Seq::<char>::empty());
        reveal_strlit("search");
        reveal_strlit("nameserver");
        assert("search"@.len() != "nameserver"@.len());
        assert(listed_servers(p) == listed_servers(Seq::empty()));
        assert(lines_parse(p) == lines_parse(Seq::empty()));
        lemma_closed_concat(fed(text), p, none);
        assert(rewritten(text, domains) == fed(text) + p);
    }
}

/// Words hold no white space, and nothing that their text does not hold.
proof fn lemma_words_plain(s: Seq<char>)
    requires
        forall|i: int| 0 <= i < s.len() ==> s[i] != ';' && s[i] != '#',
    ensures
        forall|k: int| 0 <= k < words(s).len() ==> (#[trigger] words(s)[k]).len() > 0,
        forall|k: int, i: int|
            0 <= k < words(s).len() && 0 <= i < words(s)[k].len() ==> !white_space(
                #[trigger] words(s)[k][i],
            ) && words(s)[k][i] != ';' && words(s)[k][i] != '#',
    decreases s.len(),
{
    let t = trim_start_of(s);
    lemma_trim_start(s);
    if t.len() > 0 {
        let n = word_len(t) as int;
        lemma_word_len(t);
        let rest = t.skip(n);
        assert forall|i: int| 0 <= i < t.len() implies t[i] != ';' && t[i] != '#' by {
            assert(t[i] == s[i + s.len() - t.len()]);
        }
        assert forall|i: int| 0 <= i < rest.len() implies rest[i] != ';' && rest[i] != '#' by {
            assert(rest[i] == t[i + n]);
        }
        lemma_words_plain(rest);
        let ws = words(s);
        assert(ws == seq![t.take(n)] + words(rest));
        assert forall|k: int| 0 <= k < ws.len() implies (#[trigger] ws[k]).len() > 0 by {
            if k > 0 {
                assert(ws[k] == words(rest)[k - 1]);
            }
        }
        assert forall|k: int, i: int| 0 <= k < ws.len() && 0 <= i < ws[k].len() implies !white_space(
            #[trigger] ws[k][i],
        ) && ws[k][i] != ';' && ws[k][i] != '#' by {
            if k > 0 {
                assert(ws[k] == words(rest)[k - 1]);
                assert(!white_space(words(rest)[k - 1][i]));
            } else {
                assert(ws[k][i] == t[i]);
            }
        }
    }
}

/// Leaving words out leaves words.
proof fn lemma_comma_free_plain(ws: Seq<Seq<char>>)
    requires
        forall|k: int| 0 <= k < ws.len() ==> (#[trigger] ws[k]).len() > 0,
        forall|k: int, i: int|
            0 <= k < ws.len() && 0 <= i < ws[k].len() ==> !white_space(#[trigger] ws[k][i]) && ws[k][i]
                != ';' && ws[k][i] != '#',
    ensures
        plain_words(comma_free(ws)),
    decreases ws.len(),
{
    if ws.len() > 0 {
        let rest = ws.drop_first();
        assert forall|k: int| 0 <= k < rest.len() implies (#[trigger] rest[k]).len() > 0 by {
            assert(rest[k] == ws[k + 1]);
        }
        assert forall|k: int, i: int| 0 <= k < rest.len() && 0 <= i < rest[k].len() implies !white_space(
            #[trigger] rest[k][i],
        ) && rest[k][i] != ';' && rest[k][i] != '#' by {
            assert(rest[k] == ws[k + 1]);
            assert(!white_space(ws[k + 1][i]));
        }
        lemma_comma_free_plain(rest);
        let out = comma_free(ws);
        assert forall|k: int| 0 <= k < out.len() implies plain_word(#[trigger] out[k]) by {
            if ws[0].contains(',') {
                assert(plain_word(comma_free(rest)[k]));
            } else if k > 0 {
                assert(plain_word(comma_free(rest)[k - 1]));
                assert(out[k] == comma_free(rest)[k - 1]);
            } else {
                assert(out[0] == ws[0]);
                assert forall|i: int| 0 <= i < ws[0].len() implies !white_space(
                    #[trigger] ws[0][i],
                ) && ws[0][i] != ',' && ws[0][i] != ';' && ws[0][i] != '#' by {
                    if ws[0][i] == ',' {
                        assert(ws[0].contains(','));
                    }
                }
            }
        }
    }
}

/// Search domains that are read from a configuration can stand in a `search` directive.
pub proof fn law_read_domains_are_plain(text: Seq<char>)
    ensures
        plain_words(search_or_none(search_directive(text))),
    decreases text.len(),
{
    if text.len() > 0 {
        lemma_line_len(text);
        law_read_domains_are_plain(after_line(text));
        let line = first_line(text);
        let b = before_first(line, ';');
        let s = before_first(b, '#');
        lemma_before(line, ';');
        lemma_before(b, '#');
        assert forall|i: int| 0 <= i < s.len() implies s[i] != ';' && s[i] != '#' by {
            assert(s[i] == b[i]);
        }
        lemma_words_plain(s);
        let w = directive(line);
        if w.len() > 0 {
            let ws = w.drop_first();
            assert forall|k: int| 0 <= k < ws.len() implies (#[trigger] ws[k]).len() > 0 by {
                assert(ws[k] == w[k + 1]);
            }
            assert forall|k: int, i: int|
                0 <= k < ws.len() && 0 <= i < ws[k].len() implies !white_space(#[trigger] ws[k][i])
                && ws[k][i] != ';' && ws[k][i] != '#' by {
                assert(ws[k] == w[k + 1]);
                assert(!white_space(w[k + 1][i]));
            }
            lemma_comma_free_plain(ws);
        }
    }
}

} // verus!
