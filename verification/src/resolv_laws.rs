//! What a resolver configuration says, line by line and word by word, and when to look at it again.

use vstd::prelude::*;

use crate::addr::{ip_from_text, ScopedIpView};
use crate::order::texts_of;
use crate::resolv::{
    comma_free, directive, explains, law_usable_nameservers, lemma_word_len, line_search, listed,
    listed_servers, pause, resolv_contents, scoped_ip, search_directive, states, usable,
    usable_content, word_len, words, ResolvData, ResolvFailure, RESOLV_RETRY_INTERVAL,
    RESOLV_RETRY_TIMEOUT,
};
use crate::search_laws::{
    lemma_directive_fed, lemma_line_concat, lemma_word_end, lemma_word_step, lemma_words_lead,
};
use crate::text::{
    after_line, before_first, first_line, lemma_line_len, trim_start_of, white_space, without_feed,
};
use crate::text_laws::{
    law_before_first, law_first_line, law_line_at_start, law_line_further_on, law_line_of_rest,
    law_trim_start, line_at,
};

verus! {

/// Words are what stands between white space: a text with a word in front has that word and those
/// of the rest, and white space has none.
pub proof fn law_words(lead: Seq<char>, word: Seq<char>, tail: Seq<char>)
    requires
        forall|i: int| 0 <= i < lead.len() ==> white_space(#[trigger] lead[i]),
        word.len() > 0,
        forall|i: int| 0 <= i < word.len() ==> !white_space(#[trigger] word[i]),
        tail.len() == 0 || white_space(tail[0]),
    ensures
        words(lead).len() == 0,
        words(lead + (word + tail)) == seq![word] + words(tail),
{
    lemma_words_lead(lead, Seq::empty());
    assert(lead + Seq::<char>::empty() == lead);
    lemma_words_lead(lead, word + tail);
    lemma_word_step(word, tail);
}

/// The words of a line are those before its first `;` or `#`.
pub proof fn law_directive(line: Seq<char>)
    ensures
        exists|n: int|
            0 <= n <= line.len() && directive(line) == words(#[trigger] line.take(n)) && (n
                < line.len() ==> line[n] == ';' || line[n] == '#') && forall|k: int|
                0 <= k < n ==> #[trigger] line[k] != ';' && line[k] != '#',
{
    law_before_first(line, ';');
    let n = choose|n: int|
        0 <= n <= line.len() && before_first(line, ';') == #[trigger] line.take(n) && (n < line.len()
            ==> line[n] == ';') && forall|k: int| 0 <= k < n ==> #[trigger] line[k] != ';';
    let s = line.take(n);
    law_before_first(s, '#');
    let m = choose|m: int|
        0 <= m <= s.len() && before_first(s, '#') == #[trigger] s.take(m) && (m < s.len() ==> s[m]
            == '#') && forall|k: int| 0 <= k < m ==> #[trigger] s[k] != '#';
    assert(s.take(m) == line.take(m));
    assert forall|k: int| 0 <= k < m implies #[trigger] line[k] != ';' && line[k] != '#' by {
        assert(s[k] == line[k]);
    }
}

/// Words with a comma in them go, and the others stay in their order.
pub proof fn law_comma_free(words: Seq<Seq<char>>, word: Seq<char>)
    ensures
        comma_free(Seq::empty()).len() == 0,
        comma_free(words.push(word)) == if word.contains(',') {
            comma_free(words)
        } else {
            comma_free(words).push(word)
        },
    decreases words.len(),
{
    let all = words.push(word);
    if words.len() > 0 {
        law_comma_free(words.drop_first(), word);
        assert(all.drop_first() == words.drop_first().push(word));
        assert(all[0] == words[0]);
    } else {
        assert(all.drop_first() == Seq::<Seq<char>>::empty());
        assert(comma_free(all.drop_first()).len() == 0);
        assert(comma_free(words) == Seq::<Seq<char>>::empty());
        assert(comma_free(all) == if word.contains(',') {
            Seq::empty()
        } else {
            seq![word]
        });
    }
}

/// Whether the word `search` stands at `n` in a line, with white space at most before it, and white
/// space, a comment or nothing behind.
spec fn search_at(line: Seq<char>, n: int) -> bool {
    0 <= n && n + 6 <= line.len() && line.subrange(n, n + 6) == seq!['s', 'e', 'a', 'r', 'c', 'h']
        && (forall|k: int| 0 <= k < n ==> white_space(#[trigger] line[k])) && (n + 6 == line.len()
        || white_space(line[n + 6]) || line[n + 6] == ';' || line[n + 6] == '#')
}

/// A `search` directive has the word.
proof fn lemma_search_found(line: Seq<char>) -> (n: int)
    requires
        line_search(line) is Some,
    ensures
        search_at(line, n),
{
    reveal_strlit("search");
    assert("search"@ == seq!['s', 'e', 'a', 'r', 'c', 'h']);
    law_directive(line);
    let m = choose|m: int|
        0 <= m <= line.len() && directive(line) == words(#[trigger] line.take(m)) && (m < line.len()
            ==> line[m] == ';' || line[m] == '#') && forall|k: int|
            0 <= k < m ==> #[trigger] line[k] != ';' && line[k] != '#';
    let p = line.take(m);
    law_trim_start(p);
    let t = trim_start_of(p);
    let n = choose|i: int|
        0 <= i <= p.len() && t == #[trigger] p.skip(i) && (i < p.len() ==> !white_space(p[i]))
            && forall|k: int| 0 <= k < i ==> white_space(#[trigger] p[k]);
    lemma_word_len(t);
    lemma_word_end(t);
    let w = word_len(t) as int;
    assert(words(p)[0] == t.take(w));
    assert(t.take(w).len() == 6);
    assert(line.subrange(n, n + 6) == t.take(6));
    assert forall|k: int| 0 <= k < n implies white_space(#[trigger] line[k]) by {
        assert(line[k] == p[k]);
    }
    if n + 6 < line.len() && n + 6 < m {
        assert(line[n + 6] == t[6]);
    }
    n
}

/// A line that has the word is a `search` directive.
proof fn lemma_search_made(line: Seq<char>, i: int)
    requires
        search_at(line, i),
    ensures
        line_search(line) is Some,
{
    reveal_strlit("search");
    let search = seq!['s', 'e', 'a', 'r', 'c', 'h'];
    assert("search"@ == search);
    law_directive(line);
    let m = choose|m: int|
        0 <= m <= line.len() && directive(line) == words(#[trigger] line.take(m)) && (m < line.len()
            ==> line[m] == ';' || line[m] == '#') && forall|k: int|
            0 <= k < m ==> #[trigger] line[k] != ';' && line[k] != '#';
    let p = line.take(m);
    let sub = line.subrange(i, i + 6);
    assert(m >= i + 6) by {
        if m < i {
            assert(white_space(line[m]));
        } else if m < i + 6 {
            assert(line[m] == sub[m - i]);
        }
    }
    let lead = p.take(i);
    let tail = p.skip(i + 6);
    assert(p.subrange(i, i + 6) == sub);
    assert(p == lead + (p.subrange(i, i + 6) + tail));
    assert(tail.len() > 0 ==> tail[0] == line[i + 6]);
    assert forall|k: int| 0 <= k < lead.len() implies white_space(#[trigger] lead[k]) by {
        assert(lead[k] == line[k]);
    }
    law_words(lead, search, tail);
    assert(directive(line)[0] == search);
}

/// A line is a `search` directive just where white space at most stands before the word `search`,
/// and white space, a comment or nothing follows it.
pub proof fn law_search_directive_line(line: Seq<char>)
    ensures
        line_search(line) is Some <==> exists|n: int|
            0 <= n && n + 6 <= line.len() && #[trigger] line.subrange(n, n + 6) == seq![
                's',
                'e',
                'a',
                'r',
                'c',
                'h',
            ] && (forall|k: int| 0 <= k < n ==> white_space(#[trigger] line[k])) && (n + 6
                == line.len() || white_space(line[n + 6]) || line[n + 6] == ';' || line[n + 6]
                == '#'),
        line_search(line) matches Some(domains) ==> domains == comma_free(
            directive(line).drop_first(),
        ),
{
    if line_search(line) is Some {
        let n = lemma_search_found(line);
        assert(line.subrange(n, n + 6) == seq!['s', 'e', 'a', 'r', 'c', 'h']);
    } else {
        let word = seq!['s', 'e', 'a', 'r', 'c', 'h'];
        if exists|n: int|
            0 <= n && n + 6 <= line.len() && #[trigger] line.subrange(n, n + 6) == word && (forall|
                k: int,
            |
                0 <= k < n ==> white_space(#[trigger] line[k])) && (n + 6 == line.len()
                || white_space(line[n + 6]) || line[n + 6] == ';' || line[n + 6] == '#') {
            let n = choose|n: int|
                0 <= n && n + 6 <= line.len() && #[trigger] line.subrange(n, n + 6) == word && (forall|
                k: int,
            |
                0 <= k < n ==> white_space(#[trigger] line[k])) && (n + 6 == line.len()
                || white_space(line[n + 6]) || line[n + 6] == ';' || line[n + 6] == '#');
            lemma_search_made(line, n);
        }
    }
}

/// The last `search` directive counts: a line that is one, with none behind it, sets the domains,
/// and where no line is one none are set.
pub proof fn law_last_search_counts(text: Seq<char>, i: int, j: int)
    ensures
        line_at(text, i, j) && line_search(text.subrange(i, j)) is Some && (forall|a: int, b: int|
            a > i && line_at(text, a, b) ==> line_search(#[trigger] text.subrange(a, b)) is None)
            ==> search_directive(text) == line_search(text.subrange(i, j)),
        (forall|a: int, b: int|
            line_at(text, a, b) ==> line_search(#[trigger] text.subrange(a, b)) is None)
            ==> search_directive(text) is None,
    decreases text.len(),
{
    if text.len() > 0 {
        lemma_line_len(text);
        let first = first_line(text);
        let rest = after_line(text);
        let bare = without_feed(first);
        let n = first.len() as int;
        law_first_line(text);
        law_line_at_start(text, bare.len() as int);
        if first.last() == '\n' {
            assert(first == bare.push('\n'));
            lemma_directive_fed(bare);
        }
        assert(line_search(first) == line_search(bare));
        if line_at(text, i, j) && line_search(text.subrange(i, j)) is Some && forall|a: int, b: int|
            a > i && line_at(text, a, b) ==> line_search(#[trigger] text.subrange(a, b)) is None {
            if i > 0 {
                law_line_further_on(text, i, j);
                assert forall|a: int, b: int| a > i - n && line_at(rest, a, b) implies line_search(
                    #[trigger] rest.subrange(a, b),
                ) is None by {
                    if rest.len() > 0 {
                        law_line_of_rest(text, a, b);
                        assert(line_search(text.subrange(a + n, b + n)) is None);
                    }
                }
                law_last_search_counts(rest, i - n, j - n);
                if rest.len() == 0 {
                    lemma_empty_line(text.subrange(i, j));
                }
            } else {
                law_line_at_start(text, j);
                assert forall|a: int, b: int| line_at(rest, a, b) implies line_search(
                    #[trigger] rest.subrange(a, b),
                ) is None by {
                    if rest.len() > 0 {
                        law_line_of_rest(text, a, b);
                        assert(line_search(text.subrange(a + n, b + n)) is None);
                    } else {
                        lemma_empty_line(rest.subrange(a, b));
                    }
                }
                law_last_search_counts(rest, 0, 0);
            }
        }
        if forall|a: int, b: int|
            line_at(text, a, b) ==> line_search(#[trigger] text.subrange(a, b)) is None {
            assert(line_search(text.subrange(0, bare.len() as int)) is None);
            assert forall|a: int, b: int| line_at(rest, a, b) implies line_search(
                #[trigger] rest.subrange(a, b),
            ) is None by {
                if rest.len() > 0 {
                    law_line_of_rest(text, a, b);
                    assert(line_search(text.subrange(a + n, b + n)) is None);
                } else {
                    lemma_empty_line(rest.subrange(a, b));
                }
            }
            law_last_search_counts(rest, 0, 0);
        }
    } else if line_at(text, i, j) {
        lemma_empty_line(text.subrange(i, j));
    }
}

/// An empty line is no directive.
proof fn lemma_empty_line(line: Seq<char>)
    ensures
        line.len() == 0 ==> line_search(line) is None,
{
    if line.len() == 0 {
        assert(directive(line).len() == 0);
    }
}

/// Name servers are listed line by line: a line whose first word is `nameserver` lists the address
/// in its second word.
pub proof fn law_listed_servers(line: Seq<char>, rest: Seq<char>)
    requires
        !line.contains('\n'),
    ensures
        listed_servers(line.push('\n') + rest) == if directive(line).len() > 1 && directive(line)[0]
            == "nameserver"@ {
            seq![scoped_ip(directive(line)[1])] + listed_servers(rest)
        } else {
            listed_servers(rest)
        },
        listed_servers(Seq::empty()).len() == 0,
{
    let fed = line.push('\n');
    assert forall|i: int| 0 <= i < fed.len() - 1 implies fed[i] != '\n' by {
        assert(line.contains(line[i]));
    }
    lemma_line_concat(fed, rest);
    lemma_directive_fed(line);
}

/// An address is what stands before a `%`, and what stands behind it, up to another, is its scope.
pub proof fn law_scoped_ip(ip: Seq<char>, scope: Seq<char>, more: Seq<char>)
    requires
        !ip.contains('%'),
        !scope.contains('%'),
        ip_from_text(ip) is Some,
    ensures
        scoped_ip(ip) == (ScopedIpView { addr: ip_from_text(ip)->0, scope: None }),
        scoped_ip(ip.push('%') + scope) == (ScopedIpView {
            addr: ip_from_text(ip)->0,
            scope: Some(scope),
        }),
        scoped_ip(ip.push('%') + scope.push('%') + more) == (ScopedIpView {
            addr: ip_from_text(ip)->0,
            scope: Some(scope),
        }),
{
    assert forall|i: int| 0 <= i < ip.len() implies ip[i] != '%' by {
        assert(ip.contains(ip[i]));
    }
    assert forall|i: int| 0 <= i < scope.len() implies scope[i] != '%' by {
        assert(scope.contains(scope[i]));
    }
    lemma_before(ip, Seq::empty(), '%');
    assert(ip + Seq::<char>::empty() == ip);
    let one = ip.push('%') + scope;
    assert(one == ip + (seq!['%'] + scope));
    lemma_before(ip, seq!['%'] + scope, '%');
    assert(one[ip.len() as int] == '%');
    assert(one.skip(ip.len() as int + 1) == scope + Seq::<char>::empty());
    lemma_before(scope, Seq::empty(), '%');
    assert(scope + Seq::<char>::empty() == scope);
    let two = ip.push('%') + scope.push('%') + more;
    assert(two == ip + (seq!['%'] + scope.push('%') + more));
    lemma_before(ip, seq!['%'] + scope.push('%') + more, '%');
    assert(two[ip.len() as int] == '%');
    assert(two.skip(ip.len() as int + 1) == scope + (seq!['%'] + more));
    lemma_before(scope, seq!['%'] + more, '%');
}

/// A text is cut where the first of the characters stands.
proof fn lemma_before(s: Seq<char>, tail: Seq<char>, c: char)
    requires
        forall|i: int| 0 <= i < s.len() ==> s[i] != c,
        tail.len() == 0 || tail[0] == c,
    ensures
        before_first(s + tail, c) == s,
    decreases s.len(),
{
    if s.len() > 0 {
        assert((s + tail)[0] == s[0]);
        assert((s + tail).drop_first() == s.drop_first() + tail);
        lemma_before(s.drop_first(), tail, c);
        assert(seq![s[0]] + s.drop_first() == s);
    } else {
        assert(s + tail == tail);
    }
}

/// A usable configuration is waited for 30 seconds, and looked for every tenth of a second, the
/// last time at the end of the 30.
pub proof fn law_waiting(elapsed: int)
    ensures
        RESOLV_RETRY_TIMEOUT == 30_000_000_000,
        RESOLV_RETRY_INTERVAL == 100_000_000,
        0 <= elapsed <= 29_900_000_000 ==> pause(elapsed) == 100_000_000,
        29_900_000_000 < elapsed < 30_000_000_000 ==> elapsed + pause(elapsed) == 30_000_000_000,
{
}

/// What is used of a configuration: the usable name servers and the search domains that it lists,
/// and all of its bytes.
pub proof fn law_states(bytes: Seq<u8>, data: ResolvData)
    ensures
        states(bytes, data) <==> (resolv_contents(bytes) matches Some(said) && data.nameservers@
            == usable(said.nameservers) && texts_of(data.search_domains@) == (match said.search {
            Some(domains) => domains,
            None => Seq::empty(),
        }) && data.bytes@ == bytes),
{
}

/// A configuration is usable just where it could be read, parses and lists a usable name server;
/// what is wrong with another is the first of these that does not hold.
pub proof fn law_usable_content(content: Option<Seq<u8>>, failure: ResolvFailure)
    ensures
        usable_content(content) <==> (content matches Some(bytes) && (resolv_contents(
            bytes,
        ) matches Some(said) && usable(said.nameservers).len() > 0)),
        explains(content, failure) <==> match content {
            None => failure is Unreadable,
            Some(bytes) => match resolv_contents(bytes) {
                None => failure is Invalid,
                Some(said) => failure is NoNameservers && usable(said.nameservers).len() == 0,
            },
        },
{
}

/// One more entry adds a usable name server just where it carries no scope and no entry before it
/// lists the same address without one.
pub proof fn law_one_more_server(ips: Seq<ScopedIpView>, last: ScopedIpView)
    ensures
        usable(Seq::empty()).len() == 0,
        last.scope is None && (forall|k: int|
            0 <= k < ips.len() ==> (#[trigger] ips[k]).scope is Some || ips[k].addr != last.addr)
            ==> usable(ips.push(last)) == usable(ips).push(last.addr),
        last.scope is Some || (exists|k: int|
            0 <= k < ips.len() && (#[trigger] ips[k]).scope is None && ips[k].addr == last.addr)
            ==> usable(ips.push(last)) == usable(ips),
{
    law_usable_nameservers(ips);
    assert(ips.push(last).drop_last() == ips);
    assert(usable(ips).contains(last.addr) <==> listed(ips, last.addr));
}

} // verus!
