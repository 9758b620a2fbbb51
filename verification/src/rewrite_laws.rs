//! What putting search domains into a resolver configuration comes to, line by line, and when it is
//! done.

use vstd::prelude::*;
use vstd::utf8::{decode_utf8, valid_utf8};

use crate::resolv::{directive, line_search, resolv_contents, search_directive, search_or_none};
use crate::search::{
    has_search_line, line_content, line_ending, rewritten, rewritten_line, rewritten_lines,
    search_change, search_text, search_update, spaced, SearchUpdate,
};
use crate::search_laws::{
    is_line, law_update_then_read, lemma_directive_fed, lemma_line_concat, plain_words,
};
use crate::text::{after_line, first_line, lemma_line_len, without_feed};
use crate::text_laws::{
    law_first_line, law_line_at_start, law_line_further_on, law_line_of_rest, line_at,
};

verus! {

/// Another domain comes behind a space.
proof fn lemma_spaced(domains: Seq<Seq<char>>, domain: Seq<char>)
    ensures
        spaced(domains.push(domain)) == spaced(domains) + (seq![' '] + domain),
    decreases domains.len(),
{
    let all = domains.push(domain);
    if domains.len() > 0 {
        lemma_spaced(domains.drop_first(), domain);
        assert(all.drop_first() == domains.drop_first().push(domain));
        assert(all[0] == domains[0]);
        assert(spaced(all) == spaced(domains) + (seq![' '] + domain));
    } else {
        assert(all.drop_first() == Seq::<Seq<char>>::empty());
        assert(spaced(all.drop_first()) == Seq::<char>::empty());
        assert(spaced(all) == seq![' '] + domain);
    }
}

/// The directive is the word `search` and every domain, in order, each behind one space.
pub proof fn law_search_text(domains: Seq<Seq<char>>, domain: Seq<char>)
    ensures
        search_text(Seq::empty()) == seq!['s', 'e', 'a', 'r', 'c', 'h'],
        search_text(domains.push(domain)) == search_text(domains) + (seq![' '] + domain),
{
    reveal_strlit("search");
    lemma_spaced(domains, domain);
    assert(search_text(domains.push(domain)) == search_text(domains) + (seq![' '] + domain));
    assert(search_text(Seq::empty()) == seq!['s', 'e', 'a', 'r', 'c', 'h']);
}

/// What becomes of a line. One that is no `search` directive stays. One that is goes where no
/// domains are wanted, and otherwise becomes the wanted directive; how it ends, in a line feed, a
/// carriage return before one, a carriage return alone or neither, stays.
pub proof fn law_rewritten_line(body: Seq<char>, domains: Seq<Seq<char>>)
    requires
        body.len() > 0 ==> body.last() != '\n' && body.last() != '\r',
    ensures
        ({
            let endings = seq![seq![], seq!['\r'], seq!['\n'], seq!['\r', '\n']];
            forall|i: int|
                0 <= i < 4 ==> {
                    let line = body + #[trigger] endings[i];
                    rewritten_line(line, domains) == if line_search(line) is None {
                        line
                    } else if domains.len() == 0 {
                        Seq::empty()
                    } else {
                        search_text(domains) + endings[i]
                    }
                }
        }),
{
    let endings = seq![seq![], seq!['\r'], seq!['\n'], seq!['\r', '\n']];
    assert forall|i: int| 0 <= i < 4 implies {
        let line = body + #[trigger] endings[i];
        rewritten_line(line, domains) == if line_search(line) is None {
            line
        } else if domains.len() == 0 {
            Seq::empty()
        } else {
            search_text(domains) + endings[i]
        }
    } by {
        let line = body + endings[i];
        assert(line_content(line) == body) by {
            if i == 0 {
                assert(line == body);
            } else if i == 1 {
                assert(line.last() == '\r');
                assert(line.drop_last() == body);
            } else if i == 2 {
                assert(line.last() == '\n');
                assert(line.drop_last() == body);
            } else {
                assert(line.last() == '\n');
                assert(line.drop_last().last() == '\r');
                assert(line.drop_last().drop_last() == body);
            }
        }
        assert(line_ending(line) == endings[i]);
    }
}

/// A configuration is rewritten line by line, and each line for itself.
pub proof fn law_line_by_line(line: Seq<char>, rest: Seq<char>, domains: Seq<Seq<char>>)
    requires
        !line.contains('\n'),
    ensures
        rewritten_lines(line.push('\n') + rest, domains) == rewritten_line(line.push('\n'), domains)
            + rewritten_lines(rest, domains),
        line.len() > 0 ==> rewritten_lines(line, domains) == rewritten_line(line, domains),
        rewritten_lines(Seq::empty(), domains).len() == 0,
{
    let fed = line.push('\n');
    assert forall|i: int| 0 <= i < line.len() implies line[i] != '\n' by {
        assert(line.contains(line[i]));
    }
    assert(is_line(fed));
    lemma_line_concat(fed, rest);
    assert((fed + rest).len() > 0);
    if line.len() > 0 {
        assert(is_line(line));
        lemma_line_concat(line, Seq::empty());
        assert(line + Seq::<char>::empty() == line);
        assert(rewritten_lines(after_line(line), domains) == Seq::<char>::empty());
        assert(rewritten_lines(line, domains) == rewritten_line(line, domains) + rewritten_lines(
            after_line(line),
            domains,
        ));
    }
}

/// A configuration has a line that sets the search domains just where one of its lines is a
/// `search` directive.
proof fn lemma_has_search_line(text: Seq<char>)
    ensures
        has_search_line(text) <==> exists|i: int, j: int|
            line_at(text, i, j) && line_search(#[trigger] text.subrange(i, j)) is Some,
    decreases text.len(),
{
    if text.len() > 0 {
        lemma_line_len(text);
        let first = first_line(text);
        let rest = after_line(text);
        let bare = without_feed(first);
        let n = first.len() as int;
        law_first_line(text);
        law_line_at_start(text, bare.len() as int);
        lemma_has_search_line(rest);
        if first.last() == '\n' {
            assert(first == bare.push('\n'));
            lemma_directive_fed(bare);
        }
        assert(line_search(first) == line_search(bare));
        if line_search(first) is Some {
            assert(line_search(text.subrange(0, bare.len() as int)) is Some);
        }
        if has_search_line(rest) {
            let (i, j) = choose|i: int, j: int|
                line_at(rest, i, j) && line_search(#[trigger] rest.subrange(i, j)) is Some;
            if rest.len() == 0 {
                assert(false);
            }
            law_line_of_rest(text, i, j);
            assert(line_search(text.subrange(i + n, j + n)) is Some);
        }
        if exists|i: int, j: int|
            line_at(text, i, j) && line_search(#[trigger] text.subrange(i, j)) is Some {
            let (i, j) = choose|i: int, j: int|
                line_at(text, i, j) && line_search(#[trigger] text.subrange(i, j)) is Some;
            if i == 0 {
                law_line_at_start(text, j);
            } else {
                law_line_further_on(text, i, j);
                assert(line_search(rest.subrange(i - n, j - n)) is Some);
            }
        }
    } else {
        assert forall|i: int, j: int| line_at(text, i, j) implies line_search(
            #[trigger] text.subrange(i, j),
        ) is None by {
            let line = text.subrange(i, j);
            assert(line.len() == 0);
            assert(directive(line).len() == 0);
        }
    }
}

/// What a configuration becomes: its lines, rewritten one by one; and where none of them is a
/// `search` directive and domains are wanted, the configuration as it is, with its last line
/// completed, and the wanted directive as a line of its own.
pub proof fn law_rewritten(text: Seq<char>, domains: Seq<Seq<char>>)
    ensures
        (domains.len() == 0 || exists|i: int, j: int|
            line_at(text, i, j) && line_search(#[trigger] text.subrange(i, j)) is Some) ==> rewritten(
            text,
            domains,
        ) == rewritten_lines(text, domains),
        domains.len() > 0 && (forall|i: int, j: int|
            line_at(text, i, j) ==> line_search(#[trigger] text.subrange(i, j)) is None)
            ==> rewritten(text, domains) == (if text.len() == 0 || text.last() == '\n' {
            text
        } else {
            text.push('\n')
        }) + search_text(domains) + seq!['\n'],
{
    lemma_has_search_line(text);
    if domains.len() > 0 && forall|i: int, j: int|
        line_at(text, i, j) ==> line_search(#[trigger] text.subrange(i, j)) is None {
        assert(!has_search_line(text));
        lemma_untouched(text, domains);
    }
}

/// Without a `search` directive the lines stay.
proof fn lemma_untouched(text: Seq<char>, domains: Seq<Seq<char>>)
    requires
        !has_search_line(text),
    ensures
        rewritten_lines(text, domains) == text,
    decreases text.len(),
{
    if text.len() > 0 {
        lemma_line_len(text);
        law_first_line(text);
        lemma_untouched(after_line(text), domains);
    } else {
        assert(rewritten_lines(text, domains) == text);
    }
}

/// When a configuration is replaced: not where it sets the wanted domains; and otherwise, where it
/// is UTF-8, just where rewriting it makes a difference, by what rewriting makes of it.
pub proof fn law_search_change(
    bytes: Seq<u8>,
    current: Seq<Seq<char>>,
    domains: Seq<Seq<char>>,
    text: Seq<char>,
)
    requires
        valid_utf8(bytes) ==> text == decode_utf8(bytes),
    ensures
        search_change(bytes, current, domains) is NotUtf8 <==> current != domains && !valid_utf8(
            bytes,
        ),
        search_change(bytes, current, domains) == SearchUpdate::Replaced(rewritten(text, domains))
            <==> current != domains && valid_utf8(bytes) && rewritten(text, domains) != text,
        search_change(bytes, current, domains) is Unchanged <==> current == domains || (valid_utf8(
            bytes,
        ) && rewritten(text, domains) == text),
        !(search_change(bytes, current, domains) is Invalid),
        search_update(bytes, domains) is Invalid <==> resolv_contents(bytes) is None,
        resolv_contents(bytes) matches Some(said) ==> search_update(bytes, domains)
            == search_change(
            bytes,
            match said.search {
                Some(set) => set,
                None => Seq::empty(),
            },
            domains,
        ),
{
}

/// An update that leaves a configuration as it is leaves one that sets the wanted domains, and none
/// besides: reading it gives just those.
pub proof fn law_unchanged_is_as_wanted(
    bytes: Seq<u8>,
    current: Seq<Seq<char>>,
    domains: Seq<Seq<char>>,
)
    requires
        plain_words(domains),
        valid_utf8(bytes),
        current == search_or_none(search_directive(decode_utf8(bytes))),
        search_change(bytes, current, domains) is Unchanged,
    ensures
        search_or_none(search_directive(decode_utf8(bytes))) == domains,
{
    law_update_then_read(decode_utf8(bytes), domains);
}

/// Whatever an update comes to, the configuration that is in place behind it sets the wanted
/// domains, unless it is refused.
pub proof fn law_update_sets_the_domains(
    bytes: Seq<u8>,
    domains: Seq<Seq<char>>,
    after: Seq<char>,
)
    requires
        plain_words(domains),
        valid_utf8(bytes),
        resolv_contents(bytes) is Some,
        resolv_contents(bytes)->0.search == search_directive(decode_utf8(bytes)),
        match search_update(bytes, domains) {
            SearchUpdate::Unchanged => after == decode_utf8(bytes),
            SearchUpdate::Replaced(text) => after == text,
            _ => true,
        },
    ensures
        search_update(bytes, domains) is Unchanged || search_update(bytes, domains) is Replaced,
        search_or_none(search_directive(after)) == domains,
{
    law_update_then_read(decode_utf8(bytes), domains);
}

} // verus!
