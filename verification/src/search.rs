//! Search domains: putting them into a resolver configuration that has other things to say.

use vstd::prelude::*;
use vstd::slice::slice_subrange;
use vstd::utf8::{decode_utf8, valid_utf8};

use crate::order::{same_texts, texts_of};
use crate::resolv::{
    directive, line_search, lines_parse, read_resolv_conf_once, resolv_contents, search_directive,
    search_or_none, word_len, words,
};
use crate::text::{
    after_line, before_char, chars_of, first_line, first_line_len, is_white_space, lemma_line_len,
    trim_start, without_feed,
};

verus! {

/// Whether bytes are no UTF-8, and where.
#[verifier::external_type_specification]
#[verifier::external_body]
pub struct ExFromUtf8Error(std::string::FromUtf8Error);

/// Decodes bytes: `String::from_utf8`, of which it is claimed that it succeeds just on valid
/// UTF-8, and gives the text that the bytes encode.
pub assume_specification[ String::from_utf8 ](vec: Vec<u8>) -> (r: Result<
    String,
    std::string::FromUtf8Error,
>)
    ensures
        match r {
            Ok(s) => valid_utf8(vec@) && s@ == decode_utf8(vec@),
            Err(_) => !valid_utf8(vec@),
        },
;

/// Why search domains could not be put into a configuration.
#[derive(Debug)]
pub enum SearchError {
    /// The configuration does not parse.
    Invalid(resolv_conf::ParseError),
    /// The configuration is not UTF-8.
    NotUtf8(std::string::FromUtf8Error),
}

/// `line` without its line feed and the carriage return before it.
pub open spec fn line_content(line: Seq<char>) -> Seq<char> {
    let line = without_feed(line);
    if line.len() > 0 && line.last() == '\r' {
        line.drop_last()
    } else {
        line
    }
}

/// What ends `line`: a line feed, a carriage return before it, either, or neither.
pub open spec fn line_ending(line: Seq<char>) -> Seq<char> {
    line.skip(line_content(line).len() as int)
}

/// Whether a line sets the search domains: comments aside, its first word is `search`.
pub open spec fn is_search_line(line: Seq<char>) -> bool {
    line_search(line) is Some
}

/// Each domain with a space before it.
pub open spec fn spaced(domains: Seq<Seq<char>>) -> Seq<char>
    decreases domains.len(),
{
    if domains.len() == 0 {
        Seq::empty()
    } else {
        seq![' '] + domains[0] + spaced(domains.drop_first())
    }
}

/// The directive that sets the search domains.
pub open spec fn search_text(domains: Seq<Seq<char>>) -> Seq<char> {
    "search"@ + spaced(domains)
}

/// What becomes of one line: a line that sets the search domains sets the wanted ones, with the
/// ending that it had, or vanishes where none are wanted. Other lines stay.
pub open spec fn rewritten_line(line: Seq<char>, domains: Seq<Seq<char>>) -> Seq<char> {
    if !is_search_line(line) {
        line
    } else if domains.len() == 0 {
        Seq::empty()
    } else {
        search_text(domains) + line_ending(line)
    }
}

/// What becomes of the lines of a configuration.
pub open spec fn rewritten_lines(text: Seq<char>, domains: Seq<Seq<char>>) -> Seq<char>
    decreases text.len(),
{
    if text.len() == 0 {
        Seq::empty()
    } else {
        let rest = {
            proof {
                lemma_line_len(text);
            }
            rewritten_lines(after_line(text), domains)
        };
        rewritten_line(first_line(text), domains) + rest
    }
}

/// Whether a configuration has a line that sets the search domains.
pub open spec fn has_search_line(text: Seq<char>) -> bool
    decreases text.len(),
{
    if text.len() == 0 {
        false
    } else {
        let rest = {
            proof {
                lemma_line_len(text);
            }
            has_search_line(after_line(text))
        };
        is_search_line(first_line(text)) || rest
    }
}

/// `text` with a line feed at its end, unless it has one or is empty.
pub open spec fn fed(text: Seq<char>) -> Seq<char> {
    if text.len() > 0 && text.last() != '\n' {
        text.push('\n')
    } else {
        text
    }
}

/// A configuration with the wanted search domains. Where no line sets any, one is added at the
/// end.
pub open spec fn rewritten(text: Seq<char>, domains: Seq<Seq<char>>) -> Seq<char> {
    let lines = rewritten_lines(text, domains);
    if has_search_line(text) || domains.len() == 0 {
        lines
    } else {
        fed(lines) + search_text(domains) + seq!['\n']
    }
}

/// What an update of the search domains comes to.
pub enum SearchUpdate {
    /// The configuration does not parse.
    Invalid,
    /// The configuration is not UTF-8.
    NotUtf8,
    /// The configuration stays as it is.
    Unchanged,
    /// The configuration is replaced.
    Replaced(Seq<char>),
}

/// What an update of the search domains comes to, for a configuration that sets `current`.
pub open spec fn search_change(
    bytes: Seq<u8>,
    current: Seq<Seq<char>>,
    domains: Seq<Seq<char>>,
) -> SearchUpdate {
    if current == domains {
        SearchUpdate::Unchanged
    } else if !valid_utf8(bytes) {
        SearchUpdate::NotUtf8
    } else {
        let text = decode_utf8(bytes);
        if rewritten(text, domains) == text {
            SearchUpdate::Unchanged
        } else {
            SearchUpdate::Replaced(rewritten(text, domains))
        }
    }
}

/// What an update of the search domains comes to.
pub open spec fn search_update(bytes: Seq<u8>, domains: Seq<Seq<char>>) -> SearchUpdate {
    match resolv_contents(bytes) {
        None => SearchUpdate::Invalid,
        Some(contents) => search_change(bytes, search_or_none(contents.search), domains),
    }
}

/// The outcome of an update, as a mathematical value.
pub open spec fn update_result(r: Result<Option<String>, SearchError>) -> SearchUpdate {
    match r {
        Err(SearchError::Invalid(_)) => SearchUpdate::Invalid,
        Err(SearchError::NotUtf8(_)) => SearchUpdate::NotUtf8,
        Ok(None) => SearchUpdate::Unchanged,
        Ok(Some(s)) => SearchUpdate::Replaced(s@),
    }
}

/// Appends characters.
fn push_chars(out: &mut String, chars: &[char])
    ensures
        final(out)@ == old(out)@ + chars@,
{
    let mut i: usize = 0;
    while i < chars.len()
        invariant
            i <= chars@.len(),
            out@ == old(out)@ + chars@.take(i as int),
        decreases chars@.len() - i,
    {
        out.push(chars[i]);
        assert(chars@.take(i + 1) == chars@.take(i as int).push(chars@[i as int]));
        i += 1;
    }
    assert(chars@.take(i as int) == chars@);
}

/// Whether two slices hold the same characters.
fn same_chars(a: &[char], b: &[char]) -> (r: bool)
    ensures
        r == (a@ == b@),
{
    if a.len() != b.len() {
        return false;
    }
    let mut i: usize = 0;
    while i < a.len()
        invariant
            a@.len() == b@.len(),
            i <= a@.len(),
            forall|k: int| 0 <= k < i ==> a@[k] == b@[k],
        decreases a@.len() - i,
    {
        if a[i] != b[i] {
            return false;
        }
        i += 1;
    }
    assert(a@ == b@);
    true
}

/// The length of the leading part of `s` that holds no white space.
fn first_word_len(s: &[char]) -> (r: usize)
    ensures
        r == word_len(s@),
        r <= s@.len(),
{
    let mut i: usize = 0;
    assert(s@.skip(0) == s@);
    while i < s.len() && !is_white_space(s[i])
        invariant
            i <= s@.len(),
            word_len(s@) == i + word_len(s@.skip(i as int)),
        decreases s@.len() - i,
    {
        assert(s@.skip(i as int).drop_first() == s@.skip(i + 1));
        i += 1;
    }
    i
}

/// The length of a line without its line feed and the carriage return before it.
fn content_len(line: &[char]) -> (r: usize)
    ensures
        r == line_content(line@).len(),
        r <= line@.len(),
        line@.take(r as int) == line_content(line@),
{
    let mut n: usize = line.len();
    if n > 0 && line[n - 1] == '\n' {
        n -= 1;
    }
    assert(line@.take(n as int) == without_feed(line@));
    if n > 0 && line[n - 1] == '\r' {
        n -= 1;
    }
    assert(line@.take(n as int) == line_content(line@));
    n
}

/// Whether a line sets the search domains.
fn sets_search(line: &[char]) -> (r: bool)
    ensures
        r == is_search_line(line@),
{
    let text = trim_start(before_char(before_char(line, ';'), '#'));
    let n: usize = first_word_len(text);
    let word = slice_subrange(text, 0, n);
    assert(word@ == text@.take(n as int));
    let keyword = chars_of("search");
    proof {
        reveal_strlit("search");
        let w = directive(line@);
        if text@.len() == 0 {
            assert(w.len() == 0);
            assert(word@.len() != "search"@.len());
        } else {
            assert(w == seq![word@] + words(text@.skip(n as int)));
            assert(w[0] == word@);
        }
    }
    same_chars(word, keyword.as_slice())
}

/// The directive that sets the search domains.
fn search_line(domains: &[String]) -> (r: String)
    ensures
        r@ == search_text(texts_of(domains@)),
{
    let ghost texts = texts_of(domains@);
    let mut r = "search".to_owned();
    let mut i: usize = 0;
    assert(texts.skip(0) == texts);
    while i < domains.len()
        invariant
            i <= domains@.len(),
            texts == texts_of(domains@),
            search_text(texts) == r@ + spaced(texts.skip(i as int)),
        decreases domains@.len() - i,
    {
        assert(texts.skip(i as int).drop_first() == texts.skip(i + 1));
        assert(texts.skip(i as int)[0] == domains@[i as int]@);
        let ghost before = r@;
        r.push(' ');
        r.append(domains[i].as_str());
        assert(r@ == before + (seq![' '] + domains@[i as int]@));
        i += 1;
    }
    r
}

/// Puts the wanted search domains into a configuration, and leaves everything else in it alone.
pub fn rewrite_search(text: &str, search_domains: &[String]) -> (r: String)
    ensures
        r@ == rewritten(text@, texts_of(search_domains@)),
{
    let ghost domains = texts_of(search_domains@);
    let chars = chars_of(text);
    let replacement = search_line(search_domains);
    let mut output = String::new();
    let mut replaced = false;
    let mut rest: &[char] = chars.as_slice();
    assert(output@ + rewritten_lines(rest@, domains) == rewritten_lines(text@, domains));
    while rest.len() > 0
        invariant
            domains == texts_of(search_domains@),
            replacement@ == search_text(domains),
            output@ + rewritten_lines(rest@, domains) == rewritten_lines(text@, domains),
            has_search_line(text@) == (replaced || has_search_line(rest@)),
        decreases rest@.len(),
    {
        let n: usize = first_line_len(rest);
        let line = slice_subrange(rest, 0, n);
        let next = slice_subrange(rest, n, rest.len());
        assert(line@ == first_line(rest@));
        assert(next@ == after_line(rest@));
        let ghost before = output@;
        if sets_search(line) {
            replaced = true;
            if search_domains.len() > 0 {
                output.append(replacement.as_str());
                let m: usize = content_len(line);
                let ending = slice_subrange(line, m, line.len());
                assert(ending@ == line_ending(line@));
                push_chars(&mut output, ending);
            }
        } else {
            push_chars(&mut output, line);
        }
        assert(output@ == before + rewritten_line(line@, domains));
        assert(output@ + rewritten_lines(next@, domains) == before + (rewritten_line(line@, domains)
            + rewritten_lines(next@, domains)));
        rest = next;
    }
    assert(output@ == rewritten_lines(text@, domains));
    if !replaced && search_domains.len() > 0 {
        let written = chars_of(output.as_str());
        if written.len() > 0 && written[written.len() - 1] != '\n' {
            output.push('\n');
        }
        assert(output@ == fed(rewritten_lines(text@, domains)));
        output.append(replacement.as_str());
        output.push('\n');
        assert(output@ == rewritten(text@, domains));
    }
    output
}

/// What to put in place of a configuration that sets the domains `current`, so that it sets the
/// wanted ones: nothing where it stays as it is.
pub fn change_search_domains(data: Vec<u8>, current: &[String], search_domains: &[String]) -> (r: Result<
    Option<String>,
    SearchError,
>)
    ensures
        update_result(r) == search_change(data@, texts_of(current@), texts_of(search_domains@)),
{
    if same_texts(current, search_domains) {
        return Ok(None);
    }
    let text = match String::from_utf8(data) {
        Ok(text) => text,
        Err(e) => return Err(SearchError::NotUtf8(e)),
    };
    let output = rewrite_search(text.as_str(), search_domains);
    if output == text {
        Ok(None)
    } else {
        Ok(Some(output))
    }
}

/// What to put in place of a configuration so that it sets the wanted search domains: nothing
/// where it stays as it is.
pub fn update_search_domains(data: Vec<u8>, search_domains: &[String]) -> (r: Result<
    Option<String>,
    SearchError,
>)
    ensures
        update_result(r) == search_update(data@, texts_of(search_domains@)),
        valid_utf8(data@) ==> (r matches Err(SearchError::Invalid(_)) <==> !lines_parse(
            decode_utf8(data@),
        )),
        valid_utf8(data@) && lines_parse(decode_utf8(data@)) ==> update_result(r) == search_change(
            data@,
            search_or_none(search_directive(decode_utf8(data@))),
            texts_of(search_domains@),
        ),
{
    match read_resolv_conf_once(data) {
        Ok(current) => change_search_domains(
            current.bytes,
            current.search_domains.as_slice(),
            search_domains,
        ),
        Err(e) => Err(SearchError::Invalid(e)),
    }
}

} // verus!
