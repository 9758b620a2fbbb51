//! Resolver configurations: what `resolv.conf` says, and how long to wait for a usable one.

use vstd::prelude::*;
use vstd::utf8::{decode_utf8, encode_utf8, valid_utf8};

use crate::addr::{ip_from_text, IpAddr, ScopedIp, ScopedIpView};
use crate::order::texts_of;
use crate::text::{
    after_line, before_first, first_line, lemma_line_len, lemma_trim_start, trim_start_of,
    white_space, without_feed,
};

verus! {

/// Why `resolv_conf` could not parse a configuration.
#[verifier::external_type_specification]
#[verifier::external_body]
pub struct ExParseError(resolv_conf::ParseError);

/// What is used of a resolver configuration.
#[derive(Debug, PartialEq, Eq)]
pub struct ResolvData {
    /// The name servers, each once.
    pub nameservers: Vec<IpAddr>,
    /// The search domains.
    pub search_domains: Vec<String>,
    /// The configuration itself.
    pub bytes: Vec<u8>,
}

/// What a parser makes of a resolver configuration.
#[derive(Debug)]
pub struct ParsedResolv {
    /// The name servers, as they are listed.
    pub nameservers: Vec<ScopedIp>,
    /// The domains of the last `search` directive, where there is one.
    pub search: Option<Vec<String>>,
}

/// What a `ParsedResolv` says.
pub struct ParsedView {
    /// The name servers, as they are listed.
    pub nameservers: Seq<ScopedIpView>,
    /// The domains of the last `search` directive, where there is one.
    pub search: Option<Seq<Seq<char>>>,
}

impl View for ParsedResolv {
    type V = ParsedView;

    open spec fn view(&self) -> ParsedView {
        ParsedView {
            nameservers: scoped_views(self.nameservers@),
            search: match self.search {
                Some(v) => Some(texts_of(v@)),
                None => None,
            },
        }
    }
}

/// What a list of addresses says.
pub open spec fn scoped_views(ips: Seq<ScopedIp>) -> Seq<ScopedIpView> {
    ips.map_values(|ip: ScopedIp| ip@)
}

/// The length of the leading part of `s` that holds no white space.
pub open spec fn word_len(s: Seq<char>) -> nat
    decreases s.len(),
{
    if s.len() == 0 || white_space(s[0]) {
        0
    } else {
        1 + word_len(s.drop_first())
    }
}

/// A word never exceeds its text.
pub proof fn lemma_word_len(s: Seq<char>)
    ensures
        word_len(s) <= s.len(),
        s.len() > 0 && !white_space(s[0]) ==> word_len(s) > 0,
        forall|i: int| 0 <= i < word_len(s) ==> !white_space(#[trigger] s[i]),
    decreases s.len(),
{
    if s.len() > 0 && !white_space(s[0]) {
        lemma_word_len(s.drop_first());
        assert forall|i: int| 0 <= i < word_len(s) implies !white_space(#[trigger] s[i]) by {
            if i > 0 {
                assert(s[i] == s.drop_first()[i - 1]);
            }
        }
    }
}

/// The words of `s`: its longest parts without white space.
pub open spec fn words(s: Seq<char>) -> Seq<Seq<char>>
    decreases s.len(),
{
    let t = trim_start_of(s);
    if t.len() == 0 {
        Seq::empty()
    } else {
        let n = word_len(t) as int;
        let rest = {
            proof {
                lemma_trim_start(s);
                lemma_word_len(t);
            }
            words(t.skip(n))
        };
        seq![t.take(n)] + rest
    }
}

/// The words of a line of a resolver configuration; `;` and `#` start a comment.
pub open spec fn directive(line: Seq<char>) -> Seq<Seq<char>> {
    words(before_first(before_first(line, ';'), '#'))
}

/// The words without a comma in them.
pub open spec fn comma_free(words: Seq<Seq<char>>) -> Seq<Seq<char>>
    decreases words.len(),
{
    if words.len() == 0 {
        Seq::empty()
    } else if words[0].contains(',') {
        comma_free(words.drop_first())
    } else {
        seq![words[0]] + comma_free(words.drop_first())
    }
}

/// The domains that a line lists as a `search` directive, where it is one. Words with a comma in
/// them do not count.
pub open spec fn line_search(line: Seq<char>) -> Option<Seq<Seq<char>>> {
    let w = directive(line);
    if w.len() > 0 && w[0] == "search"@ {
        Some(comma_free(w.drop_first()))
    } else {
        None
    }
}

/// The domains of the last `search` directive of a configuration, where it has one.
pub open spec fn search_directive(text: Seq<char>) -> Option<Seq<Seq<char>>>
    decreases text.len(),
{
    if text.len() == 0 {
        None
    } else {
        let later = {
            proof {
                lemma_line_len(text);
            }
            search_directive(after_line(text))
        };
        if later is Some {
            later
        } else {
            line_search(first_line(text))
        }
    }
}

/// The address that a word of a configuration names, with the scope that follows a `%`.
pub open spec fn scoped_ip(word: Seq<char>) -> ScopedIpView {
    let ip = before_first(word, '%');
    ScopedIpView {
        addr: ip_from_text(ip)->0,
        scope: if word.contains('%') {
            Some(before_first(word.skip(ip.len() as int + 1), '%'))
        } else {
            None
        },
    }
}

/// The name servers that a configuration lists, line by line.
pub open spec fn listed_servers(text: Seq<char>) -> Seq<ScopedIpView>
    decreases text.len(),
{
    if text.len() == 0 {
        Seq::empty()
    } else {
        let later = {
            proof {
                lemma_line_len(text);
            }
            listed_servers(after_line(text))
        };
        let w = directive(first_line(text));
        if w.len() > 1 && w[0] == "nameserver"@ {
            seq![scoped_ip(w[1])] + later
        } else {
            later
        }
    }
}

/// What a configuration says, where it can be parsed.
pub uninterp spec fn resolv_contents(bytes: Seq<u8>) -> Option<ParsedView>;

/// Whether a line parses: it says nothing, it is a `search` directive, or it is a configuration by
/// itself.
pub open spec fn line_parses(line: Seq<char>) -> bool {
    let w = directive(line);
    w.len() == 0 || w[0] == "search"@ || resolv_contents(encode_utf8(without_feed(line))) is Some
}

/// Whether every line of a configuration parses.
pub open spec fn lines_parse(text: Seq<char>) -> bool
    decreases text.len(),
{
    if text.len() == 0 {
        true
    } else {
        let rest = {
            proof {
                lemma_line_len(text);
            }
            lines_parse(after_line(text))
        };
        line_parses(first_line(text)) && rest
    }
}

/// Parses with `resolv_conf::Config::parse` and takes out the name servers and, with
/// `get_search`, the search domains. It is claimed that the outcome depends on the bytes alone
/// and that, where the configuration is UTF-8, the search domains are those of its last `search`
/// directive, the name servers are those of its `nameserver` directives, and it parses just where
/// each of its lines does. Which lines parse, beyond those that say nothing or are `search`
/// directives, is left unsaid.
#[verifier::external_body]
fn parse_resolv_conf(bytes: &[u8]) -> (r: Result<ParsedResolv, resolv_conf::ParseError>)
    ensures
        match r {
            Ok(p) => resolv_contents(bytes@) == Some(p@),
            Err(_) => resolv_contents(bytes@) is None,
        },
        valid_utf8(bytes@) ==> (r is Ok <==> lines_parse(decode_utf8(bytes@))),
        r matches Ok(p) ==> (valid_utf8(bytes@) ==> p@.search == search_directive(
            decode_utf8(bytes@),
        )),
        r matches Ok(p) ==> (valid_utf8(bytes@) ==> p@.nameservers == listed_servers(
            decode_utf8(bytes@),
        )),
{
    let config = resolv_conf::Config::parse(bytes)?;
    let search = config.get_search().cloned();
    let nameservers = config.nameservers.into_iter().map(
        |ip| match ip {
            resolv_conf::ScopedIp::V4(ip) => ScopedIp::V4(u32::from(ip)),
            resolv_conf::ScopedIp::V6(ip, scope) => ScopedIp::V6(u128::from(ip), scope),
        },
    ).collect();
    Ok(ParsedResolv { nameservers, search })
}

/// The addresses in `ips` that carry no scope, each at its first place.
pub open spec fn usable(ips: Seq<ScopedIpView>) -> Seq<IpAddr>
    decreases ips.len(),
{
    if ips.len() == 0 {
        Seq::empty()
    } else {
        let before = usable(ips.drop_last());
        let last = ips.last();
        if last.scope is Some || before.contains(last.addr) {
            before
        } else {
            before.push(last.addr)
        }
    }
}

/// The search domains, none where there is no directive.
pub open spec fn search_or_none(search: Option<Seq<Seq<char>>>) -> Seq<Seq<char>> {
    match search {
        Some(domains) => domains,
        None => Seq::empty(),
    }
}

/// Whether `data` is what is used of the configuration `bytes`, which parses.
pub open spec fn states(bytes: Seq<u8>, data: ResolvData) -> bool {
    &&& resolv_contents(bytes) is Some
    &&& data.nameservers@ == usable(resolv_contents(bytes)->0.nameservers)
    &&& texts_of(data.search_domains@) == search_or_none(resolv_contents(bytes)->0.search)
    &&& data.bytes@ == bytes
}

/// Whether `ip` is among the addresses.
fn has_address(ips: &Vec<IpAddr>, ip: IpAddr) -> (r: bool)
    ensures
        r == ips@.contains(ip),
{
    let mut i: usize = 0;
    while i < ips.len()
        invariant
            i <= ips@.len(),
            forall|k: int| 0 <= k < i ==> ips@[k] != ip,
        decreases ips@.len() - i,
    {
        if ips[i] == ip {
            return true;
        }
        i += 1;
    }
    false
}

/// The addresses that carry no scope, each at its first place.
pub fn usable_nameservers(ips: &[ScopedIp]) -> (r: Vec<IpAddr>)
    ensures
        r@ == usable(scoped_views(ips@)),
{
    let ghost views = scoped_views(ips@);
    let mut out: Vec<IpAddr> = Vec::new();
    let mut i: usize = 0;
    while i < ips.len()
        invariant
            i <= ips@.len(),
            views == scoped_views(ips@),
            out@ == usable(views.take(i as int)),
        decreases ips@.len() - i,
    {
        assert(views.take(i + 1).drop_last() == views.take(i as int));
        assert(views.take(i + 1).last() == ips@[i as int]@);
        match &ips[i] {
            ScopedIp::V4(bits) => {
                if !has_address(&out, IpAddr::V4(*bits)) {
                    out.push(IpAddr::V4(*bits));
                }
            },
            ScopedIp::V6(bits, None) => {
                if !has_address(&out, IpAddr::V6(*bits)) {
                    out.push(IpAddr::V6(*bits));
                }
            },
            ScopedIp::V6(_, Some(_)) => {},
        }
        i += 1;
    }
    assert(views.take(i as int) == views);
    out
}

/// What is used of a configuration that says what `parsed` says.
pub fn resolv_data(parsed: ParsedResolv, bytes: Vec<u8>) -> (r: ResolvData)
    ensures
        r.nameservers@ == usable(parsed@.nameservers),
        texts_of(r.search_domains@) == search_or_none(parsed@.search),
        r.bytes@ == bytes@,
{
    let nameservers = usable_nameservers(parsed.nameservers.as_slice());
    let search_domains = match parsed.search {
        Some(domains) => domains,
        None => {
            let none: Vec<String> = Vec::new();
            assert(texts_of(none@) == Seq::<Seq<char>>::empty());
            none
        },
    };
    ResolvData { nameservers, search_domains, bytes }
}

/// Parses a resolver configuration. Addresses with a scope are left out, as is every address
/// that is already listed; the order stays.
pub fn read_resolv_conf_once(data: Vec<u8>) -> (r: Result<ResolvData, resolv_conf::ParseError>)
    ensures
        match r {
            Ok(d) => states(data@, d),
            Err(_) => resolv_contents(data@) is None,
        },
        valid_utf8(data@) ==> (r is Ok <==> lines_parse(decode_utf8(data@))),
        r matches Ok(d) ==> (valid_utf8(data@) ==> texts_of(d.search_domains@) == search_or_none(
            search_directive(decode_utf8(data@)),
        )),
        r matches Ok(d) ==> (valid_utf8(data@) ==> d.nameservers@ == usable(
            listed_servers(decode_utf8(data@)),
        )),
{
    match parse_resolv_conf(data.as_slice()) {
        Ok(parsed) => Ok(resolv_data(parsed, data)),
        Err(e) => Err(e),
    }
}

/// How long a usable configuration is waited for, in nanoseconds.
pub const RESOLV_RETRY_TIMEOUT: u64 = 30_000_000_000;

/// How long to wait between two looks at the configuration, in nanoseconds.
pub const RESOLV_RETRY_INTERVAL: u64 = 100_000_000;

/// Why there is no usable configuration.
#[derive(Debug)]
pub enum ResolvFailure {
    /// The file could not be read.
    Unreadable,
    /// The configuration does not parse.
    Invalid(resolv_conf::ParseError),
    /// The configuration lists no usable name server.
    NoNameservers,
}

/// What to do after a look at the configuration.
#[derive(Debug)]
pub enum Retry {
    /// Go on with a usable configuration.
    Done(ResolvData),
    /// Look again after some nanoseconds.
    Sleep(u64),
    /// Give up.
    GiveUp(ResolvFailure),
}

/// Whether a file that was read, or could not be, holds a usable configuration.
pub open spec fn usable_content(content: Option<Seq<u8>>) -> bool {
    content is Some && resolv_contents(content->0) is Some && usable(
        resolv_contents(content->0)->0.nameservers,
    ).len() > 0
}

/// Whether `failure` says what is wrong with a file that was read, or could not be.
pub open spec fn explains(content: Option<Seq<u8>>, failure: ResolvFailure) -> bool {
    match failure {
        ResolvFailure::Unreadable => content is None,
        ResolvFailure::Invalid(_) => content is Some && resolv_contents(content->0) is None,
        ResolvFailure::NoNameservers => content is Some && resolv_contents(content->0) is Some
            && usable(resolv_contents(content->0)->0.nameservers).len() == 0,
    }
}

/// The view of contents that may be missing.
pub open spec fn content_view(content: Option<Vec<u8>>) -> Option<Seq<u8>> {
    match content {
        Some(bytes) => Some(bytes@),
        None => None,
    }
}

/// How long to wait before the next look, `elapsed` nanoseconds after the first one began: the
/// usual interval, but not beyond the time at which to give up.
pub open spec fn pause(elapsed: int) -> int {
    if RESOLV_RETRY_TIMEOUT - elapsed < RESOLV_RETRY_INTERVAL {
        RESOLV_RETRY_TIMEOUT - elapsed
    } else {
        RESOLV_RETRY_INTERVAL as int
    }
}

/// What to do after a look at the configuration with the given outcome, `elapsed` nanoseconds
/// after the first look began. A configuration without a usable name server counts as not there
/// yet.
pub fn retry_step(outcome: Result<ResolvData, ResolvFailure>, elapsed: u128) -> (r: Retry)
    ensures
        match outcome {
            Ok(data) => if data.nameservers@.len() > 0 {
                r == Retry::Done(data)
            } else if elapsed >= RESOLV_RETRY_TIMEOUT {
                r == Retry::GiveUp(ResolvFailure::NoNameservers)
            } else {
                r == Retry::Sleep(pause(elapsed as int) as u64)
            },
            Err(failure) => if elapsed >= RESOLV_RETRY_TIMEOUT {
                r == Retry::GiveUp(failure)
            } else {
                r == Retry::Sleep(pause(elapsed as int) as u64)
            },
        },
{
    let failure = match outcome {
        Ok(data) => {
            if data.nameservers.len() > 0 {
                return Retry::Done(data);
            }
            ResolvFailure::NoNameservers
        },
        Err(failure) => failure,
    };
    if elapsed >= RESOLV_RETRY_TIMEOUT as u128 {
        return Retry::GiveUp(failure);
    }
    let remaining: u64 = RESOLV_RETRY_TIMEOUT - elapsed as u64;
    Retry::Sleep(if remaining < RESOLV_RETRY_INTERVAL { remaining } else { RESOLV_RETRY_INTERVAL })
}

/// Whether `failure` is what is wrong with the configuration `text`.
pub open spec fn explains_text(text: Seq<char>, failure: ResolvFailure) -> bool {
    match failure {
        ResolvFailure::Unreadable => false,
        ResolvFailure::Invalid(_) => !lines_parse(text),
        ResolvFailure::NoNameservers => lines_parse(text) && usable(listed_servers(text)).len() == 0,
    }
}

/// What a look at the configuration comes to that found `content`, or could not read it.
pub fn look_at(content: Option<Vec<u8>>) -> (r: Result<ResolvData, ResolvFailure>)
    ensures
        match r {
            Ok(data) => content is Some && states(content->0@, data),
            Err(failure) => !(failure is NoNameservers) && explains(content_view(content), failure),
        },
        content matches Some(bytes) ==> (valid_utf8(bytes@) ==> {
            let text = decode_utf8(bytes@);
            match r {
                Ok(data) => lines_parse(text) && data.nameservers@ == usable(listed_servers(text))
                    && texts_of(data.search_domains@) == search_or_none(search_directive(text)),
                Err(failure) => explains_text(text, failure),
            }
        }),
{
    match content {
        None => Err(ResolvFailure::Unreadable),
        Some(bytes) => match read_resolv_conf_once(bytes) {
            Ok(data) => Ok(data),
            Err(e) => Err(ResolvFailure::Invalid(e)),
        },
    }
}

/// What to do after a look at the configuration that found `content`, or could not read it,
/// `elapsed` nanoseconds after the first look began.
pub fn read_resolv_conf(content: Option<Vec<u8>>, elapsed: u128) -> (r: Retry)
    ensures
        match r {
            Retry::Done(data) => usable_content(content_view(content)) && states(
                content_view(content)->0,
                data,
            ),
            Retry::Sleep(nanos) => !usable_content(content_view(content)) && elapsed
                < RESOLV_RETRY_TIMEOUT && nanos == pause(elapsed as int),
            Retry::GiveUp(failure) => elapsed >= RESOLV_RETRY_TIMEOUT && explains(
                content_view(content),
                failure,
            ),
        },
        content matches Some(bytes) ==> (valid_utf8(bytes@) ==> {
            let text = decode_utf8(bytes@);
            let served = lines_parse(text) && usable(listed_servers(text)).len() > 0;
            match r {
                Retry::Done(data) => served && data.nameservers@ == usable(listed_servers(text))
                    && texts_of(data.search_domains@) == search_or_none(search_directive(text))
                    && data.bytes@ == bytes@,
                Retry::Sleep(_) => !served,
                Retry::GiveUp(failure) => explains_text(text, failure),
            }
        }),
{
    retry_step(look_at(content), elapsed)
}

/// Every wait is longer than nothing, at most the usual interval, and ends by the time at which
/// to give up.
pub proof fn law_pauses(elapsed: int)
    requires
        0 <= elapsed < RESOLV_RETRY_TIMEOUT,
    ensures
        0 < pause(elapsed) <= RESOLV_RETRY_INTERVAL,
        elapsed + pause(elapsed) <= RESOLV_RETRY_TIMEOUT,
{
}

/// Whether `ip` is listed without a scope.
pub open spec fn listed(ips: Seq<ScopedIpView>, ip: IpAddr) -> bool {
    exists|k: int| 0 <= k < ips.len() && (#[trigger] ips[k]).scope is None && ips[k].addr == ip
}

/// How many entries come before the first that lists `ip` without a scope.
pub open spec fn first_place(ips: Seq<ScopedIpView>, ip: IpAddr) -> nat
    decreases ips.len(),
{
    if ips.len() == 0 || (ips[0].scope is None && ips[0].addr == ip) {
        0
    } else {
        1 + first_place(ips.drop_first(), ip)
    }
}

/// An entry at the end is the first of its kind only where no other came before.
proof fn lemma_first_place(ips: Seq<ScopedIpView>, last: ScopedIpView, ip: IpAddr)
    ensures
        listed(ips, ip) ==> first_place(ips.push(last), ip) == first_place(ips, ip) && first_place(
            ips,
            ip,
        ) < ips.len(),
        !listed(ips, ip) && last.scope is None && last.addr == ip ==> first_place(
            ips.push(last),
            ip,
        ) == ips.len(),
    decreases ips.len(),
{
    if ips.len() > 0 {
        let rest = ips.drop_first();
        lemma_first_place(rest, last, ip);
        assert(ips.push(last).drop_first() == rest.push(last));
        assert(ips.push(last)[0] == ips[0]);
        if listed(ips, ip) {
            let k = choose|k: int|
                0 <= k < ips.len() && (#[trigger] ips[k]).scope is None && ips[k].addr == ip;
            if k > 0 {
                assert(rest[k - 1] == ips[k]);
                assert(listed(rest, ip));
            }
        }
        if listed(rest, ip) {
            let k = choose|k: int|
                0 <= k < rest.len() && (#[trigger] rest[k]).scope is None && rest[k].addr == ip;
            assert(ips[k + 1] == rest[k]);
        }
        if ips[0].scope is None && ips[0].addr == ip {
            assert(listed(ips, ip));
        }
    }
}

/// The usable name servers are those that are listed without a scope, each once, in the order of
/// their first places.
pub proof fn law_usable_nameservers(ips: Seq<ScopedIpView>)
    ensures
        usable(ips).no_duplicates(),
        forall|ip: IpAddr| usable(ips).contains(ip) <==> listed(ips, ip),
        forall|i: int, j: int|
            0 <= i < j < usable(ips).len() ==> first_place(ips, #[trigger] usable(ips)[i])
                < first_place(ips, #[trigger] usable(ips)[j]),
    decreases ips.len(),
{
    let all = usable(ips);
    if ips.len() > 0 {
        let rest = ips.drop_last();
        let last = ips.last();
        let before = usable(rest);
        law_usable_nameservers(rest);
        assert(ips == rest.push(last));
        assert forall|ip: IpAddr| all.contains(ip) <==> listed(ips, ip) by {
            if listed(ips, ip) {
                let k = choose|k: int|
                    0 <= k < ips.len() && (#[trigger] ips[k]).scope is None && ips[k].addr == ip;
                if k < rest.len() {
                    assert(rest[k] == ips[k]);
                    assert(listed(rest, ip));
                    assert(before.contains(ip));
                    let m = choose|m: int| 0 <= m < before.len() && before[m] == ip;
                    assert(all[m] == ip);
                } else if !before.contains(ip) {
                    assert(all[before.len() as int] == ip);
                }
            }
            if all.contains(ip) {
                let m = choose|m: int| 0 <= m < all.len() && all[m] == ip;
                if m < before.len() {
                    assert(before[m] == ip);
                    assert(listed(rest, ip));
                    let k = choose|k: int|
                        0 <= k < rest.len() && (#[trigger] rest[k]).scope is None && rest[k].addr
                            == ip;
                    assert(ips[k] == rest[k]);
                } else {
                    assert(ips[ips.len() - 1] == last);
                }
            }
        }
        assert forall|i: int, j: int| 0 <= i < j < all.len() implies first_place(
            ips,
            #[trigger] all[i],
        ) < first_place(ips, #[trigger] all[j]) by {
            assert(all[i] == before[i]);
            assert(before.contains(all[i]));
            lemma_first_place(rest, last, all[i]);
            lemma_first_place(rest, last, all[j]);
            if j < before.len() {
                assert(all[j] == before[j]);
                assert(before.contains(all[j]));
                assert(first_place(rest, before[i]) < first_place(rest, before[j]));
            }
        }
    }
}

} // verus!
