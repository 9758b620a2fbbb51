//! Knot Resolver's forwarding rules: the rules that are wanted, and the rules that a JSON document
//! states, in a form in which the two can be compared.

use vstd::prelude::*;

use crate::addr::{format_ip, ip_from_text, ip_to_text, parse_ip, IpAddr};
use crate::domain::{law_listed_domains_are_normal, listed_domains, normalize_domain, normalized};
use crate::json::{field, fields_view, items_view, lemma_items_view, restorable, Json, JsonView};
use crate::order::{same_texts, texts_of};
use crate::text::{strip_trailing, trim_of};

verus! {

/// A forwarding rule: queries under `subtree` go to `servers`.
#[derive(Debug, PartialEq, Eq)]
pub struct ForwardRule {
    /// The domains, in normal form.
    pub subtree: Vec<String>,
    /// The servers, in order.
    pub servers: Vec<IpAddr>,
    /// Whether answers are validated, where the rule says so.
    pub dnssec: Option<bool>,
}

/// What a forwarding rule says.
pub struct RuleView {
    /// The domains.
    pub subtree: Seq<Seq<char>>,
    /// The servers, in order.
    pub servers: Seq<IpAddr>,
    /// Whether answers are validated, where the rule says so.
    pub dnssec: Option<bool>,
}

impl View for ForwardRule {
    type V = RuleView;

    open spec fn view(&self) -> RuleView {
        RuleView { subtree: texts_of(self.subtree@), servers: self.servers@, dnssec: self.dnssec }
    }
}

/// Why a JSON document states no forwarding rules. Rules and items are counted from zero.
#[derive(Debug, PartialEq, Eq)]
pub enum ForwardError {
    /// The document is not an array.
    NotAnArray,
    /// A rule is not an object.
    RuleNotObject {
        /// The rule.
        rule: usize,
    },
    /// An item of a rule's subtree is not a string.
    SubtreeNotText {
        /// The rule.
        rule: usize,
        /// The item.
        item: usize,
    },
    /// A rule's subtree is neither a string nor an array.
    InvalidSubtree {
        /// The rule.
        rule: usize,
        /// What stands in place of the subtree.
        subtree: Json,
    },
    /// A rule has no array of servers.
    MissingServers {
        /// The rule.
        rule: usize,
    },
    /// An item of a rule's servers is not a string.
    ServerNotText {
        /// The rule.
        rule: usize,
        /// The item.
        item: usize,
    },
    /// A server is not an IP address.
    InvalidServer {
        /// The rule.
        rule: usize,
        /// What stands in place of the address.
        text: String,
    },
}

/// What a `ForwardError` says.
pub enum ForwardErrorView {
    /// The document is not an array.
    NotAnArray,
    /// A rule is not an object.
    RuleNotObject {
        /// The rule.
        rule: int,
    },
    /// An item of a rule's subtree is not a string.
    SubtreeNotText {
        /// The rule.
        rule: int,
        /// The item.
        item: int,
    },
    /// A rule's subtree is neither a string nor an array.
    InvalidSubtree {
        /// The rule.
        rule: int,
        /// What stands in place of the subtree.
        subtree: JsonView,
    },
    /// A rule has no array of servers.
    MissingServers {
        /// The rule.
        rule: int,
    },
    /// An item of a rule's servers is not a string.
    ServerNotText {
        /// The rule.
        rule: int,
        /// The item.
        item: int,
    },
    /// A server is not an IP address.
    InvalidServer {
        /// The rule.
        rule: int,
        /// What stands in place of the address.
        text: Seq<char>,
    },
}

impl View for ForwardError {
    type V = ForwardErrorView;

    open spec fn view(&self) -> ForwardErrorView {
        match *self {
            ForwardError::NotAnArray => ForwardErrorView::NotAnArray,
            ForwardError::RuleNotObject { rule } => ForwardErrorView::RuleNotObject {
                rule: rule as int,
            },
            ForwardError::SubtreeNotText { rule, item } => ForwardErrorView::SubtreeNotText {
                rule: rule as int,
                item: item as int,
            },
            ForwardError::InvalidSubtree { rule, subtree } => ForwardErrorView::InvalidSubtree {
                rule: rule as int,
                subtree: subtree@,
            },
            ForwardError::MissingServers { rule } => ForwardErrorView::MissingServers {
                rule: rule as int,
            },
            ForwardError::ServerNotText { rule, item } => ForwardErrorView::ServerNotText {
                rule: rule as int,
                item: item as int,
            },
            ForwardError::InvalidServer { rule, text } => ForwardErrorView::InvalidServer {
                rule: rule as int,
                text: text@,
            },
        }
    }
}

/// What a list of forwarding rules says.
pub open spec fn rules_view(rules: Seq<ForwardRule>) -> Seq<RuleView> {
    rules.map_values(|r: ForwardRule| r@)
}

/// The normal forms of the texts in `items`, or the first item that is no text.
pub open spec fn subtree_items(rule: int, items: Seq<JsonView>) -> Result<
    Seq<Seq<char>>,
    ForwardErrorView,
>
    decreases items.len(),
{
    if items.len() == 0 {
        Ok(Seq::empty())
    } else {
        match (subtree_items(rule, items.drop_last()), items.last()) {
            (Err(e), _) => Err(e),
            (Ok(texts), JsonView::Text(s)) => Ok(texts.push(normalized(s))),
            (Ok(_), _) => Err(ForwardErrorView::SubtreeNotText { rule, item: items.len() - 1 }),
        }
    }
}

/// The domains of a rule: one name, a list of names, or none where the rule has no subtree.
pub open spec fn rule_subtree(rule: int, fields: Map<Seq<char>, JsonView>) -> Result<
    Seq<Seq<char>>,
    ForwardErrorView,
> {
    if !fields.dom().contains("subtree"@) {
        Ok(Seq::empty())
    } else {
        match fields["subtree"@] {
            JsonView::Text(s) => Ok(seq![normalized(s)]),
            JsonView::Array(items) => subtree_items(rule, items),
            other => Err(ForwardErrorView::InvalidSubtree { rule, subtree: other }),
        }
    }
}

/// The addresses that the texts in `items` denote, or the first item that denotes none.
pub open spec fn server_items(rule: int, items: Seq<JsonView>) -> Result<
    Seq<IpAddr>,
    ForwardErrorView,
>
    decreases items.len(),
{
    if items.len() == 0 {
        Ok(Seq::empty())
    } else {
        match (server_items(rule, items.drop_last()), items.last()) {
            (Err(e), _) => Err(e),
            (Ok(servers), JsonView::Text(s)) => match ip_from_text(s) {
                Some(ip) => Ok(servers.push(ip)),
                None => Err(ForwardErrorView::InvalidServer { rule, text: s }),
            },
            (Ok(_), _) => Err(ForwardErrorView::ServerNotText { rule, item: items.len() - 1 }),
        }
    }
}

/// The servers of a rule.
pub open spec fn rule_servers(rule: int, fields: Map<Seq<char>, JsonView>) -> Result<
    Seq<IpAddr>,
    ForwardErrorView,
> {
    if fields.dom().contains("servers"@) && fields["servers"@] is Array {
        server_items(rule, fields["servers"@]->Array_0)
    } else {
        Err(ForwardErrorView::MissingServers { rule })
    }
}

/// Whether a rule asks for validation, where its options say so.
pub open spec fn rule_dnssec(fields: Map<Seq<char>, JsonView>) -> Option<bool> {
    if fields.dom().contains("options"@) && fields["options"@] is Object {
        let options = fields["options"@]->Object_0;
        if options.dom().contains("dnssec"@) && options["dnssec"@] is Bool {
            Some(options["dnssec"@]->Bool_0)
        } else {
            None
        }
    } else {
        None
    }
}

/// The rule that a JSON document states, or what is wrong with it.
pub open spec fn canonical_rule(rule: int, j: JsonView) -> Result<RuleView, ForwardErrorView> {
    match j {
        JsonView::Object(fields) => match rule_subtree(rule, fields) {
            Err(e) => Err(e),
            Ok(subtree) => match rule_servers(rule, fields) {
                Err(e) => Err(e),
                Ok(servers) => Ok(RuleView { subtree, servers, dnssec: rule_dnssec(fields) }),
            },
        },
        _ => Err(ForwardErrorView::RuleNotObject { rule }),
    }
}

/// The rules that the items of an array state, or what is wrong with the first that states none.
pub open spec fn canonical_rules(items: Seq<JsonView>) -> Result<Seq<RuleView>, ForwardErrorView>
    decreases items.len(),
{
    if items.len() == 0 {
        Ok(Seq::empty())
    } else {
        match canonical_rules(items.drop_last()) {
            Err(e) => Err(e),
            Ok(rules) => match canonical_rule(items.len() - 1, items.last()) {
                Err(e) => Err(e),
                Ok(rule) => Ok(rules.push(rule)),
            },
        }
    }
}

/// The rules that a JSON document states, or what is wrong with it.
pub open spec fn canonical(j: JsonView) -> Result<Seq<RuleView>, ForwardErrorView> {
    match j {
        JsonView::Array(items) => canonical_rules(items),
        _ => Err(ForwardErrorView::NotAnArray),
    }
}

/// The texts of addresses, as a JSON array.
pub open spec fn servers_json(servers: Seq<IpAddr>) -> JsonView {
    JsonView::Array(servers.map_values(|ip: IpAddr| JsonView::Text(ip_to_text(ip))))
}

/// Texts, as a JSON array.
pub open spec fn texts_json(texts: Seq<Seq<char>>) -> JsonView {
    JsonView::Array(texts.map_values(|t: Seq<char>| JsonView::Text(t)))
}

/// The rule that forwards everything.
pub open spec fn root_rule_json(servers: Seq<IpAddr>) -> JsonView {
    JsonView::Object(
        Map::empty().insert("subtree"@, JsonView::Text("."@)).insert(
            "servers"@,
            servers_json(servers),
        ),
    )
}

/// The rule that forwards the domains `anti` without validation.
pub open spec fn anti_rule_json(servers: Seq<IpAddr>, anti: Seq<Seq<char>>) -> JsonView {
    JsonView::Object(
        Map::empty().insert("subtree"@, texts_json(anti)).insert(
            "servers"@,
            servers_json(servers),
        ).insert(
            "options"@,
            JsonView::Object(Map::empty().insert("dnssec"@, JsonView::Bool(false))),
        ),
    )
}

/// The document that states the wanted rules.
pub open spec fn forward_config(servers: Seq<IpAddr>, anti: Seq<Seq<char>>) -> JsonView {
    JsonView::Array(
        if anti.len() == 0 {
            seq![root_rule_json(servers)]
        } else {
            seq![root_rule_json(servers), anti_rule_json(servers, anti)]
        },
    )
}

/// The wanted rules: everything goes to `servers`, and the domains `anti`, where there are any,
/// go there without validation.
pub open spec fn wanted_rules(servers: Seq<IpAddr>, anti: Seq<Seq<char>>) -> Seq<RuleView> {
    let root = RuleView { subtree: seq![seq!['.']], servers, dnssec: None };
    if anti.len() == 0 {
        seq![root]
    } else {
        seq![
            root,
            RuleView {
                subtree: anti.map_values(|t: Seq<char>| normalized(t)),
                servers,
                dnssec: Some(false),
            },
        ]
    }
}

/// A list of texts or an error, as a mathematical value.
pub open spec fn texts_result(r: Result<Vec<String>, ForwardError>) -> Result<
    Seq<Seq<char>>,
    ForwardErrorView,
> {
    match r {
        Ok(v) => Ok(texts_of(v@)),
        Err(e) => Err(e@),
    }
}

/// A list of addresses or an error, as a mathematical value.
pub open spec fn servers_result(r: Result<Vec<IpAddr>, ForwardError>) -> Result<
    Seq<IpAddr>,
    ForwardErrorView,
> {
    match r {
        Ok(v) => Ok(v@),
        Err(e) => Err(e@),
    }
}

/// A list of rules or an error, as a mathematical value.
pub open spec fn rules_result(r: Result<Vec<ForwardRule>, ForwardError>) -> Result<
    Seq<RuleView>,
    ForwardErrorView,
> {
    match r {
        Ok(v) => Ok(rules_view(v@)),
        Err(e) => Err(e@),
    }
}

/// The first faulty item of a subtree decides.
proof fn lemma_subtree_error(rule: int, items: Seq<JsonView>, n: int)
    requires
        0 <= n <= items.len(),
        subtree_items(rule, items.take(n)) is Err,
    ensures
        subtree_items(rule, items) == subtree_items(rule, items.take(n)),
    decreases items.len(),
{
    if n < items.len() {
        assert(items.drop_last().take(n) == items.take(n));
        lemma_subtree_error(rule, items.drop_last(), n);
    } else {
        assert(items.take(n) == items);
    }
}

/// The first faulty item of a list of servers decides.
proof fn lemma_server_error(rule: int, items: Seq<JsonView>, n: int)
    requires
        0 <= n <= items.len(),
        server_items(rule, items.take(n)) is Err,
    ensures
        server_items(rule, items) == server_items(rule, items.take(n)),
    decreases items.len(),
{
    if n < items.len() {
        assert(items.drop_last().take(n) == items.take(n));
        lemma_server_error(rule, items.drop_last(), n);
    } else {
        assert(items.take(n) == items);
    }
}

/// The first faulty rule decides.
proof fn lemma_rule_error(items: Seq<JsonView>, n: int)
    requires
        0 <= n <= items.len(),
        canonical_rules(items.take(n)) is Err,
    ensures
        canonical_rules(items) == canonical_rules(items.take(n)),
    decreases items.len(),
{
    if n < items.len() {
        assert(items.drop_last().take(n) == items.take(n));
        lemma_rule_error(items.drop_last(), n);
    } else {
        assert(items.take(n) == items);
    }
}

/// The normal forms of the texts in `items`.
fn read_subtree_items(rule: usize, items: &Vec<Json>) -> (r: Result<Vec<String>, ForwardError>)
    ensures
        texts_result(r) == subtree_items(rule as int, items_view(items@)),
{
    let ghost views = items_view(items@);
    proof {
        lemma_items_view(items@);
    }
    let mut out: Vec<String> = Vec::new();
    assert(texts_of(out@) == Seq::<Seq<char>>::empty());
    let mut i: usize = 0;
    while i < items.len()
        invariant
            i <= items@.len(),
            views == items_view(items@),
            views.len() == items@.len(),
            forall|k: int| 0 <= k < items@.len() ==> #[trigger] views[k] == items@[k]@,
            subtree_items(rule as int, views.take(i as int)) == Ok::<_, ForwardErrorView>(
                texts_of(out@),
            ),
        decreases items@.len() - i,
    {
        assert(views.take(i + 1).drop_last() == views.take(i as int));
        assert(views.take(i + 1).last() == items@[i as int]@);
        match &items[i] {
            Json::Text(s) => {
                let ghost before = texts_of(out@);
                let domain = normalize_domain(s.as_str());
                out.push(domain);
                assert(texts_of(out@) == before.push(domain@));
            },
            _ => {
                proof {
                    lemma_subtree_error(rule as int, views, i + 1);
                }
                return Err(ForwardError::SubtreeNotText { rule, item: i });
            },
        }
        i += 1;
    }
    assert(views.take(i as int) == views);
    Ok(out)
}

/// The domains of a rule.
fn read_subtree(rule: usize, fields: &Vec<(String, Json)>) -> (r: Result<Vec<String>, ForwardError>)
    ensures
        texts_result(r) == rule_subtree(rule as int, fields_view(fields@)),
{
    match field(fields, "subtree") {
        Some(Json::Text(value)) => {
            let domain = normalize_domain(value.as_str());
            let mut out: Vec<String> = Vec::new();
            out.push(domain);
            assert(texts_of(out@) == seq![domain@]);
            Ok(out)
        },
        Some(Json::Array(values)) => read_subtree_items(rule, values),
        Some(other) => Err(ForwardError::InvalidSubtree { rule, subtree: other.clone() }),
        None => {
            let out: Vec<String> = Vec::new();
            assert(texts_of(out@) == Seq::<Seq<char>>::empty());
            Ok(out)
        },
    }
}

/// The address that was found in the text of a server of a rule, where there is one.
pub fn checked_server(rule: usize, text: &str, parsed: Option<IpAddr>) -> (r: Result<
    IpAddr,
    ForwardError,
>)
    ensures
        match r {
            Ok(ip) => parsed == Some(ip),
            Err(e) => parsed is None && e@ == (ForwardErrorView::InvalidServer {
                rule: rule as int,
                text: text@,
            }),
        },
{
    match parsed {
        Some(ip) => Ok(ip),
        None => Err(ForwardError::InvalidServer { rule, text: text.to_owned() }),
    }
}

/// The addresses that the texts in `items` denote.
fn read_server_items(rule: usize, items: &Vec<Json>) -> (r: Result<Vec<IpAddr>, ForwardError>)
    ensures
        servers_result(r) == server_items(rule as int, items_view(items@)),
{
    let ghost views = items_view(items@);
    proof {
        lemma_items_view(items@);
    }
    let mut out: Vec<IpAddr> = Vec::new();
    let mut i: usize = 0;
    while i < items.len()
        invariant
            i <= items@.len(),
            views == items_view(items@),
            views.len() == items@.len(),
            forall|k: int| 0 <= k < items@.len() ==> #[trigger] views[k] == items@[k]@,
            server_items(rule as int, views.take(i as int)) == Ok::<_, ForwardErrorView>(out@),
        decreases items@.len() - i,
    {
        assert(views.take(i + 1).drop_last() == views.take(i as int));
        assert(views.take(i + 1).last() == items@[i as int]@);
        match &items[i] {
            Json::Text(s) => match checked_server(rule, s.as_str(), parse_ip(s.as_str())) {
                Ok(ip) => {
                    out.push(ip);
                },
                Err(e) => {
                    proof {
                        lemma_server_error(rule as int, views, i + 1);
                    }
                    return Err(e);
                },
            },
            _ => {
                proof {
                    lemma_server_error(rule as int, views, i + 1);
                }
                return Err(ForwardError::ServerNotText { rule, item: i });
            },
        }
        i += 1;
    }
    assert(views.take(i as int) == views);
    Ok(out)
}

/// The servers of a rule.
fn read_servers(rule: usize, fields: &Vec<(String, Json)>) -> (r: Result<Vec<IpAddr>, ForwardError>)
    ensures
        servers_result(r) == rule_servers(rule as int, fields_view(fields@)),
{
    match field(fields, "servers") {
        Some(Json::Array(values)) => read_server_items(rule, values),
        _ => Err(ForwardError::MissingServers { rule }),
    }
}

/// Whether a rule asks for validation, where its options say so.
fn read_dnssec(fields: &Vec<(String, Json)>) -> (r: Option<bool>)
    ensures
        r == rule_dnssec(fields_view(fields@)),
{
    match field(fields, "options") {
        Some(Json::Object(options)) => match field(options, "dnssec") {
            Some(Json::Bool(b)) => Some(*b),
            _ => None,
        },
        _ => None,
    }
}

/// The rules that a JSON document states, in canonical form: domains are normalised and servers
/// are addresses, so that rules that mean the same compare equal. What a rule says beyond its
/// subtree, its servers and `options.dnssec` does not count.
pub fn canonicalize_forward(value: &Json) -> (r: Result<Vec<ForwardRule>, ForwardError>)
    ensures
        rules_result(r) == canonical(value@),
{
    let rules = match value {
        Json::Array(rules) => rules,
        _ => return Err(ForwardError::NotAnArray),
    };
    let ghost views = items_view(rules@);
    proof {
        lemma_items_view(rules@);
    }
    let mut result: Vec<ForwardRule> = Vec::new();
    let mut index: usize = 0;
    assert(rules_view(result@) == Seq::<RuleView>::empty());
    while index < rules.len()
        invariant
            index <= rules@.len(),
            value@ == JsonView::Array(views),
            views == items_view(rules@),
            views.len() == rules@.len(),
            forall|k: int| 0 <= k < rules@.len() ==> #[trigger] views[k] == rules@[k]@,
            canonical_rules(views.take(index as int)) == Ok::<_, ForwardErrorView>(
                rules_view(result@),
            ),
        decreases rules@.len() - index,
    {
        assert(views.take(index + 1).drop_last() == views.take(index as int));
        assert(views.take(index + 1).last() == rules@[index as int]@);
        proof {
            if canonical_rules(views.take(index + 1)) is Err {
                lemma_rule_error(views, index + 1);
            }
        }
        let object = match &rules[index] {
            Json::Object(object) => object,
            _ => return Err(ForwardError::RuleNotObject { rule: index }),
        };
        let subtree = match read_subtree(index, object) {
            Ok(subtree) => subtree,
            Err(e) => return Err(e),
        };
        let servers = match read_servers(index, object) {
            Ok(servers) => servers,
            Err(e) => return Err(e),
        };
        let dnssec = read_dnssec(object);
        let ghost before = rules_view(result@);
        let rule = ForwardRule { subtree, servers, dnssec };
        result.push(rule);
        assert(rules_view(result@) == before.push(rule@));
        index += 1;
    }
    assert(views.take(index as int) == views);
    Ok(result)
}

/// Texts of addresses denote the addresses.
proof fn lemma_servers_readable(rule: int, servers: Seq<IpAddr>)
    requires
        forall|i: int|
            0 <= i < servers.len() ==> ip_from_text(ip_to_text(#[trigger] servers[i])) == Some(
                servers[i],
            ),
    ensures
        server_items(rule, servers_json(servers)->Array_0) == Ok::<_, ForwardErrorView>(servers),
    decreases servers.len(),
{
    let items = servers_json(servers)->Array_0;
    if servers.len() > 0 {
        let rest = servers.drop_last();
        assert forall|i: int| 0 <= i < rest.len() implies ip_from_text(
            ip_to_text(#[trigger] rest[i]),
        ) == Some(rest[i]) by {
            assert(rest[i] == servers[i]);
        }
        lemma_servers_readable(rule, rest);
        assert(items.drop_last() == servers_json(rest)->Array_0);
        assert(ip_from_text(ip_to_text(servers[servers.len() - 1])) == Some(servers.last()));
        assert(rest.push(servers.last()) == servers);
    } else {
        assert(servers == Seq::<IpAddr>::empty());
    }
}

/// Texts state a subtree.
proof fn lemma_texts_readable(rule: int, texts: Seq<Seq<char>>)
    ensures
        subtree_items(rule, texts_json(texts)->Array_0) == Ok::<_, ForwardErrorView>(
            texts.map_values(|t: Seq<char>| normalized(t)),
        ),
    decreases texts.len(),
{
    let items = texts_json(texts)->Array_0;
    let normal = texts.map_values(|t: Seq<char>| normalized(t));
    if texts.len() > 0 {
        lemma_texts_readable(rule, texts.drop_last());
        assert(items.drop_last() == texts_json(texts.drop_last())->Array_0);
        assert(normal == texts.drop_last().map_values(|t: Seq<char>| normalized(t)).push(
            normalized(texts.last()),
        ));
    } else {
        assert(normal == Seq::<Seq<char>>::empty());
    }
}

/// The document that states the wanted rules reads as just those rules.
proof fn lemma_config_states_wanted_rules(servers: Seq<IpAddr>, anti: Seq<Seq<char>>)
    requires
        forall|i: int|
            0 <= i < servers.len() ==> ip_from_text(ip_to_text(#[trigger] servers[i])) == Some(
                servers[i],
            ),
    ensures
        canonical(forward_config(servers, anti)) == Ok::<_, ForwardErrorView>(
            wanted_rules(servers, anti),
        ),
{
    reveal_strlit("subtree");
    reveal_strlit("servers");
    reveal_strlit("options");
    reveal_strlit("dnssec");
    reveal_strlit(".");
    assert("subtree"@[1] != "servers"@[1]);
    assert("subtree"@[0] != "options"@[0]);
    assert("servers"@[0] != "options"@[0]);
    assert("."@ == seq!['.']);
    assert(normalized("."@) == seq!['.']) by {
        assert("."@.drop_last().len() == 0);
        assert(trim_of("."@) == "."@);
        assert(strip_trailing("."@, '.') == strip_trailing("."@.drop_last(), '.'));
    }
    lemma_servers_readable(0, servers);
    lemma_servers_readable(1, servers);
    lemma_texts_readable(1, anti);
    let root = root_rule_json(servers);
    let wanted = wanted_rules(servers, anti);
    let items = forward_config(servers, anti)->Array_0;
    assert(canonical_rule(0, root) == Ok::<_, ForwardErrorView>(wanted[0]));
    let first = seq![root];
    assert(first.drop_last() == Seq::<JsonView>::empty());
    assert(canonical_rules(first.drop_last()) == Ok::<_, ForwardErrorView>(Seq::<RuleView>::empty()));
    assert(canonical_rules(first) == Ok::<_, ForwardErrorView>(seq![wanted[0]]));
    if anti.len() > 0 {
        let second = anti_rule_json(servers, anti);
        assert(canonical_rule(1, second) == Ok::<_, ForwardErrorView>(wanted[1]));
        assert(items.drop_last() == first);
        assert(seq![wanted[0]].push(wanted[1]) == wanted);
    } else {
        assert(items == first);
    }
}

/// The domains of a domain list are wanted as they are listed: each is in its normal form already.
pub proof fn law_listed_domains_are_wanted(text: Seq<char>, anti: Seq<Seq<char>>, servers: Seq<IpAddr>)
    requires
        forall|t: Seq<char>| anti.contains(t) <==> listed_domains(text).contains(t),
        anti.len() > 0,
    ensures
        wanted_rules(servers, anti)[1].subtree == anti,
{
    law_listed_domains_are_normal(text);
    let subtree = anti.map_values(|t: Seq<char>| normalized(t));
    assert forall|i: int| 0 <= i < anti.len() implies subtree[i] == anti[i] by {
        assert(anti.contains(anti[i]));
        assert(listed_domains(text).contains(anti[i]));
    }
    assert(subtree == anti);
}

/// The document that states the wanted rules holds no number and is not deep.
proof fn lemma_config_restorable(servers: Seq<IpAddr>, anti: Seq<Seq<char>>)
    ensures
        restorable(forward_config(servers, anti), 127),
{
    reveal_with_fuel(restorable, 5);
    let items = forward_config(servers, anti)->Array_0;
    assert(restorable(servers_json(servers), 125));
    assert(restorable(texts_json(anti), 125));
    assert(restorable(root_rule_json(servers), 126));
    assert(restorable(anti_rule_json(servers, anti), 126));
    assert forall|i: int| 0 <= i < items.len() implies restorable(#[trigger] items[i], 126) by {
        assert(items[i] == root_rule_json(servers) || items[i] == anti_rule_json(servers, anti));
    }
}

/// The texts of addresses, as a JSON array.
fn servers_value(servers: &[IpAddr]) -> (r: Json)
    ensures
        r@ == servers_json(servers@),
        forall|i: int|
            0 <= i < servers@.len() ==> ip_from_text(ip_to_text(#[trigger] servers@[i])) == Some(
                servers@[i],
            ),
{
    let mut out: Vec<Json> = Vec::new();
    let mut i: usize = 0;
    while i < servers.len()
        invariant
            i <= servers@.len(),
            items_view(out@) == servers_json(servers@.take(i as int))->Array_0,
            forall|k: int|
                0 <= k < i ==> ip_from_text(ip_to_text(#[trigger] servers@[k])) == Some(servers@[k]),
        decreases servers@.len() - i,
    {
        let ghost before = out@;
        let item = Json::Text(format_ip(servers[i]));
        assert(item@ == JsonView::Text(ip_to_text(servers@[i as int])));
        out.push(item);
        assert(out@.drop_last() == before);
        assert(servers_json(servers@.take(i + 1))->Array_0 == servers_json(
            servers@.take(i as int),
        )->Array_0.push(JsonView::Text(ip_to_text(servers@[i as int]))));
        i += 1;
    }
    assert(servers@.take(i as int) == servers@);
    Json::Array(out)
}

/// Texts, as a JSON array.
fn texts_value(texts: &[String]) -> (r: Json)
    ensures
        r@ == texts_json(texts_of(texts@)),
{
    let mut out: Vec<Json> = Vec::new();
    let mut i: usize = 0;
    while i < texts.len()
        invariant
            i <= texts@.len(),
            items_view(out@) == texts_json(texts_of(texts@.take(i as int)))->Array_0,
        decreases texts@.len() - i,
    {
        let ghost before = out@;
        let item = Json::Text(texts[i].clone());
        assert(item@ == JsonView::Text(texts@[i as int]@));
        out.push(item);
        assert(out@.drop_last() == before);
        assert(texts_json(texts_of(texts@.take(i + 1)))->Array_0 == texts_json(
            texts_of(texts@.take(i as int)),
        )->Array_0.push(JsonView::Text(texts@[i as int]@)));
        i += 1;
    }
    assert(texts@.take(i as int) == texts@);
    Json::Array(out)
}

/// The document that states the wanted rules. It always reads back as those rules, and holds no
/// number.
pub fn build_forward_config(servers: &[IpAddr], anti_rfc6761: &[String]) -> (r: Json)
    ensures
        r@ == forward_config(servers@, texts_of(anti_rfc6761@)),
        canonical(r@) == Ok::<_, ForwardErrorView>(
            wanted_rules(servers@, texts_of(anti_rfc6761@)),
        ),
        restorable(r@, 127),
{
    let mut root: Vec<(String, Json)> = Vec::new();
    let everything = Json::Text(".".to_owned());
    assert(everything@ == JsonView::Text("."@));
    root.push(("subtree".to_owned(), everything));
    let ghost root1 = root@;
    root.push(("servers".to_owned(), servers_value(servers)));
    proof {
        assert(root1.drop_last() == Seq::<(String, Json)>::empty());
        assert(root@.drop_last() == root1);
        assert(fields_view(root1.drop_last()) == Map::<Seq<char>, JsonView>::empty());
        assert(fields_view(root1) == Map::empty().insert("subtree"@, JsonView::Text("."@)));
        assert(fields_view(root@) == root_rule_json(servers@)->Object_0);
    }
    let mut forwards: Vec<Json> = Vec::new();
    let root_rule = Json::Object(root);
    assert(root_rule@ == root_rule_json(servers@));
    forwards.push(root_rule);
    let ghost forwards1 = forwards@;
    assert(forwards1.drop_last() == Seq::<Json>::empty());
    assert(items_view(forwards1.drop_last()) == Seq::<JsonView>::empty());
    assert(items_view(forwards1) == seq![root_rule_json(servers@)]);
    if anti_rfc6761.len() > 0 {
        let mut options: Vec<(String, Json)> = Vec::new();
        let unvalidated = Json::Bool(false);
        assert(unvalidated@ == JsonView::Bool(false));
        options.push(("dnssec".to_owned(), unvalidated));
        assert(options@.drop_last() == Seq::<(String, Json)>::empty());
        assert(fields_view(options@.drop_last()) == Map::<Seq<char>, JsonView>::empty());
        let mut anti: Vec<(String, Json)> = Vec::new();
        anti.push(("subtree".to_owned(), texts_value(anti_rfc6761)));
        let ghost anti1 = anti@;
        anti.push(("servers".to_owned(), servers_value(servers)));
        let ghost anti2 = anti@;
        let options = Json::Object(options);
        assert(options@ == JsonView::Object(
            Map::empty().insert("dnssec"@, JsonView::Bool(false)),
        ));
        anti.push(("options".to_owned(), options));
        proof {
            assert(anti1.drop_last() == Seq::<(String, Json)>::empty());
            assert(anti2.drop_last() == anti1);
            assert(anti@.drop_last() == anti2);
            assert(fields_view(anti1.drop_last()) == Map::<Seq<char>, JsonView>::empty());
            assert(fields_view(anti1) == Map::empty().insert(
                "subtree"@,
                texts_json(texts_of(anti_rfc6761@)),
            ));
            assert(fields_view(anti2) == fields_view(anti1).insert(
                "servers"@,
                servers_json(servers@),
            ));
            assert(fields_view(anti@) == anti_rule_json(
                servers@,
                texts_of(anti_rfc6761@),
            )->Object_0);
        }
        let anti_rule = Json::Object(anti);
        assert(anti_rule@ == anti_rule_json(servers@, texts_of(anti_rfc6761@)));
        forwards.push(anti_rule);
        assert(forwards@.drop_last() == forwards1);
    }
    proof {
        lemma_config_states_wanted_rules(servers@, texts_of(anti_rfc6761@));
        lemma_config_restorable(servers@, texts_of(anti_rfc6761@));
        assert(items_view(forwards@) == forward_config(servers@, texts_of(anti_rfc6761@))->Array_0);
    }
    Json::Array(forwards)
}

/// Whether two lists hold the same addresses in the same order.
fn same_servers(a: &[IpAddr], b: &[IpAddr]) -> (r: bool)
    ensures
        r == (a@ == b@),
{
    if a.len() != b.len() {
        return false;
    }
    let mut i: usize = 0;
    while i < a.len()
        invariant
            a@.len() == b@.len(),
            i <= a@.len(),
            forall|k: int| 0 <= k < i ==> a@[k] == b@[k],
        decreases a@.len() - i,
    {
        if a[i] != b[i] {
            return false;
        }
        i += 1;
    }
    assert(a@ == b@);
    true
}

/// Whether two lists state the same rules in the same order.
pub fn same_rules(a: &[ForwardRule], b: &[ForwardRule]) -> (r: bool)
    ensures
        r == (rules_view(a@) == rules_view(b@)),
{
    let ghost x = rules_view(a@);
    let ghost y = rules_view(b@);
    if a.len() != b.len() {
        assert(x.len() != y.len());
        return false;
    }
    let mut i: usize = 0;
    while i < a.len()
        invariant
            a@.len() == b@.len(),
            i <= a@.len(),
            x == rules_view(a@),
            y == rules_view(b@),
            forall|k: int| 0 <= k < i ==> x[k] == y[k],
        decreases a@.len() - i,
    {
        assert(x[i as int] == a@[i as int]@);
        assert(y[i as int] == b@[i as int]@);
        if !same_texts(a[i].subtree.as_slice(), b[i].subtree.as_slice()) || !same_servers(
            a[i].servers.as_slice(),
            b[i].servers.as_slice(),
        ) || a[i].dnssec != b[i].dnssec {
            return false;
        }
        i += 1;
    }
    assert(x == y);
    true
}

} // verus!
