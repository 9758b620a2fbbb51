//! What a document of forwarding rules says, field by field, and what the wanted one says.

use vstd::prelude::*;

use crate::addr::{ip_from_text, ip_to_text, IpAddr};
use crate::domain::normalized;
use crate::forward::{
    canonical, canonical_rule, canonical_rules, forward_config, rule_servers, rule_subtree,
    server_items, subtree_items, wanted_rules, ForwardErrorView, RuleView,
};
use crate::json::JsonView;

verus! {

/// The rule at each place is that of the item at the same place.
proof fn lemma_rules(items: Seq<JsonView>)
    ensures
        match canonical_rules(items) {
            Ok(rules) => rules.len() == items.len() && forall|i: int|
                0 <= i < items.len() ==> canonical_rule(i, #[trigger] items[i]) == Ok::<
                    _,
                    ForwardErrorView,
                >(rules[i]),
            Err(e) => exists|i: int|
                0 <= i < items.len() && canonical_rules(items.take(i)) is Ok && canonical_rule(
                    i,
                    #[trigger] items[i],
                ) == Err::<RuleView, _>(e),
        },
    decreases items.len(),
{
    if items.len() > 0 {
        let n = items.len() - 1;
        let rest = items.drop_last();
        lemma_rules(rest);
        assert(items.take(n) == rest);
        match canonical_rules(rest) {
            Ok(before) => match canonical_rule(n, items.last()) {
                Ok(rule) => {
                    let rules = before.push(rule);
                    assert forall|i: int| 0 <= i < items.len() implies canonical_rule(
                        i,
                        #[trigger] items[i],
                    ) == Ok::<_, ForwardErrorView>(rules[i]) by {
                        if i < n {
                            assert(items[i] == rest[i]);
                        }
                    }
                },
                Err(e) => {
                    assert(canonical_rule(n, items[n]) == Err::<RuleView, _>(e));
                },
            },
            Err(e) => {
                let i = choose|i: int|
                    0 <= i < rest.len() && canonical_rules(rest.take(i)) is Ok && canonical_rule(
                        i,
                        #[trigger] rest[i],
                    ) == Err::<RuleView, _>(e);
                assert(items[i] == rest[i]);
                assert(items.take(i) == rest.take(i));
            },
        }
    }
}

/// The name at each place is that of the item at the same place.
proof fn lemma_subtree(rule: int, items: Seq<JsonView>)
    ensures
        match subtree_items(rule, items) {
            Ok(texts) => texts.len() == items.len() && forall|k: int|
                0 <= k < items.len() ==> (#[trigger] items[k]) is Text && texts[k] == normalized(
                    items[k]->Text_0,
                ),
            Err(e) => exists|n: int|
                0 <= n < items.len() && e == (ForwardErrorView::SubtreeNotText { rule, item: n })
                    && !((#[trigger] items[n]) is Text) && forall|k: int|
                    0 <= k < n ==> (#[trigger] items[k]) is Text,
        },
    decreases items.len(),
{
    if items.len() > 0 {
        let rest = items.drop_last();
        let n = rest.len() as int;
        lemma_subtree(rule, rest);
        match subtree_items(rule, rest) {
            Ok(texts) => {
                assert forall|k: int| 0 <= k < n implies (#[trigger] items[k]) is Text && texts[k]
                    == normalized(items[k]->Text_0) by {
                    assert(items[k] == rest[k]);
                }
                assert(items[n] == items.last());
            },
            Err(e) => {
                let m = choose|m: int|
                    0 <= m < rest.len() && e == (ForwardErrorView::SubtreeNotText { rule, item: m })
                        && !((#[trigger] rest[m]) is Text) && forall|k: int|
                        0 <= k < m ==> (#[trigger] rest[k]) is Text;
                assert(items[m] == rest[m]);
                assert forall|k: int| 0 <= k < m implies (#[trigger] items[k]) is Text by {
                    assert(items[k] == rest[k]);
                }
            },
        }
    }
}

/// The address at each place is that of the item at the same place.
proof fn lemma_servers(rule: int, items: Seq<JsonView>)
    ensures
        match server_items(rule, items) {
            Ok(ips) => ips.len() == items.len() && forall|k: int|
                0 <= k < items.len() ==> (#[trigger] items[k]) is Text && ip_from_text(
                    items[k]->Text_0,
                ) == Some(ips[k]),
            Err(e) => exists|n: int|
                0 <= n < items.len() && (if (#[trigger] items[n]) is Text {
                    ip_from_text(items[n]->Text_0) is None && e == (
                    ForwardErrorView::InvalidServer { rule, text: items[n]->Text_0 })
                } else {
                    e == (ForwardErrorView::ServerNotText { rule, item: n })
                }) && forall|k: int|
                    0 <= k < n ==> (#[trigger] items[k]) is Text && ip_from_text(
                        items[k]->Text_0,
                    ) is Some,
        },
    decreases items.len(),
{
    if items.len() > 0 {
        let rest = items.drop_last();
        let n = rest.len() as int;
        lemma_servers(rule, rest);
        match server_items(rule, rest) {
            Ok(ips) => {
                assert forall|k: int| 0 <= k < n implies (#[trigger] items[k]) is Text
                    && ip_from_text(items[k]->Text_0) == Some(ips[k]) by {
                    assert(items[k] == rest[k]);
                }
                assert(items[n] == items.last());
            },
            Err(e) => {
                let m = choose|m: int|
                    0 <= m < rest.len() && (if (#[trigger] rest[m]) is Text {
                        ip_from_text(rest[m]->Text_0) is None && e == (
                        ForwardErrorView::InvalidServer { rule, text: rest[m]->Text_0 })
                    } else {
                        e == (ForwardErrorView::ServerNotText { rule, item: m })
                    }) && forall|k: int|
                        0 <= k < m ==> (#[trigger] rest[k]) is Text && ip_from_text(
                            rest[k]->Text_0,
                        ) is Some;
                assert(items[m] == rest[m]);
                assert forall|k: int| 0 <= k < m implies (#[trigger] items[k]) is Text
                    && ip_from_text(items[k]->Text_0) is Some by {
                    assert(items[k] == rest[k]);
                }
            },
        }
    }
}

/// A document that is read has a rule for each item, and each item is an object.
pub proof fn law_rule_for_each_item(j: JsonView, rules: Seq<RuleView>, i: int)
    requires
        canonical(j) == Ok::<_, ForwardErrorView>(rules),
    ensures
        j is Array,
        rules.len() == j->Array_0.len(),
        0 <= i < rules.len() ==> j->Array_0[i] is Object,
{
    lemma_rules(j->Array_0);
    if 0 <= i < rules.len() {
        assert(canonical_rule(i, j->Array_0[i]) is Ok);
    }
}

/// A rule says of validation what the boolean at `options.dnssec` says, whatever else it says, and
/// nothing just where there is no such boolean. So rules that differ in it are never equal.
pub proof fn law_rule_dnssec(j: JsonView, rules: Seq<RuleView>, i: int, b: bool)
    requires
        canonical(j) == Ok::<_, ForwardErrorView>(rules),
        0 <= i < rules.len(),
    ensures
        ({
            let fields = j->Array_0[i]->Object_0;
            let options = fields["options"@]->Object_0;
            rules[i].dnssec == Some(b) <==> fields.dom().contains("options"@)
                && fields["options"@] is Object && options.dom().contains("dnssec"@)
                && options["dnssec"@] == JsonView::Bool(b)
        }),
{
    lemma_rules(j->Array_0);
    assert(canonical_rule(i, j->Array_0[i]) == Ok::<_, ForwardErrorView>(rules[i]));
}

/// A rule forwards to all the servers that it lists, in order.
pub proof fn law_rule_servers(j: JsonView, rules: Seq<RuleView>, i: int, k: int)
    requires
        canonical(j) == Ok::<_, ForwardErrorView>(rules),
        0 <= i < rules.len(),
    ensures
        ({
            let fields = j->Array_0[i]->Object_0;
            let items = fields["servers"@]->Array_0;
            &&& fields.dom().contains("servers"@)
            &&& fields["servers"@] is Array
            &&& rules[i].servers.len() == items.len()
            &&& 0 <= k < items.len() ==> items[k] is Text && ip_from_text(items[k]->Text_0) == Some(
                rules[i].servers[k],
            )
        }),
{
    lemma_rules(j->Array_0);
    assert(canonical_rule(i, j->Array_0[i]) == Ok::<_, ForwardErrorView>(rules[i]));
    lemma_servers(i, j->Array_0[i]->Object_0["servers"@]->Array_0);
}

/// A rule is for the one name or for all the names that it lists, in order and in normal form, and
/// for none where it lists none.
pub proof fn law_rule_subtree(j: JsonView, rules: Seq<RuleView>, i: int, k: int)
    requires
        canonical(j) == Ok::<_, ForwardErrorView>(rules),
        0 <= i < rules.len(),
    ensures
        ({
            let fields = j->Array_0[i]->Object_0;
            let subtree = fields["subtree"@];
            if !fields.dom().contains("subtree"@) {
                rules[i].subtree.len() == 0
            } else if subtree is Text {
                rules[i].subtree.len() == 1 && rules[i].subtree[0] == normalized(subtree->Text_0)
            } else {
                &&& subtree is Array
                &&& rules[i].subtree.len() == subtree->Array_0.len()
                &&& 0 <= k < subtree->Array_0.len() ==> subtree->Array_0[k] is Text
                    && rules[i].subtree[k] == normalized(subtree->Array_0[k]->Text_0)
            }
        }),
{
    lemma_rules(j->Array_0);
    assert(canonical_rule(i, j->Array_0[i]) == Ok::<_, ForwardErrorView>(rules[i]));
    let fields = j->Array_0[i]->Object_0;
    if fields["subtree"@] is Array {
        lemma_subtree(i, fields["subtree"@]->Array_0);
    }
}

/// Whether an object lists names as a rule does: one, an array of them, or none.
pub open spec fn lists_names(fields: Map<Seq<char>, JsonView>) -> bool {
    fields.dom().contains("subtree"@) ==> fields["subtree"@] is Text || (fields["subtree"@] is Array
        && forall|k: int|
        0 <= k < fields["subtree"@]->Array_0.len() ==> (
        #[trigger] fields["subtree"@]->Array_0[k]) is Text)
}

/// Whether an object lists servers as a rule does: an array of texts that denote addresses.
pub open spec fn lists_servers(fields: Map<Seq<char>, JsonView>) -> bool {
    fields.dom().contains("servers"@) && fields["servers"@] is Array && forall|k: int|
        0 <= k < fields["servers"@]->Array_0.len() ==> (
        #[trigger] fields["servers"@]->Array_0[k]) is Text && ip_from_text(
            fields["servers"@]->Array_0[k]->Text_0,
        ) is Some
}

/// A subtree is read just where it lists names.
proof fn lemma_lists_names(rule: int, fields: Map<Seq<char>, JsonView>)
    ensures
        rule_subtree(rule, fields) is Ok <==> lists_names(fields),
{
    if fields.dom().contains("subtree"@) && fields["subtree"@] is Array {
        let items = fields["subtree"@]->Array_0;
        lemma_subtree(rule, items);
        if subtree_items(rule, items) is Err {
            let n = choose|n: int|
                0 <= n < items.len() && !((#[trigger] items[n]) is Text);
            assert(!(fields["subtree"@]->Array_0[n] is Text));
        }
    }
}

/// Servers are read just where they are listed.
proof fn lemma_lists_servers(rule: int, fields: Map<Seq<char>, JsonView>)
    ensures
        rule_servers(rule, fields) is Ok <==> lists_servers(fields),
{
    if fields.dom().contains("servers"@) && fields["servers"@] is Array {
        let items = fields["servers"@]->Array_0;
        lemma_servers(rule, items);
        if server_items(rule, items) is Err {
            let n = choose|n: int|
                0 <= n < items.len() && !((#[trigger] items[n]) is Text && ip_from_text(
                    items[n]->Text_0,
                ) is Some);
            assert(fields["servers"@]->Array_0[n] == items[n]);
        }
    }
}

/// A document is read just where it is an array of objects, each of which lists names and servers
/// as a rule does.
pub proof fn law_documents_read(j: JsonView)
    ensures
        canonical(j) is Ok <==> j is Array && forall|i: int|
            0 <= i < j->Array_0.len() ==> (#[trigger] j->Array_0[i]) is Object && lists_names(
                j->Array_0[i]->Object_0,
            ) && lists_servers(j->Array_0[i]->Object_0),
{
    if j is Array {
        let items = j->Array_0;
        lemma_rules(items);
        match canonical_rules(items) {
            Ok(rules) => {
                assert forall|i: int| 0 <= i < j->Array_0.len() implies (
                #[trigger] j->Array_0[i]) is Object && lists_names(j->Array_0[i]->Object_0)
                    && lists_servers(j->Array_0[i]->Object_0) by {
                    assert(canonical_rule(i, items[i]) is Ok);
                    lemma_lists_names(i, items[i]->Object_0);
                    lemma_lists_servers(i, items[i]->Object_0);
                }
            },
            Err(e) => {
                let i = choose|i: int|
                    0 <= i < items.len() && canonical_rules(items.take(i)) is Ok && canonical_rule(
                        i,
                        #[trigger] items[i],
                    ) == Err::<RuleView, _>(e);
                assert(j->Array_0[i] == items[i]);
                lemma_lists_names(i, items[i]->Object_0);
                lemma_lists_servers(i, items[i]->Object_0);
            },
        }
    }
}

/// Why a document is not read: it is no array, or the error is that of the first item that states
/// no rule.
pub proof fn law_documents_refused(j: JsonView, e: ForwardErrorView)
    requires
        canonical(j) == Err::<Seq<RuleView>, _>(e),
    ensures
        e is NotAnArray <==> !(j is Array),
        j is Array ==> exists|i: int|
            0 <= i < j->Array_0.len() && canonical(JsonView::Array(j->Array_0.take(i))) is Ok
                && canonical_rule(i, #[trigger] j->Array_0[i]) == Err::<RuleView, _>(e),
{
    if j is Array {
        let items = j->Array_0;
        lemma_rules(items);
        let i = choose|i: int|
            0 <= i < items.len() && canonical_rules(items.take(i)) is Ok && canonical_rule(
                i,
                #[trigger] items[i],
            ) == Err::<RuleView, _>(e);
        assert(j->Array_0[i] == items[i]);
        assert(canonical(JsonView::Array(items.take(i))) is Ok);
        if items[i] is Object {
            lemma_subtree(i, items[i]->Object_0["subtree"@]->Array_0);
            lemma_servers(i, items[i]->Object_0["servers"@]->Array_0);
        }
    }
}

/// Why an item states no rule: it is no object, or its names are faulty, or else its servers are.
/// Of several faulty names or servers the first counts.
pub proof fn law_item_refused(
    i: int,
    item: JsonView,
    e: ForwardErrorView,
    fields: Map<Seq<char>, JsonView>,
    names: Seq<JsonView>,
    servers: Seq<JsonView>,
)
    requires
        canonical_rule(i, item) == Err::<RuleView, _>(e),
        fields == item->Object_0,
        names == fields["subtree"@]->Array_0,
        servers == fields["servers"@]->Array_0,
    ensures
        match e {
            ForwardErrorView::NotAnArray => false,
            ForwardErrorView::RuleNotObject { rule } => rule == i && !(item is Object),
            ForwardErrorView::InvalidSubtree { rule, subtree } => rule == i && item is Object
                && fields.dom().contains("subtree"@) && fields["subtree"@] == subtree
                && !(subtree is Text) && !(subtree is Array),
            ForwardErrorView::SubtreeNotText { rule, item: n } => rule == i && item is Object
                && fields.dom().contains("subtree"@) && fields["subtree"@] is Array && 0 <= n
                < names.len() && !(names[n] is Text) && forall|k: int|
                0 <= k < n ==> (#[trigger] names[k]) is Text,
            ForwardErrorView::MissingServers { rule } => rule == i && item is Object && lists_names(
                fields,
            ) && !(fields.dom().contains("servers"@) && fields["servers"@] is Array),
            ForwardErrorView::ServerNotText { rule, item: n } => rule == i && item is Object
                && lists_names(fields) && fields.dom().contains("servers"@)
                && fields["servers"@] is Array && 0 <= n < servers.len() && !(servers[n] is Text)
                && forall|k: int|
                0 <= k < n ==> (#[trigger] servers[k]) is Text && ip_from_text(
                    servers[k]->Text_0,
                ) is Some,
            ForwardErrorView::InvalidServer { rule, text } => rule == i && item is Object
                && lists_names(fields) && fields.dom().contains("servers"@)
                && fields["servers"@] is Array && ip_from_text(text) is None && exists|n: int|
                0 <= n < servers.len() && #[trigger] servers[n] == JsonView::Text(text) && forall|
                    k: int,
                |
                    0 <= k < n ==> (#[trigger] servers[k]) is Text && ip_from_text(
                        servers[k]->Text_0,
                    ) is Some,
        },
{
    lemma_lists_names(i, fields);
    lemma_lists_servers(i, fields);
    lemma_subtree(i, names);
    lemma_servers(i, servers);
}

/// The wanted rules: one for everything, which leaves validation alone, and, where there are
/// domains to be forwarded unvalidated, one for just those. Each forwards to all the servers, in
/// order.
pub proof fn law_wanted_rules(servers: Seq<IpAddr>, anti: Seq<Seq<char>>, i: int)
    ensures
        wanted_rules(servers, anti).len() == if anti.len() == 0 {
            1int
        } else {
            2int
        },
        0 <= i < wanted_rules(servers, anti).len() ==> wanted_rules(servers, anti)[i].servers
            == servers,
        wanted_rules(servers, anti)[0].subtree.len() == 1,
        wanted_rules(servers, anti)[0].subtree[0] == seq!['.'],
        wanted_rules(servers, anti)[0].dnssec is None,
        anti.len() > 0 ==> {
            let rule = wanted_rules(servers, anti)[1];
            &&& rule.dnssec == Some(false)
            &&& rule.subtree.len() == anti.len()
            &&& 0 <= i < anti.len() ==> rule.subtree[i] == normalized(anti[i])
        },
{
}

/// The document of the wanted rules, field by field: the first rule has a subtree and servers, the
/// second has the domains as they are given, the same servers, and an option that turns validation
/// off. Every server is listed in every rule, in order.
pub proof fn law_wanted_document(servers: Seq<IpAddr>, anti: Seq<Seq<char>>, i: int, k: int)
    ensures
        forward_config(servers, anti) is Array,
        forward_config(servers, anti)->Array_0.len() == if anti.len() == 0 {
            1int
        } else {
            2int
        },
        0 <= i < forward_config(servers, anti)->Array_0.len() ==> {
            let rule = forward_config(servers, anti)->Array_0[i];
            let fields = rule->Object_0;
            &&& rule is Object
            &&& fields.dom().contains("subtree"@)
            &&& fields.dom().contains("servers"@)
            &&& fields.dom().contains("options"@) <==> i == 1
            &&& forall|name: Seq<char>| #[trigger]
                fields.dom().contains(name) ==> name == "subtree"@ || name == "servers"@ || name
                    == "options"@
            &&& fields["servers"@] is Array
            &&& fields["servers"@]->Array_0.len() == servers.len()
            &&& 0 <= k < servers.len() ==> fields["servers"@]->Array_0[k] == JsonView::Text(
                ip_to_text(servers[k]),
            )
            &&& i == 0 ==> fields["subtree"@] == JsonView::Text(seq!['.'])
            &&& i == 1 ==> {
                let options = fields["options"@]->Object_0;
                &&& fields["subtree"@] is Array
                &&& fields["subtree"@]->Array_0.len() == anti.len()
                &&& 0 <= k < anti.len() ==> fields["subtree"@]->Array_0[k] == JsonView::Text(anti[k])
                &&& fields["options"@] is Object
                &&& options.dom().contains("dnssec"@)
                &&& options["dnssec"@] == JsonView::Bool(false)
                &&& forall|name: Seq<char>| #[trigger]
                    options.dom().contains(name) ==> name == "dnssec"@
            }
        },
{
    reveal_strlit("subtree");
    reveal_strlit("servers");
    reveal_strlit("options");
    reveal_strlit(".");
    assert("subtree"@[1] != "servers"@[1]);
    assert("subtree"@[0] != "options"@[0]);
    assert("servers"@[0] != "options"@[0]);
    assert("."@ == seq!['.']);
}

} // verus!
