//! Domain names: their normal form, and the list of domains that are forwarded unvalidated.

use vstd::prelude::*;
use vstd::slice::slice_subrange;

use crate::order::{
    ascending, insert_ascending, law_ascending_unique, law_sorted_set, law_sorted_set_of_members,
    sorted_set, texts_of,
};
use crate::text::{
    after_line, before_char, before_first, chars_of, first_line, first_line_len, lemma_cut_push,
    lemma_cut_rest, lemma_line_len, lemma_lower_cut, lemma_lower_strip, lemma_lower_trim,
    lemma_strip_trailing, lemma_trim_end, lemma_trim_push, lemma_trim_start, lower_char, lower_of,
    strip_trailing, text_of, to_lower, trim, trim_end_char, trim_of, trim_start_of, white_space,
    without_feed,
};

verus! {

/// The normal form of a domain name: no white space around it, ASCII letters in lower case, and
/// exactly one dot at its end. A name of dots alone, or none at all, is the root.
pub open spec fn normalized(domain: Seq<char>) -> Seq<char> {
    let labels = strip_trailing(trim_of(domain), '.');
    if labels.len() == 0 {
        seq!['.']
    } else {
        lower_of(labels).push('.')
    }
}

/// What one line of the domain list says: the text before a `#`, without white space around it.
pub open spec fn listed_name(line: Seq<char>) -> Seq<char> {
    trim_of(before_first(line, '#'))
}

/// The normal forms of the names in a domain list, line by line.
pub open spec fn listed_domains(text: Seq<char>) -> Seq<Seq<char>>
    decreases text.len(),
{
    if text.len() == 0 {
        Seq::empty()
    } else {
        let name = listed_name(first_line(text));
        let rest = {
            proof {
                lemma_line_len(text);
            }
            listed_domains(after_line(text))
        };
        if name.len() == 0 {
            rest
        } else {
            seq![normalized(name)] + rest
        }
    }
}

/// The domains of a list, each once and in ascending order.
pub open spec fn domain_list(text: Seq<char>) -> Seq<Seq<char>> {
    sorted_set(listed_domains(text))
}

/// The lines of a text, without their line feeds.
pub open spec fn text_lines(text: Seq<char>) -> Seq<Seq<char>>
    decreases text.len(),
{
    if text.len() == 0 {
        Seq::empty()
    } else {
        let rest = {
            proof {
                lemma_line_len(text);
            }
            text_lines(after_line(text))
        };
        seq![without_feed(first_line(text))] + rest
    }
}

/// Whether a line of a domain list names no domain.
pub open spec fn silent(line: Seq<char>) -> bool {
    listed_name(line).len() == 0
}

/// Whether two lines of a domain list say the same, but for comments, white space around the name
/// and the case of ASCII letters.
pub open spec fn restates(a: Seq<char>, b: Seq<char>) -> bool {
    lower_of(listed_name(a)) == lower_of(listed_name(b))
}

/// Whether each line of `a` that names a domain is restated by a line of `b`.
pub open spec fn covered(a: Seq<Seq<char>>, b: Seq<Seq<char>>) -> bool {
    forall|i: int|
        0 <= i < a.len() && !silent(#[trigger] a[i]) ==> exists|j: int|
            0 <= j < b.len() && restates(a[i], #[trigger] b[j])
}

/// Brings a domain name into its normal form.
pub fn normalize_domain(domain: &str) -> (r: String)
    ensures
        r@ == normalized(domain@),
{
    let chars = chars_of(domain);
    let labels = trim_end_char(trim(chars.as_slice()), '.');
    normal_form(labels)
}

/// The normal form of a name that is trimmed of white space and of dots at its end.
fn normal_form(labels: &[char]) -> (r: String)
    ensures
        r@ == if labels@.len() == 0 {
            seq!['.']
        } else {
            lower_of(labels@).push('.')
        },
{
    let mut r = String::new();
    let mut i: usize = 0;
    while i < labels.len()
        invariant
            i <= labels@.len(),
            r@ == lower_of(labels@.take(i as int)),
        decreases labels@.len() - i,
    {
        r.push(to_lower(labels[i]));
        i += 1;
    }
    assert(labels@.take(i as int) == labels@);
    r.push('.');
    r
}

/// Reads a domain list: one name a line, `#` starts a comment. The result holds the normal form
/// of each name once, in ascending order.
pub fn read_anti_rfc6761(data: &str) -> (r: Vec<String>)
    ensures
        ascending(texts_of(r@)),
        forall|t: Seq<char>| texts_of(r@).contains(t) <==> listed_domains(data@).contains(t),
        texts_of(r@) == domain_list(data@),
{
    let chars = chars_of(data);
    let mut domains: Vec<String> = Vec::new();
    let mut rest: &[char] = chars.as_slice();
    let ghost mut done: Seq<Seq<char>> = Seq::empty();
    assert(done + listed_domains(rest@) == listed_domains(data@));
    while rest.len() > 0
        invariant
            done + listed_domains(rest@) == listed_domains(data@),
            ascending(texts_of(domains@)),
            forall|t: Seq<char>| texts_of(domains@).contains(t) <==> done.contains(t),
        decreases rest@.len(),
    {
        let n: usize = first_line_len(rest);
        let line = slice_subrange(rest, 0, n);
        assert(line@ == first_line(rest@));
        let name = trim(before_char(line, '#'));
        let next = slice_subrange(rest, n, rest.len());
        assert(next@ == after_line(rest@));
        if name.len() > 0 {
            let domain = normalize_domain(text_of(name).as_str());
            proof {
                let before = done;
                done = before.push(domain@);
                assert(done + listed_domains(next@) == before + (seq![domain@] + listed_domains(next@)));
                assert forall|t: Seq<char>| done.contains(t) <==> before.contains(t) || t == domain@ by {
                    if before.contains(t) {
                        let i = choose|i: int| 0 <= i < before.len() && before[i] == t;
                        assert(done[i] == t);
                    }
                    assert(done[before.len() as int] == domain@);
                }
            }
            insert_ascending(&mut domains, domain);
        }
        rest = next;
    }
    assert(done == listed_domains(data@));
    proof {
        law_domain_list(data@, texts_of(domains@));
    }
    domains
}

/// There is one list of the domains that a text names that is in ascending order.
pub proof fn law_domain_list(text: Seq<char>, list: Seq<Seq<char>>)
    requires
        ascending(list),
        forall|t: Seq<char>| list.contains(t) <==> listed_domains(text).contains(t),
    ensures
        list == domain_list(text),
{
    law_sorted_set(listed_domains(text));
    assert forall|t: Seq<char>| list.contains(t) <==> domain_list(text).contains(t) by {
        assert(list.contains(t) <==> listed_domains(text).contains(t));
    }
    law_ascending_unique(list, domain_list(text));
}

/// A line names the same with its line feed and without.
proof fn lemma_listed_name_fed(line: Seq<char>, c: char)
    requires
        white_space(c),
    ensures
        listed_name(line.push(c)) == listed_name(line),
{
    lemma_cut_push(line, '#', c);
    lemma_trim_push(before_first(line, '#'), c);
}

/// A domain is listed just where a line names it.
pub proof fn lemma_listed_lines(text: Seq<char>, t: Seq<char>)
    ensures
        listed_domains(text).contains(t) <==> exists|i: int|
            0 <= i < text_lines(text).len() && !silent(#[trigger] text_lines(text)[i])
                && normalized(listed_name(text_lines(text)[i])) == t,
    decreases text.len(),
{
    if text.len() > 0 {
        lemma_line_len(text);
        let line = first_line(text);
        let bare = without_feed(line);
        let lines = text_lines(text);
        let later = text_lines(after_line(text));
        let rest = listed_domains(after_line(text));
        let all = listed_domains(text);
        lemma_listed_lines(after_line(text), t);
        if line.last() == '\n' {
            assert(line == bare.push('\n'));
            lemma_listed_name_fed(bare, '\n');
        }
        assert(listed_name(line) == listed_name(bare));
        if rest.contains(t) {
            let i = choose|i: int|
                0 <= i < later.len() && !silent(#[trigger] later[i]) && normalized(
                    listed_name(later[i]),
                ) == t;
            assert(lines[i + 1] == later[i]);
            let k = choose|k: int| 0 <= k < rest.len() && rest[k] == t;
            if silent(bare) {
                assert(all[k] == t);
            } else {
                assert(all[k + 1] == t);
            }
        }
        if !silent(bare) && normalized(listed_name(bare)) == t {
            assert(lines[0] == bare);
            assert(all[0] == t);
        }
        if all.contains(t) && !rest.contains(t) {
            let k = choose|k: int| 0 <= k < all.len() && all[k] == t;
            if silent(bare) {
                assert(rest[k] == t);
            } else if k > 0 {
                assert(rest[k - 1] == t);
            }
            assert(lines[0] == bare);
        }
        if exists|i: int|
            0 <= i < lines.len() && !silent(#[trigger] lines[i]) && normalized(listed_name(lines[i]))
                == t {
            let i = choose|i: int|
                0 <= i < lines.len() && !silent(#[trigger] lines[i]) && normalized(
                    listed_name(lines[i]),
                ) == t;
            if i > 0 {
                assert(later[i - 1] == lines[i]);
            }
        }
    }
}

/// Names that differ in the case of ASCII letters alone have one normal form.
pub proof fn law_case_does_not_count(a: Seq<char>, b: Seq<char>)
    requires
        lower_of(a) == lower_of(b),
    ensures
        normalized(a) == normalized(b),
{
    lemma_lower_trim(a);
    lemma_lower_trim(b);
    lemma_lower_strip(trim_of(a));
    lemma_lower_strip(trim_of(b));
    let x = strip_trailing(trim_of(a), '.');
    let y = strip_trailing(trim_of(b), '.');
    assert(lower_of(x) == lower_of(y));
    assert(lower_of(x).len() == x.len());
    assert(lower_of(y).len() == y.len());
}

/// What a domain listed by `a` is worth where its lines are restated in `b`.
proof fn lemma_covered(a: Seq<char>, b: Seq<char>, t: Seq<char>)
    requires
        covered(text_lines(a), text_lines(b)),
        listed_domains(a).contains(t),
    ensures
        listed_domains(b).contains(t),
{
    lemma_listed_lines(a, t);
    lemma_listed_lines(b, t);
    let x = text_lines(a);
    let y = text_lines(b);
    let i = choose|i: int|
        0 <= i < x.len() && !silent(#[trigger] x[i]) && normalized(listed_name(x[i])) == t;
    let j = choose|j: int| 0 <= j < y.len() && restates(x[i], #[trigger] y[j]);
    law_case_does_not_count(listed_name(x[i]), listed_name(y[j]));
    assert(lower_of(listed_name(x[i])).len() == listed_name(x[i]).len());
    assert(lower_of(listed_name(y[j])).len() == listed_name(y[j]).len());
    assert(!silent(y[j]));
}

/// What is read from a domain list depends on what its lines say alone: texts whose lines restate
/// each other, lines without a name aside, give the same list. So lines can change places or be
/// repeated, comments and blank lines can come and go, and case does not count.
pub proof fn law_restated_list(a: Seq<char>, b: Seq<char>)
    requires
        covered(text_lines(a), text_lines(b)),
        covered(text_lines(b), text_lines(a)),
    ensures
        domain_list(a) == domain_list(b),
{
    assert forall|t: Seq<char>| listed_domains(a).contains(t) <==> listed_domains(b).contains(t) by {
        if listed_domains(a).contains(t) {
            lemma_covered(a, b, t);
        }
        if listed_domains(b).contains(t) {
            lemma_covered(b, a, t);
        }
    }
    law_sorted_set_of_members(listed_domains(a), listed_domains(b));
}

/// Texts with the same lines, those without a name aside, give the same list: lines can change
/// places or be repeated, and blank lines and comments can come and go.
pub proof fn law_rearranged_list(a: Seq<char>, b: Seq<char>)
    requires
        forall|line: Seq<char>|
            !silent(line) ==> (#[trigger] text_lines(a).contains(line) <==> text_lines(b).contains(
                line,
            )),
    ensures
        domain_list(a) == domain_list(b),
{
    let x = text_lines(a);
    let y = text_lines(b);
    assert forall|i: int| 0 <= i < x.len() && !silent(#[trigger] x[i]) implies exists|j: int|
        0 <= j < y.len() && restates(x[i], #[trigger] y[j]) by {
        assert(x.contains(x[i]));
        let j = choose|j: int| 0 <= j < y.len() && y[j] == x[i];
        assert(restates(x[i], y[j]));
    }
    assert forall|i: int| 0 <= i < y.len() && !silent(#[trigger] y[i]) implies exists|j: int|
        0 <= j < x.len() && restates(y[i], #[trigger] x[j]) by {
        assert(y.contains(y[i]));
        assert(x.contains(y[i]));
        let j = choose|j: int| 0 <= j < x.len() && x[j] == y[i];
        assert(restates(y[i], x[j]));
    }
    law_restated_list(a, b);
}

/// A line says the same with a comment behind it, and in other case; and a line that is blank or
/// all comment names nothing.
pub proof fn law_restatements(line: Seq<char>, note: Seq<char>, other: Seq<char>)
    ensures
        restates(line, line.push(' ').push('#') + note),
        restates(line, line.push('#') + note),
        lower_of(other) == lower_of(line) ==> restates(line, other),
        trim_start_of(line).len() == 0 || trim_start_of(line)[0] == '#' ==> silent(line),
{
    lemma_cut_rest(line.push(' '), '#', note);
    lemma_cut_rest(line, '#', note);
    lemma_listed_name_fed(line, ' ');
    if lower_of(other) == lower_of(line) {
        lemma_lower_cut(line);
        lemma_lower_cut(other);
        lemma_lower_trim(before_first(line, '#'));
        lemma_lower_trim(before_first(other, '#'));
    }
    if trim_start_of(line).len() == 0 || trim_start_of(line)[0] == '#' {
        lemma_silent(line);
    }
}

/// What white space and a comment leave of a line.
proof fn lemma_silent(line: Seq<char>)
    requires
        trim_start_of(line).len() == 0 || trim_start_of(line)[0] == '#',
    ensures
        trim_start_of(before_first(line, '#')).len() == 0,
    decreases line.len(),
{
    if line.len() > 0 && white_space(line[0]) {
        lemma_silent(line.drop_first());
        let rest = before_first(line.drop_first(), '#');
        assert((seq![line[0]] + rest).drop_first() == rest);
    }
}

/// A normal form is its own normal form.
pub proof fn law_normalize_idempotent(domain: Seq<char>)
    ensures
        normalized(normalized(domain)) == normalized(domain),
{
    let trimmed = trim_of(domain);
    let labels = strip_trailing(trimmed, '.');
    let n = normalized(domain);
    lemma_trim_start(domain);
    lemma_trim_end(trim_start_of(domain));
    lemma_strip_trailing(trimmed, '.');
    if labels.len() == 0 {
        assert(trim_of(n) == n);
        assert(strip_trailing(n.drop_last(), '.').len() == 0);
    } else {
        let low = lower_of(labels);
        assert(n == low.push('.'));
        assert(labels[0] == trim_start_of(domain)[0]);
        assert(n[0] == lower_char(labels[0]));
        assert(n.last() == '.');
        assert(trim_of(n) == n);
        assert(n.drop_last() == low);
        assert(low.last() == lower_char(labels.last()));
        assert(strip_trailing(low, '.') == low);
        assert(strip_trailing(n, '.') == low);
        assert(lower_of(low) == low);
    }
}

/// A normal form ends in exactly one dot, has no white space around it and no ASCII upper case.
pub proof fn law_normal_form(domain: Seq<char>)
    ensures
        normalized(domain).last() == '.',
        normalized(domain).len() > 1 ==> normalized(domain)[normalized(domain).len() - 2] != '.',
        trim_of(normalized(domain)) == normalized(domain),
        lower_of(normalized(domain)) == normalized(domain),
{
    let trimmed = trim_of(domain);
    let labels = strip_trailing(trimmed, '.');
    let n = normalized(domain);
    lemma_trim_start(domain);
    lemma_trim_end(trim_start_of(domain));
    lemma_strip_trailing(trimmed, '.');
    if labels.len() > 0 {
        assert(labels[0] == trim_start_of(domain)[0]);
        assert(n[0] == lower_char(labels[0]));
        assert(n[n.len() - 2] == lower_char(labels.last()));
    }
    assert(n.last() == '.');
    assert(trim_of(n) == n);
    assert(lower_of(n) == n);
}

/// The domains that a list names are in their normal form, so that normalising them again, as
/// the comparison with Knot Resolver's rules does, changes nothing.
pub proof fn law_listed_domains_are_normal(text: Seq<char>)
    ensures
        forall|t: Seq<char>| #[trigger] listed_domains(text).contains(t) ==> normalized(t) == t,
    decreases text.len(),
{
    if text.len() > 0 {
        lemma_line_len(text);
        let name = listed_name(first_line(text));
        let rest = listed_domains(after_line(text));
        law_listed_domains_are_normal(after_line(text));
        law_normalize_idempotent(name);
        assert forall|t: Seq<char>| #[trigger] listed_domains(text).contains(t) implies normalized(t)
            == t by {
            let i = choose|i: int| 0 <= i < listed_domains(text).len() && listed_domains(text)[i] == t;
            if name.len() > 0 {
                if i > 0 {
                    assert(rest[i - 1] == t);
                    assert(rest.contains(t));
                }
            } else {
                assert(rest.contains(t));
            }
        }
    }
}

} // verus!
