//! Equality of texts, their order by the bytes of their UTF-8 encoding, and sorted lists without
//! repetition.

use vstd::prelude::*;
use vstd::utf8::encode_utf8;

verus! {

/// Whether `a` comes before `b` in the lexicographic order of byte strings.
pub open spec fn bytes_less(a: Seq<u8>, b: Seq<u8>) -> bool
    decreases a.len(),
{
    if b.len() == 0 {
        false
    } else if a.len() == 0 {
        true
    } else if a[0] != b[0] {
        a[0] < b[0]
    } else {
        bytes_less(a.drop_first(), b.drop_first())
    }
}

/// Whether the text `a` sorts before the text `b`: texts are ordered by their bytes.
pub open spec fn text_less(a: Seq<char>, b: Seq<char>) -> bool {
    bytes_less(encode_utf8(a), encode_utf8(b))
}

/// Whether the texts stand in strictly ascending order, so that none occurs twice.
pub open spec fn ascending(texts: Seq<Seq<char>>) -> bool {
    forall|i: int, j: int| 0 <= i < j < texts.len() ==> text_less(#[trigger] texts[i], #[trigger] texts[j])
}

/// The texts of a list of strings.
pub open spec fn texts_of(strings: Seq<String>) -> Seq<Seq<char>> {
    strings.map_values(|s: String| s@)
}

/// No byte string comes before itself.
proof fn lemma_irreflexive(a: Seq<u8>)
    ensures
        !bytes_less(a, a),
    decreases a.len(),
{
    if a.len() > 0 {
        lemma_irreflexive(a.drop_first());
    }
}

/// The order of byte strings is transitive.
proof fn lemma_transitive(a: Seq<u8>, b: Seq<u8>, c: Seq<u8>)
    requires
        bytes_less(a, b),
        bytes_less(b, c),
    ensures
        bytes_less(a, c),
    decreases a.len(),
{
    if a.len() > 0 && a[0] == b[0] && b[0] == c[0] {
        lemma_transitive(a.drop_first(), b.drop_first(), c.drop_first());
    }
}

/// Of two different byte strings one comes before the other.
proof fn lemma_total(a: Seq<u8>, b: Seq<u8>)
    ensures
        bytes_less(a, b) || bytes_less(b, a) || a == b,
    decreases a.len(),
{
    if a.len() > 0 && b.len() > 0 && a[0] == b[0] {
        lemma_total(a.drop_first(), b.drop_first());
        if a.drop_first() == b.drop_first() {
            assert(a == seq![a[0]] + a.drop_first());
            assert(b == seq![b[0]] + b.drop_first());
        }
    } else if a.len() == 0 && b.len() == 0 {
        assert(a == b);
    }
}

/// Different texts differ in their bytes.
proof fn lemma_text_total(a: Seq<char>, b: Seq<char>)
    ensures
        text_less(a, b) || text_less(b, a) || a == b,
{
    lemma_total(encode_utf8(a), encode_utf8(b));
    vstd::utf8::encode_utf8_decode_utf8(a);
    vstd::utf8::encode_utf8_decode_utf8(b);
}

/// Texts are strictly ordered: the order is irreflexive, transitive and total.
pub proof fn law_text_order(a: Seq<char>, b: Seq<char>, c: Seq<char>)
    ensures
        !text_less(a, a),
        text_less(a, b) && text_less(b, c) ==> text_less(a, c),
        text_less(a, b) || text_less(b, a) || a == b,
{
    lemma_irreflexive(encode_utf8(a));
    if text_less(a, b) && text_less(b, c) {
        lemma_transitive(encode_utf8(a), encode_utf8(b), encode_utf8(c));
    }
    lemma_text_total(a, b);
}

/// One byte string comes before another just where, behind a part that they share, it ends or goes
/// on with a smaller byte.
pub proof fn law_bytes_less(a: Seq<u8>, b: Seq<u8>)
    ensures
        bytes_less(a, b) <==> exists|n: int|
            0 <= n <= a.len() && n < b.len() && #[trigger] a.take(n) == b.take(n) && (n == a.len()
                || a[n] < b[n]),
    decreases a.len(),
{
    if a.len() > 0 && b.len() > 0 && a[0] == b[0] {
        let (x, y) = (a.drop_first(), b.drop_first());
        law_bytes_less(x, y);
        if bytes_less(x, y) {
            let n = choose|n: int|
                0 <= n <= x.len() && n < y.len() && #[trigger] x.take(n) == y.take(n) && (n == x.len()
                    || x[n] < y[n]);
            assert(a.take(n + 1) == seq![a[0]] + x.take(n));
            assert(b.take(n + 1) == seq![b[0]] + y.take(n));
            if n + 1 < a.len() {
                assert(a[n + 1] == x[n]);
                assert(b[n + 1] == y[n]);
            }
        }
        if exists|n: int|
            0 <= n <= a.len() && n < b.len() && #[trigger] a.take(n) == b.take(n) && (n == a.len()
                || a[n] < b[n]) {
            let n = choose|n: int|
                0 <= n <= a.len() && n < b.len() && #[trigger] a.take(n) == b.take(n) && (n == a.len()
                    || a[n] < b[n]);
            assert(n > 0);
            assert(x.take(n - 1) == a.take(n).drop_first());
            assert(y.take(n - 1) == b.take(n).drop_first());
            if n < a.len() {
                assert(a[n] == x[n - 1]);
                assert(b[n] == y[n - 1]);
            }
        }
    } else if a.len() == 0 {
        assert(a.take(0) == b.take(0));
    } else if b.len() > 0 {
        assert(a.take(0) == b.take(0));
        assert forall|n: int| 0 < n <= a.len() && n < b.len() implies #[trigger] a.take(n) != b.take(
            n,
        ) by {
            assert(a.take(n)[0] == a[0]);
            assert(b.take(n)[0] == b[0]);
        }
    }
}

/// One text sorts before another just where, behind a part that their bytes share, it ends or goes
/// on with a smaller byte.
pub proof fn law_text_less(a: Seq<char>, b: Seq<char>)
    ensures
        text_less(a, b) <==> exists|n: int|
            0 <= n <= encode_utf8(a).len() && n < encode_utf8(b).len() && #[trigger] encode_utf8(
                a,
            ).take(n) == encode_utf8(b).take(n) && (n == encode_utf8(a).len() || encode_utf8(a)[n]
                < encode_utf8(b)[n]),
        text_less(a, b) ==> a != b,
{
    law_bytes_less(encode_utf8(a), encode_utf8(b));
    law_text_order(a, b, a);
}

/// The texts of a list of strings are those strings, in their places.
pub proof fn law_texts_of(strings: Seq<String>, i: int)
    ensures
        texts_of(strings).len() == strings.len(),
        0 <= i < strings.len() ==> texts_of(strings)[i] == strings[i]@,
{
}

/// Two ascending lists with the same members are the same list.
pub proof fn law_ascending_unique(x: Seq<Seq<char>>, y: Seq<Seq<char>>)
    requires
        ascending(x),
        ascending(y),
        forall|t: Seq<char>| x.contains(t) <==> y.contains(t),
    ensures
        x == y,
    decreases x.len(),
{
    if x.len() == 0 {
        if y.len() > 0 {
            assert(y.contains(y[0]));
        }
        assert(x == y);
    } else {
        assert(x.contains(x.last()));
        let k = choose|k: int| 0 <= k < y.len() && y[k] == x.last();
        if k < y.len() - 1 {
            assert(y.contains(y.last()));
            let m = choose|m: int| 0 <= m < x.len() && x[m] == y.last();
            assert(text_less(y[k], y[y.len() - 1]));
            if m < x.len() - 1 {
                assert(text_less(x[m], x[x.len() - 1]));
                law_text_order(x.last(), y.last(), x.last());
            } else {
                law_text_order(x.last(), x.last(), x.last());
            }
            assert(false);
        }
        assert(x.last() == y.last());
        let p = x.drop_last();
        let q = y.drop_last();
        assert forall|t: Seq<char>| p.contains(t) <==> q.contains(t) by {
            if p.contains(t) {
                let i = choose|i: int| 0 <= i < p.len() && p[i] == t;
                assert(x[i] == t);
                assert(x.contains(t));
                let j = choose|j: int| 0 <= j < y.len() && y[j] == t;
                if j == y.len() - 1 {
                    assert(text_less(x[i], x[x.len() - 1]));
                    law_text_order(t, t, t);
                }
                assert(q[j] == t);
            }
            if q.contains(t) {
                let i = choose|i: int| 0 <= i < q.len() && q[i] == t;
                assert(y[i] == t);
                assert(y.contains(t));
                let j = choose|j: int| 0 <= j < x.len() && x[j] == t;
                if j == x.len() - 1 {
                    assert(text_less(y[i], y[y.len() - 1]));
                    law_text_order(t, t, t);
                }
                assert(p[j] == t);
            }
        }
        law_ascending_unique(p, q);
        assert(x == p.push(x.last()));
        assert(y == q.push(y.last()));
    }
}

/// An ascending list with `t` put at its place, unless it is there already.
pub open spec fn inserted(list: Seq<Seq<char>>, t: Seq<char>) -> Seq<Seq<char>>
    decreases list.len(),
{
    if list.len() == 0 || text_less(t, list[0]) {
        seq![t] + list
    } else if t == list[0] {
        list
    } else {
        seq![list[0]] + inserted(list.drop_first(), t)
    }
}

/// The texts of a list, each once and in ascending order.
pub open spec fn sorted_set(texts: Seq<Seq<char>>) -> Seq<Seq<char>>
    decreases texts.len(),
{
    if texts.len() == 0 {
        Seq::empty()
    } else {
        inserted(sorted_set(texts.drop_last()), texts.last())
    }
}

/// Inserting keeps the order and adds one member.
proof fn lemma_inserted(list: Seq<Seq<char>>, t: Seq<char>)
    requires
        ascending(list),
    ensures
        ascending(inserted(list, t)),
        forall|u: Seq<char>| inserted(list, t).contains(u) <==> list.contains(u) || u == t,
    decreases list.len(),
{
    let out = inserted(list, t);
    if list.len() == 0 || text_less(t, list[0]) {
        assert forall|i: int, j: int| 0 <= i < j < out.len() implies text_less(
            #[trigger] out[i],
            #[trigger] out[j],
        ) by {
            if i > 0 {
                assert(text_less(list[i - 1], list[j - 1]));
            } else if j > 1 {
                assert(text_less(list[0], list[j - 1]));
                law_text_order(t, list[0], list[j - 1]);
            }
        }
        assert forall|u: Seq<char>| out.contains(u) <==> list.contains(u) || u == t by {
            if list.contains(u) {
                let i = choose|i: int| 0 <= i < list.len() && list[i] == u;
                assert(out[i + 1] == u);
            }
            if out.contains(u) {
                let i = choose|i: int| 0 <= i < out.len() && out[i] == u;
                if i > 0 {
                    assert(list[i - 1] == u);
                }
            }
            assert(out[0] == t);
        }
    } else if t == list[0] {
        assert(list.contains(t));
    } else {
        let rest = list.drop_first();
        let tail = inserted(rest, t);
        assert forall|i: int, j: int| 0 <= i < j < rest.len() implies text_less(
            #[trigger] rest[i],
            #[trigger] rest[j],
        ) by {
            assert(text_less(list[i + 1], list[j + 1]));
        }
        lemma_inserted(rest, t);
        law_text_order(t, list[0], t);
        assert forall|i: int, j: int| 0 <= i < j < out.len() implies text_less(
            #[trigger] out[i],
            #[trigger] out[j],
        ) by {
            if i > 0 {
                assert(text_less(tail[i - 1], tail[j - 1]));
            } else {
                assert(out[j] == tail[j - 1]);
                assert(tail.contains(tail[j - 1]));
                assert(rest.contains(tail[j - 1]) || tail[j - 1] == t);
                if tail[j - 1] != t {
                    let k = choose|k: int| 0 <= k < rest.len() && rest[k] == tail[j - 1];
                    assert(text_less(list[0], list[k + 1]));
                }
            }
        }
        assert forall|u: Seq<char>| out.contains(u) <==> list.contains(u) || u == t by {
            assert(tail.contains(u) <==> rest.contains(u) || u == t);
            if list.contains(u) {
                let i = choose|i: int| 0 <= i < list.len() && list[i] == u;
                if i > 0 {
                    assert(rest[i - 1] == u);
                    assert(rest.contains(u));
                    assert(tail.contains(u));
                }
            }
            if tail.contains(u) {
                let i = choose|i: int| 0 <= i < tail.len() && tail[i] == u;
                assert(out[i + 1] == u);
                if rest.contains(u) {
                    let k = choose|k: int| 0 <= k < rest.len() && rest[k] == u;
                    assert(list[k + 1] == u);
                }
            }
            if out.contains(u) {
                let i = choose|i: int| 0 <= i < out.len() && out[i] == u;
                if i > 0 {
                    assert(tail[i - 1] == u);
                    assert(tail.contains(u));
                } else {
                    assert(list[0] == u);
                }
            }
            assert(out[0] == list[0]);
        }
    }
}

/// A sorted set is ascending and has the members of its list.
pub proof fn law_sorted_set(texts: Seq<Seq<char>>)
    ensures
        ascending(sorted_set(texts)),
        forall|t: Seq<char>| sorted_set(texts).contains(t) <==> texts.contains(t),
    decreases texts.len(),
{
    if texts.len() > 0 {
        let rest = texts.drop_last();
        law_sorted_set(rest);
        lemma_inserted(sorted_set(rest), texts.last());
        assert forall|t: Seq<char>| sorted_set(texts).contains(t) <==> texts.contains(t) by {
            if rest.contains(t) {
                let i = choose|i: int| 0 <= i < rest.len() && rest[i] == t;
                assert(texts[i] == t);
            }
            if texts.contains(t) {
                let i = choose|i: int| 0 <= i < texts.len() && texts[i] == t;
                if i < rest.len() {
                    assert(rest[i] == t);
                }
            }
            assert(texts[texts.len() - 1] == texts.last());
        }
    }
}

/// Lists with the same members make the same sorted set: neither the order of a list nor how often
/// a member occurs counts.
pub proof fn law_sorted_set_of_members(a: Seq<Seq<char>>, b: Seq<Seq<char>>)
    requires
        forall|t: Seq<char>| a.contains(t) <==> b.contains(t),
    ensures
        sorted_set(a) == sorted_set(b),
{
    law_sorted_set(a);
    law_sorted_set(b);
    assert forall|t: Seq<char>| sorted_set(a).contains(t) <==> sorted_set(b).contains(t) by {
        assert(a.contains(t) <==> b.contains(t));
    }
    law_ascending_unique(sorted_set(a), sorted_set(b));
}

/// Whether the bytes `a` come before the bytes `b`.
fn bytes_before(a: &[u8], b: &[u8]) -> (r: bool)
    ensures
        r == bytes_less(a@, b@),
{
    let mut i: usize = 0;
    assert(a@.skip(0) == a@);
    assert(b@.skip(0) == b@);
    while i < a.len() && i < b.len() && a[i] == b[i]
        invariant
            i <= a@.len(),
            i <= b@.len(),
            bytes_less(a@, b@) == bytes_less(a@.skip(i as int), b@.skip(i as int)),
        decreases a@.len() - i,
    {
        assert(a@.skip(i as int).drop_first() == a@.skip(i + 1));
        assert(b@.skip(i as int).drop_first() == b@.skip(i + 1));
        i += 1;
    }
    if i >= b.len() {
        false
    } else if i >= a.len() {
        true
    } else {
        a[i] < b[i]
    }
}

/// Whether two byte strings are the same.
pub fn same_bytes(a: &[u8], b: &[u8]) -> (r: bool)
    ensures
        r == (a@ == b@),
{
    if a.len() != b.len() {
        return false;
    }
    let mut i: usize = 0;
    while i < a.len()
        invariant
            a@.len() == b@.len(),
            i <= a@.len(),
            forall|k: int| 0 <= k < i ==> a@[k] == b@[k],
        decreases a@.len() - i,
    {
        if a[i] != b[i] {
            return false;
        }
        i += 1;
    }
    assert(a@ == b@);
    true
}

/// Whether two texts are the same.
pub fn same_text(a: &str, b: &str) -> (r: bool)
    ensures
        r == (a@ == b@),
{
    proof {
        vstd::utf8::encode_utf8_decode_utf8(a@);
        vstd::utf8::encode_utf8_decode_utf8(b@);
    }
    same_bytes(a.as_bytes(), b.as_bytes())
}

/// Whether two lists hold the same texts in the same order.
pub fn same_texts(a: &[String], b: &[String]) -> (r: bool)
    ensures
        r == (texts_of(a@) == texts_of(b@)),
{
    let ghost x = texts_of(a@);
    let ghost y = texts_of(b@);
    if a.len() != b.len() {
        assert(x.len() != y.len());
        return false;
    }
    let mut i: usize = 0;
    while i < a.len()
        invariant
            a@.len() == b@.len(),
            i <= a@.len(),
            x == texts_of(a@),
            y == texts_of(b@),
            forall|k: int| 0 <= k < i ==> x[k] == y[k],
        decreases a@.len() - i,
    {
        if !same_text(a[i].as_str(), b[i].as_str()) {
            assert(x[i as int] != y[i as int]);
            return false;
        }
        i += 1;
    }
    assert(x == y);
    true
}

/// Puts `item` at its place in an ascending list, unless the list holds it already.
pub fn insert_ascending(list: &mut Vec<String>, item: String)
    requires
        ascending(texts_of(old(list)@)),
    ensures
        ascending(texts_of(final(list)@)),
        forall|t: Seq<char>|
            texts_of(final(list)@).contains(t) <==> texts_of(old(list)@).contains(t) || t == item@,
{
    let ghost before = texts_of(list@);
    let mut lo: usize = 0;
    let mut hi: usize = list.len();
    while lo < hi
        invariant
            lo <= hi <= list@.len(),
            before == texts_of(list@),
            before == texts_of(old(list)@),
            ascending(before),
            forall|j: int| 0 <= j < lo ==> text_less(#[trigger] before[j], item@),
            forall|j: int| hi <= j < before.len() ==> !text_less(#[trigger] before[j], item@),
        decreases hi - lo,
    {
        let mid: usize = lo + (hi - lo) / 2;
        assert(before[mid as int] == list@[mid as int]@);
        if bytes_before(list[mid].as_str().as_bytes(), item.as_str().as_bytes()) {
            assert forall|j: int| 0 <= j < mid + 1 implies text_less(#[trigger] before[j], item@) by {
                if j < mid {
                    assert(text_less(before[j], before[mid as int]));
                    law_text_order(before[j], before[mid as int], item@);
                }
            }
            lo = mid + 1;
        } else {
            assert forall|j: int| mid <= j < before.len() implies !text_less(#[trigger] before[j], item@) by {
                if j > mid {
                    assert(text_less(before[mid as int], before[j]));
                    if text_less(before[j], item@) {
                        law_text_order(before[mid as int], before[j], item@);
                    }
                }
            }
            hi = mid;
        }
    }
    if lo < list.len() && list[lo] == item {
        assert(before[lo as int] == item@);
        assert(texts_of(list@).contains(item@));
        return ;
    }
    let ghost k = lo as int;
    let ghost text = item@;
    list.insert(lo, item);
    proof {
        let after = texts_of(list@);
        assert(after == before.insert(k, text));
        assert forall|j: int| k <= j < before.len() implies text_less(text, #[trigger] before[j]) by {
            law_text_order(text, before[j], text);
            if j > k {
                assert(text_less(before[k], before[j]));
                law_text_order(text, before[k], before[j]);
                law_text_order(before[k], text, before[k]);
            } else {
                assert(before[k] != text);
            }
        }
        assert(ascending(after));
        assert forall|t: Seq<char>| after.contains(t) <==> before.contains(t) || t == text by {
            if after.contains(t) {
                let i = choose|i: int| 0 <= i < after.len() && after[i] == t;
                if i < k {
                    assert(before[i] == t);
                } else if i > k {
                    assert(before[i - 1] == t);
                }
            }
            if before.contains(t) {
                let i = choose|i: int| 0 <= i < before.len() && before[i] == t;
                if i < k {
                    assert(after[i] == t);
                } else {
                    assert(after[i + 1] == t);
                }
            }
            if t == text {
                assert(after[k] == t);
            }
        }
    }
}

} // verus!
