//! The order of texts and the stable sort of a list by its keys.
//!
//! Texts are ordered character by character, by code point, a proper prefix
//! before what it is a prefix of. On the UTF-8 encodings of two texts this is
//! the order of their bytes, byte by byte.

use vstd::prelude::*;
use vstd::utf8::encode_utf8;
use crate::lines::texts;
use crate::utf8_order::{bytes_le, law_order_of_bytes};

verus! {

/// Whether `a` comes before `b` or equals it.
pub open spec fn lex_le(a: Seq<char>, b: Seq<char>) -> bool
    decreases a.len(),
{
    if a.len() == 0 {
        true
    } else if b.len() == 0 {
        false
    } else if a[0] == b[0] {
        lex_le(a.drop_first(), b.drop_first())
    } else {
        a[0] < b[0]
    }
}

/// Whether `a` comes strictly before `b`.
pub open spec fn lex_lt(a: Seq<char>, b: Seq<char>) -> bool {
    !lex_le(b, a)
}

/// Every text is at most itself.
pub proof fn lemma_lex_le_reflexive(a: Seq<char>)
    ensures
        lex_le(a, a),
    decreases a.len(),
{
    if a.len() > 0 {
        lemma_lex_le_reflexive(a.drop_first());
    }
}

/// Of two texts one is at most the other.
pub proof fn lemma_lex_le_total(a: Seq<char>, b: Seq<char>)
    ensures
        lex_le(a, b) || lex_le(b, a),
    decreases a.len(),
{
    if a.len() > 0 && b.len() > 0 && a[0] == b[0] {
        lemma_lex_le_total(a.drop_first(), b.drop_first());
    }
}

/// Two texts that are at most each other are equal.
pub proof fn lemma_lex_le_antisymmetric(a: Seq<char>, b: Seq<char>)
    requires
        lex_le(a, b),
        lex_le(b, a),
    ensures
        a == b,
    decreases a.len(),
{
    if a.len() > 0 && b.len() > 0 {
        lemma_lex_le_antisymmetric(a.drop_first(), b.drop_first());
        assert(a =~= seq![a[0]] + a.drop_first());
        assert(b =~= seq![b[0]] + b.drop_first());
    } else {
        assert(a =~= b);
    }
}

/// The order is transitive.
pub proof fn lemma_lex_le_transitive(a: Seq<char>, b: Seq<char>, c: Seq<char>)
    requires
        lex_le(a, b),
        lex_le(b, c),
    ensures
        lex_le(a, c),
    decreases a.len(),
{
    if a.len() > 0 && b.len() > 0 && c.len() > 0 {
        if a[0] == b[0] && b[0] == c[0] {
            lemma_lex_le_transitive(a.drop_first(), b.drop_first(), c.drop_first());
        }
    }
}

/// Whether `a` comes before `b` or equals it.
pub fn text_le(a: &Vec<char>, b: &Vec<char>) -> (r: bool)
    ensures
        r == lex_le(a@, b@),
        r == bytes_le(encode_utf8(a@), encode_utf8(b@)),
{
    proof {
        law_order_of_bytes(a@, b@);
    }
    let mut i: usize = 0;
    assert(a@.skip(0) == a@ && b@.skip(0) == b@);
    while i < a.len() && i < b.len()
        invariant
            i <= a.len(),
            i <= b.len(),
            lex_le(a@, b@) == lex_le(a@.skip(i as int), b@.skip(i as int)),
            lex_le(a@, b@) == bytes_le(encode_utf8(a@), encode_utf8(b@)),
        decreases a.len() - i,
    {
        if a[i] != b[i] {
            return a[i] < b[i];
        }
        assert(a@.skip(i as int).drop_first() == a@.skip(i + 1));
        assert(b@.skip(i as int).drop_first() == b@.skip(i + 1));
        i += 1;
    }
    i == a.len()
}

/// Whether `a` and `b` hold the same characters.
pub fn text_eq(a: &Vec<char>, b: &Vec<char>) -> (r: bool)
    ensures
        r == (a@ == b@),
{
    if a.len() != b.len() {
        return false;
    }
    let mut i: usize = 0;
    while i < a.len()
        invariant
            i <= a.len(),
            a.len() == b.len(),
            forall|j: int| 0 <= j < i ==> a@[j] == b@[j],
        decreases a.len() - i,
    {
        if a[i] != b[i] {
            return false;
        }
        i += 1;
    }
    assert(a@ =~= b@);
    true
}

/// Whether the item at index `i` has to stand before the item at index `j`:
/// its key is smaller, or the keys are equal and it came first.
pub open spec fn before(keys: Seq<Seq<char>>, i: int, j: int) -> bool {
    lex_lt(keys[i], keys[j]) || (keys[i] == keys[j] && i < j)
}

/// Whether `p` lists the indices below `n`, each once, by ascending key, and
/// those of equal keys by ascending index.
pub open spec fn is_stable_order_upto(keys: Seq<Seq<char>>, n: int, p: Seq<int>) -> bool {
    &&& p.len() == n
    &&& forall|a: int| 0 <= a < p.len() ==> 0 <= #[trigger] p[a] < n
    &&& forall|i: int| 0 <= i < n ==> p.contains(i)
    &&& forall|a: int, b: int| 0 <= a < b < p.len() ==> before(keys, #[trigger] p[a], #[trigger] p[b])
}

/// Whether `p` is the stable sorting order of `keys`.
pub open spec fn is_stable_order(keys: Seq<Seq<char>>, p: Seq<int>) -> bool {
    is_stable_order_upto(keys, keys.len() as int, p)
}

/// Where the index `n` enters `order`: behind the last index whose key is
/// at most that of `n`.
pub open spec fn place_pos(order: Seq<int>, keys: Seq<Seq<char>>, n: int) -> int
    decreases order.len(),
{
    if order.len() > 0 && lex_lt(keys[n], keys[order.last()]) {
        place_pos(order.drop_last(), keys, n)
    } else {
        order.len() as int
    }
}

/// The stable sorting order of the first `n` keys.
pub open spec fn order_upto(keys: Seq<Seq<char>>, n: int) -> Seq<int>
    decreases n,
{
    if n <= 0 {
        Seq::empty()
    } else {
        let rest = order_upto(keys, n - 1);
        rest.insert(place_pos(rest, keys, n - 1), n - 1)
    }
}

/// The stable sorting order of `keys`: the indices of `keys` by ascending
/// key, those of equal keys by ascending index.
pub open spec fn sort_order(keys: Seq<Seq<char>>) -> Seq<int> {
    order_upto(keys, keys.len() as int)
}

/// The items of `s` in the order `p`.
pub open spec fn permute<A>(s: Seq<A>, p: Seq<int>) -> Seq<A> {
    Seq::new(p.len(), |k: int| s[p[k]])
}

/// The items of `s`, stably sorted by the keys `keys`.
pub open spec fn sort_by<A>(s: Seq<A>, keys: Seq<Seq<char>>) -> Seq<A> {
    permute(s, sort_order(keys))
}

/// Whether the texts of `s` ascend.
pub open spec fn ascending(s: Seq<Seq<char>>) -> bool {
    forall|a: int, b: int| 0 <= a < b < s.len() ==> lex_le(#[trigger] s[a], #[trigger] s[b])
}

/// A list of indices as integers.
pub open spec fn indices(v: Seq<usize>) -> Seq<int> {
    Seq::new(v.len(), |i: int| v[i] as int)
}

proof fn lemma_place_pos(order: Seq<int>, keys: Seq<Seq<char>>, n: int)
    ensures
        0 <= place_pos(order, keys, n) <= order.len(),
        forall|a: int|
            place_pos(order, keys, n) <= a < order.len() ==> lex_lt(keys[n], keys[#[trigger] order[a]]),
        place_pos(order, keys, n) > 0 ==> lex_le(
            keys[order[place_pos(order, keys, n) - 1]],
            keys[n],
        ),
    decreases order.len(),
{
    if order.len() > 0 && lex_lt(keys[n], keys[order.last()]) {
        let front = order.drop_last();
        lemma_place_pos(front, keys, n);
        assert forall|a: int| place_pos(order, keys, n) <= a < order.len() implies lex_lt(
            keys[n],
            keys[#[trigger] order[a]],
        ) by {
            if a < front.len() {
                assert(front[a] == order[a]);
            }
        }
        if place_pos(order, keys, n) > 0 {
            assert(front[place_pos(order, keys, n) - 1] == order[place_pos(order, keys, n) - 1]);
        }
    }
}

proof fn lemma_before_le(keys: Seq<Seq<char>>, i: int, j: int)
    requires
        before(keys, i, j),
    ensures
        lex_le(keys[i], keys[j]),
{
    lemma_lex_le_total(keys[i], keys[j]);
    lemma_lex_le_reflexive(keys[i]);
}

proof fn lemma_place(order: Seq<int>, keys: Seq<Seq<char>>, n: int)
    requires
        0 <= n < keys.len(),
        is_stable_order_upto(keys, n, order),
    ensures
        is_stable_order_upto(keys, n + 1, order.insert(place_pos(order, keys, n), n)),
{
    let pos = place_pos(order, keys, n);
    let r = order.insert(pos, n);
    lemma_place_pos(order, keys, n);
    assert forall|i: int| 0 <= i < n + 1 implies r.contains(i) by {
        if i == n {
            assert(r[pos] == n);
        } else {
            assert(order.contains(i));
            let a = choose|a: int| 0 <= a < order.len() && order[a] == i;
            if a < pos {
                assert(r[a] == i);
            } else {
                assert(r[a + 1] == i);
            }
        }
    }
    assert forall|a: int, b: int| 0 <= a < b < r.len() implies before(
        keys,
        #[trigger] r[a],
        #[trigger] r[b],
    ) by {
        if b == pos {
            // r[a] is an old index in front of the new one
            assert(r[a] == order[a]);
            if a < pos - 1 {
                assert(before(keys, order[a], order[pos - 1]));
                lemma_before_le(keys, order[a], order[pos - 1]);
                lemma_lex_le_transitive(keys[order[a]], keys[order[pos - 1]], keys[n]);
            }
            assert(lex_le(keys[order[a]], keys[n]));
            if lex_le(keys[n], keys[order[a]]) {
                lemma_lex_le_antisymmetric(keys[n], keys[order[a]]);
            }
        } else if a == pos {
            assert(r[b] == order[b - 1]);
        } else {
            let a0 = if a < pos { a } else { a - 1 };
            let b0 = if b < pos { b } else { b - 1 };
            assert(r[a] == order[a0] && r[b] == order[b0]);
            assert(before(keys, order[a0], order[b0]));
        }
    }
}

/// What `sort_order` builds is the stable sorting order.
pub proof fn lemma_order_upto(keys: Seq<Seq<char>>, n: int)
    requires
        0 <= n <= keys.len(),
    ensures
        is_stable_order_upto(keys, n, order_upto(keys, n)),
    decreases n,
{
    if n > 0 {
        lemma_order_upto(keys, n - 1);
        lemma_place(order_upto(keys, n - 1), keys, n - 1);
    }
}

/// The keys ascend along a stable sorting order.
pub proof fn lemma_stable_order_ascends(keys: Seq<Seq<char>>, p: Seq<int>)
    requires
        is_stable_order(keys, p),
    ensures
        ascending(permute(keys, p)),
{
    let s = permute(keys, p);
    assert forall|a: int, b: int| 0 <= a < b < s.len() implies lex_le(
        #[trigger] s[a],
        #[trigger] s[b],
    ) by {
        assert(before(keys, p[a], p[b]));
        lemma_before_le(keys, p[a], p[b]);
    }
}

/// The stable sorting order of the keys of `keys`.
pub fn stable_order(keys: &Vec<Vec<char>>) -> (r: Vec<usize>)
    ensures
        indices(r@) == sort_order(texts(keys@)),
        is_stable_order(texts(keys@), indices(r@)),
        r.len() == keys.len(),
        forall|k: int| 0 <= k < r.len() ==> r@[k] < keys.len(),
{
    let ghost ks = texts(keys@);
    let mut out: Vec<usize> = Vec::new();
    let mut n: usize = 0;
    assert(indices(out@) =~= order_upto(ks, 0));
    while n < keys.len()
        invariant
            n <= keys.len(),
            ks == texts(keys@),
            out.len() == n,
            indices(out@) == order_upto(ks, n as int),
            forall|k: int| 0 <= k < out.len() ==> out@[k] < n,
        decreases keys.len() - n,
    {
        let ghost order = indices(out@);
        let mut pos: usize = out.len();
        assert(order.take(pos as int) == order);
        while pos > 0 && !text_le(&keys[out[pos - 1]], &keys[n])
            invariant
                n < keys.len(),
                ks == texts(keys@),
                order == indices(out@),
                pos <= out.len(),
                forall|k: int| 0 <= k < out.len() ==> out@[k] < n,
                place_pos(order, ks, n as int) == place_pos(order.take(pos as int), ks, n as int),
            decreases pos,
        {
            assert(order.take(pos as int).drop_last() == order.take(pos - 1));
            pos -= 1;
        }
        proof {
            assert(place_pos(order, ks, n as int) == pos);
            assert(indices(out@.insert(pos as int, n)) =~= order.insert(pos as int, n as int));
        }
        out.insert(pos, n);
        n += 1;
    }
    proof {
        lemma_order_upto(ks, ks.len() as int);
    }
    out
}

} // verus!
