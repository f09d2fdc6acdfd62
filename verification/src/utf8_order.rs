//! The order of texts is the order of the bytes of their UTF-8 encodings.

use vstd::prelude::*;
use vstd::utf8::{
    encode_scalar, encode_utf8, has_width_1_encoding, has_width_2_encoding, has_width_3_encoding,
    has_width_4_encoding, is_scalar, last_continuation_byte, leading_byte_width_1,
    leading_byte_width_2, leading_byte_width_3, leading_byte_width_4, second_last_continuation_byte,
    third_last_continuation_byte,
};
use crate::order::lex_le;

verus! {

/// Whether the bytes `a` come before the bytes `b` or equal them: byte by
/// byte, a proper prefix before what it is a prefix of.
pub open spec fn bytes_le(a: Seq<u8>, b: Seq<u8>) -> bool
    decreases a.len(),
{
    if a.len() == 0 {
        true
    } else if b.len() == 0 {
        false
    } else if a[0] == b[0] {
        bytes_le(a.drop_first(), b.drop_first())
    } else {
        a[0] < b[0]
    }
}

/// Whether `a` and `b` agree before index `k` and `a` has the smaller byte
/// there.
pub open spec fn smaller_at(a: Seq<u8>, b: Seq<u8>, k: int) -> bool {
    &&& 0 <= k < a.len()
    &&& k < b.len()
    &&& forall|j: int| 0 <= j < k ==> a[j] == b[j]
    &&& a[k] < b[k]
}

proof fn lemma_smaller_at(a: Seq<u8>, b: Seq<u8>, k: int)
    requires
        smaller_at(a, b, k),
    ensures
        bytes_le(a, b),
        !bytes_le(b, a),
    decreases k,
{
    if k > 0 {
        assert(a[0] == b[0]);
        assert(smaller_at(a.drop_first(), b.drop_first(), k - 1)) by {
            assert forall|j: int| 0 <= j < k - 1 implies a.drop_first()[j] == b.drop_first()[j] by {
                assert(a[j + 1] == b[j + 1]);
            }
        }
        lemma_smaller_at(a.drop_first(), b.drop_first(), k - 1);
    }
}

proof fn lemma_common_prefix(e: Seq<u8>, a: Seq<u8>, b: Seq<u8>)
    ensures
        bytes_le(e + a, e + b) == bytes_le(a, b),
    decreases e.len(),
{
    if e.len() > 0 {
        assert((e + a).drop_first() =~= e.drop_first() + a);
        assert((e + b).drop_first() =~= e.drop_first() + b);
        assert((e + a)[0] == (e + b)[0]);
        lemma_common_prefix(e.drop_first(), a, b);
    } else {
        assert(e + a =~= a);
        assert(e + b =~= b);
    }
}

proof fn lemma_leading_bytes(u: u32)
    by (bit_vector)
    ensures
        has_width_1_encoding(u) ==> leading_byte_width_1(u) < 0x80 && leading_byte_width_1(u) == u,
        has_width_2_encoding(u) ==> 0xC0 <= leading_byte_width_2(u) < 0xE0,
        has_width_3_encoding(u) ==> 0xE0 <= leading_byte_width_3(u) < 0xF0,
        has_width_4_encoding(u) ==> 0xF0 <= leading_byte_width_4(u),
{
}

proof fn lemma_width_2(u: u32, v: u32)
    by (bit_vector)
    requires
        has_width_2_encoding(u),
        has_width_2_encoding(v),
        u < v,
    ensures
        leading_byte_width_2(u) < leading_byte_width_2(v) || (leading_byte_width_2(u)
            == leading_byte_width_2(v) && last_continuation_byte(u) < last_continuation_byte(v)),
{
}

proof fn lemma_width_3(u: u32, v: u32)
    by (bit_vector)
    requires
        has_width_3_encoding(u),
        has_width_3_encoding(v),
        u < v,
    ensures
        leading_byte_width_3(u) < leading_byte_width_3(v) || (leading_byte_width_3(u)
            == leading_byte_width_3(v) && (second_last_continuation_byte(u)
            < second_last_continuation_byte(v) || (second_last_continuation_byte(u)
            == second_last_continuation_byte(v) && last_continuation_byte(u)
            < last_continuation_byte(v)))),
{
}

proof fn lemma_width_4(u: u32, v: u32)
    by (bit_vector)
    requires
        has_width_4_encoding(u),
        has_width_4_encoding(v),
        u < v,
    ensures
        leading_byte_width_4(u) < leading_byte_width_4(v) || (leading_byte_width_4(u)
            == leading_byte_width_4(v) && (third_last_continuation_byte(u)
            < third_last_continuation_byte(v) || (third_last_continuation_byte(u)
            == third_last_continuation_byte(v) && (second_last_continuation_byte(u)
            < second_last_continuation_byte(v) || (second_last_continuation_byte(u)
            == second_last_continuation_byte(v) && last_continuation_byte(u)
            < last_continuation_byte(v)))))),
{
}

/// The encoding of the smaller of two scalar values has the smaller byte
/// at the first place where the two encodings differ, and they differ
/// before either ends.
proof fn lemma_scalar_order(u: u32, v: u32)
    requires
        is_scalar(u),
        is_scalar(v),
        u < v,
    ensures
        exists|k: int| smaller_at(encode_scalar(u), encode_scalar(v), k),
{
    let eu = encode_scalar(u);
    let ev = encode_scalar(v);
    lemma_leading_bytes(u);
    lemma_leading_bytes(v);
    if has_width_1_encoding(u) {
        assert(smaller_at(eu, ev, 0));
    } else if has_width_2_encoding(u) {
        if has_width_2_encoding(v) {
            lemma_width_2(u, v);
            if eu[0] < ev[0] {
                assert(smaller_at(eu, ev, 0));
            } else {
                assert(smaller_at(eu, ev, 1));
            }
        } else {
            assert(smaller_at(eu, ev, 0));
        }
    } else if has_width_3_encoding(u) {
        if has_width_3_encoding(v) {
            lemma_width_3(u, v);
            if eu[0] < ev[0] {
                assert(smaller_at(eu, ev, 0));
            } else if eu[1] < ev[1] {
                assert(smaller_at(eu, ev, 1));
            } else {
                assert(smaller_at(eu, ev, 2));
            }
        } else {
            assert(smaller_at(eu, ev, 0));
        }
    } else {
        lemma_width_4(u, v);
        if eu[0] < ev[0] {
            assert(smaller_at(eu, ev, 0));
        } else if eu[1] < ev[1] {
            assert(smaller_at(eu, ev, 1));
        } else if eu[2] < ev[2] {
            assert(smaller_at(eu, ev, 2));
        } else {
            assert(smaller_at(eu, ev, 3));
        }
    }
}

proof fn lemma_scalar_first(u: u32, v: u32, a: Seq<u8>, b: Seq<u8>)
    requires
        is_scalar(u),
        is_scalar(v),
        u < v,
    ensures
        bytes_le(encode_scalar(u) + a, encode_scalar(v) + b),
        !bytes_le(encode_scalar(v) + b, encode_scalar(u) + a),
{
    lemma_scalar_order(u, v);
    let k = choose|k: int| smaller_at(encode_scalar(u), encode_scalar(v), k);
    assert(smaller_at(encode_scalar(u) + a, encode_scalar(v) + b, k));
    lemma_smaller_at(encode_scalar(u) + a, encode_scalar(v) + b, k);
}

proof fn lemma_char_order(c: char, d: char)
    ensures
        (c < d) == ((c as u32) < (d as u32)),
        (c == d) == ((c as u32) == (d as u32)),
        is_scalar(c as u32),
        is_scalar(d as u32),
{
}

/// One text comes before another exactly if the bytes of its UTF-8
/// encoding come before those of the other's.
pub proof fn law_order_of_bytes(a: Seq<char>, b: Seq<char>)
    ensures
        lex_le(a, b) == bytes_le(encode_utf8(a), encode_utf8(b)),
    decreases a.len(),
{
    let ea = encode_utf8(a);
    let eb = encode_utf8(b);
    if a.len() > 0 && b.len() > 0 {
        let u = a[0] as u32;
        let v = b[0] as u32;
        lemma_char_order(a[0], b[0]);
        let rest_a = encode_utf8(a.drop_first());
        let rest_b = encode_utf8(b.drop_first());
        assert(ea == encode_scalar(u) + rest_a);
        assert(eb == encode_scalar(v) + rest_b);
        if a[0] == b[0] {
            lemma_common_prefix(encode_scalar(u), rest_a, rest_b);
            law_order_of_bytes(a.drop_first(), b.drop_first());
        } else if u < v {
            lemma_scalar_first(u, v, rest_a, rest_b);
        } else {
            lemma_scalar_first(v, u, rest_b, rest_a);
        }
    } else if a.len() > 0 {
        lemma_char_order(a[0], a[0]);
        assert(encode_scalar(a[0] as u32).len() > 0);
    }
}

} // verus!
