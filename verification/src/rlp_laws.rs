//! What is written is read back: the encodings of numbers, strings and lists.

use crate::bytes::{Bytes, FixedBytes, U256};
use crate::rlp::{
    and, be_bytes, be_value, head_rlp, items_rlp, list_rlp, parse_head, parse_items, parse_payload,
    restores, string_rlp, Decodable, Encodable, RlpHead,
};
use alloy_rlp::Error;
use vstd::prelude::*;

verus! {

/// `256` to the power of `k`.
pub open spec fn pow256(k: nat) -> nat
    decreases k,
{
    if k == 0 {
        1
    } else {
        256 * pow256((k - 1) as nat)
    }
}

/// Concatenation is associative.
pub proof fn lemma_assoc(a: Seq<u8>, b: Seq<u8>, c: Seq<u8>)
    ensures
        (a + b) + c == a + (b + c),
{
    assert((a + b) + c =~= a + (b + c));
}

/// The digits of a number stand for it.
pub proof fn lemma_be_value_of_bytes(n: nat)
    ensures
        be_value(be_bytes(n)) == n,
    decreases n,
{
    if n > 0 {
        lemma_be_value_of_bytes(n / 256);
        assert(be_bytes(n).drop_last() =~= be_bytes(n / 256));
    }
}

/// The digits of a number that is not zero start with a digit that is not zero.
pub proof fn lemma_be_bytes_first(n: nat)
    requires
        n > 0,
    ensures
        be_bytes(n).len() > 0,
        be_bytes(n)[0] != 0,
    decreases n,
{
    if n >= 256 {
        lemma_be_bytes_first(n / 256);
    } else {
        assert(be_bytes(n / 256).len() == 0);
        assert(be_bytes(n)[0] == n as u8);
    }
}

/// A number below `256` to the power of `k` has at most `k` digits.
pub proof fn lemma_be_bytes_len(n: nat, k: nat)
    requires
        n < pow256(k),
    ensures
        be_bytes(n).len() <= k,
    decreases k,
{
    if n > 0 {
        lemma_be_bytes_len(n / 256, (k - 1) as nat);
    }
}

/// `k` digits stand for a number below `256` to the power of `k`.
pub proof fn lemma_be_value_bound(s: Seq<u8>)
    ensures
        be_value(s) < pow256(s.len()),
    decreases s.len(),
{
    if s.len() > 0 {
        lemma_be_value_bound(s.drop_last());
    }
}

/// A number that fits in 64 bits has at most eight digits.
pub proof fn lemma_be_bytes_u64(n: nat)
    requires
        n <= u64::MAX,
    ensures
        be_bytes(n).len() <= 8,
{
    reveal_with_fuel(pow256, 9);
    lemma_be_bytes_len(n, 8);
}

/// The prefix of an item is read back, provided that its payload follows. The
/// exception is a single byte below `0x80`, which has no prefix.
pub proof fn lemma_head_restores(list: bool, payload: Seq<u8>, rest: Seq<u8>)
    requires
        payload.len() <= usize::MAX,
        list || payload.len() != 1 || payload[0] >= 0x80,
    ensures
        parse_head(head_rlp(list, payload.len()) + payload + rest) == (
            Ok::<RlpHead, Error>(RlpHead { list, payload_length: payload.len() as usize }),
            payload + rest,
        ),
{
    let n = payload.len();
    let head = head_rlp(list, n);
    let buf = head + payload + rest;
    if n < 56 {
        assert(buf.skip(1) =~= payload + rest);
    } else {
        let digits = be_bytes(n);
        lemma_be_bytes_u64(n);
        lemma_be_bytes_first(n);
        lemma_be_value_of_bytes(n);
        let k = digits.len() as int;
        let tail = buf.skip(1);
        assert(tail =~= digits + payload + rest);
        assert(tail.take(k) =~= digits);
        assert(tail.skip(k) =~= payload + rest);
        assert(tail[0] == digits[0]);
    }
}

/// The payload of a list is read back.
pub proof fn lemma_list_restores(payload: Seq<u8>, rest: Seq<u8>)
    requires
        payload.len() <= usize::MAX,
    ensures
        parse_payload(list_rlp(payload) + rest, true) == (Ok::<Seq<u8>, Error>(payload), rest),
{
    lemma_head_restores(true, payload, rest);
    assert((payload + rest).take(payload.len() as int) =~= payload);
    assert((payload + rest).skip(payload.len() as int) =~= rest);
}

/// A string is read back.
pub proof fn lemma_string_restores(s: Seq<u8>, rest: Seq<u8>)
    requires
        s.len() <= usize::MAX,
    ensures
        parse_payload(string_rlp(s) + rest, false) == (Ok::<Seq<u8>, Error>(s), rest),
{
    assert((s + rest).take(s.len() as int) =~= s);
    assert((s + rest).skip(s.len() as int) =~= rest);
    if s.len() == 1 && s[0] < 0x80 {
    } else {
        lemma_head_restores(false, s, rest);
    }
}

/// What `u64` writes it reads back.
pub proof fn lemma_u64_restores(v: u64)
    ensures
        restores::<u64>(v),
{
    let digits = be_bytes(v as nat);
    lemma_be_bytes_u64(v as nat);
    lemma_be_value_of_bytes(v as nat);
    if v > 0 {
        lemma_be_bytes_first(v as nat);
    }
    assert forall|rest: Seq<u8>|
        u64::parse(#[trigger] (u64::rlp(v) + rest)) == (Ok::<u64, Error>(v), rest) by {
        lemma_string_restores(digits, rest);
    }
}

/// What `FixedBytes` writes it reads back.
pub proof fn lemma_fixed_restores<const N: usize>(v: FixedBytes<N>)
    ensures
        restores::<FixedBytes<N>>(v),
{
    v.lemma_of();
    assert forall|rest: Seq<u8>|
        FixedBytes::<N>::parse(#[trigger] (FixedBytes::<N>::rlp(v) + rest)) == (
            Ok::<FixedBytes<N>, Error>(v),
            rest,
        ) by {
        lemma_string_restores(v@, rest);
    }
}

/// What `Bytes` writes it reads back.
pub proof fn lemma_bytes_restores(v: Seq<u8>)
    requires
        v.len() <= usize::MAX,
    ensures
        restores::<Bytes>(v),
{
    assert forall|rest: Seq<u8>|
        Bytes::parse(#[trigger] (Bytes::rlp(v) + rest)) == (Ok::<Seq<u8>, Error>(v), rest) by {
        lemma_string_restores(v, rest);
    }
}

/// What `U256` writes it reads back.
pub proof fn lemma_u256_restores(v: U256)
    ensures
        restores::<U256>(v),
{
    let n = v.number();
    let digits = be_bytes(n);
    v.lemma_of();
    lemma_be_value_bound(v.0@);
    lemma_be_bytes_len(n, 32);
    lemma_be_value_of_bytes(n);
    if n > 0 {
        lemma_be_bytes_first(n);
    }
    assert forall|rest: Seq<u8>|
        U256::parse(#[trigger] (U256::rlp(v) + rest)) == (Ok::<U256, Error>(v), rest) by {
        lemma_string_restores(digits, rest);
    }
}

/// A value that is read back is so behind another one.
pub proof fn lemma_and_restores<V, T: Encodable + Decodable>(v: V, w: T::Value, rest: Seq<u8>)
    requires
        restores::<T>(w),
    ensures
        and::<V, T>((Ok(v), T::rlp(w) + rest)) == (Ok::<(V, T::Value), Error>((v, w)), rest),
{
    assert(T::parse(T::rlp(w) + rest) == (Ok::<T::Value, Error>(w), rest));
}

/// A 64-bit number takes up at most nine bytes.
pub proof fn lemma_u64_rlp_len(v: u64)
    ensures
        u64::rlp(v).len() <= 9,
{
    lemma_be_bytes_u64(v as nat);
}

/// Values that are each read back are read back one after the other.
pub proof fn lemma_items_restore<T: Encodable + Decodable>(vs: Seq<T::Value>)
    requires
        forall|i: int| 0 <= i < vs.len() ==> restores::<T>(#[trigger] vs[i]),
    ensures
        parse_items::<T>(items_rlp::<T>(vs)) == Ok::<Seq<T::Value>, Error>(vs),
    decreases vs.len(),
{
    if vs.len() > 0 {
        let more = vs.skip(1);
        assert forall|i: int| 0 <= i < more.len() implies restores::<T>(#[trigger] more[i]) by {
            assert(more[i] == vs[i + 1]);
        }
        lemma_items_restore::<T>(more);
        assert(restores::<T>(vs[0]));
        let rest = items_rlp::<T>(more);
        assert(T::parse(T::rlp(vs[0]) + rest) == (Ok::<T::Value, Error>(vs[0]), rest));
        assert(seq![vs[0]] + more =~= vs);
    } else {
        assert(vs =~= Seq::empty());
    }
}

/// What a list writes it reads back, where each of its items does so.
pub proof fn lemma_vec_restores<T: Encodable + Decodable>(vs: Seq<T::Value>)
    requires
        forall|i: int| 0 <= i < vs.len() ==> restores::<T>(#[trigger] vs[i]),
        Vec::<T>::rlp(vs).len() <= usize::MAX,
    ensures
        restores::<Vec<T>>(vs),
{
    lemma_items_restore::<T>(vs);
    let payload = items_rlp::<T>(vs);
    assert forall|rest: Seq<u8>|
        Vec::<T>::parse(#[trigger] (Vec::<T>::rlp(vs) + rest)) == (
            Ok::<Seq<T::Value>, Error>(vs),
            rest,
        ) by {
        lemma_list_restores(payload, rest);
    }
}

} // verus!
