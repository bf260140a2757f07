//! Where the parts of a block stand in its encoding, item by item.

use crate::block::{Block, BlockBody};
use crate::block_rlp::{fields_rlp, BodyValue};
use crate::bytes::{Bytes, FixedBytes, U256};
use crate::header::{present_rlp, Header};
use crate::rlp::{
    be_bytes, be_value, items_rlp, list_rlp, parse_head, parse_payload, string_rlp, uint_rlp,
    Encodable, RlpValue, EMPTY_STRING_CODE,
};
use crate::rlp_laws::{
    lemma_assoc, lemma_be_bytes_len, lemma_be_bytes_u64, lemma_be_value_bound,
    lemma_head_restores, lemma_list_restores,
};
use crate::transaction::{Encodable2718, TxEnvelope, Typed2718};
use crate::withdrawal::{Withdrawal, Withdrawals};
use vstd::prelude::*;

verus! {

// ---------------------------------------------------------------------------
// Items
// ---------------------------------------------------------------------------

/// What is left behind the first item of `buf`, if it starts with one.
pub open spec fn behind_item(buf: Seq<u8>) -> Option<Seq<u8>> {
    match parse_head(buf) {
        (Ok(head), payload) => Some(payload.skip(head.payload_length as int)),
        (Err(_), _) => None,
    }
}

/// What is left behind the first `k` items of `buf`, if it starts with so many.
pub open spec fn behind_first(buf: Seq<u8>, k: nat) -> Option<Seq<u8>>
    decreases k,
{
    if k == 0 {
        Some(buf)
    } else {
        match behind_item(buf) {
            Some(rest) => behind_first(rest, (k - 1) as nat),
            None => None,
        }
    }
}

/// The item number `k` of `buf`, counted from zero: its prefix and its payload.
pub open spec fn nth_item(buf: Seq<u8>, k: nat) -> Option<Seq<u8>> {
    match behind_first(buf, k) {
        Some(rest) => match behind_item(rest) {
            Some(more) => Some(rest.take(rest.len() - more.len())),
            None => None,
        },
        None => None,
    }
}

/// Whether `buf` is made of the given items, one after the other, and of nothing
/// else.
pub open spec fn has_items(buf: Seq<u8>, items: Seq<Seq<u8>>) -> bool {
    &&& forall|k: int|
        #![trigger items[k]]
        0 <= k < items.len() ==> nth_item(buf, k as nat) == Some(items[k])
    &&& behind_first(buf, items.len()) == Some(Seq::<u8>::empty())
}

/// The payload of the list that `buf` is.
pub open spec fn list_payload(buf: Seq<u8>) -> Seq<u8> {
    parse_payload(buf, true).0->Ok_0
}

/// Whether `buf` is a list and nothing else.
pub open spec fn is_list(buf: Seq<u8>) -> bool {
    parse_payload(buf, true).0 is Ok && parse_payload(buf, true).1.len() == 0
}

/// No item where there is none, and otherwise the one.
pub open spec fn item_if(item: Option<Seq<u8>>) -> Seq<Seq<u8>> {
    match item {
        Some(item) => seq![item],
        None => Seq::empty(),
    }
}

/// The item of withdrawals that are there, and the empty string for missing ones.
pub open spec fn withdrawals_item(withdrawals: Option<Withdrawals>) -> Seq<u8> {
    match withdrawals {
        Some(withdrawals) => Withdrawals::rlp(withdrawals.0@),
        None => seq![EMPTY_STRING_CODE],
    }
}

/// The items, one after the other.
spec fn joined(items: Seq<Seq<u8>>) -> Seq<u8>
    decreases items.len(),
{
    if items.len() == 0 {
        Seq::empty()
    } else {
        items[0] + joined(items.skip(1))
    }
}

/// Whether `s` is one item, whatever follows it.
spec fn one_item(s: Seq<u8>) -> bool {
    forall|rest: Seq<u8>| behind_item(#[trigger] (s + rest)) == Some(rest)
}

/// A string is one item.
proof fn lemma_string_item(s: Seq<u8>)
    requires
        s.len() <= usize::MAX,
    ensures
        one_item(string_rlp(s)),
{
    assert forall|rest: Seq<u8>| behind_item(#[trigger] (string_rlp(s) + rest)) == Some(rest) by {
        if s.len() == 1 && s[0] < 0x80 {
            assert((s + rest).skip(1) =~= rest);
        } else {
            lemma_head_restores(false, s, rest);
            assert((s + rest).skip(s.len() as int) =~= rest);
        }
    }
}

/// A list is one item, and its payload is read back.
proof fn lemma_list_item(payload: Seq<u8>)
    requires
        payload.len() <= usize::MAX,
    ensures
        one_item(list_rlp(payload)),
        is_list(list_rlp(payload)),
        list_payload(list_rlp(payload)) == payload,
{
    assert forall|rest: Seq<u8>|
        behind_item(#[trigger] (list_rlp(payload) + rest)) == Some(rest) by {
        lemma_head_restores(true, payload, rest);
        assert((payload + rest).skip(payload.len() as int) =~= rest);
    }
    let nothing = Seq::<u8>::empty();
    lemma_list_restores(payload, nothing);
    assert(list_rlp(payload) + nothing =~= list_rlp(payload));
}

/// One more item stands behind the others.
proof fn lemma_joined_push(items: Seq<Seq<u8>>, item: Seq<u8>)
    ensures
        joined(items.push(item)) == joined(items) + item,
    decreases items.len(),
{
    let more = items.push(item);
    if items.len() > 0 {
        lemma_joined_push(items.skip(1), item);
        assert(more.skip(1) =~= items.skip(1).push(item));
        assert(more[0] == items[0]);
        assert(joined(more) == items[0] + (joined(items.skip(1)) + item));
        lemma_assoc(items[0], joined(items.skip(1)), item);
    } else {
        let nothing = Seq::<Seq<u8>>::empty();
        assert(more.skip(1) =~= nothing);
        assert(joined(nothing) =~= Seq::<u8>::empty());
        assert(more[0] == item);
        assert(item + joined(nothing) =~= item);
        assert(items =~= nothing);
        assert(joined(items) + item =~= item);
    }
}

/// An item that is there stands behind the others.
proof fn lemma_joined_if(items: Seq<Seq<u8>>, item: Option<Seq<u8>>)
    ensures
        joined(items + item_if(item)) == (match item {
            Some(item) => joined(items) + item,
            None => joined(items),
        }),
{
    match item {
        Some(item) => {
            lemma_joined_push(items, item);
            assert(items + item_if(Some(item)) =~= items.push(item));
        },
        None => {
            assert(items + item_if(None) =~= items);
        },
    }
}

/// Behind the first items stand the others.
proof fn lemma_behind_joined(items: Seq<Seq<u8>>, k: nat)
    requires
        forall|i: int| 0 <= i < items.len() ==> one_item(#[trigger] items[i]),
        k <= items.len(),
    ensures
        behind_first(joined(items), k) == Some(joined(items.skip(k as int))),
    decreases k,
{
    if k == 0 {
        assert(items.skip(0) =~= items);
    } else {
        let more = items.skip(1);
        assert forall|i: int| 0 <= i < more.len() implies one_item(#[trigger] more[i]) by {
            assert(more[i] == items[i + 1]);
        }
        lemma_behind_joined(more, (k - 1) as nat);
        assert(more.skip(k - 1) =~= items.skip(k as int));
        assert(one_item(items[0]));
        assert(behind_item(items[0] + joined(more)) == Some(joined(more)));
    }
}

/// Items that stand one after the other are found there.
proof fn lemma_joined_items(items: Seq<Seq<u8>>)
    requires
        forall|i: int| 0 <= i < items.len() ==> one_item(#[trigger] items[i]),
    ensures
        has_items(joined(items), items),
{
    let buf = joined(items);
    assert forall|k: int|
        #![trigger items[k]]
        0 <= k < items.len() implies nth_item(buf, k as nat) == Some(items[k]) by {
        lemma_behind_joined(items, k as nat);
        let rest = joined(items.skip(k));
        let more = joined(items.skip(k + 1));
        assert(items.skip(k).skip(1) =~= items.skip(k + 1));
        assert(rest == items[k] + more);
        assert(one_item(items[k]));
        assert(behind_item(items[k] + more) == Some(more));
        assert(rest.take(rest.len() - more.len()) =~= items[k]);
    }
    lemma_behind_joined(items, items.len());
    assert(items.skip(items.len() as int) =~= Seq::<Seq<u8>>::empty());
}

// ---------------------------------------------------------------------------
// Bodies and blocks
// ---------------------------------------------------------------------------

/// The items of the fields of a body: the transactions, the ommers, and the
/// trailing fields up to the last one that is there.
spec fn body_items<T: Encodable, H: Encodable>(
    body: BlockBody<T, H>,
    bridge_requests: Option<Bytes>,
) -> Seq<Seq<u8>> {
    let transactions = Vec::<T>::rlp(body.transactions.value());
    let ommers = Vec::<H>::rlp(body.ommers.value());
    let withdrawals = withdrawals_item(body.withdrawals);
    let slashed = withdrawals_item(body.slashed);
    match bridge_requests {
        Some(blob) => seq![transactions, ommers, withdrawals, slashed, string_rlp(blob.0@)],
        None => if body.slashed is Some {
            seq![transactions, ommers, withdrawals, slashed]
        } else if body.withdrawals is Some {
            seq![transactions, ommers, withdrawals]
        } else {
            seq![transactions, ommers]
        },
    }
}

/// An empty string is one item.
proof fn lemma_placeholder_item()
    ensures
        one_item(seq![EMPTY_STRING_CODE]),
{
    lemma_string_item(Seq::empty());
    assert(string_rlp(Seq::<u8>::empty()) =~= seq![EMPTY_STRING_CODE]);
}

/// Withdrawals are one item.
proof fn lemma_withdrawals_item(withdrawals: Option<Withdrawals>)
    requires
        withdrawals_item(withdrawals).len() <= usize::MAX,
    ensures
        one_item(withdrawals_item(withdrawals)),
{
    lemma_placeholder_item();
    if let Some(list) = withdrawals {
        lemma_list_item(items_rlp::<Withdrawal>(list.0@));
    }
}

/// A list is longer than its payload.
proof fn lemma_list_length(payload: Seq<u8>)
    ensures
        payload.len() < list_rlp(payload).len(),
{
}

/// A string is no shorter than its payload.
proof fn lemma_string_length(s: Seq<u8>)
    ensures
        s.len() <= string_rlp(s).len(),
        string_rlp(s).len() > 0,
{
}

/// The fields of a body are its items.
#[verifier::rlimit(30)]
proof fn lemma_fields_items<T: Encodable, H: Encodable>(
    body: BlockBody<T, H>,
    bridge_requests: Option<Bytes>,
    fields: Seq<u8>,
)
    requires
        fields == fields_rlp::<T, H>(
            BodyValue {
                bridge_requests: (match bridge_requests {
                    Some(blob) => Some(blob.0@),
                    None => None,
                }),
                ..body.value()
            },
        ),
        fields.len() <= usize::MAX,
    ensures
        has_items(fields, body_items(body, bridge_requests)),
{
    let a = Vec::<T>::rlp(body.transactions.value());
    let b = Vec::<H>::rlp(body.ommers.value());
    let w = withdrawals_item(body.withdrawals);
    let s = withdrawals_item(body.slashed);
    let items = body_items(body, bridge_requests);
    let nothing = Seq::<u8>::empty();
    let one = seq![a];
    let two = seq![a, b];
    let three = seq![a, b, w];
    let four = seq![a, b, w, s];
    lemma_joined_push(Seq::empty(), a);
    lemma_joined_push(one, b);
    lemma_joined_push(two, w);
    lemma_joined_push(three, s);
    assert(Seq::<Seq<u8>>::empty().push(a) =~= one);
    assert(one.push(b) =~= two);
    assert(two.push(w) =~= three);
    assert(three.push(s) =~= four);
    assert(joined(one) =~= a);
    assert(joined(two) == a + b);
    assert(joined(three) == a + b + w);
    assert(joined(four) == a + b + w + s);
    match bridge_requests {
        Some(blob) => {
            let c = string_rlp(blob.0@);
            lemma_joined_push(four, c);
            assert(four.push(c) =~= items);
            assert(joined(items) == a + b + w + s + c);
            assert(fields =~= a + (b + (w + (s + c))));
            assert(a + (b + (w + (s + c))) =~= a + b + w + s + c);
            lemma_string_length(blob.0@);
            lemma_string_item(blob.0@);
        },
        None => if body.slashed is Some {
            assert(fields =~= a + (b + (w + (s + nothing))));
            assert(a + (b + (w + (s + nothing))) =~= a + b + w + s);
        } else if body.withdrawals is Some {
            assert(fields =~= a + (b + (w + (nothing + nothing))));
            assert(a + (b + (w + (nothing + nothing))) =~= a + b + w);
        } else {
            assert(fields =~= a + (b + (nothing + (nothing + nothing))));
            assert(a + (b + (nothing + (nothing + nothing))) =~= a + b);
        },
    }
    assert(joined(items) == fields);
    lemma_list_length(items_rlp::<T>(body.transactions.value()));
    lemma_list_length(items_rlp::<H>(body.ommers.value()));
    lemma_list_item(items_rlp::<T>(body.transactions.value()));
    lemma_list_item(items_rlp::<H>(body.ommers.value()));
    lemma_placeholder_item();
    if items.len() > 2 {
        lemma_withdrawals_item(body.withdrawals);
    }
    if items.len() > 3 {
        lemma_withdrawals_item(body.slashed);
    }
    assert forall|i: int| 0 <= i < items.len() implies one_item(#[trigger] items[i]) by {
        assert(i == 0 || i == 1 || i == 2 || i == 3 || i == 4);
    }
    lemma_joined_items(items);
}

/// The encoding of a body is the list of its transactions, its ommers, its
/// withdrawals, its slashed entries and its bridge requests, in this order. What
/// is missing in front of something that is there is an empty string.
pub proof fn body_layout<T: Encodable, H: Encodable>(body: BlockBody<T, H>)
    requires
        BlockBody::<T, H>::rlp(body.value()).len() <= usize::MAX,
    ensures
        is_list(BlockBody::<T, H>::rlp(body.value())),
        ({
            let fields = list_payload(BlockBody::<T, H>::rlp(body.value()));
            let transactions = Vec::<T>::rlp(body.transactions.value());
            let ommers = Vec::<H>::rlp(body.ommers.value());
            let withdrawals = withdrawals_item(body.withdrawals);
            let slashed = withdrawals_item(body.slashed);
            match body.bridge_requests {
                Some(blob) => has_items(
                    fields,
                    seq![transactions, ommers, withdrawals, slashed, string_rlp(blob.0@)],
                ),
                None => if body.slashed is Some {
                    has_items(fields, seq![transactions, ommers, withdrawals, slashed])
                } else if body.withdrawals is Some {
                    has_items(fields, seq![transactions, ommers, withdrawals])
                } else {
                    has_items(fields, seq![transactions, ommers])
                },
            }
        }),
{
    let fields = fields_rlp::<T, H>(body.value());
    lemma_list_length(fields);
    lemma_list_item(fields);
    lemma_fields_items(body, body.bridge_requests, fields);
}

/// The encoding of a block is the list of its header and the items of its body.
/// A bridge requests blob without bytes is left out.
pub proof fn block_layout<T: Encodable, H: Encodable>(block: Block<T, H>)
    requires
        Block::<T, H>::rlp(block.value()).len() <= usize::MAX,
    ensures
        ({
            let buf = Block::<T, H>::rlp(block.value());
            let header = H::rlp(block.header.value());
            &&& is_list(buf)
            &&& list_payload(buf).take(header.len() as int) == header
            &&& ({
                let body = block.body;
                let fields = list_payload(buf).skip(header.len() as int);
                let transactions = Vec::<T>::rlp(body.transactions.value());
                let ommers = Vec::<H>::rlp(body.ommers.value());
                let withdrawals = withdrawals_item(body.withdrawals);
                let slashed = withdrawals_item(body.slashed);
                let blob = match body.bridge_requests {
                    Some(blob) => blob.0@,
                    None => Seq::empty(),
                };
                if blob.len() > 0 {
                    has_items(
                        fields,
                        seq![
                            transactions,
                            ommers,
                            withdrawals,
                            slashed,
                            string_rlp(blob),
                        ],
                    )
                } else if body.slashed is Some {
                    has_items(fields, seq![transactions, ommers, withdrawals, slashed])
                } else if body.withdrawals is Some {
                    has_items(fields, seq![transactions, ommers, withdrawals])
                } else {
                    has_items(fields, seq![transactions, ommers])
                }
            })
        }),
{
    let header = H::rlp(block.header.value());
    let fields = fields_rlp::<T, H>(block.value().body.normalized());
    let bridge_requests = match block.body.bridge_requests {
        Some(blob) => if blob.0@.len() == 0 {
            None
        } else {
            Some(blob)
        },
        None => None,
    };
    lemma_list_length(header + fields);
    lemma_list_item(header + fields);
    assert((header + fields).take(header.len() as int) =~= header);
    assert((header + fields).skip(header.len() as int) =~= fields);
    lemma_fields_items(block.body, bridge_requests, fields);
}

/// Whether `item` stands in `buf` between two places.
pub open spec fn stands_at(buf: Seq<u8>, from: int, to: int, item: Seq<u8>) -> bool {
    0 <= from <= to <= buf.len() && buf.subrange(from, to) == item
}

/// The encoding of a list has the encodings of its items in order: `cuts` tells
/// where each of them starts and ends.
pub proof fn list_layout<T: Encodable>(list: Vec<T>) -> (cuts: Seq<int>)
    requires
        Vec::<T>::rlp(list.value()).len() <= usize::MAX,
    ensures
        is_list(Vec::<T>::rlp(list.value())),
        cuts.len() == list@.len() + 1,
        cuts[0] == 0,
        cuts.last() == list_payload(Vec::<T>::rlp(list.value())).len(),
        forall|i: int|
            #![trigger list@[i]]
            0 <= i < list@.len() ==> stands_at(
                list_payload(Vec::<T>::rlp(list.value())),
                cuts[i],
                cuts[i + 1],
                T::rlp(list@[i].value()),
            ),
{
    let vs = list.value();
    let payload = items_rlp::<T>(vs);
    lemma_list_length(payload);
    lemma_list_item(payload);
    let cuts = lemma_cuts::<T>(vs);
    assert forall|i: int| #![trigger list@[i]] 0 <= i < list@.len() implies stands_at(
        payload,
        cuts[i],
        cuts[i + 1],
        T::rlp(list@[i].value()),
    ) by {
        assert(vs[i] == list@[i].value());
    }
    cuts
}

/// The places where the items of a list start and end.
proof fn lemma_cuts<T: Encodable>(vs: Seq<T::Value>) -> (cuts: Seq<int>)
    ensures
        cuts.len() == vs.len() + 1,
        cuts[0] == 0,
        cuts.last() == items_rlp::<T>(vs).len(),
        forall|i: int|
            #![trigger vs[i]]
            0 <= i < vs.len() ==> stands_at(
                items_rlp::<T>(vs),
                cuts[i],
                cuts[i + 1],
                T::rlp(vs[i]),
            ),
    decreases vs.len(),
{
    if vs.len() == 0 {
        seq![0]
    } else {
        let more = vs.skip(1);
        let first = T::rlp(vs[0]);
        let buf = items_rlp::<T>(vs);
        let tail = items_rlp::<T>(more);
        let rest = lemma_cuts::<T>(more);
        let cuts = seq![0] + rest.map_values(|c: int| c + first.len());
        assert forall|i: int| #![trigger vs[i]] 0 <= i < vs.len() implies stands_at(
            buf,
            cuts[i],
            cuts[i + 1],
            T::rlp(vs[i]),
        ) by {
            if i == 0 {
                assert(buf.subrange(0, first.len() as int) =~= first);
            } else {
                assert(more[i - 1] == vs[i]);
                assert(buf.subrange(cuts[i], cuts[i + 1]) =~= tail.subrange(
                    rest[i - 1],
                    rest[i],
                ));
            }
        }
        cuts
    }
}

// ---------------------------------------------------------------------------
// Headers, withdrawals and transactions
// ---------------------------------------------------------------------------

/// A number is one item.
proof fn lemma_uint_item(n: u64)
    ensures
        one_item(uint_rlp(n as nat)),
{
    lemma_be_bytes_u64(n as nat);
    lemma_string_item(be_bytes(n as nat));
}

/// A large number is one item.
proof fn lemma_u256_item(digits: Seq<u8>)
    requires
        digits.len() == 32,
    ensures
        one_item(uint_rlp(be_value(digits))),
{
    lemma_be_value_bound(digits);
    lemma_be_bytes_len(be_value(digits), 32);
    lemma_string_item(be_bytes(be_value(digits)));
}

/// The items of the fields that every header has.
spec fn required_items(header: Header) -> Seq<Seq<u8>> {
    seq![
        string_rlp(header.parent_hash.0@),
        string_rlp(header.ommers_hash.0@),
        string_rlp(header.beneficiary.0@),
        string_rlp(header.state_root.0@),
        string_rlp(header.transactions_root.0@),
        string_rlp(header.receipts_root.0@),
        string_rlp(header.logs_bloom.0@),
        uint_rlp(be_value(header.difficulty.0@)),
        uint_rlp(header.number as nat),
        uint_rlp(header.gas_limit as nat),
        uint_rlp(header.gas_used as nat),
        uint_rlp(header.timestamp as nat),
        string_rlp(header.extra_data.0@),
        string_rlp(header.mix_hash.0@),
        string_rlp(header.nonce.0@),
    ]
}

/// The item of a number, if it is there.
pub open spec fn number_item(field: Option<u64>) -> Seq<Seq<u8>> {
    item_if(
        match field {
            Some(n) => Some(uint_rlp(n as nat)),
            None => None,
        },
    )
}

/// The item of a hash, if it is there.
pub open spec fn hash_item(field: Option<FixedBytes<32>>) -> Seq<Seq<u8>> {
    item_if(
        match field {
            Some(hash) => Some(string_rlp(hash.0@)),
            None => None,
        },
    )
}

/// The items of the fields that later forks have added.
spec fn added_items(header: Header) -> Seq<Seq<u8>> {
    number_item(header.base_fee_per_gas) + hash_item(header.withdrawals_root) + number_item(
        header.blob_gas_used,
    ) + number_item(header.excess_blob_gas) + hash_item(header.parent_beacon_block_root)
        + hash_item(header.requests_hash)
}

/// The fields that every header has are its first items.
proof fn lemma_required_joined(header: Header)
    ensures
        joined(required_items(header)) == header.value().required_rlp(),
{
    let items = required_items(header);
    let nothing = Seq::<Seq<u8>>::empty();
    lemma_joined_push(nothing, items[0]);
    assert(joined(nothing.push(items[0])) =~= items[0]);
    let upto = nothing.push(items[0]);
    lemma_joined_push(upto, items[1]);
    let upto = upto.push(items[1]);
    lemma_joined_push(upto, items[2]);
    let upto = upto.push(items[2]);
    lemma_joined_push(upto, items[3]);
    let upto = upto.push(items[3]);
    lemma_joined_push(upto, items[4]);
    let upto = upto.push(items[4]);
    lemma_joined_push(upto, items[5]);
    let upto = upto.push(items[5]);
    lemma_joined_push(upto, items[6]);
    let upto = upto.push(items[6]);
    lemma_joined_push(upto, items[7]);
    let upto = upto.push(items[7]);
    lemma_joined_push(upto, items[8]);
    let upto = upto.push(items[8]);
    lemma_joined_push(upto, items[9]);
    let upto = upto.push(items[9]);
    lemma_joined_push(upto, items[10]);
    let upto = upto.push(items[10]);
    lemma_joined_push(upto, items[11]);
    let upto = upto.push(items[11]);
    lemma_joined_push(upto, items[12]);
    let upto = upto.push(items[12]);
    lemma_joined_push(upto, items[13]);
    let upto = upto.push(items[13]);
    lemma_joined_push(upto, items[14]);
    let upto = upto.push(items[14]);
    assert(upto =~= items);
}

/// Each of the fields that every header has is one item.
proof fn lemma_required_one_items(header: Header)
    requires
        header.extra_data.0@.len() <= usize::MAX,
    ensures
        forall|i: int|
            0 <= i < required_items(header).len() ==> one_item(
                #[trigger] required_items(header)[i],
            ),
{
    let items = required_items(header);
    assert forall|i: int| 0 <= i < items.len() implies one_item(#[trigger] items[i]) by {
        lemma_string_item(header.parent_hash.0@);
        lemma_string_item(header.ommers_hash.0@);
        lemma_string_item(header.beneficiary.0@);
        lemma_string_item(header.state_root.0@);
        lemma_string_item(header.transactions_root.0@);
        lemma_string_item(header.receipts_root.0@);
        lemma_string_item(header.logs_bloom.0@);
        lemma_u256_item(header.difficulty.0@);
        lemma_uint_item(header.number);
        lemma_uint_item(header.gas_limit);
        lemma_uint_item(header.gas_used);
        lemma_uint_item(header.timestamp);
        lemma_string_item(header.extra_data.0@);
        lemma_string_item(header.mix_hash.0@);
        lemma_string_item(header.nonce.0@);
    }
}

/// One more field behind others.
proof fn lemma_added_number(items: Seq<Seq<u8>>, field: Option<u64>)
    requires
        forall|i: int| 0 <= i < items.len() ==> one_item(#[trigger] items[i]),
    ensures
        joined(items + number_item(field)) == joined(items) + present_rlp::<u64>(field),
        forall|i: int|
            0 <= i < (items + number_item(field)).len() ==> one_item(
                #[trigger] (items + number_item(field))[i],
            ),
{
    if let Some(n) = field {
        lemma_uint_item(n);
        lemma_joined_if(items, Some(uint_rlp(n as nat)));
    } else {
        lemma_joined_if(items, None);
        assert(joined(items) + Seq::<u8>::empty() =~= joined(items));
    }
}

/// One more field behind others.
proof fn lemma_added_hash(items: Seq<Seq<u8>>, field: Option<FixedBytes<32>>)
    requires
        forall|i: int| 0 <= i < items.len() ==> one_item(#[trigger] items[i]),
    ensures
        joined(items + hash_item(field)) == joined(items) + present_rlp::<FixedBytes<32>>(field),
        forall|i: int|
            0 <= i < (items + hash_item(field)).len() ==> one_item(
                #[trigger] (items + hash_item(field))[i],
            ),
{
    if let Some(hash) = field {
        lemma_string_item(hash.0@);
        lemma_joined_if(items, Some(string_rlp(hash.0@)));
    } else {
        lemma_joined_if(items, None);
        assert(joined(items) + Seq::<u8>::empty() =~= joined(items));
    }
}

/// The fields of later forks are its last items.
proof fn lemma_added_joined(header: Header)
    ensures
        joined(added_items(header)) == header.value().added_rlp(),
        forall|i: int|
            0 <= i < added_items(header).len() ==> one_item(#[trigger] added_items(header)[i]),
{
    let nothing = Seq::<Seq<u8>>::empty();
    lemma_added_number(nothing, header.base_fee_per_gas);
    let upto = number_item(header.base_fee_per_gas);
    assert(nothing + upto =~= upto);
    assert(joined(nothing) + present_rlp::<u64>(header.base_fee_per_gas) =~= present_rlp::<u64>(
        header.base_fee_per_gas,
    ));
    lemma_added_hash(upto, header.withdrawals_root);
    let upto = upto + hash_item(header.withdrawals_root);
    lemma_added_number(upto, header.blob_gas_used);
    let upto = upto + number_item(header.blob_gas_used);
    lemma_added_number(upto, header.excess_blob_gas);
    let upto = upto + number_item(header.excess_blob_gas);
    lemma_added_hash(upto, header.parent_beacon_block_root);
    let upto = upto + hash_item(header.parent_beacon_block_root);
    lemma_added_hash(upto, header.requests_hash);
}

/// Some items and those behind them follow each other.
proof fn lemma_joined_both(a: Seq<Seq<u8>>, b: Seq<Seq<u8>>)
    ensures
        joined(a + b) == joined(a) + joined(b),
    decreases a.len(),
{
    if a.len() == 0 {
        assert(a + b =~= b);
        assert(joined(a) + joined(b) =~= joined(b));
    } else {
        lemma_joined_both(a.skip(1), b);
        assert((a + b).skip(1) =~= a.skip(1) + b);
        lemma_assoc(a[0], joined(a.skip(1)), joined(b));
    }
}

/// The encoding of a header is the list of its fields in the order of the wire:
/// the parent hash, the ommers hash, the beneficiary, the state root, the
/// transactions root, the receipts root, the logs bloom, the difficulty, the
/// number, the gas limit, the gas used, the timestamp, the extra data, the mix
/// hash, the nonce, and then the fields of later forks that are there.
pub proof fn header_layout(header: Header)
    requires
        Header::rlp(header.value()).len() <= usize::MAX,
    ensures
        is_list(Header::rlp(header.value())),
        has_items(
            list_payload(Header::rlp(header.value())),
            seq![
                string_rlp(header.parent_hash.0@),
                string_rlp(header.ommers_hash.0@),
                string_rlp(header.beneficiary.0@),
                string_rlp(header.state_root.0@),
                string_rlp(header.transactions_root.0@),
                string_rlp(header.receipts_root.0@),
                string_rlp(header.logs_bloom.0@),
                uint_rlp(be_value(header.difficulty.0@)),
                uint_rlp(header.number as nat),
                uint_rlp(header.gas_limit as nat),
                uint_rlp(header.gas_used as nat),
                uint_rlp(header.timestamp as nat),
                string_rlp(header.extra_data.0@),
                string_rlp(header.mix_hash.0@),
                string_rlp(header.nonce.0@),
            ] + (number_item(header.base_fee_per_gas) + hash_item(header.withdrawals_root)
                + number_item(header.blob_gas_used) + number_item(header.excess_blob_gas)
                + hash_item(header.parent_beacon_block_root) + hash_item(header.requests_hash)),
        ),
        nth_item(list_payload(Header::rlp(header.value())), 10) == Some(
            uint_rlp(header.gas_used as nat),
        ),
        nth_item(list_payload(Header::rlp(header.value())), 11) == Some(
            uint_rlp(header.timestamp as nat),
        ),
{
    let fields = header.value().fields_rlp();
    let required = required_items(header);
    let added = added_items(header);
    let items = required + added;
    lemma_list_length(fields);
    lemma_list_item(fields);
    lemma_required_joined(header);
    lemma_added_joined(header);
    lemma_joined_both(required, added);
    assert(header.extra_data.0@.len() <= usize::MAX) by {
        lemma_string_length(header.extra_data.0@);
    }
    lemma_required_one_items(header);
    assert forall|i: int| 0 <= i < items.len() implies one_item(#[trigger] items[i]) by {
        if i < required.len() {
            assert(items[i] == required[i]);
        } else {
            assert(items[i] == added[i - required.len()]);
        }
    }
    lemma_joined_items(items);
    assert(items[10] == required[10]);
    assert(items[11] == required[11]);
}

/// A number is written as its digits, a byte string as a string, and so are byte
/// strings of fixed length and large numbers.
pub proof fn scalar_layout<const N: usize>(n: u64, large: U256, fixed: FixedBytes<N>, bytes: Bytes)
    ensures
        u64::rlp(n.value()) == uint_rlp(n as nat),
        U256::rlp(large.value()) == uint_rlp(be_value(large.0@)),
        FixedBytes::<N>::rlp(fixed.value()) == string_rlp(fixed.0@),
        Bytes::rlp(bytes.value()) == string_rlp(bytes.0@),
{
}

/// The encoding of a withdrawal is the list of its index, the index of its
/// validator, its address and its amount.
pub proof fn withdrawal_layout(withdrawal: Withdrawal)
    ensures
        is_list(Withdrawal::rlp(withdrawal.value())),
        has_items(
            list_payload(Withdrawal::rlp(withdrawal.value())),
            seq![
                uint_rlp(withdrawal.index as nat),
                uint_rlp(withdrawal.validator_index as nat),
                string_rlp(withdrawal.address.0@),
                uint_rlp(withdrawal.amount as nat),
            ],
        ),
{
    let a = uint_rlp(withdrawal.index as nat);
    let b = uint_rlp(withdrawal.validator_index as nat);
    let c = string_rlp(withdrawal.address.0@);
    let d = uint_rlp(withdrawal.amount as nat);
    let items = seq![a, b, c, d];
    let fields = withdrawal.fields_rlp();
    lemma_joined_push(Seq::empty(), a);
    lemma_joined_push(seq![a], b);
    lemma_joined_push(seq![a, b], c);
    lemma_joined_push(seq![a, b, c], d);
    assert(Seq::<Seq<u8>>::empty().push(a) =~= seq![a]);
    assert(seq![a].push(b) =~= seq![a, b]);
    assert(seq![a, b].push(c) =~= seq![a, b, c]);
    assert(seq![a, b, c].push(d) =~= items);
    assert(joined(seq![a]) =~= a);
    assert(joined(items) == a + b + c + d);
    assert(fields =~= a + b + c + d);
    lemma_uint_item(withdrawal.index);
    lemma_uint_item(withdrawal.validator_index);
    lemma_string_item(withdrawal.address.0@);
    lemma_uint_item(withdrawal.amount);
    lemma_be_bytes_u64(withdrawal.index as nat);
    lemma_be_bytes_u64(withdrawal.validator_index as nat);
    lemma_be_bytes_u64(withdrawal.amount as nat);
    assert(fields.len() <= 56);
    lemma_list_item(fields);
    lemma_joined_items(items);
}

/// The encodings of items, joined, are the payload of their list.
proof fn lemma_items_joined<T: Encodable>(vs: Seq<T::Value>, items: Seq<Seq<u8>>)
    requires
        items.len() == vs.len(),
        forall|i: int| 0 <= i < vs.len() ==> #[trigger] items[i] == T::rlp(vs[i]),
    ensures
        joined(items) == items_rlp::<T>(vs),
    decreases vs.len(),
{
    if vs.len() > 0 {
        let more = items.skip(1);
        assert forall|i: int| 0 <= i < more.len() implies #[trigger] more[i] == T::rlp(
            vs.skip(1)[i],
        ) by {
            assert(more[i] == items[i + 1]);
        }
        lemma_items_joined::<T>(vs.skip(1), more);
    }
}

/// The encoding of withdrawals is the list of the encodings of each of them, in
/// order.
pub proof fn withdrawals_layout(withdrawals: Withdrawals, items: Seq<Seq<u8>>)
    requires
        Withdrawals::rlp(withdrawals.value()).len() <= usize::MAX,
        items.len() == withdrawals.0@.len(),
        forall|i: int|
            0 <= i < items.len() ==> #[trigger] items[i] == Withdrawal::rlp(withdrawals.0@[i]),
    ensures
        is_list(Withdrawals::rlp(withdrawals.value())),
        has_items(list_payload(Withdrawals::rlp(withdrawals.value())), items),
{
    let vs = withdrawals.0@;
    let payload = items_rlp::<Withdrawal>(vs);
    lemma_list_length(payload);
    lemma_list_item(payload);
    lemma_items_joined::<Withdrawal>(vs, items);
    assert forall|i: int| 0 <= i < items.len() implies one_item(#[trigger] items[i]) by {
        let fields = vs[i].fields_rlp();
        lemma_be_bytes_u64(vs[i].index as nat);
        lemma_be_bytes_u64(vs[i].validator_index as nat);
        lemma_be_bytes_u64(vs[i].amount as nat);
        assert(fields.len() <= 56);
        lemma_list_item(fields);
    }
    lemma_joined_items(items);
}

/// The envelope of a transaction is its body behind its type, and the body alone
/// where the type is that of a legacy transaction. A legacy transaction is
/// written as it is, and another one as the string of its envelope.
pub proof fn transaction_layout(tx: TxEnvelope)
    ensures
        tx.tx_type() == tx.ty,
        tx.ty == 0 ==> tx.envelope() == tx.body.0@,
        tx.ty != 0 ==> tx.envelope() == seq![tx.ty] + tx.body.0@,
        tx.ty == 0 ==> TxEnvelope::rlp(tx.value()) == tx.body.0@,
        tx.ty != 0 ==> TxEnvelope::rlp(tx.value()) == string_rlp(seq![tx.ty] + tx.body.0@),
{
}

} // verus!
