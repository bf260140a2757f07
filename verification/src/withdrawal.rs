//! Validator withdrawals.

use crate::bytes::Address;
use crate::rlp::{
    and, close_list, decode_list_head, encode_head, finish_list, lemma_and_consumes,
    lemma_head_bounds, list_rlp, open_list, restores, values, Decodable, Encodable, Parsed,
    RlpValue,
};
use crate::rlp_laws::{
    lemma_and_restores, lemma_fixed_restores, lemma_head_restores, lemma_u64_restores,
    lemma_u64_rlp_len, lemma_vec_restores,
};
use alloy_rlp::Error;
use vstd::prelude::*;

verus! {

/// A validator withdrawal from the consensus layer.
#[derive(Clone, Copy, Debug, PartialEq, Eq)]
pub struct Withdrawal {
    /// Monotonically increasing identifier issued by the consensus layer.
    pub index: u64,
    /// Index of the validator associated with the withdrawal.
    pub validator_index: u64,
    /// Target address for the withdrawn ether.
    pub address: Address,
    /// Value of the withdrawal in gwei.
    pub amount: u64,
}

impl Withdrawal {
    /// The fields in the order in which they are written.
    pub open spec fn fields_rlp(self) -> Seq<u8> {
        u64::rlp(self.index) + (u64::rlp(self.validator_index) + (Address::rlp(self.address)
            + u64::rlp(self.amount)))
    }

    /// Reads the fields, one after the other.
    pub open spec fn parse_fields(buf: Seq<u8>) -> Parsed<(((u64, u64), Address), u64)> {
        and::<_, u64>(and::<_, Address>(and::<_, u64>(u64::parse(buf))))
    }

    /// The fields of a withdrawal take up some of the input.
    proof fn lemma_fields_consume(buf: Seq<u8>)
        ensures
            Self::parse_fields(buf).0 is Ok ==> Self::parse_fields(buf).1.len() < buf.len(),
    {
        let p = u64::parse(buf);
        u64::parse_consumes(buf);
        lemma_and_consumes::<_, u64>(p);
        lemma_and_consumes::<_, Address>(and::<_, u64>(p));
        lemma_and_consumes::<_, u64>(and::<_, Address>(and::<_, u64>(p)));
    }
}

impl RlpValue for Withdrawal {
    type Value = Withdrawal;

    open spec fn value(&self) -> Withdrawal {
        *self
    }
}

impl Encodable for Withdrawal {
    open spec fn rlp(v: Withdrawal) -> Seq<u8> {
        list_rlp(v.fields_rlp())
    }

    fn encode(&self, out: &mut Vec<u8>) {
        let mut payload: Vec<u8> = Vec::new();
        self.index.encode(&mut payload);
        self.validator_index.encode(&mut payload);
        self.address.encode(&mut payload);
        self.amount.encode(&mut payload);
        assert(payload@ =~= self.fields_rlp());
        encode_head(true, payload.len(), out);
        out.append(&mut payload);
    }
}

impl Decodable for Withdrawal {
    open spec fn parse(buf: Seq<u8>) -> Parsed<Withdrawal> {
        match open_list(buf) {
            (Ok(n), start) => match Withdrawal::parse_fields(start) {
                (Ok((((index, validator_index), address), amount)), rest) => close_list(
                    Withdrawal { index, validator_index, address, amount },
                    n,
                    start,
                    rest,
                ),
                (Err(e), rest) => (Err(e), rest),
            },
            (Err(e), rest) => (Err(e), rest),
        }
    }

    proof fn parse_consumes(buf: Seq<u8>) {
        lemma_head_bounds(buf);
        Withdrawal::lemma_fields_consume(open_list(buf).1);
    }

    fn decode(buf: &mut &[u8]) -> (res: Result<Withdrawal, Error>) {
        let payload_length: usize = decode_list_head(buf)?;
        let started_len: usize = buf.len();
        let ghost start = buf@;
        let index: u64 = u64::decode(buf)?;
        let validator_index: u64 = u64::decode(buf)?;
        let address = Address::decode(buf)?;
        let amount: u64 = u64::decode(buf)?;
        proof {
            Withdrawal::lemma_fields_consume(start);
        }
        finish_list(payload_length, started_len, buf.len())?;
        Ok(Withdrawal { index, validator_index, address, amount })
    }
}

/// The fields of a withdrawal are read back.
proof fn lemma_fields_restore(v: Withdrawal, rest: Seq<u8>)
    ensures
        Withdrawal::parse_fields(v.fields_rlp() + rest) == (
            Ok::<(((u64, u64), Address), u64), Error>(
                (((v.index, v.validator_index), v.address), v.amount),
            ),
            rest,
        ),
{
    lemma_u64_restores(v.index);
    lemma_u64_restores(v.validator_index);
    lemma_fixed_restores(v.address);
    lemma_u64_restores(v.amount);
    let amount = u64::rlp(v.amount) + rest;
    let address = Address::rlp(v.address) + amount;
    let validator = u64::rlp(v.validator_index) + address;
    assert(v.fields_rlp() + rest =~= u64::rlp(v.index) + validator);
    assert(u64::parse(u64::rlp(v.index) + validator) == (Ok::<u64, Error>(v.index), validator));
    lemma_and_restores::<_, u64>(v.index, v.validator_index, address);
    lemma_and_restores::<_, Address>((v.index, v.validator_index), v.address, amount);
    lemma_and_restores::<_, u64>(((v.index, v.validator_index), v.address), v.amount, rest);
}

/// What a withdrawal writes it reads back.
pub proof fn lemma_withdrawal_restores(v: Withdrawal)
    ensures
        restores::<Withdrawal>(v),
{
    let payload = v.fields_rlp();
    lemma_u64_rlp_len(v.index);
    lemma_u64_rlp_len(v.validator_index);
    lemma_u64_rlp_len(v.amount);
    assert(Address::rlp(v.address).len() == 21);
    assert(payload.len() < 56);
    assert forall|rest: Seq<u8>|
        Withdrawal::parse(#[trigger] (Withdrawal::rlp(v) + rest)) == (
            Ok::<Withdrawal, Error>(v),
            rest,
        ) by {
        lemma_head_restores(true, payload, rest);
        lemma_fields_restore(v, rest);
    }
}

/// A collection of withdrawals.
#[derive(Debug, PartialEq, Eq)]
pub struct Withdrawals(pub Vec<Withdrawal>);

impl View for Withdrawals {
    type V = Seq<Withdrawal>;

    open spec fn view(&self) -> Seq<Withdrawal> {
        self.0@
    }
}

impl Clone for Withdrawals {
    fn clone(&self) -> (res: Self)
        ensures
            res@ == self@,
    {
        let mut copy: Vec<Withdrawal> = Vec::new();
        copy.extend_from_slice(self.0.as_slice());
        assert(copy@ =~= self.0@);
        Withdrawals(copy)
    }
}

impl Default for Withdrawals {
    fn default() -> (res: Self)
        ensures
            res@ == Seq::<Withdrawal>::empty(),
    {
        Withdrawals(Vec::new())
    }
}

impl Withdrawals {
    /// The collection of the given withdrawals.
    pub fn new(withdrawals: Vec<Withdrawal>) -> (res: Self)
        ensures
            res@ == withdrawals@,
    {
        Withdrawals(withdrawals)
    }

    /// Whether there are no withdrawals.
    pub fn is_empty(&self) -> (res: bool)
        ensures
            res == (self@.len() == 0),
    {
        self.0.is_empty()
    }
}

impl RlpValue for Withdrawals {
    type Value = Seq<Withdrawal>;

    open spec fn value(&self) -> Seq<Withdrawal> {
        self@
    }
}

impl Encodable for Withdrawals {
    open spec fn rlp(vs: Seq<Withdrawal>) -> Seq<u8> {
        Vec::<Withdrawal>::rlp(vs)
    }

    fn encode(&self, out: &mut Vec<u8>) {
        assert(values(self.0@) =~= self@);
        self.0.encode(out);
    }

    fn length(&self) -> (n: usize) {
        assert(values(self.0@) =~= self@);
        self.0.length()
    }
}

impl Decodable for Withdrawals {
    open spec fn parse(buf: Seq<u8>) -> Parsed<Seq<Withdrawal>> {
        Vec::<Withdrawal>::parse(buf)
    }

    proof fn parse_consumes(buf: Seq<u8>) {
        Vec::<Withdrawal>::parse_consumes(buf);
    }

    fn decode(buf: &mut &[u8]) -> (res: Result<Withdrawals, Error>) {
        let withdrawals: Vec<Withdrawal> = Vec::<Withdrawal>::decode(buf)?;
        assert(values(withdrawals@) =~= withdrawals@);
        Ok(Withdrawals(withdrawals))
    }
}

/// What a collection of withdrawals writes it reads back.
pub proof fn lemma_withdrawals_restore(vs: Seq<Withdrawal>)
    requires
        Withdrawals::rlp(vs).len() <= usize::MAX,
    ensures
        restores::<Withdrawals>(vs),
{
    assert forall|i: int| 0 <= i < vs.len() implies restores::<Withdrawal>(#[trigger] vs[i]) by {
        lemma_withdrawal_restores(vs[i]);
    }
    lemma_vec_restores::<Withdrawal>(vs);
    assert forall|rest: Seq<u8>|
        Withdrawals::parse(#[trigger] (Withdrawals::rlp(vs) + rest)) == (
            Ok::<Seq<Withdrawal>, Error>(vs),
            rest,
        ) by {
        assert(Vec::<Withdrawal>::parse(Vec::<Withdrawal>::rlp(vs) + rest).1 == rest);
    }
}

} // verus!
