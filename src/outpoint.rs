use vstd::prelude::*;
use crate::le_bytes::{lemma_le_round_trip, lemma_pow256_facts, push_le, read_le, spec_le_bytes, spec_le_value};
use crate::error::BitcoinError;

verus! {

/// A 32-byte transaction identifier.
#[derive(Debug, PartialEq, Eq, Clone)]
pub struct Txid(pub [u8; 32]);

/// A reference to an output of an earlier transaction: its identifier and
/// the output's index.
#[derive(Debug, PartialEq, Eq, Clone)]
pub struct OutPoint {
    pub txid: Txid,
    pub vout: u32,
}

/// The mathematical value of an `OutPoint`.
pub ghost struct OutPointModel {
    pub txid: Seq<u8>,
    pub vout: u32,
}

impl OutPointModel {
    pub open spec fn wf(self) -> bool {
        self.txid.len() == 32
    }
}

impl View for OutPoint {
    type V = OutPointModel;

    open spec fn view(&self) -> OutPointModel {
        OutPointModel { txid: self.txid.0@, vout: self.vout }
    }
}

/// The 36-byte wire form: identifier, then index little-endian.
pub open spec fn spec_outpoint_encode(o: OutPointModel) -> Seq<u8> {
    o.txid + spec_le_bytes(o.vout as nat, 4)
}

/// What a decoder reads from the front of `s`, or `None` where fewer than 36
/// bytes are present.
pub open spec fn spec_outpoint_parse(s: Seq<u8>) -> Option<(OutPointModel, nat)> {
    if s.len() < 36 {
        None
    } else {
        Some(
            (
                OutPointModel {
                    txid: s.subrange(0, 32),
                    vout: spec_le_value(s.subrange(32, 36)) as u32,
                },
                36,
            ),
        )
    }
}

impl OutPoint {
    pub fn new(txid: [u8; 32], vout: u32) -> (r: Self)
        ensures
            r.txid.0 == txid,
            r.vout == vout,
    {
        OutPoint { txid: Txid(txid), vout }
    }

    /// The 36-byte encoding.
    pub fn to_bytes(&self) -> (r: Vec<u8>)
        ensures
            r@ == spec_outpoint_encode(self@),
    {
        let mut bytes: Vec<u8> = Vec::with_capacity(36);
        bytes.extend_from_slice(self.txid.0.as_slice());
        push_le(&mut bytes, self.vout as u64, 4);
        bytes
    }

    /// Reads an outpoint from the front of `bytes`; it always takes 36 bytes.
    pub fn from_bytes(bytes: &[u8]) -> (r: Result<(OutPoint, usize), BitcoinError>)
        ensures
            match r {
                Ok((o, n)) => spec_outpoint_parse(bytes@) == Some((o@, n as nat)),
                Err(e) => spec_outpoint_parse(bytes@) is None && e is InsufficientBytes,
            },
    {
        if bytes.len() < 36 {
            return Err(BitcoinError::InsufficientBytes);
        }
        let mut txid = [0u8; 32];
        let mut i: usize = 0;
        while i < 32
            invariant
                i <= 32,
                bytes@.len() >= 36,
                forall|j: int| 0 <= j < i ==> txid@[j] == bytes@[j],
            decreases 32 - i,
        {
            txid[i] = bytes[i];
            i = i + 1;
        }
        let vout = read_le(bytes, 32, 4) as u32;
        let o = OutPoint::new(txid, vout);
        assert(o@.txid =~= bytes@.subrange(0, 32));
        Ok((o, 36))
    }
}

/// Decoding the encoding of a well-formed outpoint, followed by any bytes at
/// all, gives it back with 36 bytes taken.
pub proof fn lemma_outpoint_round_trip(o: OutPointModel, rest: Seq<u8>)
    requires
        o.wf(),
    ensures
        spec_outpoint_encode(o).len() == 36,
        spec_outpoint_parse(spec_outpoint_encode(o) + rest) == Some((o, 36nat)),
{
    lemma_pow256_facts();
    lemma_le_round_trip(o.vout as nat, 4);
    let s = spec_outpoint_encode(o) + rest;
    assert(s.subrange(0, 32) =~= o.txid);
    assert(s.subrange(32, 36) =~= spec_le_bytes(o.vout as nat, 4));
}

} // verus!
