use vstd::prelude::*;
use crate::le_bytes::{
    lemma_le_bytes_len, lemma_le_round_trip, lemma_pow256_facts, push_le, read_le, spec_le_bytes,
    spec_le_value,
};
use crate::error::BitcoinError;

verus! {

/// An unsigned 64-bit integer in Bitcoin's variable-width "CompactSize" form.
#[derive(Debug, PartialEq, Eq, Clone)]
pub struct CompactSize {
    pub value: u64,
}

/// The canonical encoding of `v`: the narrowest of the four width classes.
pub open spec fn spec_compact_encode(v: u64) -> Seq<u8> {
    if v <= 252 {
        seq![v as u8]
    } else if v <= 0xFFFF {
        seq![0xFDu8] + spec_le_bytes(v as nat, 2)
    } else if v <= 0xFFFF_FFFF {
        seq![0xFEu8] + spec_le_bytes(v as nat, 4)
    } else {
        seq![0xFFu8] + spec_le_bytes(v as nat, 8)
    }
}

/// What a decoder reads from the front of `s`: the value and the number of
/// bytes it took, or `None` where `s` is too short. Any well-formed prefix is
/// accepted, canonical or not.
pub open spec fn spec_compact_parse(s: Seq<u8>) -> Option<(nat, nat)> {
    if s.len() == 0 {
        None
    } else if s[0] <= 252 {
        Some((s[0] as nat, 1))
    } else if s[0] == 0xFD {
        if s.len() < 3 {
            None
        } else {
            Some((spec_le_value(s.subrange(1, 3)), 3))
        }
    } else if s[0] == 0xFE {
        if s.len() < 5 {
            None
        } else {
            Some((spec_le_value(s.subrange(1, 5)), 5))
        }
    } else if s.len() < 9 {
        None
    } else {
        Some((spec_le_value(s.subrange(1, 9)), 9))
    }
}

impl CompactSize {
    pub fn new(value: u64) -> (r: Self)
        ensures
            r.value == value,
    {
        CompactSize { value }
    }

    /// The canonical encoding: 1, 3, 5 or 9 bytes.
    pub fn to_bytes(&self) -> (r: Vec<u8>)
        ensures
            r@ == spec_compact_encode(self.value),
    {
        let mut bytes: Vec<u8> = Vec::new();
        if self.value <= 252 {
            bytes.push(self.value as u8);
        } else if self.value <= 0xFFFF {
            bytes.push(0xFD);
            push_le(&mut bytes, self.value, 2);
        } else if self.value <= 0xFFFF_FFFF {
            bytes.push(0xFE);
            push_le(&mut bytes, self.value, 4);
        } else {
            bytes.push(0xFF);
            push_le(&mut bytes, self.value, 8);
        }
        bytes
    }

    /// Reads a CompactSize from the front of `bytes`; returns it with the
    /// number of bytes it took.
    pub fn from_bytes(bytes: &[u8]) -> (r: Result<(CompactSize, usize), BitcoinError>)
        ensures
            match r {
                Ok((c, n)) => spec_compact_parse(bytes@) == Some((c.value as nat, n as nat)),
                Err(e) => spec_compact_parse(bytes@) is None && e is InsufficientBytes,
            },
    {
        if bytes.len() == 0 {
            return Err(BitcoinError::InsufficientBytes);
        }
        let first = bytes[0];
        let width: usize = if first <= 252 {
            1
        } else if first == 0xFD {
            3
        } else if first == 0xFE {
            5
        } else {
            9
        };
        if bytes.len() < width {
            return Err(BitcoinError::InsufficientBytes);
        }
        let value = if width == 1 {
            first as u64
        } else {
            read_le(bytes, 1, width - 1)
        };
        Ok((CompactSize::new(value), width))
    }
}

/// The encoding has 1, 3, 5 or 9 bytes, by the width class of `v`.
pub proof fn lemma_compact_encode_len(v: u64)
    ensures
        spec_compact_encode(v).len() == if v <= 252 {
            1nat
        } else if v <= 0xFFFF {
            3nat
        } else if v <= 0xFFFF_FFFF {
            5nat
        } else {
            9nat
        },
{
    lemma_le_bytes_len(v as nat, 2);
    lemma_le_bytes_len(v as nat, 4);
    lemma_le_bytes_len(v as nat, 8);
}

/// Decoding the encoding of `v`, followed by any bytes at all, gives back `v`
/// and the length of the encoding.
pub proof fn lemma_compact_round_trip(v: u64, rest: Seq<u8>)
    ensures
        spec_compact_parse(spec_compact_encode(v) + rest) == Some(
            (v as nat, spec_compact_encode(v).len()),
        ),
{
    lemma_pow256_facts();
    let s = spec_compact_encode(v) + rest;
    if v <= 252 {
    } else if v <= 0xFFFF {
        lemma_le_round_trip(v as nat, 2);
        assert(s.subrange(1, 3) =~= spec_le_bytes(v as nat, 2));
    } else if v <= 0xFFFF_FFFF {
        lemma_le_round_trip(v as nat, 4);
        assert(s.subrange(1, 5) =~= spec_le_bytes(v as nat, 4));
    } else {
        lemma_le_round_trip(v as nat, 8);
        assert(s.subrange(1, 9) =~= spec_le_bytes(v as nat, 8));
    }
}

} // verus!
