use vstd::prelude::*;
use vstd::slice::slice_to_vec;
use crate::compact_size::{lemma_compact_round_trip, spec_compact_encode, spec_compact_parse, CompactSize};
use crate::error::BitcoinError;

verus! {

/// An opaque byte string, written on the wire after its CompactSize length.
#[derive(Debug, PartialEq, Eq, Clone)]
pub struct Script {
    pub bytes: Vec<u8>,
}

impl View for Script {
    type V = Seq<u8>;

    open spec fn view(&self) -> Seq<u8> {
        self.bytes@
    }
}

/// A script's length fits the CompactSize that carries it.
pub open spec fn spec_script_wf(b: Seq<u8>) -> bool {
    b.len() <= u64::MAX
}

/// The wire form: CompactSize of the length, then the bytes.
pub open spec fn spec_script_encode(b: Seq<u8>) -> Seq<u8> {
    spec_compact_encode(b.len() as u64) + b
}

/// What a decoder reads from the front of `s`: a length `L` of width `W`,
/// then `L` bytes; `None` where the length cannot be read or fewer than `L`
/// bytes follow it.
pub open spec fn spec_script_parse(s: Seq<u8>) -> Option<(Seq<u8>, nat)> {
    match spec_compact_parse(s) {
        None => None,
        Some((len, w)) => if s.len() < w + len {
            None
        } else {
            Some((s.subrange(w as int, (w + len) as int), w + len))
        },
    }
}

impl Script {
    pub fn new(bytes: Vec<u8>) -> (r: Self)
        ensures
            r@ == bytes@,
    {
        Script { bytes }
    }

    /// The length-prefixed encoding.
    pub fn to_bytes(&self) -> (r: Vec<u8>)
        ensures
            r@ == spec_script_encode(self@),
    {
        let length = CompactSize::new(self.bytes.len() as u64);
        let mut bytes = length.to_bytes();
        bytes.extend_from_slice(self.bytes.as_slice());
        assert(bytes@ =~= spec_script_encode(self@));
        bytes
    }

    /// Reads a script from the front of `bytes`; returns it with the number of
    /// bytes taken (length prefix included).
    pub fn from_bytes(bytes: &[u8]) -> (r: Result<(Script, usize), BitcoinError>)
        ensures
            match r {
                Ok((sc, n)) => spec_script_parse(bytes@) == Some((sc@, n as nat)),
                Err(e) => spec_script_parse(bytes@) is None && e is InsufficientBytes,
            },
    {
        let (length, consumed) = match CompactSize::from_bytes(bytes) {
            Ok(p) => p,
            Err(e) => return Err(e),
        };
        if ((bytes.len() - consumed) as u64) < length.value {
            return Err(BitcoinError::InsufficientBytes);
        }
        let script_len = length.value as usize;
        let script_bytes = slice_to_vec(&bytes[consumed..consumed + script_len]);
        Ok((Script::new(script_bytes), consumed + script_len))
    }
}

impl core::ops::Deref for Script {
    type Target = Vec<u8>;

    fn deref(&self) -> &Vec<u8> {
        &self.bytes
    }
}

/// Decoding the encoding of a script, followed by any bytes at all, gives it
/// back with the whole encoding taken.
pub proof fn lemma_script_round_trip(b: Seq<u8>, rest: Seq<u8>)
    requires
        spec_script_wf(b),
    ensures
        spec_script_parse(spec_script_encode(b) + rest) == Some((b, spec_script_encode(b).len())),
{
    let p = spec_compact_encode(b.len() as u64);
    lemma_compact_round_trip(b.len() as u64, b + rest);
    let s = spec_script_encode(b) + rest;
    assert(s =~= p + (b + rest));
    assert(s.subrange(p.len() as int, (p.len() + b.len()) as int) =~= b);
}

} // verus!
