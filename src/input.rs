use vstd::prelude::*;
use crate::le_bytes::{lemma_le_round_trip, lemma_pow256_facts, push_le, read_le, spec_le_bytes, spec_le_value};
use crate::error::BitcoinError;
use crate::outpoint::{
    lemma_outpoint_round_trip, spec_outpoint_encode, spec_outpoint_parse, OutPoint, OutPointModel,
};
use crate::script::{
    lemma_script_round_trip, spec_script_encode, spec_script_parse, spec_script_wf, Script,
};

verus! {

/// A transaction input: the output it spends, its unlocking script and its
/// sequence number.
#[derive(Debug, PartialEq, Eq, Clone)]
pub struct TransactionInput {
    pub previous_output: OutPoint,
    pub script_sig: Script,
    pub sequence: u32,
}

/// The mathematical value of a `TransactionInput`.
pub ghost struct InputModel {
    pub previous_output: OutPointModel,
    pub script_sig: Seq<u8>,
    pub sequence: u32,
}

impl InputModel {
    pub open spec fn wf(self) -> bool {
        self.previous_output.wf() && spec_script_wf(self.script_sig)
    }
}

impl View for TransactionInput {
    type V = InputModel;

    open spec fn view(&self) -> InputModel {
        InputModel {
            previous_output: self.previous_output@,
            script_sig: self.script_sig@,
            sequence: self.sequence,
        }
    }
}

/// The wire form: outpoint, script, then sequence little-endian.
pub open spec fn spec_input_encode(i: InputModel) -> Seq<u8> {
    spec_outpoint_encode(i.previous_output) + spec_script_encode(i.script_sig)
        + spec_le_bytes(i.sequence as nat, 4)
}

/// What a decoder reads from the front of `s`: an outpoint, a script from
/// where the outpoint ends, then four bytes of sequence; `None` where any of
/// them is cut short.
pub open spec fn spec_input_parse(s: Seq<u8>) -> Option<(InputModel, nat)> {
    match spec_outpoint_parse(s) {
        None => None,
        Some((o, n1)) => match spec_script_parse(s.subrange(n1 as int, s.len() as int)) {
            None => None,
            Some((sc, n2)) => if s.len() < n1 + n2 + 4 {
                None
            } else {
                Some(
                    (
                        InputModel {
                            previous_output: o,
                            script_sig: sc,
                            sequence: spec_le_value(
                                s.subrange((n1 + n2) as int, (n1 + n2 + 4) as int),
                            ) as u32,
                        },
                        n1 + n2 + 4,
                    ),
                )
            },
        },
    }
}

impl TransactionInput {
    pub fn new(previous_output: OutPoint, script_sig: Script, sequence: u32) -> (r: Self)
        ensures
            r.previous_output == previous_output,
            r.script_sig == script_sig,
            r.sequence == sequence,
    {
        TransactionInput { previous_output, script_sig, sequence }
    }

    /// The encoding: outpoint, script, sequence.
    pub fn to_bytes(&self) -> (r: Vec<u8>)
        ensures
            r@ == spec_input_encode(self@),
    {
        let mut bytes = self.previous_output.to_bytes();
        let mut script = self.script_sig.to_bytes();
        bytes.append(&mut script);
        push_le(&mut bytes, self.sequence as u64, 4);
        bytes
    }

    /// Reads an input from the front of `bytes`; returns it with the number of
    /// bytes taken. The first failure of a part is returned as it is.
    pub fn from_bytes(bytes: &[u8]) -> (r: Result<(TransactionInput, usize), BitcoinError>)
        ensures
            match r {
                Ok((i, n)) => spec_input_parse(bytes@) == Some((i@, n as nat)),
                Err(e) => spec_input_parse(bytes@) is None && e is InsufficientBytes,
            },
    {
        let (previous_output, consumed) = match OutPoint::from_bytes(bytes) {
            Ok(p) => p,
            Err(e) => return Err(e),
        };
        let mut cursor = consumed;
        let (script_sig, consumed) = match Script::from_bytes(&bytes[cursor..bytes.len()]) {
            Ok(p) => p,
            Err(e) => return Err(e),
        };
        cursor = cursor + consumed;
        if bytes.len() - cursor < 4 {
            return Err(BitcoinError::InsufficientBytes);
        }
        let sequence = read_le(bytes, cursor, 4) as u32;
        cursor = cursor + 4;
        Ok((TransactionInput::new(previous_output, script_sig, sequence), cursor))
    }
}

/// Decoding the encoding of a well-formed input, followed by any bytes at
/// all, gives it back with the whole encoding taken.
pub proof fn lemma_input_round_trip(i: InputModel, rest: Seq<u8>)
    requires
        i.wf(),
    ensures
        spec_input_parse(spec_input_encode(i) + rest) == Some((i, spec_input_encode(i).len())),
{
    lemma_pow256_facts();
    lemma_le_round_trip(i.sequence as nat, 4);
    let eo = spec_outpoint_encode(i.previous_output);
    let es = spec_script_encode(i.script_sig);
    let eq = spec_le_bytes(i.sequence as nat, 4);
    let s = spec_input_encode(i) + rest;
    assert(s =~= eo + (es + (eq + rest)));
    lemma_outpoint_round_trip(i.previous_output, es + (eq + rest));
    assert(s.subrange(36, s.len() as int) =~= es + (eq + rest));
    lemma_script_round_trip(i.script_sig, eq + rest);
    assert(s.subrange((36 + es.len()) as int, (36 + es.len() + 4) as int) =~= eq);
}

} // verus!
