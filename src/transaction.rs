use vstd::prelude::*;
use crate::le_bytes::{lemma_le_round_trip, lemma_pow256_facts, push_le, read_le, spec_le_bytes, spec_le_value};
use crate::compact_size::{lemma_compact_round_trip, spec_compact_encode, spec_compact_parse, CompactSize};
use crate::error::BitcoinError;
use crate::input::{lemma_input_round_trip, spec_input_encode, spec_input_parse, InputModel, TransactionInput};

verus! {

/// A transaction: version, inputs in order, and lock time.
#[derive(Debug, PartialEq, Eq, Clone)]
pub struct BitcoinTransaction {
    pub version: u32,
    pub inputs: Vec<TransactionInput>,
    pub lock_time: u32,
}

/// The mathematical value of a `BitcoinTransaction`.
pub ghost struct TxModel {
    pub version: u32,
    pub inputs: Seq<InputModel>,
    pub lock_time: u32,
}

impl TxModel {
    pub open spec fn wf(self) -> bool {
        &&& self.inputs.len() <= u64::MAX
        &&& forall|i: int| 0 <= i < self.inputs.len() ==> (#[trigger] self.inputs[i]).wf()
    }
}

impl View for BitcoinTransaction {
    type V = TxModel;

    open spec fn view(&self) -> TxModel {
        TxModel {
            version: self.version,
            inputs: self.inputs@.map_values(|i: TransactionInput| i@),
            lock_time: self.lock_time,
        }
    }
}

/// The encodings of `ins`, one after another, in order.
pub open spec fn spec_inputs_encode(ins: Seq<InputModel>) -> Seq<u8>
    decreases ins.len(),
{
    if ins.len() == 0 {
        Seq::empty()
    } else {
        spec_inputs_encode(ins.drop_last()) + spec_input_encode(ins.last())
    }
}

/// What a decoder reads when it takes `count` inputs one after another from
/// the front of `s`: the inputs and the bytes they took, or `None` where one
/// of them cannot be read.
pub open spec fn spec_inputs_parse(s: Seq<u8>, count: nat) -> Option<(Seq<InputModel>, nat)>
    decreases count,
{
    if count == 0 {
        Some((Seq::empty(), 0))
    } else {
        match spec_inputs_parse(s, (count - 1) as nat) {
            None => None,
            Some((ins, n)) => match spec_input_parse(s.subrange(n as int, s.len() as int)) {
                None => None,
                Some((i, m)) => Some((ins.push(i), n + m)),
            },
        }
    }
}

/// The wire form: version, CompactSize input count, the inputs, lock time.
pub open spec fn spec_tx_encode(t: TxModel) -> Seq<u8> {
    spec_le_bytes(t.version as nat, 4) + spec_compact_encode(t.inputs.len() as u64)
        + spec_inputs_encode(t.inputs) + spec_le_bytes(t.lock_time as nat, 4)
}

/// What a decoder reads from the front of `s`: four bytes of version, the
/// input count, that many inputs, four bytes of lock time; `None` where any
/// of them is cut short. Bytes after the lock time are not read.
pub open spec fn spec_tx_parse(s: Seq<u8>) -> Option<(TxModel, nat)> {
    if s.len() < 4 {
        None
    } else {
        match spec_compact_parse(s.subrange(4, s.len() as int)) {
            None => None,
            Some((count, w)) => {
                let p = 4 + w as int;
                match spec_inputs_parse(s.subrange(p, s.len() as int), count as nat) {
                    None => None,
                    Some((ins, n)) => {
                        let c: int = p + n;
                        if s.len() < c + 4 {
                            None
                        } else {
                            Some(
                                (
                                    TxModel {
                                        version: spec_le_value(s.subrange(0, 4)) as u32,
                                        inputs: ins,
                                        lock_time: spec_le_value(s.subrange(c, c + 4)) as u32,
                                    },
                                    (c + 4) as nat,
                                ),
                            )
                        }
                    },
                }
            },
        }
    }
}

impl BitcoinTransaction {
    pub fn new(version: u32, inputs: Vec<TransactionInput>, lock_time: u32) -> (r: Self)
        ensures
            r.version == version,
            r.inputs == inputs,
            r.lock_time == lock_time,
    {
        BitcoinTransaction { version, inputs, lock_time }
    }

    /// The encoding: version, input count, each input in order, lock time.
    pub fn to_bytes(&self) -> (r: Vec<u8>)
        ensures
            r@ == spec_tx_encode(self@),
    {
        let mut bytes: Vec<u8> = Vec::new();
        push_le(&mut bytes, self.version as u64, 4);
        let input_count = CompactSize::new(self.inputs.len() as u64);
        let mut count_bytes = input_count.to_bytes();
        bytes.append(&mut count_bytes);
        let ghost prefix = bytes@;
        let ghost ins = self@.inputs;
        let mut i: usize = 0;
        while i < self.inputs.len()
            invariant
                i <= self.inputs.len(),
                ins == self@.inputs,
                bytes@ == prefix + spec_inputs_encode(ins.subrange(0, i as int)),
            decreases self.inputs.len() - i,
        {
            let mut e = self.inputs[i].to_bytes();
            bytes.append(&mut e);
            proof {
                assert(ins.subrange(0, i + 1).drop_last() =~= ins.subrange(0, i as int));
            }
            i = i + 1;
        }
        assert(ins.subrange(0, i as int) =~= ins);
        push_le(&mut bytes, self.lock_time as u64, 4);
        assert(bytes@ =~= spec_tx_encode(self@));
        bytes
    }

    /// Reads a transaction from the front of `bytes`; returns it with the
    /// number of bytes taken, which may be fewer than `bytes` holds. The first
    /// failure of a part is returned as it is.
    pub fn from_bytes(bytes: &[u8]) -> (r: Result<(BitcoinTransaction, usize), BitcoinError>)
        ensures
            match r {
                Ok((t, n)) => spec_tx_parse(bytes@) == Some((t@, n as nat)),
                Err(e) => spec_tx_parse(bytes@) is None && e is InsufficientBytes,
            },
    {
        if bytes.len() < 4 {
            return Err(BitcoinError::InsufficientBytes);
        }
        let version = read_le(bytes, 0, 4) as u32;
        let (input_count, consumed) = match CompactSize::from_bytes(&bytes[4..bytes.len()]) {
            Ok(p) => p,
            Err(e) => return Err(e),
        };
        let start = 4 + consumed;
        let ghost body = bytes@.subrange(start as int, bytes@.len() as int);
        let mut cursor = start;
        let mut inputs: Vec<TransactionInput> = Vec::new();
        let mut k: u64 = 0;
        while k < input_count.value
            invariant
                bytes@.len() >= 4,
                start == 4 + consumed,
                spec_compact_parse(bytes@.subrange(4, bytes@.len() as int)) == Some(
                    (input_count.value as nat, consumed as nat),
                ),
                start <= cursor <= bytes@.len(),
                k <= input_count.value,
                body == bytes@.subrange(start as int, bytes@.len() as int),
                spec_inputs_parse(body, k as nat) == Some(
                    (inputs@.map_values(|i: TransactionInput| i@), (cursor - start) as nat),
                ),
            decreases input_count.value - k,
        {
            assert(bytes@.subrange(cursor as int, bytes@.len() as int) =~= body.subrange(
                cursor - start,
                body.len() as int,
            ));
            let (input, consumed) = match TransactionInput::from_bytes(&bytes[cursor..bytes.len()]) {
                Ok(p) => p,
                Err(e) => {
                    proof {
                        assert(spec_inputs_parse(body, (k + 1) as nat) is None);
                        lemma_inputs_parse_fails_after(body, (k + 1) as nat, input_count.value as nat);
                    }
                    return Err(e);
                },
            };
            let ghost old_inputs = inputs@;
            inputs.push(input);
            assert(inputs@.map_values(|i: TransactionInput| i@) =~= old_inputs.map_values(
                |i: TransactionInput| i@,
            ).push(input@));
            cursor = cursor + consumed;
            k = k + 1;
        }
        if bytes.len() - cursor < 4 {
            return Err(BitcoinError::InsufficientBytes);
        }
        let lock_time = read_le(bytes, cursor, 4) as u32;
        cursor = cursor + 4;
        Ok((BitcoinTransaction::new(version, inputs, lock_time), cursor))
    }
}

/// Once `count` inputs cannot be read, no larger count can be.
proof fn lemma_inputs_parse_fails_after(s: Seq<u8>, count: nat, more: nat)
    requires
        spec_inputs_parse(s, count) is None,
        count <= more,
    ensures
        spec_inputs_parse(s, more) is None,
    decreases more - count,
{
    if count < more {
        lemma_inputs_parse_fails_after(s, count, (more - 1) as nat);
    }
}

/// Decoding the encodings of well-formed inputs, followed by any bytes at
/// all, gives back the same inputs in the same order, with all their bytes
/// taken.
pub proof fn lemma_inputs_round_trip(ins: Seq<InputModel>, rest: Seq<u8>)
    requires
        forall|i: int| 0 <= i < ins.len() ==> (#[trigger] ins[i]).wf(),
    ensures
        spec_inputs_parse(spec_inputs_encode(ins) + rest, ins.len()) == Some(
            (ins, spec_inputs_encode(ins).len()),
        ),
    decreases ins.len(),
{
    if ins.len() > 0 {
        let front = ins.drop_last();
        let last = ins.last();
        let e_front = spec_inputs_encode(front);
        let e_last = spec_input_encode(last);
        let s = spec_inputs_encode(ins) + rest;
        assert(s =~= e_front + (e_last + rest));
        assert forall|i: int| 0 <= i < front.len() implies (#[trigger] front[i]).wf() by {
            assert(front[i] == ins[i]);
        }
        lemma_inputs_round_trip(front, e_last + rest);
        assert(s.subrange(e_front.len() as int, s.len() as int) =~= e_last + rest);
        assert(ins[ins.len() - 1].wf());
        lemma_input_round_trip(last, rest);
        assert(front.push(last) =~= ins);
    }
}

/// Bytes after a transaction's encoding are left alone: decoding the encoding
/// of a well-formed transaction followed by any bytes gives the transaction
/// back, with exactly its encoding's length taken.
pub proof fn lemma_tx_trailing_bytes(t: TxModel, extra: Seq<u8>)
    requires
        t.wf(),
    ensures
        spec_tx_parse(spec_tx_encode(t) + extra) == Some((t, spec_tx_encode(t).len())),
{
    lemma_pow256_facts();
    lemma_le_round_trip(t.version as nat, 4);
    lemma_le_round_trip(t.lock_time as nat, 4);
    let ev = spec_le_bytes(t.version as nat, 4);
    let ec = spec_compact_encode(t.inputs.len() as u64);
    let ei = spec_inputs_encode(t.inputs);
    let el = spec_le_bytes(t.lock_time as nat, 4);
    let s = spec_tx_encode(t) + extra;
    assert(s =~= ev + (ec + (ei + (el + extra))));
    assert(s.subrange(0, 4) =~= ev);
    assert(s.subrange(4, s.len() as int) =~= ec + (ei + (el + extra)));
    lemma_compact_round_trip(t.inputs.len() as u64, ei + (el + extra));
    assert(s.subrange(4 + ec.len() as int, s.len() as int) =~= ei + (el + extra));
    lemma_inputs_round_trip(t.inputs, el + extra);
    let c = 4 + ec.len() as int + ei.len() as int;
    assert(s.subrange(c, c + 4) =~= el);
}

/// Decoding the encoding of a well-formed transaction gives it back, with
/// the whole encoding taken.
pub proof fn lemma_tx_round_trip(t: TxModel)
    requires
        t.wf(),
    ensures
        spec_tx_parse(spec_tx_encode(t)) == Some((t, spec_tx_encode(t).len())),
{
    lemma_tx_trailing_bytes(t, Seq::empty());
    assert(spec_tx_encode(t) + Seq::<u8>::empty() =~= spec_tx_encode(t));
}

} // verus!

verus! {

/// Every transaction value is well formed, so the laws above hold of each.
pub proof fn lemma_transaction_view_wf(tx: BitcoinTransaction)
    ensures
        tx@.wf(),
{
    assert forall|i: int| 0 <= i < tx@.inputs.len() implies (#[trigger] tx@.inputs[i]).wf() by {
        let input = tx.inputs@[i];
        assert(tx@.inputs[i] == input@);
        assert(input.previous_output.txid.0@.len() == 32);
        assert(input.script_sig.bytes@.len() == input.script_sig.bytes.len());
    }
    assert(tx.inputs@.len() == tx.inputs.len());
}

} // verus!
