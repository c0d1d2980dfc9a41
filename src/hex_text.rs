//! The text form of a transaction identifier: 64 hexadecimal digits.
use vstd::prelude::*;
use crate::error::BitcoinError;
use crate::outpoint::Txid;

verus! {

/// `hex::FromHexError`, the error of `hex::decode`: carried opaquely and
/// mapped to `BitcoinError::InvalidFormat`.
#[verifier::external_type_specification]
#[verifier::external_body]
pub struct ExFromHexError(hex::FromHexError);

/// The lowercase hexadecimal digit for `n` (below 16).
pub open spec fn lower_hex_digit(n: int) -> char {
    seq!['0', '1', '2', '3', '4', '5', '6', '7', '8', '9', 'a', 'b', 'c', 'd', 'e', 'f'][n]
}

/// The value of a hexadecimal digit of either case, or `None` for any other
/// character.
pub open spec fn hex_digit_value(c: char) -> Option<int> {
    if '0' <= c && c <= '9' {
        Some(c as int - '0' as int)
    } else if 'a' <= c && c <= 'f' {
        Some(c as int - 'a' as int + 10)
    } else if 'A' <= c && c <= 'F' {
        Some(c as int - 'A' as int + 10)
    } else {
        None
    }
}

/// Two lowercase digits for each byte, high half first.
pub open spec fn spec_hex_encode(b: Seq<u8>) -> Seq<char> {
    Seq::new(
        2 * b.len(),
        |i: int|
            if i % 2 == 0 {
                lower_hex_digit(b[i / 2] as int / 16)
            } else {
                lower_hex_digit(b[i / 2] as int % 16)
            },
    )
}

/// `s` is an even number of hexadecimal digits, of either case.
pub open spec fn spec_is_hex(s: Seq<char>) -> bool {
    &&& s.len() % 2 == 0
    &&& forall|i: int| 0 <= i < s.len() ==> (#[trigger] hex_digit_value(s[i])) is Some
}

/// The bytes that the digit pairs of `s` stand for.
pub open spec fn spec_hex_decode(s: Seq<char>) -> Seq<u8> {
    Seq::new(
        s.len() / 2,
        |i: int|
            (hex_digit_value(s[2 * i])->0 * 16 + hex_digit_value(s[2 * i + 1])->0) as u8,
    )
}

/// Relies on `hex::encode`: two lowercase digits for each byte, high half
/// first.
#[verifier::external_body]
fn hex_encode(b: &[u8]) -> (r: String)
    ensures
        r@ == spec_hex_encode(b@),
{
    hex::encode(b)
}

/// Relies on `hex::decode`: it succeeds exactly on an even number of
/// hexadecimal digits of either case, and then gives one byte per pair.
#[verifier::external_body]
fn hex_decode(s: &str) -> (r: Result<Vec<u8>, hex::FromHexError>)
    ensures
        r is Ok <==> spec_is_hex(s@),
        r matches Ok(v) ==> v@ == spec_hex_decode(s@),
{
    hex::decode(s)
}

impl Txid {
    /// The identifier as 64 lowercase hexadecimal digits.
    pub fn to_hex(&self) -> (r: String)
        ensures
            r@ == spec_hex_encode(self.0@),
    {
        hex_encode(self.0.as_slice())
    }

    /// Reads an identifier from 64 hexadecimal digits of either case; any
    /// other text is `InvalidFormat`.
    pub fn from_hex(s: &str) -> (r: Result<Txid, BitcoinError>)
        ensures
            match r {
                Ok(t) => spec_is_hex(s@) && s@.len() == 64 && t.0@ == spec_hex_decode(s@),
                Err(e) => !(spec_is_hex(s@) && s@.len() == 64) && e is InvalidFormat,
            },
    {
        let bytes = match hex_decode(s) {
            Ok(v) => v,
            Err(_) => return Err(BitcoinError::InvalidFormat),
        };
        if bytes.len() != 32 {
            return Err(BitcoinError::InvalidFormat);
        }
        let mut array = [0u8; 32];
        let mut i: usize = 0;
        while i < 32
            invariant
                i <= 32,
                bytes@.len() == 32,
                forall|j: int| 0 <= j < i ==> array@[j] == bytes@[j],
            decreases 32 - i,
        {
            array[i] = bytes[i];
            i = i + 1;
        }
        assert(array@ =~= bytes@);
        Ok(Txid(array))
    }
}

/// Reading back the text form of any bytes gives the same bytes.
pub proof fn lemma_hex_round_trip(b: Seq<u8>)
    ensures
        spec_is_hex(spec_hex_encode(b)),
        spec_hex_decode(spec_hex_encode(b)) == b,
{
    let e = spec_hex_encode(b);
    assert forall|n: int| 0 <= n < 16 implies hex_digit_value(#[trigger] lower_hex_digit(n))
        == Some(n) by {
        assert(seq!['0', '1', '2', '3', '4', '5', '6', '7', '8', '9', 'a', 'b', 'c', 'd', 'e', 'f'][n]
            == lower_hex_digit(n));
    }
    assert forall|i: int| 0 <= i < e.len() implies (#[trigger] hex_digit_value(e[i])) is Some by {
        if i % 2 == 0 {
            assert(hex_digit_value(lower_hex_digit(b[i / 2] as int / 16)) == Some(b[i / 2] as int / 16));
        } else {
            assert(hex_digit_value(lower_hex_digit(b[i / 2] as int % 16)) == Some(b[i / 2] as int % 16));
        }
    }
    assert forall|i: int| 0 <= i < b.len() implies #[trigger] spec_hex_decode(e)[i] == b[i] by {
        assert(hex_digit_value(lower_hex_digit(b[i] as int / 16)) == Some(b[i] as int / 16));
        assert(hex_digit_value(lower_hex_digit(b[i] as int % 16)) == Some(b[i] as int % 16));
        assert((2 * i) / 2 == i);
        assert((2 * i + 1) / 2 == i);
    }
    assert(spec_hex_decode(e) =~= b);
}

} // verus!
