use bitcoin_tx::{BitcoinError, BitcoinTransaction, CompactSize, OutPoint, Script, TransactionInput, Txid};

fn sample_input(script: Vec<u8>, sequence: u32) -> TransactionInput {
    let mut txid = [0u8; 32];
    for (i, b) in txid.iter_mut().enumerate() {
        *b = i as u8;
    }
    TransactionInput::new(OutPoint::new(txid, 7), Script::new(script), sequence)
}

#[test]
fn compact_size_width_selection() {
    assert_eq!(CompactSize::new(252).to_bytes(), vec![252]);
    let b = CompactSize::new(253).to_bytes();
    assert_eq!(b.len(), 3);
    assert_eq!(b[0], 0xFD);
    let b = CompactSize::new(65536).to_bytes();
    assert_eq!(b.len(), 5);
    assert_eq!(b[0], 0xFE);
    let b = CompactSize::new(4294967296).to_bytes();
    assert_eq!(b.len(), 9);
    assert_eq!(b[0], 0xFF);
}

#[test]
fn compact_size_exact_bytes() {
    assert_eq!(CompactSize::new(0).to_bytes(), vec![0]);
    assert_eq!(CompactSize::new(253).to_bytes(), vec![0xFD, 0xFD, 0x00]);
    assert_eq!(CompactSize::new(65535).to_bytes(), vec![0xFD, 0xFF, 0xFF]);
    assert_eq!(CompactSize::new(0x0102_0304).to_bytes(), vec![0xFE, 0x04, 0x03, 0x02, 0x01]);
    assert_eq!(
        CompactSize::new(0x0102_0304_0506_0708).to_bytes(),
        vec![0xFF, 0x08, 0x07, 0x06, 0x05, 0x04, 0x03, 0x02, 0x01]
    );
    assert_eq!(CompactSize::new(u64::MAX).to_bytes(), vec![0xFF; 9]);
}

#[test]
fn compact_size_round_trip() {
    for v in [0u64, 1, 252, 253, 0xFFFF, 0x1_0000, 0xFFFF_FFFF, 0x1_0000_0000, u64::MAX] {
        let b = CompactSize::new(v).to_bytes();
        assert_eq!(CompactSize::from_bytes(&b), Ok((CompactSize::new(v), b.len())));
    }
}

#[test]
fn compact_size_non_canonical_accepted() {
    assert_eq!(CompactSize::from_bytes(&[0xFD, 0x01, 0x00]), Ok((CompactSize::new(1), 3)));
}

#[test]
fn compact_size_truncated() {
    assert_eq!(CompactSize::from_bytes(&[0xFE, 0x01, 0x02]), Err(BitcoinError::InsufficientBytes));
    assert_eq!(CompactSize::from_bytes(&[]), Err(BitcoinError::InsufficientBytes));
    assert_eq!(CompactSize::from_bytes(&[0xFD, 0x01]), Err(BitcoinError::InsufficientBytes));
    assert_eq!(CompactSize::from_bytes(&[0xFF, 1, 2, 3, 4, 5, 6, 7]), Err(BitcoinError::InsufficientBytes));
}

#[test]
fn outpoint_layout_and_round_trip() {
    let o = OutPoint::new([0xAB; 32], 0x0102_0304);
    let b = o.to_bytes();
    assert_eq!(b.len(), 36);
    assert_eq!(&b[..32], &[0xAB; 32][..]);
    assert_eq!(&b[32..], &[0x04, 0x03, 0x02, 0x01][..]);
    assert_eq!(OutPoint::from_bytes(&b), Ok((o, 36)));
}

#[test]
fn outpoint_too_short() {
    assert_eq!(OutPoint::from_bytes(&[0u8; 35]), Err(BitcoinError::InsufficientBytes));
}

#[test]
fn script_layout_and_round_trip() {
    let s = Script::new(vec![1, 2, 3]);
    let b = s.to_bytes();
    assert_eq!(b, vec![3, 1, 2, 3]);
    assert_eq!(Script::from_bytes(&b), Ok((s.clone(), 4)));
    assert_eq!(s.len(), 3);
}

#[test]
fn script_empty() {
    let s = Script::new(vec![]);
    assert_eq!(s.to_bytes(), vec![0]);
    assert_eq!(Script::from_bytes(&[0, 9, 9]), Ok((s, 1)));
}

#[test]
fn script_long_uses_wide_length() {
    let s = Script::new(vec![7u8; 300]);
    let b = s.to_bytes();
    assert_eq!(&b[..3], &[0xFD, 0x2C, 0x01][..]);
    assert_eq!(b.len(), 303);
    assert_eq!(Script::from_bytes(&b), Ok((s, 303)));
}

#[test]
fn script_truncated_payload() {
    assert_eq!(Script::from_bytes(&[5, 1, 2]), Err(BitcoinError::InsufficientBytes));
    assert_eq!(Script::from_bytes(&[]), Err(BitcoinError::InsufficientBytes));
    assert_eq!(
        Script::from_bytes(&[0xFF, 0xFF, 0xFF, 0xFF, 0xFF, 0xFF, 0xFF, 0xFF, 0xFF]),
        Err(BitcoinError::InsufficientBytes)
    );
}

#[test]
fn input_layout_and_round_trip() {
    let i = sample_input(vec![0xAA, 0xBB], 0xFFFF_FFFE);
    let b = i.to_bytes();
    assert_eq!(b.len(), 36 + 3 + 4);
    assert_eq!(b[36], 2);
    assert_eq!(&b[39..], &[0xFE, 0xFF, 0xFF, 0xFF][..]);
    assert_eq!(TransactionInput::from_bytes(&b), Ok((i, 43)));
}

#[test]
fn input_truncated_sequence() {
    let b = sample_input(vec![1], 5).to_bytes();
    assert_eq!(TransactionInput::from_bytes(&b[..b.len() - 1]), Err(BitcoinError::InsufficientBytes));
    assert_eq!(TransactionInput::from_bytes(&b[..36]), Err(BitcoinError::InsufficientBytes));
    assert_eq!(TransactionInput::from_bytes(&b[..10]), Err(BitcoinError::InsufficientBytes));
}

#[test]
fn empty_script_transaction() {
    let input = TransactionInput::new(OutPoint::new([0u8; 32], 0), Script::new(vec![]), 0xFFFF_FFFF);
    let tx = BitcoinTransaction::new(1, vec![input], 0);
    let b = tx.to_bytes();
    assert_eq!(b.len(), 50);
    assert_eq!(&b[..5], &[1, 0, 0, 0, 1][..]);
    assert_eq!(b[41], 0);
    assert_eq!(&b[42..46], &[0xFF; 4][..]);
    assert_eq!(&b[46..], &[0; 4][..]);
    assert_eq!(BitcoinTransaction::from_bytes(&b), Ok((tx, 50)));
}

#[test]
fn zero_input_transaction() {
    let tx = BitcoinTransaction::new(2, vec![], 500);
    let b = tx.to_bytes();
    assert_eq!(b, vec![2, 0, 0, 0, 0, 0xF4, 0x01, 0, 0]);
    assert_eq!(BitcoinTransaction::from_bytes(&b), Ok((tx, 9)));
}

#[test]
fn transaction_trailing_bytes_ignored() {
    let tx = BitcoinTransaction::new(3, vec![sample_input(vec![1, 2, 3], 9), sample_input(vec![], 10)], 77);
    let mut b = tx.to_bytes();
    let len = b.len();
    b.extend_from_slice(&[0xDE, 0xAD, 0xBE, 0xEF]);
    assert_eq!(BitcoinTransaction::from_bytes(&b), Ok((tx, len)));
}

#[test]
fn transaction_multi_input_round_trip() {
    let inputs: Vec<TransactionInput> = (0..3).map(|k| sample_input(vec![k as u8; k], k as u32)).collect();
    let tx = BitcoinTransaction::new(0xFFFF_FFFF, inputs, 0x1234_5678);
    let b = tx.to_bytes();
    assert_eq!(b.len(), 4 + 1 + 41 * 3 + (0 + 1 + 2) + 4);
    assert_eq!(BitcoinTransaction::from_bytes(&b), Ok((tx, b.len())));
}

#[test]
fn transaction_truncations() {
    let tx = BitcoinTransaction::new(1, vec![sample_input(vec![5], 1)], 9);
    let b = tx.to_bytes();
    assert_eq!(BitcoinTransaction::from_bytes(&b[..3]), Err(BitcoinError::InsufficientBytes));
    assert_eq!(BitcoinTransaction::from_bytes(&b[..4]), Err(BitcoinError::InsufficientBytes));
    assert_eq!(BitcoinTransaction::from_bytes(&b[..20]), Err(BitcoinError::InsufficientBytes));
    assert_eq!(BitcoinTransaction::from_bytes(&b[..b.len() - 1]), Err(BitcoinError::InsufficientBytes));
}

#[test]
fn transaction_huge_count_fails_cleanly() {
    let b = [1u8, 0, 0, 0, 0xFF, 0xFF, 0xFF, 0xFF, 0xFF, 0xFF, 0xFF, 0xFF, 0xFF];
    assert_eq!(BitcoinTransaction::from_bytes(&b), Err(BitcoinError::InsufficientBytes));
}

#[test]
fn txid_to_hex_exact() {
    let mut bytes = [0u8; 32];
    bytes[0] = 0x0A;
    bytes[1] = 0xF1;
    bytes[31] = 0xFF;
    let hex = Txid(bytes).to_hex();
    assert_eq!(hex.len(), 64);
    assert!(hex.starts_with("0af1"));
    assert!(hex.ends_with("ff"));
    assert_eq!(&hex[4..62], "0".repeat(58));
}

#[test]
fn txid_hex_round_trip() {
    let mut bytes = [0u8; 32];
    for (i, b) in bytes.iter_mut().enumerate() {
        *b = (i * 37) as u8;
    }
    let t = Txid(bytes);
    assert_eq!(Txid::from_hex(&t.to_hex()), Ok(t));
}

#[test]
fn txid_from_hex_accepts_upper_case() {
    let s = "AB".repeat(32);
    assert_eq!(Txid::from_hex(&s), Ok(Txid([0xAB; 32])));
}

#[test]
fn txid_from_hex_rejects_malformed() {
    assert_eq!(Txid::from_hex("abc"), Err(BitcoinError::InvalidFormat));
    assert_eq!(Txid::from_hex(&"zz".repeat(32)), Err(BitcoinError::InvalidFormat));
    assert_eq!(Txid::from_hex(&"00".repeat(31)), Err(BitcoinError::InvalidFormat));
    assert_eq!(Txid::from_hex(&"00".repeat(33)), Err(BitcoinError::InvalidFormat));
    assert_eq!(Txid::from_hex(""), Err(BitcoinError::InvalidFormat));
}
