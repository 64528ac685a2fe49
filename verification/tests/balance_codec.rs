use icn_economics::balance_codec::{decode_balance, encode_balance};
use icn_economics::error::CommonError;

#[test]
fn balance_is_stored_little_endian() {
    let b = encode_balance(0x0102_0304_0506_0708).unwrap();
    assert_eq!(b, vec![8, 7, 6, 5, 4, 3, 2, 1]);
    assert_eq!(encode_balance(0).unwrap(), vec![0; 8]);
}

#[test]
fn stored_balance_reads_back() {
    for a in [0u64, 1, 255, 256, 40, u64::MAX, 1 << 63] {
        let b = encode_balance(a).unwrap();
        assert_eq!(decode_balance(&b).unwrap(), a);
    }
}

#[test]
fn short_input_is_refused_and_trailing_bytes_ignored() {
    assert!(matches!(decode_balance(&[1, 2, 3]), Err(CommonError::DeserializationError(_))));
    assert_eq!(decode_balance(&[5, 0, 0, 0, 0, 0, 0, 0, 99]).unwrap(), 5);
}
