use alkahest_py::erc1155::{PyERC1155EscrowObligationData, PyERC1155PaymentObligationData};
use alkahest_py::erc721::{PyERC721EscrowObligationData, PyERC721PaymentObligationData};
use alkahest_py::hexstr::hex_decode;
use alkahest_py::CodecError;

const TOKEN: &str = "0x1112131415161718191a1b1c1d1e1f2021222324";
const OTHER: &str = "0xa1a2a3a4a5a6a7a8a9aaabacadaeafb0b1b2b3b4";
const MAX_U256: &str =
    "115792089237316195423570985008687907853269984665640564039457584007913129639935";

fn word_u64(x: u64) -> Vec<u8> {
    let mut w = vec![0u8; 24];
    w.extend_from_slice(&x.to_be_bytes());
    w
}

fn addr_word(a: &[u8]) -> Vec<u8> {
    let mut w = vec![0u8; 12];
    w.extend_from_slice(a);
    w
}

#[test]
fn erc721_payment_encodes_exact_words() {
    let payment = PyERC721PaymentObligationData::new(
        TOKEN.to_string(),
        "77".to_string(),
        OTHER.to_string(),
    );
    let bytes = payment.encode_self().unwrap();
    let mut expected = addr_word(&hex_decode(TOKEN).unwrap());
    expected.extend_from_slice(&word_u64(77));
    expected.extend_from_slice(&addr_word(&hex_decode(OTHER).unwrap()));
    assert_eq!(bytes, expected);
}

#[test]
fn erc721_escrow_round_trip_with_full_width_id() {
    let escrow = PyERC721EscrowObligationData::new(
        TOKEN.to_string(),
        MAX_U256.to_string(),
        OTHER.to_string(),
        vec![1, 2, 3, 4, 5],
    );
    let bytes = escrow.encode_self().unwrap();
    let back = PyERC721EscrowObligationData::decode(bytes).unwrap();
    assert_eq!(back.token, TOKEN);
    assert_eq!(back.token_id, MAX_U256);
    assert_eq!(back.arbiter, OTHER);
    assert_eq!(back.demand, vec![1, 2, 3, 4, 5]);
}

#[test]
fn erc721_round_trip_with_zero_id() {
    let payment = PyERC721PaymentObligationData::new(
        TOKEN.to_string(),
        "0".to_string(),
        OTHER.to_string(),
    );
    let bytes = payment.encode_self().unwrap();
    let back = PyERC721PaymentObligationData::decode(bytes).unwrap();
    assert_eq!(back.token_id, "0");
}

#[test]
fn leading_zeros_encode_but_decode_canonically() {
    let payment = PyERC721PaymentObligationData::new(
        TOKEN.to_string(),
        "007".to_string(),
        OTHER.to_string(),
    );
    let bytes = payment.encode_self().unwrap();
    let back = PyERC721PaymentObligationData::decode(bytes).unwrap();
    assert_eq!(back.token_id, "7");
}

#[test]
fn out_of_range_or_malformed_ids_are_rejected() {
    // One past the largest 256-bit value.
    let too_big =
        "115792089237316195423570985008687907853269984665640564039457584007913129639936";
    for bad in [too_big, "", "12a", "-5", "1 2"] {
        let payment = PyERC721PaymentObligationData::new(
            TOKEN.to_string(),
            bad.to_string(),
            OTHER.to_string(),
        );
        assert_eq!(
            payment.encode_self().unwrap_err(),
            CodecError::MalformedInput,
            "id {bad:?} should be rejected"
        );
    }
}

#[test]
fn erc1155_escrow_round_trip() {
    let escrow = PyERC1155EscrowObligationData::new(
        TOKEN.to_string(),
        "340282366920938463463374607431768211456".to_string(), // 2^128
        "999999999999999999999999".to_string(),
        OTHER.to_string(),
        vec![0xaa; 33],
    );
    let bytes = escrow.encode_self().unwrap();
    assert_eq!(bytes.len(), 32 * 7 + 64); // head, length word, 33 bytes padded to 64
    let back = PyERC1155EscrowObligationData::decode(bytes).unwrap();
    assert_eq!(back.token, TOKEN);
    assert_eq!(back.token_id, "340282366920938463463374607431768211456");
    assert_eq!(back.amount, "999999999999999999999999");
    assert_eq!(back.arbiter, OTHER);
    assert_eq!(back.demand, vec![0xaa; 33]);
}

#[test]
fn erc1155_payment_round_trip_and_exact_layout() {
    let payment = PyERC1155PaymentObligationData::new(
        TOKEN.to_string(),
        "5".to_string(),
        "1000000".to_string(),
        OTHER.to_string(),
    );
    let bytes = payment.encode_self().unwrap();
    let mut expected = addr_word(&hex_decode(TOKEN).unwrap());
    expected.extend_from_slice(&word_u64(5));
    expected.extend_from_slice(&word_u64(1_000_000));
    expected.extend_from_slice(&addr_word(&hex_decode(OTHER).unwrap()));
    assert_eq!(bytes, expected);

    let back = PyERC1155PaymentObligationData::decode(bytes).unwrap();
    assert_eq!(back.token_id, "5");
    assert_eq!(back.amount, "1000000");
    assert_eq!(back.payee, OTHER);
}

#[test]
fn erc1155_decode_rejects_wrong_shape() {
    let payment = PyERC1155PaymentObligationData::new(
        TOKEN.to_string(),
        "5".to_string(),
        "6".to_string(),
        OTHER.to_string(),
    );
    let mut bytes = payment.encode_self().unwrap();
    bytes.push(0);
    assert_eq!(
        PyERC1155PaymentObligationData::decode(bytes).unwrap_err(),
        CodecError::Decode
    );
}
