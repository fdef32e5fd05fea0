use alkahest_py::demand::{
    extract_demand_data, extract_obligation_data, PyTrustedOracleArbiterDemandData,
};
use alkahest_py::erc20::{PyERC20EscrowObligationData, PyERC20PaymentObligationData};
use alkahest_py::hexstr::{hex_decode, hex_encode_prefixed, hex_val, parse_fixed_hex};
use alkahest_py::oracle::PyOracleAttestation;
use alkahest_py::string_obligation::PyStringObligationData;
use alkahest_py::CodecError;

fn word_u64(x: u64) -> Vec<u8> {
    let mut w = vec![0u8; 24];
    w.extend_from_slice(&x.to_be_bytes());
    w
}

fn addr_word(a: &[u8]) -> Vec<u8> {
    let mut w = vec![0u8; 12];
    w.extend_from_slice(a);
    w
}

fn bytes_tail(data: &[u8]) -> Vec<u8> {
    let mut out = word_u64(data.len() as u64);
    out.extend_from_slice(data);
    out.extend_from_slice(&vec![0u8; (32 - data.len() % 32) % 32]);
    out
}

const TOKEN: &str = "0x1112131415161718191a1b1c1d1e1f2021222324";
const OTHER: &str = "0xa1a2a3a4a5a6a7a8a9aaabacadaeafb0b1b2b3b4";

#[test]
fn erc20_payment_encodes_exact_words() {
    let payment = PyERC20PaymentObligationData::new(TOKEN.to_string(), 77, OTHER.to_string());
    let bytes = PyERC20PaymentObligationData::encode(&payment).unwrap();

    let mut expected = addr_word(&hex_decode(TOKEN).unwrap());
    expected.extend_from_slice(&word_u64(77));
    expected.extend_from_slice(&addr_word(&hex_decode(OTHER).unwrap()));
    assert_eq!(bytes, expected);
    assert_eq!(bytes.len(), 96);
}

#[test]
fn erc20_escrow_encodes_exact_words() {
    let escrow = PyERC20EscrowObligationData::new(
        TOKEN.to_string(),
        1_000_000,
        OTHER.to_string(),
        vec![0xde, 0xad, 0xbe, 0xef],
    );
    let bytes = escrow.encode_self().unwrap();

    let mut expected = word_u64(32);
    expected.extend_from_slice(&addr_word(&hex_decode(TOKEN).unwrap()));
    expected.extend_from_slice(&word_u64(1_000_000));
    expected.extend_from_slice(&addr_word(&hex_decode(OTHER).unwrap()));
    expected.extend_from_slice(&word_u64(128));
    expected.extend_from_slice(&bytes_tail(&[0xde, 0xad, 0xbe, 0xef]));
    assert_eq!(bytes, expected);
}

#[test]
fn erc20_escrow_round_trip() {
    let escrow = PyERC20EscrowObligationData::new(
        TOKEN.to_string(),
        42,
        OTHER.to_string(),
        vec![1, 2, 3],
    );
    let bytes = escrow.encode_self().unwrap();
    let back = PyERC20EscrowObligationData::decode(bytes).unwrap();
    assert_eq!(back.token, TOKEN);
    assert_eq!(back.amount, 42);
    assert_eq!(back.arbiter, OTHER);
    assert_eq!(back.demand, vec![1, 2, 3]);
}

#[test]
fn erc20_payment_round_trip() {
    let payment = PyERC20PaymentObligationData::new(TOKEN.to_string(), 7, OTHER.to_string());
    let bytes = payment.encode_self().unwrap();
    let back = PyERC20PaymentObligationData::decode(bytes).unwrap();
    assert_eq!(back.token, TOKEN);
    assert_eq!(back.amount, 7);
    assert_eq!(back.payee, OTHER);
}

#[test]
fn upper_case_address_decodes_to_canonical_form() {
    let payment = PyERC20PaymentObligationData::new(
        TOKEN.to_uppercase().replace("0X", "0x"),
        7,
        OTHER.to_string(),
    );
    let bytes = payment.encode_self().unwrap();
    let back = PyERC20PaymentObligationData::decode(bytes).unwrap();
    assert_eq!(back.token, TOKEN);
}

#[test]
fn malformed_address_is_rejected_before_encoding() {
    let payment =
        PyERC20PaymentObligationData::new("0x1234".to_string(), 7, OTHER.to_string());
    assert_eq!(payment.encode_self().unwrap_err(), CodecError::MalformedInput);

    let escrow = PyERC20EscrowObligationData::new(
        TOKEN.to_string(),
        7,
        "not an address".to_string(),
        vec![],
    );
    assert_eq!(escrow.encode_self().unwrap_err(), CodecError::MalformedInput);
}

#[test]
fn truncated_or_tampered_payload_is_rejected() {
    let escrow = PyERC20EscrowObligationData::new(
        TOKEN.to_string(),
        42,
        OTHER.to_string(),
        vec![9, 9],
    );
    let bytes = escrow.encode_self().unwrap();

    // Truncated.
    let mut short = bytes.clone();
    short.pop();
    assert_eq!(
        PyERC20EscrowObligationData::decode(short).unwrap_err(),
        CodecError::Decode
    );

    // Wrong leading offset word.
    let mut bad_offset = bytes.clone();
    bad_offset[31] = 0x40;
    assert_eq!(
        PyERC20EscrowObligationData::decode(bad_offset).unwrap_err(),
        CodecError::Decode
    );

    // Nonzero byte in the demand padding.
    let mut bad_pad = bytes.clone();
    let last = bad_pad.len() - 1;
    bad_pad[last] = 1;
    assert_eq!(
        PyERC20EscrowObligationData::decode(bad_pad).unwrap_err(),
        CodecError::Decode
    );
}

#[test]
fn demand_data_round_trip() {
    let demand = PyTrustedOracleArbiterDemandData::new(OTHER.to_string(), vec![5, 6, 7, 8, 9]);
    let bytes = demand.encode_self().unwrap();
    let back = PyTrustedOracleArbiterDemandData::decode(bytes).unwrap();
    assert_eq!(back.oracle, OTHER);
    assert_eq!(back.data, vec![5, 6, 7, 8, 9]);
}

#[test]
fn string_obligation_round_trip_unicode() {
    let obligation = PyStringObligationData::new("hëllo \u{2603} world".to_string());
    let bytes = obligation.encode_self().unwrap();
    let back = PyStringObligationData::decode(bytes).unwrap();
    assert_eq!(back.item, "hëllo \u{2603} world");
}

#[test]
fn string_obligation_encodes_exact_words() {
    let obligation = PyStringObligationData::new("hi".to_string());
    let bytes = obligation.encode_self().unwrap();
    let mut expected = word_u64(32);
    expected.extend_from_slice(&word_u64(32));
    expected.extend_from_slice(&bytes_tail(b"hi"));
    assert_eq!(bytes, expected);
}

#[test]
fn extract_obligation_data_reads_hex_payload() {
    let obligation = PyStringObligationData::new("the goods arrived".to_string());
    let payload = obligation.encode_self().unwrap();
    let attestation = attestation_with_data(hex_encode_prefixed(&payload));
    assert_eq!(
        extract_obligation_data(&attestation).unwrap(),
        "the goods arrived"
    );

    let garbage = attestation_with_data("0x1234".to_string());
    assert_eq!(
        extract_obligation_data(&garbage).unwrap_err(),
        CodecError::Decode
    );
}

#[test]
fn extract_demand_data_unwraps_nested_payload() {
    let inner = PyTrustedOracleArbiterDemandData::new(OTHER.to_string(), vec![1, 2, 3]);
    let inner_bytes = inner.encode_self().unwrap();
    // The escrow attestation wraps the arbiter's demand in an
    // address-plus-bytes pair of the same shape.
    let wrapper = PyTrustedOracleArbiterDemandData::new(TOKEN.to_string(), inner_bytes);
    let wrapper_bytes = wrapper.encode_self().unwrap();
    let attestation = attestation_with_data(hex_encode_prefixed(&wrapper_bytes));

    let extracted = extract_demand_data(&attestation).unwrap();
    assert_eq!(extracted.oracle, OTHER);
    assert_eq!(extracted.data, vec![1, 2, 3]);
}

#[test]
fn json_encoding_canonicalizes_text() {
    let bytes =
        PyStringObligationData::encode_json("  {\"b\": 1,\n \"a\": [1, 2]}  ".to_string())
            .unwrap();
    // The canonical text rides as an ordinary string obligation.
    let back = PyStringObligationData::decode(bytes.clone()).unwrap();
    assert_eq!(back.item, "{\"a\":[1,2],\"b\":1}");
    assert_eq!(
        PyStringObligationData::decode_json(bytes).unwrap(),
        "{\"a\":[1,2],\"b\":1}"
    );
}

#[test]
fn json_errors_are_reported() {
    assert_eq!(
        PyStringObligationData::encode_json("not json".to_string()).unwrap_err(),
        CodecError::MalformedInput
    );
    let not_json = PyStringObligationData::new("not json".to_string());
    let bytes = not_json.encode_self().unwrap();
    assert_eq!(
        PyStringObligationData::decode_json(bytes).unwrap_err(),
        CodecError::Decode
    );
}

#[test]
fn hex_parsing_and_rendering() {
    assert_eq!(hex_decode("0x00ff10"), Some(vec![0, 255, 16]));
    assert_eq!(hex_decode("00FF10"), Some(vec![0, 255, 16]));
    assert_eq!(hex_decode("0xabc"), None);
    assert_eq!(hex_decode("zz"), None);
    assert_eq!(hex_encode_prefixed(&vec![0, 255, 16]), "0x00ff10");
    assert_eq!(hex_val('a'), Some(10));
    assert_eq!(hex_val('G'), None);
    assert_eq!(parse_fixed_hex(TOKEN, 20).map(|v| v.len()), Some(20));
    assert_eq!(parse_fixed_hex(TOKEN, 32), None);
}

fn attestation_with_data(data: String) -> PyOracleAttestation {
    PyOracleAttestation {
        uid: "0x01".to_string(),
        schema: "0x02".to_string(),
        ref_uid: "0x03".to_string(),
        time: 1,
        expiration_time: 0,
        revocation_time: 0,
        recipient: TOKEN.to_string(),
        attester: OTHER.to_string(),
        revocable: false,
        data,
    }
}
