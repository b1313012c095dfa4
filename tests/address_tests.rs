use nebula::address::{ContentAddress, ContentAddressError, HashAlgorithm};

#[test]
fn test_content_address_creation() {
    let data = b"hello world";
    let addr = ContentAddress::from_data(data);

    let addr2 = ContentAddress::from_data(data);
    assert_eq!(addr, addr2);

    let addr3 = ContentAddress::from_data(b"different data");
    assert_ne!(addr, addr3);
}

#[test]
fn test_hex_roundtrip() {
    let data = b"test data for roundtrip";
    let addr = ContentAddress::from_data(data);

    let hex = addr.to_hex();
    let parsed = ContentAddress::from_hex(&hex).unwrap();

    assert_eq!(addr, parsed);
}

#[test]
fn test_different_algorithms() {
    let data = b"algorithm test";

    let sha256_addr = ContentAddress::from_data_with_algorithm(data, HashAlgorithm::Sha256);
    let blake3_addr = ContentAddress::from_data_with_algorithm(data, HashAlgorithm::Blake3);

    assert_ne!(sha256_addr, blake3_addr);
    assert_eq!(sha256_addr.algorithm(), HashAlgorithm::Sha256);
    assert_eq!(blake3_addr.algorithm(), HashAlgorithm::Blake3);
}

#[test]
fn test_invalid_hex_parsing() {
    assert!(ContentAddress::from_hex("invalid").is_err());
    assert!(ContentAddress::from_hex("sha256:invalid_hex").is_err());
    assert!(ContentAddress::from_hex("unknown:deadbeef").is_err());
}

#[test]
fn sha256_of_empty_input_is_the_known_digest() {
    let addr = ContentAddress::from_data(b"");
    assert_eq!(
        addr.to_string(),
        "sha256:e3b0c44298fc1c149afbf4c8996fb92427ae41e4649b934ca495991b7852b855"
    );
}

#[test]
fn sha256_of_abc_is_the_known_digest() {
    let addr = ContentAddress::from_data(b"abc");
    assert_eq!(
        addr.to_hex(),
        "sha256:ba7816bf8f01cfea414140de5dae2223b00361a396177a9cb410ff61f20015ad"
    );
    assert_eq!(addr.hash_bytes()[0], 0xba);
    assert_eq!(addr.hash_bytes()[31], 0xad);
}

#[test]
fn blake3_of_empty_input_is_the_known_digest() {
    let addr = ContentAddress::from_data_with_algorithm(b"", HashAlgorithm::Blake3);
    assert_eq!(
        addr.to_string(),
        "blake3:af1349b9f5f9a1a6a0404dea36dcc9499bcb25c9adc112b7cc9a93cae41f3262"
    );
}

#[test]
fn text_round_trip_for_both_algorithms() {
    for alg in [HashAlgorithm::Sha256, HashAlgorithm::Blake3] {
        let addr = ContentAddress::from_data_with_algorithm(b"round trip", alg);
        let text = addr.to_string();
        assert_eq!(text.len(), 71);
        assert_eq!(ContentAddress::from_hex(&text), Ok(addr));
    }
}

#[test]
fn parse_accepts_uppercase_digits() {
    let addr = ContentAddress::from_data(b"abc");
    let text = addr.to_string();
    let upper = format!("sha256:{}", text[7..].to_uppercase());
    assert_eq!(ContentAddress::from_hex(&upper), Ok(addr));
}

#[test]
fn parse_rejects_63_digits_as_hash_length() {
    let digits = "a".repeat(63);
    let text = format!("sha256:{}", digits);
    assert_eq!(ContentAddress::from_hex(&text), Err(ContentAddressError::InvalidHashLength));
}

#[test]
fn parse_rejects_62_digits_as_hash_length() {
    let text = format!("blake3:{}", "0".repeat(62));
    assert_eq!(ContentAddress::from_hex(&text), Err(ContentAddressError::InvalidHashLength));
}

#[test]
fn parse_rejects_unknown_algorithm() {
    let text = format!("unknown:{}", "a".repeat(64));
    assert_eq!(ContentAddress::from_hex(&text), Err(ContentAddressError::UnsupportedAlgorithm));
}

#[test]
fn parse_rejects_text_without_colon() {
    assert_eq!(ContentAddress::from_hex("noколон"), Err(ContentAddressError::InvalidFormat));
}

#[test]
fn parse_rejects_two_colons() {
    let text = format!("sha256:{}:", "a".repeat(64));
    assert_eq!(ContentAddress::from_hex(&text), Err(ContentAddressError::InvalidFormat));
}

#[test]
fn parse_rejects_non_hex_digits() {
    assert_eq!(
        ContentAddress::from_hex("sha256:invalid_hex"),
        Err(ContentAddressError::InvalidHex)
    );
}

#[test]
fn names_and_messages() {
    assert_eq!(HashAlgorithm::Sha256.as_str(), "sha256");
    assert_eq!(HashAlgorithm::Blake3.as_str(), "blake3");
    assert_eq!(HashAlgorithm::default(), HashAlgorithm::Sha256);
    assert_eq!(ContentAddressError::InvalidHex.message(), "Invalid hexadecimal encoding");
    assert_eq!(ContentAddressError::InvalidHashLength.message(), "Invalid hash length");
}
