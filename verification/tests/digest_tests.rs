use spread_bot::digest::{sign, tag_to_hex};

#[test]
fn hex_is_lowercase_and_in_order() {
    assert_eq!(tag_to_hex(&vec![0xde, 0xad, 0xbe, 0xef]), "deadbeef");
    assert_eq!(tag_to_hex(&vec![1, 2, 3, 15, 16]), "0102030f10");
    assert_eq!(tag_to_hex(&vec![]), "");
}

#[test]
fn sign_matches_hmac_sha256_test_vector() {
    // RFC 4231, test case 2
    assert_eq!(
        sign("Jefe", "what do ya want for nothing?"),
        "5bdcc146bf60754e6a042426089575c75a003f089d2739839dec58b964ec3843"
    );
}
