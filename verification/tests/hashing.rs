use blockchain::text::{push_decimal, push_decimal_digits};
use blockchain::{Blockheader, Canonical, Chain, Transaction};
use sha2::{Digest, Sha256};

fn tx_of(sender: &str, receiver: &str, amount: u64) -> Transaction {
    Transaction { sender: sender.to_string(), receiver: receiver.to_string(), amount }
}

#[test]
fn hex_of_bytes_is_lowercase_pairs() {
    assert_eq!(Chain::hex_to_string(&[0x00, 0x0f, 0xa5, 0xff]), "000fa5ff");
    assert_eq!(Chain::hex_to_string(&[0x10, 0x9a, 0xbc, 0xde]), "109abcde");
}

#[test]
fn hex_of_no_bytes_is_empty() {
    assert_eq!(Chain::hex_to_string(&[]), "");
}

#[test]
fn hex_covers_every_byte() {
    let bytes: Vec<u8> = (0..=255).collect();
    let text = Chain::hex_to_string(&bytes);
    assert_eq!(text.len(), 512);
    for (i, byte) in bytes.iter().enumerate() {
        assert_eq!(&text[2 * i..2 * i + 2], format!("{:02x}", byte));
    }
}

#[test]
fn decimal_digits_of_unsigned_numbers() {
    for (n, expected) in [(0u64, "0"), (7, "7"), (10, "10"), (1234567890, "1234567890"), (u64::MAX, "18446744073709551615")] {
        let mut out = String::from("x");
        push_decimal_digits(&mut out, n);
        assert_eq!(out, format!("x{}", expected));
    }
}

#[test]
fn decimal_text_of_signed_numbers() {
    for (n, expected) in [(0i64, "0"), (-1, "-1"), (42, "42"), (i64::MAX, "9223372036854775807"), (i64::MIN, "-9223372036854775808")] {
        let mut out = String::new();
        push_decimal(&mut out, n);
        assert_eq!(out, expected);
    }
}

#[test]
fn canonical_text_of_a_transaction() {
    assert_eq!(
        tx_of("Bob", "Carol", 10).to_canonical(),
        "{\"sender\":\"Bob\",\"receiver\":\"Carol\",\"amount\":10}"
    );
}

#[test]
fn canonical_text_escapes_strings_as_json() {
    assert_eq!(
        tx_of("a\"b\\c\n", "é\u{1}", 0).to_canonical(),
        "{\"sender\":\"a\\\"b\\\\c\\n\",\"receiver\":\"é\\u0001\",\"amount\":0}"
    );
    assert_eq!("abc".to_string().to_canonical(), "\"abc\"");
}

#[test]
fn canonical_text_of_a_transaction_is_json() {
    let text = tx_of("Bob \"the builder\"", "Carol", 18446744073709551615).to_canonical();
    let value: serde_json::Value = serde_json::from_str(&text).unwrap();
    assert_eq!(value["sender"].as_str(), Some("Bob \"the builder\""));
    assert_eq!(value["receiver"].as_str(), Some("Carol"));
    assert_eq!(value["amount"].as_u64(), Some(18446744073709551615));
    assert_eq!(value.as_object().unwrap().len(), 3);
}

#[test]
fn canonical_text_of_a_header() {
    let header = Blockheader {
        timestamp: -5,
        nonce: 7,
        pre_hash: "ab".to_string(),
        merkle: "cd".to_string(),
        difficulty: 3,
    };
    assert_eq!(
        header.to_canonical(),
        "{\"timestamp\":-5,\"nonce\":7,\"pre_hash\":\"ab\",\"merkle\":\"cd\",\"difficulty\":3}"
    );
    assert_eq!(
        Chain::hash(&header),
        "9aae520209d9b0ceeeaa15f41baf20c880c1b0bf29f55b85a6ed08dcd96c87a9"
    );
}

#[test]
fn hash_of_a_string_value() {
    assert_eq!(
        Chain::hash(&"abc".to_string()),
        "6cc43f858fbb763301637b5af970e2a46b46f461f27e5a0f41e009c59b827b25"
    );
    assert_eq!(
        Chain::hash(&String::new()),
        "12ae32cb1ec02d01eda3581b127c1fee3b0dc53572ed6baf239721a03d82e126"
    );
}

#[test]
fn hash_of_a_transaction() {
    assert_eq!(
        Chain::hash(&tx_of("Bob", "Carol", 10)),
        "26d71b653c9b722e43baf78eaea4e5b623db338dad3aa2f38736f2579d218c04"
    );
}

#[test]
fn hash_is_the_sha256_of_the_canonical_text() {
    let tx = tx_of("Dave", "Erin", 77);
    let digest = Sha256::digest(tx.to_canonical().as_bytes());
    let expected: String = digest.iter().map(|byte| format!("{:02x}", byte)).collect();
    assert_eq!(Chain::hash(&tx), expected);
}

#[test]
fn hash_has_sixty_four_lowercase_hex_digits() {
    let hash = Chain::hash(&tx_of("x", "y", 1));
    assert_eq!(hash.len(), 64);
    assert!(hash.chars().all(|c| c.is_ascii_digit() || ('a'..='f').contains(&c)));
}

#[test]
fn hashing_twice_gives_the_same_hash() {
    let tx = tx_of("Bob", "Carol", 10);
    assert_eq!(Chain::hash(&tx), Chain::hash(&tx));
    let copy = tx.clone();
    assert_eq!(Chain::hash(&tx), Chain::hash(&copy));
}

#[test]
fn hash_depends_on_every_field() {
    let base = Chain::hash(&tx_of("Bob", "Carol", 10));
    assert_ne!(base, Chain::hash(&tx_of("Bobby", "Carol", 10)));
    assert_ne!(base, Chain::hash(&tx_of("Bob", "Caro", 10)));
    assert_ne!(base, Chain::hash(&tx_of("Bob", "Carol", 11)));
    assert_ne!(base, Chain::hash(&tx_of("Carol", "Bob", 10)));
}
