use blockchain::pow::has_zero_prefix;
use blockchain::{Blockheader, Chain};

const ZEROS: &str = "0000000000000000000000000000000000000000000000000000000000000000";
const REWARD_ROOT: &str = "768d070a37f47c9f4ded7f7755e9e565777f226357e6cb234eb409df1da5de20";

fn header(difficulty: u32) -> Blockheader {
    Blockheader {
        timestamp: 1700000000000,
        nonce: 0,
        pre_hash: ZEROS.to_string(),
        merkle: REWARD_ROOT.to_string(),
        difficulty,
    }
}

#[test]
fn zero_prefix_of_length_zero_always_holds() {
    assert!(has_zero_prefix("", 0));
    assert!(has_zero_prefix("abc", 0));
}

#[test]
fn zero_prefix_counts_leading_zeros() {
    assert!(has_zero_prefix("00ab", 1));
    assert!(has_zero_prefix("00ab", 2));
    assert!(!has_zero_prefix("00ab", 3));
    assert!(!has_zero_prefix("a00b", 1));
    assert!(has_zero_prefix(ZEROS, 64));
}

#[test]
fn zero_prefix_longer_than_the_text_fails() {
    assert!(!has_zero_prefix("000", 4));
    assert!(!has_zero_prefix(ZEROS, 65));
    assert!(!has_zero_prefix("", 1));
}

#[test]
fn proof_of_work_with_difficulty_zero_keeps_nonce_zero() {
    let mut h = header(0);
    assert!(Chain::proof_of_work(&mut h));
    assert_eq!(h.nonce, 0);
    assert_eq!(
        Chain::hash(&h),
        "f613615a35f349bb484ffe664f7025ee38aacaff1d6ba3450fc6335ef2124afb"
    );
}

#[test]
fn proof_of_work_finds_the_first_nonce() {
    for (difficulty, nonce, hash) in [
        (1, 5, "0c243980670c14ddaa88dc60b8f42eab913538ce4ad7300c14654edc759942ce"),
        (2, 74, "003088e2ecbea9e75a48e8a4f8613d28423172f228c528d7b1f6241bda08f505"),
        (3, 7049, "0006cf11d45a986fbdbd529418130e147e4f3aeac18acee91c7d6612a1e2fc35"),
    ] {
        let mut h = header(difficulty);
        assert!(Chain::proof_of_work(&mut h));
        assert_eq!(h.nonce, nonce);
        assert_eq!(Chain::hash(&h), hash);
        assert_eq!(h, Blockheader { nonce, ..header(difficulty) });
    }
}

#[test]
fn proof_of_work_leaves_no_smaller_solution() {
    let mut h = header(2);
    assert!(Chain::proof_of_work(&mut h));
    assert!(Chain::hash(&h).starts_with("00"));
    for nonce in 0..h.nonce {
        let earlier = Blockheader { nonce, ..header(2) };
        assert!(!Chain::hash(&earlier).starts_with("00"));
    }
}

#[test]
fn proof_of_work_starts_from_nonce_zero() {
    let mut h = Blockheader { nonce: 1000, ..header(2) };
    assert!(Chain::proof_of_work(&mut h));
    assert_eq!(h.nonce, 74);
}

#[test]
fn proof_of_work_refuses_a_difficulty_beyond_the_hash() {
    let mut h = Blockheader { nonce: 9, ..header(65) };
    assert!(!Chain::proof_of_work(&mut h));
    assert_eq!(h, Blockheader { nonce: 9, ..header(65) });
    let mut h = header(u32::MAX);
    assert!(!Chain::proof_of_work(&mut h));
    assert_eq!(h, header(u32::MAX));
}
