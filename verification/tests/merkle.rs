use blockchain::{Chain, Transaction};

fn transfer(sender: &str, receiver: &str, amount: u64) -> Transaction {
    Transaction { sender: sender.to_string(), receiver: receiver.to_string(), amount }
}

fn six() -> Vec<Transaction> {
    vec![
        transfer("A", "B", 1),
        transfer("B", "C", 2),
        transfer("C", "D", 3),
        transfer("D", "E", 4),
        transfer("E", "F", 5),
        transfer("F", "G", 6),
    ]
}

fn pair(left: &str, right: &str) -> String {
    Chain::hash(&format!("{}{}", left, right))
}

#[test]
fn merkle_root_of_one_transaction_is_its_hash() {
    let txs = six();
    assert_eq!(Chain::get_merkle(&txs[..1]), Chain::hash(&txs[0]));
    assert_eq!(
        Chain::get_merkle(&txs[..1]),
        "e9ad9c362b615bbf622ecf86f9fa932366400b88b688806884fc0ef9ca396b6d"
    );
}

#[test]
fn merkle_root_of_two_transactions() {
    let txs = six();
    let h1 = Chain::hash(&txs[0]);
    let h2 = Chain::hash(&txs[1]);
    assert_eq!(Chain::get_merkle(&txs[..2]), pair(&h1, &h2));
    assert_eq!(
        Chain::get_merkle(&txs[..2]),
        "1b9089ae21a99eb16a39c176bbfaf6e6b64f40c74a5096974ecd3b7a223e0bca"
    );
}

#[test]
fn merkle_root_of_three_transactions_repeats_the_last_hash() {
    let txs = six();
    let h1 = Chain::hash(&txs[0]);
    let h2 = Chain::hash(&txs[1]);
    let h3 = Chain::hash(&txs[2]);
    let left = pair(&h1, &h2);
    let right = pair(&h3, &h3);
    assert_eq!(Chain::get_merkle(&txs[..3]), pair(&left, &right));
    assert_eq!(
        Chain::get_merkle(&txs[..3]),
        "1d81c80d3273c6459aff2dfc277ce36bd461bee82430dcfa3033c7374514c046"
    );
}

#[test]
fn merkle_root_of_four_transactions() {
    let txs = six();
    let h: Vec<String> = txs.iter().map(|tx| Chain::hash(tx)).collect();
    let expected = pair(&pair(&h[0], &h[1]), &pair(&h[2], &h[3]));
    assert_eq!(Chain::get_merkle(&txs[..4]), expected);
    assert_eq!(
        Chain::get_merkle(&txs[..4]),
        "6c57eb8763da918c18dbfd244ac3fea2f0a1391290653c5cda03f6278dfe4f70"
    );
}

#[test]
fn merkle_root_of_five_transactions_hashes_a_lone_node_by_itself() {
    let txs = six();
    let h: Vec<String> = txs.iter().map(|tx| Chain::hash(tx)).collect();
    let a = pair(&h[0], &h[1]);
    let b = pair(&h[2], &h[3]);
    let c = pair(&h[4], &h[4]);
    let top = pair(&a, &b);
    let lone = Chain::hash(&c);
    assert_eq!(Chain::get_merkle(&txs[..5]), pair(&top, &lone));
    assert_eq!(
        Chain::get_merkle(&txs[..5]),
        "3a373759f76b9f1c2a3094959ca2d1e01465438157f1e1c54555222de29b41e3"
    );
}

#[test]
fn merkle_root_of_six_transactions_hashes_a_lone_node_by_itself() {
    let txs = six();
    let h: Vec<String> = txs.iter().map(|tx| Chain::hash(tx)).collect();
    let a = pair(&h[0], &h[1]);
    let b = pair(&h[2], &h[3]);
    let c = pair(&h[4], &h[5]);
    let top = pair(&a, &b);
    let lone = Chain::hash(&c);
    assert_eq!(Chain::get_merkle(&txs), pair(&top, &lone));
    assert_eq!(
        Chain::get_merkle(&txs),
        "efdfe13f55f366496bfd457a1338b7a02d2a238401651e83abfc97c9efb4d720"
    );
}

#[test]
fn merkle_root_changes_when_two_transactions_trade_places() {
    let txs = six();
    let mut swapped = six();
    swapped.swap(0, 1);
    assert_ne!(Chain::get_merkle(&txs[..2]), Chain::get_merkle(&swapped[..2]));
    assert_eq!(
        Chain::get_merkle(&swapped[..2]),
        "a85f5a142d6c38cdbf6284ecf93cdb075145e5d9cecbf899f08db82c8bb3c24d"
    );
    for i in 0..6 {
        for j in (i + 1)..6 {
            let mut other = six();
            other.swap(i, j);
            assert_ne!(Chain::get_merkle(&txs), Chain::get_merkle(&other));
        }
    }
}

#[test]
fn merkle_root_is_the_same_when_equal_transactions_trade_places() {
    let txs = vec![transfer("A", "B", 1), transfer("C", "D", 2), transfer("A", "B", 1)];
    let mut swapped = txs.clone();
    swapped.swap(0, 2);
    assert_eq!(Chain::get_merkle(&txs), Chain::get_merkle(&swapped));
}

#[test]
fn merkle_root_depends_on_the_transactions_alone() {
    assert_eq!(Chain::get_merkle(&six()), Chain::get_merkle(&six()));
}

#[test]
fn merkle_root_of_no_transactions_is_empty() {
    assert_eq!(Chain::get_merkle(&[]), "");
}
