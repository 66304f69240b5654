//! The Merkle root: one hash that commits to an ordered list of transactions.

use crate::block::{transaction_json, transaction_views, Transaction, TransactionView};
use crate::chain::Chain;
use crate::digest::{digest_text, lemma_digest_len, DIGEST_HEX_LEN};
use crate::text::json_string;
use vstd::prelude::*;
use vstd::string::StringExecFns;

verus! {

/// The hash of a text taken as a string value.
pub open spec fn string_hash(s: Seq<char>) -> Seq<char> {
    digest_text(json_string(s))
}

/// The hash of each transaction, in order: the leaves of the tree.
pub open spec fn merkle_leaves(txs: Seq<TransactionView>) -> Seq<Seq<char>> {
    txs.map_values(|t: TransactionView| digest_text(transaction_json(t)))
}

/// The text that a round hashes at position `k`: the pair of hashes there,
/// joined, or the last hash alone where it has no partner.
pub open spec fn round_input(level: Seq<Seq<char>>, k: int) -> Seq<char> {
    if 2 * k + 1 < level.len() {
        level[2 * k] + level[2 * k + 1]
    } else {
        level[2 * k]
    }
}

/// One round of pairing: each adjacent pair becomes the hash of the two
/// hashes joined; a hash left without a partner is hashed by itself.
pub open spec fn merkle_round(level: Seq<Seq<char>>) -> Seq<Seq<char>> {
    Seq::new((level.len() + 1) / 2, |k: int| string_hash(round_input(level, k)))
}

/// Rounds of pairing until one hash is left: the root of the level. An empty
/// level has the empty text for its root.
pub open spec fn merkle_reduce(level: Seq<Seq<char>>) -> Seq<char>
    decreases level.len(),
{
    if level.len() == 0 {
        Seq::empty()
    } else if level.len() == 1 {
        level[0]
    } else {
        merkle_reduce(merkle_round(level))
    }
}

/// The leaves as the first round takes them: an odd list of more than one
/// leaf is made even by repeating its last leaf.
pub open spec fn padded(leaves: Seq<Seq<char>>) -> Seq<Seq<char>> {
    if leaves.len() > 1 && leaves.len() % 2 == 1 {
        leaves.push(leaves.last())
    } else {
        leaves
    }
}

/// The root over a list of leaves. A single leaf is its own root. Otherwise
/// the padded list is reduced round by round.
pub open spec fn merkle_root_of_leaves(leaves: Seq<Seq<char>>) -> Seq<char> {
    merkle_reduce(padded(leaves))
}

/// The Merkle root of a list of transactions.
pub open spec fn merkle_root(txs: Seq<TransactionView>) -> Seq<char> {
    merkle_root_of_leaves(merkle_leaves(txs))
}

/// The texts of a sequence of strings.
pub open spec fn texts(strings: Seq<String>) -> Seq<Seq<char>> {
    strings.map_values(|s: String| s@)
}

/// The hashes of `transactions`, in order.
fn leaf_hashes(transactions: &[Transaction]) -> (leaves: Vec<String>)
    ensures
        leaves@.len() == transactions@.len(),
        texts(leaves@) == merkle_leaves(transaction_views(transactions@)),
{
    let mut leaves: Vec<String> = Vec::new();
    let mut i: usize = 0;
    while i < transactions.len()
        invariant
            i <= transactions.len(),
            leaves@.len() == i,
            forall|j: int|
                0 <= j < i ==> (#[trigger] leaves@[j])@ == digest_text(
                    transaction_json(transactions@[j]@),
                ),
        decreases transactions.len() - i,
    {
        let leaf = Chain::hash(&transactions[i]);
        leaves.push(leaf);
        i = i + 1;
    }
    proof {
        assert(texts(leaves@) =~= merkle_leaves(transaction_views(transactions@)));
    }
    leaves
}

/// One round of pairing over a level of at least two hashes.
fn pair_level(level: &Vec<String>) -> (next: Vec<String>)
    ensures
        next@.len() == (level@.len() + 1) / 2,
        texts(next@) == merkle_round(texts(level@)),
{
    let len: usize = level.len();
    let pairs: usize = len / 2 + len % 2;
    let mut next: Vec<String> = Vec::new();
    let mut k: usize = 0;
    while k < pairs
        invariant
            k <= pairs,
            len == level@.len(),
            pairs == (len + 1) / 2,
            next@.len() == k,
            forall|j: int|
                0 <= j < k ==> (#[trigger] next@[j])@ == merkle_round(texts(level@))[j],
        decreases pairs - k,
    {
        let mut joined = level[2 * k].clone();
        if 2 * k + 1 < len {
            joined.append(level[2 * k + 1].as_str());
        }
        let parent = Chain::hash(&joined);
        next.push(parent);
        k = k + 1;
    }
    proof {
        assert(texts(next@) =~= merkle_round(texts(level@)));
    }
    next
}

impl Chain {
    /// The Merkle root of `transactions`.
    ///
    /// Every transaction is hashed. A single hash is the root. Otherwise, if
    /// their number is odd, the last hash is repeated once; then each round
    /// replaces adjacent pairs by the hash of the two joined, and a hash left
    /// alone in a later round by its own hash, until one hash remains. A
    /// block always holds a transaction; of none at all the root is the
    /// empty text.
    pub fn get_merkle(transactions: &[Transaction]) -> (root: String)
        ensures
            root@ == merkle_root(transaction_views(transactions@)),
    {
        let mut level = leaf_hashes(transactions);
        let ghost leaves = texts(level@);
        if level.len() % 2 == 1 && level.len() > 1 {
            let last = level[level.len() - 1].clone();
            level.push(last);
            proof {
                assert(texts(level@) =~= padded(leaves));
            }
        }
        while level.len() > 1
            invariant
                merkle_reduce(texts(level@)) == merkle_root_of_leaves(leaves),
            decreases level@.len(),
        {
            level = pair_level(&level);
        }
        match level.pop() {
            Some(root) => root,
            None => String::new(),
        }
    }
}

/// The root of a single transaction is the hash of that transaction.
pub proof fn lemma_merkle_root_of_one(t: TransactionView)
    ensures
        merkle_root(seq![t]) == digest_text(transaction_json(t)),
{
}

/// The root of three transactions with the hashes `h1`, `h2`, `h3`: the last
/// hash is repeated, the two pairs are hashed, and the two results are hashed
/// as a pair, in that order.
pub proof fn lemma_merkle_root_of_three(a: TransactionView, b: TransactionView, c: TransactionView)
    ensures
        ({
            let h1 = digest_text(transaction_json(a));
            let h2 = digest_text(transaction_json(b));
            let h3 = digest_text(transaction_json(c));
            merkle_root(seq![a, b, c]) == string_hash(string_hash(h1 + h2) + string_hash(h3 + h3))
        }),
{
    let h1 = digest_text(transaction_json(a));
    let h2 = digest_text(transaction_json(b));
    let h3 = digest_text(transaction_json(c));
    let leaves = merkle_leaves(seq![a, b, c]);
    assert(leaves =~= seq![h1, h2, h3]);
    let four = padded(leaves);
    assert(four =~= seq![h1, h2, h3, h3]);
    let round = merkle_round(four);
    assert(round =~= seq![string_hash(h1 + h2), string_hash(h3 + h3)]);
    assert(merkle_round(round) =~= seq![string_hash(round[0] + round[1])]);
    assert(merkle_reduce(merkle_round(round)) == merkle_round(round)[0]);
    assert(merkle_reduce(round) == merkle_reduce(merkle_round(round)));
    assert(merkle_reduce(four) == merkle_reduce(round));
}

/// Whether every text of the level has the length of a digest.
pub open spec fn all_digests(level: Seq<Seq<char>>) -> bool {
    forall|i: int| 0 <= i < level.len() ==> (#[trigger] level[i]).len() == DIGEST_HEX_LEN
}

/// Whether one round over the two levels hashes, at some position, two
/// different texts to the same digest.
pub open spec fn round_collides(a: Seq<Seq<char>>, b: Seq<Seq<char>>) -> bool {
    exists|k: int|
        0 <= k < (a.len() + 1) / 2 && #[trigger] round_input(a, k) != round_input(b, k)
            && string_hash(round_input(a, k)) == string_hash(round_input(b, k))
}

/// Whether the reductions of the two levels meet a collision: in some round,
/// at some position, two different texts with the same digest.
pub open spec fn reduction_collides(a: Seq<Seq<char>>, b: Seq<Seq<char>>) -> bool
    decreases a.len(),
{
    a.len() > 1 && (round_collides(a, b) || reduction_collides(merkle_round(a), merkle_round(b)))
}

/// The sequence with the elements at `i` and `j` exchanged.
pub open spec fn swapped<T>(s: Seq<T>, i: int, j: int) -> Seq<T> {
    s.update(i, s[j]).update(j, s[i])
}

/// The hashes of transactions are digests.
pub proof fn lemma_leaves_are_digests(txs: Seq<TransactionView>)
    ensures
        all_digests(merkle_leaves(txs)),
        all_digests(padded(merkle_leaves(txs))),
{
    let leaves = merkle_leaves(txs);
    assert forall|i: int| 0 <= i < leaves.len() implies (#[trigger] leaves[i]).len()
        == DIGEST_HEX_LEN by {
        lemma_digest_len(transaction_json(txs[i]));
    }
}

/// The hashes that a round makes are digests.
pub proof fn lemma_round_makes_digests(level: Seq<Seq<char>>)
    ensures
        all_digests(merkle_round(level)),
{
    let next = merkle_round(level);
    assert forall|k: int| 0 <= k < next.len() implies (#[trigger] next[k]).len()
        == DIGEST_HEX_LEN by {
        lemma_digest_len(json_string(round_input(level, k)));
    }
}

/// Two levels of digests, equally long, that one round turns into the same
/// level are the same, unless the round meets a collision.
pub proof fn lemma_round_binds(a: Seq<Seq<char>>, b: Seq<Seq<char>>)
    requires
        a.len() == b.len(),
        all_digests(a),
        all_digests(b),
        merkle_round(a) == merkle_round(b),
    ensures
        a == b || round_collides(a, b),
{
    if !round_collides(a, b) {
        assert forall|i: int| 0 <= i < a.len() implies a[i] == b[i] by {
            let k = i / 2;
            assert(merkle_round(a)[k] == merkle_round(b)[k]);
            let x = round_input(a, k);
            let y = round_input(b, k);
            assert(string_hash(x) == string_hash(y));
            assert(x == y);
            let n = DIGEST_HEX_LEN as int;
            if 2 * k + 1 < a.len() {
                assert(a[2 * k] =~= x.subrange(0, n));
                assert(b[2 * k] =~= y.subrange(0, n));
                assert(a[2 * k + 1] =~= x.subrange(n, 2 * n));
                assert(b[2 * k + 1] =~= y.subrange(n, 2 * n));
            }
        }
        assert(a =~= b);
    }
}

/// Two levels of digests, equally long, that reduce to the same hash are the
/// same, unless their reductions meet a collision.
pub proof fn lemma_reduce_binds(a: Seq<Seq<char>>, b: Seq<Seq<char>>)
    requires
        a.len() == b.len(),
        a.len() > 0,
        all_digests(a),
        all_digests(b),
        merkle_reduce(a) == merkle_reduce(b),
    ensures
        a == b || reduction_collides(a, b),
    decreases a.len(),
{
    if a.len() == 1 {
        assert(a =~= b);
    } else {
        lemma_round_makes_digests(a);
        lemma_round_makes_digests(b);
        lemma_reduce_binds(merkle_round(a), merkle_round(b));
        if merkle_round(a) == merkle_round(b) {
            lemma_round_binds(a, b);
        }
    }
}

/// The root binds the leaves: two lists of digests, equally long, with the
/// same root are the same list, unless their reductions meet a collision.
pub proof fn lemma_root_binds_leaves(a: Seq<Seq<char>>, b: Seq<Seq<char>>)
    requires
        a.len() == b.len(),
        a.len() > 0,
        all_digests(a),
        all_digests(b),
        merkle_root_of_leaves(a) == merkle_root_of_leaves(b),
    ensures
        a == b || reduction_collides(padded(a), padded(b)),
{
    lemma_reduce_binds(padded(a), padded(b));
    if padded(a) == padded(b) {
        assert(a =~= padded(a).take(a.len() as int));
        assert(b =~= padded(b).take(b.len() as int));
    }
}

/// The root depends on the order of the transactions: exchanging two of them
/// whose hashes differ changes the root, unless the reductions of the two
/// lists meet a collision. Two transactions that are equal have the same
/// hash, and exchanging them changes nothing.
pub proof fn lemma_merkle_root_order_sensitive(txs: Seq<TransactionView>, i: int, j: int)
    requires
        0 <= i < txs.len(),
        0 <= j < txs.len(),
        digest_text(transaction_json(txs[i])) != digest_text(transaction_json(txs[j])),
    ensures
        merkle_root(swapped(txs, i, j)) != merkle_root(txs) || reduction_collides(
            padded(merkle_leaves(swapped(txs, i, j))),
            padded(merkle_leaves(txs)),
        ),
{
    let other = swapped(txs, i, j);
    lemma_leaves_are_digests(txs);
    lemma_leaves_are_digests(other);
    if merkle_root(other) == merkle_root(txs) {
        lemma_root_binds_leaves(merkle_leaves(other), merkle_leaves(txs));
        if merkle_leaves(other) == merkle_leaves(txs) {
            assert(merkle_leaves(other)[i] == digest_text(transaction_json(txs[j])));
            assert(merkle_leaves(txs)[i] == digest_text(transaction_json(txs[i])));
        }
    }
}

} // verus!
