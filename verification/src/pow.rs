//! Proof of work: the search for the smallest nonce under which a header's
//! hash begins with as many zero digits as its difficulty asks for.

use crate::block::{header_json, Blockheader, BlockheaderView};
use crate::chain::Chain;
use crate::digest::{digest_text, lemma_digest_len, DIGEST_HEX_LEN};
use vstd::prelude::*;
use vstd::string::StrSliceExecFns;

verus! {

/// Whether `hash` begins with `difficulty` characters `'0'`.
pub open spec fn meets_difficulty(hash: Seq<char>, difficulty: nat) -> bool {
    &&& difficulty <= hash.len()
    &&& forall|i: int| 0 <= i < difficulty ==> hash[i] == '0'
}

/// The hash of a header.
pub open spec fn header_hash(h: BlockheaderView) -> Seq<char> {
    digest_text(header_json(h))
}

/// The header `h` with its nonce replaced.
pub open spec fn with_nonce(h: BlockheaderView, nonce: nat) -> BlockheaderView {
    BlockheaderView { nonce, ..h }
}

/// Whether `nonce` seals the header `h`: under it the header's hash meets the
/// header's difficulty.
pub open spec fn solves(h: BlockheaderView, nonce: nat) -> bool {
    meets_difficulty(header_hash(with_nonce(h, nonce)), h.difficulty)
}

/// Whether `nonce` seals `h` and no smaller nonce does.
pub open spec fn first_solution(h: BlockheaderView, nonce: nat) -> bool {
    &&& solves(h, nonce)
    &&& forall|m: nat| m < nonce ==> !solves(h, m)
}

/// Whether some nonce that a header can hold seals `h`.
pub open spec fn solvable(h: BlockheaderView) -> bool {
    exists|nonce: nat| nonce <= u32::MAX && solves(h, nonce)
}

/// No nonce seals a header whose difficulty exceeds the length of a hash.
pub proof fn lemma_excessive_difficulty_unsolvable(h: BlockheaderView)
    requires
        h.difficulty > DIGEST_HEX_LEN,
    ensures
        !solvable(h),
{
    assert forall|nonce: nat| !solves(h, nonce) by {
        lemma_digest_len(header_json(with_nonce(h, nonce)));
    }
}

/// With difficulty zero the nonce zero seals every header.
pub proof fn lemma_zero_difficulty_first_solution(h: BlockheaderView)
    requires
        h.difficulty == 0,
    ensures
        first_solution(h, 0),
{
}

/// A header has at most one first solution.
pub proof fn lemma_first_solution_unique(h: BlockheaderView, a: nat, b: nat)
    requires
        first_solution(h, a),
        first_solution(h, b),
    ensures
        a == b,
{
}

/// The nonce that a header holds has no part in which nonces seal it: the
/// first solution of a header stays the first when the header takes it up.
pub proof fn lemma_first_solution_kept(h: BlockheaderView, nonce: nat)
    requires
        first_solution(h, nonce),
    ensures
        first_solution(with_nonce(h, nonce), nonce),
{
    let taken = with_nonce(h, nonce);
    assert forall|m: nat| solves(taken, m) == solves(h, m) by {
        assert(with_nonce(taken, m) == with_nonce(h, m));
    }
}

/// Whether `hash` begins with `count` characters `'0'`.
pub fn has_zero_prefix(hash: &str, count: u32) -> (ok: bool)
    ensures
        ok == meets_difficulty(hash@, count as nat),
{
    let len: usize = hash.unicode_len();
    if count as usize > len {
        return false;
    }
    let mut i: usize = 0;
    while i < count as usize
        invariant
            i <= count,
            count <= hash@.len(),
            forall|j: int| 0 <= j < i ==> hash@[j] == '0',
        decreases count - i,
    {
        if hash.get_char(i) != '0' {
            return false;
        }
        i = i + 1;
    }
    true
}

impl Chain {
    /// Searches the nonces from zero upward for the first one that seals
    /// `header`, and leaves it in the header.
    ///
    /// Returns `false`, with the header as it was, when no nonce seals it:
    /// always so when the difficulty exceeds the length of a hash.
    pub fn proof_of_work(header: &mut Blockheader) -> (found: bool)
        ensures
            found == solvable(old(header)@),
            found ==> final(header)@ == with_nonce(old(header)@, final(header).nonce as nat),
            found ==> first_solution(old(header)@, final(header).nonce as nat),
            !found ==> *final(header) == *old(header),
    {
        let ghost start = header@;
        if header.difficulty > DIGEST_HEX_LEN {
            proof {
                lemma_excessive_difficulty_unsolvable(start);
            }
            return false;
        }
        let given: u32 = header.nonce;
        header.nonce = 0;
        loop
            invariant
                start == old(header)@,
                header@ == with_nonce(start, header.nonce as nat),
                *header == (Blockheader { nonce: header.nonce, ..*old(header) }),
                given == old(header).nonce,
                forall|m: nat| m < header.nonce ==> !solves(start, m),
            decreases u32::MAX - header.nonce,
        {
            let hash = Chain::hash(&*header);
            if has_zero_prefix(hash.as_str(), header.difficulty) {
                assert(solves(start, header.nonce as nat));
                return true;
            }
            if header.nonce == u32::MAX {
                header.nonce = given;
                return false;
            }
            header.nonce = header.nonce + 1;
        }
    }
}

} // verus!
