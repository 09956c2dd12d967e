//! Merkle-root reduction over a sequence of 32-byte digests: adjacent
//! elements are paired left-to-right, a trailing unpaired element is paired
//! with itself, and the halved level is reduced again until one digest
//! remains. The empty sequence reduces to the all-zero hash.

use vstd::prelude::*;

verus! {

use crate::hash::sha3_256_of;
use crate::hash::zero_hash;

/// The digest of an inner node: the hash of the left child's bytes followed
/// by the right child's bytes.
pub open spec fn branch_of(l: Seq<u8>, r: Seq<u8>) -> Seq<u8> {
    sha3_256_of(l + r)
}

/// One reduction level: pairs of adjacent digests, the last one paired with
/// itself when the level's length is odd.
pub open spec fn merkle_level(s: Seq<Seq<u8>>) -> Seq<Seq<u8>> {
    Seq::new(((s.len() + 1) / 2) as nat, |i: int| {
        if 2 * i + 1 < s.len() {
            branch_of(s[2 * i], s[2 * i + 1])
        } else {
            branch_of(s[2 * i], s[2 * i])
        }
    })
}

/// The Merkle root of a sequence of digests.
pub open spec fn merkle_root_of(s: Seq<Seq<u8>>) -> Seq<u8>
    decreases s.len(),
{
    if s.len() == 0 {
        zero_hash()
    } else if s.len() == 1 {
        s[0]
    } else {
        merkle_root_of(merkle_level(s))
    }
}

/// The byte sequences a sequence of hashes views as.
pub open spec fn views_of(s: Seq<crate::hash::Hash>) -> Seq<Seq<u8>> {
    s.map_values(|h: crate::hash::Hash| h@)
}

/// The roots of the smallest shapes: the empty sequence reduces to the
/// all-zero hash, a single digest is returned unchanged, a pair reduces to
/// the hash of their concatenation, and a triple pairs its unpaired last
/// element with itself.
pub proof fn lemma_merkle_root_shapes(a: Seq<u8>, b: Seq<u8>, c: Seq<u8>)
    ensures
        merkle_root_of(Seq::<Seq<u8>>::empty()) == zero_hash(),
        merkle_root_of(seq![a]) == a,
        merkle_root_of(seq![a, b]) == branch_of(a, b),
        merkle_root_of(seq![a, b, c]) == branch_of(branch_of(a, b), branch_of(c, c)),
{
    assert(merkle_level(seq![a, b]) =~= seq![branch_of(a, b)]);
    assert(merkle_root_of(seq![branch_of(a, b)]) == branch_of(a, b));
    assert(merkle_root_of(seq![a, b]) == merkle_root_of(merkle_level(seq![a, b])));
    assert(merkle_level(seq![a, b, c]) =~= seq![branch_of(a, b), branch_of(c, c)]);
    assert(merkle_level(seq![branch_of(a, b), branch_of(c, c)])
        =~= seq![branch_of(branch_of(a, b), branch_of(c, c))]);
    assert(merkle_root_of(seq![branch_of(branch_of(a, b), branch_of(c, c))])
        == branch_of(branch_of(a, b), branch_of(c, c)));
    assert(merkle_root_of(seq![branch_of(a, b), branch_of(c, c)])
        == merkle_root_of(merkle_level(seq![branch_of(a, b), branch_of(c, c)])));
    assert(merkle_root_of(seq![a, b, c]) == merkle_root_of(merkle_level(seq![a, b, c])));
}

/// Compute a branch hash: the digest of the concatenation of the two
/// children, left first.
pub fn compute_branch(left: &crate::hash::Hash, right: &crate::hash::Hash) -> (r: crate::hash::Hash)
    ensures
        r@ == branch_of(left@, right@),
{
    let mut concat = left.to_vec();
    let mut right_bytes = right.to_vec();
    concat.append(&mut right_bytes);
    crate::hash::Hash::compute_hash(concat.as_slice())
}

/// Compute the Merkle root of a slice of digests: the all-zero hash for an
/// empty slice, the single digest unchanged, and otherwise the pairwise
/// reduction with the odd tail paired with itself at every level.
pub fn compute_root(hashes: &[crate::hash::Hash]) -> (r: crate::hash::Hash)
    ensures
        r@ == merkle_root_of(views_of(hashes@)),
{
    if hashes.len() == 0 {
        return crate::hash::Hash::new_empty();
    }

    let mut nodes: Vec<crate::hash::Hash> = Vec::new();
    let mut idx: usize = 0;
    while idx < hashes.len()
        invariant
            idx <= hashes@.len(),
            nodes@.len() == idx,
            forall|j: int| 0 <= j < idx ==> nodes@[j]@ == hashes@[j]@,
        decreases hashes@.len() - idx,
    {
        nodes.push(hashes[idx].clone());
        idx = idx + 1;
    }
    proof {
        assert(views_of(nodes@) =~= views_of(hashes@));
    }

    while nodes.len() > 1
        invariant
            nodes@.len() >= 1,
            merkle_root_of(views_of(nodes@)) == merkle_root_of(views_of(hashes@)),
        decreases nodes@.len(),
    {
        let ghost level = views_of(nodes@);
        let length = nodes.len();
        let mut next: Vec<crate::hash::Hash> = Vec::new();
        let mut i: usize = 0;
        while i < length
            invariant
                views_of(nodes@) == level,
                nodes@.len() == length,
                length >= 2,
                i <= length,
                i % 2 == 0 || i == length,
                next@.len() == (i + 1) / 2,
                forall|j: int| 0 <= j < next@.len() ==> next@[j]@ == merkle_level(level)[j],
            decreases length - i,
        {
            if i + 1 < length {
                next.push(compute_branch(&nodes[i], &nodes[i + 1]));
                i = i + 2;
            } else {
                next.push(compute_branch(&nodes[i], &nodes[i]));
                i = i + 1;
            }
        }
        proof {
            assert(next@.len() == (length + 1) / 2);
            assert(views_of(next@) =~= merkle_level(level));
        }
        nodes = next;
    }
    let r = nodes[0].clone();
    proof {
        assert(views_of(nodes@).len() == 1);
        assert(r@ == views_of(nodes@)[0]);
    }
    r
}

} // verus!
