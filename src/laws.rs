use vstd::prelude::*;
use crate::model::{
    image, is_canonical, compose_map, inverse_map, is_perm_seq, identity_seq, compose_seq,
    inverse_seq, sparse_of, lemma_inverse_canonical, lemma_compose_canonical, lemma_inverse_seq,
    lemma_sparse_of, lemma_canonical_ext, lemma_image_compose,
};
use crate::permutation::{PermHashMap, PermArray};

verus! {

/// Composing with the identity, on either side, gives back the permutation.
pub proof fn law_sparse_identity(p: PermHashMap)
    requires
        p.wf(),
    ensures
        compose_map(p@, Map::empty()) == p@,
        compose_map(Map::empty(), p@) == p@,
{
    assert(compose_map(p@, Map::empty()) =~= p@);
    assert(compose_map(Map::empty(), p@) =~= p@);
}

/// A permutation composed with its inverse, in either order, is the identity:
/// nothing is stored.
pub proof fn law_sparse_inverse(p: PermHashMap)
    requires
        p.wf(),
    ensures
        compose_map(p@, inverse_map(p@)) == Map::<u8, u8>::empty(),
        compose_map(inverse_map(p@), p@) == Map::<u8, u8>::empty(),
{
    lemma_inverse_canonical(p@);
    assert(compose_map(p@, inverse_map(p@)) =~= Map::<u8, u8>::empty());
    assert(compose_map(inverse_map(p@), p@) =~= Map::<u8, u8>::empty());
}

/// Inverting twice gives back the permutation.
pub proof fn law_sparse_involution(p: PermHashMap)
    requires
        p.wf(),
    ensures
        inverse_map(inverse_map(p@)) == p@,
{
    let inv = inverse_map(p@);
    lemma_inverse_canonical(p@);
    lemma_inverse_canonical(inv);
    assert forall|k: u8| #[trigger] image(inverse_map(inv), k) == image(p@, k) by {
        assert(image(inv, image(p@, k)) == k);
        assert(image(inverse_map(inv), image(inv, image(p@, k))) == image(p@, k));
    }
    lemma_canonical_ext(inverse_map(inv), p@);
}

/// Composition is associative.
pub proof fn law_sparse_associative(p: PermHashMap, q: PermHashMap, r: PermHashMap)
    requires
        p.wf(),
        q.wf(),
        r.wf(),
    ensures
        compose_map(compose_map(p@, q@), r@) == compose_map(p@, compose_map(q@, r@)),
{
    lemma_image_compose(p@, q@);
    lemma_image_compose(q@, r@);
    assert(compose_map(compose_map(p@, q@), r@) =~= compose_map(p@, compose_map(q@, r@)));
}

/// Composing with the identity, on either side, gives back the permutation.
pub proof fn law_dense_identity<const N: u8>(p: PermArray<N>)
    requires
        p.wf(),
    ensures
        compose_seq(p@, identity_seq(N as nat)) == p@,
        compose_seq(identity_seq(N as nat), p@) == p@,
{
    assert(compose_seq(p@, identity_seq(N as nat)) =~= p@);
    assert(compose_seq(identity_seq(N as nat), p@) =~= p@);
}

/// A permutation composed with its inverse, in either order, is the identity.
pub proof fn law_dense_inverse<const N: u8>(p: PermArray<N>)
    requires
        p.wf(),
    ensures
        compose_seq(p@, inverse_seq(p@)) == identity_seq(N as nat),
        compose_seq(inverse_seq(p@), p@) == identity_seq(N as nat),
{
    lemma_inverse_seq(p@, N as nat);
    assert(compose_seq(p@, inverse_seq(p@)) =~= identity_seq(N as nat));
    assert(compose_seq(inverse_seq(p@), p@) =~= identity_seq(N as nat));
}

/// Inverting twice gives back the permutation.
pub proof fn law_dense_involution<const N: u8>(p: PermArray<N>)
    requires
        p.wf(),
    ensures
        inverse_seq(inverse_seq(p@)) == p@,
{
    let inv = inverse_seq(p@);
    lemma_inverse_seq(p@, N as nat);
    lemma_inverse_seq(inv, N as nat);
    assert forall|k: int| 0 <= k < N implies #[trigger] inverse_seq(inv)[k] == p@[k] by {
        assert(inv[p@[k] as int] == k);
    }
    assert(inverse_seq(inv) =~= p@);
}

/// Composition is associative.
pub proof fn law_dense_associative<const N: u8>(p: PermArray<N>, q: PermArray<N>, r: PermArray<N>)
    requires
        p.wf(),
        q.wf(),
        r.wf(),
    ensures
        compose_seq(compose_seq(p@, q@), r@) == compose_seq(p@, compose_seq(q@, r@)),
{
    assert(compose_seq(compose_seq(p@, q@), r@) =~= compose_seq(p@, compose_seq(q@, r@)));
}

/// A dense permutation and its sparse form send every index to the same place
/// (the sparse form fixes every index from `N` on), and the two forms agree
/// after composing or inverting: converting the dense result gives the sparse one.
pub proof fn law_dense_sparse_agree<const N: u8>(p: PermArray<N>, q: PermArray<N>)
    requires
        p.wf(),
        q.wf(),
    ensures
        forall|k: u8| k < N ==> #[trigger] image(sparse_of(p@), k) == p@[k as int],
        forall|k: u8| k >= N ==> #[trigger] image(sparse_of(p@), k) == k,
        sparse_of(compose_seq(p@, q@)) == compose_map(sparse_of(p@), sparse_of(q@)),
        sparse_of(inverse_seq(p@)) == inverse_map(sparse_of(p@)),
{
    let n = N as nat;
    let sp = sparse_of(p@);
    let sq = sparse_of(q@);
    lemma_sparse_of(p@, n);
    lemma_sparse_of(q@, n);
    assert(sparse_of(compose_seq(p@, q@)) =~= compose_map(sp, sq));
    let inv = inverse_seq(p@);
    lemma_inverse_seq(p@, n);
    lemma_sparse_of(inv, n);
    lemma_inverse_canonical(sp);
    let isp = inverse_map(sp);
    assert forall|k: u8| #[trigger] image(sparse_of(inv), k) == image(isp, k) by {
        let j = image(isp, k);
        assert(image(sp, j) == k);
        if j < N {
            assert(inv[p@[j as int] as int] == j);
        }
    }
    lemma_canonical_ext(sparse_of(inv), isp);
}

} // verus!
