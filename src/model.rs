use vstd::prelude::*;

verus! {

/// Image of `k` under the permutation whose displaced points are stored in `m`:
/// a stored key goes to its stored value, any other index stays where it is.
pub open spec fn image(m: Map<u8, u8>, k: u8) -> u8 {
    if m.contains_key(k) {
        m[k]
    } else {
        k
    }
}

/// `m` is the canonical sparse form of a permutation: it stores displaced points
/// only, and it is a bijection of its own key set (each stored image is a key,
/// no two keys share an image, and each key is some key's image).
pub open spec fn is_canonical(m: Map<u8, u8>) -> bool {
    &&& forall|k: u8| #[trigger] m.contains_key(k) ==> m[k] != k && m.contains_key(m[k])
    &&& forall|a: u8, b: u8|
        #[trigger] m.contains_key(a) && #[trigger] m.contains_key(b) && m[a] == m[b] ==> a == b
    &&& forall|v: u8| #[trigger] m.contains_key(v) ==> exists|k: u8| m.contains_key(k) && m[k] == v
}

/// Sparse form of "apply `p`, then `q`".
pub open spec fn compose_map(p: Map<u8, u8>, q: Map<u8, u8>) -> Map<u8, u8> {
    Map::new(|k: u8| image(q, image(p, k)) != k, |k: u8| image(q, image(p, k)))
}

/// Sparse form of the inverse of `p`: each stored image is sent back to its key.
pub open spec fn inverse_map(p: Map<u8, u8>) -> Map<u8, u8> {
    Map::new(|v: u8| p.contains_key(v), |v: u8| choose|k: u8| p.contains_key(k) && p[k] == v)
}

/// Under a canonical map, `image` is one-to-one on the `u8` indices.
pub proof fn lemma_image_injective(m: Map<u8, u8>)
    requires
        is_canonical(m),
    ensures
        forall|a: u8, b: u8| #[trigger] image(m, a) == #[trigger] image(m, b) ==> a == b,
{
}

/// The inverse of a canonical map is canonical, and it undoes the map.
pub proof fn lemma_inverse_canonical(p: Map<u8, u8>)
    requires
        is_canonical(p),
    ensures
        is_canonical(inverse_map(p)),
        forall|k: u8| #[trigger] image(inverse_map(p), image(p, k)) == k,
        forall|k: u8| #[trigger] image(p, image(inverse_map(p), k)) == k,
{
    let inv = inverse_map(p);
    assert forall|v: u8| #[trigger] p.contains_key(v) implies p.contains_key(inv[v]) && p[inv[v]]
        == v && inv[v] != v by {
        let k = choose|k: u8| p.contains_key(k) && p[k] == v;
    }
    assert forall|k: u8| #[trigger] p.contains_key(k) implies inv[p[k]] == k by {
        assert(p.contains_key(p[k]));
    }
    assert forall|k: u8| #[trigger] inv.contains_key(k) implies inv[k] != k && inv.contains_key(
        inv[k],
    ) by {}
    assert forall|v: u8| #[trigger] inv.contains_key(v) implies exists|k: u8|
        inv.contains_key(k) && inv[k] == v by {
        assert(inv.contains_key(p[v]) && inv[p[v]] == v);
    }
    assert forall|k: u8| #[trigger] image(inv, image(p, k)) == k by {
        if p.contains_key(k) {
            assert(inv[p[k]] == k);
        }
    }
}

/// The sparse form of a composite of canonical maps is canonical.
pub proof fn lemma_compose_canonical(p: Map<u8, u8>, q: Map<u8, u8>)
    requires
        is_canonical(p),
        is_canonical(q),
    ensures
        is_canonical(compose_map(p, q)),
{
    let c = compose_map(p, q);
    lemma_inverse_canonical(p);
    lemma_inverse_canonical(q);
    let ip = inverse_map(p);
    let iq = inverse_map(q);
    assert forall|a: u8, b: u8| #[trigger]
        image(q, image(p, a)) == #[trigger] image(q, image(p, b)) implies a == b by {
        lemma_image_injective(p);
        lemma_image_injective(q);
        assert(image(p, a) == image(p, b));
    }
    assert forall|k: u8| #[trigger] c.contains_key(k) implies c[k] != k && c.contains_key(c[k]) by {
        let f = image(q, image(p, k));
        assert(c[k] == f);
        if image(q, image(p, f)) == f {
            assert(f == k);
        }
    }
    assert forall|a: u8, b: u8|
        #[trigger] c.contains_key(a) && #[trigger] c.contains_key(b) && c[a] == c[b] implies a
        == b by {
        assert(image(q, image(p, a)) == image(q, image(p, b)));
    }
    assert forall|v: u8| #[trigger] c.contains_key(v) implies exists|k: u8|
        c.contains_key(k) && c[k] == v by {
        let k = image(ip, image(iq, v));
        assert(image(p, k) == image(iq, v));
        assert(image(q, image(p, k)) == v);
        assert(c.contains_key(k) && c[k] == v);
    }
}

/// `a` lists the images of `0..n` under a permutation of `0..n`: every image is
/// in range, no two indices share one, and every index in range is someone's.
pub open spec fn is_perm_seq(a: Seq<u8>, n: nat) -> bool {
    &&& a.len() == n
    &&& forall|i: int| 0 <= i < n ==> #[trigger] a[i] < n
    &&& forall|i: int, j: int|
        0 <= i < n && 0 <= j < n && #[trigger] a[i] == #[trigger] a[j] ==> i == j
    &&& forall|v: u8| v < n ==> #[trigger] a.contains(v)
}

/// Dense identity on `0..n`.
pub open spec fn identity_seq(n: nat) -> Seq<u8> {
    Seq::new(n, |i: int| i as u8)
}

/// Dense form of "apply `a`, then `b`".
pub open spec fn compose_seq(a: Seq<u8>, b: Seq<u8>) -> Seq<u8> {
    Seq::new(a.len(), |k: int| b[a[k] as int])
}

/// Dense form of the inverse of `a`: each index goes back to the index whose image it is.
pub open spec fn inverse_seq(a: Seq<u8>) -> Seq<u8> {
    Seq::new(a.len(), |v: int| (choose|k: int| 0 <= k < a.len() && a[k] == v) as u8)
}

/// The dense inverse of a permutation of `0..n` is one, and the two undo each other.
pub proof fn lemma_inverse_seq(a: Seq<u8>, n: nat)
    requires
        is_perm_seq(a, n),
        n <= 256,
    ensures
        is_perm_seq(inverse_seq(a), n),
        forall|k: int| 0 <= k < n ==> #[trigger] inverse_seq(a)[a[k] as int] == k,
        forall|v: int| 0 <= v < n ==> #[trigger] a[inverse_seq(a)[v] as int] == v,
{
    let b = inverse_seq(a);
    assert forall|v: int| 0 <= v < n implies #[trigger] b[v] < n && a[b[v] as int] == v by {
        assert(a.contains(v as u8));
        let k = choose|k: int| 0 <= k < a.len() && a[k] == v;
    }
    assert forall|k: int| 0 <= k < n implies #[trigger] b[a[k] as int] == k by {
        let v = a[k] as int;
        assert(a[b[v] as int] == v);
    }
    assert forall|v: u8| v < n implies #[trigger] b.contains(v) by {
        assert(b[a[v as int] as int] == v);
    }
}

/// The dense composite of two permutations of `0..n` is one.
pub proof fn lemma_compose_seq(a: Seq<u8>, b: Seq<u8>, n: nat)
    requires
        is_perm_seq(a, n),
        is_perm_seq(b, n),
        n <= 256,
    ensures
        is_perm_seq(compose_seq(a, b), n),
{
    let c = compose_seq(a, b);
    lemma_inverse_seq(a, n);
    lemma_inverse_seq(b, n);
    assert forall|i: int, j: int| 0 <= i < n && 0 <= j < n && #[trigger] c[i] == #[trigger] c[j]
        implies i == j by {
        assert(b[a[i] as int] == b[a[j] as int]);
        assert(a[i] == a[j]);
    }
    assert forall|v: u8| v < n implies #[trigger] c.contains(v) by {
        let k = inverse_seq(a)[inverse_seq(b)[v as int] as int] as int;
        assert(c[k] == v);
    }
}

/// Sparse form of the dense permutation `a` of `0..a.len()`: the indices that
/// `a` moves, each with its image.
pub open spec fn sparse_of(a: Seq<u8>) -> Map<u8, u8> {
    Map::new(|k: u8| k < a.len() && a[k as int] != k, |k: u8| a[k as int])
}

/// The sparse form of a dense permutation is canonical, with the same images.
pub proof fn lemma_sparse_of(a: Seq<u8>, n: nat)
    requires
        is_perm_seq(a, n),
        n <= 256,
    ensures
        is_canonical(sparse_of(a)),
        forall|k: u8| #[trigger] image(sparse_of(a), k) == if k < n { a[k as int] } else { k },
{
    let m = sparse_of(a);
    let b = inverse_seq(a);
    lemma_inverse_seq(a, n);
    assert forall|k: u8| #[trigger] m.contains_key(k) implies m[k] != k && m.contains_key(m[k]) by {
        let v = a[k as int];
        assert(v < n);
        if a[v as int] == v {
            assert(a[k as int] == a[v as int]);
        }
    }
    assert forall|x: u8, y: u8|
        #[trigger] m.contains_key(x) && #[trigger] m.contains_key(y) && m[x] == m[y] implies x
        == y by {
        assert(a[x as int] == a[y as int]);
    }
    assert forall|v: u8| #[trigger] m.contains_key(v) implies exists|k: u8|
        m.contains_key(k) && m[k] == v by {
        let k = b[v as int];
        assert(a[k as int] == v);
        assert(k != v);
        assert(m.contains_key(k) && m[k] == v);
    }
    assert forall|k: u8| #[trigger] image(m, k) == if k < n { a[k as int] } else { k } by {}
}

/// Two canonical maps with the same image at every index are equal.
pub proof fn lemma_canonical_ext(a: Map<u8, u8>, b: Map<u8, u8>)
    requires
        is_canonical(a),
        is_canonical(b),
        forall|k: u8| #[trigger] image(a, k) == image(b, k),
    ensures
        a == b,
{
    assert forall|k: u8| #[trigger] a.contains_key(k) implies b.contains_key(k) by {
        assert(image(a, k) == image(b, k));
    }
    assert forall|k: u8| #[trigger] b.contains_key(k) implies a.contains_key(k) by {
        assert(image(a, k) == image(b, k));
    }
    assert forall|k: u8| #[trigger] a.contains_key(k) implies a[k] == b[k] by {
        assert(image(a, k) == image(b, k));
    }
    assert(a =~= b);
}

/// The image under a sparse composite is the image under `q` of the image under `p`.
pub proof fn lemma_image_compose(p: Map<u8, u8>, q: Map<u8, u8>)
    ensures
        forall|k: u8| #[trigger] image(compose_map(p, q), k) == image(q, image(p, k)),
{
}

} // verus!
