use std::collections::HashMap;
use vstd::prelude::*;
use crate::model::{
    image, is_canonical, compose_map, inverse_map, is_perm_seq, identity_seq, compose_seq,
    inverse_seq, sparse_of, lemma_inverse_canonical, lemma_compose_canonical, lemma_inverse_seq,
    lemma_compose_seq, lemma_sparse_of,
};

verus! {

broadcast use vstd::std_specs::hash::group_hash_axioms;

/// A permutation of the `u8` indices, stored sparsely: only the indices that it
/// moves are kept, each with its image.
#[derive(Clone)]
pub struct PermHashMap(HashMap<u8, u8>);

impl View for PermHashMap {
    type V = Map<u8, u8>;

    closed spec fn view(&self) -> Map<u8, u8> {
        self.0@
    }
}

impl PermHashMap {
    /// The stored map is the canonical sparse form of a permutation.
    pub open spec fn wf(&self) -> bool {
        is_canonical(self@)
    }

    /// The permutation that fixes every index.
    pub fn identity() -> (r: Self)
        ensures
            r.wf(),
            r@ == Map::<u8, u8>::empty(),
    {
        PermHashMap(HashMap::default())
    }

    /// The permutation that undoes `self`: each stored pair `(k, v)` becomes `(v, k)`.
    pub fn invert(&self) -> (r: Self)
        requires
            self.wf(),
        ensures
            r.wf(),
            r@ == inverse_map(self@),
    {
        let mut m: HashMap<u8, u8> = HashMap::new();
        for (k, v) in it: self.0.iter()
            invariant
                self.wf(),
                forall|x: u8|
                    m@.contains_key(x) <==> exists|i: int|
                        0 <= i < it.index() && *(#[trigger] it.seq()[i]).1 == x,
                forall|x: u8|
                    #[trigger] m@.contains_key(x) ==> self@.contains_key(m@[x]) && self@[m@[x]]
                        == x,
        {
            proof {
                assert(self@.contains_key(*k) && self@[*k] == *v);
            }
            m.insert(*v, *k);
        }
        let r = PermHashMap(m);
        proof {
            assert(r@ =~= inverse_map(self@));
            lemma_inverse_canonical(self@);
        }
        r
    }

    /// "Apply `p`, then `q`": the result sends `k` to `q.permute(p.permute(k))`.
    #[verifier::rlimit(40)]
    pub fn compose(p: &Self, q: &Self) -> (r: Self)
        requires
            p.wf(),
            q.wf(),
        ensures
            r.wf(),
            r@ == compose_map(p@, q@),
    {
        let ghost target = compose_map(p@, q@);
        let ghost inv = inverse_map(p@);
        proof {
            lemma_inverse_canonical(p@);
        }
        let mut m: HashMap<u8, u8> = p.0.clone();
        let mut rest = PermHashMap(q.0.clone());
        let ghost mut done: Set<u8> = Set::empty();
        let ghost mut used: Set<u8> = Set::empty();
        for (k, v) in it: p.0.iter()
            invariant
                inv == inverse_map(p@),
                forall|x: u8| #[trigger] p@.contains_key(x) ==> inv[p@[x]] == x,
                it.seq().no_duplicates(),
                forall|i: int|
                    0 <= i < it.seq().len() ==> (done.contains(*(#[trigger] it.seq()[i]).0) <==> i
                        < it.index()),
                forall|x: u8| #[trigger] done.contains(x) ==> p@.contains_key(x),
                forall|x: u8|
                    #[trigger] p@.contains_key(x) && !done.contains(x) ==> exists|i: int|
                        it.index() <= i < it.seq().len() && *(#[trigger] it.seq()[i]).0 == x,
                forall|x: u8|
                    #[trigger] m@.contains_key(x) <==> p@.contains_key(x) && (done.contains(x)
                        ==> image(q@, p@[x]) != x),
                forall|x: u8|
                    #[trigger] m@.contains_key(x) ==> m@[x] == if done.contains(x) {
                        image(q@, p@[x])
                    } else {
                        p@[x]
                    },
                forall|x: u8| #[trigger] done.contains(x) ==> used.contains(p@[x]),
                forall|y: u8|
                    #[trigger] used.contains(y) ==> done.contains(inv[y]) && p@[inv[y]] == y,
                rest@ == q@.remove_keys(used),
        {
            proof {
                assert(p@.contains_key(*k) && p@[*k] == *v);
                assert(!done.contains(*k)) by {
                    assert(it.seq()[it.index()] == (k, v));
                }
                assert(!used.contains(*v)) by {
                    if used.contains(*v) {
                        assert(inv[p@[inv[*v]]] == inv[*v]);
                    }
                }
                assert forall|i: int| it.index() < i < it.seq().len() implies *(
                #[trigger] it.seq()[i]).0 != *k by {
                    if *it.seq()[i].0 == *k {
                        assert(it.seq()[i] == it.seq()[it.index()]);
                    }
                }
            }
            let qv = rest.permute(*v);
            if *k == qv {
                m.remove(k);
            } else {
                m.insert(*k, qv);
            }
            rest.0.remove(v);
            proof {
                let i0 = it.index();
                done = done.insert(*k);
                used = used.insert(*v);
                assert(rest@ =~= q@.remove_keys(used));
                assert forall|x: u8| #[trigger] p@.contains_key(x) && !done.contains(x) implies exists|
                    i: int,
                | i0 + 1 <= i < it.seq().len() && *(#[trigger] it.seq()[i]).0 == x by {
                    let i = choose|i: int| i0 <= i < it.seq().len() && *it.seq()[i].0 == x;
                    assert(i != i0);
                }
            }
        }
        proof {
            assert forall|x: u8| #[trigger] p@.contains_key(x) implies done.contains(x) by {}
            assert forall|x: u8| #[trigger] p@.contains_key(x) implies used.contains(x) by {
                assert(p@.contains_key(inv[x]) && p@[inv[x]] == x);
                assert(done.contains(inv[x]));
            }
            assert forall|x: u8| #[trigger] m@.contains_key(x) implies target.contains_key(x)
                && m@[x] == target[x] by {}
            assert forall|x: u8| #[trigger] rest@.contains_key(x) implies target.contains_key(x)
                && rest@[x] == target[x] && !p@.contains_key(x) by {}
            assert forall|x: u8|
                #[trigger] target.contains_key(x) && !rest@.contains_key(x) implies m@.contains_key(
                x,
            ) by {}
        }
        for (key, value) in it: rest.0.iter()
            invariant
                forall|x: u8| #[trigger] m@.contains_key(x) ==> target.contains_key(x) && m@[x]
                    == target[x],
                forall|x: u8| #[trigger] rest@.contains_key(x) ==> target.contains_key(x)
                    && rest@[x] == target[x],
                forall|x: u8|
                    #[trigger] target.contains_key(x) && !rest@.contains_key(x)
                        ==> m@.contains_key(x),
                forall|x: u8|
                    #[trigger] rest@.contains_key(x) && !m@.contains_key(x) ==> exists|i: int|
                        it.index() <= i < it.seq().len() && *(#[trigger] it.seq()[i]).0 == x,
        {
            proof {
                assert(rest@.contains_key(*key) && rest@[*key] == *value);
            }
            m.insert(*key, *value);
            proof {
                let i0 = it.index();
                assert forall|x: u8| #[trigger] rest@.contains_key(x) && !m@.contains_key(x) implies exists|
                    i: int,
                | i0 + 1 <= i < it.seq().len() && *(#[trigger] it.seq()[i]).0 == x by {
                    let i = choose|i: int| i0 <= i < it.seq().len() && *it.seq()[i].0 == x;
                    assert(i != i0);
                }
            }
        }
        let r = PermHashMap(m);
        proof {
            assert forall|x: u8| #[trigger] target.contains_key(x) implies r@.contains_key(x) by {}
            assert(r@ =~= target);
            lemma_compose_canonical(p@, q@);
        }
        r
    }

    /// Number of stored entries: in canonical form, the number of indices moved.
    pub fn len(&self) -> (r: usize)
        ensures
            r == self@.len(),
    {
        self.0.len()
    }

    /// Image of `k`: its stored image if `k` is stored, else `k` itself.
    pub fn permute(&self, k: u8) -> (r: u8)
        ensures
            r == image(self@, k),
    {
        match self.0.get(&k) {
            Some(v) => *v,
            None => k,
        }
    }
}

/// A permutation of `0..N`, stored densely: entry `k` is the image of `k`.
#[derive(Clone)]
pub struct PermArray<const N: u8>(Vec<u8>);

impl<const N: u8> View for PermArray<N> {
    type V = Seq<u8>;

    closed spec fn view(&self) -> Seq<u8> {
        self.0@
    }
}

impl<const N: u8> PermArray<N> {
    /// The stored images are those of a permutation of `0..N`.
    pub open spec fn wf(&self) -> bool {
        is_perm_seq(self@, N as nat)
    }

    /// The permutation that fixes every index of `0..N`.
    pub fn identity() -> (r: Self)
        ensures
            r.wf(),
            r@ == identity_seq(N as nat),
    {
        let mut array: Vec<u8> = Vec::new();
        for i in 0..N
            invariant
                array@ == identity_seq(i as nat),
        {
            array.push(i);
            proof {
                assert(array@ =~= identity_seq((i + 1) as nat));
            }
        }
        let r = PermArray(array);
        proof {
            assert forall|v: u8| v < N implies #[trigger] r@.contains(v) by {
                assert(r@[v as int] == v);
            }
        }
        r
    }

    /// The permutation that undoes `self`: entry `self[k]` of the result is `k`.
    pub fn invert(&self) -> (r: Self)
        requires
            self.wf(),
        ensures
            r.wf(),
            r@ == inverse_seq(self@),
    {
        let mut array: Vec<u8> = Vec::new();
        for i in 0..N
            invariant
                array.len() == i,
        {
            array.push(0);
        }
        for k in 0..N
            invariant
                self.wf(),
                array.len() == N,
                forall|j: int| 0 <= j < k ==> array@[#[trigger] self@[j] as int] == j,
        {
            let v = self.0[k as usize];
            array.set(v as usize, k);
        }
        let r = PermArray(array);
        proof {
            lemma_inverse_seq(self@, N as nat);
            assert forall|v: int| 0 <= v < N implies r@[v] == inverse_seq(self@)[v] by {
                let k = inverse_seq(self@)[v] as int;
                assert(self@[k] == v);
            }
            assert(r@ =~= inverse_seq(self@));
        }
        r
    }

    /// "Apply `p`, then `q`": entry `k` of the result is `q[p[k]]`.
    pub fn compose(p: &Self, q: &Self) -> (r: Self)
        requires
            p.wf(),
            q.wf(),
        ensures
            r.wf(),
            r@ == compose_seq(p@, q@),
    {
        let mut array: Vec<u8> = Vec::new();
        for k in 0..N
            invariant
                p.wf(),
                q.wf(),
                array@ == compose_seq(p@, q@).take(k as int),
        {
            let v = p.0[k as usize];
            array.push(q.0[v as usize]);
            proof {
                assert(array@ =~= compose_seq(p@, q@).take(k + 1));
            }
        }
        let r = PermArray(array);
        proof {
            assert(r@ =~= compose_seq(p@, q@));
            lemma_compose_seq(p@, q@, N as nat);
        }
        r
    }

    /// Image of `k`.
    pub fn permute(&self, k: u8) -> (r: u8)
        requires
            self.wf(),
            k < N,
        ensures
            r == self@[k as int],
    {
        self.0[k as usize]
    }

    /// The permutation whose images of `0..N` are listed in `images`, if they
    /// form one: `None` when the length is not `N`, an image is out of range, or
    /// two indices share an image.
    pub fn from_images(images: &Vec<u8>) -> (r: Option<Self>)
        ensures
            r is Some <==> is_perm_seq(images@, N as nat),
            r matches Some(p) ==> p.wf() && p@ == images@,
    {
        if images.len() != N as usize {
            return None;
        }
        let mut filled: Vec<bool> = Vec::new();
        let mut source: Vec<u8> = Vec::new();
        for i in 0..N
            invariant
                filled.len() == i,
                source.len() == i,
                forall|v: int| 0 <= v < i ==> !filled@[v],
        {
            filled.push(false);
            source.push(0);
        }
        for k in 0..N
            invariant
                images.len() == N,
                filled.len() == N,
                source.len() == N,
                forall|j: int| 0 <= j < k ==> #[trigger] images@[j] < N,
                forall|j: int|
                    0 <= j < k ==> filled@[#[trigger] images@[j] as int] && source@[images@[j] as int]
                        == j,
                forall|v: int|
                    0 <= v < N && #[trigger] filled@[v] ==> source@[v] < k && images@[source@[v] as int]
                        == v,
        {
            let v = images[k as usize];
            if v >= N {
                return None;
            }
            if filled[v as usize] {
                proof {
                    let j = source@[v as int] as int;
                    assert(images@[j] == images@[k as int] && j != k);
                }
                return None;
            }
            filled.set(v as usize, true);
            source.set(v as usize, k);
        }
        for v in 0..N
            invariant
                images.len() == N,
                filled.len() == N,
                source.len() == N,
                forall|j: int| 0 <= j < N ==> #[trigger] images@[j] < N,
                forall|j: int|
                    0 <= j < N ==> filled@[#[trigger] images@[j] as int] && source@[images@[j] as int]
                        == j,
                forall|w: int|
                    0 <= w < N && #[trigger] filled@[w] ==> source@[w] < N && images@[source@[w] as int]
                        == w,
                forall|w: u8| w < v ==> #[trigger] images@.contains(w),
        {
            if !filled[v as usize] {
                proof {
                    assert(!images@.contains(v)) by {
                        if images@.contains(v) {
                            let j = choose|j: int| 0 <= j < images@.len() && images@[j] == v;
                            assert(filled@[images@[j] as int]);
                        }
                    }
                }
                return None;
            }
            proof {
                assert(images@[source@[v as int] as int] == v);
            }
        }
        proof {
            assert forall|i: int, j: int|
                0 <= i < N && 0 <= j < N && #[trigger] images@[i] == #[trigger] images@[j] implies i
                == j by {
                assert(source@[images@[i] as int] == i);
            }
        }
        Some(PermArray(images.clone()))
    }

    /// The same permutation in sparse form: the indices of `0..N` that it moves,
    /// each with its image.
    pub fn to_sparse(&self) -> (r: PermHashMap)
        requires
            self.wf(),
        ensures
            r.wf(),
            r@ == sparse_of(self@),
    {
        let mut m: HashMap<u8, u8> = HashMap::new();
        for k in 0..N
            invariant
                self@.len() == N,
                forall|x: u8| #[trigger] m@.contains_key(x) <==> x < k && self@[x as int] != x,
                forall|x: u8| #[trigger] m@.contains_key(x) ==> m@[x] == self@[x as int],
        {
            let v = self.0[k as usize];
            if v != k {
                m.insert(k, v);
            }
        }
        let r = PermHashMap(m);
        proof {
            assert(r@ =~= sparse_of(self@));
            lemma_sparse_of(self@, N as nat);
        }
        r
    }
}

/// The sparse permutation, under the name the puzzle front end uses.
pub type Permutation = PermHashMap;

} // verus!
