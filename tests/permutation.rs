use twisty::permutation::{PermArray, PermHashMap, Permutation};

fn dense<const N: u8>(images: &[u8]) -> PermArray<N> {
    PermArray::<N>::from_images(&images.to_vec()).expect("a permutation")
}

fn dense_images<const N: u8>(p: &PermArray<N>) -> Vec<u8> {
    (0..N).map(|k| p.permute(k)).collect()
}

fn sparse(images: &[u8]) -> PermHashMap {
    match images.len() {
        3 => dense::<3>(images).to_sparse(),
        4 => dense::<4>(images).to_sparse(),
        5 => dense::<5>(images).to_sparse(),
        6 => dense::<6>(images).to_sparse(),
        _ => panic!("unsupported size"),
    }
}

fn sparse_images(p: &PermHashMap, n: u8) -> Vec<u8> {
    (0..n).map(|k| p.permute(k)).collect()
}

fn is_identity(p: &PermHashMap) -> bool {
    p.len() == 0 && (0..=255u8).all(|k| p.permute(k) == k)
}

fn moved_count(p: &PermHashMap) -> usize {
    (0..=255u8).filter(|k| p.permute(*k) != *k).count()
}

#[test]
fn swap_scenario_dense() {
    let p = dense::<4>(&[1, 0, 2, 3]);
    let q = dense::<4>(&[0, 1, 3, 2]);
    assert_eq!(dense_images(&PermArray::compose(&p, &q)), vec![1, 0, 3, 2]);
    assert_eq!(dense_images(&p.invert()), vec![1, 0, 2, 3]);
    assert_eq!(dense_images(&PermArray::compose(&p, &p.invert())), vec![0, 1, 2, 3]);
}

#[test]
fn swap_scenario_sparse() {
    let p = sparse(&[1, 0, 2, 3]);
    let q = sparse(&[0, 1, 3, 2]);
    assert_eq!(p.len(), 2);
    assert_eq!(q.len(), 2);
    let r = PermHashMap::compose(&p, &q);
    assert_eq!(sparse_images(&r, 4), vec![1, 0, 3, 2]);
    assert_eq!(r.len(), 4);
    assert_eq!(r.permute(4), 4);
    let inv = p.invert();
    assert_eq!(sparse_images(&inv, 4), vec![1, 0, 2, 3]);
    assert_eq!(inv.len(), 2);
    assert!(is_identity(&PermHashMap::compose(&p, &inv)));
}

#[test]
fn three_cycle_scenario_dense() {
    let p = dense::<5>(&[1, 2, 0, 3, 4]);
    let pp = PermArray::compose(&p, &p);
    assert_eq!(dense_images(&pp), vec![2, 0, 1, 3, 4]);
    assert_eq!(dense_images(&PermArray::compose(&p, &pp)), vec![0, 1, 2, 3, 4]);
}

#[test]
fn three_cycle_scenario_sparse() {
    let p = sparse(&[1, 2, 0]);
    let pp = PermHashMap::compose(&p, &p);
    assert_eq!(sparse_images(&pp, 3), vec![2, 0, 1]);
    assert_eq!(pp.len(), 3);
    assert!(is_identity(&PermHashMap::compose(&p, &pp)));
}

#[test]
fn compose_applies_first_argument_first() {
    let p = dense::<3>(&[1, 2, 0]);
    let q = dense::<3>(&[0, 2, 1]);
    assert_eq!(dense_images(&PermArray::compose(&p, &q)), vec![2, 1, 0]);
    assert_eq!(dense_images(&PermArray::compose(&q, &p)), vec![1, 0, 2]);
    let sp = sparse(&[1, 2, 0]);
    let sq = sparse(&[0, 2, 1]);
    assert_eq!(sparse_images(&PermHashMap::compose(&sp, &sq), 3), vec![2, 1, 0]);
    assert_eq!(sparse_images(&PermHashMap::compose(&sq, &sp), 3), vec![1, 0, 2]);
}

#[test]
fn identity_law_dense() {
    let p = dense::<6>(&[3, 5, 0, 1, 4, 2]);
    let id = PermArray::<6>::identity();
    assert_eq!(dense_images(&id), vec![0, 1, 2, 3, 4, 5]);
    assert_eq!(dense_images(&PermArray::compose(&p, &id)), dense_images(&p));
    assert_eq!(dense_images(&PermArray::compose(&id, &p)), dense_images(&p));
}

#[test]
fn identity_law_sparse() {
    let p = sparse(&[3, 5, 0, 1, 4, 2]);
    let id = PermHashMap::identity();
    assert!(is_identity(&id));
    assert_eq!(sparse_images(&PermHashMap::compose(&p, &id), 6), vec![3, 5, 0, 1, 4, 2]);
    assert_eq!(sparse_images(&PermHashMap::compose(&id, &p), 6), vec![3, 5, 0, 1, 4, 2]);
    assert_eq!(PermHashMap::compose(&p, &id).len(), p.len());
    assert!(is_identity(&PermHashMap::compose(&id, &id)));
}

#[test]
fn inverse_law_dense() {
    let p = dense::<6>(&[3, 5, 0, 1, 4, 2]);
    let inv = p.invert();
    assert_eq!(dense_images(&inv), vec![2, 3, 5, 0, 4, 1]);
    assert_eq!(dense_images(&PermArray::compose(&p, &inv)), vec![0, 1, 2, 3, 4, 5]);
    assert_eq!(dense_images(&PermArray::compose(&inv, &p)), vec![0, 1, 2, 3, 4, 5]);
}

#[test]
fn inverse_law_sparse() {
    let p = sparse(&[3, 5, 0, 1, 4, 2]);
    let inv = p.invert();
    assert_eq!(sparse_images(&inv, 6), vec![2, 3, 5, 0, 4, 1]);
    assert!(is_identity(&PermHashMap::compose(&p, &inv)));
    assert!(is_identity(&PermHashMap::compose(&inv, &p)));
    assert!(is_identity(&PermHashMap::identity().invert()));
}

#[test]
fn involution_dense_and_sparse() {
    let p = dense::<6>(&[3, 5, 0, 1, 4, 2]);
    assert_eq!(dense_images(&p.invert().invert()), vec![3, 5, 0, 1, 4, 2]);
    let s = sparse(&[3, 5, 0, 1, 4, 2]);
    let back = s.invert().invert();
    assert_eq!(sparse_images(&back, 6), vec![3, 5, 0, 1, 4, 2]);
    assert_eq!(back.len(), s.len());
}

#[test]
fn associativity_dense() {
    let p = dense::<6>(&[3, 5, 0, 1, 4, 2]);
    let q = dense::<6>(&[1, 0, 2, 5, 3, 4]);
    let r = dense::<6>(&[5, 4, 3, 2, 1, 0]);
    let left = PermArray::compose(&PermArray::compose(&p, &q), &r);
    let right = PermArray::compose(&p, &PermArray::compose(&q, &r));
    assert_eq!(dense_images(&left), dense_images(&right));
    assert_eq!(dense_images(&left), vec![0, 1, 4, 5, 2, 3]);
}

#[test]
fn associativity_sparse() {
    let p = sparse(&[3, 5, 0, 1, 4, 2]);
    let q = sparse(&[1, 0, 2, 5, 3, 4]);
    let r = sparse(&[5, 4, 3, 2, 1, 0]);
    let left = PermHashMap::compose(&PermHashMap::compose(&p, &q), &r);
    let right = PermHashMap::compose(&p, &PermHashMap::compose(&q, &r));
    assert_eq!(sparse_images(&left, 6), vec![0, 1, 4, 5, 2, 3]);
    assert_eq!(sparse_images(&right, 6), vec![0, 1, 4, 5, 2, 3]);
    assert_eq!(left.len(), right.len());
}

#[test]
fn canonical_form_after_each_operation() {
    let p = sparse(&[3, 5, 0, 1, 4, 2]);
    let q = sparse(&[3, 1, 2, 0, 4, 5]);
    assert_eq!(p.len(), moved_count(&p));
    assert_eq!(p.len(), 5);
    let inv = p.invert();
    assert_eq!(inv.len(), moved_count(&inv));
    let pq = PermHashMap::compose(&p, &q);
    assert_eq!(sparse_images(&pq, 6), vec![0, 5, 3, 1, 4, 2]);
    assert_eq!(pq.len(), moved_count(&pq));
    assert_eq!(pq.len(), 4);
    let id = PermHashMap::identity();
    assert_eq!(id.len(), moved_count(&id));
}

#[test]
fn dense_and_sparse_agree() {
    let p = dense::<6>(&[3, 5, 0, 1, 4, 2]);
    let q = dense::<6>(&[1, 0, 2, 5, 3, 4]);
    let sp = p.to_sparse();
    let sq = q.to_sparse();
    for k in 0..6u8 {
        assert_eq!(sp.permute(k), p.permute(k));
    }
    for k in 6..=255u8 {
        assert_eq!(sp.permute(k), k);
    }
    let dense_pq = PermArray::compose(&p, &q);
    let sparse_pq = PermHashMap::compose(&sp, &sq);
    let dense_inv = p.invert();
    let sparse_inv = sp.invert();
    for k in 0..6u8 {
        assert_eq!(sparse_pq.permute(k), dense_pq.permute(k));
        assert_eq!(sparse_inv.permute(k), dense_inv.permute(k));
    }
}

#[test]
fn from_images_rejects_wrong_length() {
    assert!(PermArray::<4>::from_images(&vec![0, 1, 2]).is_none());
    assert!(PermArray::<4>::from_images(&vec![0, 1, 2, 3, 4]).is_none());
}

#[test]
fn from_images_rejects_out_of_range() {
    assert!(PermArray::<4>::from_images(&vec![0, 1, 2, 4]).is_none());
    assert!(PermArray::<3>::from_images(&vec![255, 0, 1]).is_none());
}

#[test]
fn from_images_rejects_repeated_image() {
    assert!(PermArray::<4>::from_images(&vec![0, 1, 1, 3]).is_none());
    assert!(PermArray::<3>::from_images(&vec![2, 2, 2]).is_none());
}

#[test]
fn from_images_accepts_permutation() {
    let p = PermArray::<4>::from_images(&vec![2, 0, 3, 1]).expect("a permutation");
    assert_eq!(dense_images(&p), vec![2, 0, 3, 1]);
    assert!(PermArray::<0>::from_images(&vec![]).is_some());
}

#[test]
fn to_sparse_stores_moved_indices_only() {
    let p = dense::<5>(&[0, 3, 2, 1, 4]);
    let s = p.to_sparse();
    assert_eq!(s.len(), 2);
    assert_eq!(sparse_images(&s, 5), vec![0, 3, 2, 1, 4]);
    assert_eq!(PermArray::<5>::identity().to_sparse().len(), 0);
}

#[test]
fn empty_domain() {
    let id = PermArray::<0>::identity();
    assert!(dense_images(&id).is_empty());
    assert!(dense_images(&PermArray::compose(&id, &id.invert())).is_empty());
    assert_eq!(id.to_sparse().len(), 0);
}

#[test]
fn largest_domain() {
    let id = PermArray::<255>::identity();
    assert_eq!(id.permute(254), 254);
    let images: Vec<u8> = (0..255u8).map(|k| (k + 1) % 255).collect();
    let p = PermArray::<255>::from_images(&images).expect("a rotation");
    let inv = p.invert();
    assert_eq!(inv.permute(0), 254);
    assert_eq!(inv.permute(254), 253);
    let back = PermArray::compose(&p, &inv);
    assert!((0..255u8).all(|k| back.permute(k) == k));
    let s = p.to_sparse();
    assert_eq!(s.len(), 255);
    assert_eq!(s.permute(254), 0);
    assert_eq!(s.permute(255), 255);
    assert!(is_identity(&PermHashMap::compose(&s, &s.invert())));
}

#[test]
fn sparse_moves_index_255() {
    let p = dense::<4>(&[1, 0, 2, 3]).to_sparse();
    let moved = PermHashMap::compose(&p, &p.invert());
    assert_eq!(moved.permute(255), 255);
    let alias: Permutation = PermHashMap::identity();
    assert_eq!(alias.permute(7), 7);
}
