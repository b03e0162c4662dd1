use rand::Rng;

use rusty_perm::Permutation;
use rusty_perm::{PermD, PermS};

#[test]
fn static_identity() {
    let perm = PermS::<2014>::identity();

    let mut rng = rand::thread_rng();
    let mut orig: Vec<usize> = vec![0usize; 2014];
    rng.fill(orig.as_mut_slice());

    let mut new: Vec<usize> = orig.clone();
    perm.apply(&mut new).unwrap();

    assert_eq!(orig, new);
}

#[test]
fn static_swap() {
    let perm = PermS::<6>::swap(5, 3).unwrap();
    assert_eq!(perm.indices(), &[0, 1, 2, 5, 4, 3]);
}

#[test]
fn static_permute_indices() {
    let index_map = PermS::<6>::from_indices(vec![3, 5, 0, 1, 2, 4]).unwrap();
    let orig = PermS::<6>::swap(5, 3).unwrap();
    let new = orig.permute_indices(&index_map);
    assert_eq!(new, PermS::<6>::swap(0, 1).unwrap());
}

#[test]
fn dynamic_identity() {
    let perm = PermD::identity(2014);

    let mut rng = rand::thread_rng();
    let mut orig: Vec<usize> = vec![0usize; 2014];
    rng.fill(orig.as_mut_slice());

    let mut new: Vec<usize> = orig.clone();
    perm.apply(&mut new).unwrap();

    assert_eq!(orig, new);
}

#[test]
fn dynamic_swap() {
    let perm = PermD::swap(6, 5, 3).unwrap();
    assert_eq!(perm.indices(), &[0, 1, 2, 5, 4, 3]);
}

#[test]
fn dynamic_permute_indices() {
    let index_map = PermD::from_indices(vec![3, 5, 0, 1, 2, 4]).unwrap();
    let orig = PermD::swap(6, 5, 3).unwrap();
    let new = orig.permute_indices(&index_map).unwrap();
    assert_eq!(new, PermD::swap(6, 0, 1).unwrap());
}
