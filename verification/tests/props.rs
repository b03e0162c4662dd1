use rusty_perm::Permutation;
use rusty_perm::{check_indices, Perm1, Perm2, PermD, PermError, PermS};

#[test]
fn apply_direction_literal() {
    let perm = PermD::from_indices(vec![2, 0, 1]).unwrap();
    let mut array: Vec<i64> = vec![-9, -5, 3];
    perm.apply(&mut array).unwrap();
    assert_eq!(array, vec![3, -9, -5]);
}

#[test]
fn sort_derivation_replay() {
    let perm = PermD::from_sort(&vec![9i64, 6, -1, 4]);
    let mut other: Vec<i64> = vec![1, 2, 3, 4];
    perm.apply(&mut other).unwrap();
    assert_eq!(other, vec![3, 4, 2, 1]);

    let mut data: Vec<i64> = vec![9, 6, -1, 4];
    perm.apply(&mut data).unwrap();
    assert_eq!(data, vec![-1, 4, 6, 9]);
}

#[test]
fn compose_is_bijection() {
    let p = PermD::from_indices(vec![2, 0, 1]).unwrap();
    let q = PermD::from_indices(vec![1, 2, 0]).unwrap();
    let r = p.perm_product(&q).unwrap();
    assert!(check_indices(r.indices()));
}

#[test]
fn inverse_round_trip() {
    let p = PermD::from_indices(vec![3, 1, 0, 2]).unwrap();
    let c = p.inverse().perm_product(&p).unwrap();
    let mut s: Vec<i64> = vec![10, 20, 30, 40];
    c.apply(&mut s).unwrap();
    assert_eq!(s, vec![10, 20, 30, 40]);
    assert_eq!(c, PermD::identity(4));
}

#[test]
fn identity_laws() {
    let mut s: Vec<i64> = vec![5, 7, 5, -2];
    PermD::identity(4).apply(&mut s).unwrap();
    assert_eq!(s, vec![5, 7, 5, -2]);
    assert_eq!(PermD::identity(9).inverse(), PermD::identity(9));
}

#[test]
fn cycle_power_law() {
    let c = PermD::cycle(9);
    assert_eq!(c.pow(9), PermD::identity(9));
    assert_eq!(c.pow(8), c.inverse());
    assert_eq!(c.pow(8), PermD::reverse_cycle(9));
    assert_eq!(c.pow(0), PermD::identity(9));
}

#[test]
fn validator_rejections() {
    assert_eq!(
        PermD::from_indices(vec![0, 0, 2]).unwrap_err(),
        PermError::InvalidPermutation
    );
    assert_eq!(
        PermD::from_indices(vec![0, 3]).unwrap_err(),
        PermError::InvalidPermutation
    );
    assert!(PermD::from_indices(vec![1, 0]).is_ok());
    assert_eq!(
        PermS::<3>::from_indices(vec![0, 1]).unwrap_err(),
        PermError::InvalidPermutation
    );
}

#[test]
fn length_mismatch_errors() {
    let p = PermD::identity(3);
    let mut s: Vec<i64> = vec![1, 2];
    assert_eq!(p.apply(&mut s).unwrap_err(), PermError::LengthMismatch);
    assert_eq!(s, vec![1, 2]);

    let q = PermD::identity(4);
    assert_eq!(p.perm_product(&q).unwrap_err(), PermError::LengthMismatch);
    assert_eq!(
        PermS::<3>::from_sort(&vec![1i64, 2]).unwrap_err(),
        PermError::LengthMismatch
    );
}

#[test]
fn unrepresentable_conversion() {
    let p = PermD::identity(3);
    assert_eq!(p.into_static::<4>().unwrap_err(), PermError::Unrepresentable);

    let q = PermD::from_indices(vec![1, 0]).unwrap();
    let s = q.into_static::<2>().unwrap();
    assert_eq!(s, Perm2::swap2());
    assert_eq!(s.into_dynamic(), PermD::from_indices(vec![1, 0]).unwrap());
}

#[test]
fn resize_rules() {
    let p = PermD::from_indices(vec![1, 0, 2, 3]).unwrap();
    let shrunk = p.to_size(2).unwrap();
    assert_eq!(shrunk, PermD::from_indices(vec![1, 0]).unwrap());

    let q = PermD::from_indices(vec![2, 0, 1]).unwrap();
    assert!(q.to_size(2).is_none());
    let grown = q.to_size(5).unwrap();
    assert_eq!(grown, PermD::from_indices(vec![2, 0, 1, 3, 4]).unwrap());

    let r = PermS::<3>::from_indices(vec![1, 0, 2]).unwrap();
    let wide: PermS<5> = r.to_size::<5>().unwrap();
    assert_eq!(wide.indices(), &[1, 0, 2, 3, 4]);
}

#[test]
fn stable_ties_from_sort() {
    let data: Vec<i64> = vec![5, 1, 5, 1];
    let perm = PermD::from_sort(&data);
    assert_eq!(perm.indices(), &[1, 3, 0, 2]);

    let mut tags: Vec<i64> = vec![10, 11, 12, 13];
    perm.apply(&mut tags).unwrap();
    assert_eq!(tags, vec![11, 13, 10, 12]);
}

#[test]
fn empty_and_unit_permutations() {
    let p = PermD::empty();
    assert_eq!(p.len(), 0);
    let mut s: Vec<i64> = vec![];
    p.apply(&mut s).unwrap();
    assert_eq!(s, Vec::<i64>::new());

    assert_eq!(PermD::from_sort(&Vec::<i64>::new()).len(), 0);
    assert_eq!(PermD::unit().indices(), &[0]);
    assert_eq!(Perm1::unit().indices(), &[0]);
    assert_eq!(Perm2::swap2().indices(), &[1, 0]);
}

#[test]
fn cross_discipline_equality_and_product() {
    let s = PermS::<3>::from_indices(vec![2, 0, 1]).unwrap();
    let d = PermD::from_indices(vec![2, 0, 1]).unwrap();
    assert!(s == d);
    assert!(d == s);

    let prod = s.perm_product_dyn(&d).unwrap();
    let prod2 = d.perm_product_static(&s).unwrap();
    assert_eq!(prod, prod2);

    let wrong = PermD::identity(4);
    assert_eq!(s.perm_product_dyn(&wrong).unwrap_err(), PermError::LengthMismatch);
}

#[test]
fn swap_rejections() {
    assert!(PermD::swap(5, 5, 3).is_none());
    assert!(PermD::swap(5, 1, 7).is_none());
    assert!(PermS::<4>::swap(2, 2).is_none());
}

#[test]
fn sort_free_functions() {
    let vec_data: Vec<i64> = vec![30, 10, 20];

    let mut order: Vec<usize> = vec![0, 1, 2];
    rusty_perm::sort(&mut order, &vec_data);
    assert_eq!(order, vec![1, 2, 0]);

    let mut order2: Vec<usize> = vec![0, 1, 2];
    rusty_perm::sort_by(&mut order2, &vec_data, |a: i64, b: i64| b.cmp(&a));
    assert_eq!(order2, vec![0, 2, 1]);

    let mut order3: Vec<usize> = vec![0, 1, 2];
    rusty_perm::sort_by_key(&mut order3, &vec_data, |v: i64| -v);
    assert_eq!(order3, vec![0, 2, 1]);

    let mut order4: Vec<usize> = vec![0, 1, 2];
    rusty_perm::sort_by_cached_key(&mut order4, &vec_data, |v: i64| -v);
    assert_eq!(order4, vec![0, 2, 1]);
}

#[test]
fn conjugation_matches_products() {
    let a = PermD::from_indices(vec![1, 2, 0]).unwrap();
    let b = PermD::from_indices(vec![2, 1, 0]).unwrap();
    let lhs = a.conjugate_with(&b).unwrap();
    let rhs = b
        .inverse()
        .perm_product(&a)
        .unwrap()
        .perm_product(&b)
        .unwrap();
    assert_eq!(lhs, rhs);
    assert!(check_indices(lhs.indices()));
}
