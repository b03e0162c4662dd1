use std::collections::HashSet;

use rand::seq::SliceRandom;
use rand::Rng;

use rusty_perm::Permutation;
use rusty_perm::{u32_leading_bit, PermD, PermS};

#[test]
fn static_inverse() {
    {
        let mut rng = rand::thread_rng();

        let mut indices: Vec<usize> = (0..1024).collect();
        indices.shuffle(&mut rng);
        let perm = PermS::<1024>::from_indices(indices).unwrap();
        let inverse = perm.inverse();

        let mut orig: Vec<usize> = vec![0usize; 1024];
        rng.fill(orig.as_mut_slice());

        let mut new: Vec<usize> = orig.clone();
        perm.apply(&mut new).unwrap();
        inverse.apply(&mut new).unwrap();

        assert_eq!(orig, new);
    }

    {
        assert_eq!(PermS::<1024>::cycle().inverse(), PermS::<1024>::reverse_cycle());
    }
}

#[test]
fn dynamic_inverse() {
    {
        let mut rng = rand::thread_rng();

        let mut indices: Vec<usize> = (0..1024).collect();
        indices.shuffle(&mut rng);
        let perm = PermD::from_indices(indices).unwrap();
        let inverse = perm.inverse();

        let mut orig: Vec<usize> = vec![0usize; 1024];
        rng.fill(orig.as_mut_slice());

        let mut new: Vec<usize> = orig.clone();
        perm.apply(&mut new).unwrap();
        inverse.apply(&mut new).unwrap();

        assert_eq!(orig, new);
    }

    {
        assert_eq!(PermD::cycle(1024).inverse(), PermD::reverse_cycle(1024));
    }
}

#[test]
fn dynamic_pow() {
    let cycle = PermD::cycle(6);
    assert_eq!(cycle.pow(5), PermD::reverse_cycle(6));
    assert_eq!(cycle.pow(6), PermD::identity(6));

    let set: HashSet<_> = (0..6).map(|exp| cycle.pow(exp)).collect();
    assert_eq!(set.len(), 6);
}

#[test]
fn static_pow() {
    let cycle = PermS::<6>::cycle();
    assert_eq!(cycle.pow(5), PermS::<6>::reverse_cycle());
    assert_eq!(cycle.pow(6), PermS::<6>::identity());

    let set: HashSet<_> = (0..6).map(|exp| cycle.pow(exp)).collect();
    assert_eq!(set.len(), 6);
}

#[test]
fn u32_leading_bit_test() {
    assert_eq!(u32_leading_bit(0b1), 0b1);
    assert_eq!(u32_leading_bit(0b10), 0b10);
    assert_eq!(u32_leading_bit(0b11), 0b10);
    assert_eq!(u32_leading_bit(0b100111), 0b100000);
    assert_eq!(
        u32_leading_bit(0b_11111111_11111111_11111111_11111111),
        0b_10000000_00000000_00000000_00000000
    );
}
