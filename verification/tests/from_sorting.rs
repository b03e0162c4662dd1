use rand::Rng;

use rusty_perm::Permutation;
use rusty_perm::{DynamicPerm, StaticPerm};

#[test]
fn static_perm_from_array() {
    let mut rng = rand::thread_rng();

    for _ in 0..100 {
        let array: Vec<i64> = {
            let mut array: Vec<i64> = vec![0i64; 1024];
            rng.fill(array.as_mut_slice());
            array
        };

        {
            let sorted: Vec<i64> = {
                let mut array = array.clone();
                array.sort();
                array
            };

            let perm = StaticPerm::<1024>::from_sort(&array).unwrap();
            perm.indices().iter().enumerate().for_each(|(dst, &src)| {
                assert_eq!(sorted[dst], array[src]);
            });
        }

        {
            let sorted: Vec<i64> = {
                let mut array = array.clone();
                array.sort_by(|lhs, rhs| lhs.cmp(rhs));
                array
            };

            let perm =
                StaticPerm::<1024>::from_sort_by(&array, |lhs: i64, rhs: i64| lhs.cmp(&rhs))
                    .unwrap();
            perm.indices().iter().enumerate().for_each(|(dst, &src)| {
                assert_eq!(sorted[dst], array[src]);
            });
        }

        {
            let sorted: Vec<i64> = {
                let mut array = array.clone();
                array.sort_by_key(|value| -value);
                array
            };

            let perm = StaticPerm::<1024>::from_sort_by_key(&array, |value: i64| -value).unwrap();
            perm.indices().iter().enumerate().for_each(|(dst, &src)| {
                assert_eq!(sorted[dst], array[src]);
            });
        }

        {
            let sorted: Vec<i64> = {
                let mut array = array.clone();
                array.sort_by_cached_key(|value| -value);
                array
            };

            let perm = StaticPerm::<1024>::from_sort_by_cached_key(&array, |value: i64| -value)
                .unwrap();
            perm.indices().iter().enumerate().for_each(|(dst, &src)| {
                assert_eq!(sorted[dst], array[src]);
            });
        }
    }
}

#[test]
fn static_perm_from_vec() {
    let mut rng = rand::thread_rng();

    for _ in 0..100 {
        let array: Vec<i64> = {
            let mut array: Vec<i64> = vec![0i64; 1024];
            rng.fill(array.as_mut_slice());
            array
        };

        {
            let sorted: Vec<i64> = {
                let mut array = array.clone();
                array.sort();
                array
            };

            let perm = StaticPerm::<1024>::from_sort(&array).unwrap();
            perm.indices().iter().enumerate().for_each(|(dst, &src)| {
                assert_eq!(sorted[dst], array[src]);
            });
        }

        {
            let sorted: Vec<i64> = {
                let mut array = array.clone();
                array.sort_by(|lhs, rhs| lhs.cmp(rhs));
                array
            };

            let perm =
                StaticPerm::<1024>::from_sort_by(&array, |lhs: i64, rhs: i64| lhs.cmp(&rhs))
                    .unwrap();
            perm.indices().iter().enumerate().for_each(|(dst, &src)| {
                assert_eq!(sorted[dst], array[src]);
            });
        }

        {
            let sorted: Vec<i64> = {
                let mut array = array.clone();
                array.sort_by_key(|value| -value);
                array
            };

            let perm = StaticPerm::<1024>::from_sort_by_key(&array, |value: i64| -value).unwrap();
            perm.indices().iter().enumerate().for_each(|(dst, &src)| {
                assert_eq!(sorted[dst], array[src]);
            });
        }

        {
            let sorted: Vec<i64> = {
                let mut array = array.clone();
                array.sort_by_cached_key(|value| -value);
                array
            };

            let perm = StaticPerm::<1024>::from_sort_by_cached_key(&array, |value: i64| -value)
                .unwrap();
            perm.indices().iter().enumerate().for_each(|(dst, &src)| {
                assert_eq!(sorted[dst], array[src]);
            });
        }
    }
}

#[test]
fn dynamic_perm_from_vec() {
    let mut rng = rand::thread_rng();

    for _ in 0..100 {
        let array: Vec<i64> = {
            let mut array: Vec<i64> = vec![0i64; 1024];
            rng.fill(array.as_mut_slice());
            array
        };

        {
            let sorted: Vec<i64> = {
                let mut array = array.clone();
                array.sort();
                array
            };

            let perm = DynamicPerm::from_sort(&array);
            perm.indices().iter().enumerate().for_each(|(dst, &src)| {
                assert_eq!(sorted[dst], array[src]);
            });
        }

        {
            let sorted: Vec<i64> = {
                let mut array = array.clone();
                array.sort_by(|lhs, rhs| lhs.cmp(rhs));
                array
            };

            let perm = DynamicPerm::from_sort_by(&array, |lhs: i64, rhs: i64| lhs.cmp(&rhs));
            perm.indices().iter().enumerate().for_each(|(dst, &src)| {
                assert_eq!(sorted[dst], array[src]);
            });
        }

        {
            let sorted: Vec<i64> = {
                let mut array = array.clone();
                array.sort_by_key(|value| -value);
                array
            };

            let perm = DynamicPerm::from_sort_by_key(&array, |value: i64| -value);
            perm.indices().iter().enumerate().for_each(|(dst, &src)| {
                assert_eq!(sorted[dst], array[src]);
            });
        }

        {
            let sorted: Vec<i64> = {
                let mut array = array.clone();
                array.sort_by_cached_key(|value| -value);
                array
            };

            let perm = DynamicPerm::from_sort_by_cached_key(&array, |value: i64| -value);
            perm.indices().iter().enumerate().for_each(|(dst, &src)| {
                assert_eq!(sorted[dst], array[src]);
            });
        }
    }
}
