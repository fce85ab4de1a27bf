use binary_index_tree::tree::{BinaryIndexTree, OutOfBounds};
use rand::{thread_rng, Rng};

fn prefix_sum(nums: &[i32]) -> Vec<i32> {
    Some(0)
        .iter()
        .chain(nums.iter().map(|x| *x).collect::<Vec<i32>>().iter())
        .scan(0, |state, x| {
            *state += x;
            Some(*state)
        })
        .collect::<Vec<i32>>()
}

fn prefixes(tree: &BinaryIndexTree<i32>) -> Vec<i32> {
    (0..tree.len() + 1).map(|x| tree.query(x).unwrap()).collect()
}

#[test]
fn test() {
    let mut rng = thread_rng();
    let nums: Vec<i32> = (0..10).map(|_| rng.gen_range(0..10)).collect();
    let mut tree = BinaryIndexTree::from(&nums);
    let mut prefix = prefix_sum(&nums);

    assert_eq!(
        prefix,
        (0..tree.len() + 1)
            .into_iter()
            .map(|x| tree.query(x).unwrap())
            .collect::<Vec<i32>>()
    );

    let new_value: i32 = rng.gen_range(0..10);
    let insertion_index: usize = rng.gen_range(0..10);

    for i in insertion_index..nums.len() {
        prefix[i + 1] -= nums[insertion_index];
        prefix[i + 1] += new_value;
    }
    tree.update_to(insertion_index, new_value).unwrap();

    assert_eq!(
        prefix,
        (0..tree.len() + 1)
            .into_iter()
            .map(|x| tree.query(x).unwrap())
            .collect::<Vec<i32>>()
    );
}

#[test]
fn five_elements_scenario() {
    let mut tree = BinaryIndexTree::from(&[3i32, 1, 4, 1, 5]);
    assert_eq!(tree.len(), 5);
    assert_eq!(tree.query(0), Ok(0));
    assert_eq!(tree.query(1), Ok(3));
    assert_eq!(tree.query(2), Ok(4));
    assert_eq!(tree.query(3), Ok(8));
    assert_eq!(tree.query(4), Ok(9));
    assert_eq!(tree.query(5), Ok(14));

    assert_eq!(tree.update(2, 10), Ok(()));
    assert_eq!(tree.query(5), Ok(24));
    assert_eq!(tree.query(2), Ok(4));
    assert_eq!(tree.query(3), Ok(18));
    assert_eq!(tree.range(1, 3), Ok(16));
    assert_eq!(tree.range(2, 2), Ok(14));
    assert_eq!(tree.range(0, 4), Ok(24));
}

#[test]
fn new_tree_holds_zeros() {
    let tree: BinaryIndexTree<i64> = BinaryIndexTree::new(7);
    assert_eq!(tree.len(), 7);
    for k in 0..8 {
        assert_eq!(tree.query(k), Ok(0));
    }
    assert_eq!(tree.range(0, 6), Ok(0));
}

#[test]
fn empty_tree() {
    let mut tree: BinaryIndexTree<u32> = BinaryIndexTree::new(0);
    assert_eq!(tree.len(), 0);
    assert_eq!(tree.query(0), Ok(0));
    assert_eq!(tree.query(1), Err(OutOfBounds { index: 1, len: 0 }));
    assert_eq!(tree.update(0, 1), Err(OutOfBounds { index: 0, len: 0 }));
    assert_eq!(tree.update_to(0, 1), Err(OutOfBounds { index: 0, len: 0 }));
    assert_eq!(tree.range(0, 0), Err(OutOfBounds { index: 0, len: 0 }));

    let built: BinaryIndexTree<u32> = BinaryIndexTree::from(&[]);
    assert_eq!(built.len(), 0);
    assert_eq!(built.query(0), Ok(0));
}

#[test]
fn from_gives_every_prefix_sum() {
    for n in 0..40usize {
        let values: Vec<i32> = (0..n).map(|i| (i as i32) * 7 - 50).collect();
        let tree = BinaryIndexTree::from(&values);
        assert_eq!(tree.len(), n);
        assert_eq!(prefixes(&tree), prefix_sum(&values));
    }
}

#[test]
fn updates_in_any_order_build_the_same_tree() {
    let values: Vec<i32> = vec![5, -3, 8, 0, 2, 9, -7, 4, 1, 6, 11];
    let built = BinaryIndexTree::from(&values);

    let orders: Vec<Vec<usize>> = vec![
        (0..values.len()).collect(),
        (0..values.len()).rev().collect(),
        vec![5, 0, 10, 3, 8, 1, 6, 2, 9, 4, 7],
        vec![10, 8, 6, 4, 2, 0, 1, 3, 5, 7, 9],
    ];
    for order in orders {
        let mut tree: BinaryIndexTree<i32> = BinaryIndexTree::new(values.len());
        for &i in &order {
            assert_eq!(tree.update(i, values[i]), Ok(()));
        }
        assert_eq!(prefixes(&tree), prefixes(&built));
        assert_eq!(prefixes(&tree), prefix_sum(&values));
    }
}

#[test]
fn two_updates_commute() {
    let values: Vec<i32> = vec![1, 2, 3, 4, 5, 6];
    for i in 0..values.len() {
        for j in 0..values.len() {
            let mut first = BinaryIndexTree::from(&values);
            first.update(i, 10).unwrap();
            first.update(j, -4).unwrap();
            let mut second = BinaryIndexTree::from(&values);
            second.update(j, -4).unwrap();
            second.update(i, 10).unwrap();
            assert_eq!(prefixes(&first), prefixes(&second));
        }
    }
}

#[test]
fn update_adds_to_one_element() {
    let mut values: Vec<i32> = vec![4, 0, -2, 7, 7, 1, 3, 9];
    let mut tree = BinaryIndexTree::from(&values);
    for (step, index) in [3usize, 0, 7, 3, 5, 1].iter().enumerate() {
        let delta = 2 * (step as i32) - 3;
        assert_eq!(tree.update(*index, delta), Ok(()));
        values[*index] += delta;
        assert_eq!(prefixes(&tree), prefix_sum(&values));
    }
}

#[test]
fn update_to_sets_one_element() {
    let mut values: Vec<i32> = vec![4, 0, -2, 7, 7, 1, 3, 9, 12];
    let mut tree = BinaryIndexTree::from(&values);
    for index in 0..values.len() {
        let value = 100 - 9 * (index as i32);
        assert_eq!(tree.update_to(index, value), Ok(()));
        values[index] = value;
        let element = tree.query(index + 1).unwrap() - tree.query(index).unwrap();
        assert_eq!(element, value);
        assert_eq!(prefixes(&tree), prefix_sum(&values));
    }
}

#[test]
fn update_to_the_same_value_changes_nothing() {
    let values: Vec<i32> = vec![3, 1, 4, 1, 5];
    let mut tree = BinaryIndexTree::from(&values);
    tree.update_to(3, 1).unwrap();
    assert_eq!(prefixes(&tree), prefix_sum(&values));
}

#[test]
fn range_is_a_difference_of_queries_and_the_direct_sum() {
    let values: Vec<i32> = vec![9, -1, 0, 3, 3, 8, -6, 2, 5, 1];
    let tree = BinaryIndexTree::from(&values);
    for l in 0..values.len() {
        for r in l..values.len() {
            let direct: i32 = values[l..=r].iter().sum();
            assert_eq!(tree.range(l, r), Ok(direct));
            assert_eq!(
                tree.range(l, r).unwrap(),
                tree.query(r + 1).unwrap() - tree.query(l).unwrap()
            );
        }
    }
}

#[test]
fn range_of_one_element() {
    let tree = BinaryIndexTree::from(&[3i32, 1, 4, 1, 5]);
    assert_eq!(tree.range(0, 0), Ok(3));
    assert_eq!(tree.range(2, 2), Ok(4));
    assert_eq!(tree.range(4, 4), Ok(5));
}

#[test]
fn empty_range_is_zero() {
    let tree = BinaryIndexTree::from(&[3i32, 1, 4, 1, 5]);
    assert_eq!(tree.range(1, 0), Ok(0));
    assert_eq!(tree.range(3, 2), Ok(0));
    assert_eq!(tree.range(5, 4), Ok(0));
}

#[test]
fn out_of_range_indices_are_refused() {
    let mut tree = BinaryIndexTree::from(&[3i32, 1, 4, 1, 5]);
    assert_eq!(tree.query(5), Ok(14));
    assert_eq!(tree.query(6), Err(OutOfBounds { index: 6, len: 5 }));
    assert_eq!(tree.query(usize::MAX), Err(OutOfBounds { index: usize::MAX, len: 5 }));
    assert_eq!(tree.update(5, 1), Err(OutOfBounds { index: 5, len: 5 }));
    assert_eq!(tree.update(usize::MAX, 1), Err(OutOfBounds { index: usize::MAX, len: 5 }));
    assert_eq!(tree.update_to(5, 1), Err(OutOfBounds { index: 5, len: 5 }));
    assert_eq!(tree.update_to(17, 1), Err(OutOfBounds { index: 17, len: 5 }));
    assert_eq!(tree.range(2, 5), Err(OutOfBounds { index: 5, len: 5 }));
    assert_eq!(tree.range(0, usize::MAX - 1), Err(OutOfBounds { index: usize::MAX - 1, len: 5 }));
    assert_eq!(prefixes(&tree), vec![0, 3, 4, 8, 9, 14]);
}

#[test]
fn sums_wrap_around() {
    let mut tree = BinaryIndexTree::from(&[i32::MAX, 1, -1]);
    assert_eq!(tree.query(1), Ok(i32::MAX));
    assert_eq!(tree.query(2), Ok(i32::MIN));
    assert_eq!(tree.query(3), Ok(i32::MAX));
    assert_eq!(tree.range(1, 2), Ok(0));
    assert_eq!(tree.update(0, 1), Ok(()));
    assert_eq!(tree.query(1), Ok(i32::MIN));
    assert_eq!(tree.query(3), Ok(i32::MIN));
}

#[test]
fn a_sum_that_fits_is_exact_though_partial_sums_wrap() {
    let tree = BinaryIndexTree::from(&[i32::MAX, i32::MAX, -5, i32::MIN, i32::MIN]);
    assert_eq!(tree.query(4), Ok(i32::MAX - 6));
    assert_eq!(tree.query(5), Ok(-7));
    assert_eq!(tree.range(1, 3), Ok(-6));
}

#[test]
fn a_sum_that_does_not_fit_is_reduced() {
    let tree = BinaryIndexTree::from(&[i32::MAX, i32::MAX, -5, i32::MIN, i32::MIN]);
    assert_eq!(tree.query(2), Ok(-2));
    assert_eq!(tree.range(3, 4), Ok(0));

    let bytes = BinaryIndexTree::from(&[200u8, 200, 200, 200]);
    assert_eq!(bytes.query(1), Ok(200));
    assert_eq!(bytes.query(2), Ok(144));
    assert_eq!(bytes.query(4), Ok(32));
}

#[test]
fn unsigned_elements_can_go_down() {
    let mut tree = BinaryIndexTree::from(&[10u32, 20, 30, 40]);
    assert_eq!(tree.update_to(1, 5), Ok(()));
    assert_eq!(tree.query(2), Ok(15));
    assert_eq!(tree.query(4), Ok(85));
    assert_eq!(tree.range(1, 1), Ok(5));
    assert_eq!(tree.update_to(3, 0), Ok(()));
    assert_eq!(tree.query(4), Ok(45));
}

#[test]
fn every_integer_type_is_a_value() {
    assert_eq!(BinaryIndexTree::from(&[1u8, 2, 3]).query(3), Ok(6));
    assert_eq!(BinaryIndexTree::from(&[200u8, 100]).query(2), Ok(44));
    assert_eq!(BinaryIndexTree::from(&[1u16, 2, 3]).query(3), Ok(6));
    assert_eq!(BinaryIndexTree::from(&[1u32, 2, 3]).query(3), Ok(6));
    assert_eq!(BinaryIndexTree::from(&[1u64, 2, 3]).query(3), Ok(6));
    assert_eq!(BinaryIndexTree::from(&[1u128, 2, 3]).query(3), Ok(6));
    assert_eq!(BinaryIndexTree::from(&[1usize, 2, 3]).query(3), Ok(6));
    assert_eq!(BinaryIndexTree::from(&[1i8, -2, 3]).query(3), Ok(2));
    assert_eq!(BinaryIndexTree::from(&[100i8, 100]).query(2), Ok(-56));
    assert_eq!(BinaryIndexTree::from(&[1i16, -2, 3]).query(3), Ok(2));
    assert_eq!(BinaryIndexTree::from(&[1i32, -2, 3]).query(3), Ok(2));
    assert_eq!(BinaryIndexTree::from(&[1i64, -2, 3]).query(3), Ok(2));
    assert_eq!(BinaryIndexTree::from(&[1i128, -2, 3]).query(3), Ok(2));
    assert_eq!(BinaryIndexTree::from(&[1isize, -2, 3]).query(3), Ok(2));
}

#[test]
fn random_updates_agree_with_a_plain_array() {
    let mut rng = thread_rng();
    for _ in 0..20 {
        let n: usize = rng.gen_range(1..70);
        let mut values: Vec<i64> = (0..n).map(|_| rng.gen_range(-1000..1000)).collect();
        let mut tree = BinaryIndexTree::from(&values);
        for _ in 0..50 {
            let index: usize = rng.gen_range(0..n);
            let amount: i64 = rng.gen_range(-1000..1000);
            if rng.gen_range(0..2) == 0 {
                tree.update(index, amount).unwrap();
                values[index] += amount;
            } else {
                tree.update_to(index, amount).unwrap();
                values[index] = amount;
            }
            let l: usize = rng.gen_range(0..n);
            let r: usize = rng.gen_range(l..n);
            assert_eq!(tree.range(l, r), Ok(values[l..=r].iter().sum()));
            let k: usize = rng.gen_range(0..n + 1);
            assert_eq!(tree.query(k), Ok(values[..k].iter().sum()));
        }
    }
}
