use binary_index_tree::index::{increment, increment_lsb, remove, remove_lsb};

fn ascending(i: usize, limit: usize) -> Vec<usize> {
    assert!(i >= 1);
    assert!(i <= limit);
    assert!(limit <= (usize::MAX >> 1));
    increment_lsb(i, limit)
}

#[test]
fn removal_test() {
    let input: usize = 0b1101110101011010000;
    let res: Vec<usize> = vec![
        0b1101110101011010000,
        0b1101110101011000000,
        0b1101110101010000000,
        0b1101110101000000000,
        0b1101110100000000000,
        0b1101110000000000000,
        0b1101100000000000000,
        0b1101000000000000000,
        0b1100000000000000000,
        0b1000000000000000000,
    ];

    assert_eq!(res, remove_lsb(input));
}

#[test]
fn increment_test() {
    let input: usize = 0b001101110101011010000;
    let limit: usize = 0b100000000000000000000;
    let res: Vec<usize> = vec![
        0b001101110101011010000,
        0b001101110101011100000,
        0b001101110101100000000,
        0b001101110110000000000,
        0b001101111000000000000,
        0b001110000000000000000,
        0b010000000000000000000,
    ];

    assert_eq!(res, increment_lsb(input, limit))
}

#[test]
fn remove_clears_the_lowest_set_bit() {
    assert_eq!(remove(0), 0);
    assert_eq!(remove(1), 0);
    assert_eq!(remove(6), 4);
    assert_eq!(remove(7), 6);
    assert_eq!(remove(8), 0);
    assert_eq!(remove(12), 8);
    assert_eq!(remove(0b1011000), 0b1010000);
    assert_eq!(remove(usize::MAX), usize::MAX - 1);
    for i in 1..2000usize {
        assert_eq!(remove(i), i & (i - 1));
    }
}

#[test]
fn increment_adds_the_lowest_set_bit() {
    assert_eq!(increment(1), 2);
    assert_eq!(increment(2), 4);
    assert_eq!(increment(3), 4);
    assert_eq!(increment(5), 6);
    assert_eq!(increment(6), 8);
    assert_eq!(increment(12), 16);
    assert_eq!(increment(0b1011000), 0b1100000);
    for i in 1..2000usize {
        assert_eq!(increment(i), (i | (i - 1)) + 1);
    }
}

#[test]
fn increment_wraps_to_zero_past_the_word() {
    assert_eq!(increment(0), 0);
    assert_eq!(increment(usize::MAX), 0);
    assert_eq!(increment(1 << (usize::BITS - 1)), 0);
    assert_eq!(increment(usize::MAX >> 1), 1 << (usize::BITS - 1));
}

#[test]
fn descending_walk_from_zero_is_empty() {
    assert_eq!(remove_lsb(0), Vec::<usize>::new());
}

#[test]
fn descending_walk_from_one() {
    assert_eq!(remove_lsb(1), vec![1]);
}

#[test]
fn descending_walk_falls_to_zero() {
    for i in 1..1500usize {
        let walk = remove_lsb(i);
        assert!(!walk.is_empty());
        assert_eq!(walk[0], i);
        for pair in walk.windows(2) {
            assert!(pair[0] > pair[1]);
            assert_eq!(pair[1], remove(pair[0]));
        }
        assert!(walk.iter().all(|&p| p >= 1));
        assert_eq!(remove(*walk.last().unwrap()), 0);
        assert_eq!(walk.len(), i.count_ones() as usize);
    }
}

#[test]
fn ascending_walk_stays_below_the_limit() {
    for limit in 2..200usize {
        for i in 1..limit {
            let walk = ascending(i, limit);
            assert_eq!(walk[0], i);
            for pair in walk.windows(2) {
                assert!(pair[0] < pair[1]);
                assert_eq!(pair[1], increment(pair[0]));
            }
            assert!(walk.iter().all(|&p| p < limit));
            assert!(increment(*walk.last().unwrap()) >= limit);
        }
    }
}

#[test]
fn ascending_walk_from_the_limit_yields_it_alone() {
    assert_eq!(ascending(16, 16), vec![16]);
    assert_eq!(ascending(1, 1), vec![1]);
    assert_eq!(ascending(5, 5), vec![5]);
}

#[test]
fn ascending_walk_small_cases() {
    assert_eq!(ascending(1, 2), vec![1]);
    assert_eq!(ascending(1, 6), vec![1, 2, 4]);
    assert_eq!(ascending(3, 6), vec![3, 4]);
    assert_eq!(ascending(5, 6), vec![5]);
    assert_eq!(ascending(1, 9), vec![1, 2, 4, 8]);
    assert_eq!(ascending(5, 17), vec![5, 6, 8, 16]);
}

#[test]
fn ascending_walk_at_the_largest_limit() {
    let limit = usize::MAX >> 1;
    let top = 1usize << (usize::BITS - 2);
    assert_eq!(ascending(top, limit), vec![top]);
    assert_eq!(ascending(limit, limit), vec![limit]);
    assert_eq!(ascending(top - 1, limit), vec![top - 1, top]);
}

#[test]
fn ascending_walk_visits_the_slots_that_cover_its_origin() {
    let limit = 130usize;
    for p in 1..limit {
        let walk = ascending(p, limit);
        for j in 1..limit {
            let lowest = j - remove(j);
            let covers = j - lowest < p && p <= j;
            assert_eq!(covers, walk.contains(&j));
        }
    }
}
