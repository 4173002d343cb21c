use ns2_stat::error::Error;
use ns2_stat::stat::Stat;
use ns2_stat::teams::{
    assignment_of, balanced_partitioning, count_masks, has_even_sizes, imbalance_of, is_in_b,
    signed_sum_of, Rated, Scoring, TeamAssignment, MAX_ROSTER,
};

fn same(score: i64) -> Stat<i64> {
    Stat { total: score, marines: score, aliens: score }
}

fn roster(scores: &[i64]) -> Vec<Rated> {
    scores.iter().enumerate().map(|(i, s)| (i as i64, same(*s))).collect()
}

fn masks(list: &[TeamAssignment]) -> Vec<u32> {
    list.iter().map(|a| a.mask).collect()
}

#[test]
fn two_and_two_that_cancel_are_suggested_first() {
    let players = roster(&[10, 10, -10, -10]);
    let list = balanced_partitioning(&players, Scoring::Symmetric, 10).unwrap();
    assert_eq!(masks(&list), vec![0b0101, 0b0110, 0b0011]);
    let top = &list[0];
    assert_eq!(top.imbalance, 0);
    assert_eq!(top.group_a, vec![1, 3]);
    assert_eq!(top.group_b, vec![0, 2]);
    assert_eq!(list[1].imbalance, 0);
    assert_eq!(list[1].group_a, vec![0, 3]);
    assert_eq!(list[1].group_b, vec![1, 2]);
    assert_eq!(list[2].imbalance, 40);
    assert_eq!(list[2].group_a, vec![2, 3]);
    assert_eq!(list[2].group_b, vec![0, 1]);
}

#[test]
fn no_more_are_suggested_than_asked_for() {
    let players = roster(&[10, 10, -10, -10]);
    let two = balanced_partitioning(&players, Scoring::Symmetric, 2).unwrap();
    assert_eq!(masks(&two), vec![0b0101, 0b0110]);
    let one = balanced_partitioning(&players, Scoring::Symmetric, 1).unwrap();
    assert_eq!(masks(&one), vec![0b0101]);
    let none = balanced_partitioning(&players, Scoring::Symmetric, 0).unwrap();
    assert!(none.is_empty());
}

#[test]
fn the_groups_differ_in_size_by_one_at_most() {
    let players = roster(&[5, 1, 9, 2, 7, 3, 8]);
    let list = balanced_partitioning(&players, Scoring::Symmetric, 1000).unwrap();
    assert_eq!(list.len(), 35);
    for a in list.iter() {
        let difference = a.group_a.len() as i64 - a.group_b.len() as i64;
        assert!(difference.abs() <= 1);
        assert_eq!(a.group_a.len() + a.group_b.len(), 7);
        assert_eq!(*a.group_a.last().unwrap(), 6);
    }
    for pair in list.windows(2) {
        assert!(
            pair[0].imbalance < pair[1].imbalance
                || (pair[0].imbalance == pair[1].imbalance && pair[0].mask < pair[1].mask)
        );
    }
    assert_eq!(list[0].imbalance, 1);
}

#[test]
fn a_split_and_its_exchange_are_never_both_suggested() {
    let players = roster(&[4, 8, 15, 16, 23, 42]);
    let list = balanced_partitioning(&players, Scoring::Symmetric, 1000).unwrap();
    assert_eq!(list.len(), 10);
    let all = (1u32 << 6) - 1;
    for a in list.iter() {
        for b in list.iter() {
            assert_ne!(a.mask, b.mask ^ all);
            assert!(!(a.group_a == b.group_b && a.group_b == b.group_a));
        }
    }
}

#[test]
fn exchanging_the_groups_keeps_the_imbalance() {
    let players = roster(&[4, -8, 15, 16, -23, 42]);
    let all = (1u32 << 6) - 1;
    for mask in 0..64u32 {
        assert_eq!(
            imbalance_of(&players, Scoring::Symmetric, mask),
            imbalance_of(&players, Scoring::Symmetric, mask ^ all)
        );
        assert_eq!(
            signed_sum_of(&players, Scoring::Symmetric, mask),
            -signed_sum_of(&players, Scoring::Symmetric, mask ^ all)
        );
        let a = assignment_of(&players, Scoring::Symmetric, mask);
        let b = assignment_of(&players, Scoring::Symmetric, mask ^ all);
        assert_eq!(a.group_a, b.group_b);
        assert_eq!(a.group_b, b.group_a);
    }
}

#[test]
fn the_signed_sum_is_group_a_less_group_b() {
    let players = roster(&[10, 20, 30]);
    assert_eq!(signed_sum_of(&players, Scoring::Symmetric, 0b000), 60);
    assert_eq!(signed_sum_of(&players, Scoring::Symmetric, 0b001), 40);
    assert_eq!(signed_sum_of(&players, Scoring::Symmetric, 0b110), -40);
    assert_eq!(imbalance_of(&players, Scoring::Symmetric, 0b110), 40);
    assert_eq!(imbalance_of(&players, Scoring::Symmetric, 0b100), 0);
}

#[test]
fn a_player_can_be_worth_something_else_on_either_side() {
    let players: Vec<Rated> = vec![
        (1, Stat { total: 0, marines: 10, aliens: 1 }),
        (2, Stat { total: 0, marines: 2, aliens: 20 }),
    ];
    assert_eq!(signed_sum_of(&players, Scoring::SideAware, 0b00), 12);
    assert_eq!(signed_sum_of(&players, Scoring::SideAware, 0b01), 1);
    assert_eq!(signed_sum_of(&players, Scoring::SideAware, 0b10), -10);
    assert_eq!(signed_sum_of(&players, Scoring::SideAware, 0b11), -21);
    assert_eq!(signed_sum_of(&players, Scoring::Symmetric, 0b01), 0);
    let list = balanced_partitioning(&players, Scoring::SideAware, 5).unwrap();
    assert_eq!(list.len(), 1);
    assert_eq!(list[0].mask, 0b01);
    assert_eq!(list[0].imbalance, 1);
    assert_eq!(list[0].group_a, vec![2]);
    assert_eq!(list[0].group_b, vec![1]);
    assert_ne!(
        imbalance_of(&players, Scoring::SideAware, 0b01),
        imbalance_of(&players, Scoring::SideAware, 0b10)
    );
}

#[test]
fn a_roster_that_is_too_large_is_refused() {
    assert_eq!(MAX_ROSTER, 20);
    let players = roster(&[1; 21]);
    assert_eq!(
        balanced_partitioning(&players, Scoring::Symmetric, 3),
        Err(Error::InputTooLarge)
    );
}

#[test]
fn the_largest_roster_is_searched() {
    let scores: Vec<i64> = (0..20).map(|i| (i * 37 % 11) as i64 - 5).collect();
    let players = roster(&scores);
    let list = balanced_partitioning(&players, Scoring::Symmetric, 3).unwrap();
    assert_eq!(list.len(), 3);
    for a in list.iter() {
        assert_eq!(a.group_a.len(), 10);
        assert_eq!(a.group_b.len(), 10);
        assert!(a.mask < (1 << 19));
        assert_eq!(a.imbalance, imbalance_of(&players, Scoring::Symmetric, a.mask));
    }
    assert!(list[0].imbalance <= list[1].imbalance);
    assert!(list[1].imbalance <= list[2].imbalance);
}

#[test]
fn small_rosters_have_few_splits() {
    let none = balanced_partitioning(&Vec::new(), Scoring::Symmetric, 5).unwrap();
    assert_eq!(none.len(), 1);
    assert_eq!(none[0].mask, 0);
    assert!(none[0].group_a.is_empty());
    assert!(none[0].group_b.is_empty());
    assert_eq!(none[0].imbalance, 0);
    let one = balanced_partitioning(&roster(&[7]), Scoring::Symmetric, 5).unwrap();
    assert_eq!(one.len(), 1);
    assert_eq!(one[0].group_a, vec![0]);
    assert!(one[0].group_b.is_empty());
    assert_eq!(one[0].imbalance, 7);
    let two = balanced_partitioning(&roster(&[7, 9]), Scoring::Symmetric, 5).unwrap();
    assert_eq!(masks(&two), vec![0b01]);
    assert_eq!(two[0].imbalance, 2);
}

#[test]
fn extreme_scores_do_not_overflow() {
    let players = roster(&[i64::MIN, i64::MIN, i64::MAX, i64::MAX]);
    assert_eq!(
        signed_sum_of(&players, Scoring::Symmetric, 0b0011),
        2 * (i64::MAX as i128) - 2 * (i64::MIN as i128)
    );
    let list = balanced_partitioning(&players, Scoring::Symmetric, 1).unwrap();
    assert_eq!(list[0].mask, 0b0101);
    assert_eq!(list[0].imbalance, 0);
}

#[test]
fn masks_and_bits() {
    assert_eq!(count_masks(0), 1);
    assert_eq!(count_masks(1), 1);
    assert_eq!(count_masks(4), 8);
    assert_eq!(count_masks(20), 524_288);
    assert!(is_in_b(0b100, 2));
    assert!(!is_in_b(0b100, 1));
    assert!(has_even_sizes(0b0011, 4));
    assert!(has_even_sizes(0b0011, 5));
    assert!(!has_even_sizes(0b0001, 4));
    assert!(!has_even_sizes(0b0111, 4));
    assert!(has_even_sizes(0, 1));
    assert!(!has_even_sizes(0, 2));
}
