use mixtor::optimal_padding::{
    build_buckets, optimal_pad_length, total_overhead, OptimalPadder, SizeBucket,
};

#[test]
fn single_bucket_pads_to_max() {
    let lengths = vec![100, 200, 300, 400, 1400];
    let buckets = build_buckets(&lengths, 1);
    assert_eq!(buckets.len(), 1);
    assert_eq!(buckets[0].target, 1400);
    for &l in &lengths {
        assert_eq!(optimal_pad_length(l, &buckets), 1400);
    }
}

#[test]
fn k_buckets_partition_range() {
    let lengths: Vec<usize> = (100..=1400).step_by(50).collect();
    let k: usize = 4;
    let buckets = build_buckets(&lengths, k);
    assert_eq!(buckets.len(), k);
    for b in &buckets {
        assert_eq!(b.target, b.hi);
    }
}

#[test]
fn pad_length_never_shrinks() {
    let lengths = vec![100, 400, 800, 1200, 1400];
    let buckets = build_buckets(&lengths, 3);
    for &l in &lengths {
        assert!(optimal_pad_length(l, &buckets) >= l, "pad shrank packet to {l}");
    }
}

#[test]
fn overhead_decreases_with_more_buckets() {
    let lengths: Vec<usize> = (100..=1400).step_by(10).collect();
    let b1 = build_buckets(&lengths, 1);
    let b4 = build_buckets(&lengths, 4);
    let o1 = total_overhead(&b1, &lengths) as f64 / lengths.len() as f64;
    let o4 = total_overhead(&b4, &lengths) as f64 / lengths.len() as f64;
    assert!(o4 < o1, "more buckets should reduce overhead: k=1 {o1:.1}, k=4 {o4:.1}");
}

#[test]
fn optimal_padder_rebuilds_lazily() {
    let mut padder = OptimalPadder::new(4, 8);
    for _ in 0..8 {
        padder.observe_length(1400);
    }
    let result = padder.pad_length(500);
    assert!(result > 0);
    assert_eq!(result, 1400);
}

#[test]
fn clamps_above_all_buckets() {
    let buckets = vec![SizeBucket { lo: 0, hi: 1000, target: 1000 }];
    assert_eq!(optimal_pad_length(9999, &buckets), 1000);
}

#[test]
fn unsorted_lengths_make_the_same_buckets() {
    let a = build_buckets(&[5, 1, 4, 2, 3], 2);
    assert_eq!(
        a,
        vec![SizeBucket { lo: 1, hi: 2, target: 2 }, SizeBucket { lo: 3, hi: 5, target: 5 }]
    );
    assert_eq!(build_buckets(&[1, 2, 3, 4, 5], 2), a);
}

#[test]
fn no_lengths_make_one_bucket_for_all() {
    assert_eq!(build_buckets(&[], 4), vec![SizeBucket { lo: 0, hi: 65535, target: 65535 }]);
    assert_eq!(optimal_pad_length(77, &[]), 77);
    assert_eq!(total_overhead(&build_buckets(&[1, 3], 1), &[1, 3]), 2);
}

#[test]
fn padder_keeps_its_table_until_the_interval() {
    let mut padder = OptimalPadder::new(0, 0);
    assert_eq!(padder.k(), 1);
    assert_eq!(padder.pad_length(10), 65535);
    padder.observe_length(300);
    assert_eq!(padder.buckets()[0].hi, 65535);
    assert_eq!(padder.pad_length(10), 300);
    let mut slow = OptimalPadder::new(2, 3);
    slow.observe_length(10);
    slow.observe_length(20);
    assert_eq!(slow.pad_length(5), 65535);
    slow.observe_length(30);
    assert_eq!(slow.pad_length(5), 10);
    assert_eq!(slow.pad_length(15), 30);
}

#[test]
fn buckets_come_in_order() {
    let lengths = [40usize, 900, 70, 70, 1300, 512, 64, 1300, 300];
    let buckets = build_buckets(&lengths, 4);
    let ends: Vec<(usize, usize)> = buckets.iter().map(|b| (b.lo, b.hi)).collect();
    assert_eq!(ends, vec![(40, 64), (70, 70), (300, 512), (900, 1300)]);
}

#[test]
fn no_more_buckets_than_distinct_lengths() {
    let only = SizeBucket { lo: 7, hi: 7, target: 7 };
    assert_eq!(build_buckets(&[7, 7, 7], 3), vec![only]);
    let two = build_buckets(&[9, 5, 5, 9, 5, 9], 4);
    assert_eq!(
        two,
        vec![SizeBucket { lo: 5, hi: 5, target: 5 }, SizeBucket { lo: 9, hi: 9, target: 9 }]
    );
    assert_eq!(build_buckets(&[1, 2, 3], 3).len(), 3);
    assert_eq!(build_buckets(&[1, 2, 3, 3], 2).len(), 2);
}

#[test]
fn padders_always_have_a_table() {
    let mut padder = OptimalPadder::new(3, 2);
    for len in [500usize, 20, 20, 1300, 7, 7, 900, 20] {
        let before = padder.buckets().to_vec();
        padder.observe_length(len);
        assert_eq!(padder.buckets(), &before[..], "an observation changes no table");
        let _ = padder.pad_length(len);
        let buckets = padder.buckets();
        assert!(!buckets.is_empty() && buckets.len() <= 3);
        assert!(buckets.iter().all(|b| b.lo <= b.hi && b.hi == b.target));
        assert!(buckets.windows(2).all(|w| w[0].hi <= w[1].hi));
    }
}
