use timeit::stats::calculate_timing_stats;

#[test]
fn empty_series_gives_zeros() {
    let r = calculate_timing_stats(vec![]);
    assert!(r.times.is_empty());
    assert_eq!((r.avg, r.median, r.min, r.max), (0, 0, 0, 0));
}

#[test]
fn odd_series() {
    let r = calculate_timing_stats(vec![3, 1, 2]);
    assert_eq!(r.times, vec![3, 1, 2]);
    assert_eq!(r.min, 1);
    assert_eq!(r.max, 3);
    assert_eq!(r.median, 2);
    assert_eq!(r.avg, 2);
}

#[test]
fn even_series_median_halves_the_middle_pair() {
    let r = calculate_timing_stats(vec![40, 10, 30, 21]);
    assert_eq!(r.median, 25);
    assert_eq!(r.avg, 25);
    assert_eq!(r.min, 10);
    assert_eq!(r.max, 40);
}

#[test]
fn average_rounds_down() {
    let r = calculate_timing_stats(vec![1, 2]);
    assert_eq!(r.avg, 1);
    assert_eq!(r.median, 1);
}

#[test]
fn single_run() {
    let r = calculate_timing_stats(vec![70_982_441_221]);
    assert_eq!((r.avg, r.median, r.min, r.max), (70_982_441_221, 70_982_441_221, 70_982_441_221, 70_982_441_221));
}

#[test]
fn order_does_not_matter() {
    let a = calculate_timing_stats(vec![5, 9, 1, 7, 3]);
    let b = calculate_timing_stats(vec![9, 7, 5, 3, 1]);
    assert_eq!((a.avg, a.median, a.min, a.max), (b.avg, b.median, b.min, b.max));
}

#[test]
fn statistics_lie_between_min_and_max() {
    let r = calculate_timing_stats(vec![100, 7, 55, 3, 81, 42]);
    assert!(r.min <= r.median && r.median <= r.max);
    assert!(r.min <= r.avg && r.avg <= r.max);
}

#[test]
fn average_and_median_are_cut_to_64_bits() {
    let big = 1u128 << 64;
    let r = calculate_timing_stats(vec![big + 6]);
    assert_eq!(r.avg, 6);
    assert_eq!(r.median, big + 6);
    let r = calculate_timing_stats(vec![big, big + 4]);
    assert_eq!(r.median, 2);
}
