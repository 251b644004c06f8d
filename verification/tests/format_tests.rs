use timeit::format::{format_duration, format_duration_auto, DisplayMode};

#[test]
fn auto_readme_example() {
    assert_eq!(format_duration_auto(70_982_441_221), "1m 10s 982ms 441μs 221ns");
}

#[test]
fn auto_zero_is_zero_nanoseconds() {
    assert_eq!(format_duration_auto(0), "0ns");
}

#[test]
fn auto_leaves_out_zero_components() {
    assert_eq!(format_duration_auto(3_600_000_000_000), "1h");
    assert_eq!(format_duration_auto(1_000_000_001), "1s 1ns");
    assert_eq!(format_duration_auto(3_723_000_004_000), "1h 2m 3s 4μs");
    assert_eq!(format_duration_auto(999), "999ns");
}

#[test]
fn auto_hours_are_unbounded() {
    assert_eq!(format_duration_auto(90_000_000_000_000), "25h");
}

#[test]
fn decimal_modes_readme_examples() {
    assert_eq!(format_duration(70_982_441_221, DisplayMode::Seconds), "70.982441221");
    assert_eq!(format_duration(70_982_441_221, DisplayMode::Millis), "70982.441221");
    assert_eq!(format_duration(70_982_441_221, DisplayMode::Micros), "70982441.221");
    assert_eq!(format_duration(70_982_441_221, DisplayMode::Nanos), "70982441221");
}

#[test]
fn decimal_modes_pad_fractions() {
    assert_eq!(format_duration(5, DisplayMode::Seconds), "0.000000005");
    assert_eq!(format_duration(0, DisplayMode::Millis), "0.000000");
    assert_eq!(format_duration(1_000, DisplayMode::Micros), "1.000");
    assert_eq!(format_duration(0, DisplayMode::Nanos), "0");
}

#[test]
fn auto_mode_matches_auto_formatter() {
    assert_eq!(
        format_duration(70_982_441_221, DisplayMode::Auto),
        format_duration_auto(70_982_441_221)
    );
}

#[test]
fn auto_texts_tell_durations_apart() {
    let samples: Vec<u128> = vec![
        0, 1, 10, 999, 1_000, 1_001, 60_000_000_000, 61_000_000_000, 3_600_000_000_000,
        3_660_000_000_000, 70_982_441_221, 86_400_000_000_000,
    ];
    for (i, a) in samples.iter().enumerate() {
        for b in samples.iter().skip(i + 1) {
            assert_ne!(format_duration_auto(*a), format_duration_auto(*b));
        }
    }
}
