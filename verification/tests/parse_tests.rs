use timeit::format::{format_duration, format_duration_auto, DisplayMode};
use timeit::parse::{parse_duration, DurationText, DurationUnit};

fn read(s: &str) -> Result<(String, DurationUnit), String> {
    parse_duration(s).map(|d: DurationText| (d.number, d.unit))
}

fn ok(n: &str, u: DurationUnit) -> Result<(String, DurationUnit), String> {
    Ok((n.to_string(), u))
}

#[test]
fn units_from_the_help_page() {
    assert_eq!(read("100ms"), ok("100", DurationUnit::Millis));
    assert_eq!(read("30s"), ok("30", DurationUnit::Seconds));
    assert_eq!(read("5m"), ok("5", DurationUnit::Minutes));
    assert_eq!(read("1h"), ok("1", DurationUnit::Hours));
    assert_eq!(read("7ns"), ok("7", DurationUnit::Nanos));
    assert_eq!(read("10us"), ok("10", DurationUnit::Micros));
    assert_eq!(read("10μs"), ok("10", DurationUnit::Micros));
}

#[test]
fn bare_number_is_seconds() {
    assert_eq!(read("5"), ok("5", DurationUnit::Seconds));
    assert_eq!(read("1.5"), ok("1.5", DurationUnit::Seconds));
}

#[test]
fn the_number_is_kept_as_written() {
    assert_eq!(read("1.005ms"), ok("1.005", DurationUnit::Millis));
    assert_eq!(read("0.0000000015s"), ok("0.0000000015", DurationUnit::Seconds));
    assert_eq!(read(".5s"), ok(".5", DurationUnit::Seconds));
    assert_eq!(read("5.s"), ok("5.", DurationUnit::Seconds));
    assert_eq!(read("007m"), ok("007", DurationUnit::Minutes));
}

#[test]
fn accepted_numbers_are_read_by_f64() {
    for s in ["1.005ms", ".5s", "5.", "99999999999h", "0.0000000015s", "007m"] {
        let d = parse_duration(s).unwrap();
        assert!(d.number.parse::<f64>().is_ok());
    }
}

#[test]
fn suffix_ignores_ascii_case_and_whitespace_is_trimmed() {
    assert_eq!(read(" 2S "), ok("2", DurationUnit::Seconds));
    assert_eq!(read("5MS"), ok("5", DurationUnit::Millis));
    assert_eq!(read("\t3H\n"), ok("3", DurationUnit::Hours));
}

#[test]
fn empty_duration_is_an_error() {
    assert_eq!(read(""), Err("empty duration".to_string()));
    assert_eq!(read("   "), Err("empty duration".to_string()));
}

#[test]
fn invalid_number_is_an_error() {
    assert_eq!(read("abc"), Err("invalid duration: abc".to_string()));
    assert_eq!(read("-5s"), Err("invalid duration: -5s".to_string()));
    assert_eq!(read("1.2.3s"), Err("invalid duration: 1.2.3s".to_string()));
    assert_eq!(read(" .s "), Err("invalid duration: .s".to_string()));
}

#[test]
fn unknown_suffix_is_an_error() {
    assert_eq!(read("5x"), Err("unknown time suffix: x".to_string()));
    assert_eq!(read("5 s"), Err("unknown time suffix:  s".to_string()));
    assert_eq!(read("3d"), Err("unknown time suffix: d".to_string()));
}

#[test]
fn formatted_durations_read_back() {
    for n in [0u128, 1, 999, 70_982_441_221, 3_600_000_000_000, u64::MAX as u128] {
        let secs = format_duration(n, DisplayMode::Seconds);
        assert_eq!(read(&secs), Ok((secs.clone(), DurationUnit::Seconds)));
        let ms = format_duration(n, DisplayMode::Millis);
        assert_eq!(read(&format!("{}ms", ms)), Ok((ms.clone(), DurationUnit::Millis)));
        let us = format_duration(n, DisplayMode::Micros);
        assert_eq!(read(&format!("{}us", us)), Ok((us.clone(), DurationUnit::Micros)));
        let ns = format_duration(n, DisplayMode::Nanos);
        assert_eq!(read(&format!("{}ns", ns)), Ok((ns.clone(), DurationUnit::Nanos)));
    }
}

#[test]
fn single_unit_smart_text_reads_back() {
    assert_eq!(read(&format_duration_auto(300_000_000_000)), ok("5", DurationUnit::Minutes));
    assert_eq!(read(&format_duration_auto(250_000_000)), ok("250", DurationUnit::Millis));
    assert_eq!(read(&format_duration_auto(7_000)), ok("7", DurationUnit::Micros));
    assert_eq!(read(&format_duration_auto(0)), ok("0", DurationUnit::Nanos));
    assert_eq!(read(&format_duration_auto(7_200_000_000_000)), ok("2", DurationUnit::Hours));
}

#[test]
fn spacing_and_capitals_do_not_change_a_reading() {
    for s in ["1.5ms", "30s", "5m", "1h", "10us", "7ns", "2.25", "10μs"] {
        let shouted = format!(" {} ", s.to_ascii_uppercase());
        assert_eq!(read(&shouted), read(s));
        assert!(read(s).is_ok());
    }
}
