use timeit::profile::parse_profile;

#[test]
fn readme_profile() {
    assert_eq!(parse_profile("runs=100\nwarmup=5\nquiet=true"), (100, 5, true));
}

#[test]
fn empty_profile_gives_defaults() {
    assert_eq!(parse_profile(""), (1, 0, false));
}

#[test]
fn comments_blank_lines_and_unknown_keys_are_skipped() {
    let text = "# benchmark profile\n\n  runs = 20  \ncolor=never\nno equals sign\n#warmup=9\n";
    assert_eq!(parse_profile(text), (20, 0, false));
}

#[test]
fn later_lines_win() {
    assert_eq!(parse_profile("runs=3\nruns=4\nquiet=true\nquiet=false"), (4, 0, false));
}

#[test]
fn unreadable_numbers_fall_back() {
    assert_eq!(parse_profile("runs=5\nruns=many\nwarmup=2\nwarmup=-1"), (1, 0, false));
    assert_eq!(parse_profile("runs=+7"), (7, 0, false));
}

#[test]
fn quiet_needs_exactly_true() {
    assert_eq!(parse_profile("quiet=yes"), (1, 0, false));
    assert_eq!(parse_profile("quiet=TRUE"), (1, 0, false));
    assert_eq!(parse_profile("quiet= true "), (1, 0, true));
}

#[test]
fn windows_line_endings() {
    assert_eq!(parse_profile("runs=8\r\nwarmup=1\r\n"), (8, 1, false));
}

#[test]
fn value_keeps_text_after_first_equals() {
    assert_eq!(parse_profile("runs=1=2"), (1, 0, false));
    assert_eq!(parse_profile("quiet==true"), (1, 0, false));
}
