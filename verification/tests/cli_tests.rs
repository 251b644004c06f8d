use timeit::cli::{parse_args, resume_args, ArgsStep, Config};
use timeit::format::DisplayMode;
use timeit::parse::{DurationText, DurationUnit};

fn dur(n: &str, unit: DurationUnit) -> Option<DurationText> {
    Some(DurationText { number: n.to_string(), unit })
}

fn args(words: &[&str]) -> Vec<String> {
    words.iter().map(|w| w.to_string()).collect()
}

fn parsed(step: ArgsStep) -> Config {
    match step {
        ArgsStep::Done(Ok(c)) => c,
        ArgsStep::Done(Err(e)) => panic!("unexpected error: {}", e),
        _ => panic!("unexpected step"),
    }
}

fn failed(step: ArgsStep) -> String {
    match step {
        ArgsStep::Done(Err(e)) => e,
        _ => panic!("expected an error"),
    }
}

#[test]
fn plain_command_uses_defaults() {
    let c = parsed(parse_args(&args(&["fasthex", "file.bin"])));
    assert_eq!(c.runs, 1);
    assert_eq!(c.warmup, 0);
    assert!(!c.quiet);
    assert!(!c.median);
    assert_eq!(c.display, DisplayMode::Auto);
    assert_eq!(c.timeout, None);
    assert!(c.compare_commands.is_none());
    assert_eq!(c.command, args(&["fasthex", "file.bin"]));
}

#[test]
fn readme_flags() {
    let c = parsed(parse_args(&args(&["-w", "3", "-r", "10", "--timeout", "30s", "fasthex", "file.bin"])));
    assert_eq!(c.warmup, 3);
    assert_eq!(c.runs, 10);
    assert_eq!(c.timeout, dur("30", DurationUnit::Seconds));
    assert_eq!(c.command, args(&["fasthex", "file.bin"]));

    let c = parsed(parse_args(&args(&["-q", "-r", "100", "--median", "--nanos", "x"])));
    assert!(c.quiet);
    assert!(c.median);
    assert_eq!(c.runs, 100);
    assert_eq!(c.display, DisplayMode::Nanos);
}

#[test]
fn equals_forms() {
    let c = parsed(parse_args(&args(&["--runs=4", "--warmup=2", "--timeout=5m", "--millis", "cmd", "-r", "9"])));
    assert_eq!(c.runs, 4);
    assert_eq!(c.warmup, 2);
    assert_eq!(c.timeout, dur("5", DurationUnit::Minutes));
    assert_eq!(c.display, DisplayMode::Millis);
    assert_eq!(c.command, args(&["cmd", "-r", "9"]));
}

#[test]
fn later_flags_win() {
    let c = parsed(parse_args(&args(&["--seconds", "--micros", "-r", "2", "--runs", "3", "x"])));
    assert_eq!(c.display, DisplayMode::Micros);
    assert_eq!(c.runs, 3);
}

#[test]
fn no_arguments() {
    assert_eq!(failed(parse_args(&args(&[]))), "No command specified");
    assert_eq!(failed(parse_args(&args(&["-q"]))), "No command specified");
}

#[test]
fn missing_values() {
    assert_eq!(failed(parse_args(&args(&["-w"]))), "Missing value for --warmup");
    assert_eq!(failed(parse_args(&args(&["--runs"]))), "Missing value for --runs");
    assert_eq!(failed(parse_args(&args(&["--timeout"]))), "Missing value for --timeout");
    assert_eq!(failed(parse_args(&args(&["-p"]))), "Missing value for --profile");
}

#[test]
fn invalid_values() {
    assert_eq!(failed(parse_args(&args(&["-w", "x", "cmd"]))), "Invalid warmup value: x");
    assert_eq!(failed(parse_args(&args(&["--warmup=-1", "cmd"]))), "Invalid warmup value: --warmup=-1");
    assert_eq!(failed(parse_args(&args(&["-r", "", "cmd"]))), "Invalid runs value: ");
    assert_eq!(failed(parse_args(&args(&["--runs=x", "cmd"]))), "Invalid runs value: --runs=x");
    assert_eq!(failed(parse_args(&args(&["--timeout", "3d", "cmd"]))), "unknown time suffix: d");
    assert_eq!(failed(parse_args(&args(&["--timeout=", "cmd"]))), "empty duration");
}

#[test]
fn help_stops_reading() {
    assert!(matches!(parse_args(&args(&["-q", "--help", "--runs=bad"])), ArgsStep::ShowHelp));
    assert!(matches!(parse_args(&args(&["-h"])), ArgsStep::ShowHelp));
    assert_eq!(failed(parse_args(&args(&["--runs=bad", "-h"]))), "Invalid runs value: --runs=bad");
}

#[test]
fn flags_after_the_command_belong_to_it() {
    let c = parsed(parse_args(&args(&["ls", "-h"])));
    assert_eq!(c.command, args(&["ls", "-h"]));
}

#[test]
fn compare_mode() {
    let c = parsed(parse_args(&args(&["--compare", "hexdump file.bin", "fasthex file.bin"])));
    assert_eq!(
        c.compare_commands,
        Some(("hexdump file.bin".to_string(), "fasthex file.bin".to_string()))
    );
    assert!(c.command.is_empty());
    assert_eq!(
        failed(parse_args(&args(&["--compare", "a"]))),
        "--compare requires exactly 2 commands, got: 1"
    );
    assert_eq!(
        failed(parse_args(&args(&["--compare", "a", "b", "c"]))),
        "--compare requires exactly 2 commands, got: 3"
    );
    assert_eq!(failed(parse_args(&args(&["--compare"]))), "--compare requires exactly 2 commands");
}

#[test]
fn profile_flags_ask_for_the_profile() {
    for words in [&["-p", "bench", "x"][..], &["--profile", "bench", "x"][..]] {
        match parse_args(&args(words)) {
            ArgsStep::LoadProfile(p) => {
                assert_eq!(p.name, "bench");
                assert_eq!(p.resume_at, 2);
            },
            _ => panic!("expected a profile request"),
        }
    }
    for words in [&["--profile=bench", "x"][..], &["-p=bench", "x"][..]] {
        match parse_args(&args(words)) {
            ArgsStep::LoadProfile(p) => {
                assert_eq!(p.name, "bench");
                assert_eq!(p.resume_at, 1);
            },
            _ => panic!("expected a profile request"),
        }
    }
}

#[test]
fn loaded_profile_replaces_runs_warmup_quiet() {
    let a = args(&["--median", "-r", "2", "--profile=bench", "-w", "1", "cmd"]);
    let pending = match parse_args(&a) {
        ArgsStep::LoadProfile(p) => p,
        _ => panic!("expected a profile request"),
    };
    let c = parsed(resume_args(&a, pending, Some((100, 5, true))));
    assert_eq!(c.runs, 100);
    assert_eq!(c.warmup, 1);
    assert!(c.quiet);
    assert!(c.median);
    assert_eq!(c.command, args(&["cmd"]));
}

#[test]
fn missing_profile_is_an_error() {
    let a = args(&["-p", "nope", "cmd"]);
    let pending = match parse_args(&a) {
        ArgsStep::LoadProfile(p) => p,
        _ => panic!("expected a profile request"),
    };
    assert_eq!(failed(resume_args(&a, pending, None)), "Profile not found: nope");
}
