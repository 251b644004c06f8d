use timeit::format::DisplayMode;
use timeit::run::{
    chosen_statistic, exit_failure_message, faster_of, plan_command, run_report, timeout_message,
    SessionAction, TimingSession,
};
use timeit::stats::calculate_timing_stats;

#[test]
fn single_string_runs_through_the_shell() {
    let p = plan_command(&vec!["echo hi | wc -c".to_string()]).unwrap();
    assert_eq!(p.program, "sh");
    assert_eq!(p.args, vec!["-c".to_string(), "echo hi | wc -c".to_string()]);
}

#[test]
fn several_words_are_program_and_arguments() {
    let p = plan_command(&vec!["ls".to_string(), "-l".to_string(), "/".to_string()]).unwrap();
    assert_eq!(p.program, "ls");
    assert_eq!(p.args, vec!["-l".to_string(), "/".to_string()]);
}

#[test]
fn empty_command_is_an_error() {
    assert_eq!(plan_command(&vec![]).err(), Some("Empty command".to_string()));
}

#[test]
fn failure_messages() {
    assert_eq!(exit_failure_message(Some(2)), "Command failed with exit code: 2");
    assert_eq!(exit_failure_message(None), "Command failed with exit code: -1");
    assert_eq!(exit_failure_message(Some(-3)), "Command failed with exit code: -3");
    assert_eq!(
        exit_failure_message(Some(i32::MIN)),
        "Command failed with exit code: -2147483648"
    );
    assert_eq!(timeout_message(30_000_000_000), "Command timed out after 30s");
    assert_eq!(timeout_message(100_000_000), "Command timed out after 100ms");
}

#[test]
fn run_lines() {
    assert_eq!(run_report(1, 10, 1_500, DisplayMode::Nanos), "Run 1/10: 1500");
    assert_eq!(run_report(3, 3, 70_982_441_221, DisplayMode::Auto), "Run 3/3: 1m 10s 982ms 441μs 221ns");
}

#[test]
fn session_order_with_warmup() {
    let mut s = TimingSession::new(2, 3);
    let mut seen = Vec::new();
    loop {
        let a = s.next_action();
        seen.push(a);
        match a {
            SessionAction::Warmup => s.warmup_finished(),
            SessionAction::CoolDown => s.cooldown_finished(),
            SessionAction::Measure(i) => s.record(i as u128 * 10),
            SessionAction::Finished => break,
        }
    }
    assert_eq!(
        seen,
        vec![
            SessionAction::Warmup,
            SessionAction::Warmup,
            SessionAction::CoolDown,
            SessionAction::Measure(1),
            SessionAction::Measure(2),
            SessionAction::Measure(3),
            SessionAction::Finished,
        ]
    );
    let r = s.finish();
    assert_eq!(r.times, vec![10, 20, 30]);
    assert_eq!(r.avg, 20);
}

#[test]
fn session_without_warmup_has_no_cooldown() {
    let mut s = TimingSession::new(0, 1);
    assert_eq!(s.next_action(), SessionAction::Measure(1));
    s.record(5);
    assert_eq!(s.next_action(), SessionAction::Finished);
}

#[test]
fn statistic_and_winner() {
    let r = calculate_timing_stats(vec![1, 2, 9]);
    assert_eq!(chosen_statistic(&r, true), 2);
    assert_eq!(chosen_statistic(&r, false), 4);
    assert_eq!(faster_of(3, 5), ('A', 3, 5));
    assert_eq!(faster_of(5, 3), ('B', 3, 5));
    assert_eq!(faster_of(4, 4), ('B', 4, 4));
}
