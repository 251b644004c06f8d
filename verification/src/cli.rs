//! Reading the command line: flags first, then the command (or, with `--compare`,
//! the two commands) to time.
use vstd::prelude::*;
use crate::decimal::{decimal, lemma_usize_parse_decimal, parse_usize, push_decimal, usize_parse};
use crate::format::DisplayMode;
use crate::parse::{duration_parts, parse_duration_chars, DurationText, DurationUnit};
use crate::profile::ProfileSettings;
use crate::text::{
    chars_eq, chars_of, has_prefix, message, slice_chars, starts_with_chars, string_from_chars,
};

verus! {

/// The settings gathered from the flags read so far.
#[derive(Debug)]
pub struct Settings {
    pub runs: usize,
    pub warmup: usize,
    pub quiet: bool,
    pub median: bool,
    pub display: DisplayMode,
    /// A time limit per command, as written.
    pub timeout: Option<DurationText>,
    /// Whether `--compare` was given.
    pub compare: bool,
}

/// The plain content of `Settings`.
pub struct SettingsView {
    pub runs: usize,
    pub warmup: usize,
    pub quiet: bool,
    pub median: bool,
    pub display: DisplayMode,
    pub timeout: Option<(Seq<char>, DurationUnit)>,
    pub compare: bool,
}

/// The plain content of a time limit.
pub open spec fn timeout_view(t: Option<DurationText>) -> Option<(Seq<char>, DurationUnit)> {
    match t {
        Some(d) => Some((d.number@, d.unit)),
        None => None,
    }
}

impl Settings {
    pub open spec fn view(&self) -> SettingsView {
        SettingsView {
            runs: self.runs,
            warmup: self.warmup,
            quiet: self.quiet,
            median: self.median,
            display: self.display,
            timeout: timeout_view(self.timeout),
            compare: self.compare,
        }
    }
}

/// The settings before any flag: one run, no warmup, per-run output, the average,
/// smart units, no time limit, a single command.
pub open spec fn default_settings() -> SettingsView {
    SettingsView {
        runs: 1,
        warmup: 0,
        quiet: false,
        median: false,
        display: DisplayMode::Auto,
        timeout: None,
        compare: false,
    }
}

/// What to run and how.
pub struct Config {
    pub runs: usize,
    pub warmup: usize,
    pub quiet: bool,
    pub median: bool,
    pub display: DisplayMode,
    /// A time limit per command, as written.
    pub timeout: Option<DurationText>,
    /// The two commands of `--compare`, each run through the shell.
    pub compare_commands: Option<(String, String)>,
    /// The command and its arguments, when not comparing.
    pub command: Vec<String>,
}

/// A profile named on the command line, to be loaded before reading goes on.
pub struct PendingProfile {
    pub name: String,
    /// Where reading resumes once the profile is loaded.
    pub resume_at: usize,
    pub settings: Settings,
}

/// The next thing reading the command line asks for.
pub enum ArgsStep {
    /// `-h` or `--help`: show the help page and stop.
    ShowHelp,
    /// Load the named profile, then call `resume_args`.
    LoadProfile(PendingProfile),
    /// Reading is over: the configuration, or the error message.
    Done(Result<Config, String>),
}

/// The plain content of a `Config`.
pub struct ConfigView {
    pub settings: SettingsView,
    pub compare_commands: Option<(Seq<char>, Seq<char>)>,
    pub command: Seq<Seq<char>>,
}

/// The plain content of an `ArgsStep`.
pub enum ArgsOutcome {
    Help,
    Profile(Seq<char>, nat, SettingsView),
    Failed(Seq<char>),
    Parsed(ConfigView),
}

/// The text of each argument.
pub open spec fn arg_texts(args: Seq<String>) -> Seq<Seq<char>> {
    args.map_values(|a: String| a@)
}

impl Config {
    pub open spec fn view_settings(&self) -> SettingsView {
        SettingsView {
            runs: self.runs,
            warmup: self.warmup,
            quiet: self.quiet,
            median: self.median,
            display: self.display,
            timeout: timeout_view(self.timeout),
            compare: self.compare_commands is Some,
        }
    }

    pub open spec fn view(&self) -> ConfigView {
        ConfigView {
            settings: self.view_settings(),
            compare_commands: match self.compare_commands {
                Some((a, b)) => Some((a@, b@)),
                None => None,
            },
            command: arg_texts(self.command@),
        }
    }
}

/// The plain content of a step.
pub open spec fn step_view(step: ArgsStep) -> ArgsOutcome {
    match step {
        ArgsStep::ShowHelp => ArgsOutcome::Help,
        ArgsStep::LoadProfile(p) => ArgsOutcome::Profile(p.name@, p.resume_at as nat, p.settings.view()),
        ArgsStep::Done(Err(e)) => ArgsOutcome::Failed(e@),
        ArgsStep::Done(Ok(c)) => ArgsOutcome::Parsed(c.view()),
    }
}

/// Once the flags end at position `i`: the rest are the command, or with `--compare`
/// exactly two commands.
pub open spec fn finish(args: Seq<Seq<char>>, i: nat, st: SettingsView) -> ArgsOutcome {
    if i < args.len() {
        if st.compare {
            if args.len() - i != 2 {
                ArgsOutcome::Failed(
                    "--compare requires exactly 2 commands, got: "@ + decimal((args.len() - i) as nat),
                )
            } else {
                ArgsOutcome::Parsed(
                    ConfigView {
                        settings: st,
                        compare_commands: Some((args[i as int], args[i + 1int])),
                        command: seq![],
                    },
                )
            }
        } else {
            ArgsOutcome::Parsed(
                ConfigView { settings: st, compare_commands: None, command: args.skip(i as int) },
            )
        }
    } else if st.compare {
        ArgsOutcome::Failed("--compare requires exactly 2 commands"@)
    } else {
        ArgsOutcome::Failed("No command specified"@)
    }
}

/// Reading the arguments from position `i` with the settings gathered so far: each flag
/// in turn, until help is asked for, a profile is to be loaded, an error arises, or
/// an argument is no flag (the command starts there).
pub open spec fn scan(args: Seq<Seq<char>>, i: nat, st: SettingsView) -> ArgsOutcome
    decreases args.len() - i,
{
    if i >= args.len() {
        finish(args, i, st)
    } else {
        let a = args[i as int];
        let has_next = i + 1 < args.len();
        if a == "-h"@ || a == "--help"@ {
            ArgsOutcome::Help
        } else if a == "-q"@ || a == "--quiet"@ {
            scan(args, i + 1, SettingsView { quiet: true, ..st })
        } else if a == "--median"@ {
            scan(args, i + 1, SettingsView { median: true, ..st })
        } else if a == "--compare"@ {
            scan(args, i + 1, SettingsView { compare: true, ..st })
        } else if a == "-w"@ || a == "--warmup"@ {
            if !has_next {
                ArgsOutcome::Failed("Missing value for --warmup"@)
            } else {
                match usize_parse(args[i + 1int]) {
                    Some(n) => scan(args, i + 2, SettingsView { warmup: n, ..st }),
                    None => ArgsOutcome::Failed("Invalid warmup value: "@ + args[i + 1int]),
                }
            }
        } else if has_prefix(a, "--warmup="@) {
            match usize_parse(a.skip("--warmup="@.len() as int)) {
                Some(n) => scan(args, i + 1, SettingsView { warmup: n, ..st }),
                None => ArgsOutcome::Failed("Invalid warmup value: "@ + a),
            }
        } else if a == "-r"@ || a == "--runs"@ {
            if !has_next {
                ArgsOutcome::Failed("Missing value for --runs"@)
            } else {
                match usize_parse(args[i + 1int]) {
                    Some(n) => scan(args, i + 2, SettingsView { runs: n, ..st }),
                    None => ArgsOutcome::Failed("Invalid runs value: "@ + args[i + 1int]),
                }
            }
        } else if has_prefix(a, "--runs="@) {
            match usize_parse(a.skip("--runs="@.len() as int)) {
                Some(n) => scan(args, i + 1, SettingsView { runs: n, ..st }),
                None => ArgsOutcome::Failed("Invalid runs value: "@ + a),
            }
        } else if a == "--timeout"@ {
            if !has_next {
                ArgsOutcome::Failed("Missing value for --timeout"@)
            } else {
                match duration_parts(args[i + 1int]) {
                    Ok(d) => scan(args, i + 2, SettingsView { timeout: Some(d), ..st }),
                    Err(e) => ArgsOutcome::Failed(e),
                }
            }
        } else if has_prefix(a, "--timeout="@) {
            match duration_parts(a.skip("--timeout="@.len() as int)) {
                Ok(d) => scan(args, i + 1, SettingsView { timeout: Some(d), ..st }),
                Err(e) => ArgsOutcome::Failed(e),
            }
        } else if a == "-p"@ || a == "--profile"@ {
            if !has_next {
                ArgsOutcome::Failed("Missing value for --profile"@)
            } else {
                ArgsOutcome::Profile(args[i + 1int], i + 2, st)
            }
        } else if has_prefix(a, "--profile="@) {
            ArgsOutcome::Profile(a.skip("--profile="@.len() as int), i + 1, st)
        } else if has_prefix(a, "-p="@) {
            ArgsOutcome::Profile(a.skip("-p="@.len() as int), i + 1, st)
        } else if a == "--seconds"@ {
            scan(args, i + 1, SettingsView { display: DisplayMode::Seconds, ..st })
        } else if a == "--millis"@ {
            scan(args, i + 1, SettingsView { display: DisplayMode::Millis, ..st })
        } else if a == "--micros"@ {
            scan(args, i + 1, SettingsView { display: DisplayMode::Micros, ..st })
        } else if a == "--nanos"@ {
            scan(args, i + 1, SettingsView { display: DisplayMode::Nanos, ..st })
        } else {
            finish(args, i, st)
        }
    }
}

/// What reading the whole command line gives, up to the first profile to load.
pub open spec fn args_outcome(args: Seq<Seq<char>>) -> ArgsOutcome {
    if args.len() == 0 {
        ArgsOutcome::Failed("No command specified"@)
    } else {
        scan(args, 0, default_settings())
    }
}

/// What reading goes on to give once a pending profile has been looked up: an error
/// where it was not found, else its runs, warmup and quiet replace the settings.
pub open spec fn resume_outcome(
    args: Seq<Seq<char>>,
    name: Seq<char>,
    resume_at: nat,
    st: SettingsView,
    profile: Option<ProfileSettings>,
) -> ArgsOutcome {
    match profile {
        None => ArgsOutcome::Failed("Profile not found: "@ + name),
        Some((r, w, q)) => scan(args, resume_at, SettingsView { runs: r, warmup: w, quiet: q, ..st }),
    }
}

/// Whether the characters of `a` are exactly `lit`.
fn is_word(a: &Vec<char>, lit: &str) -> (b: bool)
    ensures
        b == (a@ == lit@),
{
    chars_eq(a, &chars_of(lit))
}

/// Whether `a` begins with `lit`; if so, also the characters after it.
fn after_prefix(a: &Vec<char>, lit: &str) -> (r: Option<Vec<char>>)
    ensures
        r is Some == has_prefix(a@, lit@),
        r matches Some(rest) ==> rest@ == a@.skip(lit@.len() as int),
{
    let p = chars_of(lit);
    if starts_with_chars(a, &p) {
        Some(slice_chars(a, p.len(), a.len()))
    } else {
        None
    }
}

/// Copies `args[from..]`.
fn copy_args(args: &Vec<String>, from: usize) -> (out: Vec<String>)
    requires
        from <= args@.len(),
    ensures
        arg_texts(out@) == arg_texts(args@).skip(from as int),
{
    let mut out: Vec<String> = Vec::new();
    let mut j = from;
    while j < args.len()
        invariant
            from <= j <= args@.len(),
            arg_texts(out@) == arg_texts(args@).subrange(from as int, j as int),
        decreases args.len() - j,
    {
        let a = args[j].clone();
        assert(a@ == args@[j as int]@);
        let ghost before = out@;
        out.push(a);
        assert(arg_texts(out@) =~= arg_texts(before).push(args@[j as int]@));
        j += 1;
        assert(arg_texts(out@) =~= arg_texts(args@).subrange(from as int, j as int));
    }
    assert(arg_texts(args@).subrange(from as int, j as int) =~= arg_texts(args@).skip(from as int));
    out
}

/// The step once the flags end at position `i`.
fn finish_args(args: &Vec<String>, i: usize, st: Settings) -> (step: ArgsStep)
    requires
        i <= args@.len(),
    ensures
        step_view(step) == finish(arg_texts(args@), i as nat, st.view()),
{
    let ghost a = arg_texts(args@);
    if i < args.len() {
        if st.compare {
            let remaining = args.len() - i;
            if remaining != 2 {
                let mut text = chars_of("--compare requires exactly 2 commands, got: ");
                push_decimal(&mut text, remaining as u128);
                return ArgsStep::Done(Err(string_from_chars(&text)));
            }
            let first = args[i].clone();
            let second = args[i + 1].clone();
            let config = Config {
                runs: st.runs,
                warmup: st.warmup,
                quiet: st.quiet,
                median: st.median,
                display: st.display,
                timeout: st.timeout,
                compare_commands: Some((first, second)),
                command: Vec::new(),
            };
            assert(config.view().command =~= Seq::<Seq<char>>::empty());
            ArgsStep::Done(Ok(config))
        } else {
            let command = copy_args(args, i);
            ArgsStep::Done(
                Ok(
                    Config {
                        runs: st.runs,
                        warmup: st.warmup,
                        quiet: st.quiet,
                        median: st.median,
                        display: st.display,
                        timeout: st.timeout,
                        compare_commands: None,
                        command,
                    },
                ),
            )
        }
    } else if st.compare {
        ArgsStep::Done(Err("--compare requires exactly 2 commands".to_owned()))
    } else {
        ArgsStep::Done(Err("No command specified".to_owned()))
    }
}

/// Reads flags from position `start` on; see `scan`.
pub fn scan_args(args: &Vec<String>, start: usize, settings: Settings) -> (step: ArgsStep)
    requires
        start <= args@.len(),
    ensures
        step_view(step) == scan(arg_texts(args@), start as nat, settings.view()),
{
    let ghost all = arg_texts(args@);
    let ghost target = scan(all, start as nat, settings.view());
    let mut i = start;
    let mut st = settings;
    while i < args.len()
        invariant
            start <= i <= args@.len(),
            all == arg_texts(args@),
            target == scan(all, start as nat, settings.view()),
            scan(all, i as nat, st.view()) == target,
        decreases args.len() - i,
    {
        let a = chars_of(args[i].as_str());
        assert(a@ == all[i as int]);
        let has_next = i + 1 < args.len();
        if is_word(&a, "-h") || is_word(&a, "--help") {
            return ArgsStep::ShowHelp;
        } else if is_word(&a, "-q") || is_word(&a, "--quiet") {
            st = Settings { quiet: true, ..st };
            i += 1;
        } else if is_word(&a, "--median") {
            st = Settings { median: true, ..st };
            i += 1;
        } else if is_word(&a, "--compare") {
            st = Settings { compare: true, ..st };
            i += 1;
        } else if is_word(&a, "-w") || is_word(&a, "--warmup") {
            if !has_next {
                return ArgsStep::Done(Err("Missing value for --warmup".to_owned()));
            }
            let v = chars_of(args[i + 1].as_str());
            assert(v@ == all[i + 1]);
            match parse_usize(&v) {
                Some(n) => {
                    st = Settings { warmup: n, ..st };
                    i += 2;
                },
                None => return ArgsStep::Done(Err(message("Invalid warmup value: ", &v))),
            }
        } else if let Some(v) = after_prefix(&a, "--warmup=") {
            match parse_usize(&v) {
                Some(n) => {
                    st = Settings { warmup: n, ..st };
                    i += 1;
                },
                None => return ArgsStep::Done(Err(message("Invalid warmup value: ", &a))),
            }
        } else if is_word(&a, "-r") || is_word(&a, "--runs") {
            if !has_next {
                return ArgsStep::Done(Err("Missing value for --runs".to_owned()));
            }
            let v = chars_of(args[i + 1].as_str());
            assert(v@ == all[i + 1]);
            match parse_usize(&v) {
                Some(n) => {
                    st = Settings { runs: n, ..st };
                    i += 2;
                },
                None => return ArgsStep::Done(Err(message("Invalid runs value: ", &v))),
            }
        } else if let Some(v) = after_prefix(&a, "--runs=") {
            match parse_usize(&v) {
                Some(n) => {
                    st = Settings { runs: n, ..st };
                    i += 1;
                },
                None => return ArgsStep::Done(Err(message("Invalid runs value: ", &a))),
            }
        } else if is_word(&a, "--timeout") {
            if !has_next {
                return ArgsStep::Done(Err("Missing value for --timeout".to_owned()));
            }
            let v = chars_of(args[i + 1].as_str());
            assert(v@ == all[i + 1]);
            match parse_duration_chars(&v) {
                Ok(d) => {
                    st = Settings { timeout: Some(d), ..st };
                    i += 2;
                },
                Err(e) => return ArgsStep::Done(Err(e)),
            }
        } else if let Some(v) = after_prefix(&a, "--timeout=") {
            match parse_duration_chars(&v) {
                Ok(d) => {
                    st = Settings { timeout: Some(d), ..st };
                    i += 1;
                },
                Err(e) => return ArgsStep::Done(Err(e)),
            }
        } else if is_word(&a, "-p") || is_word(&a, "--profile") {
            if !has_next {
                return ArgsStep::Done(Err("Missing value for --profile".to_owned()));
            }
            let name = args[i + 1].clone();
            return ArgsStep::LoadProfile(PendingProfile { name, resume_at: i + 2, settings: st });
        } else if let Some(v) = after_prefix(&a, "--profile=") {
            let name = string_from_chars(&v);
            return ArgsStep::LoadProfile(PendingProfile { name, resume_at: i + 1, settings: st });
        } else if let Some(v) = after_prefix(&a, "-p=") {
            let name = string_from_chars(&v);
            return ArgsStep::LoadProfile(PendingProfile { name, resume_at: i + 1, settings: st });
        } else if is_word(&a, "--seconds") {
            st = Settings { display: DisplayMode::Seconds, ..st };
            i += 1;
        } else if is_word(&a, "--millis") {
            st = Settings { display: DisplayMode::Millis, ..st };
            i += 1;
        } else if is_word(&a, "--micros") {
            st = Settings { display: DisplayMode::Micros, ..st };
            i += 1;
        } else if is_word(&a, "--nanos") {
            st = Settings { display: DisplayMode::Nanos, ..st };
            i += 1;
        } else {
            return finish_args(args, i, st);
        }
    }
    finish_args(args, i, st)
}

/// Reads the command line (the arguments after the program name) up to the first
/// profile that needs loading: an empty command line has no command; otherwise the
/// flags are read from the first argument with the default settings.
pub fn parse_args(args: &Vec<String>) -> (step: ArgsStep)
    ensures
        step_view(step) == args_outcome(arg_texts(args@)),
{
    if args.len() == 0 {
        return ArgsStep::Done(Err("No command specified".to_owned()));
    }
    let settings = Settings {
        runs: 1,
        warmup: 0,
        quiet: false,
        median: false,
        display: DisplayMode::Auto,
        timeout: None,
        compare: false,
    };
    scan_args(args, 0, settings)
}

/// Goes on reading after a profile was looked up: `None` (not found) is an error;
/// otherwise its runs, warmup and quiet replace the settings and reading resumes.
pub fn resume_args(args: &Vec<String>, pending: PendingProfile, profile: Option<ProfileSettings>) -> (step: ArgsStep)
    requires
        pending.resume_at <= args@.len(),
    ensures
        step_view(step) == resume_outcome(
            arg_texts(args@),
            pending.name@,
            pending.resume_at as nat,
            pending.settings.view(),
            profile,
        ),
{
    match profile {
        None => {
            let name = chars_of(pending.name.as_str());
            ArgsStep::Done(Err(message("Profile not found: ", &name)))
        },
        Some((runs, warmup, quiet)) => {
            let st = Settings { runs, warmup, quiet, ..pending.settings };
            scan_args(args, pending.resume_at, st)
        },
    }
}

/// Reading stops at a word that does not start with `-`: the command begins there.
pub proof fn lemma_scan_stops_at_command(args: Seq<Seq<char>>, i: nat, st: SettingsView)
    requires
        i < args.len(),
        args[i as int].len() == 0 || args[i as int][0] != '-',
    ensures
        scan(args, i, st) == finish(args, i, st),
{
    reveal_strlit("-h");
    reveal_strlit("--help");
    reveal_strlit("-q");
    reveal_strlit("--quiet");
    reveal_strlit("--median");
    reveal_strlit("--compare");
    reveal_strlit("-w");
    reveal_strlit("--warmup");
    reveal_strlit("--warmup=");
    reveal_strlit("-r");
    reveal_strlit("--runs");
    reveal_strlit("--runs=");
    reveal_strlit("--timeout");
    reveal_strlit("--timeout=");
    reveal_strlit("-p");
    reveal_strlit("--profile");
    reveal_strlit("--profile=");
    reveal_strlit("-p=");
    reveal_strlit("--seconds");
    reveal_strlit("--millis");
    reveal_strlit("--micros");
    reveal_strlit("--nanos");
    let a = args[i as int];
    assert forall|lit: Seq<char>| lit.len() > 0 && lit[0] == '-' implies a != lit && !has_prefix(a, lit) by {
        if a.len() > 0 {
            assert(a[0] != lit[0]);
            if lit.len() <= a.len() {
                assert(a.take(lit.len() as int)[0] == a[0]);
            }
        }
    }
}

/// A command line whose first word does not start with `-` is all command, read with
/// the default settings: `timeit fasthex file.bin` times `fasthex file.bin` once.
pub proof fn law_plain_command(args: Seq<Seq<char>>)
    requires
        args.len() > 0,
        args[0].len() == 0 || args[0][0] != '-',
    ensures
        args_outcome(args) == ArgsOutcome::Parsed(
            ConfigView { settings: default_settings(), compare_commands: None, command: args },
        ),
{
    lemma_scan_stops_at_command(args, 0, default_settings());
    assert(args.skip(0) =~= args);
}

/// Two texts that differ at position `k` are different, and neither begins with the
/// other.
proof fn lemma_differ_at(a: Seq<char>, lit: Seq<char>, k: int)
    requires
        0 <= k < a.len(),
        k < lit.len(),
        a[k] != lit[k],
    ensures
        a != lit,
        !has_prefix(a, lit),
{
    if lit.len() <= a.len() {
        assert(a.take(lit.len() as int)[k] == a[k]);
    }
}

/// `--seconds` in front of a command selects display mode `Seconds`, everything else being the
/// defaults.
proof fn lemma_seconds_flag(rest: Seq<Seq<char>>)
    requires
        rest.len() > 0,
        rest[0].len() == 0 || rest[0][0] != '-',
    ensures
        args_outcome(seq!["--seconds"@] + rest) == ArgsOutcome::Parsed(
            ConfigView {
                settings: SettingsView { display: DisplayMode::Seconds, ..default_settings() },
                compare_commands: None,
                command: rest,
            },
        ),
{
    reveal_strlit("-h");
    reveal_strlit("--help");
    reveal_strlit("-q");
    reveal_strlit("--quiet");
    reveal_strlit("--median");
    reveal_strlit("--compare");
    reveal_strlit("-w");
    reveal_strlit("--warmup");
    reveal_strlit("--warmup=");
    reveal_strlit("-r");
    reveal_strlit("--runs");
    reveal_strlit("--runs=");
    reveal_strlit("--timeout");
    reveal_strlit("--timeout=");
    reveal_strlit("-p");
    reveal_strlit("--profile");
    reveal_strlit("--profile=");
    reveal_strlit("-p=");
    reveal_strlit("--seconds");
    reveal_strlit("--millis");
    reveal_strlit("--micros");
    reveal_strlit("--nanos");
    lemma_differ_at("--seconds"@, "-h"@, 1);
    lemma_differ_at("--seconds"@, "--help"@, 2);
    lemma_differ_at("--seconds"@, "-q"@, 1);
    lemma_differ_at("--seconds"@, "--quiet"@, 2);
    lemma_differ_at("--seconds"@, "--median"@, 2);
    lemma_differ_at("--seconds"@, "--compare"@, 2);
    lemma_differ_at("--seconds"@, "-w"@, 1);
    lemma_differ_at("--seconds"@, "--warmup"@, 2);
    lemma_differ_at("--seconds"@, "--warmup="@, 2);
    lemma_differ_at("--seconds"@, "-r"@, 1);
    lemma_differ_at("--seconds"@, "--runs"@, 2);
    lemma_differ_at("--seconds"@, "--runs="@, 2);
    lemma_differ_at("--seconds"@, "--timeout"@, 2);
    lemma_differ_at("--seconds"@, "--timeout="@, 2);
    lemma_differ_at("--seconds"@, "-p"@, 1);
    lemma_differ_at("--seconds"@, "--profile"@, 2);
    lemma_differ_at("--seconds"@, "--profile="@, 2);
    lemma_differ_at("--seconds"@, "-p="@, 1);
    let args = seq!["--seconds"@] + rest;
    assert(args[0] == "--seconds"@);
    assert(args[1] == rest[0]);
    assert(args.skip(1) =~= rest);
    let d = default_settings();
    let e = SettingsView { display: DisplayMode::Seconds, ..d };
    assert(scan(args, 0, d) == scan(args, 1, e));
    lemma_scan_stops_at_command(args, 1, e);
}

/// `--millis` in front of a command selects display mode `Millis`, everything else being the
/// defaults.
proof fn lemma_millis_flag(rest: Seq<Seq<char>>)
    requires
        rest.len() > 0,
        rest[0].len() == 0 || rest[0][0] != '-',
    ensures
        args_outcome(seq!["--millis"@] + rest) == ArgsOutcome::Parsed(
            ConfigView {
                settings: SettingsView { display: DisplayMode::Millis, ..default_settings() },
                compare_commands: None,
                command: rest,
            },
        ),
{
    reveal_strlit("-h");
    reveal_strlit("--help");
    reveal_strlit("-q");
    reveal_strlit("--quiet");
    reveal_strlit("--median");
    reveal_strlit("--compare");
    reveal_strlit("-w");
    reveal_strlit("--warmup");
    reveal_strlit("--warmup=");
    reveal_strlit("-r");
    reveal_strlit("--runs");
    reveal_strlit("--runs=");
    reveal_strlit("--timeout");
    reveal_strlit("--timeout=");
    reveal_strlit("-p");
    reveal_strlit("--profile");
    reveal_strlit("--profile=");
    reveal_strlit("-p=");
    reveal_strlit("--seconds");
    reveal_strlit("--millis");
    reveal_strlit("--micros");
    reveal_strlit("--nanos");
    lemma_differ_at("--millis"@, "-h"@, 1);
    lemma_differ_at("--millis"@, "--help"@, 2);
    lemma_differ_at("--millis"@, "-q"@, 1);
    lemma_differ_at("--millis"@, "--quiet"@, 2);
    lemma_differ_at("--millis"@, "--median"@, 3);
    lemma_differ_at("--millis"@, "--compare"@, 2);
    lemma_differ_at("--millis"@, "-w"@, 1);
    lemma_differ_at("--millis"@, "--warmup"@, 2);
    lemma_differ_at("--millis"@, "--warmup="@, 2);
    lemma_differ_at("--millis"@, "-r"@, 1);
    lemma_differ_at("--millis"@, "--runs"@, 2);
    lemma_differ_at("--millis"@, "--runs="@, 2);
    lemma_differ_at("--millis"@, "--timeout"@, 2);
    lemma_differ_at("--millis"@, "--timeout="@, 2);
    lemma_differ_at("--millis"@, "-p"@, 1);
    lemma_differ_at("--millis"@, "--profile"@, 2);
    lemma_differ_at("--millis"@, "--profile="@, 2);
    lemma_differ_at("--millis"@, "-p="@, 1);
    lemma_differ_at("--millis"@, "--seconds"@, 2);
    let args = seq!["--millis"@] + rest;
    assert(args[0] == "--millis"@);
    assert(args[1] == rest[0]);
    assert(args.skip(1) =~= rest);
    let d = default_settings();
    let e = SettingsView { display: DisplayMode::Millis, ..d };
    assert(scan(args, 0, d) == scan(args, 1, e));
    lemma_scan_stops_at_command(args, 1, e);
}

/// `--micros` in front of a command selects display mode `Micros`, everything else being the
/// defaults.
proof fn lemma_micros_flag(rest: Seq<Seq<char>>)
    requires
        rest.len() > 0,
        rest[0].len() == 0 || rest[0][0] != '-',
    ensures
        args_outcome(seq!["--micros"@] + rest) == ArgsOutcome::Parsed(
            ConfigView {
                settings: SettingsView { display: DisplayMode::Micros, ..default_settings() },
                compare_commands: None,
                command: rest,
            },
        ),
{
    reveal_strlit("-h");
    reveal_strlit("--help");
    reveal_strlit("-q");
    reveal_strlit("--quiet");
    reveal_strlit("--median");
    reveal_strlit("--compare");
    reveal_strlit("-w");
    reveal_strlit("--warmup");
    reveal_strlit("--warmup=");
    reveal_strlit("-r");
    reveal_strlit("--runs");
    reveal_strlit("--runs=");
    reveal_strlit("--timeout");
    reveal_strlit("--timeout=");
    reveal_strlit("-p");
    reveal_strlit("--profile");
    reveal_strlit("--profile=");
    reveal_strlit("-p=");
    reveal_strlit("--seconds");
    reveal_strlit("--millis");
    reveal_strlit("--micros");
    reveal_strlit("--nanos");
    lemma_differ_at("--micros"@, "-h"@, 1);
    lemma_differ_at("--micros"@, "--help"@, 2);
    lemma_differ_at("--micros"@, "-q"@, 1);
    lemma_differ_at("--micros"@, "--quiet"@, 2);
    lemma_differ_at("--micros"@, "--median"@, 3);
    lemma_differ_at("--micros"@, "--compare"@, 2);
    lemma_differ_at("--micros"@, "-w"@, 1);
    lemma_differ_at("--micros"@, "--warmup"@, 2);
    lemma_differ_at("--micros"@, "--warmup="@, 2);
    lemma_differ_at("--micros"@, "-r"@, 1);
    lemma_differ_at("--micros"@, "--runs"@, 2);
    lemma_differ_at("--micros"@, "--runs="@, 2);
    lemma_differ_at("--micros"@, "--timeout"@, 2);
    lemma_differ_at("--micros"@, "--timeout="@, 2);
    lemma_differ_at("--micros"@, "-p"@, 1);
    lemma_differ_at("--micros"@, "--profile"@, 2);
    lemma_differ_at("--micros"@, "--profile="@, 2);
    lemma_differ_at("--micros"@, "-p="@, 1);
    lemma_differ_at("--micros"@, "--seconds"@, 2);
    lemma_differ_at("--micros"@, "--millis"@, 4);
    let args = seq!["--micros"@] + rest;
    assert(args[0] == "--micros"@);
    assert(args[1] == rest[0]);
    assert(args.skip(1) =~= rest);
    let d = default_settings();
    let e = SettingsView { display: DisplayMode::Micros, ..d };
    assert(scan(args, 0, d) == scan(args, 1, e));
    lemma_scan_stops_at_command(args, 1, e);
}

/// `--nanos` in front of a command selects display mode `Nanos`, everything else being the
/// defaults.
proof fn lemma_nanos_flag(rest: Seq<Seq<char>>)
    requires
        rest.len() > 0,
        rest[0].len() == 0 || rest[0][0] != '-',
    ensures
        args_outcome(seq!["--nanos"@] + rest) == ArgsOutcome::Parsed(
            ConfigView {
                settings: SettingsView { display: DisplayMode::Nanos, ..default_settings() },
                compare_commands: None,
                command: rest,
            },
        ),
{
    reveal_strlit("-h");
    reveal_strlit("--help");
    reveal_strlit("-q");
    reveal_strlit("--quiet");
    reveal_strlit("--median");
    reveal_strlit("--compare");
    reveal_strlit("-w");
    reveal_strlit("--warmup");
    reveal_strlit("--warmup=");
    reveal_strlit("-r");
    reveal_strlit("--runs");
    reveal_strlit("--runs=");
    reveal_strlit("--timeout");
    reveal_strlit("--timeout=");
    reveal_strlit("-p");
    reveal_strlit("--profile");
    reveal_strlit("--profile=");
    reveal_strlit("-p=");
    reveal_strlit("--seconds");
    reveal_strlit("--millis");
    reveal_strlit("--micros");
    reveal_strlit("--nanos");
    lemma_differ_at("--nanos"@, "-h"@, 1);
    lemma_differ_at("--nanos"@, "--help"@, 2);
    lemma_differ_at("--nanos"@, "-q"@, 1);
    lemma_differ_at("--nanos"@, "--quiet"@, 2);
    lemma_differ_at("--nanos"@, "--median"@, 2);
    lemma_differ_at("--nanos"@, "--compare"@, 2);
    lemma_differ_at("--nanos"@, "-w"@, 1);
    lemma_differ_at("--nanos"@, "--warmup"@, 2);
    lemma_differ_at("--nanos"@, "--warmup="@, 2);
    lemma_differ_at("--nanos"@, "-r"@, 1);
    lemma_differ_at("--nanos"@, "--runs"@, 2);
    lemma_differ_at("--nanos"@, "--runs="@, 2);
    lemma_differ_at("--nanos"@, "--timeout"@, 2);
    lemma_differ_at("--nanos"@, "--timeout="@, 2);
    lemma_differ_at("--nanos"@, "-p"@, 1);
    lemma_differ_at("--nanos"@, "--profile"@, 2);
    lemma_differ_at("--nanos"@, "--profile="@, 2);
    lemma_differ_at("--nanos"@, "-p="@, 1);
    lemma_differ_at("--nanos"@, "--seconds"@, 2);
    lemma_differ_at("--nanos"@, "--millis"@, 2);
    lemma_differ_at("--nanos"@, "--micros"@, 2);
    let args = seq!["--nanos"@] + rest;
    assert(args[0] == "--nanos"@);
    assert(args[1] == rest[0]);
    assert(args.skip(1) =~= rest);
    let d = default_settings();
    let e = SettingsView { display: DisplayMode::Nanos, ..d };
    assert(scan(args, 0, d) == scan(args, 1, e));
    lemma_scan_stops_at_command(args, 1, e);
}

/// Each display flag selects its own mode: `--seconds`, `--millis`, `--micros` and
/// `--nanos` in front of a command give decimal seconds, milliseconds, microseconds and
/// whole nanoseconds, everything else being the defaults.
pub proof fn law_display_flags(rest: Seq<Seq<char>>)
    requires
        rest.len() > 0,
        rest[0].len() == 0 || rest[0][0] != '-',
    ensures
        args_outcome(seq!["--seconds"@] + rest) == ArgsOutcome::Parsed(
            ConfigView {
                settings: SettingsView { display: DisplayMode::Seconds, ..default_settings() },
                compare_commands: None,
                command: rest,
            },
        ),
        args_outcome(seq!["--millis"@] + rest) == ArgsOutcome::Parsed(
            ConfigView {
                settings: SettingsView { display: DisplayMode::Millis, ..default_settings() },
                compare_commands: None,
                command: rest,
            },
        ),
        args_outcome(seq!["--micros"@] + rest) == ArgsOutcome::Parsed(
            ConfigView {
                settings: SettingsView { display: DisplayMode::Micros, ..default_settings() },
                compare_commands: None,
                command: rest,
            },
        ),
        args_outcome(seq!["--nanos"@] + rest) == ArgsOutcome::Parsed(
            ConfigView {
                settings: SettingsView { display: DisplayMode::Nanos, ..default_settings() },
                compare_commands: None,
                command: rest,
            },
        ),
{
    lemma_seconds_flag(rest);
    lemma_millis_flag(rest);
    lemma_micros_flag(rest);
    lemma_nanos_flag(rest);
}

/// `-q` in front of a command turns quiet on.
proof fn lemma_quiet_short(rest: Seq<Seq<char>>)
    requires
        rest.len() > 0,
        rest[0].len() == 0 || rest[0][0] != '-',
    ensures
        args_outcome(seq!["-q"@] + rest) == ArgsOutcome::Parsed(
            ConfigView {
                settings: SettingsView { quiet: true, ..default_settings() },
                compare_commands: None,
                command: rest,
            },
        ),
{
    reveal_strlit("-h");
    reveal_strlit("--help");
    reveal_strlit("-q");
    reveal_strlit("--quiet");
    reveal_strlit("--median");
    reveal_strlit("--compare");
    reveal_strlit("-w");
    reveal_strlit("--warmup");
    reveal_strlit("--warmup=");
    reveal_strlit("-r");
    reveal_strlit("--runs");
    reveal_strlit("--runs=");
    reveal_strlit("--timeout");
    reveal_strlit("--timeout=");
    reveal_strlit("-p");
    reveal_strlit("--profile");
    reveal_strlit("--profile=");
    reveal_strlit("-p=");
    reveal_strlit("--seconds");
    reveal_strlit("--millis");
    reveal_strlit("--micros");
    reveal_strlit("--nanos");
    lemma_differ_at("-q"@, "-h"@, 1);
    lemma_differ_at("-q"@, "--help"@, 1);
    let args = seq!["-q"@] + rest;
    assert(args[0] == "-q"@);
    assert(args[1] == rest[0]);
    assert(args.skip(1) =~= rest);
    let d = default_settings();
    let e = SettingsView { quiet: true, ..d };
    assert(scan(args, 0, d) == scan(args, 1, e));
    lemma_scan_stops_at_command(args, 1, e);
}

/// `--quiet` in front of a command turns quiet on.
proof fn lemma_quiet_long(rest: Seq<Seq<char>>)
    requires
        rest.len() > 0,
        rest[0].len() == 0 || rest[0][0] != '-',
    ensures
        args_outcome(seq!["--quiet"@] + rest) == ArgsOutcome::Parsed(
            ConfigView {
                settings: SettingsView { quiet: true, ..default_settings() },
                compare_commands: None,
                command: rest,
            },
        ),
{
    reveal_strlit("-h");
    reveal_strlit("--help");
    reveal_strlit("-q");
    reveal_strlit("--quiet");
    reveal_strlit("--median");
    reveal_strlit("--compare");
    reveal_strlit("-w");
    reveal_strlit("--warmup");
    reveal_strlit("--warmup=");
    reveal_strlit("-r");
    reveal_strlit("--runs");
    reveal_strlit("--runs=");
    reveal_strlit("--timeout");
    reveal_strlit("--timeout=");
    reveal_strlit("-p");
    reveal_strlit("--profile");
    reveal_strlit("--profile=");
    reveal_strlit("-p=");
    reveal_strlit("--seconds");
    reveal_strlit("--millis");
    reveal_strlit("--micros");
    reveal_strlit("--nanos");
    lemma_differ_at("--quiet"@, "-h"@, 1);
    lemma_differ_at("--quiet"@, "--help"@, 2);
    lemma_differ_at("--quiet"@, "-q"@, 1);
    let args = seq!["--quiet"@] + rest;
    assert(args[0] == "--quiet"@);
    assert(args[1] == rest[0]);
    assert(args.skip(1) =~= rest);
    let d = default_settings();
    let e = SettingsView { quiet: true, ..d };
    assert(scan(args, 0, d) == scan(args, 1, e));
    lemma_scan_stops_at_command(args, 1, e);
}

/// `--median` in front of a command reports the median.
proof fn lemma_median_flag(rest: Seq<Seq<char>>)
    requires
        rest.len() > 0,
        rest[0].len() == 0 || rest[0][0] != '-',
    ensures
        args_outcome(seq!["--median"@] + rest) == ArgsOutcome::Parsed(
            ConfigView {
                settings: SettingsView { median: true, ..default_settings() },
                compare_commands: None,
                command: rest,
            },
        ),
{
    reveal_strlit("-h");
    reveal_strlit("--help");
    reveal_strlit("-q");
    reveal_strlit("--quiet");
    reveal_strlit("--median");
    reveal_strlit("--compare");
    reveal_strlit("-w");
    reveal_strlit("--warmup");
    reveal_strlit("--warmup=");
    reveal_strlit("-r");
    reveal_strlit("--runs");
    reveal_strlit("--runs=");
    reveal_strlit("--timeout");
    reveal_strlit("--timeout=");
    reveal_strlit("-p");
    reveal_strlit("--profile");
    reveal_strlit("--profile=");
    reveal_strlit("-p=");
    reveal_strlit("--seconds");
    reveal_strlit("--millis");
    reveal_strlit("--micros");
    reveal_strlit("--nanos");
    lemma_differ_at("--median"@, "-h"@, 1);
    lemma_differ_at("--median"@, "--help"@, 2);
    lemma_differ_at("--median"@, "-q"@, 1);
    lemma_differ_at("--median"@, "--quiet"@, 2);
    let args = seq!["--median"@] + rest;
    assert(args[0] == "--median"@);
    assert(args[1] == rest[0]);
    assert(args.skip(1) =~= rest);
    let d = default_settings();
    let e = SettingsView { median: true, ..d };
    assert(scan(args, 0, d) == scan(args, 1, e));
    lemma_scan_stops_at_command(args, 1, e);
}

/// `-r <n>` in front of a command asks for `n` measured runs.
proof fn lemma_runs_short(n: usize, rest: Seq<Seq<char>>)
    requires
        rest.len() > 0,
        rest[0].len() == 0 || rest[0][0] != '-',
    ensures
        args_outcome(seq!["-r"@, decimal(n as nat)] + rest) == ArgsOutcome::Parsed(
            ConfigView {
                settings: SettingsView { runs: n, ..default_settings() },
                compare_commands: None,
                command: rest,
            },
        ),
{
    reveal_strlit("-h");
    reveal_strlit("--help");
    reveal_strlit("-q");
    reveal_strlit("--quiet");
    reveal_strlit("--median");
    reveal_strlit("--compare");
    reveal_strlit("-w");
    reveal_strlit("--warmup");
    reveal_strlit("--warmup=");
    reveal_strlit("-r");
    reveal_strlit("--runs");
    reveal_strlit("--runs=");
    reveal_strlit("--timeout");
    reveal_strlit("--timeout=");
    reveal_strlit("-p");
    reveal_strlit("--profile");
    reveal_strlit("--profile=");
    reveal_strlit("-p=");
    reveal_strlit("--seconds");
    reveal_strlit("--millis");
    reveal_strlit("--micros");
    reveal_strlit("--nanos");
    lemma_differ_at("-r"@, "-h"@, 1);
    lemma_differ_at("-r"@, "--help"@, 1);
    lemma_differ_at("-r"@, "-q"@, 1);
    lemma_differ_at("-r"@, "--quiet"@, 1);
    lemma_differ_at("-r"@, "--median"@, 1);
    lemma_differ_at("-r"@, "--compare"@, 1);
    lemma_differ_at("-r"@, "-w"@, 1);
    lemma_differ_at("-r"@, "--warmup"@, 1);
    lemma_differ_at("-r"@, "--warmup="@, 1);
    lemma_usize_parse_decimal(n as nat);
    let args = seq!["-r"@, decimal(n as nat)] + rest;
    assert(args[0] == "-r"@);
    assert(args[1] == decimal(n as nat));
    assert(args[2] == rest[0]);
    assert(args.skip(2) =~= rest);
    let d = default_settings();
    let e = SettingsView { runs: n, ..d };
    assert(scan(args, 0, d) == scan(args, 2, e));
    lemma_scan_stops_at_command(args, 2, e);
}

/// `--runs <n>` in front of a command asks for `n` measured runs.
proof fn lemma_runs_long(n: usize, rest: Seq<Seq<char>>)
    requires
        rest.len() > 0,
        rest[0].len() == 0 || rest[0][0] != '-',
    ensures
        args_outcome(seq!["--runs"@, decimal(n as nat)] + rest) == ArgsOutcome::Parsed(
            ConfigView {
                settings: SettingsView { runs: n, ..default_settings() },
                compare_commands: None,
                command: rest,
            },
        ),
{
    reveal_strlit("-h");
    reveal_strlit("--help");
    reveal_strlit("-q");
    reveal_strlit("--quiet");
    reveal_strlit("--median");
    reveal_strlit("--compare");
    reveal_strlit("-w");
    reveal_strlit("--warmup");
    reveal_strlit("--warmup=");
    reveal_strlit("-r");
    reveal_strlit("--runs");
    reveal_strlit("--runs=");
    reveal_strlit("--timeout");
    reveal_strlit("--timeout=");
    reveal_strlit("-p");
    reveal_strlit("--profile");
    reveal_strlit("--profile=");
    reveal_strlit("-p=");
    reveal_strlit("--seconds");
    reveal_strlit("--millis");
    reveal_strlit("--micros");
    reveal_strlit("--nanos");
    lemma_differ_at("--runs"@, "-h"@, 1);
    lemma_differ_at("--runs"@, "--help"@, 2);
    lemma_differ_at("--runs"@, "-q"@, 1);
    lemma_differ_at("--runs"@, "--quiet"@, 2);
    lemma_differ_at("--runs"@, "--median"@, 2);
    lemma_differ_at("--runs"@, "--compare"@, 2);
    lemma_differ_at("--runs"@, "-w"@, 1);
    lemma_differ_at("--runs"@, "--warmup"@, 2);
    lemma_differ_at("--runs"@, "--warmup="@, 2);
    lemma_differ_at("--runs"@, "-r"@, 1);
    lemma_usize_parse_decimal(n as nat);
    let args = seq!["--runs"@, decimal(n as nat)] + rest;
    assert(args[0] == "--runs"@);
    assert(args[1] == decimal(n as nat));
    assert(args[2] == rest[0]);
    assert(args.skip(2) =~= rest);
    let d = default_settings();
    let e = SettingsView { runs: n, ..d };
    assert(scan(args, 0, d) == scan(args, 2, e));
    lemma_scan_stops_at_command(args, 2, e);
}

/// `-w <n>` in front of a command asks for `n` warmup runs.
proof fn lemma_warmup_short(n: usize, rest: Seq<Seq<char>>)
    requires
        rest.len() > 0,
        rest[0].len() == 0 || rest[0][0] != '-',
    ensures
        args_outcome(seq!["-w"@, decimal(n as nat)] + rest) == ArgsOutcome::Parsed(
            ConfigView {
                settings: SettingsView { warmup: n, ..default_settings() },
                compare_commands: None,
                command: rest,
            },
        ),
{
    reveal_strlit("-h");
    reveal_strlit("--help");
    reveal_strlit("-q");
    reveal_strlit("--quiet");
    reveal_strlit("--median");
    reveal_strlit("--compare");
    reveal_strlit("-w");
    reveal_strlit("--warmup");
    reveal_strlit("--warmup=");
    reveal_strlit("-r");
    reveal_strlit("--runs");
    reveal_strlit("--runs=");
    reveal_strlit("--timeout");
    reveal_strlit("--timeout=");
    reveal_strlit("-p");
    reveal_strlit("--profile");
    reveal_strlit("--profile=");
    reveal_strlit("-p=");
    reveal_strlit("--seconds");
    reveal_strlit("--millis");
    reveal_strlit("--micros");
    reveal_strlit("--nanos");
    lemma_differ_at("-w"@, "-h"@, 1);
    lemma_differ_at("-w"@, "--help"@, 1);
    lemma_differ_at("-w"@, "-q"@, 1);
    lemma_differ_at("-w"@, "--quiet"@, 1);
    lemma_differ_at("-w"@, "--median"@, 1);
    lemma_differ_at("-w"@, "--compare"@, 1);
    lemma_usize_parse_decimal(n as nat);
    let args = seq!["-w"@, decimal(n as nat)] + rest;
    assert(args[0] == "-w"@);
    assert(args[1] == decimal(n as nat));
    assert(args[2] == rest[0]);
    assert(args.skip(2) =~= rest);
    let d = default_settings();
    let e = SettingsView { warmup: n, ..d };
    assert(scan(args, 0, d) == scan(args, 2, e));
    lemma_scan_stops_at_command(args, 2, e);
}

/// `--warmup <n>` in front of a command asks for `n` warmup runs.
proof fn lemma_warmup_long(n: usize, rest: Seq<Seq<char>>)
    requires
        rest.len() > 0,
        rest[0].len() == 0 || rest[0][0] != '-',
    ensures
        args_outcome(seq!["--warmup"@, decimal(n as nat)] + rest) == ArgsOutcome::Parsed(
            ConfigView {
                settings: SettingsView { warmup: n, ..default_settings() },
                compare_commands: None,
                command: rest,
            },
        ),
{
    reveal_strlit("-h");
    reveal_strlit("--help");
    reveal_strlit("-q");
    reveal_strlit("--quiet");
    reveal_strlit("--median");
    reveal_strlit("--compare");
    reveal_strlit("-w");
    reveal_strlit("--warmup");
    reveal_strlit("--warmup=");
    reveal_strlit("-r");
    reveal_strlit("--runs");
    reveal_strlit("--runs=");
    reveal_strlit("--timeout");
    reveal_strlit("--timeout=");
    reveal_strlit("-p");
    reveal_strlit("--profile");
    reveal_strlit("--profile=");
    reveal_strlit("-p=");
    reveal_strlit("--seconds");
    reveal_strlit("--millis");
    reveal_strlit("--micros");
    reveal_strlit("--nanos");
    lemma_differ_at("--warmup"@, "-h"@, 1);
    lemma_differ_at("--warmup"@, "--help"@, 2);
    lemma_differ_at("--warmup"@, "-q"@, 1);
    lemma_differ_at("--warmup"@, "--quiet"@, 2);
    lemma_differ_at("--warmup"@, "--median"@, 2);
    lemma_differ_at("--warmup"@, "--compare"@, 2);
    lemma_differ_at("--warmup"@, "-w"@, 1);
    lemma_usize_parse_decimal(n as nat);
    let args = seq!["--warmup"@, decimal(n as nat)] + rest;
    assert(args[0] == "--warmup"@);
    assert(args[1] == decimal(n as nat));
    assert(args[2] == rest[0]);
    assert(args.skip(2) =~= rest);
    let d = default_settings();
    let e = SettingsView { warmup: n, ..d };
    assert(scan(args, 0, d) == scan(args, 2, e));
    lemma_scan_stops_at_command(args, 2, e);
}

/// Each flag in front of a command sets only its own setting: `-q`/`--quiet` quiet,
/// `--median` the median, `-r`/`--runs <n>` the measured runs and `-w`/`--warmup <n>` the
/// warmup runs, everything else being the defaults.
pub proof fn law_setting_flags(n: usize, rest: Seq<Seq<char>>)
    requires
        rest.len() > 0,
        rest[0].len() == 0 || rest[0][0] != '-',
    ensures
        args_outcome(seq!["-q"@] + rest) == ArgsOutcome::Parsed(
            ConfigView {
                settings: SettingsView { quiet: true, ..default_settings() },
                compare_commands: None,
                command: rest,
            },
        ),
        args_outcome(seq!["--quiet"@] + rest) == ArgsOutcome::Parsed(
            ConfigView {
                settings: SettingsView { quiet: true, ..default_settings() },
                compare_commands: None,
                command: rest,
            },
        ),
        args_outcome(seq!["--median"@] + rest) == ArgsOutcome::Parsed(
            ConfigView {
                settings: SettingsView { median: true, ..default_settings() },
                compare_commands: None,
                command: rest,
            },
        ),
        args_outcome(seq!["-r"@, decimal(n as nat)] + rest) == ArgsOutcome::Parsed(
            ConfigView {
                settings: SettingsView { runs: n, ..default_settings() },
                compare_commands: None,
                command: rest,
            },
        ),
        args_outcome(seq!["--runs"@, decimal(n as nat)] + rest) == ArgsOutcome::Parsed(
            ConfigView {
                settings: SettingsView { runs: n, ..default_settings() },
                compare_commands: None,
                command: rest,
            },
        ),
        args_outcome(seq!["-w"@, decimal(n as nat)] + rest) == ArgsOutcome::Parsed(
            ConfigView {
                settings: SettingsView { warmup: n, ..default_settings() },
                compare_commands: None,
                command: rest,
            },
        ),
        args_outcome(seq!["--warmup"@, decimal(n as nat)] + rest) == ArgsOutcome::Parsed(
            ConfigView {
                settings: SettingsView { warmup: n, ..default_settings() },
                compare_commands: None,
                command: rest,
            },
        ),
{
    lemma_quiet_short(rest);
    lemma_quiet_long(rest);
    lemma_median_flag(rest);
    lemma_runs_short(n, rest);
    lemma_runs_long(n, rest);
    lemma_warmup_short(n, rest);
    lemma_warmup_long(n, rest);
}

/// A loaded profile sets exactly its runs, warmup and quiet: when the command follows
/// right after the profile flag, the configuration has the profile's three settings and
/// keeps every other setting gathered before it.
pub proof fn law_profile_sets_runs_warmup_quiet(
    args: Seq<Seq<char>>,
    name: Seq<char>,
    resume_at: nat,
    st: SettingsView,
    runs: usize,
    warmup: usize,
    quiet: bool,
)
    requires
        resume_at < args.len(),
        args[resume_at as int].len() == 0 || args[resume_at as int][0] != '-',
        !st.compare,
    ensures
        resume_outcome(args, name, resume_at, st, Some((runs, warmup, quiet))) matches ArgsOutcome::Parsed(c)
            && c.settings.runs == runs
            && c.settings.warmup == warmup
            && c.settings.quiet == quiet
            && c.settings.median == st.median
            && c.settings.display == st.display
            && c.settings.timeout == st.timeout
            && c.command == args.skip(resume_at as int),
        resume_outcome(args, name, resume_at, st, None) == ArgsOutcome::Failed("Profile not found: "@ + name),
{
    lemma_scan_stops_at_command(args, resume_at, SettingsView { runs, warmup, quiet, ..st });
}

} // verus!
