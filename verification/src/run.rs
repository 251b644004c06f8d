//! Deciding how a command is started, what its failures read as, and the order of
//! warmup, cooldown and measured runs when timing it.
use vstd::prelude::*;
use crate::cli::arg_texts;
use crate::decimal::{decimal, push_decimal};
use crate::format::{duration_text, format_duration, format_duration_auto, auto_text, DisplayMode};
use crate::stats::{calculate_timing_stats, stats_match, total_nanos, TimingResult};
use crate::text::{chars_of, extend_chars, message, string_from_chars};

verus! {

/// How a command is started: a program and its arguments.
pub struct CommandPlan {
    pub program: String,
    pub args: Vec<String>,
}

/// What starting `cmd` gives: a single string goes to `sh -c`, several words are a
/// program and its arguments, and nothing is an error.
pub open spec fn command_plan(cmd: Seq<Seq<char>>) -> Result<(Seq<char>, Seq<Seq<char>>), Seq<char>> {
    if cmd.len() == 0 {
        Err("Empty command"@)
    } else if cmd.len() == 1 {
        Ok(("sh"@, seq!["-c"@, cmd[0]]))
    } else {
        Ok((cmd[0], cmd.skip(1)))
    }
}

/// The plain form of a planned command.
pub open spec fn plan_view(r: Result<CommandPlan, String>) -> Result<(Seq<char>, Seq<Seq<char>>), Seq<char>> {
    match r {
        Ok(p) => Ok((p.program@, arg_texts(p.args@))),
        Err(e) => Err(e@),
    }
}

/// Decides how to start the command `cmd_args`: one string runs through `sh -c` (so
/// that a quoted command line works as typed), several are a program and its
/// arguments; an empty command is an error.
pub fn plan_command(cmd_args: &Vec<String>) -> (r: Result<CommandPlan, String>)
    ensures
        plan_view(r) == command_plan(arg_texts(cmd_args@)),
{
    if cmd_args.len() == 0 {
        return Err("Empty command".to_owned());
    }
    if cmd_args.len() == 1 {
        let mut args: Vec<String> = Vec::new();
        args.push("-c".to_owned());
        args.push(cmd_args[0].clone());
        assert(arg_texts(args@) =~= seq!["-c"@, arg_texts(cmd_args@)[0]]);
        return Ok(CommandPlan { program: "sh".to_owned(), args });
    }
    let program = cmd_args[0].clone();
    let mut args: Vec<String> = Vec::new();
    let mut j: usize = 1;
    while j < cmd_args.len()
        invariant
            1 <= j <= cmd_args@.len(),
            arg_texts(args@) == arg_texts(cmd_args@).subrange(1, j as int),
        decreases cmd_args.len() - j,
    {
        let a = cmd_args[j].clone();
        let ghost before = args@;
        args.push(a);
        assert(arg_texts(args@) =~= arg_texts(before).push(cmd_args@[j as int]@));
        j += 1;
        assert(arg_texts(args@) =~= arg_texts(cmd_args@).subrange(1, j as int));
    }
    assert(arg_texts(cmd_args@).subrange(1, j as int) =~= arg_texts(cmd_args@).skip(1));
    Ok(CommandPlan { program, args })
}

/// The decimal rendering of a signed integer.
pub open spec fn signed_decimal(x: int) -> Seq<char> {
    if x < 0 {
        seq!['-'] + decimal((-x) as nat)
    } else {
        decimal(x as nat)
    }
}

/// The message for a command that exited unsuccessfully, with its exit code, or `-1`
/// when it has none (killed by a signal).
pub fn exit_failure_message(code: Option<i32>) -> (m: String)
    ensures
        m@ == "Command failed with exit code: "@ + signed_decimal(
            match code {
                Some(c) => c as int,
                None => -1,
            },
        ),
{
    let c: i32 = match code {
        Some(c) => c,
        None => -1,
    };
    let mut digits: Vec<char> = Vec::new();
    if c < 0 {
        digits.push('-');
        let magnitude: i64 = -(c as i64);
        push_decimal(&mut digits, magnitude as u128);
    } else {
        push_decimal(&mut digits, c as u128);
    }
    message("Command failed with exit code: ", &digits)
}

/// The message for a command stopped by the time limit of `timeout_ns` nanoseconds.
pub fn timeout_message(timeout_ns: u128) -> (m: String)
    ensures
        m@ == "Command timed out after "@ + auto_text(timeout_ns as nat),
{
    let shown = format_duration_auto(timeout_ns);
    message("Command timed out after ", &chars_of(shown.as_str()))
}

/// The progress line for measured run `run` of `runs`.
pub fn run_report(run: usize, runs: usize, elapsed_ns: u128, mode: DisplayMode) -> (m: String)
    ensures
        m@ == "Run "@ + decimal(run as nat) + seq!['/'] + decimal(runs as nat) + seq![':', ' ']
            + duration_text(elapsed_ns as nat, mode),
{
    let mut text = chars_of("Run ");
    push_decimal(&mut text, run as u128);
    text.push('/');
    push_decimal(&mut text, runs as u128);
    text.push(':');
    text.push(' ');
    let shown = format_duration(elapsed_ns, mode);
    extend_chars(&mut text, &chars_of(shown.as_str()));
    string_from_chars(&text)
}

/// What timing a command does next.
#[derive(Clone, Copy, Debug, PartialEq, Eq, Structural)]
pub enum SessionAction {
    /// Run the command once, quietly, without measuring it.
    Warmup,
    /// Wait out the cooldown after the warmup runs.
    CoolDown,
    /// Run and measure the command; the number of this run, from 1.
    Measure(usize),
    /// All runs are measured.
    Finished,
}

/// Where timing a command stands: `warmup` unmeasured runs, a cooldown after them if
/// there were any, then `runs` measured runs.
pub struct TimingSession {
    pub warmup: usize,
    pub runs: usize,
    pub warmups_done: usize,
    pub cooled: bool,
    pub times: Vec<u128>,
}

impl TimingSession {
    /// Neither more warmup runs nor more measured runs than asked for have been done.
    pub open spec fn wf(&self) -> bool {
        self.warmups_done <= self.warmup && self.times@.len() <= self.runs
    }

    /// What comes next: the remaining warmup runs, the cooldown (only after at least one
    /// warmup run), the remaining measured runs, then the end.
    pub open spec fn next(&self) -> SessionAction {
        if self.warmups_done < self.warmup {
            SessionAction::Warmup
        } else if self.warmup > 0 && !self.cooled {
            SessionAction::CoolDown
        } else if self.times@.len() < self.runs {
            SessionAction::Measure((self.times@.len() + 1) as usize)
        } else {
            SessionAction::Finished
        }
    }

    /// A session that has done nothing yet.
    pub fn new(warmup: usize, runs: usize) -> (s: TimingSession)
        ensures
            s.wf(),
            s.warmup == warmup,
            s.runs == runs,
            s.warmups_done == 0,
            !s.cooled,
            s.times@.len() == 0,
    {
        TimingSession { warmup, runs, warmups_done: 0, cooled: false, times: Vec::new() }
    }

    /// The next action.
    pub fn next_action(&self) -> (a: SessionAction)
        requires
            self.wf(),
        ensures
            a == self.next(),
    {
        if self.warmups_done < self.warmup {
            SessionAction::Warmup
        } else if self.warmup > 0 && !self.cooled {
            SessionAction::CoolDown
        } else if self.times.len() < self.runs {
            SessionAction::Measure(self.times.len() + 1)
        } else {
            SessionAction::Finished
        }
    }

    /// Records that a warmup run finished.
    pub fn warmup_finished(&mut self)
        requires
            old(self).wf(),
            old(self).next() == SessionAction::Warmup,
        ensures
            final(self).wf(),
            final(self).warmups_done == old(self).warmups_done + 1,
            final(self).warmup == old(self).warmup,
            final(self).runs == old(self).runs,
            final(self).cooled == old(self).cooled,
            final(self).times@ == old(self).times@,
    {
        self.warmups_done = self.warmups_done + 1;
    }

    /// Records that the cooldown is over.
    pub fn cooldown_finished(&mut self)
        requires
            old(self).wf(),
            old(self).next() == SessionAction::CoolDown,
        ensures
            final(self).wf(),
            final(self).cooled,
            final(self).warmups_done == old(self).warmups_done,
            final(self).warmup == old(self).warmup,
            final(self).runs == old(self).runs,
            final(self).times@ == old(self).times@,
    {
        self.cooled = true;
    }

    /// Records the duration of a measured run.
    pub fn record(&mut self, elapsed_ns: u128)
        requires
            old(self).wf(),
            old(self).next() is Measure,
        ensures
            final(self).wf(),
            final(self).times@ == old(self).times@.push(elapsed_ns),
            final(self).warmups_done == old(self).warmups_done,
            final(self).warmup == old(self).warmup,
            final(self).runs == old(self).runs,
            final(self).cooled == old(self).cooled,
    {
        self.times.push(elapsed_ns);
    }

    /// The statistics of the measured runs.
    pub fn finish(self) -> (r: TimingResult)
        requires
            self.wf(),
            self.next() == SessionAction::Finished,
            total_nanos(self.times@) <= u128::MAX,
        ensures
            stats_match(r, self.times@),
            r.times@.len() == self.runs,
    {
        calculate_timing_stats(self.times)
    }
}

/// The statistic that is reported: the median, or else the average.
pub fn chosen_statistic(result: &TimingResult, median: bool) -> (nanos: u128)
    ensures
        nanos == if median { result.median } else { result.avg },
{
    if median {
        result.median
    } else {
        result.avg
    }
}

/// The faster of two timed commands, `A` (first) or `B` (second), with the faster and
/// the slower statistic; `B` wins ties.
pub fn faster_of(stat_a: u128, stat_b: u128) -> (r: (char, u128, u128))
    ensures
        r == if stat_a < stat_b { ('A', stat_a, stat_b) } else { ('B', stat_b, stat_a) },
{
    if stat_a < stat_b {
        ('A', stat_a, stat_b)
    } else {
        ('B', stat_b, stat_a)
    }
}

/// A command of two or more words is started as written: the program is the first word,
/// and the program followed by its arguments gives back the whole command.
pub proof fn law_words_run_as_written(cmd: Seq<Seq<char>>)
    requires
        cmd.len() >= 2,
    ensures
        command_plan(cmd) matches Ok((program, args)) && program == cmd[0] && seq![program] + args
            == cmd,
{
    assert(seq![cmd[0]] + cmd.skip(1) =~= cmd);
}

/// A single string runs through the shell: `sh -c` with the string as the one command
/// line, so that a quoted pipeline works as typed.
pub proof fn law_single_string_through_shell(cmd: Seq<Seq<char>>)
    requires
        cmd.len() == 1,
    ensures
        command_plan(cmd) matches Ok((program, args)) && program == "sh"@ && args.len() == 2
            && args[0] == "-c"@ && args[1] == cmd[0],
{
}

/// The order of a session: no measured run before every warmup run is done and, when
/// there were warmup runs, before the cooldown; no cooldown without warmup runs; and
/// once the warmup runs are done the cooldown comes next.
pub proof fn law_session_order(s: TimingSession)
    requires
        s.wf(),
    ensures
        s.next() is Measure ==> s.warmups_done == s.warmup && (s.warmup > 0 ==> s.cooled),
        s.next() == SessionAction::Finished ==> s.warmups_done == s.warmup && (s.warmup > 0
            ==> s.cooled) && s.times@.len() == s.runs,
        s.next() == SessionAction::CoolDown ==> s.warmup > 0 && s.warmups_done == s.warmup,
        s.warmup > 0 && s.warmups_done == s.warmup && !s.cooled ==> s.next()
            == SessionAction::CoolDown,
        s.next() is Measure ==> s.next() == SessionAction::Measure((s.times@.len() + 1) as usize),
{
}

} // verus!
