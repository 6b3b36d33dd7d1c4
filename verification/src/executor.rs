//! Running the process of a route: starting it, streaming its output, ending it in time.

use crate::config::GlobalConfig;
use crate::handler;
use crate::handler::{secs_to_nanos, Reply};
use crate::lines::{LineStream, OutputLine};
use crate::text;
use crate::text::signed_decimal_text;
use vstd::prelude::*;

verus! {

/// Execution limits loaded from `GlobalConfig`. Durations are nanoseconds.
#[derive(Clone, Copy, Debug)]
pub struct ExecutionLimits {
    /// How long a process may run.
    pub timeout_duration: u128,
    /// How long it has after SIGTERM.
    pub grace_duration: u128,
    /// How long its output is drained after it has exited.
    pub drain_duration: u128,
    pub max_line_length: usize,
}

impl ExecutionLimits {
    /// The limits of a configuration.
    pub fn from_config(global: &GlobalConfig) -> (limits: Self)
        ensures
            limits.timeout_duration == handler::secs(global.timeout),
            limits.grace_duration == handler::secs(global.kill_grace_secs),
            limits.drain_duration == handler::secs(global.drain_grace_secs),
            limits.max_line_length == global.max_line_length,
    {
        ExecutionLimits {
            timeout_duration: secs_to_nanos(global.timeout),
            grace_duration: secs_to_nanos(global.kill_grace_secs),
            drain_duration: secs_to_nanos(global.drain_grace_secs),
            max_line_length: global.max_line_length,
        }
    }
}

/// What came of trying to start the process of a route.
#[derive(Clone, Copy, Debug)]
pub enum SpawnOutcome {
    /// As many executions of the route run as may.
    NoPermit,
    /// The process could not be started.
    Failed,
    /// The process runs.
    Started,
}

/// A process that was started, with the limits that it runs under.
#[derive(Debug)]
pub struct RouteExecution {
    pub limits: ExecutionLimits,
}

/// What it takes to follow a process: who ends it in time, what goes out, and its two outputs.
pub struct Execution {
    pub supervisor: Supervisor,
    pub output: OutputPhase,
    pub stdout: LineStream,
    pub stderr: LineStream,
}

impl RouteExecution {
    /// Goes on after the process of a route was to be started: without it the request is
    /// answered with an error.
    pub fn spawn(outcome: SpawnOutcome, limits: ExecutionLimits) -> (r: Result<Self, Reply>)
        ensures
            match outcome {
                SpawnOutcome::NoPermit => r matches Err(reply) && reply.status == 503 && reply.body@
                    == "Route concurrency limit reached"@,
                SpawnOutcome::Failed => r matches Err(reply) && reply.status == 500 && reply.body@
                    == "Failed to execute shell"@,
                SpawnOutcome::Started => r matches Ok(execution) && execution.limits == limits,
            },
    {
        match outcome {
            SpawnOutcome::NoPermit => Err(
                Reply { status: 503, body: "Route concurrency limit reached".to_string() },
            ),
            SpawnOutcome::Failed => Err(
                Reply { status: 500, body: "Failed to execute shell".to_string() },
            ),
            SpawnOutcome::Started => Ok(RouteExecution { limits }),
        }
    }

    /// Begins to follow the process.
    pub fn stream_output(self) -> (execution: Execution)
        ensures
            execution.supervisor == Supervisor::started(self.limits),
            execution.output == OutputPhase::Running,
            execution.stdout.wf(),
            execution.stdout.kind() == "stdout"@,
            execution.stdout.seen() == Seq::<u8>::empty(),
            execution.stdout.max() == self.limits.max_line_length,
            execution.stderr.wf(),
            execution.stderr.kind() == "stderr"@,
            execution.stderr.seen() == Seq::<u8>::empty(),
            execution.stderr.max() == self.limits.max_line_length,
    {
        Execution {
            supervisor: Supervisor {
                terminating: false,
                wait: self.limits.timeout_duration,
                grace: self.limits.grace_duration,
            },
            output: OutputPhase::Running,
            stdout: LineStream::new("stdout", self.limits.max_line_length),
            stderr: LineStream::new("stderr", self.limits.max_line_length),
        }
    }
}

/// What is reported where it is not known how a process ended.
pub const NO_CODE: i32 = -1;

/// How a process ended: its exit code, or the signal that killed it.
#[derive(Clone, Copy, Debug)]
pub struct ExitStatus {
    pub code: Option<i32>,
    pub signal: Option<u8>,
}

/// The number that stands for the end of a process.
pub open spec fn status_code(status: ExitStatus) -> i32 {
    match status.code {
        Some(code) => code,
        None => match status.signal {
            Some(signal) => (128 + signal) as i32,
            None => NO_CODE,
        },
    }
}

/// The process exit code, 128 + signal if killed by a signal, or -1 if neither is available.
pub fn exit_status_code(status: ExitStatus) -> (code: i32)
    ensures
        code == status_code(status),
{
    match status.code {
        Some(code) => code,
        None => match status.signal {
            Some(signal) => 128 + signal as i32,
            None => NO_CODE,
        },
    }
}

/// What a supervisor learns of its process.
#[derive(Clone, Copy, Debug)]
pub enum ChildEvent {
    Exited(ExitStatus),
    /// The process cannot be waited for.
    WaitFailed,
    /// The process has not exited in the time that it had.
    TimedOut,
}

/// The signals that a supervisor sends to the process group.
#[derive(Clone, Copy, Debug, PartialEq, Eq, Structural)]
pub enum Signal {
    Term,
    Kill,
}

/// Ends a process that does not end by itself.
#[derive(Clone, Copy, Debug)]
pub struct Supervisor {
    /// SIGTERM was sent.
    pub terminating: bool,
    /// How long to wait for the process to exit.
    pub wait: u128,
    /// How long to wait after SIGTERM.
    pub grace: u128,
}

/// What a supervisor does next.
#[derive(Clone, Copy, Debug)]
pub enum Next {
    /// Wait for the process again.
    Wait(Supervisor),
    /// Report the exit code: the process is over.
    Report(i32),
}

/// What a supervisor does about an event.
#[derive(Clone, Copy, Debug)]
pub struct Step {
    /// The signal that goes to the process group first.
    pub signal: Option<Signal>,
    /// Whether the process itself is then killed and reaped.
    pub kill_child: bool,
    pub next: Next,
}

impl Supervisor {
    /// The supervisor of a process that was just started.
    pub open spec fn started(limits: ExecutionLimits) -> Supervisor {
        Supervisor {
            terminating: false,
            wait: limits.timeout_duration,
            grace: limits.grace_duration,
        }
    }

    /// A process that exits is reported. One that times out gets SIGTERM and the grace period,
    /// and SIGKILL after that. One that cannot be waited for gets SIGKILL at once.
    pub open spec fn next_step(self, event: ChildEvent) -> Step {
        match event {
            ChildEvent::Exited(status) => Step {
                signal: None,
                kill_child: false,
                next: Next::Report(status_code(status)),
            },
            ChildEvent::WaitFailed => Step {
                signal: if self.terminating {
                    None
                } else {
                    Some(Signal::Kill)
                },
                kill_child: false,
                next: Next::Report(NO_CODE),
            },
            ChildEvent::TimedOut => if self.terminating {
                Step { signal: Some(Signal::Kill), kill_child: true, next: Next::Report(NO_CODE) }
            } else {
                Step {
                    signal: Some(Signal::Term),
                    kill_child: false,
                    next: Next::Wait(
                        Supervisor { terminating: true, wait: self.grace, grace: self.grace },
                    ),
                }
            },
        }
    }

    /// What to do about an event.
    pub fn step(self, event: ChildEvent) -> (step: Step)
        ensures
            step == self.next_step(event),
    {
        match event {
            ChildEvent::Exited(status) => Step {
                signal: None,
                kill_child: false,
                next: Next::Report(exit_status_code(status)),
            },
            ChildEvent::WaitFailed => {
                let signal = if self.terminating {
                    None
                } else {
                    Some(Signal::Kill)
                };
                Step { signal, kill_child: false, next: Next::Report(NO_CODE) }
            },
            ChildEvent::TimedOut => if self.terminating {
                Step { signal: Some(Signal::Kill), kill_child: true, next: Next::Report(NO_CODE) }
            } else {
                Step {
                    signal: Some(Signal::Term),
                    kill_child: false,
                    next: Next::Wait(
                        Supervisor { terminating: true, wait: self.grace, grace: self.grace },
                    ),
                }
            },
        }
    }
}

/// The process group that a signal goes to: that of the process, while it has an id.
pub fn signal_process_group(pid: Option<u32>) -> (pgid: Option<i32>)
    ensures
        match pgid {
            Some(pgid) => pid matches Some(pid) && pgid == pid,
            None => pid matches Some(pid) ==> pid > i32::MAX,
        },
{
    match pid {
        Some(pid) => if pid <= 0x7fff_ffff {
            Some(pid as i32)
        } else {
            None
        },
        None => None,
    }
}

/// The line that ends a stream.
pub fn exit_event(code: i32) -> (line: OutputLine)
    ensures
        line.kind@ == "exit"@,
        line.line@ == text::signed_decimal(code as int),
{
    OutputLine { kind: "exit", line: signed_decimal_text(code) }
}

/// How far the stream of a process's output has come.
#[derive(Clone, Copy, Debug)]
pub enum OutputPhase {
    /// The process runs, and its output is open.
    Running,
    /// Its output is over; its exit code is not known yet.
    AwaitingExit,
    /// The process has exited; the rest of its output goes out until the deadline.
    Draining { code: i32, deadline: u128 },
    /// The stream is over.
    Done,
}

/// What the stream of a process's output learns. Times are nanoseconds on one clock.
#[derive(Debug)]
pub enum StreamEvent {
    /// A line came, at this time.
    Output(OutputLine, u128),
    /// Both outputs of the process are over.
    Ended,
    /// The process has exited, at this time; its code may have been lost.
    Exited(Option<i32>, u128),
    /// The deadline has passed.
    Deadline,
}

/// A line that goes out: what it is, and its text.
pub open spec fn sent(line: OutputLine) -> (Seq<char>, Seq<char>) {
    (line.kind@, line.line@)
}

/// The line that ends a stream.
pub open spec fn exit_sent(code: i32) -> (Seq<char>, Seq<char>) {
    ("exit"@, text::signed_decimal(code as int))
}

/// The exit code that is reported; -1 where it was lost.
pub open spec fn reported(code: Option<i32>) -> i32 {
    match code {
        Some(code) => code,
        None => NO_CODE,
    }
}

/// When draining ends.
pub open spec fn deadline_after(now: u128, drain_grace: u128) -> u128 {
    if now + drain_grace <= u128::MAX {
        (now + drain_grace) as u128
    } else {
        u128::MAX
    }
}

/// The phase after an event, and what goes out for it.
pub open spec fn stream_step(phase: OutputPhase, event: StreamEvent, drain_grace: u128) -> (
    OutputPhase,
    Option<(Seq<char>, Seq<char>)>,
) {
    match phase {
        OutputPhase::Running => match event {
            StreamEvent::Output(line, _) => (phase, Some(sent(line))),
            StreamEvent::Ended => (OutputPhase::AwaitingExit, None),
            StreamEvent::Exited(code, now) => (
                OutputPhase::Draining {
                    code: reported(code),
                    deadline: deadline_after(now, drain_grace),
                },
                None,
            ),
            StreamEvent::Deadline => (phase, None),
        },
        OutputPhase::AwaitingExit => match event {
            StreamEvent::Exited(code, _) => (OutputPhase::Done, Some(exit_sent(reported(code)))),
            _ => (phase, None),
        },
        OutputPhase::Draining { code, deadline } => match event {
            StreamEvent::Output(line, now) => if now <= deadline {
                (phase, Some(sent(line)))
            } else {
                (OutputPhase::Done, Some(exit_sent(code)))
            },
            StreamEvent::Ended | StreamEvent::Deadline => (
                OutputPhase::Done,
                Some(exit_sent(code)),
            ),
            StreamEvent::Exited(..) => (phase, None),
        },
        OutputPhase::Done => (phase, None),
    }
}

/// Streams output until the child exits, then drains remaining output for at most `drain_grace`
/// before emitting the exit event and ending. This guarantees that the stream terminates even if
/// a grandchild keeps the stdout/stderr pipes open after the child dies.
pub fn output_until_exit(phase: OutputPhase, event: StreamEvent, drain_grace: u128) -> (r: (
    OutputPhase,
    Option<OutputLine>,
))
    ensures
        r.0 == stream_step(phase, event, drain_grace).0,
        match r.1 {
            Some(line) => stream_step(phase, event, drain_grace).1 == Some(sent(line)),
            None => stream_step(phase, event, drain_grace).1 is None,
        },
{
    match phase {
        OutputPhase::Running => match event {
            StreamEvent::Output(line, _) => (phase, Some(line)),
            StreamEvent::Ended => (OutputPhase::AwaitingExit, None),
            StreamEvent::Exited(code, now) => {
                let code = match code {
                    Some(code) => code,
                    None => NO_CODE,
                };
                let deadline = now.saturating_add(drain_grace);
                (OutputPhase::Draining { code, deadline }, None)
            },
            StreamEvent::Deadline => (phase, None),
        },
        OutputPhase::AwaitingExit => match event {
            StreamEvent::Exited(code, _) => {
                let code = match code {
                    Some(code) => code,
                    None => NO_CODE,
                };
                (OutputPhase::Done, Some(exit_event(code)))
            },
            _ => (phase, None),
        },
        OutputPhase::Draining { code, deadline } => match event {
            StreamEvent::Output(line, now) => if now <= deadline {
                (phase, Some(line))
            } else {
                (OutputPhase::Done, Some(exit_event(code)))
            },
            StreamEvent::Ended | StreamEvent::Deadline => (
                OutputPhase::Done,
                Some(exit_event(code)),
            ),
            StreamEvent::Exited(..) => (phase, None),
        },
        OutputPhase::Done => (phase, None),
    }
}

} // verus!
