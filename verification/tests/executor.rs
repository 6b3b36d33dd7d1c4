use cause::config::GlobalConfig;
use cause::executor::{
    exit_event, exit_status_code, output_until_exit, signal_process_group, ChildEvent,
    ExecutionLimits, ExitStatus, Next, OutputPhase, RouteExecution, Signal, SpawnOutcome,
    StreamEvent,
};
use cause::lines::OutputLine;

const MS: u128 = 1_000_000;
const GRACE: u128 = 2_000 * MS;

fn line(kind: &'static str, line: &str) -> OutputLine {
    OutputLine { kind, line: line.to_string() }
}

fn came(kind: &'static str, text: &str, now: u128) -> StreamEvent {
    StreamEvent::Output(line(kind, text), now)
}

fn run(events: Vec<StreamEvent>) -> (OutputPhase, Vec<(String, String)>) {
    let mut phase = OutputPhase::Running;
    let mut sent = vec![];
    for event in events {
        let (next, out) = output_until_exit(phase, event, GRACE);
        phase = next;
        if let Some(out) = out {
            sent.push((out.kind.to_string(), out.line));
        }
    }
    (phase, sent)
}

fn pair(kind: &str, line: &str) -> (String, String) {
    (kind.to_string(), line.to_string())
}

fn exited(code: Option<i32>, signal: Option<u8>) -> ChildEvent {
    ChildEvent::Exited(ExitStatus { code, signal })
}

fn limits() -> ExecutionLimits {
    ExecutionLimits {
        timeout_duration: 100 * MS,
        grace_duration: 50 * MS,
        drain_duration: 50 * MS,
        max_line_length: 4096,
    }
}

#[test]
fn eof_then_exit_event() {
    let events = vec![
        came("stdout", "a", 0),
        came("stderr", "b", 0),
        StreamEvent::Ended,
        StreamEvent::Exited(Some(0), 0),
    ];
    let (phase, got) = run(events);
    assert_eq!(got.len(), 3);
    assert_eq!(got[2], pair("exit", "0"));
    assert!(matches!(phase, OutputPhase::Done));
}

#[test]
fn hung_pipe_ends_after_grace() {
    let (phase, _) = run(vec![StreamEvent::Exited(Some(0), 0)]);
    assert!(matches!(phase, OutputPhase::Draining { code: 0, deadline } if deadline <= GRACE));
    let events = vec![
        StreamEvent::Exited(Some(0), 0),
        came("stdout", "before daemon", 0),
        StreamEvent::Deadline,
    ];
    let (phase, got) = run(events);
    assert_eq!(got.len(), 2);
    assert_eq!(got[0], pair("stdout", "before daemon"));
    assert_eq!(got[1], pair("exit", "0"));
    assert!(matches!(phase, OutputPhase::Done));
}

#[test]
fn drains_remaining_output_within_grace() {
    let events = vec![
        StreamEvent::Exited(Some(3), 0),
        came("stdout", "x", 0),
        came("stdout", "y", GRACE),
        StreamEvent::Deadline,
    ];
    let (_, got) = run(events);
    assert_eq!(got.len(), 3);
    assert_eq!(got[0], pair("stdout", "x"));
    assert_eq!(got[1], pair("stdout", "y"));
    assert_eq!(got[2], pair("exit", "3"));
}

#[test]
fn dropped_exit_sender_yields_minus_one() {
    let events = vec![came("stdout", "a", 0), StreamEvent::Exited(None, 0), StreamEvent::Ended];
    let (_, got) = run(events);
    assert_eq!(got.len(), 2);
    assert_eq!(got[1], pair("exit", "-1"));
    let events = vec![came("stdout", "a", 0), StreamEvent::Ended, StreamEvent::Exited(None, 0)];
    let (_, got) = run(events);
    assert_eq!(got.len(), 2);
    assert_eq!(got[1], pair("exit", "-1"));
}

#[test]
fn hung_pipe_and_late_exit() {
    let events = vec![StreamEvent::Exited(Some(137), 5_000 * MS), StreamEvent::Deadline];
    let (_, got) = run(events);
    assert_eq!(got, vec![pair("exit", "137")]);
}

#[test]
fn executor_timeout_kills_long_running_child() {
    let execution = RouteExecution::spawn(SpawnOutcome::Started, limits()).unwrap();
    let mut execution = execution.stream_output();
    let mut elapsed = 0;
    let mut got: Vec<String> =
        execution.stdout.feed(b"before-sleep\n").into_iter().map(|line| line.line).collect();
    elapsed += execution.supervisor.wait;
    let step = execution.supervisor.step(ChildEvent::TimedOut);
    assert_eq!(step.signal, Some(Signal::Term));
    assert!(!step.kill_child);
    let supervisor = match step.next {
        Next::Wait(supervisor) => supervisor,
        Next::Report(_) => panic!("the process had no grace period"),
    };
    elapsed += supervisor.wait;
    let step = supervisor.step(exited(None, Some(15)));
    let code = match step.next {
        Next::Report(code) => code,
        Next::Wait(_) => panic!("the process is over"),
    };
    let (phase, out) =
        output_until_exit(execution.output, StreamEvent::Exited(Some(code), elapsed), 50 * MS);
    assert!(out.is_none());
    let (_, out) = output_until_exit(phase, StreamEvent::Ended, 50 * MS);
    got.push(out.unwrap().line);
    assert!(!got.is_empty(), "should have at least one event, got {}", got.len());
    assert!(
        got.iter().any(|e| e.contains("before-sleep")),
        "should contain before-sleep output, got {:?}",
        got
    );
    assert!(elapsed < 500 * MS, "should finish within 500ms, took {:?}", elapsed);
    assert_eq!(got[1], "143");
}

#[test]
fn process_that_ignores_sigterm_is_killed() {
    let execution = RouteExecution::spawn(SpawnOutcome::Started, limits()).unwrap();
    let supervisor = execution.stream_output().supervisor;
    assert_eq!(supervisor.wait, 100 * MS);
    let step = supervisor.step(ChildEvent::TimedOut);
    let supervisor = match step.next {
        Next::Wait(supervisor) => supervisor,
        Next::Report(_) => panic!("the process had no grace period"),
    };
    assert_eq!(supervisor.wait, 50 * MS);
    let step = supervisor.step(ChildEvent::TimedOut);
    assert_eq!(step.signal, Some(Signal::Kill));
    assert!(step.kill_child);
    assert!(matches!(step.next, Next::Report(-1)));
}

#[test]
fn process_that_cannot_be_waited_for_is_killed() {
    let execution = RouteExecution::spawn(SpawnOutcome::Started, limits()).unwrap();
    let supervisor = execution.stream_output().supervisor;
    let step = supervisor.step(ChildEvent::WaitFailed);
    assert_eq!(step.signal, Some(Signal::Kill));
    assert!(!step.kill_child);
    assert!(matches!(step.next, Next::Report(-1)));
    let terminating = match supervisor.step(ChildEvent::TimedOut).next {
        Next::Wait(supervisor) => supervisor,
        Next::Report(_) => panic!("the process had no grace period"),
    };
    let step = terminating.step(ChildEvent::WaitFailed);
    assert_eq!(step.signal, None);
    assert!(matches!(step.next, Next::Report(-1)));
}

#[test]
fn process_that_exits_is_left_alone() {
    let execution = RouteExecution::spawn(SpawnOutcome::Started, limits()).unwrap();
    let step = execution.stream_output().supervisor.step(exited(Some(7), None));
    assert_eq!(step.signal, None);
    assert!(!step.kill_child);
    assert!(matches!(step.next, Next::Report(7)));
}

#[test]
fn route_at_its_limit_is_unavailable() {
    let reply = RouteExecution::spawn(SpawnOutcome::NoPermit, limits()).unwrap_err();
    assert_eq!((reply.status, reply.body.as_str()), (503, "Route concurrency limit reached"));
}

#[test]
fn shell_that_does_not_start_is_an_error() {
    let reply = RouteExecution::spawn(SpawnOutcome::Failed, limits()).unwrap_err();
    assert_eq!((reply.status, reply.body.as_str()), (500, "Failed to execute shell"));
}

#[test]
fn exit_status_codes() {
    let code = |code, signal| exit_status_code(ExitStatus { code, signal });
    assert_eq!(code(Some(0), None), 0);
    assert_eq!(code(Some(3), Some(9)), 3);
    assert_eq!(code(None, Some(9)), 137);
    assert_eq!(code(None, Some(15)), 143);
    assert_eq!(code(None, None), -1);
}

#[test]
fn exit_event_holds_the_code() {
    for (code, text) in [(0, "0"), (10, "10"), (-1, "-1"), (i32::MIN, "-2147483648"), (137, "137")] {
        let event = exit_event(code);
        assert_eq!((event.kind, event.line.as_str()), ("exit", text));
    }
}

#[test]
fn process_group_is_that_of_the_process() {
    assert_eq!(signal_process_group(Some(1234)), Some(1234));
    assert_eq!(signal_process_group(Some(0x7fff_ffff)), Some(i32::MAX));
    assert_eq!(signal_process_group(Some(0x8000_0000)), None);
    assert_eq!(signal_process_group(None), None);
}

#[test]
fn limits_come_from_the_configuration() {
    let limits = ExecutionLimits::from_config(&GlobalConfig::default());
    assert_eq!(limits.timeout_duration, 900_000 * MS);
    assert_eq!(limits.grace_duration, 1_000 * MS);
    assert_eq!(limits.drain_duration, 1_000 * MS);
    assert_eq!(limits.max_line_length, 65536);
}

#[test]
fn output_that_never_stops_does_not_keep_the_stream_open() {
    let mut events = vec![StreamEvent::Exited(Some(0), 10)];
    for i in 0..5u32 {
        events.push(came("stdout", "more", GRACE + 8 + i as u128));
    }
    let (phase, got) = run(events);
    assert!(matches!(phase, OutputPhase::Done));
    assert_eq!(got.len(), 4);
    assert_eq!(got[3], pair("exit", "0"));
}

#[test]
fn nothing_goes_out_after_the_exit_event() {
    let events = vec![
        StreamEvent::Exited(Some(1), 0),
        StreamEvent::Ended,
        StreamEvent::Deadline,
        StreamEvent::Exited(Some(2), 5),
        came("stdout", "late", 6),
    ];
    let (phase, got) = run(events);
    assert!(matches!(phase, OutputPhase::Done));
    assert_eq!(got, vec![pair("exit", "1")]);
}

#[test]
fn deadline_does_not_overflow() {
    let (phase, _) = run(vec![StreamEvent::Exited(Some(0), u128::MAX)]);
    assert!(matches!(phase, OutputPhase::Draining { deadline: u128::MAX, .. }));
}
