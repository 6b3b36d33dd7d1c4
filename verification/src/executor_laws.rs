//! What holds of a process that was triggered, from its start to the end of its stream.

use crate::executor;
use crate::executor::{
    ChildEvent, ExecutionLimits, ExitStatus, Next, OutputPhase, Signal, StreamEvent, Supervisor,
    NO_CODE,
};
use crate::lines::OutputLine;
use crate::text_laws;
use vstd::prelude::*;

verus! {

/// A process is waited for twice at most: as long as it may run, and then for the grace period.
/// After that its exit code is reported, whatever it does.
pub proof fn law_process_is_over_after_timeout_and_grace(
    limits: ExecutionLimits,
    first: ChildEvent,
    second: ChildEvent,
)
    ensures
        Supervisor::started(limits).wait == limits.timeout_duration,
        match Supervisor::started(limits).next_step(first).next {
            Next::Report(_) => !(first is TimedOut),
            Next::Wait(supervisor) => {
                &&& first is TimedOut
                &&& supervisor.wait == limits.grace_duration
                &&& supervisor.next_step(second).next is Report
            },
        },
{
}

/// A process that times out gets SIGTERM first; it gets SIGKILL only after the grace period has
/// passed too, or where it cannot be waited for.
pub proof fn law_sigterm_comes_before_sigkill(supervisor: Supervisor, event: ChildEvent)
    ensures
        event is TimedOut && !supervisor.terminating ==> supervisor.next_step(event).signal == Some(
            Signal::Term,
        ),
        supervisor.next_step(event).signal == Some(Signal::Kill) ==> (event is WaitFailed
            && !supervisor.terminating) || (event is TimedOut && supervisor.terminating),
        event is Exited ==> supervisor.next_step(event).signal is None,
{
}

/// What is reported of a process that exits is how it exited, also after SIGTERM; of any other,
/// that it is not known.
pub proof fn law_reported_code_is_the_exit_code(
    supervisor: Supervisor,
    event: ChildEvent,
    code: i32,
)
    requires
        supervisor.next_step(event).next == Next::Report(code),
    ensures
        match event {
            ChildEvent::Exited(status) => code == executor::status_code(status),
            _ => code == NO_CODE,
        },
{
}

/// The phase of a stream after events.
pub open spec fn phase_after(events: Seq<StreamEvent>, drain_grace: u128) -> OutputPhase
    decreases events.len(),
{
    if events.len() == 0 {
        OutputPhase::Running
    } else {
        executor::stream_step(
            phase_after(events.drop_last(), drain_grace),
            events.last(),
            drain_grace,
        ).0
    }
}

/// All that has gone out after events, in order.
pub open spec fn sent_after(events: Seq<StreamEvent>, drain_grace: u128) -> Seq<
    (Seq<char>, Seq<char>),
>
    decreases events.len(),
{
    if events.len() == 0 {
        Seq::empty()
    } else {
        let before = sent_after(events.drop_last(), drain_grace);
        match executor::stream_step(
            phase_after(events.drop_last(), drain_grace),
            events.last(),
            drain_grace,
        ).1 {
            Some(line) => before.push(line),
            None => before,
        }
    }
}

/// The lines that came, in order.
pub open spec fn lines_that_came(events: Seq<StreamEvent>) -> Seq<(Seq<char>, Seq<char>)>
    decreases events.len(),
{
    if events.len() == 0 {
        Seq::empty()
    } else {
        match events.last() {
            StreamEvent::Output(line, _) => lines_that_came(events.drop_last()).push(
                executor::sent(line),
            ),
            _ => lines_that_came(events.drop_last()),
        }
    }
}

/// Outputs that are over give no more lines.
pub open spec fn no_line_after_end(events: Seq<StreamEvent>) -> bool {
    forall|i: int, j: int|
        0 <= i < j < events.len() && #[trigger] events[i] is Ended ==> !(
        #[trigger] events[j] is Output)
}

/// The first code that an exit reported.
pub open spec fn first_exit(events: Seq<StreamEvent>) -> Option<i32>
    decreases events.len(),
{
    if events.len() == 0 {
        None
    } else {
        match first_exit(events.drop_last()) {
            Some(code) => Some(code),
            None => match events.last() {
                StreamEvent::Exited(code, _) => Some(executor::reported(code)),
                _ => None,
            },
        }
    }
}

/// Until a stream is over, every line that came has gone out, in order, and nothing else. A stream
/// that is over has sent some of the first lines that came, in order, then one exit event with the
/// code of the process, and nothing after that.
pub proof fn law_exit_event_comes_once_and_last(events: Seq<StreamEvent>, drain_grace: u128)
    requires
        no_line_after_end(events),
    ensures
        phase_after(events, drain_grace) is Done ==> {
            let sent = sent_after(events, drain_grace);
            &&& sent.len() > 0
            &&& first_exit(events) matches Some(code)
            &&& sent.last() == executor::exit_sent(code)
            &&& sent.len() - 1 <= lines_that_came(events).len()
            &&& sent.drop_last() == lines_that_came(events).take(sent.len() - 1)
        },
        !(phase_after(events, drain_grace) is Done) ==> sent_after(events, drain_grace)
            == lines_that_came(events),
{
    lemma_stream(events, drain_grace);
}

proof fn lemma_stream(events: Seq<StreamEvent>, drain_grace: u128)
    requires
        no_line_after_end(events),
    ensures
        match phase_after(events, drain_grace) {
            OutputPhase::Running => first_exit(events) is None,
            OutputPhase::AwaitingExit => first_exit(events) is None && exists|i: int|
                0 <= i < events.len() && #[trigger] events[i] is Ended,
            OutputPhase::Draining { code, .. } => first_exit(events) == Some(code),
            OutputPhase::Done => {
                let sent = sent_after(events, drain_grace);
                &&& sent.len() > 0
                &&& first_exit(events) matches Some(code)
                &&& sent.last() == executor::exit_sent(code)
                &&& sent.len() - 1 <= lines_that_came(events).len()
                &&& sent.drop_last() == lines_that_came(events).take(sent.len() - 1)
            },
        },
        !(phase_after(events, drain_grace) is Done) ==> sent_after(events, drain_grace)
            == lines_that_came(events),
    decreases events.len(),
{
    if events.len() > 0 {
        let front = events.drop_last();
        let last = events.last();
        assert forall|i: int, j: int|
            0 <= i < j < front.len() && #[trigger] front[i] is Ended implies !(
        #[trigger] front[j] is Output) by {
            assert(front[i] == events[i] && front[j] == events[j]);
        }
        lemma_stream(front, drain_grace);
        let before = phase_after(front, drain_grace);
        let came = lines_that_came(front);
        let was_sent = sent_after(front, drain_grace);
        let sent = sent_after(events, drain_grace);
        assert(events[events.len() - 1] == last);
        match before {
            OutputPhase::Running => {
                if last is Ended {
                    assert(events[events.len() - 1] is Ended);
                }
            },
            OutputPhase::AwaitingExit => {
                let i = choose|i: int| 0 <= i < front.len() && #[trigger] front[i] is Ended;
                assert(events[i] is Ended);
                assert(!(events[events.len() - 1] is Output));
                if last is Exited {
                    assert(sent.drop_last() =~= came.take(came.len() as int));
                }
            },
            OutputPhase::Draining { code, deadline } => {
                if phase_after(events, drain_grace) is Done {
                    assert(sent.drop_last() =~= was_sent);
                    assert(lines_that_came(events).take(came.len() as int) =~= came);
                }
            },
            OutputPhase::Done => {
                assert(lines_that_came(events).take(sent.len() - 1) =~= came.take(sent.len() - 1));
            },
        }
    }
}

/// A process's exit starts the drain, and the stream is over as soon as the deadline passes,
/// whether or not lines still come: nothing that keeps the outputs open keeps the stream open.
pub proof fn law_stream_is_over_after_the_drain(
    exit: Option<i32>,
    now: u128,
    drain_grace: u128,
    line: OutputLine,
    later: u128,
)
    ensures
        ({
            let draining = executor::stream_step(
                OutputPhase::Running,
                StreamEvent::Exited(exit, now),
                drain_grace,
            ).0;
            &&& executor::stream_step(draining, StreamEvent::Deadline, drain_grace).0 is Done
            &&& executor::stream_step(draining, StreamEvent::Ended, drain_grace).0 is Done
            &&& later > now + drain_grace ==> executor::stream_step(
                draining,
                StreamEvent::Output(line, later),
                drain_grace,
            ).0 is Done
            &&& later <= now + drain_grace ==> executor::stream_step(
                draining,
                StreamEvent::Output(line, later),
                drain_grace,
            ) == (draining, Some(executor::sent(line)))
        }),
{
}

/// A stream that is over stays over.
pub proof fn law_done_is_final(events: Seq<StreamEvent>, more: Seq<StreamEvent>, drain_grace: u128)
    requires
        phase_after(events, drain_grace) is Done,
    ensures
        phase_after(events + more, drain_grace) is Done,
        sent_after(events + more, drain_grace) == sent_after(events, drain_grace),
    decreases more.len(),
{
    if more.len() == 0 {
        assert(events + more =~= events);
    } else {
        law_done_is_final(events, more.drop_last(), drain_grace);
        assert((events + more).drop_last() =~= events + more.drop_last());
    }
}

/// A process that exits is reported with its own exit code, whatever code that is and however long
/// it took. One that a signal killed is reported with 128 and the number of the signal, as a shell
/// would; one of which neither is known, with -1.
pub proof fn law_exit_code_is_reported_as_it_is(
    supervisor: Supervisor,
    code: i32,
    signal: u8,
    also: Option<u8>,
)
    ensures
        supervisor.next_step(
            ChildEvent::Exited(ExitStatus { code: Some(code), signal: also }),
        ).next == Next::Report(code),
        supervisor.next_step(
            ChildEvent::Exited(ExitStatus { code: None, signal: Some(signal) }),
        ).next == Next::Report((128 + signal) as i32),
        supervisor.next_step(
            ChildEvent::Exited(ExitStatus { code: None, signal: None }),
        ).next == Next::Report(-1i32),
        supervisor.next_step(ChildEvent::WaitFailed).next == Next::Report(-1i32),
        supervisor.terminating ==> supervisor.next_step(ChildEvent::TimedOut).next == Next::Report(
            -1i32,
        ),
{
}

/// Only a process that did not exit after SIGTERM and its grace period is killed itself; then its
/// group gets SIGKILL too. One that cannot be waited for has its group killed, unless SIGTERM has
/// already gone out.
pub proof fn law_who_is_killed(supervisor: Supervisor, event: ChildEvent)
    ensures
        supervisor.next_step(event).kill_child <==> event is TimedOut && supervisor.terminating,
        supervisor.next_step(event).kill_child ==> supervisor.next_step(event).signal == Some(
            Signal::Kill,
        ),
        event is WaitFailed ==> (supervisor.next_step(event).signal == Some(Signal::Kill)
            <==> !supervisor.terminating),
        event is WaitFailed && supervisor.terminating ==> supervisor.next_step(
            event,
        ).signal is None,
        event is TimedOut && !supervisor.terminating ==> supervisor.next_step(event).next
            == Next::Wait(
            Supervisor { terminating: true, wait: supervisor.grace, grace: supervisor.grace },
        ),
{
}

/// A line writes a number: its digits, after a minus sign where it is negative.
pub open spec fn writes(line: Seq<char>, n: int) -> bool {
    if n < 0 {
        line.len() > 1 && line[0] == '-' && text_laws::read_back(line.drop_first()) == -n
    } else {
        line.len() > 0 && line[0] != '-' && text_laws::read_back(line) == n
    }
}

/// The exit event gives the code with which the process exited, whatever code that is, both where
/// its output ended first and where it was drained; and -1 where the code was lost.
pub proof fn law_exit_event_gives_the_exit_code(
    exit: Option<i32>,
    now: u128,
    drain_grace: u128,
    line: OutputLine,
    late: u128,
)
    requires
        late > now + drain_grace,
    ensures
        ({
            let code = match exit {
                Some(code) => code as int,
                None => -1,
            };
            let exited = StreamEvent::Exited(exit, now);
            let draining = executor::stream_step(OutputPhase::Running, exited, drain_grace);
            let ends = seq![
                executor::stream_step(OutputPhase::AwaitingExit, exited, drain_grace),
                executor::stream_step(draining.0, StreamEvent::Ended, drain_grace),
                executor::stream_step(draining.0, StreamEvent::Deadline, drain_grace),
                executor::stream_step(draining.0, StreamEvent::Output(line, late), drain_grace),
            ];
            &&& draining.1 is None
            &&& forall|i: int|
                0 <= i < 4 ==> (#[trigger] ends[i]).0 is Done && (ends[i].1 matches Some(sent)
                    && sent.0 == "exit"@ && writes(sent.1, code))
        }),
{
    let code = match exit {
        Some(code) => code as int,
        None => -1,
    };
    text_laws::law_signed_decimal_reads_back(code);
    if code >= 0 {
        text_laws::law_decimal_reads_back(code as nat);
    }
}

/// A line goes out as it came, with its kind, as long as the process runs; nothing goes out of
/// itself.
pub proof fn law_lines_go_out_as_they_came(line: OutputLine, now: u128, drain_grace: u128)
    ensures
        executor::stream_step(OutputPhase::Running, StreamEvent::Output(line, now), drain_grace)
            == (OutputPhase::Running, Some((line.kind@, line.line@))),
        executor::stream_step(OutputPhase::Running, StreamEvent::Ended, drain_grace) == (
            OutputPhase::AwaitingExit,
            None::<(Seq<char>, Seq<char>)>,
        ),
        executor::stream_step(OutputPhase::Running, StreamEvent::Deadline, drain_grace) == (
            OutputPhase::Running,
            None::<(Seq<char>, Seq<char>)>,
        ),
{
}

/// Two numbers are never written alike, so the exit event tells all codes apart.
pub proof fn law_exit_events_tell_codes_apart(a: i32, b: i32)
    ensures
        executor::exit_sent(a) == executor::exit_sent(b) ==> a == b,
{
    text_laws::law_signed_decimal_reads_back(a as int);
    text_laws::law_signed_decimal_reads_back(b as int);
}

} // verus!
