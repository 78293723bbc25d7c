//! An agent in a pseudo-terminal, without a multiplexer: what is typed goes to
//! the program, what it prints goes to the terminal, and messages from other
//! agents are typed into it.

use vstd::prelude::*;
use vstd::string::StringExecFns;

use crate::nats_hub::read_payload;
use crate::protocol::{decoded, encoded, DecodeError, Envelope};
use crate::registry::{process_entry, AgentEntry};
use crate::text::payload_text;

verus! {

/// How long to wait for input before looking for messages, in milliseconds.
pub const POLL_TIMEOUT_MS: u16 = 50;

/// The pause after a message was typed, in milliseconds.
pub const TYPE_PAUSE_MS: u64 = 200;

/// The entry of the agent in the directory.
pub fn agent_entry(name: &str, pid: u32, permanent: bool, now_ms: u64) -> (r: AgentEntry)
    ensures
        r@ == process_entry("pty"@, pid, name@, permanent, now_ms),
{
    AgentEntry::of_process("pty", pid, name, permanent, now_ms)
}

/// How a message is typed into the program.
pub fn typed_line(envelope: &Envelope) -> (r: String)
    ensures
        r@ == encoded(envelope@) + "\r"@,
{
    envelope.encode().concat("\r")
}

/// What waiting for input came to.
#[derive(Debug, Clone, Copy, PartialEq, Eq, Structural)]
pub enum PollOutcome {
    /// The wait is over, with input or without.
    Ready,
    /// A signal came in between.
    Interrupted,
    Failed,
}

/// What reading came to.
#[derive(Debug, Clone, Copy, PartialEq, Eq, Structural)]
pub enum ReadOutcome {
    /// So many bytes were read; none means the end.
    Bytes(usize),
    /// The other side is gone.
    InputOutputError,
    /// There is nothing yet.
    WouldBlock,
    Failed,
}

/// What follows reading.
#[derive(Debug, Clone, Copy, PartialEq, Eq, Structural)]
pub enum ReadNext {
    /// Pass so many bytes on.
    Forward(usize),
    /// Go on without them.
    Skip,
    Stop,
}

/// What follows reading what the user typed. A terminal that is away for a
/// moment is no reason to stop.
pub open spec fn next_of_input(outcome: ReadOutcome) -> ReadNext {
    match outcome {
        ReadOutcome::Bytes(n) => if n == 0 {
            ReadNext::Stop
        } else {
            ReadNext::Forward(n)
        },
        ReadOutcome::InputOutputError => ReadNext::Skip,
        ReadOutcome::WouldBlock => ReadNext::Skip,
        ReadOutcome::Failed => ReadNext::Stop,
    }
}

/// What follows reading what the program printed. It has ended where its side
/// is gone.
pub open spec fn next_of_output(outcome: ReadOutcome) -> ReadNext {
    match outcome {
        ReadOutcome::Bytes(n) => if n == 0 {
            ReadNext::Stop
        } else {
            ReadNext::Forward(n)
        },
        ReadOutcome::InputOutputError => ReadNext::Stop,
        ReadOutcome::WouldBlock => ReadNext::Skip,
        ReadOutcome::Failed => ReadNext::Stop,
    }
}

/// What follows reading what the program printed last, after it has hung up.
pub open spec fn next_of_rest(outcome: ReadOutcome) -> ReadNext {
    match outcome {
        ReadOutcome::Bytes(n) => if n == 0 {
            ReadNext::Stop
        } else {
            ReadNext::Forward(n)
        },
        _ => ReadNext::Stop,
    }
}

/// What follows reading what the user typed.
fn after_input(outcome: ReadOutcome) -> (r: ReadNext)
    ensures
        r == next_of_input(outcome),
{
    match outcome {
        ReadOutcome::Bytes(n) => {
            if n == 0 {
                ReadNext::Stop
            } else {
                ReadNext::Forward(n)
            }
        },
        ReadOutcome::InputOutputError => ReadNext::Skip,
        ReadOutcome::WouldBlock => ReadNext::Skip,
        ReadOutcome::Failed => ReadNext::Stop,
    }
}

/// What follows reading what the program printed.
fn after_output(outcome: ReadOutcome) -> (r: ReadNext)
    ensures
        r == next_of_output(outcome),
{
    match outcome {
        ReadOutcome::Bytes(n) => {
            if n == 0 {
                ReadNext::Stop
            } else {
                ReadNext::Forward(n)
            }
        },
        ReadOutcome::InputOutputError => ReadNext::Stop,
        ReadOutcome::WouldBlock => ReadNext::Skip,
        ReadOutcome::Failed => ReadNext::Stop,
    }
}

/// What follows reading what the program printed last.
fn after_rest(outcome: ReadOutcome) -> (r: ReadNext)
    ensures
        r == next_of_rest(outcome),
{
    match outcome {
        ReadOutcome::Bytes(n) => {
            if n == 0 {
                ReadNext::Stop
            } else {
                ReadNext::Forward(n)
            }
        },
        _ => ReadNext::Stop,
    }
}

/// What can be read: what the user typed, what the program printed, and
/// whether the program has hung up.
#[derive(Debug, Clone, Copy, PartialEq, Eq, Structural)]
pub struct Ready {
    pub input: bool,
    pub output: bool,
    pub hung_up: bool,
}

/// Where the loop between the terminal and the program stands.
#[derive(Debug, Clone, Copy, PartialEq, Eq, Structural)]
pub enum Phase {
    /// Wait for input.
    Wait,
    /// Read what the user typed, and pass it to the program.
    Input(Ready),
    /// Read what the program printed, and pass it to the terminal.
    Output(Ready),
    /// Read what the program printed last, and pass it to the terminal.
    Rest,
    /// Type the messages that have come into the program.
    Messages,
    Ended,
}

/// Something that the loop has done.
#[derive(Debug, Clone, Copy, PartialEq, Eq, Structural)]
pub enum Event {
    Polled(PollOutcome, Ready),
    Read(ReadOutcome),
    Typed,
}

/// Whether an event can happen in a phase.
pub open spec fn fits_phase(phase: Phase, event: Event) -> bool {
    match phase {
        Phase::Wait => event is Polled,
        Phase::Input(_) => event is Read,
        Phase::Output(_) => event is Read,
        Phase::Rest => event is Read,
        Phase::Messages => event is Typed,
        Phase::Ended => false,
    }
}

/// The phase behind reading what the program printed.
pub open spec fn behind_output(ready: Ready) -> Phase {
    if ready.hung_up {
        Phase::Rest
    } else {
        Phase::Messages
    }
}

/// The phase behind reading what the user typed.
pub open spec fn behind_input(ready: Ready) -> Phase {
    if ready.output {
        Phase::Output(ready)
    } else {
        behind_output(ready)
    }
}

/// The phase behind waiting for input.
pub open spec fn behind_wait(ready: Ready) -> Phase {
    if ready.input {
        Phase::Input(ready)
    } else {
        behind_input(ready)
    }
}

/// The phase that follows reading, and how many bytes are passed on.
pub open spec fn after_read(next: ReadNext, behind: Phase) -> (Phase, Option<usize>) {
    match next {
        ReadNext::Forward(n) => (behind, Some(n)),
        ReadNext::Skip => (behind, None),
        ReadNext::Stop => (Phase::Ended, None),
    }
}

/// The phase that follows an event, and how many of the bytes that were read
/// are passed on.
pub open spec fn phase_after(phase: Phase, event: Event) -> (Phase, Option<usize>) {
    match (phase, event) {
        (Phase::Wait, Event::Polled(outcome, ready)) => match outcome {
            PollOutcome::Ready => (behind_wait(ready), None),
            PollOutcome::Interrupted => (Phase::Wait, None),
            PollOutcome::Failed => (Phase::Ended, None),
        },
        (Phase::Input(ready), Event::Read(outcome)) => after_read(
            next_of_input(outcome),
            behind_input(ready),
        ),
        (Phase::Output(ready), Event::Read(outcome)) => after_read(
            next_of_output(outcome),
            behind_output(ready),
        ),
        (Phase::Rest, Event::Read(outcome)) => after_read(next_of_rest(outcome), Phase::Rest),
        (Phase::Messages, Event::Typed) => (Phase::Wait, None),
        _ => (phase, None),
    }
}

fn passed_on(next: ReadNext, behind: Phase) -> (r: (Phase, Option<usize>))
    ensures
        r == after_read(next, behind),
{
    match next {
        ReadNext::Forward(n) => (behind, Some(n)),
        ReadNext::Skip => (behind, None),
        ReadNext::Stop => (Phase::Ended, None),
    }
}

fn past_output(ready: Ready) -> (r: Phase)
    ensures
        r == behind_output(ready),
{
    if ready.hung_up {
        Phase::Rest
    } else {
        Phase::Messages
    }
}

fn past_input(ready: Ready) -> (r: Phase)
    ensures
        r == behind_input(ready),
{
    if ready.output {
        Phase::Output(ready)
    } else {
        past_output(ready)
    }
}

/// The phase that follows an event, and how many of the bytes that were read
/// are passed on.
pub fn step(phase: Phase, event: Event) -> (r: (Phase, Option<usize>))
    requires
        fits_phase(phase, event),
    ensures
        r == phase_after(phase, event),
{
    match (phase, event) {
        (Phase::Wait, Event::Polled(outcome, ready)) => match outcome {
            PollOutcome::Ready => {
                if ready.input {
                    (Phase::Input(ready), None)
                } else {
                    (past_input(ready), None)
                }
            },
            PollOutcome::Interrupted => (Phase::Wait, None),
            PollOutcome::Failed => (Phase::Ended, None),
        },
        (Phase::Input(ready), Event::Read(outcome)) => passed_on(
            after_input(outcome),
            past_input(ready),
        ),
        (Phase::Output(ready), Event::Read(outcome)) => passed_on(
            after_output(outcome),
            past_output(ready),
        ),
        (Phase::Rest, Event::Read(outcome)) => passed_on(after_rest(outcome), Phase::Rest),
        (Phase::Messages, Event::Typed) => (Phase::Wait, None),
        _ => (phase, None),
    }
}

/// Once the program has hung up, what it printed is read to the end, and the
/// loop neither waits nor types again.
pub proof fn hanging_up_ends_the_loop(phase: Phase, event: Event)
    requires
        fits_phase(phase, event),
        phase is Rest || (phase matches Phase::Input(ready) && ready.hung_up) || (
        phase matches Phase::Output(ready) && ready.hung_up),
    ensures
        phase_after(phase, event).0 is Rest || phase_after(phase, event).0 is Ended || (phase_after(
            phase,
            event,
        ).0 matches Phase::Output(ready) && ready.hung_up),
        phase is Rest && phase_after(phase, event).0 is Rest ==> phase_after(phase, event).1 is Some,
{
}

/// Bytes are passed on if and only if they were read, and the loop goes on.
pub proof fn bytes_that_were_read_are_passed_on(phase: Phase, n: usize)
    requires
        fits_phase(phase, Event::Read(ReadOutcome::Bytes(n))),
    ensures
        n > 0 ==> phase_after(phase, Event::Read(ReadOutcome::Bytes(n))).1 == Some(n),
        n == 0 ==> phase_after(phase, Event::Read(ReadOutcome::Bytes(n))) == (
            Phase::Ended,
            None::<usize>,
        ),
{
}

/// What one attempt to write came to.
#[derive(Debug, Clone, Copy, PartialEq, Eq, Structural)]
pub enum WriteOutcome {
    /// So many bytes were written.
    Bytes(usize),
    /// A signal came in between, or there is no room yet.
    TryAgain,
    Failed,
}

/// How many bytes are still to be written after an attempt, or nothing where
/// writing has failed.
pub fn left_to_write(left: usize, outcome: WriteOutcome) -> (r: Option<usize>)
    requires
        outcome matches WriteOutcome::Bytes(n) ==> n <= left,
    ensures
        r == (match outcome {
            WriteOutcome::Bytes(n) => Some((left - n) as usize),
            WriteOutcome::TryAgain => Some(left),
            WriteOutcome::Failed => None,
        }),
{
    match outcome {
        WriteOutcome::Bytes(n) => Some(left - n),
        WriteOutcome::TryAgain => Some(left),
        WriteOutcome::Failed => None,
    }
}

/// The message to be typed for a payload, where the payload holds one.
pub fn message_of_payload(payload: &[u8]) -> (r: Option<Envelope>)
    ensures
        match r {
            Some(e) => decoded(payload_text(payload@)) == Ok::<_, DecodeError>(e@),
            None => decoded(payload_text(payload@)) is Err,
        },
{
    match read_payload(payload) {
        Ok(e) => Some(e),
        Err(_) => None,
    }
}

/// One round of the loop goes through what there is to be read, in this order:
/// what the user typed, what the program printed, and then what the program
/// printed last where it has hung up; where it has not, the messages follow,
/// and then the next round.
pub proof fn rounds_keep_their_order(ready: Ready, n: usize)
    requires
        n > 0,
    ensures
        ({
            let polled = Event::Polled(PollOutcome::Ready, ready);
            let read = Event::Read(ReadOutcome::Bytes(n));
            let behind = if ready.hung_up {
                Phase::Rest
            } else {
                Phase::Messages
            };
            &&& ready.input ==> phase_after(Phase::Wait, polled) == (
                Phase::Input(ready),
                None::<usize>,
            )
            &&& !ready.input && ready.output ==> phase_after(Phase::Wait, polled) == (
                Phase::Output(ready),
                None::<usize>,
            )
            &&& !ready.input && !ready.output ==> phase_after(Phase::Wait, polled) == (
                behind,
                None::<usize>,
            )
            &&& ready.output ==> phase_after(Phase::Input(ready), read) == (
                Phase::Output(ready),
                Some(n),
            )
            &&& !ready.output ==> phase_after(Phase::Input(ready), read) == (behind, Some(n))
            &&& phase_after(Phase::Output(ready), read) == (behind, Some(n))
            &&& phase_after(Phase::Rest, read) == (Phase::Rest, Some(n))
            &&& phase_after(Phase::Messages, Event::Typed) == (Phase::Wait, None::<usize>)
        }),
{
}

/// The loop ends where waiting or reading fails, and where what it reads from
/// has ended, and nowhere else: a signal only makes it wait again, and nothing
/// to read yet only makes it go on. The end of the program's side ends the loop
/// where its output is read, but not where the user's input is.
pub proof fn loop_ends_only_at_the_end(phase: Phase, event: Event)
    requires
        fits_phase(phase, event),
    ensures
        phase_after(phase, event).0 is Ended <==> match event {
            Event::Polled(outcome, _) => outcome == PollOutcome::Failed,
            Event::Read(ReadOutcome::Bytes(n)) => n == 0,
            Event::Read(ReadOutcome::Failed) => true,
            Event::Read(ReadOutcome::InputOutputError) => !(phase is Input),
            Event::Read(ReadOutcome::WouldBlock) => phase is Rest,
            Event::Typed => false,
        },
        event matches Event::Polled(PollOutcome::Interrupted, _) ==> phase_after(phase, event).0
            == phase,
        phase_after(phase, event).1 is Some <==> (event matches Event::Read(
            ReadOutcome::Bytes(n),
        ) && n > 0),
{
}

/// Where there is nothing to be read, the loop goes on as if something had been,
/// and passes nothing on.
pub proof fn nothing_to_read_is_passed_over(ready: Ready, n: usize)
    requires
        n > 0,
    ensures
        ({
            let nothing = Event::Read(ReadOutcome::WouldBlock);
            let read = Event::Read(ReadOutcome::Bytes(n));
            &&& phase_after(Phase::Input(ready), nothing) == (
                phase_after(Phase::Input(ready), read).0,
                None::<usize>,
            )
            &&& phase_after(Phase::Output(ready), nothing) == (
                phase_after(Phase::Output(ready), read).0,
                None::<usize>,
            )
        }),
{
}

/// Every phase but the end is left by what it does, and by nothing else: waiting
/// by the wait, reading by what was read, and typing by having typed.
pub proof fn phases_are_left_by_what_they_do(
    ready: Ready,
    polled: PollOutcome,
    read: ReadOutcome,
    event: Event,
)
    ensures
        fits_phase(Phase::Wait, Event::Polled(polled, ready)),
        fits_phase(Phase::Input(ready), Event::Read(read)),
        fits_phase(Phase::Output(ready), Event::Read(read)),
        fits_phase(Phase::Rest, Event::Read(read)),
        fits_phase(Phase::Messages, Event::Typed),
        !fits_phase(Phase::Ended, event),
        fits_phase(Phase::Wait, event) ==> event is Polled,
        fits_phase(Phase::Messages, event) ==> event is Typed,
        fits_phase(Phase::Input(ready), event) || fits_phase(Phase::Output(ready), event)
            || fits_phase(Phase::Rest, event) ==> event is Read,
{
}

} // verus!
