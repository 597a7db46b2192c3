//! The flow of commands to the machine.
//!
//! Commands wait in a queue and go out one line at a time. After a line has
//! gone out, nothing more goes out until the machine has acknowledged it.
//! What comes back from the machine is put together into lines: an
//! acknowledgement frees the way for the next command, a status report
//! replaces the known status, and every other line is handed on as output.
//!
//! The engine neither reads nor writes: whoever owns the serial port hands
//! it the bytes that came in and writes out the bytes that it hands back.

use std::collections::VecDeque;
use vstd::prelude::*;
use vstd::slice::{slice_subrange, slice_to_vec};
use vstd::string::{StrSliceExecFns, StringSliceAdditionalSpecFns};
use vstd::utf8::{encode_utf8, is_ascii_chars, is_ascii_chars_encode_utf8};
use crate::cut::Cut;
use crate::gcode::{
    cut_program, lemma_cut_program_plain, line_text, plain_line, program_text, single_line,
    LineView,
};
use crate::scan::{
    find_byte, first_index, lemma_first_index, lemma_first_index_bounds, same_bytes, trim,
    trim_bytes,
};
use crate::status::{idle_at_origin, parse_status_line, status_of, MachineStatus};

verus! {

/// The byte that ends a line going out, and that sets the lines of a program
/// apart.
pub const LINE_FEED: u8 = 10;

/// The byte that ends a line coming in.
pub const CARRIAGE_RETURN: u8 = 13;

/// A request to the engine.
#[derive(Debug)]
pub enum MachineCommand {
    /// One line, which always joins the queue.
    StringCommand(String),
    /// One line, which joins the queue only when nothing else waits in it.
    StringCommandLowPriority(String),
    /// A program: several lines, each ended by a line feed, which the last
    /// may do without. Each line joins the queue as a line of its own.
    GcodeCommand(String),
}

/// Whether the engine has work in hand.
#[derive(Clone, Copy, PartialEq, Eq, Structural, Debug)]
pub enum CommandStatus {
    Idle,
    Waiting,
}

/// Whether a line may go out.
#[derive(Clone, Copy, PartialEq, Eq, Structural, Debug)]
pub enum FlowState {
    /// No line is in flight: the next one may go out.
    Ready,
    /// One line is in flight: nothing goes out until it is acknowledged.
    AwaitingAck,
}

/// What the engine holds.
pub ghost struct EngineView {
    /// The lines that wait to go out, the next one first.
    pub queue: Seq<Seq<u8>>,
    /// Whether a line is in flight.
    pub awaiting_ack: bool,
    /// The bytes of the line that is coming in.
    pub partial: Seq<u8>,
    /// The status last reported.
    pub status: MachineStatus,
}

/// What the engine can be told or asked to do.
pub ghost enum Event {
    /// A command is submitted.
    Submit(MachineCommand),
    /// The engine is asked for the next line to send.
    Transmit,
    /// Bytes have come in from the machine.
    Receive(Seq<u8>),
}

/// What an observer of the wire sees.
pub ghost enum Mark {
    /// A line went out.
    Sent(Seq<u8>),
    /// An acknowledgement came in.
    Acked,
}

/// The engine before anything has happened.
pub open spec fn initial_engine() -> EngineView {
    EngineView {
        queue: Seq::empty(),
        awaiting_ack: false,
        partial: Seq::empty(),
        status: idle_at_origin(),
    }
}

/// The views of a list of lines.
pub open spec fn line_views(lines: Seq<Vec<u8>>) -> Seq<Seq<u8>> {
    lines.map_values(|l: Vec<u8>| l@)
}

/// The lines of a text. A line feed ends a line; what follows the last
/// line feed is a line too, unless nothing follows it. So a text of lines
/// that each end in a line feed has exactly those lines, and an empty text
/// has none.
pub open spec fn lines_of(text: Seq<u8>) -> Seq<Seq<u8>>
    decreases text.len(),
{
    let end = first_index(text, LINE_FEED);
    if text.len() == 0 {
        Seq::empty()
    } else if 0 <= end < text.len() {
        seq![text.take(end)] + lines_of(text.skip(end + 1))
    } else {
        seq![text]
    }
}

/// Whether a command is of low priority.
pub open spec fn is_low_priority(command: MachineCommand) -> bool {
    command is StringCommandLowPriority
}

/// The lines that a command puts into the queue.
pub open spec fn command_lines(command: MachineCommand) -> Seq<Seq<u8>> {
    match command {
        MachineCommand::StringCommand(s) => seq![encode_utf8(s@)],
        MachineCommand::StringCommandLowPriority(s) => seq![encode_utf8(s@)],
        MachineCommand::GcodeCommand(s) => lines_of(encode_utf8(s@)),
    }
}

/// Whether a command joins a queue: always, unless it is of low priority
/// and something waits already.
pub open spec fn admitted(queue: Seq<Seq<u8>>, command: MachineCommand) -> bool {
    !(is_low_priority(command) && queue.len() > 0)
}

/// The engine after a command was submitted.
pub open spec fn after_submit(e: EngineView, command: MachineCommand) -> EngineView {
    if admitted(e.queue, command) {
        EngineView { queue: e.queue + command_lines(command), ..e }
    } else {
        e
    }
}

/// Whether a line may go out: none is in flight and one waits.
pub open spec fn can_transmit(e: EngineView) -> bool {
    !e.awaiting_ack && e.queue.len() > 0
}

/// The bytes that go out when the engine is asked for the next line: the
/// line at the head of the queue and a line feed.
pub open spec fn transmitted(e: EngineView) -> Option<Seq<u8>> {
    if can_transmit(e) {
        Some(e.queue[0].push(LINE_FEED))
    } else {
        None
    }
}

/// The engine after it was asked for the next line.
pub open spec fn after_transmit(e: EngineView) -> EngineView {
    if can_transmit(e) {
        EngineView { queue: e.queue.drop_first(), awaiting_ack: true, ..e }
    } else {
        e
    }
}

/// Whether a line that came in is an acknowledgement.
pub open spec fn is_ack(line: Seq<u8>) -> bool {
    trim(line) == "ok".spec_bytes()
}

/// Whether a line that came in is handed on as output: it is neither an
/// acknowledgement nor a status report that can be read.
pub open spec fn is_output(line: Seq<u8>) -> bool {
    !is_ack(line) && status_of(trim(line)) is Err
}

/// The engine after a whole line came in.
pub open spec fn after_line(e: EngineView, line: Seq<u8>) -> EngineView {
    if is_ack(line) {
        EngineView { awaiting_ack: false, partial: Seq::empty(), ..e }
    } else {
        match status_of(trim(line)) {
            Ok(status) => EngineView { status, partial: Seq::empty(), ..e },
            Err(_) => EngineView { partial: Seq::empty(), ..e },
        }
    }
}

/// The engine after one byte came in. A carriage return ends the line, a
/// line feed is dropped, any other byte joins the line.
pub open spec fn after_byte(e: EngineView, b: u8) -> EngineView {
    if b == CARRIAGE_RETURN {
        after_line(e, e.partial)
    } else if b == LINE_FEED {
        e
    } else {
        EngineView { partial: e.partial.push(b), ..e }
    }
}

/// The output that one byte brings about.
pub open spec fn output_of_byte(e: EngineView, b: u8) -> Seq<Seq<u8>> {
    if b == CARRIAGE_RETURN && is_output(e.partial) {
        seq![e.partial]
    } else {
        Seq::empty()
    }
}

/// The engine after bytes came in.
pub open spec fn after_bytes(e: EngineView, bytes: Seq<u8>) -> EngineView
    decreases bytes.len(),
{
    if bytes.len() == 0 {
        e
    } else {
        after_byte(after_bytes(e, bytes.drop_last()), bytes.last())
    }
}

/// The lines handed on as output while bytes came in, in order.
pub open spec fn output_of_bytes(e: EngineView, bytes: Seq<u8>) -> Seq<Seq<u8>>
    decreases bytes.len(),
{
    if bytes.len() == 0 {
        Seq::empty()
    } else {
        output_of_bytes(e, bytes.drop_last()) + output_of_byte(
            after_bytes(e, bytes.drop_last()),
            bytes.last(),
        )
    }
}

/// The command status of an engine: idle when no line is in flight and none
/// waits.
pub open spec fn command_status_of(e: EngineView) -> CommandStatus {
    if !e.awaiting_ack && e.queue.len() == 0 {
        CommandStatus::Idle
    } else {
        CommandStatus::Waiting
    }
}

/// The flow state of an engine.
pub open spec fn flow_state_of(e: EngineView) -> FlowState {
    if e.awaiting_ack {
        FlowState::AwaitingAck
    } else {
        FlowState::Ready
    }
}

/// The engine that gates the flow of commands to the machine.
pub struct FlowEngine {
    queue: VecDeque<Vec<u8>>,
    state: FlowState,
    line_buf: Vec<u8>,
    status: MachineStatus,
}

impl View for FlowEngine {
    type V = EngineView;

    closed spec fn view(&self) -> EngineView {
        EngineView {
            queue: line_views(self.queue@),
            awaiting_ack: self.state == FlowState::AwaitingAck,
            partial: self.line_buf@,
            status: self.status,
        }
    }
}

/// Puts the lines of a program at the end of a queue.
fn push_lines(queue: &mut VecDeque<Vec<u8>>, text: &[u8])
    ensures
        line_views(final(queue)@) == line_views(old(queue)@) + lines_of(text@),
{
    let mut rest: &[u8] = text;
    loop
        invariant
            line_views(queue@) + lines_of(rest@) == line_views(old(queue)@) + lines_of(text@),
        decreases rest@.len(),
    {
        if rest.len() == 0 {
            assert(lines_of(rest@) =~= Seq::<Seq<u8>>::empty());
            assert(line_views(queue@) + lines_of(rest@) =~= line_views(queue@));
            return ;
        }
        let end = find_byte(rest, LINE_FEED);
        let piece = slice_to_vec(slice_subrange(rest, 0, end));
        let ghost before = queue@;
        queue.push_back(piece);
        assert(line_views(queue@) =~= line_views(before).push(rest@.take(end as int)));
        if end >= rest.len() {
            assert(rest@.take(end as int) =~= rest@);
            assert(line_views(queue@) =~= line_views(before) + lines_of(rest@));
            return ;
        }
        let next = slice_subrange(rest, end + 1, rest.len());
        assert(next@ =~= rest@.skip(end as int + 1));
        assert(line_views(queue@) + lines_of(next@) =~= line_views(before) + lines_of(rest@));
        rest = next;
    }
}

impl FlowEngine {
    /// An engine with an empty queue, no line in flight, and the status of
    /// an idle machine at the origin.
    pub fn new() -> (r: Self)
        ensures
            r@ == initial_engine(),
    {
        let r = FlowEngine {
            queue: VecDeque::new(),
            state: FlowState::Ready,
            line_buf: Vec::new(),
            status: MachineStatus::new(),
        };
        assert(r@.queue =~= Seq::empty());
        assert(r@.partial =~= Seq::empty());
        r
    }

    /// Takes a command into the queue. A command of low priority is dropped
    /// when something waits in the queue, and only then; any other command
    /// always joins it. Says whether the command joined the queue.
    pub fn submit(&mut self, command: MachineCommand) -> (accepted: bool)
        ensures
            final(self)@ == after_submit(old(self)@, command),
            accepted == admitted(old(self)@.queue, command),
            !accepted <==> is_low_priority(command) && old(self)@.queue.len() > 0,
            !accepted ==> final(self)@ == old(self)@,
    {
        match command {
            MachineCommand::StringCommand(s) => {
                let line = s.as_str().as_bytes_vec();
                self.queue.push_back(line);
                assert(final(self)@.queue =~= old(self)@.queue + command_lines(command));
                true
            },
            MachineCommand::StringCommandLowPriority(s) => {
                if self.queue.len() == 0 {
                    let line = s.as_str().as_bytes_vec();
                    self.queue.push_back(line);
                    assert(final(self)@.queue =~= old(self)@.queue + command_lines(command));
                    true
                } else {
                    false
                }
            },
            MachineCommand::GcodeCommand(s) => {
                push_lines(&mut self.queue, s.as_str().as_bytes());
                true
            },
        }
    }

    /// The bytes to send next, if a line may go out: the line at the head
    /// of the queue, which leaves the queue, and a line feed. From then on
    /// the line is in flight. Nothing goes out while a line is in flight or
    /// when nothing waits.
    pub fn next_transmission(&mut self) -> (r: Option<Vec<u8>>)
        ensures
            final(self)@ == after_transmit(old(self)@),
            r is Some == can_transmit(old(self)@),
            r matches Some(bytes) ==> transmitted(old(self)@) == Some(bytes@),
            old(self)@.awaiting_ack ==> r is None,
            r is Some ==> final(self)@.awaiting_ack,
    {
        match self.state {
            FlowState::AwaitingAck => None,
            FlowState::Ready => {
                match self.queue.pop_front() {
                    Some(line) => {
                        let mut bytes = line;
                        bytes.push(LINE_FEED);
                        self.state = FlowState::AwaitingAck;
                        assert(final(self)@.queue =~= old(self)@.queue.drop_first());
                        Some(bytes)
                    },
                    None => {
                        assert(old(self)@.queue.len() == 0);
                        None
                    },
                }
            },
        }
    }

    /// Takes the line that has come in out of the engine and acts on it.
    /// Gives the line back where it is to be handed on as output.
    fn end_line(&mut self) -> (r: Option<Vec<u8>>)
        ensures
            final(self)@ == after_line(old(self)@, old(self)@.partial),
            r is Some == is_output(old(self)@.partial),
            r matches Some(line) ==> line@ == old(self)@.partial,
    {
        let mut line: Vec<u8> = Vec::new();
        core::mem::swap(&mut self.line_buf, &mut line);
        assert(self.line_buf@ =~= Seq::<u8>::empty());
        let trimmed = trim_bytes(line.as_slice());
        if same_bytes(trimmed, "ok".as_bytes()) {
            self.state = FlowState::Ready;
            None
        } else {
            match parse_status_line(trimmed) {
                Ok(status) => {
                    self.status = status;
                    None
                },
                Err(_) => Some(line),
            }
        }
    }

    /// Takes in bytes that came from the machine. Each carriage return ends
    /// a line; line feeds are dropped. A line that is `ok` once trimmed
    /// acknowledges the line in flight; a line that reads as a status report
    /// replaces the status; any other line is handed on, untrimmed, in the
    /// result. A line that has not ended yet is kept for the next call.
    pub fn receive(&mut self, bytes: &[u8]) -> (forwarded: Vec<Vec<u8>>)
        ensures
            final(self)@ == after_bytes(old(self)@, bytes@),
            line_views(forwarded@) == output_of_bytes(old(self)@, bytes@),
    {
        let mut out: Vec<Vec<u8>> = Vec::new();
        let mut i: usize = 0;
        assert(bytes@.take(0).len() == 0);
        assert(line_views(out@) =~= Seq::empty());
        while i < bytes.len()
            invariant
                i <= bytes@.len(),
                self@ == after_bytes(old(self)@, bytes@.take(i as int)),
                line_views(out@) == output_of_bytes(old(self)@, bytes@.take(i as int)),
            decreases bytes@.len() - i,
        {
            let b = bytes[i];
            let ghost before = self@;
            let ghost out_before = out@;
            proof {
                let next = bytes@.take(i as int + 1);
                assert(next.drop_last() =~= bytes@.take(i as int));
                assert(next.last() == b);
            }
            if b == CARRIAGE_RETURN {
                match self.end_line() {
                    Some(line) => {
                        out.push(line);
                        assert(line_views(out@) =~= line_views(out_before) + output_of_byte(
                            before,
                            b,
                        ));
                    },
                    None => {
                        assert(line_views(out@) =~= line_views(out_before) + output_of_byte(
                            before,
                            b,
                        ));
                    },
                }
            } else if b != LINE_FEED {
                self.line_buf.push(b);
                assert(line_views(out@) =~= line_views(out_before) + output_of_byte(before, b));
            } else {
                assert(line_views(out@) =~= line_views(out_before) + output_of_byte(before, b));
            }
            i += 1;
        }
        assert(bytes@.take(i as int) =~= bytes@);
        out
    }

    /// The status last reported by the machine.
    pub fn machine_status(&self) -> (r: MachineStatus)
        ensures
            r == self@.status,
    {
        self.status
    }

    /// Whether a line is in flight.
    pub fn flow_state(&self) -> (r: FlowState)
        ensures
            r == flow_state_of(self@),
    {
        self.state
    }

    /// Whether the engine has work in hand: a line in flight or a line that
    /// waits.
    pub fn command_status(&self) -> (r: CommandStatus)
        ensures
            r == command_status_of(self@),
    {
        match self.state {
            FlowState::AwaitingAck => CommandStatus::Waiting,
            FlowState::Ready => {
                if self.queue.len() == 0 {
                    CommandStatus::Idle
                } else {
                    CommandStatus::Waiting
                }
            },
        }
    }

    /// The number of lines that wait in the queue.
    pub fn pending(&self) -> (r: usize)
        ensures
            r == self@.queue.len(),
    {
        self.queue.len()
    }

    /// Whether the owner of the port should rest a moment before it turns
    /// to the engine again: nothing came in and nothing waits.
    pub fn should_idle(&self, bytes_read: usize) -> (r: bool)
        ensures
            r == (bytes_read == 0 && self@.queue.len() == 0),
    {
        bytes_read == 0 && self.queue.len() == 0
    }
}

/// The engine after an event.
pub open spec fn step(e: EngineView, event: Event) -> EngineView {
    match event {
        Event::Submit(command) => after_submit(e, command),
        Event::Transmit => after_transmit(e),
        Event::Receive(bytes) => after_bytes(e, bytes),
    }
}

/// The engine after a run of events.
pub open spec fn run(e: EngineView, events: Seq<Event>) -> EngineView
    decreases events.len(),
{
    if events.len() == 0 {
        e
    } else {
        step(run(e, events.drop_last()), events.last())
    }
}

/// What one byte that comes in shows on the wire: an acknowledgement where
/// it ends a line that is one.
pub open spec fn marks_of_byte(e: EngineView, b: u8) -> Seq<Mark> {
    if b == CARRIAGE_RETURN && is_ack(e.partial) {
        seq![Mark::Acked]
    } else {
        Seq::empty()
    }
}

/// What bytes that come in show on the wire.
pub open spec fn marks_of_bytes(e: EngineView, bytes: Seq<u8>) -> Seq<Mark>
    decreases bytes.len(),
{
    if bytes.len() == 0 {
        Seq::empty()
    } else {
        marks_of_bytes(e, bytes.drop_last()) + marks_of_byte(
            after_bytes(e, bytes.drop_last()),
            bytes.last(),
        )
    }
}

/// What an event shows on the wire.
pub open spec fn marks_of(e: EngineView, event: Event) -> Seq<Mark> {
    match event {
        Event::Submit(_) => Seq::empty(),
        Event::Transmit => match transmitted(e) {
            Some(line) => seq![Mark::Sent(line)],
            None => Seq::empty(),
        },
        Event::Receive(bytes) => marks_of_bytes(e, bytes),
    }
}

/// What a run of events shows on the wire, in order.
pub open spec fn wire(e: EngineView, events: Seq<Event>) -> Seq<Mark>
    decreases events.len(),
{
    if events.len() == 0 {
        Seq::empty()
    } else {
        wire(e, events.drop_last()) + marks_of(run(e, events.drop_last()), events.last())
    }
}

/// The number of lines that went out since the last acknowledgement.
pub open spec fn in_flight(log: Seq<Mark>) -> nat
    decreases log.len(),
{
    if log.len() == 0 {
        0
    } else {
        match log.last() {
            Mark::Acked => 0,
            Mark::Sent(_) => in_flight(log.drop_last()) + 1,
        }
    }
}

/// Whether every line on the wire went out while no line was in flight.
pub open spec fn gated(log: Seq<Mark>) -> bool {
    forall|k: int| 0 <= k < log.len() && #[trigger] log[k] is Sent ==> in_flight(log.take(k)) == 0
}

/// Whether a record of the wire fits an engine: it is gated, and a line is
/// in flight on it exactly where the engine waits for an acknowledgement.
pub open spec fn wire_fits(e: EngineView, log: Seq<Mark>) -> bool {
    &&& gated(log)
    &&& in_flight(log) == if e.awaiting_ack {
        1nat
    } else {
        0nat
    }
}

proof fn lemma_gated_push(log: Seq<Mark>, m: Mark)
    requires
        gated(log),
        m is Sent ==> in_flight(log) == 0,
    ensures
        gated(log.push(m)),
        in_flight(log.push(m)) == if m is Acked {
            0nat
        } else {
            in_flight(log) + 1
        },
{
    let next = log.push(m);
    assert(next.drop_last() =~= log);
    assert forall|k: int| 0 <= k < next.len() && #[trigger] next[k] is Sent implies in_flight(
        next.take(k),
    ) == 0 by {
        if k < log.len() {
            assert(next.take(k) =~= log.take(k));
            assert(next[k] == log[k]);
        } else {
            assert(next.take(k) =~= log);
        }
    }
}

proof fn lemma_receive_fits(e: EngineView, log: Seq<Mark>, bytes: Seq<u8>)
    requires
        wire_fits(e, log),
    ensures
        wire_fits(after_bytes(e, bytes), log + marks_of_bytes(e, bytes)),
    decreases bytes.len(),
{
    if bytes.len() == 0 {
        assert(log + marks_of_bytes(e, bytes) =~= log);
    } else {
        let init = bytes.drop_last();
        let b = bytes.last();
        lemma_receive_fits(e, log, init);
        let mid = after_bytes(e, init);
        let mid_log = log + marks_of_bytes(e, init);
        if b == CARRIAGE_RETURN && is_ack(mid.partial) {
            lemma_gated_push(mid_log, Mark::Acked);
            assert(log + marks_of_bytes(e, bytes) =~= mid_log.push(Mark::Acked));
        } else {
            assert(log + marks_of_bytes(e, bytes) =~= mid_log);
        }
    }
}

proof fn lemma_step_fits(e: EngineView, log: Seq<Mark>, event: Event)
    requires
        wire_fits(e, log),
    ensures
        wire_fits(step(e, event), log + marks_of(e, event)),
{
    match event {
        Event::Submit(_) => {
            assert(log + marks_of(e, event) =~= log);
        },
        Event::Transmit => {
            match transmitted(e) {
                Some(line) => {
                    lemma_gated_push(log, Mark::Sent(line));
                    assert(log + marks_of(e, event) =~= log.push(Mark::Sent(line)));
                },
                None => {
                    assert(log + marks_of(e, event) =~= log);
                },
            }
        },
        Event::Receive(bytes) => {
            lemma_receive_fits(e, log, bytes);
        },
    }
}

proof fn lemma_run_fits(events: Seq<Event>)
    ensures
        wire_fits(run(initial_engine(), events), wire(initial_engine(), events)),
    decreases events.len(),
{
    if events.len() > 0 {
        let init = events.drop_last();
        lemma_run_fits(init);
        lemma_step_fits(
            run(initial_engine(), init),
            wire(initial_engine(), init),
            events.last(),
        );
    }
}

/// Whatever is submitted, asked and received, in whatever order, beginning
/// with a fresh engine: every line goes out while no line is in flight, so
/// at most one line goes out between one acknowledgement and the next; and a
/// line is in flight exactly while the engine waits for an acknowledgement.
pub proof fn lemma_one_line_in_flight(events: Seq<Event>)
    ensures
        gated(wire(initial_engine(), events)),
        in_flight(wire(initial_engine(), events)) <= 1,
        in_flight(wire(initial_engine(), events)) == 1 <==> run(
            initial_engine(),
            events,
        ).awaiting_ack,
{
    lemma_run_fits(events);
}

/// While the engine waits for an acknowledgement, asking it for the next
/// line gives nothing and changes nothing.
pub proof fn lemma_no_transmission_while_waiting(e: EngineView)
    requires
        e.awaiting_ack,
    ensures
        transmitted(e) is None,
        after_transmit(e) == e,
{
}

/// On a gated record of the wire, two lines that went out have an
/// acknowledgement between them.
pub proof fn lemma_ack_between_lines(log: Seq<Mark>, i: int, j: int)
    requires
        gated(log),
        0 <= i < j < log.len(),
        log[i] is Sent,
        log[j] is Sent,
    ensures
        exists|k: int| i < k < j && #[trigger] log[k] is Acked,
{
    assert(in_flight(log.take(j)) == 0);
    lemma_sent_counts(log.take(j), i);
}

proof fn lemma_sent_counts(log: Seq<Mark>, i: int)
    requires
        0 <= i < log.len(),
        log[i] is Sent,
        in_flight(log) == 0,
    ensures
        exists|k: int| i < k < log.len() && #[trigger] log[k] is Acked,
{
    let last = log.len() - 1;
    assert(log.last() is Acked);
    assert(log[last] is Acked);
}

/// Lines written out one after the other, a line feed behind each.
pub open spec fn terminated(lines: Seq<Seq<u8>>) -> Seq<u8>
    decreases lines.len(),
{
    if lines.len() == 0 {
        Seq::empty()
    } else {
        lines[0] + seq![LINE_FEED] + terminated(lines.drop_first())
    }
}

/// Whether a text holds no line feed.
pub open spec fn no_line_feed(text: Seq<u8>) -> bool {
    forall|i: int| 0 <= i < text.len() ==> text[i] != LINE_FEED
}

/// A text with a line feed at its end: the text itself where it is empty or
/// ends in one already.
pub open spec fn with_last_line_feed(text: Seq<u8>) -> Seq<u8> {
    if text.len() == 0 || text.last() == LINE_FEED {
        text
    } else {
        text.push(LINE_FEED)
    }
}

/// Taking a text apart into its lines loses nothing and adds nothing: no
/// line holds a line feed, and the lines, written out with a line feed
/// behind each, are the text, with a line feed at its end where it had
/// none.
pub proof fn lemma_lines_of_terminated(text: Seq<u8>)
    ensures
        forall|k: int| 0 <= k < lines_of(text).len() ==> no_line_feed(#[trigger] lines_of(text)[k]),
        terminated(lines_of(text)) == with_last_line_feed(text),
        text.len() == 0 <==> lines_of(text).len() == 0,
    decreases text.len(),
{
    let end = first_index(text, LINE_FEED);
    lemma_first_index_bounds(text, LINE_FEED);
    let pieces = lines_of(text);
    if text.len() == 0 {
    } else if end < text.len() {
        let head = text.take(end);
        let tail = text.skip(end + 1);
        lemma_lines_of_terminated(tail);
        assert(pieces.drop_first() =~= lines_of(tail));
        assert(pieces[0] == head);
        assert(text =~= head + seq![LINE_FEED] + tail);
        assert forall|k: int| 0 <= k < pieces.len() implies no_line_feed(#[trigger] pieces[k]) by {
            if k > 0 {
                assert(pieces[k] == lines_of(tail)[k - 1]);
            }
        }
        if tail.len() == 0 {
            assert(text.last() == LINE_FEED);
            assert(terminated(pieces) =~= text);
        } else {
            assert(tail.last() == text.last());
            if text.last() == LINE_FEED {
                assert(terminated(pieces) =~= text);
            } else {
                assert(terminated(pieces) =~= text.push(LINE_FEED));
            }
        }
    } else {
        assert(pieces =~= seq![text]);
        assert(pieces.drop_first().len() == 0);
        assert(terminated(pieces.drop_first()) =~= Seq::<u8>::empty());
        assert(text.last() == text[text.len() - 1]);
        assert(terminated(pieces) =~= text.push(LINE_FEED));
    }
}

proof fn lemma_lines_of_first(head: Seq<u8>, tail: Seq<u8>)
    requires
        no_line_feed(head),
    ensures
        lines_of(head + seq![LINE_FEED] + tail) == seq![head] + lines_of(tail),
{
    let text = head + seq![LINE_FEED] + tail;
    assert forall|j: int| 0 <= j < head.len() implies text[j] != LINE_FEED by {
        assert(text[j] == head[j]);
    }
    lemma_first_index(text, LINE_FEED, head.len() as int);
    assert(text.len() > 0);
    assert(text.take(head.len() as int) =~= head);
    assert(text.skip(head.len() as int + 1) =~= tail);
}

proof fn lemma_program_text_first(lines: Seq<LineView>)
    requires
        lines.len() > 0,
    ensures
        program_text(lines) == line_text(lines[0]) + seq!['\n'] + program_text(lines.drop_first()),
    decreases lines.len(),
{
    if lines.len() == 1 {
        assert(lines.drop_last().len() == 0);
        assert(lines.drop_first().len() == 0);
        assert(program_text(lines.drop_last()) =~= Seq::<char>::empty());
        assert(program_text(lines.drop_first()) =~= Seq::<char>::empty());
        assert(lines.last() == lines[0]);
        assert(program_text(lines) =~= line_text(lines[0]) + seq!['\n'] + program_text(
            lines.drop_first(),
        ));
    } else {
        let init = lines.drop_last();
        lemma_program_text_first(init);
        assert(init.drop_first() =~= lines.drop_first().drop_last());
        assert(lines.drop_first().last() == lines.last());
        assert(program_text(lines) =~= line_text(lines[0]) + seq!['\n'] + program_text(
            lines.drop_first(),
        ));
    }
}

proof fn lemma_ascii_bytes(text: Seq<char>)
    requires
        is_ascii_chars(text),
    ensures
        encode_utf8(text) == text.map_values(|c: char| c as u8),
{
    is_ascii_chars_encode_utf8(text);
    assert(encode_utf8(text) =~= text.map_values(|c: char| c as u8));
}

/// The lines that a program puts into the queue when its text is
/// submitted: the bytes of each of its lines.
pub open spec fn queued_lines(lines: Seq<LineView>) -> Seq<Seq<u8>> {
    lines.map_values(|l: LineView| encode_utf8(line_text(l)))
}

/// A built program that is submitted as one command reaches the queue line
/// by line, in the order in which it was built: exactly one line for each
/// line that was appended, and nothing else. This holds of a program in
/// ASCII no line of which holds a newline.
pub proof fn lemma_program_reaches_queue(lines: Seq<LineView>)
    requires
        forall|i: int| 0 <= i < lines.len() ==> plain_line(#[trigger] lines[i]),
    ensures
        lines_of(encode_utf8(program_text(lines))) == queued_lines(lines),
        lines_of(encode_utf8(program_text(lines))).len() == lines.len(),
    decreases lines.len(),
{
    let as_byte = |c: char| c as u8;
    if lines.len() == 0 {
        let text = program_text(lines);
        assert(text.len() == 0);
        lemma_ascii_bytes(text);
        assert(encode_utf8(text) =~= Seq::<u8>::empty());
        assert(lines_of(Seq::<u8>::empty()) =~= Seq::<Seq<u8>>::empty());
        assert(queued_lines(lines) =~= Seq::<Seq<u8>>::empty());
    } else {
        let rest = lines.drop_first();
        assert forall|i: int| 0 <= i < rest.len() implies plain_line(#[trigger] rest[i]) by {
            assert(rest[i] == lines[i + 1]);
        }
        lemma_program_reaches_queue(rest);
        lemma_program_text_first(lines);
        lemma_program_text_ascii(lines);
        lemma_program_text_ascii(rest);
        let first = line_text(lines[0]);
        let tail = program_text(rest);
        lemma_ascii_bytes(first);
        lemma_ascii_bytes(tail);
        lemma_ascii_bytes(program_text(lines));
        let head_bytes = first.map_values(as_byte);
        let tail_bytes = tail.map_values(as_byte);
        assert(encode_utf8(program_text(lines)) =~= head_bytes + seq![LINE_FEED] + tail_bytes);
        lemma_line_text_no_newline_char(lines[0]);
        assert forall|j: int| 0 <= j < head_bytes.len() implies head_bytes[j] != LINE_FEED by {
            assert(first[j] != '\n');
            assert('\0' <= first[j] <= '\u{7f}');
        }
        lemma_lines_of_first(head_bytes, tail_bytes);
        assert(queued_lines(lines) =~= seq![head_bytes] + queued_lines(rest));
    }
}

/// Submitting the text of a built program puts exactly its lines behind
/// what waits in the queue, in the order in which they were built, and
/// changes nothing else: none is dropped, whatever waits already, and none
/// is added. This holds of a program in ASCII no line of which holds a
/// newline.
pub proof fn lemma_built_program_joins_queue(
    e: EngineView,
    command: MachineCommand,
    lines: Seq<LineView>,
)
    requires
        forall|i: int| 0 <= i < lines.len() ==> plain_line(#[trigger] lines[i]),
        command matches MachineCommand::GcodeCommand(text) && text@ == program_text(lines),
    ensures
        after_submit(e, command).queue == e.queue + queued_lines(lines),
        after_submit(e, command).queue.len() == e.queue.len() + lines.len(),
        after_submit(e, command).awaiting_ack == e.awaiting_ack,
        after_submit(e, command).partial == e.partial,
        after_submit(e, command).status == e.status,
{
    lemma_program_reaches_queue(lines);
}

/// A fresh program to which one cut was added reaches the queue as its
/// fifteen lines.
pub proof fn lemma_cut_program_reaches_queue(cut: Cut)
    ensures
        lines_of(encode_utf8(program_text(cut_program(cut)))) == queued_lines(cut_program(cut)),
        lines_of(encode_utf8(program_text(cut_program(cut)))).len() == 15,
{
    lemma_cut_program_plain(cut);
    lemma_program_reaches_queue(cut_program(cut));
}

proof fn lemma_program_text_ascii(lines: Seq<LineView>)
    requires
        forall|i: int| 0 <= i < lines.len() ==> plain_line(#[trigger] lines[i]),
    ensures
        is_ascii_chars(program_text(lines)),
    decreases lines.len(),
{
    if lines.len() > 0 {
        let init = lines.drop_last();
        assert forall|i: int| 0 <= i < init.len() implies plain_line(#[trigger] init[i]) by {
            assert(init[i] == lines[i]);
        }
        lemma_program_text_ascii(init);
        let a = program_text(init);
        let b = line_text(lines.last());
        assert(is_ascii_chars(b)) by {
            assert(plain_line(lines[lines.len() - 1]));
        }
        let text = program_text(lines);
        assert forall|i: int| 0 <= i < text.len() implies '\0' <= #[trigger] text[i]
            <= '\u{7f}' by {
            if i < a.len() {
                assert(text[i] == a[i]);
            } else if i < a.len() + b.len() {
                assert(text[i] == b[i - a.len()]);
            } else {
                assert(text[i] == '\n');
            }
        }
    }
}

proof fn lemma_line_text_no_newline_char(l: LineView)
    requires
        single_line(l),
    ensures
        forall|j: int| 0 <= j < line_text(l).len() ==> line_text(l)[j] != '\n',
{
    reveal_strlit("       (");
    reveal_strlit(") ");
    match l.comment {
        None => {},
        Some(c) => {
            let open = "       ("@;
            let close = ") "@;
            let text = line_text(l);
            assert forall|j: int| 0 <= j < text.len() implies text[j] != '\n' by {
                if j < l.command.len() {
                    assert(text[j] == l.command[j]);
                } else if j < l.command.len() + open.len() {
                    assert(text[j] == open[j - l.command.len()]);
                } else if j < l.command.len() + open.len() + c.len() {
                    assert(text[j] == c[j - l.command.len() - open.len()]);
                } else {
                    assert(text[j] == close[j - l.command.len() - open.len() - c.len()]);
                }
            }
        },
    }
}

/// The settings of the link to the machine, and what a front end sends
/// through it. A connection that is not made yet sends nothing.
#[derive(Debug)]
pub struct MachineConnection {
    /// The path of the serial device.
    pub serial_port: String,
    /// The speed of the link, in bits per second.
    pub baudrate: u32,
    /// Whether the connection has been made.
    pub connected: bool,
}

/// What a connection hands to the engine for a command: the command where
/// the connection is made, nothing where it is not.
pub open spec fn sent_if(connected: bool, command: MachineCommand) -> Option<MachineCommand> {
    if connected {
        Some(command)
    } else {
        None
    }
}

impl MachineConnection {
    /// A connection that is not made yet, to `/dev/ttyUSB0` at 115200 baud.
    pub fn new() -> (r: Self)
        ensures
            r.serial_port@ == "/dev/ttyUSB0"@,
            r.baudrate == 115200,
            !r.connected,
    {
        Self { serial_port: "/dev/ttyUSB0".to_owned(), baudrate: 115200, connected: false }
    }

    /// Sets the path of the serial device.
    pub fn set_serial_port(&mut self, new_port: String)
        ensures
            final(self).serial_port == new_port,
            final(self).baudrate == old(self).baudrate,
            final(self).connected == old(self).connected,
    {
        self.serial_port = new_port;
    }

    /// One line for the machine, which always joins the queue.
    pub fn send_string_command(&self, command: String) -> (r: Option<MachineCommand>)
        ensures
            r == sent_if(self.connected, MachineCommand::StringCommand(command)),
    {
        if self.connected {
            Some(MachineCommand::StringCommand(command))
        } else {
            None
        }
    }

    /// One line for the machine, which joins the queue only when nothing
    /// else waits in it.
    pub fn send_string_command_low_priority(&self, command: String) -> (r: Option<MachineCommand>)
        ensures
            r == sent_if(self.connected, MachineCommand::StringCommandLowPriority(command)),
    {
        if self.connected {
            Some(MachineCommand::StringCommandLowPriority(command))
        } else {
            None
        }
    }

    /// A program for the machine.
    pub fn send_gcode_command(&self, command: String) -> (r: Option<MachineCommand>)
        ensures
            r == sent_if(self.connected, MachineCommand::GcodeCommand(command)),
    {
        if self.connected {
            Some(MachineCommand::GcodeCommand(command))
        } else {
            None
        }
    }

    /// The move that brings the tool back to the origin.
    pub fn home(&self) -> (r: Option<MachineCommand>)
        ensures
            r is Some == self.connected,
            r matches Some(c) ==> c matches MachineCommand::StringCommand(s) && s@
                == "G1 X0 Y0 F1000"@,
    {
        self.send_string_command("G1 X0 Y0 F1000".to_owned())
    }

    /// The question for the machine's status, at low priority, so that it
    /// never stands in the way of a command.
    pub fn poll_status(&self) -> (r: Option<MachineCommand>)
        ensures
            r is Some == self.connected,
            r matches Some(c) ==> c matches MachineCommand::StringCommandLowPriority(s) && s@
                == "?"@,
    {
        self.send_string_command_low_priority("?".to_owned())
    }

    /// Marks the connection as made. Says whether it was made by this call:
    /// only then is a worker to be started for it.
    pub fn make_connection(&mut self) -> (started: bool)
        ensures
            started == !old(self).connected,
            final(self).connected,
            final(self).serial_port == old(self).serial_port,
            final(self).baudrate == old(self).baudrate,
    {
        let started = !self.connected;
        self.connected = true;
        started
    }
}

} // verus!
