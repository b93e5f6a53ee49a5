//! The reader task of one streaming port, as a state machine.
//!
//! The task itself (its thread, the device, the event sink) lives with the
//! caller. The caller asks [`ReaderTask::request`] what to do next, does it,
//! and reports the outcome to [`ReaderTask::step`], which answers with the
//! events to deliver. One round is: look for a cancellation, read, pause.
//! The task stops for good on a cancellation and on a fatal device error.

use vstd::prelude::*;
use vstd::string::StringExecFns;
use vstd::utf8::{valid_utf8, valid_utf8_concat};
use crate::reassembly::{
    append_bytes, held_back, lemma_release_of_text, lemma_release_partitions,
    lemma_rest_of_text_is_text, release_text, released,
};
use crate::types::{IoFailure, ReadData};

verus! {

/// Pause between two reads where none is asked for, in milliseconds.
pub const DEFAULT_INTERVAL: u64 = 200;

/// Largest read where none is asked for, in bytes.
pub const DEFAULT_CHUNK_SIZE: usize = 1024;

/// Pending bytes are flushed at the end of a pause once more than this many
/// pauses in a row have ended with bytes pending.
pub const STALE_LIMIT: u32 = 2;

/// What the task does next.
#[derive(Debug, Clone, Copy, PartialEq, Eq, Structural)]
pub enum Phase {
    /// Look for a cancellation signal.
    Poll,
    /// Read from the device.
    Read,
    /// Pause before the next round.
    Pause,
    /// Nothing: the task has ended.
    Stopped,
}

/// Outcome of a non-blocking look at the cancellation channel.
#[derive(Debug, Clone, Copy, PartialEq, Eq, Structural)]
pub enum CancelPoll {
    /// A cancellation signal was waiting.
    Signal,
    /// Nothing was waiting.
    Empty,
    /// The sending side is gone.
    Disconnected,
}

/// What the caller is asked to do.
#[derive(Debug, Clone, Copy, PartialEq, Eq, Structural)]
pub enum ReaderRequest {
    /// Look at the cancellation channel without blocking.
    PollCancel,
    /// Read at most this many bytes from the device.
    Read(usize),
    /// Sleep for this many milliseconds.
    Sleep(u64),
    /// End the task.
    Stop,
}

/// What the caller reports back.
#[derive(Debug, Clone, PartialEq, Eq)]
pub enum ReaderEvent {
    /// The cancellation channel was looked at.
    Polled(CancelPoll),
    /// The device gave these bytes.
    ReadOk(Vec<u8>),
    /// The read failed.
    ReadFailed(IoFailure),
    /// The pause is over.
    Slept,
}

/// Mathematical content of a [`ReaderEvent`].
pub enum ReaderEventView {
    Polled(CancelPoll),
    ReadOk(Seq<u8>),
    ReadFailed(IoFailure),
    Slept,
}

impl View for ReaderEvent {
    type V = ReaderEventView;

    open spec fn view(&self) -> ReaderEventView {
        match *self {
            ReaderEvent::Polled(poll) => ReaderEventView::Polled(poll),
            ReaderEvent::ReadOk(data) => ReaderEventView::ReadOk(data@),
            ReaderEvent::ReadFailed(failure) => ReaderEventView::ReadFailed(failure),
            ReaderEvent::Slept => ReaderEventView::Slept,
        }
    }
}

/// An event for the sink.
#[derive(Debug, Clone, PartialEq, Eq)]
pub enum Emission {
    /// Bytes as they arrived, for the raw channel.
    Read(ReadData),
    /// Bytes released as text, for the text channel.
    ReadString(ReadData),
    /// Pending bytes given up on, for the raw channel.
    Flush(ReadData),
    /// The device is gone.
    Disconnect,
}

/// Mathematical content of an [`Emission`].
pub enum EmissionView {
    Read(Seq<u8>),
    ReadString(Seq<u8>),
    Flush(Seq<u8>),
    Disconnect,
}

impl View for Emission {
    type V = EmissionView;

    open spec fn view(&self) -> EmissionView {
        match *self {
            Emission::Read(chunk) => EmissionView::Read(chunk@),
            Emission::ReadString(chunk) => EmissionView::ReadString(chunk@),
            Emission::Flush(chunk) => EmissionView::Flush(chunk@),
            Emission::Disconnect => EmissionView::Disconnect,
        }
    }
}

impl Emission {
    /// The chunk carried, if any, records its own length.
    pub open spec fn wf(&self) -> bool {
        match *self {
            Emission::Read(chunk) => chunk.wf(),
            Emission::ReadString(chunk) => chunk.wf(),
            Emission::Flush(chunk) => chunk.wf(),
            Emission::Disconnect => true,
        }
    }
}

/// The contents of a list of emissions, in order.
pub open spec fn emission_views(list: Seq<Emission>) -> Seq<EmissionView> {
    list.map_values(|e: Emission| e@)
}

/// Name of the channel that carries raw bytes of `port_name`.
pub open spec fn read_channel(port_name: Seq<char>) -> Seq<char> {
    "plugin:serialport:read-"@ + port_name
}

/// Name of the channel that carries released text of `port_name`.
pub open spec fn read_string_channel(port_name: Seq<char>) -> Seq<char> {
    "plugin:serialport:read-string-"@ + port_name
}

/// Name of the channel that announces the loss of `port_name`.
pub open spec fn disconnect_channel(port_name: Seq<char>) -> Seq<char> {
    "plugin:serialport:disconnect-"@ + port_name
}

/// Name of the channel on which `emission` of `port_name` is delivered.
pub open spec fn channel_of(emission: EmissionView, port_name: Seq<char>) -> Seq<char> {
    match emission {
        EmissionView::Read(_) => read_channel(port_name),
        EmissionView::Flush(_) => read_channel(port_name),
        EmissionView::ReadString(_) => read_string_channel(port_name),
        EmissionView::Disconnect => disconnect_channel(port_name),
    }
}

/// State of a reader task.
pub struct ReaderTask {
    port_name: String,
    interval: u64,
    size: usize,
    incomplete_buffer: Vec<u8>,
    count: u32,
    phase: Phase,
}

/// Mathematical content of a [`ReaderTask`].
pub struct ReaderView {
    /// Port the task reads from.
    pub port_name: Seq<char>,
    /// Pause between rounds, in milliseconds.
    pub interval: u64,
    /// Largest read, in bytes.
    pub size: usize,
    /// Bytes that arrived and were not released yet.
    pub pending: Seq<u8>,
    /// Pauses in a row that ended with bytes pending.
    pub count: u32,
    /// What comes next.
    pub phase: Phase,
}

/// Whether a read failure ends the task.
pub open spec fn is_fatal(failure: IoFailure) -> bool {
    failure == IoFailure::NotFound || failure == IoFailure::PermissionDenied
}

/// The task as it starts: nothing pending, about to look for a cancellation.
pub open spec fn initial(port_name: Seq<char>, interval: Option<u64>, size: Option<usize>)
    -> ReaderView {
    ReaderView {
        port_name,
        interval: match interval {
            Some(ms) => ms,
            None => DEFAULT_INTERVAL,
        },
        size: match size {
            Some(bytes) => bytes,
            None => DEFAULT_CHUNK_SIZE,
        },
        pending: Seq::empty(),
        count: 0,
        phase: Phase::Poll,
    }
}

/// What a task in state `s` asks for.
pub open spec fn request_of(s: ReaderView) -> ReaderRequest {
    match s.phase {
        Phase::Poll => ReaderRequest::PollCancel,
        Phase::Read => ReaderRequest::Read(s.size),
        Phase::Pause => ReaderRequest::Sleep(s.interval),
        Phase::Stopped => ReaderRequest::Stop,
    }
}

/// The effect of a cancellation poll.
pub open spec fn on_polled(s: ReaderView, poll: CancelPoll) -> (ReaderView, Seq<EmissionView>) {
    if poll == CancelPoll::Empty {
        (ReaderView { phase: Phase::Read, ..s }, Seq::empty())
    } else {
        (ReaderView { phase: Phase::Stopped, ..s }, Seq::empty())
    }
}

/// The effect of a successful read: the bytes go out raw, join the pending
/// ones, and what can be released of the whole goes out as text.
pub open spec fn on_read_ok(s: ReaderView, data: Seq<u8>) -> (ReaderView, Seq<EmissionView>) {
    let buffer = s.pending + data;
    (
        ReaderView { pending: held_back(buffer), count: 0, phase: Phase::Pause, ..s },
        match released(buffer) {
            Some(text) => seq![EmissionView::Read(data), EmissionView::ReadString(text)],
            None => seq![EmissionView::Read(data)],
        },
    )
}

/// The effect of a failed read: a fatal failure announces the loss of the
/// device and ends the task, any other counts as a read of nothing.
pub open spec fn on_read_failed(s: ReaderView, failure: IoFailure) -> (
    ReaderView,
    Seq<EmissionView>,
) {
    if is_fatal(failure) {
        (ReaderView { phase: Phase::Stopped, ..s }, seq![EmissionView::Disconnect])
    } else {
        (ReaderView { phase: Phase::Pause, ..s }, Seq::empty())
    }
}

/// The effect of a pause: pending bytes that have outlasted more than
/// `STALE_LIMIT` pauses are flushed raw, younger ones age by one pause.
pub open spec fn on_slept(s: ReaderView) -> (ReaderView, Seq<EmissionView>) {
    if s.pending.len() == 0 {
        (ReaderView { phase: Phase::Poll, ..s }, Seq::empty())
    } else if s.count > STALE_LIMIT {
        (
            ReaderView { pending: Seq::empty(), count: 0, phase: Phase::Poll, ..s },
            seq![EmissionView::Flush(s.pending)],
        )
    } else {
        (ReaderView { count: (s.count + 1) as u32, phase: Phase::Poll, ..s }, Seq::empty())
    }
}

/// One transition of the task: the state after `event` and the events to
/// deliver, in order. An event that does not answer the pending request
/// changes nothing and delivers nothing.
pub open spec fn step(s: ReaderView, event: ReaderEventView) -> (ReaderView, Seq<EmissionView>) {
    match (s.phase, event) {
        (Phase::Poll, ReaderEventView::Polled(poll)) => on_polled(s, poll),
        (Phase::Read, ReaderEventView::ReadOk(data)) => on_read_ok(s, data),
        (Phase::Read, ReaderEventView::ReadFailed(failure)) => on_read_failed(s, failure),
        (Phase::Pause, ReaderEventView::Slept) => on_slept(s),
        _ => (s, Seq::empty()),
    }
}

/// The task after a sequence of events, with everything delivered on the way.
pub open spec fn run(s: ReaderView, events: Seq<ReaderEventView>) -> (
    ReaderView,
    Seq<EmissionView>,
)
    decreases events.len(),
{
    if events.len() == 0 {
        (s, Seq::empty())
    } else {
        let before = run(s, events.drop_last());
        let last = step(before.0, events.last());
        (last.0, before.1 + last.1)
    }
}

/// All bytes that `emissions` carry as arrived, in order.
pub open spec fn arrived(emissions: Seq<EmissionView>) -> Seq<u8>
    decreases emissions.len(),
{
    if emissions.len() == 0 {
        Seq::empty()
    } else {
        arrived(emissions.drop_last()) + match emissions.last() {
            EmissionView::Read(data) => data,
            _ => Seq::empty(),
        }
    }
}

/// All bytes that `emissions` pass on, as text or flushed, in order.
pub open spec fn passed_on(emissions: Seq<EmissionView>) -> Seq<u8>
    decreases emissions.len(),
{
    if emissions.len() == 0 {
        Seq::empty()
    } else {
        passed_on(emissions.drop_last()) + match emissions.last() {
            EmissionView::ReadString(text) => text,
            EmissionView::Flush(data) => data,
            _ => Seq::empty(),
        }
    }
}

/// `arrived` and `passed_on` of a concatenation are the concatenations.
pub proof fn lemma_bytes_of_concat(a: Seq<EmissionView>, b: Seq<EmissionView>)
    ensures
        arrived(a + b) == arrived(a) + arrived(b),
        passed_on(a + b) == passed_on(a) + passed_on(b),
    decreases b.len(),
{
    if b.len() > 0 {
        lemma_bytes_of_concat(a, b.drop_last());
        assert((a + b).drop_last() =~= a + b.drop_last());
    }
}

/// The bytes carried by a single emission.
proof fn lemma_bytes_of_one(e: EmissionView)
    ensures
        arrived(seq![e]) == match e {
            EmissionView::Read(data) => data,
            _ => Seq::empty(),
        },
        passed_on(seq![e]) == match e {
            EmissionView::ReadString(text) => text,
            EmissionView::Flush(data) => data,
            _ => Seq::empty(),
        },
{
    let one = seq![e];
    assert(arrived(one.drop_last()) =~= Seq::<u8>::empty());
    assert(passed_on(one.drop_last()) =~= Seq::<u8>::empty());
}

/// A transition neither loses nor repeats a byte: the bytes passed on and
/// those still pending afterwards are, in order, the bytes pending before
/// and those that arrived.
pub proof fn lemma_step_conserves_bytes(s: ReaderView, event: ReaderEventView)
    ensures
        passed_on(step(s, event).1) + step(s, event).0.pending == s.pending + arrived(
            step(s, event).1,
        ),
{
    let out = step(s, event).1;
    if s.phase == Phase::Read && event is ReadOk {
        let data = event->ReadOk_0;
        let buffer = s.pending + data;
        lemma_release_partitions(buffer);
        lemma_bytes_of_one(EmissionView::Read(data));
        if let Some(text) = released(buffer) {
            lemma_bytes_of_one(EmissionView::ReadString(text));
            lemma_bytes_of_concat(
                seq![EmissionView::Read(data)],
                seq![EmissionView::ReadString(text)],
            );
            assert(out =~= seq![EmissionView::Read(data)] + seq![
                EmissionView::ReadString(text),
            ]);
        }
    } else if s.phase == Phase::Read && event is ReadFailed {
        lemma_bytes_of_one(EmissionView::Disconnect);
    } else if s.phase == Phase::Pause && event is Slept {
        lemma_bytes_of_one(EmissionView::Flush(s.pending));
    }
}

/// Whatever the task is told and however the bytes are cut into reads, no
/// byte is lost or repeated: everything delivered as text or flushed,
/// followed by what is still pending, is what was pending at first followed
/// by everything delivered raw as it arrived.
pub proof fn lemma_run_conserves_bytes(s: ReaderView, events: Seq<ReaderEventView>)
    ensures
        passed_on(run(s, events).1) + run(s, events).0.pending == s.pending + arrived(
            run(s, events).1,
        ),
    decreases events.len(),
{
    if events.len() > 0 {
        let before = run(s, events.drop_last());
        let last = step(before.0, events.last());
        lemma_run_conserves_bytes(s, events.drop_last());
        lemma_step_conserves_bytes(before.0, events.last());
        lemma_bytes_of_concat(before.1, last.1);
        assert(passed_on(before.1 + last.1) + last.0.pending =~= passed_on(before.1) + (passed_on(
            last.1,
        ) + last.0.pending));
        assert(s.pending + arrived(before.1 + last.1) =~= (s.pending + arrived(before.1))
            + arrived(last.1));
        assert((passed_on(before.1) + before.0.pending) + arrived(last.1) =~= passed_on(before.1)
            + (before.0.pending + arrived(last.1)));
    }
}

/// For a task that starts with nothing pending and ends with nothing
/// pending, the text and the flushed bytes delivered are exactly the bytes
/// that arrived.
pub proof fn lemma_fresh_run_delivers_all(
    port_name: Seq<char>,
    interval: Option<u64>,
    size: Option<usize>,
    events: Seq<ReaderEventView>,
)
    requires
        run(initial(port_name, interval, size), events).0.pending.len() == 0,
    ensures
        passed_on(run(initial(port_name, interval, size), events).1) == arrived(
            run(initial(port_name, interval, size), events).1,
        ),
{
    lemma_run_conserves_bytes(initial(port_name, interval, size), events);
}

/// How many of `events` report the end of a pause.
pub open spec fn pauses(events: Seq<ReaderEventView>) -> nat
    decreases events.len(),
{
    if events.len() == 0 {
        0
    } else {
        pauses(events.drop_last()) + if events.last() is Slept {
            1nat
        } else {
            0nat
        }
    }
}

/// Whether one of `emissions` is a flush.
pub open spec fn has_flush(emissions: Seq<EmissionView>) -> bool {
    exists|i: int| 0 <= i < emissions.len() && (#[trigger] emissions[i]) is Flush
}

/// Pending bytes are flushed at the end of a pause only, and only when
/// more than `STALE_LIMIT` pauses in a row have ended with bytes pending.
/// Only the end of a pause lets the count of such pauses grow, by one, and
/// a successful read sets it back to zero.
pub proof fn lemma_flush_needs_stale_bytes(s: ReaderView, event: ReaderEventView)
    ensures
        has_flush(step(s, event).1) ==> s.phase == Phase::Pause && event is Slept && s.count
            > STALE_LIMIT,
        step(s, event).0.count <= s.count + if event is Slept {
            1int
        } else {
            0int
        },
        s.phase == Phase::Read && event is ReadOk ==> step(s, event).0.count == 0,
{
}

/// Nothing is flushed during the first `STALE_LIMIT + 1` pauses after the
/// count of pauses was at zero, as it is after every successful read:
/// bytes that wait for the rest of a character are not given up on before
/// that.
pub proof fn lemma_no_flush_before_stale(s: ReaderView, events: Seq<ReaderEventView>)
    requires
        s.count + pauses(events) <= STALE_LIMIT + 1,
    ensures
        !has_flush(run(s, events).1),
        run(s, events).0.count <= s.count + pauses(events),
    decreases events.len(),
{
    if events.len() > 0 {
        lemma_no_flush_before_stale(s, events.drop_last());
        lemma_flush_needs_stale_bytes(run(s, events.drop_last()).0, events.last());
    }
}

/// Whether every chunk of text among `emissions` is valid UTF-8.
pub open spec fn text_is_valid(emissions: Seq<EmissionView>) -> bool {
    forall|i: int|
        0 <= i < emissions.len() ==> ((#[trigger] emissions[i]) matches EmissionView::ReadString(
            text,
        ) ==> valid_utf8(text))
}

/// A transition without a flush keeps text intact. Where `done`, valid
/// UTF-8, was passed on so far and everything that arrived is the beginning
/// of the valid UTF-8 `whole`, the text the transition delivers is valid
/// UTF-8, and so is all that was passed on after it.
pub proof fn lemma_step_keeps_text(
    s: ReaderView,
    event: ReaderEventView,
    whole: Seq<u8>,
    done: Seq<u8>,
)
    requires
        valid_utf8(whole),
        valid_utf8(done),
        (done + s.pending + arrived(step(s, event).1)).is_prefix_of(whole),
        !has_flush(step(s, event).1),
    ensures
        text_is_valid(step(s, event).1),
        valid_utf8(done + passed_on(step(s, event).1)),
{
    let out = step(s, event).1;
    if s.phase == Phase::Read && event is ReadOk {
        let data = event->ReadOk_0;
        let buffer = s.pending + data;
        lemma_bytes_of_one(EmissionView::Read(data));
        if let Some(text) = released(buffer) {
            lemma_bytes_of_one(EmissionView::ReadString(text));
            lemma_bytes_of_concat(
                seq![EmissionView::Read(data)],
                seq![EmissionView::ReadString(text)],
            );
            assert(out =~= seq![EmissionView::Read(data)] + seq![
                EmissionView::ReadString(text),
            ]);
            assert(arrived(out) =~= data);
            assert(passed_on(out) =~= text);
            // What was passed on is a beginning of the whole, so the rest
            // of the whole is text, and the buffer is the beginning of it.
            let so_far = done + s.pending + arrived(out);
            assert(whole.take(done.len() as int) =~= done) by {
                let begin = whole.subrange(0, so_far.len() as int);
                assert forall|i: int| 0 <= i < done.len() implies whole[i] == done[i] by {
                    assert(begin[i] == so_far[i]);
                }
            }
            lemma_rest_of_text_is_text(whole, done.len() as int);
            let rest = whole.skip(done.len() as int);
            assert(rest.take(buffer.len() as int) =~= buffer) by {
                assert(so_far =~= done + buffer);
                let begin = whole.subrange(0, so_far.len() as int);
                assert forall|i: int| 0 <= i < buffer.len() implies rest[i] == buffer[i] by {
                    assert(begin[done.len() + i] == so_far[done.len() + i]);
                }
            }
            lemma_release_of_text(rest, buffer.len() as int);
            valid_utf8_concat(done, text);
        } else {
            assert(passed_on(out) =~= Seq::<u8>::empty());
            assert(done + passed_on(out) =~= done);
        }
    } else if s.phase == Phase::Pause && event is Slept && s.pending.len() > 0 && s.count
        > STALE_LIMIT {
        assert(out[0] is Flush);
    } else {
        lemma_bytes_of_one(EmissionView::Disconnect);
        assert(passed_on(out) =~= Seq::<u8>::empty());
        assert(done + passed_on(out) =~= done);
    }
}

/// A stream of valid UTF-8 comes out as valid UTF-8, however it is cut
/// into reads: where all that arrived at a task, from its start on, is the
/// beginning of the valid UTF-8 `whole`, and nothing had to be flushed,
/// every chunk of text delivered is valid UTF-8, and so is all that was
/// passed on.
pub proof fn lemma_text_comes_out_as_text(
    port_name: Seq<char>,
    interval: Option<u64>,
    size: Option<usize>,
    events: Seq<ReaderEventView>,
    whole: Seq<u8>,
)
    requires
        valid_utf8(whole),
        arrived(run(initial(port_name, interval, size), events).1).is_prefix_of(whole),
        !has_flush(run(initial(port_name, interval, size), events).1),
    ensures
        text_is_valid(run(initial(port_name, interval, size), events).1),
        valid_utf8(passed_on(run(initial(port_name, interval, size), events).1)),
    decreases events.len(),
{
    let start = initial(port_name, interval, size);
    if events.len() > 0 {
        let before = run(start, events.drop_last());
        let last = step(before.0, events.last());
        let out = before.1 + last.1;
        lemma_bytes_of_concat(before.1, last.1);
        lemma_run_conserves_bytes(start, events.drop_last());
        let done = passed_on(before.1);
        assert(done + before.0.pending =~= arrived(before.1)) by {
            assert(start.pending + arrived(before.1) =~= arrived(before.1));
        }
        assert(arrived(before.1).is_prefix_of(whole)) by {
            assert(arrived(out).subrange(0, arrived(before.1).len() as int) =~= arrived(before.1));
        }
        assert(!has_flush(before.1)) by {
            if has_flush(before.1) {
                let i = choose|i: int| 0 <= i < before.1.len() && (#[trigger] before.1[i]) is Flush;
                assert(out[i] is Flush);
            }
        }
        assert(!has_flush(last.1)) by {
            if has_flush(last.1) {
                let i = choose|i: int| 0 <= i < last.1.len() && (#[trigger] last.1[i]) is Flush;
                assert(out[before.1.len() + i] is Flush);
            }
        }
        lemma_text_comes_out_as_text(port_name, interval, size, events.drop_last(), whole);
        assert(done + before.0.pending + arrived(last.1) =~= arrived(out));
        lemma_step_keeps_text(before.0, events.last(), whole, done);
        assert forall|i: int| 0 <= i < out.len() implies ((#[trigger] out[i]) matches EmissionView::ReadString(
            text,
        ) ==> valid_utf8(text)) by {
            if i < before.1.len() {
                assert(out[i] == before.1[i]);
            } else {
                assert(out[i] == last.1[i - before.1.len()]);
            }
        }
    }
}

/// A stopped task stays stopped: it takes in any events without a change
/// and delivers nothing.
pub proof fn lemma_stopped_is_final(s: ReaderView, events: Seq<ReaderEventView>)
    requires
        s.phase == Phase::Stopped,
    ensures
        run(s, events) == (s, Seq::<EmissionView>::empty()),
    decreases events.len(),
{
    if events.len() > 0 {
        lemma_stopped_is_final(s, events.drop_last());
        assert(Seq::<EmissionView>::empty() + Seq::<EmissionView>::empty() =~= Seq::<
            EmissionView,
        >::empty());
    }
}

/// Running `first` and then `rest` is running the two in a row.
pub proof fn lemma_run_concat(s: ReaderView, first: Seq<ReaderEventView>, rest: Seq<ReaderEventView>)
    ensures
        run(s, first + rest) == (
            run(run(s, first).0, rest).0,
            run(s, first).1 + run(run(s, first).0, rest).1,
        ),
    decreases rest.len(),
{
    if rest.len() > 0 {
        lemma_run_concat(s, first, rest.drop_last());
        assert((first + rest).drop_last() =~= first + rest.drop_last());
    }
}

/// When a read fails fatally, exactly one disconnect is delivered and
/// nothing else, then or later, and from then on the task asks for nothing
/// but to be ended: no further read takes place.
pub proof fn lemma_device_loss_ends_task(
    s: ReaderView,
    failure: IoFailure,
    later: Seq<ReaderEventView>,
)
    requires
        s.phase == Phase::Read,
        is_fatal(failure),
    ensures
        run(s, seq![ReaderEventView::ReadFailed(failure)] + later).1 == seq![
            EmissionView::Disconnect,
        ],
        request_of(run(s, seq![ReaderEventView::ReadFailed(failure)] + later).0)
            == ReaderRequest::Stop,
{
    let first = seq![ReaderEventView::ReadFailed(failure)];
    assert(run(s, first.drop_last()) == (s, Seq::<EmissionView>::empty()));
    assert(run(s, first).0.phase == Phase::Stopped);
    lemma_run_concat(s, first, later);
    lemma_stopped_is_final(run(s, first).0, later);
}

impl ReaderTask {
    /// The state of the task.
    pub closed spec fn view(&self) -> ReaderView {
        ReaderView {
            port_name: self.port_name@,
            interval: self.interval,
            size: self.size,
            pending: self.incomplete_buffer@,
            count: self.count,
            phase: self.phase,
        }
    }

    /// A task for `port_name` that has not done anything yet.
    pub fn new(port_name: String, interval: Option<u64>, size: Option<usize>) -> (task: ReaderTask)
        ensures
            task@ == initial(port_name@, interval, size),
    {
        ReaderTask {
            port_name,
            interval: match interval {
                Some(ms) => ms,
                None => DEFAULT_INTERVAL,
            },
            size: match size {
                Some(bytes) => bytes,
                None => DEFAULT_CHUNK_SIZE,
            },
            incomplete_buffer: Vec::new(),
            count: 0,
            phase: Phase::Poll,
        }
    }

    /// The port the task reads from.
    pub fn port_name(&self) -> (name: &str)
        ensures
            name@ == self@.port_name,
    {
        self.port_name.as_str()
    }

    /// The pause between two rounds, in milliseconds.
    pub fn interval(&self) -> (ms: u64)
        ensures
            ms == self@.interval,
    {
        self.interval
    }

    /// The largest read, in bytes.
    pub fn size(&self) -> (bytes: usize)
        ensures
            bytes == self@.size,
    {
        self.size
    }

    /// The bytes that arrived and were not released yet.
    pub fn pending(&self) -> (bytes: &Vec<u8>)
        ensures
            bytes@ == self@.pending,
    {
        &self.incomplete_buffer
    }

    /// The number of pauses in a row that ended with bytes pending.
    pub fn count(&self) -> (pauses: u32)
        ensures
            pauses == self@.count,
    {
        self.count
    }

    /// What the task does next.
    pub fn phase(&self) -> (phase: Phase)
        ensures
            phase == self@.phase,
    {
        self.phase
    }

    /// What the caller is to do next.
    pub fn request(&self) -> (request: ReaderRequest)
        ensures
            request == request_of(self@),
    {
        match self.phase {
            Phase::Poll => ReaderRequest::PollCancel,
            Phase::Read => ReaderRequest::Read(self.size),
            Phase::Pause => ReaderRequest::Sleep(self.interval),
            Phase::Stopped => ReaderRequest::Stop,
        }
    }

    /// Takes in the outcome of what was asked for and returns the events to
    /// deliver, in order.
    pub fn step(&mut self, event: ReaderEvent) -> (out: Vec<Emission>)
        ensures
            (final(self)@, emission_views(out@)) == step(old(self)@, event@),
            forall|i: int| 0 <= i < out@.len() ==> (#[trigger] out@[i]).wf(),
    {
        let mut out: Vec<Emission> = Vec::new();
        match event {
            ReaderEvent::Polled(poll) => {
                if self.phase == Phase::Poll {
                    if poll == CancelPoll::Empty {
                        self.phase = Phase::Read;
                    } else {
                        self.phase = Phase::Stopped;
                    }
                }
            },
            ReaderEvent::ReadOk(data) => {
                if self.phase == Phase::Read {
                    append_bytes(&mut self.incomplete_buffer, &data);
                    out.push(Emission::Read(ReadData::new(data)));
                    match release_text(&mut self.incomplete_buffer) {
                        Some(text) => {
                            out.push(Emission::ReadString(ReadData::new(text)));
                        },
                        None => {},
                    }
                    self.count = 0;
                    self.phase = Phase::Pause;
                }
            },
            ReaderEvent::ReadFailed(failure) => {
                if self.phase == Phase::Read {
                    if failure == IoFailure::NotFound || failure == IoFailure::PermissionDenied {
                        out.push(Emission::Disconnect);
                        self.phase = Phase::Stopped;
                    } else {
                        self.phase = Phase::Pause;
                    }
                }
            },
            ReaderEvent::Slept => {
                if self.phase == Phase::Pause {
                    if !self.incomplete_buffer.is_empty() {
                        if self.count > STALE_LIMIT {
                            let mut stale: Vec<u8> = Vec::new();
                            core::mem::swap(&mut self.incomplete_buffer, &mut stale);
                            out.push(Emission::Flush(ReadData::new(stale)));
                            self.count = 0;
                        } else {
                            self.count = self.count + 1;
                        }
                    }
                    self.phase = Phase::Poll;
                }
            },
        }
        assert(emission_views(out@) =~= step(old(self)@, event@).1);
        out
    }

    /// Name of the channel on which `emission` is to be delivered.
    pub fn channel(&self, emission: &Emission) -> (name: String)
        ensures
            name@ == channel_of(emission@, self@.port_name),
    {
        let prefix = match emission {
            Emission::Read(_) => "plugin:serialport:read-",
            Emission::Flush(_) => "plugin:serialport:read-",
            Emission::ReadString(_) => "plugin:serialport:read-string-",
            Emission::Disconnect => "plugin:serialport:disconnect-",
        };
        String::from_str(prefix).concat(self.port_name.as_str())
    }
}

} // verus!
