//! The operations on the registry of open ports.
//!
//! Each operation decides; what has to be done to a device or a channel is
//! left to the caller and named in the result. Where an operation has to
//! wait for such work, it comes in two parts: the decision, and the
//! function that takes in the outcome.

use vstd::prelude::*;
use crate::errors::{already_open, no_device, outcome, Error, ErrorKind, ErrorView};
use crate::reader::{initial, ReaderTask, ReaderView};
use crate::registry::{
    distinct_names, has_port, port_index, port_of, SerialPortState, SerialPortsState,
};
use crate::types::{
    data_bits_of, error_kind_of, flow_control_of, parity_of, parse_data_bits, parse_flow_control,
    parse_parity, parse_serialport_error_kind, parse_stop_bits, stop_bits_of, DataBits,
    DriverError, DriverErrorView, FlowControl, Parity, StopBits,
};
use crate::text::opt_text;

verus! {

/// Baud rate where none is asked for.
pub const DEFAULT_BAUD_RATE: u32 = 115200;

/// Read timeout where none is asked for, in milliseconds.
pub const DEFAULT_TIMEOUT: u64 = 500;

/// The settings a port is opened with.
#[derive(Debug, Clone, Copy, PartialEq, Eq, Structural)]
pub struct PortSettings {
    pub baud_rate: u32,
    pub data_bits: DataBits,
    pub flow_control: FlowControl,
    pub parity: Parity,
    pub stop_bits: StopBits,
    /// Read timeout in milliseconds.
    pub timeout: u64,
}

/// The settings for the given wishes, with the default wherever there is
/// none or none that is understood.
pub open spec fn settings_of(
    baud_rate: Option<u32>,
    data_bits: Option<usize>,
    flow_control: Option<Seq<char>>,
    parity: Option<Seq<char>>,
    stop_bits: Option<usize>,
    timeout: Option<u64>,
) -> PortSettings {
    PortSettings {
        baud_rate: match baud_rate {
            Some(rate) => rate,
            None => DEFAULT_BAUD_RATE,
        },
        data_bits: data_bits_of(data_bits),
        flow_control: flow_control_of(flow_control),
        parity: parity_of(parity),
        stop_bits: stop_bits_of(stop_bits),
        timeout: match timeout {
            Some(ms) => ms,
            None => DEFAULT_TIMEOUT,
        },
    }
}

/// Looks up the port that goes by `port_name`.
pub fn get_port_from_status<'a, P, S>(
    ports_status: &'a SerialPortsState<P, S>,
    port_name: &str,
) -> (found: Result<&'a SerialPortState<P, S>, Error>)
    ensures
        match found {
            Ok(state) => has_port(ports_status@, port_name@) && *state == port_of(
                ports_status@,
                port_name@,
            ),
            Err(e) => !has_port(ports_status@, port_name@) && e@ == no_device(port_name@),
        },
{
    match ports_status.find(port_name) {
        Some(i) => Ok(ports_status.entry(i)),
        None => Err(Error::no_device(port_name)),
    }
}

/// Whether a port may be opened under `name`, and with which settings.
pub open spec fn connect_decision<P, S>(
    ports: Seq<(Seq<char>, SerialPortState<P, S>)>,
    name: Seq<char>,
    settings: PortSettings,
) -> Result<PortSettings, ErrorView> {
    if has_port(ports, name) {
        Err(already_open(name))
    } else {
        Ok(settings)
    }
}

/// First part of a connect: refuses a name that is taken, and otherwise
/// tells with which settings the device is to be opened.
pub fn connect_port<P, S>(
    ports_status: &SerialPortsState<P, S>,
    port_name: &str,
    baud_rate: Option<u32>,
    data_bits: Option<usize>,
    flow_control: Option<String>,
    parity: Option<String>,
    stop_bits: Option<usize>,
    timeout: Option<u64>,
) -> (decision: Result<PortSettings, Error>)
    ensures
        outcome(decision) == connect_decision(
            ports_status@,
            port_name@,
            settings_of(
                baud_rate,
                data_bits,
                opt_text(flow_control),
                opt_text(parity),
                stop_bits,
                timeout,
            ),
        ),
{
    match ports_status.find(port_name) {
        Some(_) => Err(Error::already_open(port_name)),
        None => Ok(
            PortSettings {
                baud_rate: match baud_rate {
                    Some(rate) => rate,
                    None => DEFAULT_BAUD_RATE,
                },
                data_bits: parse_data_bits(data_bits),
                flow_control: parse_flow_control(flow_control),
                parity: parse_parity(parity),
                stop_bits: parse_stop_bits(stop_bits),
                timeout: match timeout {
                    Some(ms) => ms,
                    None => DEFAULT_TIMEOUT,
                },
            },
        ),
    }
}

/// The content of what an attempt to open a device gave.
pub open spec fn opened_view<P>(opened: Result<P, DriverError>) -> Result<P, DriverErrorView> {
    match opened {
        Ok(port) => Ok(port),
        Err(fault) => Err(fault@),
    }
}

/// What the driver's refusal to open a device is reported as.
pub open spec fn driver_error(fault: DriverErrorView) -> ErrorView {
    ErrorView { kind: error_kind_of(fault.kind), description: Some(fault.description) }
}

/// The registry after an attempt to open a device under `name`, and what
/// the connect reports: a name that is taken is refused, a driver error is
/// passed on, and an opened port is entered without a reader.
pub open spec fn registered<P, S>(
    ports: Seq<(Seq<char>, SerialPortState<P, S>)>,
    name: Seq<char>,
    opened: Result<P, DriverErrorView>,
) -> (Seq<(Seq<char>, SerialPortState<P, S>)>, Result<(), ErrorView>) {
    if has_port(ports, name) {
        (ports, Err(already_open(name)))
    } else {
        match opened {
            Ok(port) => (ports.push((name, SerialPortState { port, sender: None })), Ok(())),
            Err(fault) => (ports, Err(driver_error(fault))),
        }
    }
}

/// Second part of a connect: takes in what opening the device gave.
pub fn register_port<P, S>(
    ports_status: &mut SerialPortsState<P, S>,
    port_name: String,
    opened: Result<P, DriverError>,
) -> (result: Result<(), Error>)
    ensures
        (final(ports_status)@, outcome(result)) == registered(
            old(ports_status)@,
            port_name@,
            opened_view(opened),
        ),
        distinct_names(final(ports_status)@),
{
    match ports_status.find(port_name.as_str()) {
        Some(_) => Err(Error::already_open(port_name.as_str())),
        None => match opened {
            Ok(port) => {
                ports_status.insert(port_name, SerialPortState { port, sender: None });
                Ok(())
            },
            Err(fault) => Err(
                Error {
                    kind: parse_serialport_error_kind(fault.kind),
                    description: Some(fault.description),
                },
            ),
        },
    }
}

/// Whether a reader task is to be started for `name`: not for a port that
/// is not registered, and not for one that has a reader already.
pub open spec fn read_decision<P, S>(
    ports: Seq<(Seq<char>, SerialPortState<P, S>)>,
    name: Seq<char>,
    interval: Option<u64>,
    size: Option<usize>,
) -> Result<Option<ReaderView>, ErrorView> {
    if !has_port(ports, name) {
        Err(no_device(name))
    } else if port_of(ports, name).sender is Some {
        Ok(None)
    } else {
        Ok(Some(initial(name, interval, size)))
    }
}

/// The content of what a start decided.
pub open spec fn start_view(decision: Result<Option<ReaderTask>, Error>) -> Result<
    Option<ReaderView>,
    ErrorView,
> {
    match decision {
        Ok(Some(task)) => Ok(Some(task@)),
        Ok(None) => Ok(None),
        Err(e) => Err(e@),
    }
}

/// First part of a start: tells whether a reader task is to be started for
/// the port, and hands out its initial state if so.
pub fn start_read_port<P, S>(
    ports_status: &SerialPortsState<P, S>,
    port_name: &str,
    interval: Option<u64>,
    size: Option<usize>,
) -> (decision: Result<Option<ReaderTask>, Error>)
    ensures
        start_view(decision) == read_decision(ports_status@, port_name@, interval, size),
{
    match get_port_from_status(ports_status, port_name) {
        Ok(state) => {
            if state.sender.is_some() {
                Ok(None)
            } else {
                Ok(Some(ReaderTask::new(String::from_str(port_name), interval, size)))
            }
        },
        Err(e) => Err(e),
    }
}

/// The registry after a reader task was started for `name` with the
/// cancellation channel `sender`, and whether the channel was recorded: it
/// is not where the port has a reader already.
pub open spec fn attached<P, S>(
    ports: Seq<(Seq<char>, SerialPortState<P, S>)>,
    name: Seq<char>,
    sender: S,
) -> (Seq<(Seq<char>, SerialPortState<P, S>)>, Result<bool, ErrorView>) {
    if !has_port(ports, name) {
        (ports, Err(no_device(name)))
    } else if port_of(ports, name).sender is Some {
        (ports, Ok(false))
    } else {
        (
            ports.update(
                port_index(ports, name),
                (name, SerialPortState { port: port_of(ports, name).port, sender: Some(sender) }),
            ),
            Ok(true),
        )
    }
}

/// Second part of a start: records the cancellation channel of the reader
/// task that is about to run.
pub fn attach_reader<P, S>(
    ports_status: &mut SerialPortsState<P, S>,
    port_name: &str,
    sender: S,
) -> (result: Result<bool, Error>)
    ensures
        (final(ports_status)@, outcome(result)) == attached(
            old(ports_status)@,
            port_name@,
            sender,
        ),
        distinct_names(final(ports_status)@),
{
    match ports_status.find(port_name) {
        Some(i) => {
            if ports_status.entry(i).sender.is_some() {
                Ok(false)
            } else {
                ports_status.set_sender(i, sender);
                Ok(true)
            }
        },
        None => Err(Error::no_device(port_name)),
    }
}

/// The registry after a close of `name`, and the entry taken out.
pub open spec fn closed<P, S>(
    ports: Seq<(Seq<char>, SerialPortState<P, S>)>,
    name: Seq<char>,
) -> (Seq<(Seq<char>, SerialPortState<P, S>)>, Result<SerialPortState<P, S>, ErrorView>) {
    if !has_port(ports, name) {
        (ports, Err(no_device(name)))
    } else {
        (ports.remove(port_index(ports, name)), Ok(port_of(ports, name)))
    }
}

/// Takes the port out of the registry and hands its entry to the caller,
/// who signals the reader, if the entry has one, and lets go of the port.
pub fn close_port<P, S>(ports_status: &mut SerialPortsState<P, S>, port_name: &str) -> (result:
    Result<SerialPortState<P, S>, Error>)
    ensures
        (final(ports_status)@, outcome(result)) == closed(old(ports_status)@, port_name@),
        distinct_names(final(ports_status)@),
        !has_port(final(ports_status)@, port_name@),
{
    match ports_status.find(port_name) {
        Some(i) => {
            let state = ports_status.remove(i);
            proof {
                lemma_removed_is_absent(old(ports_status)@, port_name@);
            }
            Ok(state)
        },
        None => Err(Error::no_device(port_name)),
    }
}

/// Once the entry of a name is taken out, no entry goes by that name.
pub proof fn lemma_removed_is_absent<P, S>(
    ports: Seq<(Seq<char>, SerialPortState<P, S>)>,
    name: Seq<char>,
)
    requires
        distinct_names(ports),
        has_port(ports, name),
    ensures
        !has_port(ports.remove(port_index(ports, name)), name),
{
    let at = port_index(ports, name);
    let rest = ports.remove(at);
    assert forall|j: int| 0 <= j < rest.len() implies (#[trigger] rest[j]).0 != name by {
        let from = if j < at {
            j
        } else {
            j + 1
        };
        assert(rest[j] == ports[from]);
    }
}

/// The cancellation channels of the ports that have a reader, oldest port
/// first.
pub open spec fn senders<P, S>(ports: Seq<(Seq<char>, SerialPortState<P, S>)>) -> Seq<S> {
    ports.filter_map(|e: (Seq<char>, SerialPortState<P, S>)| e.1.sender)
}

/// The values behind a list of references.
pub open spec fn referred<S>(list: Seq<&S>) -> Seq<S> {
    list.map_values(|s: &S| *s)
}

/// Hands out the cancellation channel of every port that has a reader, for
/// the caller to signal. No entry is taken out or changed.
pub fn close_all_port<'a, P, S>(ports_status: &'a SerialPortsState<P, S>) -> (signals: Vec<&'a S>)
    ensures
        referred(signals@) == senders(ports_status@),
{
    let mut signals: Vec<&'a S> = Vec::new();
    let n: usize = ports_status.len();
    let mut i: usize = 0;
    while i < n
        invariant
            i <= n,
            n == ports_status@.len(),
            referred(signals@) == senders(ports_status@.take(i as int)),
        decreases n - i,
    {
        proof {
            ports_status@.lemma_filter_map_take_succ(
                |e: (Seq<char>, SerialPortState<P, S>)| e.1.sender,
                i as int,
            );
        }
        let ghost before = signals@;
        match &ports_status.entry(i).sender {
            Some(sender) => {
                signals.push(sender);
                assert(referred(signals@) =~= referred(before) + seq![*sender]);
            },
            None => {},
        }
        i += 1;
    }
    assert(ports_status@.take(n as int) =~= ports_status@);
    signals
}

/// Whose cancellation channel a cancel of `name` is to signal, if any.
pub open spec fn cancel_decision<P, S>(
    ports: Seq<(Seq<char>, SerialPortState<P, S>)>,
    name: Seq<char>,
) -> Result<Option<S>, ErrorView> {
    if !has_port(ports, name) {
        Err(no_device(name))
    } else {
        Ok(port_of(ports, name).sender)
    }
}

/// The content of what a cancel decided.
pub open spec fn cancel_view<S>(decision: Result<Option<&S>, Error>) -> Result<
    Option<S>,
    ErrorView,
> {
    match decision {
        Ok(Some(sender)) => Ok(Some(*sender)),
        Ok(None) => Ok(None),
        Err(e) => Err(e@),
    }
}

/// Hands out the cancellation channel of the port's reader, if it has one,
/// for the caller to signal. The entry stays as it is.
pub fn cancel_read_port<'a, P, S>(ports_status: &'a SerialPortsState<P, S>, port_name: &str) -> (
    decision: Result<Option<&'a S>, Error>)
    ensures
        cancel_view(decision) == cancel_decision(ports_status@, port_name@),
{
    match get_port_from_status(ports_status, port_name) {
        Ok(state) => Ok(state.sender.as_ref()),
        Err(e) => Err(e),
    }
}

/// The operations that signal a reader.
#[derive(Debug, Clone, Copy, PartialEq, Eq, Structural)]
pub enum Signalling {
    ClosePort,
    CloseAllPort,
    CancelReadPort,
}

/// What an operation reports once the signal it sent was delivered or not:
/// a close succeeds either way, the others fail with `Unknown`, and only
/// `close_all_port` says why.
pub open spec fn signal_verdict(operation: Signalling, delivered: Result<(), Seq<char>>) -> Result<
    (),
    ErrorView,
> {
    match delivered {
        Ok(()) => Ok(()),
        Err(reason) => match operation {
            Signalling::ClosePort => Ok(()),
            Signalling::CloseAllPort => Err(
                ErrorView { kind: ErrorKind::Unknown, description: Some(reason) },
            ),
            Signalling::CancelReadPort => Err(
                ErrorView { kind: ErrorKind::Unknown, description: None },
            ),
        },
    }
}

/// The content of a report on the delivery of a signal.
pub open spec fn delivery_view(delivered: Result<(), String>) -> Result<(), Seq<char>> {
    match delivered {
        Ok(()) => Ok(()),
        Err(reason) => Err(reason@),
    }
}

/// Takes in whether a cancellation signal was delivered, with the reason
/// where it was not.
pub fn signal_outcome(operation: Signalling, delivered: Result<(), String>) -> (result: Result<
    (),
    Error,
>)
    ensures
        outcome(result) == signal_verdict(operation, delivery_view(delivered)),
{
    match delivered {
        Ok(()) => Ok(()),
        Err(reason) => match operation {
            Signalling::ClosePort => Ok(()),
            Signalling::CloseAllPort => Err(Error::unknown(Some(reason))),
            Signalling::CancelReadPort => Err(Error::unknown(None)),
        },
    }
}

/// Where names are distinct, the entry at a place is the one that goes by
/// its name.
pub proof fn lemma_port_at<P, S>(ports: Seq<(Seq<char>, SerialPortState<P, S>)>, i: int)
    requires
        distinct_names(ports),
        0 <= i < ports.len(),
    ensures
        has_port(ports, ports[i].0),
        port_index(ports, ports[i].0) == i,
        port_of(ports, ports[i].0) == ports[i].1,
{
}

/// No operation makes two entries go by one name.
pub proof fn lemma_names_stay_distinct<P, S>(
    ports: Seq<(Seq<char>, SerialPortState<P, S>)>,
    name: Seq<char>,
    opened: Result<P, DriverErrorView>,
    sender: S,
)
    requires
        distinct_names(ports),
    ensures
        distinct_names(registered(ports, name, opened).0),
        distinct_names(attached(ports, name, sender).0),
        distinct_names(closed(ports, name).0),
{
    if !has_port(ports, name) && opened is Ok {
        let added = registered(ports, name, opened).0;
        assert forall|i: int, j: int|
            0 <= i < added.len() && 0 <= j < added.len() && i != j implies (#[trigger] added[i]).0
            != (#[trigger] added[j]).0 by {
            if i < ports.len() {
                assert(added[i] == ports[i]);
            }
            if j < ports.len() {
                assert(added[j] == ports[j]);
            }
        }
    }
    if has_port(ports, name) {
        let at = port_index(ports, name);
        let marked = attached(ports, name, sender).0;
        assert forall|i: int, j: int|
            0 <= i < marked.len() && 0 <= j < marked.len() && i != j implies (
        #[trigger] marked[i]).0 != (#[trigger] marked[j]).0 by {
            assert(marked[i].0 == ports[i].0 && marked[j].0 == ports[j].0);
        }
        let left = ports.remove(at);
        assert forall|i: int, j: int|
            0 <= i < left.len() && 0 <= j < left.len() && i != j implies (#[trigger] left[i]).0 != (
        #[trigger] left[j]).0 by {
            let from = |k: int|
                if k < at {
                    k
                } else {
                    k + 1
                };
            assert(left[i] == ports[from(i)] && left[j] == ports[from(j)]);
        }
    }
}

/// An operation on one port leaves every port of another name as it was:
/// registered or not, with the same handle, with or without the same reader.
pub proof fn lemma_other_ports_untouched<P, S>(
    ports: Seq<(Seq<char>, SerialPortState<P, S>)>,
    name: Seq<char>,
    other: Seq<char>,
    opened: Result<P, DriverErrorView>,
    sender: S,
)
    requires
        distinct_names(ports),
        other != name,
    ensures
        has_port(registered(ports, name, opened).0, other) == has_port(ports, other),
        has_port(attached(ports, name, sender).0, other) == has_port(ports, other),
        has_port(closed(ports, name).0, other) == has_port(ports, other),
        has_port(ports, other) ==> {
            &&& port_of(registered(ports, name, opened).0, other) == port_of(ports, other)
            &&& port_of(attached(ports, name, sender).0, other) == port_of(ports, other)
            &&& port_of(closed(ports, name).0, other) == port_of(ports, other)
        },
{
    lemma_names_stay_distinct(ports, name, opened, sender);
    let added = registered(ports, name, opened).0;
    let marked = attached(ports, name, sender).0;
    let left = closed(ports, name).0;
    if has_port(ports, other) {
        let at = port_index(ports, other);
        assert(added[at] == ports[at]);
        lemma_port_at(added, at);
        assert(marked[at] == ports[at]);
        lemma_port_at(marked, at);
        if has_port(ports, name) {
            let to = if at < port_index(ports, name) {
                at
            } else {
                at - 1
            };
            assert(left[to] == ports[at]);
            lemma_port_at(left, to);
        }
    } else {
        if has_port(added, other) {
            let at = port_index(added, other);
            assert(at < ports.len() ==> ports[at] == added[at]);
        }
        if has_port(marked, other) {
            let at = port_index(marked, other);
            assert(ports[at].0 == marked[at].0);
        }
        if has_port(left, other) {
            let at = port_index(left, other);
            let from = if at < port_index(ports, name) {
                at
            } else {
                at + 1
            };
            assert(ports[from] == left[at]);
        }
    }
}

/// The reader recorded for a port stays recorded: only a close, which
/// takes the whole entry out, ends the record, and no operation puts
/// another reader in its place.
pub proof fn lemma_reader_stays_recorded<P, S>(
    ports: Seq<(Seq<char>, SerialPortState<P, S>)>,
    name: Seq<char>,
    opened: Result<P, DriverErrorView>,
    sender: S,
)
    requires
        distinct_names(ports),
        has_port(ports, name),
        port_of(ports, name).sender is Some,
    ensures
        registered(ports, name, opened).0 == ports,
        attached(ports, name, sender).0 == ports,
        !has_port(closed(ports, name).0, name),
{
    lemma_removed_is_absent(ports, name);
}

/// A connect on a name that is taken is refused with `AlreadyOpen` at
/// either part, whatever the device answered, and leaves every entry as it
/// was.
pub proof fn lemma_connect_on_open_port_refused<P, S>(
    ports: Seq<(Seq<char>, SerialPortState<P, S>)>,
    name: Seq<char>,
    settings: PortSettings,
    opened: Result<P, DriverErrorView>,
)
    requires
        has_port(ports, name),
    ensures
        connect_decision(ports, name, settings) == Err::<PortSettings, ErrorView>(
            already_open(name),
        ),
        registered(ports, name, opened) == (ports, Err::<(), ErrorView>(already_open(name))),
{
}

/// Of two connects in a row on one name, with no close in between, the
/// first enters the port and the second is refused with `AlreadyOpen`; the
/// entry of the first is still there, unchanged, and nothing else changed.
pub proof fn lemma_connect_twice<P, S>(
    ports: Seq<(Seq<char>, SerialPortState<P, S>)>,
    name: Seq<char>,
    settings: PortSettings,
    first: P,
    second: Result<P, DriverErrorView>,
)
    requires
        !has_port(ports, name),
    ensures
        connect_decision(ports, name, settings) == Ok::<PortSettings, ErrorView>(settings),
        registered(ports, name, Ok(first)).1 == Ok::<(), ErrorView>(()),
        has_port(registered(ports, name, Ok(first)).0, name),
        port_of(registered(ports, name, Ok(first)).0, name) == (SerialPortState::<P, S> {
            port: first,
            sender: None,
        }),
        connect_decision(registered(ports, name, Ok(first)).0, name, settings) == Err::<
            PortSettings,
            ErrorView,
        >(already_open(name)),
        registered(registered(ports, name, Ok(first)).0, name, second) == (
            registered(ports, name, Ok(first)).0,
            Err::<(), ErrorView>(already_open(name)),
        ),
{
    let once = ports.push((name, SerialPortState::<P, S> { port: first, sender: None }));
    assert(once[ports.len() as int].0 == name);
    let at = port_index(once, name);
    assert(at < ports.len() ==> ports[at].0 == name);
}

/// A close of a name that is not registered fails with `NoDevice` and
/// leaves every entry as it was.
pub proof fn lemma_close_of_absent_port<P, S>(
    ports: Seq<(Seq<char>, SerialPortState<P, S>)>,
    name: Seq<char>,
)
    requires
        !has_port(ports, name),
    ensures
        closed(ports, name) == (ports, Err::<SerialPortState<P, S>, ErrorView>(no_device(name))),
{
}

/// Of two starts in a row on one open port, at most the first starts a
/// reader task: once a cancellation channel is recorded for the port, a
/// start decides for no task, and an attempt to record another channel
/// changes nothing.
pub proof fn lemma_start_twice<P, S>(
    ports: Seq<(Seq<char>, SerialPortState<P, S>)>,
    name: Seq<char>,
    interval: Option<u64>,
    size: Option<usize>,
    first: S,
    second: S,
)
    requires
        distinct_names(ports),
        has_port(ports, name),
    ensures
        attached(ports, name, first).1 is Ok,
        has_port(attached(ports, name, first).0, name),
        port_of(attached(ports, name, first).0, name).sender is Some,
        read_decision(attached(ports, name, first).0, name, interval, size) == Ok::<
            Option<ReaderView>,
            ErrorView,
        >(None),
        attached(attached(ports, name, first).0, name, second) == (
            attached(ports, name, first).0,
            Ok::<bool, ErrorView>(false),
        ),
{
    let at = port_index(ports, name);
    let once = attached(ports, name, first).0;
    assert(once[at].0 == name);
    let again = port_index(once, name);
    assert(once[again].0 == ports[again].0);
}

/// `senders` holds the channel of every port that has a reader, and
/// nothing else: a port without a reader contributes nothing.
pub proof fn lemma_senders_are_of_streaming_ports<P, S>(
    ports: Seq<(Seq<char>, SerialPortState<P, S>)>,
    sender: S,
)
    ensures
        senders(ports).contains(sender) <==> exists|i: int|
            0 <= i < ports.len() && (#[trigger] ports[i]).1.sender == Some(sender),
    decreases ports.len(),
{
    if ports.len() > 0 {
        let front = ports.drop_last();
        lemma_senders_are_of_streaming_ports(front, sender);
        if senders(ports).contains(sender) {
            let k = choose|k: int| 0 <= k < senders(ports).len() && senders(ports)[k] == sender;
            if k < senders(front).len() {
                assert(senders(front)[k] == sender);
                let i = choose|i: int|
                    0 <= i < front.len() && (#[trigger] front[i]).1.sender == Some(sender);
                assert(ports[i] == front[i]);
            } else {
                assert(ports[ports.len() - 1].1.sender == Some(sender));
            }
        }
        if exists|i: int| 0 <= i < ports.len() && (#[trigger] ports[i]).1.sender == Some(sender) {
            let i = choose|i: int|
                0 <= i < ports.len() && (#[trigger] ports[i]).1.sender == Some(sender);
            if i < front.len() {
                assert(front[i] == ports[i]);
                let k = choose|k: int| 0 <= k < senders(front).len() && senders(front)[k] == sender;
                assert(senders(ports)[k] == sender);
            } else {
                assert(senders(ports)[senders(front).len() as int] == sender);
            }
        }
    }
}

/// `senders` has one channel for each port that has a reader.
pub proof fn lemma_senders_count<P, S>(ports: Seq<(Seq<char>, SerialPortState<P, S>)>)
    ensures
        senders(ports).len() == ports.filter(
            |e: (Seq<char>, SerialPortState<P, S>)| e.1.sender is Some,
        ).len(),
    decreases ports.len(),
{
    reveal(Seq::filter);
    if ports.len() > 0 {
        lemma_senders_count(ports.drop_last());
    }
}

} // verus!
