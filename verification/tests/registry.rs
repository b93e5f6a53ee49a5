use std::sync::mpsc;

use serialport_plugin::commands::{
    attach_reader, cancel_read_port, close_all_port, close_port, connect_port,
    get_port_from_status, register_port, signal_outcome, start_read_port, PortSettings,
    Signalling,
};
use serialport_plugin::errors::{Error, ErrorKind, IOErrorKind};
use serialport_plugin::reader::{Phase, ReaderRequest};
use serialport_plugin::registry::SerialPortsState;
use serialport_plugin::types::{
    DataBits, DriverError, DriverErrorKind, FlowControl, IoFailure, Parity, StopBits,
};

/// A registry whose port handles are numbers and whose senders are words.
type Ports = SerialPortsState<u32, &'static str>;

fn open(ports: &mut Ports, name: &str, handle: u32) {
    assert_eq!(register_port(ports, name.to_string(), Ok(handle)), Ok(()));
}

fn no_device(name: &str) -> Error {
    Error { kind: ErrorKind::NoDevice, description: Some(format!("Port {name} not found")) }
}

fn already_open(name: &str) -> Error {
    Error { kind: ErrorKind::AlreadyOpen, description: Some(format!("Port {name} already open")) }
}

/// The entries of `names`, as (handle, sender), where registered.
fn snapshot(ports: &Ports, names: &[&str]) -> Vec<Option<(u32, Option<&'static str>)>> {
    names
        .iter()
        .map(|name| get_port_from_status(ports, name).ok().map(|state| (state.port, state.sender)))
        .collect()
}

#[test]
fn a_new_registry_is_empty() {
    let ports = Ports::new();
    assert_eq!(ports.len(), 0);
    assert_eq!(get_port_from_status(&ports, "COM1").err(), Some(no_device("COM1")));
    assert!(close_all_port(&ports).is_empty());
}

#[test]
fn connect_resolves_the_settings() {
    let ports = Ports::new();
    assert_eq!(
        connect_port(&ports, "COM3", None, None, None, None, None, None),
        Ok(PortSettings {
            baud_rate: 115200,
            data_bits: DataBits::Eight,
            flow_control: FlowControl::Disabled,
            parity: Parity::Disabled,
            stop_bits: StopBits::One,
            timeout: 500,
        })
    );
    assert_eq!(
        connect_port(
            &ports,
            "COM3",
            Some(9600),
            Some(7),
            Some("hardware".to_string()),
            Some("even".to_string()),
            Some(2),
            Some(1500),
        ),
        Ok(PortSettings {
            baud_rate: 9600,
            data_bits: DataBits::Seven,
            flow_control: FlowControl::Hardware,
            parity: Parity::Even,
            stop_bits: StopBits::Two,
            timeout: 1500,
        })
    );
}

#[test]
fn connecting_twice_yields_already_open() {
    let mut ports = Ports::new();
    assert!(connect_port(&ports, "COM3", None, None, None, None, None, None).is_ok());
    assert_eq!(register_port(&mut ports, "COM3".to_string(), Ok(1)), Ok(()));
    assert_eq!(
        connect_port(&ports, "COM3", None, None, None, None, None, None),
        Err(already_open("COM3"))
    );
    assert_eq!(register_port(&mut ports, "COM3".to_string(), Ok(2)), Err(already_open("COM3")));
    assert_eq!(ports.len(), 1);
    assert_eq!(snapshot(&ports, &["COM3"]), vec![Some((1, None))]);
}

#[test]
fn connecting_again_after_a_close_succeeds() {
    let mut ports = Ports::new();
    open(&mut ports, "COM3", 1);
    assert!(close_port(&mut ports, "COM3").is_ok());
    assert!(connect_port(&ports, "COM3", None, None, None, None, None, None).is_ok());
    assert_eq!(register_port(&mut ports, "COM3".to_string(), Ok(2)), Ok(()));
    assert_eq!(snapshot(&ports, &["COM3"]), vec![Some((2, None))]);
}

#[test]
fn port_names_are_case_sensitive() {
    let mut ports = Ports::new();
    open(&mut ports, "COM3", 1);
    assert!(connect_port(&ports, "com3", None, None, None, None, None, None).is_ok());
    open(&mut ports, "com3", 2);
    assert_eq!(snapshot(&ports, &["COM3", "com3", "Com3"]), vec![
        Some((1, None)),
        Some((2, None)),
        None
    ]);
}

#[test]
fn a_driver_error_is_passed_on_and_nothing_is_registered() {
    let mut ports = Ports::new();
    open(&mut ports, "COM1", 1);
    let cases = [
        (DriverErrorKind::NoDevice, ErrorKind::NoDevice),
        (DriverErrorKind::InvalidInput, ErrorKind::InvalidInput),
        (DriverErrorKind::Unknown, ErrorKind::Unknown),
        (
            DriverErrorKind::Io(IoFailure::PermissionDenied),
            ErrorKind::IOError(IOErrorKind::PermissionDenied),
        ),
        (DriverErrorKind::Io(IoFailure::NotFound), ErrorKind::IOError(IOErrorKind::NotFound)),
        (DriverErrorKind::Io(IoFailure::Other), ErrorKind::IOError(IOErrorKind::Unknown)),
    ];
    for (kind, expected) in cases {
        let fault = DriverError { kind, description: "Access is denied.".to_string() };
        assert_eq!(
            register_port(&mut ports, "COM3".to_string(), Err(fault)),
            Err(Error { kind: expected, description: Some("Access is denied.".to_string()) })
        );
        assert_eq!(ports.len(), 1);
        assert_eq!(snapshot(&ports, &["COM1", "COM3"]), vec![Some((1, None)), None]);
    }
}

#[test]
fn a_taken_name_is_refused_whatever_the_driver_said() {
    let mut ports = Ports::new();
    open(&mut ports, "COM3", 1);
    let fault = DriverError { kind: DriverErrorKind::NoDevice, description: "gone".to_string() };
    assert_eq!(
        register_port(&mut ports, "COM3".to_string(), Err(fault)),
        Err(already_open("COM3"))
    );
    assert_eq!(snapshot(&ports, &["COM3"]), vec![Some((1, None))]);
}

#[test]
fn closing_an_unknown_port_yields_no_device() {
    let mut ports = Ports::new();
    assert_eq!(close_port(&mut ports, "COM9").err(), Some(no_device("COM9")));
    open(&mut ports, "COM1", 1);
    open(&mut ports, "COM2", 2);
    assert_eq!(attach_reader(&mut ports, "COM2", "tx2"), Ok(true));
    assert_eq!(close_port(&mut ports, "COM9").err(), Some(no_device("COM9")));
    assert_eq!(ports.len(), 2);
    assert_eq!(snapshot(&ports, &["COM1", "COM2", "COM9"]), vec![
        Some((1, None)),
        Some((2, Some("tx2"))),
        None
    ]);
}

#[test]
fn closing_takes_the_entry_out_and_hands_it_over() {
    let mut ports = Ports::new();
    open(&mut ports, "COM1", 1);
    open(&mut ports, "COM2", 2);
    open(&mut ports, "COM3", 3);
    assert_eq!(attach_reader(&mut ports, "COM2", "tx2"), Ok(true));
    let closed = close_port(&mut ports, "COM2").ok().expect("COM2 is open");
    assert_eq!((closed.port, closed.sender), (2, Some("tx2")));
    assert_eq!(ports.len(), 2);
    assert_eq!(snapshot(&ports, &["COM1", "COM2", "COM3"]), vec![
        Some((1, None)),
        None,
        Some((3, None))
    ]);
    let closed = close_port(&mut ports, "COM1").ok().expect("COM1 is open");
    assert_eq!((closed.port, closed.sender), (1, None));
    assert_eq!(close_port(&mut ports, "COM1").err(), Some(no_device("COM1")));
    assert_eq!(ports.len(), 1);
}

#[test]
fn starting_an_unknown_port_yields_no_device() {
    let mut ports = Ports::new();
    open(&mut ports, "COM1", 1);
    assert_eq!(start_read_port(&ports, "COM9", None, None).err(), Some(no_device("COM9")));
    assert_eq!(attach_reader(&mut ports, "COM9", "tx"), Err(no_device("COM9")));
    assert_eq!(snapshot(&ports, &["COM1", "COM9"]), vec![Some((1, None)), None]);
}

#[test]
fn start_hands_out_a_fresh_reader_task() {
    let mut ports = Ports::new();
    open(&mut ports, "COM3", 1);
    let task = start_read_port(&ports, "COM3", None, None)
        .ok()
        .expect("COM3 is open")
        .expect("COM3 has no reader");
    assert_eq!(task.port_name(), "COM3");
    assert_eq!(task.interval(), 200);
    assert_eq!(task.size(), 1024);
    assert_eq!(task.phase(), Phase::Poll);
    assert!(task.pending().is_empty());
    let task = start_read_port(&ports, "COM3", Some(20), Some(64))
        .ok()
        .expect("COM3 is open")
        .expect("COM3 has no reader");
    assert_eq!(task.request(), ReaderRequest::PollCancel);
    assert_eq!(task.interval(), 20);
    assert_eq!(task.size(), 64);
    assert_eq!(snapshot(&ports, &["COM3"]), vec![Some((1, None))]);
}

#[test]
fn starting_twice_starts_one_reader() {
    let mut ports = Ports::new();
    open(&mut ports, "COM3", 1);
    assert!(matches!(start_read_port(&ports, "COM3", None, None), Ok(Some(_))));
    assert_eq!(attach_reader(&mut ports, "COM3", "first"), Ok(true));
    assert!(matches!(start_read_port(&ports, "COM3", None, None), Ok(None)));
    assert!(matches!(start_read_port(&ports, "COM3", Some(1), Some(1)), Ok(None)));
    assert_eq!(attach_reader(&mut ports, "COM3", "second"), Ok(false));
    assert_eq!(snapshot(&ports, &["COM3"]), vec![Some((1, Some("first")))]);
}

#[test]
fn a_reader_is_recorded_for_its_port_only() {
    let mut ports = Ports::new();
    open(&mut ports, "COM1", 1);
    open(&mut ports, "COM2", 2);
    open(&mut ports, "COM3", 3);
    assert_eq!(attach_reader(&mut ports, "COM2", "tx2"), Ok(true));
    assert_eq!(ports.len(), 3);
    assert_eq!(snapshot(&ports, &["COM1", "COM2", "COM3"]), vec![
        Some((1, None)),
        Some((2, Some("tx2"))),
        Some((3, None))
    ]);
    assert!(matches!(start_read_port(&ports, "COM1", None, None), Ok(Some(_))));
    assert!(matches!(start_read_port(&ports, "COM2", None, None), Ok(None)));
}

#[test]
fn cancel_names_the_sender_of_a_streaming_port() {
    let mut ports = Ports::new();
    open(&mut ports, "COM1", 1);
    open(&mut ports, "COM2", 2);
    assert_eq!(attach_reader(&mut ports, "COM2", "tx2"), Ok(true));
    assert_eq!(cancel_read_port(&ports, "COM2"), Ok(Some(&"tx2")));
    assert_eq!(cancel_read_port(&ports, "COM1"), Ok(None));
    assert_eq!(cancel_read_port(&ports, "COM9"), Err(no_device("COM9")));
    assert_eq!(snapshot(&ports, &["COM1", "COM2"]), vec![
        Some((1, None)),
        Some((2, Some("tx2")))
    ]);
    assert!(matches!(start_read_port(&ports, "COM2", None, None), Ok(None)));
}

#[test]
fn close_all_signals_the_streaming_ports_only() {
    let (first_tx, first_rx) = mpsc::channel::<usize>();
    let (second_tx, second_rx) = mpsc::channel::<usize>();
    let mut ports: SerialPortsState<u32, mpsc::Sender<usize>> = SerialPortsState::new();
    assert_eq!(register_port(&mut ports, "COM1".to_string(), Ok(1)), Ok(()));
    assert_eq!(register_port(&mut ports, "COM2".to_string(), Ok(2)), Ok(()));
    assert_eq!(register_port(&mut ports, "COM3".to_string(), Ok(3)), Ok(()));
    assert_eq!(attach_reader(&mut ports, "COM1", first_tx), Ok(true));
    assert_eq!(attach_reader(&mut ports, "COM3", second_tx), Ok(true));

    let signals = close_all_port(&ports);
    assert_eq!(signals.len(), 2);
    for sender in signals {
        let delivered = sender.send(0).map_err(|e| e.to_string());
        assert_eq!(signal_outcome(Signalling::CloseAllPort, delivered), Ok(()));
    }
    assert_eq!(first_rx.try_recv(), Ok(0));
    assert_eq!(first_rx.try_recv(), Err(mpsc::TryRecvError::Empty));
    assert_eq!(second_rx.try_recv(), Ok(0));
    assert_eq!(second_rx.try_recv(), Err(mpsc::TryRecvError::Empty));

    assert_eq!(ports.len(), 3);
    let idle = get_port_from_status(&ports, "COM2").ok().expect("COM2 is open");
    assert_eq!(idle.port, 2);
    assert!(idle.sender.is_none());
    assert!(get_port_from_status(&ports, "COM1").ok().expect("COM1 is open").sender.is_some());
    assert!(get_port_from_status(&ports, "COM3").ok().expect("COM3 is open").sender.is_some());
}

#[test]
fn close_all_names_the_senders_oldest_port_first() {
    let mut ports = Ports::new();
    open(&mut ports, "COM4", 4);
    open(&mut ports, "COM1", 1);
    open(&mut ports, "COM3", 3);
    open(&mut ports, "COM2", 2);
    assert_eq!(attach_reader(&mut ports, "COM2", "tx2"), Ok(true));
    assert_eq!(attach_reader(&mut ports, "COM4", "tx4"), Ok(true));
    assert_eq!(attach_reader(&mut ports, "COM3", "tx3"), Ok(true));
    assert_eq!(close_all_port(&ports), vec![&"tx4", &"tx3", &"tx2"]);
    assert!(close_port(&mut ports, "COM3").is_ok());
    assert_eq!(close_all_port(&ports), vec![&"tx4", &"tx2"]);
    assert_eq!(ports.len(), 3);
}

#[test]
fn a_signal_that_was_delivered_is_a_success() {
    for operation in [Signalling::ClosePort, Signalling::CloseAllPort, Signalling::CancelReadPort] {
        assert_eq!(signal_outcome(operation, Ok(())), Ok(()));
    }
}

#[test]
fn a_signal_that_was_not_delivered_fails_all_but_a_close() {
    let why = "sending on a closed channel".to_string();
    assert_eq!(signal_outcome(Signalling::ClosePort, Err(why.clone())), Ok(()));
    assert_eq!(
        signal_outcome(Signalling::CloseAllPort, Err(why.clone())),
        Err(Error { kind: ErrorKind::Unknown, description: Some(why.clone()) })
    );
    assert_eq!(
        signal_outcome(Signalling::CancelReadPort, Err(why)),
        Err(Error { kind: ErrorKind::Unknown, description: None })
    );
}

#[test]
fn errors_carry_their_descriptions() {
    assert_eq!(Error::no_device("COM7"), no_device("COM7"));
    assert_eq!(Error::already_open("COM7"), already_open("COM7"));
    assert_eq!(
        Error::lock_failed(),
        Error { kind: ErrorKind::Unknown, description: Some("Failed to lock ports".to_string()) }
    );
    assert_eq!(
        Error::unknown(Some("why".to_string())),
        Error { kind: ErrorKind::Unknown, description: Some("why".to_string()) }
    );
    assert_eq!(Error::unknown(None), Error { kind: ErrorKind::Unknown, description: None });
}
