use serialport_plugin::errors::{ErrorKind, IOErrorKind};
use serialport_plugin::types::{
    parse_data_bits, parse_flow_control, parse_parity, parse_serialport_error_kind,
    parse_stop_bits, DataBits, DriverErrorKind, FlowControl, IoFailure, Parity, StopBits,
};

#[test]
fn data_bits_five_to_eight_are_taken_as_given() {
    assert_eq!(parse_data_bits(Some(5)), DataBits::Five);
    assert_eq!(parse_data_bits(Some(6)), DataBits::Six);
    assert_eq!(parse_data_bits(Some(7)), DataBits::Seven);
    assert_eq!(parse_data_bits(Some(8)), DataBits::Eight);
}

#[test]
fn data_bits_default_to_eight() {
    assert_eq!(parse_data_bits(None), DataBits::Eight);
    assert_eq!(parse_data_bits(Some(0)), DataBits::Eight);
    assert_eq!(parse_data_bits(Some(4)), DataBits::Eight);
    assert_eq!(parse_data_bits(Some(9)), DataBits::Eight);
    assert_eq!(parse_data_bits(Some(usize::MAX)), DataBits::Eight);
}

#[test]
fn flow_control_is_read_from_its_word() {
    assert_eq!(parse_flow_control(Some("none".to_string())), FlowControl::Disabled);
    assert_eq!(parse_flow_control(Some("software".to_string())), FlowControl::Software);
    assert_eq!(parse_flow_control(Some("hardware".to_string())), FlowControl::Hardware);
}

#[test]
fn flow_control_defaults_to_none() {
    assert_eq!(parse_flow_control(None), FlowControl::Disabled);
    assert_eq!(parse_flow_control(Some(String::new())), FlowControl::Disabled);
    assert_eq!(parse_flow_control(Some("Software".to_string())), FlowControl::Disabled);
    assert_eq!(parse_flow_control(Some("hardware ".to_string())), FlowControl::Disabled);
    assert_eq!(parse_flow_control(Some("xon".to_string())), FlowControl::Disabled);
}

#[test]
fn parity_is_read_from_its_word() {
    assert_eq!(parse_parity(Some("none".to_string())), Parity::Disabled);
    assert_eq!(parse_parity(Some("odd".to_string())), Parity::Odd);
    assert_eq!(parse_parity(Some("even".to_string())), Parity::Even);
}

#[test]
fn parity_defaults_to_none() {
    assert_eq!(parse_parity(None), Parity::Disabled);
    assert_eq!(parse_parity(Some("ODD".to_string())), Parity::Disabled);
    assert_eq!(parse_parity(Some("eve".to_string())), Parity::Disabled);
    assert_eq!(parse_parity(Some("mark".to_string())), Parity::Disabled);
}

#[test]
fn stop_bits_are_one_unless_two() {
    assert_eq!(parse_stop_bits(Some(1)), StopBits::One);
    assert_eq!(parse_stop_bits(Some(2)), StopBits::Two);
    assert_eq!(parse_stop_bits(None), StopBits::One);
    assert_eq!(parse_stop_bits(Some(0)), StopBits::One);
    assert_eq!(parse_stop_bits(Some(3)), StopBits::One);
}

#[test]
fn driver_error_kinds_keep_their_meaning() {
    assert_eq!(parse_serialport_error_kind(DriverErrorKind::NoDevice), ErrorKind::NoDevice);
    assert_eq!(
        parse_serialport_error_kind(DriverErrorKind::InvalidInput),
        ErrorKind::InvalidInput
    );
    assert_eq!(parse_serialport_error_kind(DriverErrorKind::Unknown), ErrorKind::Unknown);
}

#[test]
fn driver_io_failures_become_io_errors() {
    let io = |failure| parse_serialport_error_kind(DriverErrorKind::Io(failure));
    assert_eq!(io(IoFailure::NotFound), ErrorKind::IOError(IOErrorKind::NotFound));
    assert_eq!(
        io(IoFailure::PermissionDenied),
        ErrorKind::IOError(IOErrorKind::PermissionDenied)
    );
    assert_eq!(
        io(IoFailure::ConnectionRefused),
        ErrorKind::IOError(IOErrorKind::ConnectionRefused)
    );
    assert_eq!(
        io(IoFailure::ConnectionReset),
        ErrorKind::IOError(IOErrorKind::ConnectionReset)
    );
    assert_eq!(io(IoFailure::TimedOut), ErrorKind::IOError(IOErrorKind::Unknown));
    assert_eq!(io(IoFailure::Other), ErrorKind::IOError(IOErrorKind::Unknown));
}
