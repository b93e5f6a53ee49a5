//! Plain values exchanged with the driver and the event sink, and the
//! decoding of optional settings into them.

use vstd::prelude::*;
use crate::errors::{ErrorKind, IOErrorKind};
use crate::text::{opt_text, same_text};

verus! {

/// Number of data bits per character.
#[derive(Debug, Clone, Copy, PartialEq, Eq, Structural)]
pub enum DataBits {
    Five,
    Six,
    Seven,
    Eight,
}

/// Flow control mode.
#[derive(Debug, Clone, Copy, PartialEq, Eq, Structural)]
pub enum FlowControl {
    Disabled,
    Software,
    Hardware,
}

/// Parity checking mode.
#[derive(Debug, Clone, Copy, PartialEq, Eq, Structural)]
pub enum Parity {
    Disabled,
    Odd,
    Even,
}

/// Number of stop bits.
#[derive(Debug, Clone, Copy, PartialEq, Eq, Structural)]
pub enum StopBits {
    One,
    Two,
}

/// Data bits for an optional count: 5 to 8 as given, eight otherwise.
pub open spec fn data_bits_of(value: Option<usize>) -> DataBits {
    match value {
        Some(5) => DataBits::Five,
        Some(6) => DataBits::Six,
        Some(7) => DataBits::Seven,
        _ => DataBits::Eight,
    }
}

/// Reads the number of data bits asked for.
pub fn parse_data_bits(value: Option<usize>) -> (bits: DataBits)
    ensures
        bits == data_bits_of(value),
{
    match value {
        Some(5) => DataBits::Five,
        Some(6) => DataBits::Six,
        Some(7) => DataBits::Seven,
        Some(8) => DataBits::Eight,
        _ => DataBits::Eight,
    }
}

/// Flow control for an optional word: `software` and `hardware` as named,
/// none otherwise.
pub open spec fn flow_control_of(value: Option<Seq<char>>) -> FlowControl {
    match value {
        Some(word) => if word == "software"@ {
            FlowControl::Software
        } else if word == "hardware"@ {
            FlowControl::Hardware
        } else {
            FlowControl::Disabled
        },
        None => FlowControl::Disabled,
    }
}

/// Reads the flow control asked for.
pub fn parse_flow_control(value: Option<String>) -> (flow: FlowControl)
    ensures
        flow == flow_control_of(opt_text(value)),
{
    match value {
        Some(word) => {
            if same_text(word.as_str(), "software") {
                FlowControl::Software
            } else if same_text(word.as_str(), "hardware") {
                FlowControl::Hardware
            } else {
                FlowControl::Disabled
            }
        },
        None => FlowControl::Disabled,
    }
}

/// Parity for an optional word: `odd` and `even` as named, none otherwise.
pub open spec fn parity_of(value: Option<Seq<char>>) -> Parity {
    match value {
        Some(word) => if word == "odd"@ {
            Parity::Odd
        } else if word == "even"@ {
            Parity::Even
        } else {
            Parity::Disabled
        },
        None => Parity::Disabled,
    }
}

/// Reads the parity asked for.
pub fn parse_parity(value: Option<String>) -> (parity: Parity)
    ensures
        parity == parity_of(opt_text(value)),
{
    match value {
        Some(word) => {
            if same_text(word.as_str(), "odd") {
                Parity::Odd
            } else if same_text(word.as_str(), "even") {
                Parity::Even
            } else {
                Parity::Disabled
            }
        },
        None => Parity::Disabled,
    }
}

/// Stop bits for an optional count: two where 2 is given, one otherwise.
pub open spec fn stop_bits_of(value: Option<usize>) -> StopBits {
    match value {
        Some(2) => StopBits::Two,
        _ => StopBits::One,
    }
}

/// Reads the number of stop bits asked for.
pub fn parse_stop_bits(value: Option<usize>) -> (bits: StopBits)
    ensures
        bits == stop_bits_of(value),
{
    match value {
        Some(1) => StopBits::One,
        Some(2) => StopBits::Two,
        _ => StopBits::One,
    }
}

/// Kind of an I/O failure, as far as this crate tells such failures apart.
#[derive(Debug, Clone, Copy, PartialEq, Eq, Structural)]
pub enum IoFailure {
    NotFound,
    PermissionDenied,
    ConnectionRefused,
    ConnectionReset,
    TimedOut,
    /// Any kind not named above.
    Other,
}

/// Coarse kind of an error reported by the serial driver.
#[derive(Debug, Clone, Copy, PartialEq, Eq, Structural)]
pub enum DriverErrorKind {
    NoDevice,
    InvalidInput,
    Unknown,
    Io(IoFailure),
}

/// An error reported by the serial driver.
#[derive(Debug, Clone, PartialEq, Eq)]
pub struct DriverError {
    pub kind: DriverErrorKind,
    pub description: String,
}

/// Mathematical content of a [`DriverError`].
pub struct DriverErrorView {
    pub kind: DriverErrorKind,
    pub description: Seq<char>,
}

impl View for DriverError {
    type V = DriverErrorView;

    open spec fn view(&self) -> DriverErrorView {
        DriverErrorView { kind: self.kind, description: self.description@ }
    }
}

/// The error kind reported for a driver error kind.
pub open spec fn error_kind_of(value: DriverErrorKind) -> ErrorKind {
    match value {
        DriverErrorKind::Io(failure) => ErrorKind::IOError(
            match failure {
                IoFailure::NotFound => IOErrorKind::NotFound,
                IoFailure::PermissionDenied => IOErrorKind::PermissionDenied,
                IoFailure::ConnectionRefused => IOErrorKind::ConnectionRefused,
                IoFailure::ConnectionReset => IOErrorKind::ConnectionReset,
                _ => IOErrorKind::Unknown,
            },
        ),
        DriverErrorKind::NoDevice => ErrorKind::NoDevice,
        DriverErrorKind::InvalidInput => ErrorKind::InvalidInput,
        DriverErrorKind::Unknown => ErrorKind::Unknown,
    }
}

/// Turns the kind of a driver error into the kind that is reported.
pub fn parse_serialport_error_kind(value: DriverErrorKind) -> (kind: ErrorKind)
    ensures
        kind == error_kind_of(value),
{
    match value {
        DriverErrorKind::Io(failure) => match failure {
            IoFailure::NotFound => ErrorKind::IOError(IOErrorKind::NotFound),
            IoFailure::PermissionDenied => ErrorKind::IOError(IOErrorKind::PermissionDenied),
            IoFailure::ConnectionRefused => ErrorKind::IOError(IOErrorKind::ConnectionRefused),
            IoFailure::ConnectionReset => ErrorKind::IOError(IOErrorKind::ConnectionReset),
            _ => ErrorKind::IOError(IOErrorKind::Unknown),
        },
        DriverErrorKind::NoDevice => ErrorKind::NoDevice,
        DriverErrorKind::InvalidInput => ErrorKind::InvalidInput,
        DriverErrorKind::Unknown => ErrorKind::Unknown,
    }
}

/// What the driver knows of a USB device behind a port.
#[derive(Debug, Clone, PartialEq, Eq)]
pub struct UsbDetails {
    pub manufacturer: Option<String>,
    pub product: Option<String>,
}

/// How a port is attached, as the driver classifies it.
#[derive(Debug, Clone, PartialEq, Eq)]
pub enum Transport {
    Usb(UsbDetails),
    Pci,
    Bluetooth,
    Unknown,
}

/// A port as the driver lists it.
#[derive(Debug, Clone, PartialEq, Eq)]
pub struct DetectedPort {
    pub port_name: String,
    pub transport: Transport,
}

/// Mathematical content of a [`Transport`].
pub enum TransportView {
    Usb { manufacturer: Option<Seq<char>>, product: Option<Seq<char>> },
    Pci,
    Bluetooth,
    Unknown,
}

/// Mathematical content of a [`DetectedPort`].
pub struct DetectedPortView {
    pub port_name: Seq<char>,
    pub transport: TransportView,
}

impl View for Transport {
    type V = TransportView;

    open spec fn view(&self) -> TransportView {
        match *self {
            Transport::Usb(usb) => TransportView::Usb {
                manufacturer: opt_text(usb.manufacturer),
                product: opt_text(usb.product),
            },
            Transport::Pci => TransportView::Pci,
            Transport::Bluetooth => TransportView::Bluetooth,
            Transport::Unknown => TransportView::Unknown,
        }
    }
}

impl View for DetectedPort {
    type V = DetectedPortView;

    open spec fn view(&self) -> DetectedPortView {
        DetectedPortView { port_name: self.port_name@, transport: self.transport@ }
    }
}

/// A port as it is presented to the user.
#[derive(Debug, Clone, PartialEq, Eq)]
pub struct PortInfo {
    pub port_name: String,
    /// Label of the transport kind.
    pub port_type: String,
    /// Name to display.
    pub show_name: String,
    pub manufacturer: Option<String>,
    pub product: Option<String>,
}

/// Mathematical content of a [`PortInfo`].
pub struct PortInfoView {
    pub port_name: Seq<char>,
    pub port_type: Seq<char>,
    pub show_name: Seq<char>,
    pub manufacturer: Option<Seq<char>>,
    pub product: Option<Seq<char>>,
}

impl View for PortInfo {
    type V = PortInfoView;

    open spec fn view(&self) -> PortInfoView {
        PortInfoView {
            port_name: self.port_name@,
            port_type: self.port_type@,
            show_name: self.show_name@,
            manufacturer: opt_text(self.manufacturer),
            product: opt_text(self.product),
        }
    }
}

/// A chunk of bytes handed to the event sink together with its length.
#[derive(Debug, Clone, PartialEq, Eq)]
pub struct ReadData {
    pub data: Vec<u8>,
    pub size: usize,
}

impl View for ReadData {
    type V = Seq<u8>;

    open spec fn view(&self) -> Seq<u8> {
        self.data@
    }
}

impl ReadData {
    /// The recorded size is the number of bytes carried.
    pub open spec fn wf(&self) -> bool {
        self.size == self.data@.len()
    }

    /// Wraps `data` with its length.
    pub fn new(data: Vec<u8>) -> (chunk: ReadData)
        ensures
            chunk.wf(),
            chunk.data == data,
    {
        let size: usize = data.len();
        ReadData { data, size }
    }
}

} // verus!
