use serialport_plugin::listing::{
    available_ports, port_tag, present, strip_com_suffix, transport_label,
};
use serialport_plugin::types::{
    DetectedPort, DriverError, DriverErrorKind, PortInfo, Transport, UsbDetails,
};

fn usb(port_name: &str, manufacturer: Option<&str>, product: Option<&str>) -> DetectedPort {
    DetectedPort {
        port_name: port_name.to_string(),
        transport: Transport::Usb(UsbDetails {
            manufacturer: manufacturer.map(str::to_string),
            product: product.map(str::to_string),
        }),
    }
}

fn plain(port_name: &str, transport: Transport) -> DetectedPort {
    DetectedPort { port_name: port_name.to_string(), transport }
}

#[test]
fn display_name_drops_the_com_suffix_of_the_product() {
    let infos = available_ports(Ok(vec![usb("COM3", Some("Arduino"), Some("Arduino Uno (COM3)"))]));
    assert_eq!(
        infos,
        vec![PortInfo {
            port_name: "COM3".to_string(),
            port_type: "usb".to_string(),
            show_name: "COM3 [Arduino Uno]".to_string(),
            manufacturer: Some("Arduino".to_string()),
            product: Some("Arduino Uno (COM3)".to_string()),
        }]
    );
}

#[test]
fn com_suffix_is_cut_with_the_blanks_around_it() {
    assert_eq!(strip_com_suffix("Arduino Uno (COM3)"), "Arduino Uno");
    assert_eq!(strip_com_suffix("USB Serial Device (COM12)"), "USB Serial Device");
    assert_eq!(strip_com_suffix("CP210x   (COM7)  "), "CP210x");
    assert_eq!(strip_com_suffix("CH340(COM255)"), "CH340");
    assert_eq!(strip_com_suffix("(COM1)"), "");
}

#[test]
fn com_suffix_is_found_in_any_case() {
    assert_eq!(strip_com_suffix("Arduino Uno (com3)"), "Arduino Uno");
    assert_eq!(strip_com_suffix("Arduino Uno (Com3)"), "Arduino Uno");
    assert_eq!(strip_com_suffix("Arduino Uno (cOm42)"), "Arduino Uno");
}

#[test]
fn text_without_a_com_suffix_stays_as_it_is() {
    assert_eq!(strip_com_suffix("Arduino Uno"), "Arduino Uno");
    assert_eq!(strip_com_suffix(""), "");
    assert_eq!(strip_com_suffix("FT232R (COM)"), "FT232R (COM)");
    assert_eq!(strip_com_suffix("FT232R (COMx)"), "FT232R (COMx)");
    assert_eq!(strip_com_suffix("FT232R (COM3) rev B"), "FT232R (COM3) rev B");
    assert_eq!(strip_com_suffix("FT232R COM3"), "FT232R COM3");
    assert_eq!(strip_com_suffix("FT232R [COM3]"), "FT232R [COM3]");
}

#[test]
fn only_the_last_com_suffix_is_cut() {
    assert_eq!(strip_com_suffix("Hub (COM1) (COM2)"), "Hub (COM1)");
}

#[test]
fn transport_kinds_have_their_labels() {
    assert_eq!(
        transport_label(&Transport::Usb(UsbDetails { manufacturer: None, product: None })),
        "usb"
    );
    assert_eq!(transport_label(&Transport::Pci), "pci");
    assert_eq!(transport_label(&Transport::Bluetooth), "bluetooth");
    assert_eq!(transport_label(&Transport::Unknown), "unknown");
}

#[test]
fn tag_falls_back_to_the_transport_label() {
    assert_eq!(port_tag(&usb("COM3", Some("FTDI"), None)), "usb");
    assert_eq!(port_tag(&plain("COM1", Transport::Pci)), "pci");
    assert_eq!(port_tag(&plain("COM8", Transport::Bluetooth)), "bluetooth");
    assert_eq!(port_tag(&plain("COM9", Transport::Unknown)), "unknown");
    assert_eq!(port_tag(&usb("COM3", None, Some("Pico (COM3)"))), "Pico");
}

#[test]
fn present_puts_the_tag_in_square_brackets() {
    let info = present(&plain("/dev/ttyS0", Transport::Pci), "first port");
    assert_eq!(
        info,
        PortInfo {
            port_name: "/dev/ttyS0".to_string(),
            port_type: "pci".to_string(),
            show_name: "/dev/ttyS0 [first port]".to_string(),
            manufacturer: None,
            product: None,
        }
    );
    let info = present(&usb("COM5", Some("FTDI"), Some("FT232R")), "");
    assert_eq!(info.show_name, "COM5 []");
    assert_eq!(info.manufacturer, Some("FTDI".to_string()));
    assert_eq!(info.product, Some("FT232R".to_string()));
}

#[test]
fn ports_other_than_usb_have_neither_manufacturer_nor_product() {
    let infos = available_ports(Ok(vec![
        plain("COM1", Transport::Pci),
        plain("COM2", Transport::Bluetooth),
        plain("COM3", Transport::Unknown),
    ]));
    let shown: Vec<(&str, &str, &str)> = infos
        .iter()
        .map(|i| (i.port_name.as_str(), i.port_type.as_str(), i.show_name.as_str()))
        .collect();
    assert_eq!(
        shown,
        vec![
            ("COM1", "pci", "COM1 [pci]"),
            ("COM2", "bluetooth", "COM2 [bluetooth]"),
            ("COM3", "unknown", "COM3 [unknown]"),
        ]
    );
    assert!(infos.iter().all(|i| i.manufacturer.is_none() && i.product.is_none()));
}

#[test]
fn ports_are_listed_in_lexicographic_order_of_their_names() {
    let infos = available_ports(Ok(vec![
        plain("COM3", Transport::Unknown),
        plain("COM10", Transport::Pci),
        usb("COM1", None, Some("Uno (COM1)")),
        plain("/dev/ttyUSB0", Transport::Bluetooth),
        plain("COM2", Transport::Pci),
    ]));
    let names: Vec<&str> = infos.iter().map(|i| i.port_name.as_str()).collect();
    assert_eq!(names, vec!["/dev/ttyUSB0", "COM1", "COM10", "COM2", "COM3"]);
    assert_eq!(infos[1].show_name, "COM1 [Uno]");
}

#[test]
fn ports_of_one_name_keep_their_order() {
    let infos = available_ports(Ok(vec![
        plain("b", Transport::Pci),
        plain("a", Transport::Bluetooth),
        plain("b", Transport::Unknown),
        plain("a", Transport::Pci),
    ]));
    let shown: Vec<&str> = infos.iter().map(|i| i.show_name.as_str()).collect();
    assert_eq!(shown, vec!["a [bluetooth]", "a [pci]", "b [pci]", "b [unknown]"]);
}

#[test]
fn a_failed_scan_lists_nothing() {
    let failed = DriverError {
        kind: DriverErrorKind::Unknown,
        description: "cannot enumerate".to_string(),
    };
    assert_eq!(available_ports(Err(failed)), Vec::new());
    assert_eq!(available_ports(Ok(Vec::new())), Vec::new());
}
