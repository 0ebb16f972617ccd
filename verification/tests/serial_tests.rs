use gukab::serial::{baud_preset, default_device, order_ports, Flow, Parity, PortInfo, SerialParams, BAUD_PRESETS};

fn params(device: &str, data_bits: u8, stop_bits: u8) -> SerialParams {
    SerialParams {
        device: device.to_string(),
        baud: 9600,
        data_bits,
        parity: Parity::NoParity,
        stop_bits,
        flow: Flow::NoFlow,
    }
}

#[test]
fn presets_are_the_usual_rates() {
    assert_eq!(BAUD_PRESETS, [9600, 19200, 38400, 57600, 115200]);
    assert_eq!(baud_preset(4), 115200);
}

#[test]
fn port_settings_fall_back_to_8n1() {
    assert_eq!(params("/dev/x", 7, 2).data_bits_sp(), 7);
    assert_eq!(params("/dev/x", 9, 2).data_bits_sp(), 8);
    assert_eq!(params("/dev/x", 8, 2).stop_bits_sp(), 2);
    assert_eq!(params("/dev/x", 8, 3).stop_bits_sp(), 1);
}

#[test]
fn log_label_is_the_last_path_component() {
    assert_eq!(params("/dev/ttyUSB0", 8, 1).log_label(), "ttyUSB0");
    assert_eq!(params("COM3", 8, 1).log_label(), "COM3");
    assert_eq!(params("/dev/", 8, 1).log_label(), "serial");
}

#[test]
fn default_device_depends_on_the_os() {
    assert_eq!(default_device("linux"), "/dev/ttyUSB0");
    assert_eq!(default_device("windows"), "COM1");
    assert_eq!(default_device("macos"), "");
}

#[test]
fn usb_ports_come_first_then_by_name() {
    let ports = vec![
        PortInfo { name: "/dev/ttyS1".into(), usb: false },
        PortInfo { name: "/dev/ttyUSB1".into(), usb: true },
        PortInfo { name: "/dev/ttyS0".into(), usb: false },
        PortInfo { name: "/dev/ttyACM0".into(), usb: true },
    ];
    assert_eq!(order_ports(&ports), vec!["/dev/ttyACM0", "/dev/ttyUSB1", "/dev/ttyS0", "/dev/ttyS1"]);
    assert!(order_ports(&Vec::new()).is_empty());
}

use gukab::serial::{group_name, open_error, OsFamily};
use gukab::session::SshError;

#[test]
fn group_of_a_gid() {
    let groups = "root:x:0:\nuucp:x:14:alice\r\ndialout:x:20:bob\nbad line\n";
    assert_eq!(group_name(groups, 14).as_deref(), Some("uucp"));
    assert_eq!(group_name(groups, 20).as_deref(), Some("dialout"));
    assert_eq!(group_name(groups, 99), None);
    assert_eq!(group_name("", 0), None);
}

#[test]
fn port_open_errors() {
    match open_error("/dev/ttyS0", "No such file", false, OsFamily::Unix, None) {
        SshError::Serial(m) => assert_eq!(m, "cannot open /dev/ttyS0: No such file"),
        _ => panic!("expected a serial error"),
    }
    match open_error("/dev/ttyUSB0", "denied", true, OsFamily::Unix, Some("uucp")) {
        SshError::Serial(m) => {
            assert!(m.starts_with("permission denied opening /dev/ttyUSB0.\nThis device is owned by the 'uucp' group."));
            assert!(m.contains("\n    sudo usermod -aG uucp $USER\n"));
            assert!(m.ends_with("newgrp uucp"));
        }
        _ => panic!("expected a serial error"),
    }
    match open_error("/dev/ttyUSB0", "denied", true, OsFamily::Unix, None) {
        SshError::Serial(m) => assert!(m.ends_with("newgrp dialout")),
        _ => panic!("expected a serial error"),
    }
    match open_error("COM3", "denied", true, OsFamily::Windows, None) {
        SshError::Serial(m) => assert!(m.starts_with("access denied opening COM3 — the port may be open")),
        _ => panic!("expected a serial error"),
    }
}
