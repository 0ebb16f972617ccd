use gukab::serial::{Flow, Parity};
use gukab::ui::{blink_color, fit_width, flow_label, parity_label, parity_short, seven_segment, Led};

#[test]
fn names_fit_their_column() {
    assert_eq!(fit_width("core", 6), "core  ");
    assert_eq!(fit_width("distribution-01", 8), "distrib…");
    assert_eq!(fit_width("exact", 5), "exact");
    assert_eq!(fit_width("şube-1", 4), "şub…");
    assert_eq!(fit_width("x", 0), "");
}

#[test]
fn clock_digits_in_seven_segments() {
    let rows = seven_segment("12:30");
    assert_eq!(rows[0], "     _     _   _ ");
    assert_eq!(rows[1], "  |  _| :  _| | |");
    assert_eq!(rows[2], "  | |_     _| |_|");
}

#[test]
fn serial_setting_labels() {
    assert_eq!(parity_short(Parity::NoParity), "N");
    assert_eq!(parity_short(Parity::Even), "E");
    assert_eq!(parity_label(Parity::Odd), "Odd");
    assert_eq!(flow_label(Flow::Software), "Software (XON/XOFF)");
    assert_eq!(flow_label(Flow::Hardware), "Hardware (RTS/CTS)");
}

#[test]
fn leds_hold_each_state_two_frames() {
    for port in 0..24u64 {
        for frame in (0..40u64).step_by(2) {
            assert_eq!(blink_color(port, frame, 1), blink_color(port, frame + 1, 1));
        }
    }
    let lit = (0..64u64).filter(|p| blink_color(*p, 10, 0) != Led::Off).count();
    assert!(lit > 0 && lit < 64);
}

#[test]
fn fit_width_zero_is_empty() {
    assert_eq!(fit_width("core", 0), "");
    assert_eq!(fit_width("", 0), "");
    assert_eq!(fit_width("ab", 1), "…");
}
