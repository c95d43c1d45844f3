use dutctl::ctlpins::{
    lower, off_tolerant, physical_drive, status_from_u8, CTLPins, CTLPinsTrait, Line, LineOp,
    PinState,
};

use LineOp::{Drive, Enable, Wait};
use PinState::{Floating, High, Low};

fn powered() -> CTLPins {
    let mut pins = CTLPins::new();
    pins.power_on(&[]);
    pins.take_ops();
    pins
}

fn unpowered() -> CTLPins {
    let mut pins = CTLPins::new();
    pins.take_ops();
    pins
}

#[test]
fn new_floats_every_line_and_powers_off() {
    let mut pins = CTLPins::new();
    assert_eq!(
        pins.take_ops(),
        vec![
            Drive(Line::A, Floating),
            Drive(Line::B, Floating),
            Drive(Line::C, Floating),
            Drive(Line::D, Floating),
            Drive(Line::Reset, Floating),
            Enable(false),
        ]
    );
    assert!(!pins.lines().on);
    assert!(pins.take_ops().is_empty());
}

#[test]
fn flashing_sequence_runs_in_order() {
    let mut pins = powered();
    pins.run_sequence(b"aL,rL,w1,rZ,w1,aZ");
    assert_eq!(
        pins.take_ops(),
        vec![
            Drive(Line::A, Low),
            Drive(Line::Reset, Low),
            Wait(1),
            Drive(Line::Reset, Floating),
            Wait(1),
            Drive(Line::A, Floating),
        ]
    );
}

#[test]
fn unpowered_high_request_is_withheld() {
    let mut pins = unpowered();
    pins.set_ctl_a(High);
    assert!(pins.take_ops().is_empty());
    assert_eq!(pins.lines().a, High);
    pins.power_on(&[]);
    let ops = pins.take_ops();
    assert_eq!(ops.iter().filter(|op| **op == Drive(Line::A, High)).count(), 1);
    assert_eq!(ops[0], Drive(Line::A, High));
    assert_eq!(ops.last(), Some(&Enable(true)));
    assert!(pins.lines().on);
}

#[test]
fn unpowered_low_request_is_driven() {
    let mut pins = unpowered();
    pins.set_ctl_a(Low);
    assert_eq!(pins.take_ops(), vec![Drive(Line::A, Low)]);
    pins.set_reset(Floating);
    assert_eq!(pins.take_ops(), vec![Drive(Line::Reset, Floating)]);
}

#[test]
fn powered_requests_are_driven() {
    let mut pins = powered();
    pins.set_ctl_b(High);
    pins.set_ctl_c(Low);
    pins.set_ctl_d(High);
    assert_eq!(
        pins.take_ops(),
        vec![Drive(Line::B, High), Drive(Line::C, Low), Drive(Line::D, High)]
    );
}

#[test]
fn safety_rule_matrix() {
    assert_eq!(physical_drive(High, true), Some(High));
    assert_eq!(physical_drive(Low, true), Some(Low));
    assert_eq!(physical_drive(Floating, true), Some(Floating));
    assert_eq!(physical_drive(High, false), None);
    assert_eq!(physical_drive(Low, false), Some(Low));
    assert_eq!(physical_drive(Floating, false), Some(Floating));
    assert!(!off_tolerant(High));
    assert!(off_tolerant(Low));
    assert!(off_tolerant(Floating));
}

#[test]
fn plain_power_off_floats_high_requests() {
    let mut pins = powered();
    pins.set_ctl_b(High);
    pins.set_ctl_c(Low);
    pins.take_ops();
    pins.power_off(&[]);
    assert_eq!(pins.take_ops(), vec![Drive(Line::B, Floating), Enable(false)]);
    assert!(!pins.lines().on);
    assert_eq!(pins.lines().b, High);
}

#[test]
fn guided_power_off_runs_sequence_first() {
    let mut pins = powered();
    pins.set_ctl_a(High);
    pins.take_ops();
    pins.power_off(b"bL,w11,bZ");
    assert_eq!(
        pins.take_ops(),
        vec![
            Drive(Line::B, Low),
            Wait(11),
            Drive(Line::B, Floating),
            Drive(Line::A, Floating),
            Enable(false),
        ]
    );
}

#[test]
fn guided_power_on_reapplies_then_runs_sequence() {
    let mut pins = unpowered();
    pins.power_on(b"p1,bL,w5,bZ");
    assert_eq!(
        pins.take_ops(),
        vec![
            Drive(Line::A, Floating),
            Drive(Line::B, Floating),
            Drive(Line::C, Floating),
            Drive(Line::D, Floating),
            Drive(Line::Reset, Floating),
            Drive(Line::A, Floating),
            Drive(Line::B, Floating),
            Drive(Line::C, Floating),
            Drive(Line::D, Floating),
            Drive(Line::Reset, Floating),
            Enable(true),
            Drive(Line::B, Low),
            Wait(5),
            Drive(Line::B, Floating),
        ]
    );
    assert!(pins.lines().on);
}

#[test]
fn zero_byte_means_no_sequence() {
    let mut pins = unpowered();
    pins.power_on(&[0, b'a', b'h']);
    let ops = pins.take_ops();
    assert_eq!(ops.len(), 6);
    assert_eq!(ops[5], Enable(true));
}

#[test]
fn zero_byte_ends_sequence_early() {
    let mut pins = powered();
    pins.run_sequence(b"aH,\0,bH");
    assert_eq!(pins.take_ops(), vec![Drive(Line::A, High)]);
}

#[test]
fn orders_ignore_case_and_unknown_tokens() {
    let mut pins = powered();
    pins.run_sequence(b"AH,x,Bl,cQ,DZ");
    assert_eq!(
        pins.take_ops(),
        vec![
            Drive(Line::A, High),
            Drive(Line::B, Low),
            Drive(Line::C, Floating),
            Drive(Line::D, Floating),
        ]
    );
}

#[test]
fn wait_digits() {
    let mut pins = powered();
    pins.run_sequence(b"w110,W,x,w0");
    assert_eq!(pins.take_ops(), vec![Wait(110), Wait(0), Wait(0)]);
    pins.run_sequence(b"w99999999999");
    assert_eq!(pins.take_ops(), vec![Wait(u32::MAX)]);
}

#[test]
fn last_lone_byte_is_ignored() {
    let mut pins = powered();
    pins.run_sequence(b"aL,w");
    assert_eq!(pins.take_ops(), vec![Drive(Line::A, Low)]);
    pins.run_sequence(b"a");
    assert!(pins.take_ops().is_empty());
}

#[test]
fn power_orders_inside_sequence() {
    let mut pins = powered();
    pins.set_ctl_a(High);
    pins.take_ops();
    pins.run_sequence(b"p0");
    assert_eq!(pins.take_ops(), vec![Drive(Line::A, Floating), Enable(false)]);
    assert!(!pins.lines().on);
    pins.run_sequence(b"P1");
    let ops = pins.take_ops();
    assert_eq!(ops.len(), 6);
    assert_eq!(ops[0], Drive(Line::A, High));
    assert!(pins.lines().on);
}

#[test]
fn letters_and_states() {
    assert_eq!(lower(b'A'), b'a');
    assert_eq!(lower(b'Z'), b'z');
    assert_eq!(lower(b'a'), b'a');
    assert_eq!(lower(b'@'), b'@');
    assert_eq!(lower(b'['), b'[');
    assert_eq!(status_from_u8(b'H'), High);
    assert_eq!(status_from_u8(b'l'), Low);
    assert_eq!(status_from_u8(b'z'), Floating);
    assert_eq!(status_from_u8(b'?'), Floating);
}

#[test]
fn unknown_token_is_skipped_whole() {
    let mut pins = powered();
    pins.run_sequence(b"xb,aH");
    assert_eq!(pins.take_ops(), vec![Drive(Line::A, High)]);
    pins.run_sequence(b"xb,");
    assert!(pins.take_ops().is_empty());
    pins.run_sequence(b"aLqrh,bH,zzz");
    assert_eq!(pins.take_ops(), vec![Drive(Line::A, Low), Drive(Line::B, High)]);
    pins.run_sequence(b"qr\0,bH");
    assert!(pins.take_ops().is_empty());
    pins.run_sequence(b"w2yb,cL");
    assert_eq!(pins.take_ops(), vec![Wait(2), Drive(Line::C, Low)]);
}
