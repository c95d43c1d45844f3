use dutctl::config::{ConfigArea, ConfigAreaFlash, ConfigBlock};
use dutctl::control::{
    read_response, ConfigKey, ControlClass, ControlRequest, PowerAction, ReadKey, SetPin,
    SetPinState, StorageAction, Telemetry, MAX_CONFIG_LENGTH,
};
use dutctl::ctlpins::{CTLPins, Line, LineOp, PinState};
use dutctl::storage::{StorageOp, StoragePin, StorageSwitch};

struct Harness {
    control: ControlClass,
    area: ConfigArea<ConfigAreaFlash>,
    pins: CTLPins,
    storage: StorageSwitch,
}

fn harness() -> Harness {
    let mut pins = CTLPins::new();
    pins.take_ops();
    Harness {
        control: ControlClass::new(),
        area: ConfigArea::new(ConfigAreaFlash::erased()).0,
        pins,
        storage: StorageSwitch::new(),
    }
}

const READINGS: Telemetry = Telemetry { power: 1234, voltage: 500, current: -5 };

impl Harness {
    fn drain(&mut self) {
        let _ = self.control.post_poll(&mut self.area, &mut self.pins, &mut self.storage, READINGS);
    }
}

fn text_of(field: &[u8]) -> &[u8] {
    let end = field.iter().position(|b| *b == 0).unwrap_or(field.len());
    &field[..end]
}

#[test]
fn restaged_power_request_replaces_earlier_one() {
    let mut h = harness();
    h.control.stage_power(PowerAction::On);
    h.control.stage_power(PowerAction::Off);
    h.drain();
    let ops = h.pins.take_ops();
    assert_eq!(ops, vec![LineOp::Enable(false)]);
    assert!(!ops.contains(&LineOp::Enable(true)));
    h.drain();
    assert!(h.pins.take_ops().is_empty());
}

#[test]
fn drain_applies_categories_in_fixed_order() {
    let mut h = harness();
    h.control.stage_refresh();
    h.control.stage_pin(SetPin::A, SetPinState::High);
    h.control.stage_storage(StorageAction::Host);
    h.control.stage_power(PowerAction::ForceOn);
    assert!(h.control.stage_config(ConfigKey::Name, b"dut-1"));
    h.drain();
    // Config before Refresh: the snapshot already holds the new name.
    assert_eq!(text_of(&h.control.data().config.name), b"dut-1");
    assert_eq!(text_of(&h.area.get().name), b"dut-1");
    // Power before Pin: the high request is driven because power is on.
    assert_eq!(
        h.pins.take_ops(),
        vec![
            LineOp::Drive(Line::A, PinState::Floating),
            LineOp::Drive(Line::B, PinState::Floating),
            LineOp::Drive(Line::C, PinState::Floating),
            LineOp::Drive(Line::D, PinState::Floating),
            LineOp::Drive(Line::Reset, PinState::Floating),
            LineOp::Enable(true),
            LineOp::Drive(Line::A, PinState::High),
        ]
    );
    assert_eq!(
        h.storage.take_ops(),
        vec![
            StorageOp { pin: StoragePin::DutPower, high: false },
            StorageOp { pin: StoragePin::HostPower, high: true },
            StorageOp { pin: StoragePin::OutputEnable, high: false },
            StorageOp { pin: StoragePin::Select, high: false },
        ]
    );
    assert_eq!(h.control.data().telemetry, READINGS);
    h.drain();
    assert!(h.pins.take_ops().is_empty());
    assert!(h.storage.take_ops().is_empty());
    assert_eq!(h.area.flash().erase_count(), 0);
}

#[test]
fn pin_request_while_off_is_withheld() {
    let mut h = harness();
    h.control.stage_pin(SetPin::Reset, SetPinState::High);
    h.drain();
    assert!(h.pins.take_ops().is_empty());
    assert_eq!(h.pins.lines().reset, PinState::High);
}

#[test]
fn guided_power_uses_stored_sequence() {
    let mut h = harness();
    assert!(h.control.stage_config(ConfigKey::PowerOn, b"p1,bL,w5,bZ"));
    h.drain();
    h.control.stage_power(PowerAction::On);
    h.drain();
    let ops = h.pins.take_ops();
    assert_eq!(ops.len(), 14);
    assert_eq!(&ops[11..], &[
        LineOp::Drive(Line::B, PinState::Low),
        LineOp::Wait(5),
        LineOp::Drive(Line::B, PinState::Floating),
    ]);
}

#[test]
fn config_write_without_refresh_leaves_snapshot() {
    let mut h = harness();
    assert!(h.control.stage_config(ConfigKey::Tags, b"lab"));
    h.drain();
    assert_eq!(text_of(&h.area.get().tags), b"lab");
    assert!(h.control.data().config.tags.iter().all(|b| *b == 0));
}

#[test]
fn oversized_config_value_is_refused() {
    let mut h = harness();
    let big = vec![b'x'; MAX_CONFIG_LENGTH + 1];
    assert!(!h.control.stage_config(ConfigKey::Json, &big));
    assert!(h.control.stage_config(ConfigKey::Json, &big[..MAX_CONFIG_LENGTH]));
    h.drain();
    assert_eq!(text_of(&h.area.get().json).len(), MAX_CONFIG_LENGTH);
}

#[test]
fn control_out_decisions() {
    let mut c = ControlClass::new();
    assert!(c.control_out(0, 0, &[]));
    assert!(c.control_out(1, 4, &[]));
    assert!(!c.control_out(1, 5, &[]));
    assert!(c.control_out(2, 2, &[]));
    assert!(!c.control_out(2, 3, &[]));
    assert!(c.control_out(3, 6, b"{}"));
    assert!(!c.control_out(3, 7, b"x"));
    assert!(c.control_out(5, 1, &[1]));
    assert!(!c.control_out(5, 1, &[]));
    assert!(!c.control_out(5, 1, &[3]));
    assert!(!c.control_out(5, 9, &[1]));
    assert!(!c.control_out(4, 0, &[]));
    assert!(!c.control_out(6, 0, &[]));
}

#[test]
fn control_out_stages_what_it_accepts() {
    let mut h = harness();
    assert!(h.control.control_out(1, 3, &[]));
    assert!(h.control.control_out(5, 2, &[1]));
    h.drain();
    let ops = h.pins.take_ops();
    assert_eq!(ops.last(), Some(&LineOp::Drive(Line::B, PinState::High)));
    assert!(ops.contains(&LineOp::Enable(true)));
}

#[test]
fn control_in_answers_from_snapshot() {
    let mut h = harness();
    assert!(h.control.stage_config(ConfigKey::Name, b"rack-2"));
    h.control.stage_refresh();
    h.drain();
    let name = h.control.control_in(3, 0).unwrap();
    assert_eq!(name.len(), 64);
    assert_eq!(&name[..6], b"rack-2");
    assert_eq!(h.control.control_in(3, 6).unwrap().len(), 512);
    assert_eq!(h.control.control_in(4, 1).unwrap(), b"12.34W 5.00V -0.05A".to_vec());
    assert_eq!(h.control.control_in(4, 2).unwrap(), b"5.00V".to_vec());
    assert_eq!(h.control.control_in(4, 3).unwrap(), b"-0.05A".to_vec());
    assert_eq!(h.control.control_in(4, 0).unwrap(), b"0.0 git-ref: unknown".to_vec());
    assert!(h.control.control_in(4, 4).is_none());
    assert!(h.control.control_in(3, 7).is_none());
    assert!(h.control.control_in(1, 0).is_none());
}

#[test]
fn telemetry_text() {
    let t = Telemetry { power: 0, voltage: 1200, current: 7 };
    assert_eq!(read_response(ReadKey::Power, &t), b"0.00W 12.00V 0.07A".to_vec());
    let t = Telemetry { power: i32::MIN, voltage: 99, current: -100 };
    assert_eq!(read_response(ReadKey::Voltage, &t), b"0.99V".to_vec());
    assert_eq!(read_response(ReadKey::Current, &t), b"-1.00A".to_vec());
    assert_eq!(
        read_response(ReadKey::Power, &t),
        b"-21474836.48W 0.99V -1.00A".to_vec()
    );
}

#[test]
fn request_codes() {
    assert_eq!(ControlRequest::from_u8(0), Some(ControlRequest::Refresh));
    assert_eq!(ControlRequest::from_u8(5), Some(ControlRequest::SetPin));
    assert_eq!(ControlRequest::from_u8(6), None);
    assert_eq!(PowerAction::from_u16(4), Some(PowerAction::Rescue));
    assert_eq!(StorageAction::from_u16(2), Some(StorageAction::DUT));
    assert_eq!(ConfigKey::from_u16(6), Some(ConfigKey::Json));
    assert_eq!(ReadKey::from_u16(3), Some(ReadKey::Current));
    assert_eq!(SetPin::from_u16(0), Some(SetPin::Reset));
    assert_eq!(SetPinState::from_u8(2), Some(SetPinState::Floating));
    assert_eq!(SetPinState::from_u8(3), None);
}

#[test]
fn new_snapshot_is_zeroed() {
    let c = ControlClass::new();
    assert_eq!(c.data().telemetry, Telemetry { power: 0, voltage: 0, current: 0 });
    assert!(c.data().config.name.iter().all(|b| *b == 0));
    let blank = ConfigBlock::new();
    assert_eq!(c.data().config.to_bytes(), blank.to_bytes());
}

#[test]
fn sequence_written_in_same_pass_is_used() {
    let mut h = harness();
    assert!(h.control.stage_config(ConfigKey::PowerOff, b"bL,w11,bZ"));
    h.control.stage_power(PowerAction::Off);
    h.drain();
    assert_eq!(
        h.pins.take_ops(),
        vec![
            LineOp::Drive(Line::B, PinState::Low),
            LineOp::Wait(11),
            LineOp::Drive(Line::B, PinState::Floating),
            LineOp::Enable(false),
        ]
    );
    assert!(h.control.data().config.power_off.iter().all(|b| *b == 0));
}

#[test]
fn storage_is_applied_after_power_and_before_pin() {
    let mut h = harness();
    h.control.stage_storage(StorageAction::DUT);
    h.control.stage_pin(SetPin::C, SetPinState::Low);
    h.drain();
    assert_eq!(h.storage.take_ops().len(), 4);
    assert_eq!(h.pins.take_ops(), vec![LineOp::Drive(Line::C, PinState::Low)]);
}
