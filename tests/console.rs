use dutctl::config::{ConfigArea, ConfigAreaFlash};
use dutctl::control::Telemetry;
use dutctl::ctlpins::{CTLPins, CTLPinsTrait, Line, LineOp, PinState};
use dutctl::serial::{
    console_exit_step, escaped_char, passthrough_step, to_host_text, Escape, Passthrough,
};
use dutctl::shell::{
    bytes_eq, finish_response, handle_command, handle_console_cmd, handle_get_config_cmd,
    handle_meter_cmd, handle_monitor_cmd, handle_power_cmd, handle_send_cmd, handle_set_cmd,
    handle_set_config_cmd, handle_status_cmd, handle_storage_cmd, write_set_usage, write_u8,
    Command, ShellStatus,
};
use dutctl::storage::{StorageOp, StoragePin, StorageSwitch};
use dutctl::usbserial::{BufferStore, BUFFER_SIZE};
use std::borrow::{Borrow, BorrowMut};
use dutctl::version::{bcd_version, git_ref, serial_hex, usb_version_bcd_device, version, write_version};

fn status() -> ShellStatus {
    ShellStatus { monitor_enabled: false, meter_enabled: false, console_mode: false }
}

fn reply(v: &[u8]) -> String {
    String::from_utf8(v.to_vec()).unwrap()
}

fn powered_pins() -> CTLPins {
    let mut pins = CTLPins::new();
    pins.power_on(&[]);
    pins.take_ops();
    pins
}

#[test]
fn monitor_command() {
    let mut st = status();
    let mut out = Vec::new();
    handle_monitor_cmd(&mut out, b"on", &mut st);
    assert!(st.monitor_enabled);
    assert_eq!(reply(&out), "Monitor enabled");
    out.clear();
    handle_monitor_cmd(&mut out, b"off", &mut st);
    assert!(!st.monitor_enabled);
    assert_eq!(reply(&out), "Monitor disabled");
    out.clear();
    handle_monitor_cmd(&mut out, b"maybe", &mut st);
    assert_eq!(reply(&out), "usage: monitor on|off");
}

#[test]
fn console_and_status_commands() {
    let mut st = status();
    let mut out = Vec::new();
    handle_console_cmd(&mut out, b"x", &mut st);
    assert!(!st.console_mode);
    assert_eq!(reply(&out), "usage: console");
    out.clear();
    handle_console_cmd(&mut out, b"", &mut st);
    assert!(st.console_mode);
    assert_eq!(reply(&out), "Entering console mode, type CTRL+B 5 times to exit");
    out.clear();
    st.meter_enabled = true;
    handle_status_cmd(&mut out, b"", &st);
    assert_eq!(reply(&out), "Monitor: false, Meter: true");
    out.clear();
    handle_status_cmd(&mut out, b"all", &st);
    assert_eq!(reply(&out), "usage: status");
}

#[test]
fn meter_command() {
    let mut st = status();
    let t = Telemetry { power: 250, voltage: 1200, current: 21 };
    let mut out = Vec::new();
    handle_meter_cmd(&mut out, b"read", &mut st, &t);
    assert_eq!(reply(&out), "0.21A 12.00V 2.50W");
    out.clear();
    handle_meter_cmd(&mut out, b"on", &mut st, &t);
    assert!(st.meter_enabled);
    assert_eq!(reply(&out), "Power meter monitoring enabled");
    out.clear();
    handle_meter_cmd(&mut out, b"off", &mut st, &t);
    assert!(!st.meter_enabled);
    assert_eq!(reply(&out), "Power monitor disabled");
    out.clear();
    handle_meter_cmd(&mut out, b"", &mut st, &t);
    assert_eq!(reply(&out), "usage: meter on|read|off");
}

#[test]
fn send_command() {
    let mut out = Vec::new();
    let mut to_dut = Vec::new();
    handle_send_cmd(&mut out, b"root\\r", &mut to_dut);
    assert_eq!(to_dut, b"root\\r".to_vec());
    assert!(out.is_empty());
    handle_send_cmd(&mut out, b"", &mut to_dut);
    assert_eq!(reply(&out), "usage: send string");
    assert_eq!(to_dut.len(), 6);
}

#[test]
fn storage_command() {
    let mut sw = StorageSwitch::new();
    let mut out = Vec::new();
    handle_storage_cmd(&mut out, b"dut", &mut sw);
    assert_eq!(reply(&out), "storage connected to device under test");
    assert_eq!(
        sw.take_ops(),
        vec![
            StorageOp { pin: StoragePin::HostPower, high: false },
            StorageOp { pin: StoragePin::DutPower, high: true },
            StorageOp { pin: StoragePin::OutputEnable, high: false },
            StorageOp { pin: StoragePin::Select, high: true },
        ]
    );
    out.clear();
    handle_storage_cmd(&mut out, b"off", &mut sw);
    assert_eq!(reply(&out), "storage disconnected");
    assert_eq!(
        sw.take_ops(),
        vec![
            StorageOp { pin: StoragePin::DutPower, high: false },
            StorageOp { pin: StoragePin::HostPower, high: false },
            StorageOp { pin: StoragePin::OutputEnable, high: true },
        ]
    );
    out.clear();
    handle_storage_cmd(&mut out, b"usb", &mut sw);
    assert_eq!(reply(&out), "usage: storage dut|host|off");
    assert!(sw.take_ops().is_empty());
    handle_storage_cmd(&mut out, b"host", &mut sw);
    assert_eq!(sw.take_ops().len(), 4);
}

#[test]
fn set_command() {
    let mut pins = powered_pins();
    let mut out = Vec::new();
    handle_set_cmd(&mut out, b"r l", &mut pins);
    assert_eq!(reply(&out), "Set /RESET to LOW");
    assert_eq!(pins.take_ops(), vec![LineOp::Drive(Line::Reset, PinState::Low)]);
    out.clear();
    handle_set_cmd(&mut out, b"d z", &mut pins);
    assert_eq!(reply(&out), "Set CTL_D to HIGH IMPEDANCE");
    out.clear();
    handle_set_cmd(&mut out, b"a h", &mut pins);
    assert_eq!(reply(&out), "Set CTL_A to HIGH");
    assert_eq!(pins.lines().a, PinState::High);
    for bad in [&b"x h"[..], b"a q", b"ah", b"a  h", b"a_h"] {
        let mut out = Vec::new();
        pins.take_ops();
        handle_set_cmd(&mut out, bad, &mut pins);
        assert_eq!(reply(&out), "usage: set r|a|b|c|d l|h|z");
        assert!(pins.take_ops().is_empty());
    }
    let mut out = Vec::new();
    write_set_usage(&mut out);
    assert_eq!(reply(&out), "usage: set r|a|b|c|d l|h|z");
}

#[test]
fn set_config_and_get_config_commands() {
    let mut area = ConfigArea::new(ConfigAreaFlash::erased()).0;
    let mut out = Vec::new();
    handle_set_config_cmd(&mut out, b"name   bench-1 extra", &mut area);
    assert_eq!(reply(&out), "Set name to bench-1");
    out.clear();
    handle_set_config_cmd(&mut out, b"\tpower_on p1,bL,w5,bZ", &mut area);
    assert_eq!(reply(&out), "Set power_on to p1,bL,w5,bZ");
    out.clear();
    handle_get_config_cmd(&mut out, b"name", &area);
    assert_eq!(reply(&out), "bench-1");
    out.clear();
    handle_get_config_cmd(&mut out, b"", &area);
    assert_eq!(
        reply(&out),
        "name: bench-1\r\ntags: \r\njson: \r\nusb_console: \r\npower_on: p1,bL,w5,bZ\r\npower_off: \r\npower_rescue: "
    );
    out.clear();
    handle_set_config_cmd(&mut out, b"name", &mut area);
    assert_eq!(reply(&out), "Set name to ");
    out.clear();
    handle_get_config_cmd(&mut out, b"name", &area);
    assert_eq!(reply(&out), "");
    out.clear();
    handle_set_config_cmd(&mut out, b"storage usb", &mut area);
    assert_eq!(reply(&out), "usage: set-config name|tags|storage|usb_storage value");
    out.clear();
    handle_set_config_cmd(&mut out, b"   ", &mut area);
    assert_eq!(reply(&out), "usage: set-config name|tags|storage|usb_storage value");
    out.clear();
    handle_get_config_cmd(&mut out, b"nothing", &area);
    assert_eq!(
        reply(&out),
        "usage: get-config [name|tags|json|usb_console|power_on|power_off|power_rescue]"
    );
    assert_eq!(area.flash().erase_count(), 0);
}

#[test]
fn power_command_uses_current_record() {
    let mut area = ConfigArea::new(ConfigAreaFlash::erased()).0;
    let mut out = Vec::new();
    handle_set_config_cmd(&mut out, b"power_off bL,w11,bZ", &mut area);
    let mut pins = powered_pins();
    out.clear();
    handle_power_cmd(&mut out, b"off", &mut pins, &area);
    assert_eq!(reply(&out), "Device powered off");
    assert_eq!(
        pins.take_ops(),
        vec![
            LineOp::Drive(Line::B, PinState::Low),
            LineOp::Wait(11),
            LineOp::Drive(Line::B, PinState::Floating),
            LineOp::Enable(false),
        ]
    );
    out.clear();
    handle_power_cmd(&mut out, b"force-on", &mut pins, &area);
    assert_eq!(reply(&out), "Device forced on");
    assert_eq!(pins.take_ops().last(), Some(&LineOp::Enable(true)));
    out.clear();
    handle_power_cmd(&mut out, b"reboot", &mut pins, &area);
    assert_eq!(reply(&out), "usage: power on|off|force-on|force-off|rescue");
    assert!(pins.take_ops().is_empty());
}

#[test]
fn dispatcher_routes_commands() {
    let mut area = ConfigArea::new(ConfigAreaFlash::erased()).0;
    let mut pins = powered_pins();
    let mut sw = StorageSwitch::new();
    let mut st = status();
    let mut to_dut = Vec::new();
    let t = Telemetry { power: 0, voltage: 0, current: 0 };
    let mut out = Vec::new();
    let r = handle_command(b"set", b"c h", &mut out, &mut st, &mut sw, &mut pins, &mut to_dut, &t, &mut area);
    assert_eq!(r, Command::SetLine);
    assert_eq!(reply(&out), "Set CTL_C to HIGH");
    out.clear();
    let r = handle_command(b"help", b"", &mut out, &mut st, &mut sw, &mut pins, &mut to_dut, &t, &mut area);
    assert_eq!(r, Command::Help);
    assert!(out.is_empty());
    let r = handle_command(b"frobnicate", b"", &mut out, &mut st, &mut sw, &mut pins, &mut to_dut, &t, &mut area);
    assert_eq!(r, Command::Unsupported);
    let r = handle_command(b"", b"", &mut out, &mut st, &mut sw, &mut pins, &mut to_dut, &t, &mut area);
    assert_eq!(r, Command::Empty);
    let r = handle_command(b"version", b"", &mut out, &mut st, &mut sw, &mut pins, &mut to_dut, &t, &mut area);
    assert_eq!(r, Command::Version);
    assert_eq!(reply(&out), "0.0 git-ref: unknown");
    out.clear();
    let r = handle_command(b"about", b"", &mut out, &mut st, &mut sw, &mut pins, &mut to_dut, &t, &mut area);
    assert_eq!(r, Command::About);
    assert!(reply(&out).starts_with("\r\nJumpstarter test-harness version: 0.0 git-ref: unknown\r\n"));
    out.clear();
    let r = handle_command(b"monitor", b"on", &mut out, &mut st, &mut sw, &mut pins, &mut to_dut, &t, &mut area);
    assert_eq!(r, Command::Monitor);
    assert!(st.monitor_enabled);
}

#[test]
fn response_is_finished_with_prompt() {
    let mut out = b"\r\n".to_vec();
    finish_response(&mut out, false);
    assert_eq!(reply(&out), "\r\n#> ");
    let mut out = b"\r\nok".to_vec();
    finish_response(&mut out, false);
    assert_eq!(reply(&out), "\r\nok\r\n#> ");
    let mut out = b"\r\nok".to_vec();
    finish_response(&mut out, true);
    assert_eq!(reply(&out), "\r\nok\r\n");
}

#[test]
fn fields_print_up_to_first_zero() {
    let mut out = Vec::new();
    write_u8(&mut out, &[b'a', b'b', 0, b'c']);
    assert_eq!(out, b"ab".to_vec());
    out.clear();
    write_u8(&mut out, &[0xe9, b'!']);
    assert_eq!(reply(&out), "\u{e9}!");
    assert!(bytes_eq(b"on", b"on"));
    assert!(!bytes_eq(b"on", b"of"));
    assert!(!bytes_eq(b"on", b"o"));
}

#[test]
fn version_numbers() {
    assert_eq!(version(), "0.0");
    assert_eq!(git_ref(), "unknown");
    let mut out = Vec::new();
    write_version(&mut out);
    assert_eq!(reply(&out), "0.0 git-ref: unknown");
    assert_eq!(usb_version_bcd_device(), 0x0000);
    assert_eq!(bcd_version(b"1.23"), Some(0x0123));
    assert_eq!(bcd_version(b"12.3"), Some(0x1203));
    assert_eq!(bcd_version(b"2"), Some(0x0200));
    assert_eq!(bcd_version(b"1.2.3"), None);
    assert_eq!(bcd_version(b"123.1"), None);
    assert_eq!(bcd_version(b"v1.0"), None);
}

#[test]
fn serial_number_text() {
    assert_eq!(serial_hex(0x1234_abcd), b"dcba4321".to_vec());
    assert_eq!(serial_hex(0), b"00000000".to_vec());
}

#[test]
fn serial_escapes() {
    assert_eq!(escaped_char(b'n'), Escape::Byte(0x0a));
    assert_eq!(escaped_char(b'w'), Escape::Pause);
    assert_eq!(escaped_char(b'q'), Escape::Byte(b'q'));
    assert_eq!(passthrough_step(true, false, b'\\'), (true, Passthrough::Skip));
    assert_eq!(passthrough_step(true, true, b'r'), (false, Passthrough::Send(0x0d)));
    assert_eq!(passthrough_step(true, true, b'w'), (false, Passthrough::Pause));
    assert_eq!(passthrough_step(false, false, b'\\'), (false, Passthrough::Send(b'\\')));
    assert_eq!(passthrough_step(true, false, b'x'), (false, Passthrough::Send(b'x')));
}

#[test]
fn five_ctrl_b_leave_console() {
    let mut count = 0u8;
    for _ in 0..4 {
        let (c, exit) = console_exit_step(count, 0x02);
        assert!(!exit);
        count = c;
    }
    assert_eq!(count, 4);
    assert_eq!(console_exit_step(count, 0x02), (0, true));
    assert_eq!(console_exit_step(3, b'a'), (0, false));
}

#[test]
fn meter_trace_follows_each_line() {
    let t = Telemetry { power: 250, voltage: 0, current: 0 };
    assert_eq!(to_host_text(b"ok\r\nx\r", true, &t), b"ok\r2.50W> \nx\r2.50W> ".to_vec());
    assert_eq!(to_host_text(b"ok\r\n", false, &t), b"ok\r\n".to_vec());
    assert!(to_host_text(b"", true, &t).is_empty());
}

#[test]
fn serial_buffers_are_zeroed_and_writable() {
    let mut store = BufferStore::new();
    let view: &[u8] = store.borrow();
    assert_eq!(view.len(), BUFFER_SIZE);
    assert!(view.iter().all(|b| *b == 0));
    let view: &mut [u8] = store.borrow_mut();
    view[3] = 7;
    assert_eq!(store.0[3], 7);
}
