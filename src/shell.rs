//! The console commands: each handler reads its argument text, acts on the
//! harness, and appends its reply to a response buffer.

use vstd::prelude::*;
use vstd::slice::slice_subrange;
use vstd::string::StringSliceAdditionalSpecFns;
use crate::bytes::push_bytes;
use crate::config::{encode, reads_as, write_outcome, ConfigArea, ConfigBlock, FlashRegion};
use crate::control::{
    field_set, fixed2_text, power_step, push_fixed2, with_field, ConfigKey, PowerAction, Telemetry,
};
use crate::ctlpins::{set_spec, CTLPinsTrait, Line, PinState};
use crate::storage::{connect_dut_ops, connect_host_ops, power_off_ops, StorageOp, StorageSwitchTrait};
use crate::version::{version_text, write_version};

verus! {

#[derive(Clone, Copy, PartialEq, Eq, Structural, Debug)]
pub struct ShellStatus {
    pub monitor_enabled: bool,
    pub meter_enabled: bool,
    pub console_mode: bool,
}

/// The bytes of a text.
pub open spec fn text(s: &str) -> Seq<u8> {
    s.spec_bytes()
}

/// Whether `a` and `b` hold the same bytes.
pub fn bytes_eq(a: &[u8], b: &[u8]) -> (r: bool)
    ensures
        r == (a@ == b@),
{
    if a.len() != b.len() {
        return false;
    }
    let mut i: usize = 0;
    while i < a.len()
        invariant
            a@.len() == b@.len(),
            0 <= i <= a@.len(),
            forall|k: int| 0 <= k < i ==> a@[k] == b@[k],
        decreases a@.len() - i,
    {
        if a[i] != b[i] {
            return false;
        }
        i = i + 1;
    }
    assert(a@ =~= b@);
    true
}

/// Whether `args` is exactly the word `w`.
fn is_word(args: &[u8], w: &str) -> (r: bool)
    ensures
        r == (args@ == text(w)),
{
    bytes_eq(args, w.as_bytes())
}

fn push_text(out: &mut Vec<u8>, s: &str)
    ensures
        final(out)@ == old(out)@ + text(s),
{
    push_bytes(out, s.as_bytes());
}

/// `true` or `false`.
pub open spec fn bool_text(b: bool) -> Seq<u8> {
    if b {
        text("true")
    } else {
        text("false")
    }
}

fn push_bool(out: &mut Vec<u8>, b: bool)
    ensures
        final(out)@ == old(out)@ + bool_text(b),
{
    if b {
        push_text(out, "true");
    } else {
        push_text(out, "false");
    }
}

/// A byte taken as the character of that code point, in UTF-8.
pub open spec fn char_bytes(c: u8) -> Seq<u8> {
    if c < 128 {
        seq![c]
    } else {
        seq![(0xc0 + c / 64) as u8, (0x80 + c % 64) as u8]
    }
}

/// The bytes of `val` up to its first zero byte, each as a character.
pub open spec fn trimmed_text(val: Seq<u8>) -> Seq<u8>
    decreases val.len(),
{
    if val.len() == 0 || val[0] == 0 {
        Seq::<u8>::empty()
    } else {
        char_bytes(val[0]) + trimmed_text(val.drop_first())
    }
}

/// Writes a zero-padded field as text: up to its first zero byte.
pub fn write_u8(response: &mut Vec<u8>, val: &[u8])
    ensures
        final(response)@ == old(response)@ + trimmed_text(val@),
{
    let mut i: usize = 0;
    assert(val@.subrange(0, val@.len() as int) =~= val@);
    while i < val.len() && val[i] != 0
        invariant
            0 <= i <= val@.len(),
            forall|k: int| 0 <= k < i ==> val@[k] != 0,
            old(response)@ + trimmed_text(val@) == response@ + trimmed_text(val@.subrange(
                i as int,
                val@.len() as int,
            )),
        decreases val@.len() - i,
    {
        let c = val[i];
        let ghost rest = val@.subrange(i as int, val@.len() as int);
        assert(rest.drop_first() =~= val@.subrange(i + 1, val@.len() as int));
        if c < 128 {
            response.push(c);
        } else {
            response.push(0xc0 + c / 64);
            response.push(0x80 + c % 64);
        }
        assert(response@ + trimmed_text(rest.drop_first()) =~= old(response)@ + trimmed_text(val@));
        i = i + 1;
    }
    assert(trimmed_text(val@.subrange(i as int, val@.len() as int)) =~= Seq::<u8>::empty());
}

pub fn write_set_usage(response: &mut Vec<u8>)
    ensures
        final(response)@ == old(response)@ + text("usage: set r|a|b|c|d l|h|z"),
{
    push_text(response, "usage: set r|a|b|c|d l|h|z");
}

pub open spec fn monitor_spec(args: Seq<u8>, st: ShellStatus) -> (ShellStatus, Seq<u8>) {
    if args == text("on") {
        (ShellStatus { monitor_enabled: true, ..st }, text("Monitor enabled"))
    } else if args == text("off") {
        (ShellStatus { monitor_enabled: false, ..st }, text("Monitor disabled"))
    } else {
        (st, text("usage: monitor on|off"))
    }
}

pub fn handle_monitor_cmd(response: &mut Vec<u8>, args: &[u8], shell_status: &mut ShellStatus)
    ensures
        *final(shell_status) == monitor_spec(args@, *old(shell_status)).0,
        final(response)@ == old(response)@ + monitor_spec(args@, *old(shell_status)).1,
{
    if is_word(args, "on") {
        shell_status.monitor_enabled = true;
        push_text(response, "Monitor enabled");
    } else if is_word(args, "off") {
        shell_status.monitor_enabled = false;
        push_text(response, "Monitor disabled");
    } else {
        push_text(response, "usage: monitor on|off");
    }
}

pub open spec fn console_spec(args: Seq<u8>, st: ShellStatus) -> (ShellStatus, Seq<u8>) {
    if args.len() == 0 {
        (
            ShellStatus { console_mode: true, ..st },
            text("Entering console mode, type CTRL+B 5 times to exit"),
        )
    } else {
        (st, text("usage: console"))
    }
}

pub fn handle_console_cmd(response: &mut Vec<u8>, args: &[u8], shell_status: &mut ShellStatus)
    ensures
        *final(shell_status) == console_spec(args@, *old(shell_status)).0,
        final(response)@ == old(response)@ + console_spec(args@, *old(shell_status)).1,
{
    if args.len() == 0 {
        shell_status.console_mode = true;
        push_text(response, "Entering console mode, type CTRL+B 5 times to exit");
    } else {
        push_text(response, "usage: console");
    }
}

pub open spec fn status_spec(args: Seq<u8>, st: ShellStatus) -> Seq<u8> {
    if args.len() == 0 {
        text("Monitor: ") + bool_text(st.monitor_enabled) + text(", Meter: ") + bool_text(
            st.meter_enabled,
        )
    } else {
        text("usage: status")
    }
}

pub fn handle_status_cmd(response: &mut Vec<u8>, args: &[u8], shell_status: &ShellStatus)
    ensures
        final(response)@ == old(response)@ + status_spec(args@, *shell_status),
{
    if args.len() == 0 {
        push_text(response, "Monitor: ");
        push_bool(response, shell_status.monitor_enabled);
        push_text(response, ", Meter: ");
        push_bool(response, shell_status.meter_enabled);
        assert(response@ =~= old(response)@ + status_spec(args@, *shell_status));
    } else {
        push_text(response, "usage: status");
    }
}

/// Sends the argument text to the device under test; without one, replies
/// with the usage.
pub fn handle_send_cmd(response: &mut Vec<u8>, args: &[u8], to_dut: &mut Vec<u8>)
    ensures
        args@.len() > 0 ==> final(to_dut)@ == old(to_dut)@ + args@ && final(response)@ == old(response)@,
        args@.len() == 0 ==> final(to_dut)@ == old(to_dut)@ && final(response)@ == old(response)@
            + text("usage: send string"),
{
    if args.len() > 0 {
        push_bytes(to_dut, args);
    } else {
        push_text(response, "usage: send string");
    }
}

pub open spec fn meter_spec(args: Seq<u8>, st: ShellStatus, t: Telemetry) -> (ShellStatus, Seq<u8>) {
    if args == text("on") {
        (ShellStatus { meter_enabled: true, ..st }, text("Power meter monitoring enabled"))
    } else if args == text("read") {
        (
            st,
            fixed2_text(t.current as int) + text("A ") + fixed2_text(t.voltage as int) + text("V ")
                + fixed2_text(t.power as int) + text("W"),
        )
    } else if args == text("off") {
        (ShellStatus { meter_enabled: false, ..st }, text("Power monitor disabled"))
    } else {
        (st, text("usage: meter on|read|off"))
    }
}

pub fn handle_meter_cmd(
    response: &mut Vec<u8>,
    args: &[u8],
    shell_status: &mut ShellStatus,
    telemetry: &Telemetry,
)
    ensures
        *final(shell_status) == meter_spec(args@, *old(shell_status), *telemetry).0,
        final(response)@ == old(response)@ + meter_spec(args@, *old(shell_status), *telemetry).1,
{
    if is_word(args, "on") {
        shell_status.meter_enabled = true;
        push_text(response, "Power meter monitoring enabled");
    } else if is_word(args, "read") {
        push_fixed2(response, telemetry.current);
        push_text(response, "A ");
        push_fixed2(response, telemetry.voltage);
        push_text(response, "V ");
        push_fixed2(response, telemetry.power);
        push_text(response, "W");
        assert(response@ =~= old(response)@ + meter_spec(args@, *old(shell_status), *telemetry).1);
    } else if is_word(args, "off") {
        shell_status.meter_enabled = false;
        push_text(response, "Power monitor disabled");
    } else {
        push_text(response, "usage: meter on|read|off");
    }
}

/// The switch operations and reply of a storage command.
pub open spec fn storage_cmd_spec(args: Seq<u8>) -> (Seq<StorageOp>, Seq<u8>) {
    if args == text("dut") {
        (connect_dut_ops(), text("storage connected to device under test"))
    } else if args == text("host") {
        (connect_host_ops(), text("storage connected to host"))
    } else if args == text("off") {
        (power_off_ops(), text("storage disconnected"))
    } else {
        (Seq::empty(), text("usage: storage dut|host|off"))
    }
}

pub fn handle_storage_cmd<S: StorageSwitchTrait>(response: &mut Vec<u8>, args: &[u8], storage: &mut S)
    ensures
        final(storage).issued() == old(storage).issued() + storage_cmd_spec(args@).0,
        final(response)@ == old(response)@ + storage_cmd_spec(args@).1,
{
    if is_word(args, "dut") {
        storage.connect_to_dut();
        push_text(response, "storage connected to device under test");
    } else if is_word(args, "host") {
        storage.connect_to_host();
        push_text(response, "storage connected to host");
    } else if is_word(args, "off") {
        storage.power_off();
        push_text(response, "storage disconnected");
    } else {
        assert(storage.issued() =~= old(storage).issued() + Seq::empty());
        push_text(response, "usage: storage dut|host|off");
    }
}

/// The line that a `set` command names, with its name in replies.
pub open spec fn set_target(c: u8) -> Option<(Line, Seq<u8>)> {
    if c == 114 {
        Some((Line::Reset, text("/RESET")))
    } else if c == 97 {
        Some((Line::A, text("CTL_A")))
    } else if c == 98 {
        Some((Line::B, text("CTL_B")))
    } else if c == 99 {
        Some((Line::C, text("CTL_C")))
    } else if c == 100 {
        Some((Line::D, text("CTL_D")))
    } else {
        None
    }
}

/// The state that a `set` command asks for, with its name in replies.
pub open spec fn set_value(c: u8) -> Option<(PinState, Seq<u8>)> {
    if c == 108 {
        Some((PinState::Low, text("LOW")))
    } else if c == 104 {
        Some((PinState::High, text("HIGH")))
    } else if c == 122 {
        Some((PinState::Floating, text("HIGH IMPEDANCE")))
    } else {
        None
    }
}

/// A well-formed `set` argument: a line letter, a space, a state letter.
pub open spec fn set_args_ok(args: Seq<u8>) -> bool {
    args.len() == 3 && args[1] == 32 && set_target(args[0]) is Some && set_value(args[2]) is Some
}

fn set_target_of(c: u8) -> (r: Option<(Line, &'static str)>)
    ensures
        r is Some == set_target(c) is Some,
        r is Some ==> r->Some_0.0 == set_target(c)->Some_0.0 && text(r->Some_0.1) == set_target(
            c,
        )->Some_0.1,
{
    if c == 114 {
        Some((Line::Reset, "/RESET"))
    } else if c == 97 {
        Some((Line::A, "CTL_A"))
    } else if c == 98 {
        Some((Line::B, "CTL_B"))
    } else if c == 99 {
        Some((Line::C, "CTL_C"))
    } else if c == 100 {
        Some((Line::D, "CTL_D"))
    } else {
        None
    }
}

fn set_value_of(c: u8) -> (r: Option<(PinState, &'static str)>)
    ensures
        r is Some == set_value(c) is Some,
        r is Some ==> r->Some_0.0 == set_value(c)->Some_0.0 && text(r->Some_0.1) == set_value(
            c,
        )->Some_0.1,
{
    if c == 108 {
        Some((PinState::Low, "LOW"))
    } else if c == 104 {
        Some((PinState::High, "HIGH"))
    } else if c == 122 {
        Some((PinState::Floating, "HIGH IMPEDANCE"))
    } else {
        None
    }
}

/// `set <line> <state>`: requests a line state, as the control protocol
/// does.
pub fn handle_set_cmd<C: CTLPinsTrait>(response: &mut Vec<u8>, args: &[u8], ctl_pins: &mut C)
    ensures
        set_args_ok(args@) ==> final(ctl_pins).engine() == set_spec(
            old(ctl_pins).engine(),
            set_target(args@[0])->Some_0.0,
            set_value(args@[2])->Some_0.0,
        ) && final(response)@ == old(response)@ + text("Set ") + set_target(args@[0])->Some_0.1
            + text(" to ") + set_value(args@[2])->Some_0.1,
        !set_args_ok(args@) ==> final(ctl_pins).engine() == old(ctl_pins).engine() && final(response)@ == old(response)@ + text("usage: set r|a|b|c|d l|h|z"),
{
    if args.len() == 3 && args[1] == 32 {
        match (set_target_of(args[0]), set_value_of(args[2])) {
            (Some((line, line_name)), Some((state, state_name))) => {
                match line {
                    Line::Reset => ctl_pins.set_reset(state),
                    Line::A => ctl_pins.set_ctl_a(state),
                    Line::B => ctl_pins.set_ctl_b(state),
                    Line::C => ctl_pins.set_ctl_c(state),
                    Line::D => ctl_pins.set_ctl_d(state),
                }
                push_text(response, "Set ");
                push_text(response, line_name);
                push_text(response, " to ");
                push_text(response, state_name);
            },
            _ => write_set_usage(response),
        }
    } else {
        write_set_usage(response);
    }
}

/// The power action that a `power` argument names.
pub open spec fn power_word(args: Seq<u8>) -> Option<PowerAction> {
    if args == text("on") {
        Some(PowerAction::On)
    } else if args == text("off") {
        Some(PowerAction::Off)
    } else if args == text("force-off") {
        Some(PowerAction::ForceOff)
    } else if args == text("force-on") {
        Some(PowerAction::ForceOn)
    } else if args == text("rescue") {
        Some(PowerAction::Rescue)
    } else {
        None
    }
}

pub open spec fn power_reply(action: Option<PowerAction>) -> Seq<u8> {
    match action {
        Some(PowerAction::On) => text("Device powered on"),
        Some(PowerAction::Off) => text("Device powered off"),
        Some(PowerAction::ForceOff) => text("Device forced off"),
        Some(PowerAction::ForceOn) => text("Device forced on"),
        Some(PowerAction::Rescue) => text("Device powered on to rescue"),
        None => text("usage: power on|off|force-on|force-off|rescue"),
    }
}

/// `power on|off|force-on|force-off|rescue`, with the sequences of the
/// current record.
pub fn handle_power_cmd<F: FlashRegion, C: CTLPinsTrait>(
    response: &mut Vec<u8>,
    args: &[u8],
    ctlpins: &mut C,
    config: &ConfigArea<F>,
)
    requires
        config.wf(),
    ensures
        exists|cur: ConfigBlock| #[trigger]
            reads_as(config.region(), cur) && final(ctlpins).engine() == power_step(
                old(ctlpins).engine(),
                power_word(args@),
                cur,
            ),
        final(response)@ == old(response)@ + power_reply(power_word(args@)),
{
    let cur = config.get();
    if is_word(args, "on") {
        ctlpins.power_on(&cur.power_on);
        push_text(response, "Device powered on");
    } else if is_word(args, "off") {
        ctlpins.power_off(&cur.power_off);
        push_text(response, "Device powered off");
    } else if is_word(args, "force-off") {
        ctlpins.power_off(&[]);
        push_text(response, "Device forced off");
    } else if is_word(args, "force-on") {
        ctlpins.power_on(&[]);
        push_text(response, "Device forced on");
    } else if is_word(args, "rescue") {
        ctlpins.power_on(&cur.power_rescue);
        push_text(response, "Device powered on to rescue");
    } else {
        push_text(response, "usage: power on|off|force-on|force-off|rescue");
    }
    assert(reads_as(config.region(), cur));
}

pub open spec fn is_ascii_ws(c: u8) -> bool {
    c == 32 || c == 9 || c == 10 || c == 12 || c == 13
}

/// The first position at or after `i` that is not ASCII whitespace.
pub open spec fn skip_ws(s: Seq<u8>, i: int) -> int
    decreases s.len() - i,
{
    if 0 <= i < s.len() && is_ascii_ws(s[i]) {
        skip_ws(s, i + 1)
    } else {
        i
    }
}

/// The first position at or after `i` that is ASCII whitespace.
pub open spec fn word_end(s: Seq<u8>, i: int) -> int
    decreases s.len() - i,
{
    if 0 <= i < s.len() && !is_ascii_ws(s[i]) {
        word_end(s, i + 1)
    } else {
        i
    }
}

/// The first whitespace-separated word of `s`, if any.
pub open spec fn first_word(s: Seq<u8>) -> Option<Seq<u8>> {
    let a = skip_ws(s, 0);
    if a < s.len() {
        Some(s.subrange(a, word_end(s, a)))
    } else {
        None
    }
}

/// The second whitespace-separated word of `s`, or nothing.
pub open spec fn second_word(s: Seq<u8>) -> Seq<u8> {
    let c = skip_ws(s, word_end(s, skip_ws(s, 0)));
    if c < s.len() {
        s.subrange(c, word_end(s, c))
    } else {
        Seq::<u8>::empty()
    }
}

proof fn lemma_skip_ws(s: Seq<u8>, i: int)
    requires
        0 <= i <= s.len(),
    ensures
        i <= skip_ws(s, i) <= s.len(),
    decreases s.len() - i,
{
    if i < s.len() && is_ascii_ws(s[i]) {
        lemma_skip_ws(s, i + 1);
    }
}

proof fn lemma_word_end(s: Seq<u8>, i: int)
    requires
        0 <= i <= s.len(),
    ensures
        i <= word_end(s, i) <= s.len(),
    decreases s.len() - i,
{
    if i < s.len() && !is_ascii_ws(s[i]) {
        lemma_word_end(s, i + 1);
    }
}

fn ascii_ws(c: u8) -> (r: bool)
    ensures
        r == is_ascii_ws(c),
{
    c == 32 || c == 9 || c == 10 || c == 12 || c == 13
}

fn skip_whitespace(s: &[u8], from: usize) -> (r: usize)
    requires
        from <= s@.len(),
    ensures
        r == skip_ws(s@, from as int),
        r <= s@.len(),
{
    let mut i = from;
    while i < s.len() && ascii_ws(s[i])
        invariant
            from <= i <= s@.len(),
            skip_ws(s@, from as int) == skip_ws(s@, i as int),
        decreases s@.len() - i,
    {
        i = i + 1;
    }
    i
}

fn end_of_word(s: &[u8], from: usize) -> (r: usize)
    requires
        from <= s@.len(),
    ensures
        r == word_end(s@, from as int),
        from <= r <= s@.len(),
{
    let mut i = from;
    while i < s.len() && !ascii_ws(s[i])
        invariant
            from <= i <= s@.len(),
            word_end(s@, from as int) == word_end(s@, i as int),
        decreases s@.len() - i,
    {
        i = i + 1;
    }
    i
}

/// The record field that a `set-config` or `get-config` word names.
pub open spec fn config_word(w: Seq<u8>) -> Option<ConfigKey> {
    if w == text("name") {
        Some(ConfigKey::Name)
    } else if w == text("tags") {
        Some(ConfigKey::Tags)
    } else if w == text("json") {
        Some(ConfigKey::Json)
    } else if w == text("usb_console") {
        Some(ConfigKey::UsbConsole)
    } else if w == text("power_on") {
        Some(ConfigKey::PowerOn)
    } else if w == text("power_off") {
        Some(ConfigKey::PowerOff)
    } else if w == text("power_rescue") {
        Some(ConfigKey::PowerRescue)
    } else {
        None
    }
}

fn config_key_of(w: &[u8]) -> (r: Option<ConfigKey>)
    ensures
        r == config_word(w@),
{
    if is_word(w, "name") {
        Some(ConfigKey::Name)
    } else if is_word(w, "tags") {
        Some(ConfigKey::Tags)
    } else if is_word(w, "json") {
        Some(ConfigKey::Json)
    } else if is_word(w, "usb_console") {
        Some(ConfigKey::UsbConsole)
    } else if is_word(w, "power_on") {
        Some(ConfigKey::PowerOn)
    } else if is_word(w, "power_off") {
        Some(ConfigKey::PowerOff)
    } else if is_word(w, "power_rescue") {
        Some(ConfigKey::PowerRescue)
    } else {
        None
    }
}

/// The key of a `set-config` command, if its first word names a field.
pub open spec fn set_config_key(args: Seq<u8>) -> Option<ConfigKey> {
    match first_word(args) {
        Some(w) => config_word(w),
        None => None,
    }
}

/// `set-config <field> [value]`: writes the field (cleared when no value
/// is given) into a new record.
pub fn handle_set_config_cmd<F: FlashRegion>(
    response: &mut Vec<u8>,
    args: &[u8],
    config: &mut ConfigArea<F>,
)
    requires
        old(config).wf(),
    ensures
        final(config).wf(),
        set_config_key(args@) is None ==> final(config).region() == old(config).region() && final(
        response)@ == old(response)@ + text(
            "usage: set-config name|tags|storage|usb_storage value",
        ),
        set_config_key(args@) is Some ==> (exists|cur: ConfigBlock, new: ConfigBlock|
            #[trigger] field_set(cur, set_config_key(args@)->Some_0, second_word(args@), new)
                && reads_as(old(config).region(), cur) && write_outcome(
                old(config).region(),
                final(config).region(),
                encode(new),
            )) && final(response)@ == old(response)@ + text("Set ") + first_word(args@)->Some_0
            + text(" to ") + second_word(args@),
{
    let a = skip_whitespace(args, 0);
    let b = end_of_word(args, a);
    let c = skip_whitespace(args, b);
    let d = end_of_word(args, c);
    let key_word = slice_subrange(args, a, b);
    let value: &[u8] = if c < args.len() {
        slice_subrange(args, c, d)
    } else {
        &[]
    };
    assert(value@ == second_word(args@));
    let key = if a < args.len() {
        config_key_of(key_word)
    } else {
        None
    };
    match key {
        Some(k) => {
            let ghost r0 = config.region();
            let cur = config.get();
            let next = with_field(cur, k, value);
            let _ = config.write_config(&next);
            push_text(response, "Set ");
            push_bytes(response, key_word);
            push_text(response, " to ");
            push_bytes(response, value);
            assert(field_set(cur, set_config_key(args@)->Some_0, second_word(args@), next));
            assert(reads_as(r0, cur));
        },
        None => {
            push_text(response, "usage: set-config name|tags|storage|usb_storage value");
        },
    }
}

/// Every field of `cfg`, one labelled line each.
pub open spec fn all_fields_text(cfg: ConfigBlock) -> Seq<u8> {
    text("name: ") + trimmed_text(cfg.name@) + text("\r\ntags: ") + trimmed_text(cfg.tags@) + text(
        "\r\njson: ",
    ) + trimmed_text(cfg.json@) + text("\r\nusb_console: ") + trimmed_text(cfg.usb_console@) + text(
        "\r\npower_on: ",
    ) + trimmed_text(cfg.power_on@) + text("\r\npower_off: ") + trimmed_text(cfg.power_off@) + text(
        "\r\npower_rescue: ",
    ) + trimmed_text(cfg.power_rescue@)
}

#[verifier::rlimit(50)]
fn write_all_fields(response: &mut Vec<u8>, cfg: &ConfigBlock)
    ensures
        final(response)@ == old(response)@ + all_fields_text(*cfg),
{
    push_text(response, "name: ");
    write_u8(response, &cfg.name);
    push_text(response, "\r\ntags: ");
    write_u8(response, &cfg.tags);
    push_text(response, "\r\njson: ");
    write_u8(response, &cfg.json);
    push_text(response, "\r\nusb_console: ");
    write_u8(response, &cfg.usb_console);
    push_text(response, "\r\npower_on: ");
    write_u8(response, &cfg.power_on);
    push_text(response, "\r\npower_off: ");
    write_u8(response, &cfg.power_off);
    push_text(response, "\r\npower_rescue: ");
    write_u8(response, &cfg.power_rescue);
    assert(response@ =~= old(response)@ + all_fields_text(*cfg));
}

/// The reply of a `get-config` command on the record `cfg`.
pub open spec fn get_config_text(args: Seq<u8>, cfg: ConfigBlock) -> Seq<u8> {
    if args == text("name") {
        trimmed_text(cfg.name@)
    } else if args == text("tags") {
        trimmed_text(cfg.tags@)
    } else if args == text("json") {
        trimmed_text(cfg.json@)
    } else if args == text("usb_console") {
        trimmed_text(cfg.usb_console@)
    } else if args == text("power_on") {
        trimmed_text(cfg.power_on@)
    } else if args == text("power_off") {
        trimmed_text(cfg.power_off@)
    } else if args == text("power_rescue") {
        trimmed_text(cfg.power_rescue@)
    } else if args.len() == 0 {
        all_fields_text(cfg)
    } else {
        text(
            "usage: get-config [name|tags|json|usb_console|power_on|power_off|power_rescue]",
        )
    }
}

/// `get-config [field]`: one field of the current record, or all of them.
pub fn handle_get_config_cmd<F: FlashRegion>(
    response: &mut Vec<u8>,
    args: &[u8],
    config: &ConfigArea<F>,
)
    requires
        config.wf(),
    ensures
        exists|cur: ConfigBlock| #[trigger]
            reads_as(config.region(), cur) && final(response)@ == old(response)@
                + get_config_text(args@, cur),
{
    let cfg = config.get();
    if is_word(args, "name") {
        write_u8(response, &cfg.name);
    } else if is_word(args, "tags") {
        write_u8(response, &cfg.tags);
    } else if is_word(args, "json") {
        write_u8(response, &cfg.json);
    } else if is_word(args, "usb_console") {
        write_u8(response, &cfg.usb_console);
    } else if is_word(args, "power_on") {
        write_u8(response, &cfg.power_on);
    } else if is_word(args, "power_off") {
        write_u8(response, &cfg.power_off);
    } else if is_word(args, "power_rescue") {
        write_u8(response, &cfg.power_rescue);
    } else if args.len() == 0 {
        write_all_fields(response, &cfg);
    } else {
        push_text(
            response,
            "usage: get-config [name|tags|json|usb_console|power_on|power_off|power_rescue]",
        );
    }
    assert(reads_as(config.region(), cfg));
}

pub const SHELL_PROMPT: &'static str = "#> ";

pub const CR: &'static str = "\r\n";

pub const HELP: &'static str = "\r\n\
        about               : print information about this device\r\n\
        clear               : clear the screen\r\n\
        help                : print this help\r\n\
        meter on|read|off   : read power consumption\r\n\
        monitor on|off      : enable or disable the serial console monitor in this terminal\r\n\
        console             : enter into serial console mode, exit with CTRL+A 5 times\r\n\
        power on|off        : power on or off the DUT\r\n\
        send string         : send string to the DUT\r\n\
        set r|a|b|c|d l|h|z : set RESET, CTL_A,B,C or D to low, high or high impedance\r\n\
        set-config name|tags|json|usb_console|poweron|poweroff value : set the config value in flash\r\n\
        get-config          : print all the config parameters\r\n\
        status              : print status of the device\r\n\
        storage dut|host|off: connect storage to DUT, host or disconnect\r\n\
        version             : print version information\r\n\
        ";

pub const ABOUT: &'static str = "\r\n\
        Jumpstarter test-harness version: ";

pub const ABOUT_CONTINUATION: &'static str = "\r\n\r\n\
          This is a device for testing images and power consumption of Edge devices in CI or\r\n\
          development, made as Open Hardware, designed to be used with the jumpstarter project.\r\n\
          more information can be found here:\r\n\r\n\
              https://github.com/redhat-et/jumpstarter\r\n\
        ";

/// The console commands.
#[derive(Clone, Copy, PartialEq, Eq, Structural, Debug)]
pub enum Command {
    About,
    Help,
    Clear,
    Console,
    Monitor,
    Meter,
    Storage,
    Power,
    Send,
    SetLine,
    SetConfig,
    GetConfig,
    Status,
    Version,
    Empty,
    Unsupported,
}

pub open spec fn command_of(cmd: Seq<u8>) -> Command {
    if cmd == text("about") {
        Command::About
    } else if cmd == text("help") {
        Command::Help
    } else if cmd == text("clear") {
        Command::Clear
    } else if cmd == text("console") {
        Command::Console
    } else if cmd == text("monitor") {
        Command::Monitor
    } else if cmd == text("meter") {
        Command::Meter
    } else if cmd == text("storage") {
        Command::Storage
    } else if cmd == text("power") {
        Command::Power
    } else if cmd == text("send") {
        Command::Send
    } else if cmd == text("set") {
        Command::SetLine
    } else if cmd == text("set-config") {
        Command::SetConfig
    } else if cmd == text("get-config") {
        Command::GetConfig
    } else if cmd == text("status") {
        Command::Status
    } else if cmd == text("version") {
        Command::Version
    } else if cmd.len() == 0 {
        Command::Empty
    } else {
        Command::Unsupported
    }
}

pub fn parse_command(cmd: &[u8]) -> (r: Command)
    ensures
        r == command_of(cmd@),
{
    if is_word(cmd, "about") {
        Command::About
    } else if is_word(cmd, "help") {
        Command::Help
    } else if is_word(cmd, "clear") {
        Command::Clear
    } else if is_word(cmd, "console") {
        Command::Console
    } else if is_word(cmd, "monitor") {
        Command::Monitor
    } else if is_word(cmd, "meter") {
        Command::Meter
    } else if is_word(cmd, "storage") {
        Command::Storage
    } else if is_word(cmd, "power") {
        Command::Power
    } else if is_word(cmd, "send") {
        Command::Send
    } else if is_word(cmd, "set") {
        Command::SetLine
    } else if is_word(cmd, "set-config") {
        Command::SetConfig
    } else if is_word(cmd, "get-config") {
        Command::GetConfig
    } else if is_word(cmd, "status") {
        Command::Status
    } else if is_word(cmd, "version") {
        Command::Version
    } else if cmd.len() == 0 {
        Command::Empty
    } else {
        Command::Unsupported
    }
}

/// Runs one console command. `help`, `clear` and unknown commands write
/// to the terminal itself, which the caller does on the returned command;
/// every other reply goes to `response`.
pub fn handle_command<F: FlashRegion, C: CTLPinsTrait, S: StorageSwitchTrait>(
    cmd: &[u8],
    args: &[u8],
    response: &mut Vec<u8>,
    shell_status: &mut ShellStatus,
    storage: &mut S,
    ctl_pins: &mut C,
    to_dut: &mut Vec<u8>,
    telemetry: &Telemetry,
    config: &mut ConfigArea<F>,
) -> (r: Command)
    requires
        old(config).wf(),
    ensures
        r == command_of(cmd@),
        final(config).wf(),
        r != Command::SetConfig ==> final(config).region() == old(config).region(),
        r != Command::Power && r != Command::SetLine ==> final(ctl_pins).engine() == old(ctl_pins).engine(),
        r != Command::Storage ==> final(storage).issued() == old(storage).issued(),
        r != Command::Send ==> final(to_dut)@ == old(to_dut)@,
        r != Command::Console && r != Command::Monitor && r != Command::Meter ==> *final(shell_status) == *old(shell_status),
        r == Command::Help || r == Command::Clear || r == Command::Empty || r
            == Command::Unsupported ==> final(response)@ == old(response)@,
        r == Command::About ==> final(response)@ == old(response)@ + text(ABOUT) + version_text()
            + text(ABOUT_CONTINUATION),
        r == Command::Version ==> final(response)@ == old(response)@ + version_text(),
        r == Command::Console ==> *final(shell_status) == console_spec(args@, *old(shell_status)).0
            && final(response)@ == old(response)@ + console_spec(args@, *old(shell_status)).1,
        r == Command::Monitor ==> *final(shell_status) == monitor_spec(args@, *old(shell_status)).0
            && final(response)@ == old(response)@ + monitor_spec(args@, *old(shell_status)).1,
        r == Command::Meter ==> *final(shell_status) == meter_spec(
            args@,
            *old(shell_status),
            *telemetry,
        ).0 && final(response)@ == old(response)@ + meter_spec(
            args@,
            *old(shell_status),
            *telemetry,
        ).1,
        r == Command::Status ==> final(response)@ == old(response)@ + status_spec(
            args@,
            *old(shell_status),
        ),
        r == Command::Storage ==> final(storage).issued() == old(storage).issued()
            + storage_cmd_spec(args@).0 && final(response)@ == old(response)@ + storage_cmd_spec(
            args@,
        ).1,
        r == Command::Power ==> (exists|cur: ConfigBlock| #[trigger]
            reads_as(old(config).region(), cur) && final(ctl_pins).engine() == power_step(
                old(ctl_pins).engine(),
                power_word(args@),
                cur,
            )) && final(response)@ == old(response)@ + power_reply(power_word(args@)),
        r == Command::Send ==> (args@.len() > 0 ==> final(to_dut)@ == old(to_dut)@ + args@
            && final(response)@ == old(response)@) && (args@.len() == 0 ==> final(to_dut)@ == old(to_dut)@ && final(response)@ == old(response)@ + text("usage: send string")),
        r == Command::SetLine && set_args_ok(args@) ==> final(ctl_pins).engine() == set_spec(
            old(ctl_pins).engine(),
            set_target(args@[0])->Some_0.0,
            set_value(args@[2])->Some_0.0,
        ) && final(response)@ == old(response)@ + text("Set ") + set_target(args@[0])->Some_0.1
            + text(" to ") + set_value(args@[2])->Some_0.1,
        r == Command::SetLine && !set_args_ok(args@) ==> final(ctl_pins).engine() == old(ctl_pins).engine() && final(response)@ == old(response)@ + text("usage: set r|a|b|c|d l|h|z"),
        r == Command::SetConfig && set_config_key(args@) is None ==> final(config).region() == old(config).region() && final(response)@ == old(response)@ + text(
            "usage: set-config name|tags|storage|usb_storage value",
        ),
        r == Command::SetConfig && set_config_key(args@) is Some ==> (exists|
            cur: ConfigBlock,
            new: ConfigBlock,
        |
            #[trigger] field_set(cur, set_config_key(args@)->Some_0, second_word(args@), new)
                && reads_as(old(config).region(), cur) && write_outcome(
                old(config).region(),
                final(config).region(),
                encode(new),
            )) && final(response)@ == old(response)@ + text("Set ") + first_word(args@)->Some_0
            + text(" to ") + second_word(args@),
        r == Command::GetConfig ==> exists|cur: ConfigBlock| #[trigger]
            reads_as(old(config).region(), cur) && final(response)@ == old(response)@
                + get_config_text(args@, cur),
{
    let command = parse_command(cmd);
    match command {
        Command::About => {
            push_text(response, ABOUT);
            write_version(response);
            push_text(response, ABOUT_CONTINUATION);
        },
        Command::Console => handle_console_cmd(response, args, shell_status),
        Command::Monitor => handle_monitor_cmd(response, args, shell_status),
        Command::Meter => handle_meter_cmd(response, args, shell_status, telemetry),
        Command::Storage => handle_storage_cmd(response, args, storage),
        Command::Power => handle_power_cmd(response, args, ctl_pins, config),
        Command::Send => handle_send_cmd(response, args, to_dut),
        Command::SetLine => handle_set_cmd(response, args, ctl_pins),
        Command::SetConfig => handle_set_config_cmd(response, args, config),
        Command::GetConfig => handle_get_config_cmd(response, args, config),
        Command::Status => handle_status_cmd(response, args, shell_status),
        Command::Version => write_version(response),
        _ => {},
    }
    command
}

/// Ends a reply: a line break after any text beyond the leading one, then
/// the prompt unless console mode was entered.
pub fn finish_response(response: &mut Vec<u8>, console_mode: bool)
    ensures
        final(response)@ == old(response)@ + (if old(response)@.len() > 2 {
            text(CR)
        } else {
            Seq::<u8>::empty()
        }) + (if console_mode {
            Seq::<u8>::empty()
        } else {
            text(SHELL_PROMPT)
        }),
{
    if response.len() > 2 {
        push_text(response, CR);
    }
    if !console_mode {
        push_text(response, SHELL_PROMPT);
    }
    assert(response@ =~= old(response)@ + (if old(response)@.len() > 2 {
        text(CR)
    } else {
        Seq::<u8>::empty()
    }) + (if console_mode {
        Seq::<u8>::empty()
    } else {
        text(SHELL_PROMPT)
    }));
}

} // verus!
