//! The control protocol's requests and the mailbox that stages them.
//!
//! Producers (the USB control handler, the console) stage a request per
//! category; a staged request replaces any earlier one of its category that
//! was not yet applied. One pass from a safe context then takes every
//! pending request and applies it, in the order Config, Power, Storage,
//! Pin, Refresh.

use vstd::prelude::*;
use crate::config::{
    fit, reads_as, write_outcome, encode, ConfigArea, ConfigBlock, FlashRegion, JSON_LEN, NAME_LEN,
    SEQUENCE_LEN, TAGS_LEN, USB_CONSOLE_LEN,
};
use crate::ctlpins::{
    power_off_spec, power_on_spec, set_spec, CTLPinsTrait, EngineState, Line, PinState,
};
use crate::storage::{connect_dut_ops, connect_host_ops, power_off_ops, StorageOp, StorageSwitchTrait};
use crate::bytes::push_bytes;
use crate::version::{version_text, write_version};

verus! {

/// Largest configuration value that a request can carry.
pub const MAX_CONFIG_LENGTH: usize = 256;

#[verifier::external_type_specification]
#[verifier::external_body]
#[verifier::reject_recursive_types(T)]
pub struct ExHeaplessVec<T, const N: usize>(heapless::Vec<T, N>);

/// The bytes that a staged configuration value holds.
pub uninterp spec fn payload_bytes(v: heapless::Vec<u8, MAX_CONFIG_LENGTH>) -> Seq<u8>;

/// Relies on heapless::Vec::from_slice: it fails when the bytes exceed the
/// capacity, and otherwise holds exactly them.
#[verifier::external_body]
fn payload_from_slice(data: &[u8]) -> (r: Result<heapless::Vec<u8, MAX_CONFIG_LENGTH>, ()>)
    ensures
        r is Ok <==> data@.len() <= MAX_CONFIG_LENGTH,
        r is Ok ==> payload_bytes(r->Ok_0) == data@,
{
    heapless::Vec::from_slice(data)
}

/// Relies on heapless::Vec::as_slice: the bytes held, in order.
#[verifier::external_body]
fn payload_as_slice(v: &heapless::Vec<u8, MAX_CONFIG_LENGTH>) -> (r: &[u8])
    ensures
        r@ == payload_bytes(*v),
{
    v.as_slice()
}

#[derive(Clone, Copy, PartialEq, Eq, Structural, Debug)]
pub enum ControlRequest {
    Refresh,
    Power,
    Storage,
    Config,
    Read,
    SetPin,
}

#[derive(Clone, Copy, PartialEq, Eq, Structural, Debug)]
pub enum PowerAction {
    Off,
    On,
    ForceOff,
    ForceOn,
    Rescue,
}

#[derive(Clone, Copy, PartialEq, Eq, Structural, Debug)]
pub enum StorageAction {
    Off,
    Host,
    DUT,
}

#[derive(Clone, Copy, PartialEq, Eq, Structural, Debug)]
pub enum ConfigKey {
    Name,
    Tags,
    UsbConsole,
    PowerOn,
    PowerOff,
    PowerRescue,
    Json,
}

#[derive(Clone, Copy, PartialEq, Eq, Structural, Debug)]
pub enum ReadKey {
    Version,
    Power,
    Voltage,
    Current,
}

#[derive(Clone, Copy, PartialEq, Eq, Structural, Debug)]
pub enum SetPin {
    Reset,
    A,
    B,
    C,
    D,
}

#[derive(Clone, Copy, PartialEq, Eq, Structural, Debug)]
pub enum SetPinState {
    Low,
    High,
    Floating,
}

pub open spec fn spec_control_request(v: u8) -> Option<ControlRequest> {
    if v == 0 {
        Some(ControlRequest::Refresh)
    } else if v == 1 {
        Some(ControlRequest::Power)
    } else if v == 2 {
        Some(ControlRequest::Storage)
    } else if v == 3 {
        Some(ControlRequest::Config)
    } else if v == 4 {
        Some(ControlRequest::Read)
    } else if v == 5 {
        Some(ControlRequest::SetPin)
    } else {
        None
    }
}

pub open spec fn spec_power_action(v: u16) -> Option<PowerAction> {
    if v == 0 {
        Some(PowerAction::Off)
    } else if v == 1 {
        Some(PowerAction::On)
    } else if v == 2 {
        Some(PowerAction::ForceOff)
    } else if v == 3 {
        Some(PowerAction::ForceOn)
    } else if v == 4 {
        Some(PowerAction::Rescue)
    } else {
        None
    }
}

pub open spec fn spec_storage_action(v: u16) -> Option<StorageAction> {
    if v == 0 {
        Some(StorageAction::Off)
    } else if v == 1 {
        Some(StorageAction::Host)
    } else if v == 2 {
        Some(StorageAction::DUT)
    } else {
        None
    }
}

pub open spec fn spec_config_key(v: u16) -> Option<ConfigKey> {
    if v == 0 {
        Some(ConfigKey::Name)
    } else if v == 1 {
        Some(ConfigKey::Tags)
    } else if v == 2 {
        Some(ConfigKey::UsbConsole)
    } else if v == 3 {
        Some(ConfigKey::PowerOn)
    } else if v == 4 {
        Some(ConfigKey::PowerOff)
    } else if v == 5 {
        Some(ConfigKey::PowerRescue)
    } else if v == 6 {
        Some(ConfigKey::Json)
    } else {
        None
    }
}

pub open spec fn spec_read_key(v: u16) -> Option<ReadKey> {
    if v == 0 {
        Some(ReadKey::Version)
    } else if v == 1 {
        Some(ReadKey::Power)
    } else if v == 2 {
        Some(ReadKey::Voltage)
    } else if v == 3 {
        Some(ReadKey::Current)
    } else {
        None
    }
}

pub open spec fn spec_set_pin(v: u16) -> Option<SetPin> {
    if v == 0 {
        Some(SetPin::Reset)
    } else if v == 1 {
        Some(SetPin::A)
    } else if v == 2 {
        Some(SetPin::B)
    } else if v == 3 {
        Some(SetPin::C)
    } else if v == 4 {
        Some(SetPin::D)
    } else {
        None
    }
}

pub open spec fn spec_set_pin_state(v: u8) -> Option<SetPinState> {
    if v == 0 {
        Some(SetPinState::Low)
    } else if v == 1 {
        Some(SetPinState::High)
    } else if v == 2 {
        Some(SetPinState::Floating)
    } else {
        None
    }
}

impl ControlRequest {
    pub fn from_u8(v: u8) -> (r: Option<Self>)
        ensures
            r == spec_control_request(v),
    {
        match v {
            0 => Some(ControlRequest::Refresh),
            1 => Some(ControlRequest::Power),
            2 => Some(ControlRequest::Storage),
            3 => Some(ControlRequest::Config),
            4 => Some(ControlRequest::Read),
            5 => Some(ControlRequest::SetPin),
            _ => None,
        }
    }
}

impl PowerAction {
    pub fn from_u16(v: u16) -> (r: Option<Self>)
        ensures
            r == spec_power_action(v),
    {
        match v {
            0 => Some(PowerAction::Off),
            1 => Some(PowerAction::On),
            2 => Some(PowerAction::ForceOff),
            3 => Some(PowerAction::ForceOn),
            4 => Some(PowerAction::Rescue),
            _ => None,
        }
    }
}

impl StorageAction {
    pub fn from_u16(v: u16) -> (r: Option<Self>)
        ensures
            r == spec_storage_action(v),
    {
        match v {
            0 => Some(StorageAction::Off),
            1 => Some(StorageAction::Host),
            2 => Some(StorageAction::DUT),
            _ => None,
        }
    }
}

impl ConfigKey {
    pub fn from_u16(v: u16) -> (r: Option<Self>)
        ensures
            r == spec_config_key(v),
    {
        match v {
            0 => Some(ConfigKey::Name),
            1 => Some(ConfigKey::Tags),
            2 => Some(ConfigKey::UsbConsole),
            3 => Some(ConfigKey::PowerOn),
            4 => Some(ConfigKey::PowerOff),
            5 => Some(ConfigKey::PowerRescue),
            6 => Some(ConfigKey::Json),
            _ => None,
        }
    }
}

impl ReadKey {
    pub fn from_u16(v: u16) -> (r: Option<Self>)
        ensures
            r == spec_read_key(v),
    {
        match v {
            0 => Some(ReadKey::Version),
            1 => Some(ReadKey::Power),
            2 => Some(ReadKey::Voltage),
            3 => Some(ReadKey::Current),
            _ => None,
        }
    }
}

impl SetPin {
    pub fn from_u16(v: u16) -> (r: Option<Self>)
        ensures
            r == spec_set_pin(v),
    {
        match v {
            0 => Some(SetPin::Reset),
            1 => Some(SetPin::A),
            2 => Some(SetPin::B),
            3 => Some(SetPin::C),
            4 => Some(SetPin::D),
            _ => None,
        }
    }
}

impl SetPinState {
    pub fn from_u8(v: u8) -> (r: Option<Self>)
        ensures
            r == spec_set_pin_state(v),
    {
        match v {
            0 => Some(SetPinState::Low),
            1 => Some(SetPinState::High),
            2 => Some(SetPinState::Floating),
            _ => None,
        }
    }
}

/// The categories of requests, in the order a pass applies them.
#[derive(Clone, Copy, PartialEq, Eq, Structural, Debug)]
pub enum Category {
    Config,
    Power,
    Storage,
    Pin,
    Refresh,
}

/// The pending requests, one optional slot per category.
pub struct Inbox {
    pub config: Option<(ConfigKey, Seq<u8>)>,
    pub power: Option<PowerAction>,
    pub storage: Option<StorageAction>,
    pub pin: Option<(SetPin, SetPinState)>,
    pub refresh: bool,
}

/// The categories that hold a request, in the order Config, Power, Storage,
/// Pin, Refresh.
pub open spec fn pending_order(i: Inbox) -> Seq<Category> {
    (if i.config is Some {
        seq![Category::Config]
    } else {
        Seq::empty()
    }) + (if i.power is Some {
        seq![Category::Power]
    } else {
        Seq::empty()
    }) + (if i.storage is Some {
        seq![Category::Storage]
    } else {
        Seq::empty()
    }) + (if i.pin is Some {
        seq![Category::Pin]
    } else {
        Seq::empty()
    }) + (if i.refresh {
        seq![Category::Refresh]
    } else {
        Seq::empty()
    })
}

pub open spec fn empty_inbox() -> Inbox {
    Inbox { config: None, power: None, storage: None, pin: None, refresh: false }
}

pub open spec fn stage_config_spec(i: Inbox, key: ConfigKey, value: Seq<u8>) -> Inbox {
    Inbox { config: Some((key, value)), ..i }
}

pub open spec fn stage_power_spec(i: Inbox, action: PowerAction) -> Inbox {
    Inbox { power: Some(action), ..i }
}

pub open spec fn stage_storage_spec(i: Inbox, action: StorageAction) -> Inbox {
    Inbox { storage: Some(action), ..i }
}

pub open spec fn stage_pin_spec(i: Inbox, pin: SetPin, state: SetPinState) -> Inbox {
    Inbox { pin: Some((pin, state)), ..i }
}

pub open spec fn stage_refresh_spec(i: Inbox) -> Inbox {
    Inbox { refresh: true, ..i }
}

/// A request staged before an earlier one of its category was applied
/// replaces it: the mailbox is as if only the later one had been staged.
pub proof fn lemma_coalescing(
    i: Inbox,
    first: PowerAction,
    second: PowerAction,
    s1: StorageAction,
    s2: StorageAction,
    p1: (SetPin, SetPinState),
    p2: (SetPin, SetPinState),
    k1: ConfigKey,
    v1: Seq<u8>,
    k2: ConfigKey,
    v2: Seq<u8>,
)
    ensures
        stage_power_spec(stage_power_spec(i, first), second) == stage_power_spec(i, second),
        stage_storage_spec(stage_storage_spec(i, s1), s2) == stage_storage_spec(i, s2),
        stage_pin_spec(stage_pin_spec(i, p1.0, p1.1), p2.0, p2.1) == stage_pin_spec(i, p2.0, p2.1),
        stage_config_spec(stage_config_spec(i, k1, v1), k2, v2) == stage_config_spec(i, k2, v2),
        stage_refresh_spec(stage_refresh_spec(i)) == stage_refresh_spec(i),
{
}

// ---------------------------------------------------------------------------
// Telemetry and its text form.

/// Power, voltage and current, each in hundredths of its unit (W, V, A).
#[derive(Clone, Copy, PartialEq, Eq, Structural, Debug)]
pub struct Telemetry {
    pub power: i32,
    pub voltage: i32,
    pub current: i32,
}

pub open spec fn digit(d: nat) -> u8 {
    (48 + d) as u8
}

/// The decimal digits of `n`.
pub open spec fn decimal_text(n: nat) -> Seq<u8>
    decreases n,
{
    if n < 10 {
        seq![digit(n)]
    } else {
        decimal_text(n / 10).push(digit(n % 10))
    }
}

pub open spec fn magnitude(v: int) -> nat {
    if v < 0 {
        (-v) as nat
    } else {
        v as nat
    }
}

/// A value of hundredths written with two decimals: `-1.05` for -105.
pub open spec fn fixed2_text(v: int) -> Seq<u8> {
    (if v < 0 {
        seq![45u8]
    } else {
        Seq::<u8>::empty()
    }) + decimal_text(magnitude(v) / 100) + seq![
        46u8,
        digit((magnitude(v) % 100) / 10),
        digit(magnitude(v) % 10),
    ]
}

/// Appends the decimal digits of `n`.
pub fn push_decimal(out: &mut Vec<u8>, n: u32)
    ensures
        final(out)@ == old(out)@ + decimal_text(n as nat),
    decreases n,
{
    if n >= 10 {
        push_decimal(out, n / 10);
    }
    out.push((48 + n % 10) as u8);
    assert(out@ =~= old(out)@ + decimal_text(n as nat));
}

/// Appends a value of hundredths with two decimals.
pub fn push_fixed2(out: &mut Vec<u8>, v: i32)
    ensures
        final(out)@ == old(out)@ + fixed2_text(v as int),
{
    let m: u32 = if v < 0 {
        (0i64 - v as i64) as u32
    } else {
        v as u32
    };
    if v < 0 {
        out.push(45);
    }
    let ghost o1 = out@;
    push_decimal(out, m / 100);
    out.push(46);
    out.push((48 + (m % 100) / 10) as u8);
    out.push((48 + m % 10) as u8);
    assert(out@ =~= old(out)@ + fixed2_text(v as int));
}

/// The text a read request returns.
pub open spec fn read_text(key: ReadKey, t: Telemetry) -> Seq<u8> {
    match key {
        ReadKey::Version => version_text(),
        ReadKey::Power => fixed2_text(t.power as int) + seq![87u8, 32u8] + fixed2_text(
            t.voltage as int,
        ) + seq![86u8, 32u8] + fixed2_text(t.current as int) + seq![65u8],
        ReadKey::Voltage => fixed2_text(t.voltage as int) + seq![86u8],
        ReadKey::Current => fixed2_text(t.current as int) + seq![65u8],
    }
}

/// The text of a read request: the version, or readings such as
/// `12.00W 5.00V 2.40A`.
pub fn read_response(key: ReadKey, t: &Telemetry) -> (r: Vec<u8>)
    ensures
        r@ == read_text(key, *t),
{
    let mut out: Vec<u8> = Vec::new();
    match key {
        ReadKey::Version => {
            write_version(&mut out);
        },
        ReadKey::Power => {
            push_fixed2(&mut out, t.power);
            out.push(87);
            out.push(32);
            push_fixed2(&mut out, t.voltage);
            out.push(86);
            out.push(32);
            push_fixed2(&mut out, t.current);
            out.push(65);
        },
        ReadKey::Voltage => {
            push_fixed2(&mut out, t.voltage);
            out.push(86);
        },
        ReadKey::Current => {
            push_fixed2(&mut out, t.current);
            out.push(65);
        },
    }
    assert(out@ =~= read_text(key, *t));
    out
}

// ---------------------------------------------------------------------------
// Records and the requests that change them.

/// The field of a record that a key names.
pub open spec fn field_bytes(cfg: ConfigBlock, key: ConfigKey) -> Seq<u8> {
    match key {
        ConfigKey::Name => cfg.name@,
        ConfigKey::Tags => cfg.tags@,
        ConfigKey::UsbConsole => cfg.usb_console@,
        ConfigKey::PowerOn => cfg.power_on@,
        ConfigKey::PowerOff => cfg.power_off@,
        ConfigKey::PowerRescue => cfg.power_rescue@,
        ConfigKey::Json => cfg.json@,
    }
}

/// `new` is `cur` with the field named by `key` set to `v`, cut or
/// zero-padded to its width.
pub open spec fn field_set(cur: ConfigBlock, key: ConfigKey, v: Seq<u8>, new: ConfigBlock) -> bool {
    match key {
        ConfigKey::Name => new == (ConfigBlock { name: new.name, ..cur }) && new.name@ == fit(
            v,
            NAME_LEN as nat,
        ),
        ConfigKey::Tags => new == (ConfigBlock { tags: new.tags, ..cur }) && new.tags@ == fit(
            v,
            TAGS_LEN as nat,
        ),
        ConfigKey::UsbConsole => new == (ConfigBlock { usb_console: new.usb_console, ..cur })
            && new.usb_console@ == fit(v, USB_CONSOLE_LEN as nat),
        ConfigKey::PowerOn => new == (ConfigBlock { power_on: new.power_on, ..cur })
            && new.power_on@ == fit(v, SEQUENCE_LEN as nat),
        ConfigKey::PowerOff => new == (ConfigBlock { power_off: new.power_off, ..cur })
            && new.power_off@ == fit(v, SEQUENCE_LEN as nat),
        ConfigKey::PowerRescue => new == (ConfigBlock { power_rescue: new.power_rescue, ..cur })
            && new.power_rescue@ == fit(v, SEQUENCE_LEN as nat),
        ConfigKey::Json => new == (ConfigBlock { json: new.json, ..cur }) && new.json@ == fit(
            v,
            JSON_LEN as nat,
        ),
    }
}

/// `cur` with the field named by `key` set to `value`.
pub fn with_field(cur: ConfigBlock, key: ConfigKey, value: &[u8]) -> (r: ConfigBlock)
    ensures
        field_set(cur, key, value@, r),
{
    match key {
        ConfigKey::Name => cur.set_name(value),
        ConfigKey::Tags => cur.set_tags(value),
        ConfigKey::UsbConsole => cur.set_usb_console(value),
        ConfigKey::PowerOn => cur.set_power_on(value),
        ConfigKey::PowerOff => cur.set_power_off(value),
        ConfigKey::PowerRescue => cur.set_power_rescue(value),
        ConfigKey::Json => cur.set_json(value),
    }
}

pub open spec fn pin_line(p: SetPin) -> Line {
    match p {
        SetPin::Reset => Line::Reset,
        SetPin::A => Line::A,
        SetPin::B => Line::B,
        SetPin::C => Line::C,
        SetPin::D => Line::D,
    }
}

pub open spec fn pin_state(s: SetPinState) -> PinState {
    match s {
        SetPinState::Low => PinState::Low,
        SetPinState::High => PinState::High,
        SetPinState::Floating => PinState::Floating,
    }
}

/// The engine after a pending power request, with the sequences of `cfg`.
pub open spec fn power_step(e: EngineState, action: Option<PowerAction>, cfg: ConfigBlock) -> EngineState {
    match action {
        None => e,
        Some(PowerAction::Off) => power_off_spec(e, cfg.power_off@),
        Some(PowerAction::On) => power_on_spec(e, cfg.power_on@),
        Some(PowerAction::ForceOff) => power_off_spec(e, Seq::<u8>::empty()),
        Some(PowerAction::ForceOn) => power_on_spec(e, Seq::<u8>::empty()),
        Some(PowerAction::Rescue) => power_on_spec(e, cfg.power_rescue@),
    }
}

/// The engine after a pending pin request.
pub open spec fn pin_step(e: EngineState, pin: Option<(SetPin, SetPinState)>) -> EngineState {
    match pin {
        None => e,
        Some((p, s)) => set_spec(e, pin_line(p), pin_state(s)),
    }
}

/// The switch operations of a pending storage request.
pub open spec fn storage_ops(action: Option<StorageAction>) -> Seq<StorageOp> {
    match action {
        None => Seq::<StorageOp>::empty(),
        Some(StorageAction::Off) => power_off_ops(),
        Some(StorageAction::Host) => connect_host_ops(),
        Some(StorageAction::DUT) => connect_dut_ops(),
    }
}

// ---------------------------------------------------------------------------
// The mailbox.

/// The status snapshot: telemetry and the record as of the last refresh.
#[derive(Clone, Copy)]
pub struct Data {
    pub telemetry: Telemetry,
    pub config: ConfigBlock,
}

pub struct ControlClass {
    config: Option<(ConfigKey, heapless::Vec<u8, MAX_CONFIG_LENGTH>)>,
    power: Option<PowerAction>,
    storage: Option<StorageAction>,
    pin: Option<(SetPin, SetPinState)>,
    refresh: bool,
    data: Data,
}

/// What a control-out request does to the mailbox: `None` when it is
/// rejected, and then nothing is staged.
pub open spec fn control_out_spec(i: Inbox, request: u8, value: u16, data: Seq<u8>) -> Option<Inbox> {
    match spec_control_request(request) {
        Some(ControlRequest::Refresh) => Some(stage_refresh_spec(i)),
        Some(ControlRequest::Power) => match spec_power_action(value) {
            Some(a) => Some(stage_power_spec(i, a)),
            None => None,
        },
        Some(ControlRequest::Storage) => match spec_storage_action(value) {
            Some(a) => Some(stage_storage_spec(i, a)),
            None => None,
        },
        Some(ControlRequest::Config) => match spec_config_key(value) {
            Some(k) => if data.len() <= MAX_CONFIG_LENGTH {
                Some(stage_config_spec(i, k, data))
            } else {
                None
            },
            None => None,
        },
        Some(ControlRequest::SetPin) => match spec_set_pin(value) {
            Some(p) => if data.len() > 0 && spec_set_pin_state(data[0]) is Some {
                Some(stage_pin_spec(i, p, spec_set_pin_state(data[0])->Some_0))
            } else {
                None
            },
            None => None,
        },
        _ => None,
    }
}

/// What a control-in request returns: `None` when it is rejected.
pub open spec fn control_in_spec(d: Data, request: u8, value: u16) -> Option<Seq<u8>> {
    match spec_control_request(request) {
        Some(ControlRequest::Config) => match spec_config_key(value) {
            Some(k) => Some(field_bytes(d.config, k)),
            None => None,
        },
        Some(ControlRequest::Read) => match spec_read_key(value) {
            Some(k) => Some(read_text(k, d.telemetry)),
            None => None,
        },
        _ => None,
    }
}

impl ControlClass {
    pub closed spec fn inbox(&self) -> Inbox {
        Inbox {
            config: match self.config {
                Some((k, v)) => Some((k, payload_bytes(v))),
                None => None,
            },
            power: self.power,
            storage: self.storage,
            pin: self.pin,
            refresh: self.refresh,
        }
    }

    pub closed spec fn snapshot(&self) -> Data {
        self.data
    }

    /// An empty mailbox and a zeroed snapshot.
    pub fn new() -> (r: Self)
        ensures
            r.inbox() == empty_inbox(),
            r.snapshot().telemetry == (Telemetry { power: 0, voltage: 0, current: 0 }),
            r.snapshot().config.is_blank(),
    {
        ControlClass {
            config: None,
            power: None,
            storage: None,
            pin: None,
            refresh: false,
            data: Data {
                telemetry: Telemetry { power: 0, voltage: 0, current: 0 },
                config: ConfigBlock::new(),
            },
        }
    }

    /// The status snapshot.
    pub fn data(&self) -> (r: &Data)
        ensures
            *r == self.snapshot(),
    {
        &self.data
    }

    /// Stages a configuration value; refused, with nothing staged, when it
    /// is longer than `MAX_CONFIG_LENGTH`.
    pub fn stage_config(&mut self, key: ConfigKey, value: &[u8]) -> (r: bool)
        ensures
            r == (value@.len() <= MAX_CONFIG_LENGTH),
            r ==> final(self).inbox() == stage_config_spec(old(self).inbox(), key, value@),
            !r ==> final(self).inbox() == old(self).inbox(),
            final(self).snapshot() == old(self).snapshot(),
    {
        match payload_from_slice(value) {
            Ok(v) => {
                self.config = Some((key, v));
                true
            },
            Err(_) => false,
        }
    }

    pub fn stage_power(&mut self, action: PowerAction)
        ensures
            final(self).inbox() == stage_power_spec(old(self).inbox(), action),
            final(self).snapshot() == old(self).snapshot(),
    {
        self.power = Some(action);
    }

    pub fn stage_storage(&mut self, action: StorageAction)
        ensures
            final(self).inbox() == stage_storage_spec(old(self).inbox(), action),
            final(self).snapshot() == old(self).snapshot(),
    {
        self.storage = Some(action);
    }

    pub fn stage_pin(&mut self, pin: SetPin, state: SetPinState)
        ensures
            final(self).inbox() == stage_pin_spec(old(self).inbox(), pin, state),
            final(self).snapshot() == old(self).snapshot(),
    {
        self.pin = Some((pin, state));
    }

    pub fn stage_refresh(&mut self)
        ensures
            final(self).inbox() == stage_refresh_spec(old(self).inbox()),
            final(self).snapshot() == old(self).snapshot(),
    {
        self.refresh = true;
    }

    /// Decides a control-out request: stages what it asks for and accepts
    /// it, or rejects it and stages nothing.
    pub fn control_out(&mut self, request: u8, value: u16, data: &[u8]) -> (accepted: bool)
        ensures
            accepted == control_out_spec(old(self).inbox(), request, value, data@) is Some,
            accepted ==> final(self).inbox() == control_out_spec(
                old(self).inbox(),
                request,
                value,
                data@,
            )->Some_0,
            !accepted ==> final(self).inbox() == old(self).inbox(),
            final(self).snapshot() == old(self).snapshot(),
    {
        match ControlRequest::from_u8(request) {
            Some(ControlRequest::Refresh) => {
                self.stage_refresh();
                true
            },
            Some(ControlRequest::Power) => match PowerAction::from_u16(value) {
                Some(a) => {
                    self.stage_power(a);
                    true
                },
                None => false,
            },
            Some(ControlRequest::Storage) => match StorageAction::from_u16(value) {
                Some(a) => {
                    self.stage_storage(a);
                    true
                },
                None => false,
            },
            Some(ControlRequest::Config) => match ConfigKey::from_u16(value) {
                Some(k) => self.stage_config(k, data),
                None => false,
            },
            Some(ControlRequest::SetPin) => match SetPin::from_u16(value) {
                Some(p) => {
                    if data.len() > 0 {
                        match SetPinState::from_u8(data[0]) {
                            Some(st) => {
                                self.stage_pin(p, st);
                                true
                            },
                            None => false,
                        }
                    } else {
                        false
                    }
                },
                None => false,
            },
            _ => false,
        }
    }

    /// Answers a control-in request from the snapshot, or rejects it.
    pub fn control_in(&self, request: u8, value: u16) -> (r: Option<Vec<u8>>)
        ensures
            r is Some == control_in_spec(self.snapshot(), request, value) is Some,
            r is Some ==> r->Some_0@ == control_in_spec(self.snapshot(), request, value)->Some_0,
    {
        match ControlRequest::from_u8(request) {
            Some(ControlRequest::Config) => match ConfigKey::from_u16(value) {
                Some(k) => {
                    let cfg = &self.data.config;
                    let mut out: Vec<u8> = Vec::new();
                    match k {
                        ConfigKey::Name => push_bytes(&mut out, &cfg.name),
                        ConfigKey::Tags => push_bytes(&mut out, &cfg.tags),
                        ConfigKey::UsbConsole => push_bytes(&mut out, &cfg.usb_console),
                        ConfigKey::PowerOn => push_bytes(&mut out, &cfg.power_on),
                        ConfigKey::PowerOff => push_bytes(&mut out, &cfg.power_off),
                        ConfigKey::PowerRescue => push_bytes(&mut out, &cfg.power_rescue),
                        ConfigKey::Json => push_bytes(&mut out, &cfg.json),
                    }
                    assert(out@ =~= field_bytes(self.data.config, k));
                    Some(out)
                },
                None => None,
            },
            Some(ControlRequest::Read) => match ReadKey::from_u16(value) {
                Some(k) => Some(read_response(k, &self.data.telemetry)),
                None => None,
            },
            _ => None,
        }
    }

    fn apply_config<F: FlashRegion>(&mut self, config: &mut ConfigArea<F>)
        requires
            old(config).wf(),
        ensures
            final(config).wf(),
            final(self).inbox() == (Inbox { config: None, ..old(self).inbox() }),
            final(self).snapshot() == old(self).snapshot(),
            old(self).inbox().config is None ==> final(config).region() == old(config).region(),
            old(self).inbox().config is Some ==> exists|cur: ConfigBlock, new: ConfigBlock|
                #[trigger] field_set(
                    cur,
                    old(self).inbox().config->Some_0.0,
                    old(self).inbox().config->Some_0.1,
                    new,
                ) && reads_as(old(config).region(), cur) && write_outcome(
                    old(config).region(),
                    final(config).region(),
                    encode(new),
                ),
    {
        let ghost r0 = config.region();
        let ghost pending = self.inbox().config;
        if let Some((key, value)) = self.config.take() {
            let cur = config.get();
            let next = with_field(cur, key, payload_as_slice(&value));
            let _ = config.write_config(&next);
            assert(pending == Some((key, payload_bytes(value))));
            assert(field_set(cur, pending->Some_0.0, pending->Some_0.1, next));
            assert(reads_as(r0, cur) && write_outcome(r0, config.region(), encode(next)));
        }
    }

    fn apply_power<F: FlashRegion, C: CTLPinsTrait>(&mut self, config: &ConfigArea<F>, ctlpins: &mut C)
        requires
            config.wf(),
        ensures
            final(self).inbox() == (Inbox { power: None, ..old(self).inbox() }),
            final(self).snapshot() == old(self).snapshot(),
            old(self).inbox().power is None ==> final(ctlpins).engine() == old(ctlpins).engine(),
            old(self).inbox().power is Some ==> exists|cur: ConfigBlock| #[trigger]
                reads_as(config.region(), cur) && final(ctlpins).engine() == power_step(
                    old(ctlpins).engine(),
                    old(self).inbox().power,
                    cur,
                ),
    {
        let power = self.power;
        self.power = None;
        match power {
            Some(action) => {
                let cur = config.get();
                match action {
                    PowerAction::Off => ctlpins.power_off(&cur.power_off),
                    PowerAction::On => ctlpins.power_on(&cur.power_on),
                    PowerAction::ForceOff => ctlpins.power_off(&[]),
                    PowerAction::ForceOn => ctlpins.power_on(&[]),
                    PowerAction::Rescue => ctlpins.power_on(&cur.power_rescue),
                }
                assert(reads_as(config.region(), cur));
            },
            None => {},
        }
    }

    fn apply_storage<S: StorageSwitchTrait>(&mut self, storage: &mut S)
        ensures
            final(self).inbox() == (Inbox { storage: None, ..old(self).inbox() }),
            final(self).snapshot() == old(self).snapshot(),
            final(storage).issued() == old(storage).issued() + storage_ops(old(self).inbox().storage),
    {
        let st = self.storage;
        self.storage = None;
        match st {
            Some(StorageAction::Off) => storage.power_off(),
            Some(StorageAction::Host) => storage.connect_to_host(),
            Some(StorageAction::DUT) => storage.connect_to_dut(),
            None => {
                assert(storage.issued() =~= old(storage).issued() + Seq::<StorageOp>::empty());
            },
        }
    }

    fn apply_pin<C: CTLPinsTrait>(&mut self, ctlpins: &mut C)
        ensures
            final(self).inbox() == (Inbox { pin: None, ..old(self).inbox() }),
            final(self).snapshot() == old(self).snapshot(),
            final(ctlpins).engine() == pin_step(old(ctlpins).engine(), old(self).inbox().pin),
    {
        let pin = self.pin;
        self.pin = None;
        match pin {
            Some((p, s)) => {
                let state = match s {
                    SetPinState::Low => PinState::Low,
                    SetPinState::High => PinState::High,
                    SetPinState::Floating => PinState::Floating,
                };
                match p {
                    SetPin::Reset => ctlpins.set_reset(state),
                    SetPin::A => ctlpins.set_ctl_a(state),
                    SetPin::B => ctlpins.set_ctl_b(state),
                    SetPin::C => ctlpins.set_ctl_c(state),
                    SetPin::D => ctlpins.set_ctl_d(state),
                }
            },
            None => {},
        }
    }

    fn apply_refresh<F: FlashRegion>(&mut self, config: &ConfigArea<F>, telemetry: Telemetry)
        requires
            config.wf(),
        ensures
            final(self).inbox() == (Inbox { refresh: false, ..old(self).inbox() }),
            old(self).inbox().refresh ==> final(self).snapshot().telemetry == telemetry && reads_as(
                config.region(),
                final(self).snapshot().config,
            ),
            !old(self).inbox().refresh ==> final(self).snapshot() == old(self).snapshot(),
    {
        if self.refresh {
            self.refresh = false;
            self.data = Data { telemetry, config: config.get() };
        }
    }

    /// Takes every pending request and applies it once, in the order
    /// Config, Power, Storage, Pin, Refresh, and returns that order. Power
    /// requests run the sequences of the record as stored after the Config
    /// step; a refresh stores `telemetry` and a fresh read of the record in
    /// the snapshot.
    #[verifier::rlimit(80)]
    pub fn post_poll<F: FlashRegion, C: CTLPinsTrait, S: StorageSwitchTrait>(
        &mut self,
        config: &mut ConfigArea<F>,
        ctlpins: &mut C,
        storage: &mut S,
        telemetry: Telemetry,
    ) -> (applied: Ghost<Seq<Category>>)
        requires
            old(config).wf(),
        ensures
            final(self).inbox() == empty_inbox(),
            final(config).wf(),
            applied@ == pending_order(old(self).inbox()),
            old(self).inbox().config is None ==> final(config).region() == old(config).region(),
            old(self).inbox().config is Some ==> exists|cur: ConfigBlock, new: ConfigBlock|
                #[trigger] field_set(
                    cur,
                    old(self).inbox().config->Some_0.0,
                    old(self).inbox().config->Some_0.1,
                    new,
                ) && reads_as(old(config).region(), cur) && write_outcome(
                    old(config).region(),
                    final(config).region(),
                    encode(new),
                ),
            old(self).inbox().power is None ==> final(ctlpins).engine() == pin_step(
                old(ctlpins).engine(),
                old(self).inbox().pin,
            ),
            old(self).inbox().power is Some ==> exists|cur: ConfigBlock| #[trigger]
                reads_as(final(config).region(), cur) && final(ctlpins).engine() == pin_step(
                    power_step(old(ctlpins).engine(), old(self).inbox().power, cur),
                    old(self).inbox().pin,
                ),
            final(storage).issued() == old(storage).issued() + storage_ops(old(self).inbox().storage),
            old(self).inbox().refresh ==> final(self).snapshot().telemetry == telemetry && reads_as(
                final(config).region(),
                final(self).snapshot().config,
            ),
            !old(self).inbox().refresh ==> final(self).snapshot() == old(self).snapshot(),
    {
        let ghost i0 = self.inbox();
        let ghost e0 = ctlpins.engine();
        let ghost mut applied: Seq<Category> = Seq::empty();
        proof {
            if i0.config is Some {
                applied = applied.push(Category::Config);
            }
        }
        self.apply_config(config);
        proof {
            if i0.power is Some {
                applied = applied.push(Category::Power);
            }
        }
        self.apply_power(config, ctlpins);
        let ghost e1 = ctlpins.engine();
        proof {
            if i0.storage is Some {
                applied = applied.push(Category::Storage);
            }
        }
        self.apply_storage(storage);
        proof {
            if i0.pin is Some {
                applied = applied.push(Category::Pin);
            }
        }
        self.apply_pin(ctlpins);
        proof {
            if i0.refresh {
                applied = applied.push(Category::Refresh);
            }
        }
        self.apply_refresh(config, telemetry);
        proof {
            if i0.power is Some {
                let cur = choose|cur: ConfigBlock|
                    #[trigger] reads_as(config.region(), cur) && e1 == power_step(e0, i0.power, cur);
                assert(reads_as(config.region(), cur));
            }
            assert(applied =~= pending_order(i0));
        }
        Ghost(applied)
    }
}

} // verus!
