//! The switch that routes the shared storage device to the host, to the
//! device under test, or to neither.
//!
//! Like the control lines, the switch drives nothing itself: it issues pin
//! operations that the caller performs in order.

use vstd::prelude::*;

verus! {

#[derive(Clone, Copy, PartialEq, Eq, Structural, Debug)]
pub enum StoragePin {
    /// Output enable of the multiplexer, active low.
    OutputEnable,
    /// Multiplexer select: high for the device under test.
    Select,
    /// Power to the storage from the device-under-test side.
    DutPower,
    /// Power to the storage from the host side.
    HostPower,
}

/// One pin of the switch set high or low.
#[derive(Clone, Copy, PartialEq, Eq, Structural, Debug)]
pub struct StorageOp {
    pub pin: StoragePin,
    pub high: bool,
}

pub open spec fn op(pin: StoragePin, high: bool) -> StorageOp {
    StorageOp { pin, high }
}

/// Both power paths off, then the multiplexer disabled.
pub open spec fn power_off_ops() -> Seq<StorageOp> {
    seq![op(StoragePin::DutPower, false), op(StoragePin::HostPower, false), op(StoragePin::OutputEnable, true)]
}

/// Host power off, device power on, multiplexer enabled towards the device.
pub open spec fn connect_dut_ops() -> Seq<StorageOp> {
    seq![
        op(StoragePin::HostPower, false),
        op(StoragePin::DutPower, true),
        op(StoragePin::OutputEnable, false),
        op(StoragePin::Select, true),
    ]
}

/// Device power off, host power on, multiplexer enabled towards the host.
pub open spec fn connect_host_ops() -> Seq<StorageOp> {
    seq![
        op(StoragePin::DutPower, false),
        op(StoragePin::HostPower, true),
        op(StoragePin::OutputEnable, false),
        op(StoragePin::Select, false),
    ]
}

pub trait StorageSwitchTrait {
    /// Every operation issued and not yet taken.
    spec fn issued(&self) -> Seq<StorageOp>;

    fn power_off(&mut self)
        ensures
            final(self).issued() == old(self).issued() + power_off_ops(),
    ;

    fn connect_to_dut(&mut self)
        ensures
            final(self).issued() == old(self).issued() + connect_dut_ops(),
    ;

    fn connect_to_host(&mut self)
        ensures
            final(self).issued() == old(self).issued() + connect_host_ops(),
    ;
}

pub struct StorageSwitch {
    ops: Vec<StorageOp>,
}

impl View for StorageSwitch {
    type V = Seq<StorageOp>;

    closed spec fn view(&self) -> Seq<StorageOp> {
        self.ops@
    }
}

impl StorageSwitch {
    pub fn new() -> (r: Self)
        ensures
            r@ == Seq::<StorageOp>::empty(),
    {
        StorageSwitch { ops: Vec::new() }
    }

    /// Hands over the operations issued so far, in order, and forgets them.
    pub fn take_ops(&mut self) -> (r: Vec<StorageOp>)
        ensures
            r@ == old(self)@,
            final(self)@ == Seq::<StorageOp>::empty(),
    {
        let mut taken: Vec<StorageOp> = Vec::new();
        std::mem::swap(&mut taken, &mut self.ops);
        taken
    }

    fn issue(&mut self, pin: StoragePin, high: bool)
        ensures
            final(self)@ == old(self)@.push(op(pin, high)),
    {
        self.ops.push(StorageOp { pin, high });
    }
}

impl StorageSwitchTrait for StorageSwitch {
    open spec fn issued(&self) -> Seq<StorageOp> {
        self@
    }

    fn power_off(&mut self) {
        self.issue(StoragePin::DutPower, false);
        self.issue(StoragePin::HostPower, false);
        self.issue(StoragePin::OutputEnable, true);
        assert(self@ =~= old(self)@ + power_off_ops());
    }

    fn connect_to_dut(&mut self) {
        self.issue(StoragePin::HostPower, false);
        self.issue(StoragePin::DutPower, true);
        self.issue(StoragePin::OutputEnable, false);
        self.issue(StoragePin::Select, true);
        assert(self@ =~= old(self)@ + connect_dut_ops());
    }

    fn connect_to_host(&mut self) {
        self.issue(StoragePin::DutPower, false);
        self.issue(StoragePin::HostPower, true);
        self.issue(StoragePin::OutputEnable, false);
        self.issue(StoragePin::Select, false);
        assert(self@ =~= old(self)@ + connect_host_ops());
    }
}

} // verus!
