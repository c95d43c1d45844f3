//! Decisions of the serial passthrough to the device under test: the
//! backslash escapes of text sent from the console, and the key sequence
//! that leaves console mode.

use vstd::prelude::*;
use crate::control::{fixed2_text, push_fixed2, Telemetry};

verus! {

/// What an escaped byte stands for.
#[derive(Clone, Copy, PartialEq, Eq, Structural, Debug)]
pub enum Escape {
    /// A byte to send.
    Byte(u8),
    /// `\w`: a pause before the next byte.
    Pause,
}

pub open spec fn spec_escaped_char(c: u8) -> Escape {
    if c == 0x5c {
        Escape::Byte(0x5c)
    } else if c == 0x6e {
        Escape::Byte(0x0a)
    } else if c == 0x72 {
        Escape::Byte(0x0d)
    } else if c == 0x74 {
        Escape::Byte(0x09)
    } else if c == 0x61 {
        Escape::Byte(0x07)
    } else if c == 0x62 {
        Escape::Byte(0x08)
    } else if c == 0x65 {
        Escape::Byte(0x1b)
    } else if c == 0x63 {
        Escape::Byte(0x03)
    } else if c == 0x64 {
        Escape::Byte(0x04)
    } else if c == 0x77 {
        Escape::Pause
    } else {
        Escape::Byte(c)
    }
}

/// The meaning of the byte after a backslash: `\\`, `\n`, `\r`, `\t`, `\a`,
/// `\b`, `\e` (escape), `\c` (CTRL+C), `\d` (CTRL+D), `\w` (pause); any
/// other byte stands for itself.
pub fn escaped_char(c: u8) -> (r: Escape)
    ensures
        r == spec_escaped_char(c),
{
    match c {
        0x5c => Escape::Byte(0x5c),
        0x6e => Escape::Byte(0x0a),
        0x72 => Escape::Byte(0x0d),
        0x74 => Escape::Byte(0x09),
        0x61 => Escape::Byte(0x07),
        0x62 => Escape::Byte(0x08),
        0x65 => Escape::Byte(0x1b),
        0x63 => Escape::Byte(0x03),
        0x64 => Escape::Byte(0x04),
        0x77 => Escape::Pause,
        _ => Escape::Byte(c),
    }
}

/// What the passthrough does with one queued byte.
#[derive(Clone, Copy, PartialEq, Eq, Structural, Debug)]
pub enum Passthrough {
    /// Nothing (a backslash that starts an escape).
    Skip,
    Send(u8),
    Pause,
}

/// The next escape state and the action for byte `c`. Escapes apply only
/// when `escaping` (outside console mode); `escaped` says that the
/// previous byte was a backslash that starts one.
pub open spec fn passthrough_spec(escaping: bool, escaped: bool, c: u8) -> (bool, Passthrough) {
    if !escaping {
        (escaped, Passthrough::Send(c))
    } else if escaped {
        match spec_escaped_char(c) {
            Escape::Byte(b) => (false, Passthrough::Send(b)),
            Escape::Pause => (false, Passthrough::Pause),
        }
    } else if c == 0x5c {
        (true, Passthrough::Skip)
    } else {
        (false, Passthrough::Send(c))
    }
}

pub fn passthrough_step(escaping: bool, escaped: bool, c: u8) -> (r: (bool, Passthrough))
    ensures
        r == passthrough_spec(escaping, escaped, c),
{
    if !escaping {
        (escaped, Passthrough::Send(c))
    } else if escaped {
        match escaped_char(c) {
            Escape::Byte(b) => (false, Passthrough::Send(b)),
            Escape::Pause => (false, Passthrough::Pause),
        }
    } else if c == 0x5c {
        (true, Passthrough::Skip)
    } else {
        (false, Passthrough::Send(c))
    }
}

/// CTRL+B, typed five times in a row to leave console mode.
pub const CONSOLE_EXIT_KEY: u8 = 0x02;

pub const CONSOLE_EXIT_COUNT: u8 = 5;

/// The count of exit keys typed in a row after byte `c`, and whether
/// console mode is left (the count then starts again from zero).
pub open spec fn console_exit_spec(count: u8, c: u8) -> (u8, bool) {
    if c != CONSOLE_EXIT_KEY {
        (0, false)
    } else if count + 1 >= CONSOLE_EXIT_COUNT {
        (0, true)
    } else {
        ((count + 1) as u8, false)
    }
}

pub fn console_exit_step(count: u8, c: u8) -> (r: (u8, bool))
    ensures
        r == console_exit_spec(count, c),
{
    if c != CONSOLE_EXIT_KEY {
        (0, false)
    } else if count >= CONSOLE_EXIT_COUNT - 1 {
        (0, true)
    } else {
        (count + 1, false)
    }
}

/// The power reading added after each line from the device while the
/// meter is on: `2.50W> `.
pub open spec fn trace_text(t: Telemetry) -> Seq<u8> {
    fixed2_text(t.power as int) + seq![87u8, 62u8, 32u8]
}

/// Bytes from the device as the host gets them: each carriage return
/// followed by the power reading when `meter` is on.
pub open spec fn host_text(bytes: Seq<u8>, meter: bool, t: Telemetry) -> Seq<u8>
    decreases bytes.len(),
{
    if bytes.len() == 0 {
        Seq::<u8>::empty()
    } else {
        let rest = host_text(bytes.drop_last(), meter, t).push(bytes.last());
        if meter && bytes.last() == 0x0d {
            rest + trace_text(t)
        } else {
            rest
        }
    }
}

pub fn to_host_text(bytes: &[u8], meter: bool, t: &Telemetry) -> (r: Vec<u8>)
    ensures
        r@ == host_text(bytes@, meter, *t),
{
    let mut out: Vec<u8> = Vec::new();
    let mut i: usize = 0;
    while i < bytes.len()
        invariant
            0 <= i <= bytes@.len(),
            out@ == host_text(bytes@.subrange(0, i as int), meter, *t),
        decreases bytes@.len() - i,
    {
        let c = bytes[i];
        out.push(c);
        if meter && c == 0x0d {
            push_fixed2(&mut out, t.power);
            out.push(87);
            out.push(62);
            out.push(32);
        }
        proof {
            let next = bytes@.subrange(0, i + 1);
            assert(next.drop_last() =~= bytes@.subrange(0, i as int));
            assert(next.last() == c);
        }
        assert(out@ =~= host_text(bytes@.subrange(0, i + 1), meter, *t));
        i = i + 1;
    }
    assert(bytes@.subrange(0, bytes@.len() as int) =~= bytes@);
    out
}

} // verus!
