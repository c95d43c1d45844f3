//! Version information of the firmware.

use vstd::prelude::*;
use vstd::string::StringSliceAdditionalSpecFns;
use crate::bytes::push_bytes;

verus! {

pub const VERSION: &'static str = "0.0";

pub const GIT_REF: &'static str = "unknown";

pub fn version() -> (r: &'static str)
    ensures
        r@ == VERSION@,
{
    VERSION
}

pub fn git_ref() -> (r: &'static str)
    ensures
        r@ == GIT_REF@,
{
    GIT_REF
}

/// The version text: the version, then ` git-ref: ` and the source
/// revision.
pub open spec fn version_text() -> Seq<u8> {
    VERSION.spec_bytes() + " git-ref: ".spec_bytes() + GIT_REF.spec_bytes()
}

/// Appends the version text to `out`.
pub fn write_version(out: &mut Vec<u8>)
    ensures
        final(out)@ == old(out)@ + version_text(),
{
    push_bytes(out, VERSION.as_bytes());
    push_bytes(out, " git-ref: ".as_bytes());
    push_bytes(out, GIT_REF.as_bytes());
    assert(out@ =~= old(out)@ + version_text());
}

pub open spec fn is_digit(c: u8) -> bool {
    48 <= c <= 57
}

/// The position of the first `.` at or after `i`, or the length.
pub open spec fn first_dot(s: Seq<u8>, i: int) -> int
    decreases s.len() - i,
{
    if 0 <= i < s.len() && s[i] != 46 {
        first_dot(s, i + 1)
    } else {
        i
    }
}

/// Decimal digits read as binary-coded decimal: one nibble per digit.
pub open spec fn bcd_value(s: Seq<u8>) -> nat
    decreases s.len(),
{
    if s.len() == 0 {
        0
    } else {
        bcd_value(s.drop_last()) * 16 + (s.last() - 48) as nat
    }
}

pub open spec fn all_digits(s: Seq<u8>) -> bool {
    forall|i: int| 0 <= i < s.len() ==> is_digit(#[trigger] s[i])
}

/// A version `major.minor` (the minor part may be absent) with at most two
/// digits each, as a USB release number: major in the high byte, minor in
/// the low one, both in binary-coded decimal. `None` for any other text.
pub open spec fn spec_bcd_version(s: Seq<u8>) -> Option<u16> {
    let d = first_dot(s, 0);
    let major = s.subrange(0, d);
    let minor = if d < s.len() {
        s.subrange(d + 1, s.len() as int)
    } else {
        Seq::<u8>::empty()
    };
    if all_digits(major) && all_digits(minor) && major.len() <= 2 && minor.len() <= 2 {
        Some((bcd_value(major) * 256 + bcd_value(minor)) as u16)
    } else {
        None
    }
}

proof fn lemma_first_dot(s: Seq<u8>, i: int)
    requires
        0 <= i <= s.len(),
    ensures
        i <= first_dot(s, i) <= s.len(),
        first_dot(s, i) < s.len() ==> s[first_dot(s, i)] == 46,
    decreases s.len() - i,
{
    if i < s.len() && s[i] != 46 {
        lemma_first_dot(s, i + 1);
    }
}

fn digits_only(s: &[u8]) -> (r: bool)
    ensures
        r == all_digits(s@),
{
    let mut i: usize = 0;
    while i < s.len()
        invariant
            0 <= i <= s@.len(),
            forall|k: int| 0 <= k < i ==> is_digit(#[trigger] s@[k]),
        decreases s@.len() - i,
    {
        if s[i] < 48 || s[i] > 57 {
            return false;
        }
        i = i + 1;
    }
    true
}

fn bcd_of(s: &[u8]) -> (r: u16)
    requires
        s@.len() <= 2,
        all_digits(s@),
    ensures
        r as nat == bcd_value(s@),
        r <= 0x99,
{
    if s.len() == 0 {
        0
    } else if s.len() == 1 {
        assert(s@.drop_last().len() == 0);
        assert(is_digit(s@[0]));
        assert(bcd_value(s@.drop_last()) == 0);
        assert(s@.last() == s@[0]);
        (s[0] - 48) as u16
    } else {
        assert(s@.drop_last().drop_last().len() == 0);
        assert(s@.drop_last().last() == s@[0]);
        assert(is_digit(s@[0]) && is_digit(s@[1]));
        assert(bcd_value(s@.drop_last().drop_last()) == 0);
        assert(bcd_value(s@.drop_last()) == (s@[0] - 48) as nat);
        assert(s@.last() == s@[1]);
        (s[0] - 48) as u16 * 16 + (s[1] - 48) as u16
    }
}

/// The USB release number of a version text.
pub fn bcd_version(s: &[u8]) -> (r: Option<u16>)
    ensures
        r == spec_bcd_version(s@),
{
    proof {
        lemma_first_dot(s@, 0);
    }
    let mut d: usize = 0;
    while d < s.len() && s[d] != 46
        invariant
            0 <= d <= s@.len(),
            first_dot(s@, 0) == first_dot(s@, d as int),
        decreases s@.len() - d,
    {
        d = d + 1;
    }
    let major = vstd::slice::slice_subrange(s, 0, d);
    let minor: &[u8] = if d < s.len() {
        vstd::slice::slice_subrange(s, d + 1, s.len())
    } else {
        &[]
    };
    if digits_only(major) && digits_only(minor) && major.len() <= 2 && minor.len() <= 2 {
        let hi = bcd_of(major);
        let lo = bcd_of(minor);
        Some(hi * 256 + lo)
    } else {
        None
    }
}

/// The USB release number of this firmware, or 0 when its version is not
/// of the form `major.minor`.
pub fn usb_version_bcd_device() -> (r: u16)
    ensures
        r == (match spec_bcd_version(VERSION.spec_bytes()) {
            Some(v) => v,
            None => 0,
        }),
{
    match bcd_version(VERSION.as_bytes()) {
        Some(v) => v,
        None => 0,
    }
}

/// The hexadecimal digit of a nibble, in lower case.
pub open spec fn hex_digit(v: u32) -> u8 {
    if v < 10 {
        (v + 48) as u8
    } else {
        (v - 10 + 97) as u8
    }
}

/// A serial number as eight hexadecimal digits, least significant nibble
/// first.
pub fn serial_hex(sn: u32) -> (r: Vec<u8>)
    ensures
        r@.len() == 8,
        forall|i: int| 0 <= i < 8 ==> #[trigger] r@[i] == hex_digit((sn >> (4 * i) as u32) & 0xf),
{
    let mut out: Vec<u8> = Vec::new();
    let mut i: u32 = 0;
    while i < 8
        invariant
            0 <= i <= 8,
            out@.len() == i,
            forall|k: int| 0 <= k < i ==> #[trigger] out@[k] == hex_digit((sn >> (4 * k) as u32) & 0xf),
        decreases 8 - i,
    {
        let v = (sn >> (i * 4)) & 0xf;
        assert(v <= 15) by (bit_vector)
            requires
                v == (sn >> (i * 4)) & 0xf,
        ;
        let h: u8 = if v < 10 {
            (v + 48) as u8
        } else {
            (v - 10 + 97) as u8
        };
        out.push(h);
        assert((4 * i as int) as u32 == i * 4);
        i = i + 1;
    }
    out
}

} // verus!
