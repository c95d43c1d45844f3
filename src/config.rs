//! Configuration record and its wear-levelled store.
//!
//! The region holds sixteen slots of one record each. A slot is Valid when
//! its marker equals `MAGIC`, Erased when the marker is all ones, and
//! Corrupt otherwise. Records are appended to the lowest slot that is not
//! Valid; the current record is the highest Valid slot; the region is
//! erased only when every slot is Valid.

use vstd::prelude::*;
use crate::bytes::push_bytes;

verus! {

pub const NAME_LEN: usize = 64;
pub const TAGS_LEN: usize = 256;
pub const USB_CONSOLE_LEN: usize = 64;
pub const SEQUENCE_LEN: usize = 32;
pub const JSON_LEN: usize = 512;
pub const PADDING_LEN: usize = 28;

/// Size of one stored record, marker included.
pub const BLOCK_SIZE: usize = 1024;

/// Offset of the marker inside a stored record.
pub const MARKER_OFFSET: usize = 1020;

/// Marker of a slot that holds a record.
pub const MAGIC: u32 = 0x601dbeef;

/// Marker of a slot that was erased and not programmed since.
pub const ERASED_MARKER: u32 = 0xffff_ffff;

/// The bytes of `src` cut or zero-padded to exactly `n` bytes.
pub open spec fn fit(src: Seq<u8>, n: nat) -> Seq<u8> {
    Seq::new(n, |i: int| if i < src.len() { src[i] } else { 0u8 })
}

pub open spec fn zeros(n: nat) -> Seq<u8> {
    Seq::new(n, |i: int| 0u8)
}

/// One configuration record: fixed-width, zero-padded byte fields and a
/// validity marker.
#[derive(Clone, Copy)]
pub struct ConfigBlock {
    pub name: [u8; NAME_LEN],
    pub tags: [u8; TAGS_LEN],
    pub usb_console: [u8; USB_CONSOLE_LEN],
    pub power_on: [u8; SEQUENCE_LEN],
    pub power_off: [u8; SEQUENCE_LEN],
    pub power_rescue: [u8; SEQUENCE_LEN],
    pub json: [u8; JSON_LEN],
    pub padding: [u8; PADDING_LEN],
    pub magic: u32,
}

/// Overwrites `dst` with `src`, cut or zero-padded to the width of `dst`.
fn fill_field<const N: usize>(dst: &mut [u8; N], src: &[u8])
    ensures
        final(dst)@ == fit(src@, N as nat),
{
    let mut i: usize = 0;
    while i < N
        invariant
            0 <= i <= N,
            dst@.len() == N,
            forall|k: int| 0 <= k < i ==> dst@[k] == fit(src@, N as nat)[k],
        decreases N - i,
    {
        if i < src.len() {
            dst[i] = src[i];
        } else {
            dst[i] = 0;
        }
        i = i + 1;
    }
    assert(dst@ =~= fit(src@, N as nat));
}

impl ConfigBlock {
    /// An empty record: every field zero, marked valid.
    pub open spec fn is_blank(self) -> bool {
        &&& self.name@ == zeros(NAME_LEN as nat)
        &&& self.tags@ == zeros(TAGS_LEN as nat)
        &&& self.usb_console@ == zeros(USB_CONSOLE_LEN as nat)
        &&& self.power_on@ == zeros(SEQUENCE_LEN as nat)
        &&& self.power_off@ == zeros(SEQUENCE_LEN as nat)
        &&& self.power_rescue@ == zeros(SEQUENCE_LEN as nat)
        &&& self.json@ == zeros(JSON_LEN as nat)
        &&& self.padding@ == zeros(PADDING_LEN as nat)
        &&& self.magic == MAGIC
    }

    pub fn new() -> (r: Self)
        ensures
            r.is_blank(),
    {
        let r = ConfigBlock {
            name: [0u8; NAME_LEN],
            tags: [0u8; TAGS_LEN],
            usb_console: [0u8; USB_CONSOLE_LEN],
            power_on: [0u8; SEQUENCE_LEN],
            power_off: [0u8; SEQUENCE_LEN],
            power_rescue: [0u8; SEQUENCE_LEN],
            json: [0u8; JSON_LEN],
            padding: [0u8; PADDING_LEN],
            magic: MAGIC,
        };
        assert(r.name@ =~= zeros(NAME_LEN as nat));
        assert(r.tags@ =~= zeros(TAGS_LEN as nat));
        assert(r.usb_console@ =~= zeros(USB_CONSOLE_LEN as nat));
        assert(r.power_on@ =~= zeros(SEQUENCE_LEN as nat));
        assert(r.power_off@ =~= zeros(SEQUENCE_LEN as nat));
        assert(r.power_rescue@ =~= zeros(SEQUENCE_LEN as nat));
        assert(r.json@ =~= zeros(JSON_LEN as nat));
        assert(r.padding@ =~= zeros(PADDING_LEN as nat));
        r
    }

    pub fn is_valid(&self) -> (r: bool)
        ensures
            r == (self.magic == MAGIC),
    {
        self.magic == MAGIC
    }

    /// A marker that is neither valid nor erased.
    pub fn format_error(&self) -> (r: bool)
        ensures
            r == (self.magic != MAGIC && self.magic != ERASED_MARKER),
    {
        self.magic != MAGIC && self.magic != ERASED_MARKER
    }

    pub fn set_name(self, name: &[u8]) -> (r: Self)
        ensures
            r == (ConfigBlock { name: r.name, ..self }),
            r.name@ == fit(name@, NAME_LEN as nat),
    {
        let mut r = self;
        fill_field(&mut r.name, name);
        r
    }

    pub fn set_tags(self, tags: &[u8]) -> (r: Self)
        ensures
            r == (ConfigBlock { tags: r.tags, ..self }),
            r.tags@ == fit(tags@, TAGS_LEN as nat),
    {
        let mut r = self;
        fill_field(&mut r.tags, tags);
        r
    }

    pub fn set_json(self, json: &[u8]) -> (r: Self)
        ensures
            r == (ConfigBlock { json: r.json, ..self }),
            r.json@ == fit(json@, JSON_LEN as nat),
    {
        let mut r = self;
        fill_field(&mut r.json, json);
        r
    }

    pub fn set_usb_console(self, usb_console: &[u8]) -> (r: Self)
        ensures
            r == (ConfigBlock { usb_console: r.usb_console, ..self }),
            r.usb_console@ == fit(usb_console@, USB_CONSOLE_LEN as nat),
    {
        let mut r = self;
        fill_field(&mut r.usb_console, usb_console);
        r
    }

    pub fn set_power_on(self, power_on: &[u8]) -> (r: Self)
        ensures
            r == (ConfigBlock { power_on: r.power_on, ..self }),
            r.power_on@ == fit(power_on@, SEQUENCE_LEN as nat),
    {
        let mut r = self;
        fill_field(&mut r.power_on, power_on);
        r
    }

    pub fn set_power_off(self, power_off: &[u8]) -> (r: Self)
        ensures
            r == (ConfigBlock { power_off: r.power_off, ..self }),
            r.power_off@ == fit(power_off@, SEQUENCE_LEN as nat),
    {
        let mut r = self;
        fill_field(&mut r.power_off, power_off);
        r
    }

    pub fn set_power_rescue(self, power_rescue: &[u8]) -> (r: Self)
        ensures
            r == (ConfigBlock { power_rescue: r.power_rescue, ..self }),
            r.power_rescue@ == fit(power_rescue@, SEQUENCE_LEN as nat),
    {
        let mut r = self;
        fill_field(&mut r.power_rescue, power_rescue);
        r
    }
}

/// The four bytes of `x`, least significant first.
pub open spec fn le_bytes_u32(x: u32) -> Seq<u8> {
    seq![(x & 0xff) as u8, ((x >> 8) & 0xff) as u8, ((x >> 16) & 0xff) as u8, ((x >> 24) & 0xff) as u8]
}

/// The integer whose bytes, least significant first, are `s`.
pub open spec fn u32_of_le(s: Seq<u8>) -> u32 {
    (s[0] as u32) | ((s[1] as u32) << 8) | ((s[2] as u32) << 16) | ((s[3] as u32) << 24)
}

pub proof fn lemma_le_round_trip()
    ensures
        forall|x: u32| #[trigger] le_bytes_u32(x).len() == 4 && u32_of_le(le_bytes_u32(x)) == x,
        forall|s: Seq<u8>| s.len() == 4 ==> #[trigger] le_bytes_u32(u32_of_le(s)) == s,
{
    assert forall|x: u32| #[trigger] le_bytes_u32(x).len() == 4 && u32_of_le(le_bytes_u32(x)) == x by {
        assert((x & 0xff) < 256 && ((x >> 8) & 0xff) < 256 && ((x >> 16) & 0xff) < 256 && ((x >> 24)
            & 0xff) < 256) by (bit_vector);
        assert(x == (x & 0xff) | ((x >> 8) & 0xff) << 8 | ((x >> 16) & 0xff) << 16 | ((x >> 24)
            & 0xff) << 24) by (bit_vector);
    }
    assert forall|s: Seq<u8>| s.len() == 4 implies #[trigger] le_bytes_u32(u32_of_le(s)) == s by {
        let x = u32_of_le(s);
        let s0 = s[0] as u32;
        let s1 = s[1] as u32;
        let s2 = s[2] as u32;
        let s3 = s[3] as u32;
        assert(s0 < 256 && s1 < 256 && s2 < 256 && s3 < 256);
        assert((x == s0 | s1 << 8 | s2 << 16 | s3 << 24 && s0 < 256 && s1 < 256 && s2 < 256 && s3
            < 256) ==> s0 == (x & 0xff) && s1 == ((x >> 8) & 0xff) && s2 == ((x >> 16) & 0xff)
            && s3 == ((x >> 24) & 0xff)) by (bit_vector);
        assert(le_bytes_u32(x) =~= s);
    }
}

/// The marker that a stored record of all-ones bytes carries.
pub proof fn lemma_all_ones_marker()
    ensures
        u32_of_le(seq![0xffu8, 0xffu8, 0xffu8, 0xffu8]) == ERASED_MARKER,
{
    let s = seq![0xffu8, 0xffu8, 0xffu8, 0xffu8];
    assert(s[0] as u32 == 0xff && s[1] as u32 == 0xff && s[2] as u32 == 0xff && s[3] as u32 == 0xff);
    let a: u32 = 0xff;
    assert(a | (a << 8) | (a << 16) | (a << 24) == 0xffff_ffffu32) by (bit_vector)
        requires a == 0xff;
}

/// The stored form of a record: its fields in declaration order, then the
/// marker in little-endian order.
pub open spec fn encode(b: ConfigBlock) -> Seq<u8> {
    b.name@ + b.tags@ + b.usb_console@ + b.power_on@ + b.power_off@ + b.power_rescue@ + b.json@
        + b.padding@ + le_bytes_u32(b.magic)
}

/// The marker of a stored record.
pub open spec fn block_marker(block: Seq<u8>) -> u32 {
    u32_of_le(block.subrange(MARKER_OFFSET as int, BLOCK_SIZE as int))
}

/// Where each field lies in the stored form, and the marker that it carries.
pub proof fn lemma_encode_layout(b: ConfigBlock)
    ensures
        encode(b).len() == BLOCK_SIZE,
        encode(b).subrange(0, 64) == b.name@,
        encode(b).subrange(64, 320) == b.tags@,
        encode(b).subrange(320, 384) == b.usb_console@,
        encode(b).subrange(384, 416) == b.power_on@,
        encode(b).subrange(416, 448) == b.power_off@,
        encode(b).subrange(448, 480) == b.power_rescue@,
        encode(b).subrange(480, 992) == b.json@,
        encode(b).subrange(992, 1020) == b.padding@,
        encode(b).subrange(1020, 1024) == le_bytes_u32(b.magic),
        block_marker(encode(b)) == b.magic,
{
    lemma_le_round_trip();
    let e = encode(b);
    assert(e.subrange(0, 64) =~= b.name@);
    assert(e.subrange(64, 320) =~= b.tags@);
    assert(e.subrange(320, 384) =~= b.usb_console@);
    assert(e.subrange(384, 416) =~= b.power_on@);
    assert(e.subrange(416, 448) =~= b.power_off@);
    assert(e.subrange(448, 480) =~= b.power_rescue@);
    assert(e.subrange(480, 992) =~= b.json@);
    assert(e.subrange(992, 1020) =~= b.padding@);
    assert(e.subrange(1020, 1024) =~= le_bytes_u32(b.magic));
}

/// Two records with the same stored form are the same record.
pub proof fn lemma_encode_injective(a: ConfigBlock, b: ConfigBlock)
    requires
        encode(a) == encode(b),
    ensures
        a == b,
{
    lemma_encode_layout(a);
    lemma_encode_layout(b);
    lemma_le_round_trip();
    assert(a.name =~= b.name);
    assert(a.tags =~= b.tags);
    assert(a.usb_console =~= b.usb_console);
    assert(a.power_on =~= b.power_on);
    assert(a.power_off =~= b.power_off);
    assert(a.power_rescue =~= b.power_rescue);
    assert(a.json =~= b.json);
    assert(a.padding =~= b.padding);
}

/// The marker of a stored record.
pub fn marker_of(bytes: &[u8]) -> (r: u32)
    requires
        bytes@.len() == BLOCK_SIZE,
    ensures
        r == block_marker(bytes@),
{
    let r = (bytes[1020] as u32) | ((bytes[1021] as u32) << 8) | ((bytes[1022] as u32) << 16) | ((
    bytes[1023] as u32) << 24);
    assert(bytes@.subrange(1020, 1024)[0] == bytes@[1020]);
    assert(bytes@.subrange(1020, 1024)[1] == bytes@[1021]);
    assert(bytes@.subrange(1020, 1024)[2] == bytes@[1022]);
    assert(bytes@.subrange(1020, 1024)[3] == bytes@[1023]);
    r
}

/// Overwrites `dst` with the bytes of `src` that start at `start`.
fn copy_range<const N: usize>(dst: &mut [u8; N], src: &[u8], start: usize)
    requires
        start + N <= src@.len(),
    ensures
        final(dst)@ == src@.subrange(start as int, start + N),
{
    let mut i: usize = 0;
    while i < N
        invariant
            0 <= i <= N,
            start + N <= src@.len(),
            src@.len() == src.len(),
            dst@.len() == N,
            forall|k: int| 0 <= k < i ==> dst@[k] == src@[start + k],
        decreases N - i,
    {
        assert(start + i < src@.len());
        dst[i] = src[start + i];
        i = i + 1;
    }
    assert(dst@ =~= src@.subrange(start as int, start + N));
}

impl ConfigBlock {
    /// The stored form of the record.
    pub fn to_bytes(&self) -> (r: Vec<u8>)
        ensures
            r@ == encode(*self),
    {
        let mut out: Vec<u8> = Vec::new();
        push_bytes(&mut out, &self.name);
        push_bytes(&mut out, &self.tags);
        push_bytes(&mut out, &self.usb_console);
        push_bytes(&mut out, &self.power_on);
        push_bytes(&mut out, &self.power_off);
        push_bytes(&mut out, &self.power_rescue);
        push_bytes(&mut out, &self.json);
        push_bytes(&mut out, &self.padding);
        let m = self.magic;
        out.push((m & 0xff) as u8);
        out.push(((m >> 8) & 0xff) as u8);
        out.push(((m >> 16) & 0xff) as u8);
        out.push(((m >> 24) & 0xff) as u8);
        assert(out@ =~= encode(*self));
        out
    }

    /// The record whose stored form is `bytes`.
    pub fn from_bytes(bytes: &[u8]) -> (r: ConfigBlock)
        requires
            bytes@.len() == BLOCK_SIZE,
        ensures
            encode(r) == bytes@,
    {
        let mut r = ConfigBlock::new();
        copy_range(&mut r.name, bytes, 0);
        copy_range(&mut r.tags, bytes, 64);
        copy_range(&mut r.usb_console, bytes, 320);
        copy_range(&mut r.power_on, bytes, 384);
        copy_range(&mut r.power_off, bytes, 416);
        copy_range(&mut r.power_rescue, bytes, 448);
        copy_range(&mut r.json, bytes, 480);
        copy_range(&mut r.padding, bytes, 992);
        r.magic = marker_of(bytes);
        proof {
            lemma_le_round_trip();
            lemma_encode_layout(r);
            let b = bytes@;
            assert(b =~= b.subrange(0, 64) + b.subrange(64, 320) + b.subrange(320, 384) + b.subrange(
                384,
                416,
            ) + b.subrange(416, 448) + b.subrange(448, 480) + b.subrange(480, 992) + b.subrange(
                992,
                1020,
            ) + b.subrange(1020, 1024));
            assert(encode(r) =~= bytes@);
        }
        r
    }
}

impl ConfigBlock {
    /// A record whose every byte is one, as an erased slot reads.
    pub fn erased() -> (r: ConfigBlock)
        ensures
            encode(r) == erased_block(),
            r.magic == ERASED_MARKER,
    {
        let r = ConfigBlock {
            name: [0xffu8; NAME_LEN],
            tags: [0xffu8; TAGS_LEN],
            usb_console: [0xffu8; USB_CONSOLE_LEN],
            power_on: [0xffu8; SEQUENCE_LEN],
            power_off: [0xffu8; SEQUENCE_LEN],
            power_rescue: [0xffu8; SEQUENCE_LEN],
            json: [0xffu8; JSON_LEN],
            padding: [0xffu8; PADDING_LEN],
            magic: ERASED_MARKER,
        };
        proof {
            lemma_le_round_trip();
            lemma_all_ones_marker();
            let ones = seq![0xffu8, 0xffu8, 0xffu8, 0xffu8];
            assert(le_bytes_u32(u32_of_le(ones)) == ones);
            lemma_encode_layout(r);
            assert(encode(r) =~= erased_block());
        }
        r
    }
}

// ---------------------------------------------------------------------------
// The region of sixteen slots.

pub const SLOT_COUNT: usize = 16;

/// A stored record whose every byte is one.
pub open spec fn erased_block() -> Seq<u8> {
    Seq::new(BLOCK_SIZE as nat, |i: int| 0xffu8)
}

/// A region whose every slot is erased.
pub open spec fn erased_region() -> Seq<Seq<u8>> {
    Seq::new(SLOT_COUNT as nat, |i: int| erased_block())
}

/// Sixteen slots of one stored record each.
pub open spec fn region_wf(region: Seq<Seq<u8>>) -> bool {
    &&& region.len() == SLOT_COUNT
    &&& forall|i: int| 0 <= i < SLOT_COUNT ==> (#[trigger] region[i]).len() == BLOCK_SIZE
}

pub open spec fn slot_valid(block: Seq<u8>) -> bool {
    block_marker(block) == MAGIC
}

pub open spec fn slot_erased(block: Seq<u8>) -> bool {
    block_marker(block) == ERASED_MARKER
}

pub open spec fn slot_corrupt(block: Seq<u8>) -> bool {
    !slot_valid(block) && !slot_erased(block)
}

/// Which slots of a region are Valid.
pub open spec fn valid_flags(region: Seq<Seq<u8>>) -> Seq<bool> {
    Seq::new(region.len(), |i: int| slot_valid(region[i]))
}

/// Which slots of an image are Valid.
pub open spec fn record_flags(slots: Seq<ConfigBlock>) -> Seq<bool> {
    Seq::new(slots.len(), |i: int| slots[i].magic == MAGIC)
}

/// The lowest index at or after `from` whose flag is unset, or the length.
pub open spec fn first_unset(flags: Seq<bool>, from: nat) -> nat
    decreases flags.len() - from,
{
    if from >= flags.len() {
        flags.len()
    } else if !flags[from as int] {
        from
    } else {
        first_unset(flags, from + 1)
    }
}

/// The highest index below `upto` whose flag is set, or -1.
pub open spec fn last_set(flags: Seq<bool>, upto: nat) -> int
    decreases upto,
{
    if upto == 0 {
        -1
    } else if flags[upto - 1] {
        upto - 1
    } else {
        last_set(flags, (upto - 1) as nat)
    }
}

/// The set flags form one run that starts at index 0.
pub open spec fn is_prefix_run(flags: Seq<bool>) -> bool {
    forall|i: int, j: int| 0 <= i < j < flags.len() && #[trigger] flags[j] ==> #[trigger] flags[i]
}

/// The slot that the next record goes to: the lowest that is not Valid, or
/// `SLOT_COUNT` when all are.
pub open spec fn next_slot(region: Seq<Seq<u8>>) -> nat {
    first_unset(valid_flags(region), 0)
}

/// The slot of the current record: the highest Valid one, or -1.
pub open spec fn current_slot(region: Seq<Seq<u8>>) -> int {
    last_set(valid_flags(region), region.len())
}

/// Valid slots form one run from slot 0.
pub open spec fn layout_ok(region: Seq<Seq<u8>>) -> bool {
    is_prefix_run(valid_flags(region))
}

pub open spec fn has_corrupt(region: Seq<Seq<u8>>) -> bool {
    exists|i: int| 0 <= i < region.len() && slot_corrupt(#[trigger] region[i])
}

/// `r` is what a read of the region returns: the current record, or the
/// blank record when no slot is Valid.
pub open spec fn reads_as(region: Seq<Seq<u8>>, r: ConfigBlock) -> bool {
    if current_slot(region) >= 0 {
        encode(r) == region[current_slot(region)]
    } else {
        r.is_blank()
    }
}

/// A write finds every slot Valid and erases the region first.
pub open spec fn write_erases(region: Seq<Seq<u8>>) -> bool {
    next_slot(region) >= SLOT_COUNT
}

/// The region after a successful write of the stored record `bytes`.
pub open spec fn written(region: Seq<Seq<u8>>, bytes: Seq<u8>) -> Seq<Seq<u8>> {
    if write_erases(region) {
        erased_region().update(0, bytes)
    } else {
        region.update(next_slot(region) as int, bytes)
    }
}

/// What a write of `bytes` may leave: the region written; or, after a
/// driver fault, a region that reads as before (when no erase was due), or
/// one that is unchanged or has no Valid slot (when an erase was due).
pub open spec fn write_outcome(before: Seq<Seq<u8>>, after: Seq<Seq<u8>>, bytes: Seq<u8>) -> bool {
    ||| after == written(before, bytes)
    ||| !write_erases(before) && forall|x: ConfigBlock| #[trigger]
        reads_as(after, x) == reads_as(before, x)
    ||| write_erases(before) && (after == before || forall|j: int|
        0 <= j < SLOT_COUNT ==> !slot_valid(#[trigger] after[j]))
}

/// The region of an image of decoded records.
pub open spec fn region_of(slots: Seq<ConfigBlock>) -> Seq<Seq<u8>> {
    Seq::new(slots.len(), |i: int| encode(slots[i]))
}

proof fn lemma_first_unset_skip(flags: Seq<bool>, from: nat, i: nat)
    requires
        from <= i <= flags.len(),
        forall|j: int| from <= j < i ==> flags[j],
    ensures
        first_unset(flags, from) == first_unset(flags, i),
    decreases i - from,
{
    if from < i {
        lemma_first_unset_skip(flags, from + 1, i);
    }
}

proof fn lemma_first_unset_bounds(flags: Seq<bool>, from: nat)
    requires
        from <= flags.len(),
    ensures
        from <= first_unset(flags, from) <= flags.len(),
        first_unset(flags, from) < flags.len() ==> !flags[first_unset(flags, from) as int],
        forall|j: int| from <= j < first_unset(flags, from) ==> flags[j],
    decreases flags.len() - from,
{
    if from < flags.len() && flags[from as int] {
        lemma_first_unset_bounds(flags, from + 1);
    }
}

proof fn lemma_last_set_skip(flags: Seq<bool>, i: nat, upto: nat)
    requires
        i <= upto <= flags.len(),
        forall|j: int| i <= j < upto ==> !flags[j],
    ensures
        last_set(flags, upto) == last_set(flags, i),
    decreases upto - i,
{
    if i < upto {
        lemma_last_set_skip(flags, i, (upto - 1) as nat);
    }
}

proof fn lemma_last_set_bounds(flags: Seq<bool>, upto: nat)
    requires
        upto <= flags.len(),
    ensures
        -1 <= last_set(flags, upto) < upto,
        last_set(flags, upto) >= 0 ==> flags[last_set(flags, upto)],
        forall|j: int| last_set(flags, upto) < j < upto ==> !flags[j],
    decreases upto,
{
    if upto > 0 && !flags[upto - 1] {
        lemma_last_set_bounds(flags, (upto - 1) as nat);
    }
}

/// The Valid slots of an image and of its stored region are the same.
pub proof fn lemma_region_of_flags(slots: Seq<ConfigBlock>)
    ensures
        valid_flags(region_of(slots)) == record_flags(slots),
        slots.len() == SLOT_COUNT ==> region_wf(region_of(slots)),
{
    assert forall|i: int| 0 <= i < slots.len() implies #[trigger] region_of(slots)[i].len()
        == BLOCK_SIZE && slot_valid(region_of(slots)[i]) == (slots[i].magic == MAGIC) by {
        lemma_encode_layout(slots[i]);
    }
    assert(valid_flags(region_of(slots)) =~= record_flags(slots));
}

/// A run of Valid slots from 0 is one whose slots after the first
/// non-Valid one are all non-Valid.
proof fn lemma_prefix_run_tail(flags: Seq<bool>)
    ensures
        is_prefix_run(flags) <==> (forall|j: int|
            first_unset(flags, 0) < j < flags.len() ==> !#[trigger] flags[j]),
{
    lemma_first_unset_bounds(flags, 0);
    let n = first_unset(flags, 0);
    if is_prefix_run(flags) {
        assert forall|j: int| n < j < flags.len() implies !#[trigger] flags[j] by {
            if flags[j] {
                assert(flags[n as int]);
            }
        }
    }
    if forall|j: int| n < j < flags.len() ==> !#[trigger] flags[j] {
        assert forall|i: int, j: int| 0 <= i < j < flags.len() && #[trigger] flags[j] implies #[trigger] flags[i] by {
            assert(j < n);
        }
    }
}

/// An image of the sixteen slots as decoded records. It also serves as an
/// in-memory region, which counts the erase cycles that it went through.
pub struct ConfigAreaFlash {
    config: Vec<ConfigBlock>,
    erase_count: u64,
    program_fault: bool,
}

/// Where a write goes: the slot to program, and whether the region is
/// erased first.
#[derive(Clone, Copy, PartialEq, Eq, Structural, Debug)]
pub struct WritePlan {
    pub erase_first: bool,
    pub slot: usize,
}

impl ConfigAreaFlash {
    pub closed spec fn slots(&self) -> Seq<ConfigBlock> {
        self.config@
    }

    pub open spec fn wf(&self) -> bool {
        self.slots().len() == SLOT_COUNT
    }

    /// An image of the given sixteen records.
    pub fn from_slots(slots: Vec<ConfigBlock>) -> (r: Self)
        requires
            slots@.len() == SLOT_COUNT,
        ensures
            r.wf(),
            r.slots() == slots@,
            r.erases() == 0,
    {
        ConfigAreaFlash { config: slots, erase_count: 0, program_fault: false }
    }

    /// A region whose every slot is erased.
    pub fn erased() -> (r: Self)
        ensures
            r.wf(),
            region_of(r.slots()) == erased_region(),
            r.erases() == 0,
    {
        let mut config: Vec<ConfigBlock> = Vec::new();
        let mut i: usize = 0;
        while i < SLOT_COUNT
            invariant
                0 <= i <= SLOT_COUNT,
                config@.len() == i,
                forall|k: int| 0 <= k < i ==> encode(#[trigger] config@[k]) == erased_block(),
            decreases SLOT_COUNT - i,
        {
            config.push(ConfigBlock::erased());
            i = i + 1;
        }
        let r = ConfigAreaFlash { config, erase_count: 0, program_fault: false };
        assert(region_of(r.slots()) =~= erased_region());
        r
    }

    /// The number of erase cycles that the region went through.
    pub fn erase_count(&self) -> (r: u64)
        ensures
            r == self.erases(),
    {
        self.erase_count
    }

    /// Makes every later programming of a block fail, leaving that block
    /// with a corrupt marker, as a program cut short would.
    pub fn set_program_fault(&mut self, fail: bool)
        ensures
            final(self).slots() == old(self).slots(),
            final(self).erases() == old(self).erases(),
    {
        self.program_fault = fail;
    }

    /// The record in slot `index`.
    pub fn slot(&self, index: usize) -> (r: &ConfigBlock)
        requires
            self.wf(),
            index < SLOT_COUNT,
        ensures
            *r == self.slots()[index as int],
    {
        &self.config[index]
    }

    /// The lowest slot that is not Valid, if any.
    pub fn get_next(&self) -> (r: Option<usize>)
        requires
            self.wf(),
        ensures
            r == (if first_unset(record_flags(self.slots()), 0) < SLOT_COUNT {
                Some(first_unset(record_flags(self.slots()), 0) as usize)
            } else {
                None
            }),
    {
        let ghost flags = record_flags(self.slots());
        let mut i: usize = 0;
        while i < SLOT_COUNT
            invariant
                self.wf(),
                0 <= i <= SLOT_COUNT,
                flags == record_flags(self.slots()),
                forall|j: int| 0 <= j < i ==> flags[j],
            decreases SLOT_COUNT - i,
        {
            if !self.config[i].is_valid() {
                proof {
                    lemma_first_unset_skip(flags, 0, i as nat);
                }
                return Some(i);
            }
            i = i + 1;
        }
        proof {
            lemma_first_unset_skip(flags, 0, SLOT_COUNT as nat);
        }
        None
    }

    /// Some slot is neither Valid nor Erased.
    pub fn format_error(&self) -> (r: bool)
        requires
            self.wf(),
        ensures
            r == has_corrupt(region_of(self.slots())),
    {
        let ghost region = region_of(self.slots());
        proof {
            lemma_region_of_flags(self.slots());
        }
        let mut i: usize = 0;
        while i < SLOT_COUNT
            invariant
                self.wf(),
                0 <= i <= SLOT_COUNT,
                region == region_of(self.slots()),
                forall|j: int| 0 <= j < i ==> !slot_corrupt(#[trigger] region[j]),
            decreases SLOT_COUNT - i,
        {
            proof {
                lemma_encode_layout(self.slots()[i as int]);
            }
            if self.config[i].format_error() {
                assert(slot_corrupt(region[i as int]));
                return true;
            }
            i = i + 1;
        }
        false
    }

    /// The highest Valid slot, if any.
    pub fn get_current(&self) -> (r: Option<usize>)
        requires
            self.wf(),
        ensures
            r == (if last_set(record_flags(self.slots()), SLOT_COUNT as nat) >= 0 {
                Some(last_set(record_flags(self.slots()), SLOT_COUNT as nat) as usize)
            } else {
                None
            }),
    {
        let ghost flags = record_flags(self.slots());
        let mut i: usize = SLOT_COUNT;
        while i > 0
            invariant
                self.wf(),
                0 <= i <= SLOT_COUNT,
                flags == record_flags(self.slots()),
                forall|j: int| i <= j < SLOT_COUNT ==> !flags[j],
            decreases i,
        {
            if self.config[i - 1].is_valid() {
                proof {
                    lemma_last_set_skip(flags, i as nat, SLOT_COUNT as nat);
                }
                return Some(i - 1);
            }
            i = i - 1;
        }
        proof {
            lemma_last_set_skip(flags, 0, SLOT_COUNT as nat);
        }
        None
    }

    /// The current record, if any slot is Valid.
    pub fn get_config(&self) -> (r: Option<&ConfigBlock>)
        requires
            self.wf(),
        ensures
            match r {
                Some(b) => {
                    let k = last_set(record_flags(self.slots()), SLOT_COUNT as nat);
                    k >= 0 && *b == self.slots()[k]
                },
                None => last_set(record_flags(self.slots()), SLOT_COUNT as nat) < 0,
            },
    {
        proof {
            lemma_last_set_bounds(record_flags(self.slots()), SLOT_COUNT as nat);
        }
        match self.get_current() {
            Some(i) => Some(&self.config[i]),
            None => None,
        }
    }

    /// A copy of the current record, or the blank record when no slot is
    /// Valid.
    pub fn ram_config(&self) -> (r: ConfigBlock)
        requires
            self.wf(),
        ensures
            reads_as(region_of(self.slots()), r),
    {
        proof {
            lemma_region_of_flags(self.slots());
            lemma_last_set_bounds(record_flags(self.slots()), SLOT_COUNT as nat);
            assert(region_of(self.slots()).len() == SLOT_COUNT);
        }
        let ghost region = region_of(self.slots());
        match self.get_config() {
            Some(b) => {
                let ghost k = last_set(record_flags(self.slots()), SLOT_COUNT as nat);
                assert(current_slot(region) == k);
                assert(region[k] == encode(self.slots()[k]));
                *b
            },
            None => ConfigBlock::new(),
        }
    }

    /// Where the next record goes: the lowest slot that is not Valid, or
    /// slot 0 after an erase when every slot is Valid.
    pub fn write_plan(&self) -> (r: WritePlan)
        requires
            self.wf(),
        ensures
            r.erase_first == write_erases(region_of(self.slots())),
            r.slot < SLOT_COUNT,
            r.slot == (if r.erase_first {
                0
            } else {
                next_slot(region_of(self.slots()))
            }),
    {
        proof {
            lemma_region_of_flags(self.slots());
            lemma_first_unset_bounds(record_flags(self.slots()), 0);
        }
        match self.get_next() {
            Some(i) => WritePlan { erase_first: false, slot: i },
            None => WritePlan { erase_first: true, slot: 0 },
        }
    }

    /// Valid slots form one run from slot 0.
    pub fn valid_run_ok(&self) -> (r: bool)
        requires
            self.wf(),
        ensures
            r == layout_ok(region_of(self.slots())),
    {
        let ghost flags = record_flags(self.slots());
        proof {
            lemma_region_of_flags(self.slots());
            lemma_prefix_run_tail(flags);
            lemma_first_unset_bounds(flags, 0);
        }
        match self.get_next() {
            None => true,
            Some(n) => {
                let mut i: usize = n + 1;
                while i < SLOT_COUNT
                    invariant
                        self.wf(),
                        n < i <= SLOT_COUNT,
                        n == first_unset(flags, 0),
                        flags == record_flags(self.slots()),
                        forall|j: int| n < j < i ==> !flags[j],
                    decreases SLOT_COUNT - i,
                {
                    if self.config[i].is_valid() {
                        proof {
                            lemma_region_of_flags(self.slots());
                            lemma_prefix_run_tail(flags);
                            assert(flags[i as int]);
                        }
                        return false;
                    }
                    i = i + 1;
                }
                true
            },
        }
    }
}

/// The storage driver under a `ConfigArea`: sixteen blocks that can be read
/// one at a time, programmed one at a time, and erased all together.
pub trait FlashRegion {
    /// What the blocks hold now.
    spec fn blocks(&self) -> Seq<Seq<u8>>;

    /// The erase cycles that the region went through.
    spec fn erases(&self) -> nat;

    fn read_block(&self, index: usize) -> (r: Vec<u8>)
        requires
            region_wf(self.blocks()),
            index < SLOT_COUNT,
        ensures
            r@ == self.blocks()[index as int],
    ;

    /// Erases every block, one erase cycle. On a fault the blocks are as
    /// they were and no cycle is counted.
    fn erase_region(&mut self) -> (r: Result<(), ()>)
        requires
            region_wf(old(self).blocks()),
        ensures
            region_wf(final(self).blocks()),
            r is Ok ==> final(self).blocks() == erased_region() && final(self).erases() == old(
                self,
            ).erases() + 1,
            r is Err ==> final(self).blocks() == old(self).blocks() && final(self).erases() == old(
                self,
            ).erases(),
    ;

    /// Programs one block. On a fault the other blocks are as they were and
    /// the programmed one does not carry a valid marker.
    fn program_block(&mut self, index: usize, bytes: &[u8]) -> (r: Result<(), ()>)
        requires
            region_wf(old(self).blocks()),
            index < SLOT_COUNT,
            bytes@.len() == BLOCK_SIZE,
        ensures
            region_wf(final(self).blocks()),
            final(self).erases() == old(self).erases(),
            r is Ok ==> final(self).blocks() == old(self).blocks().update(index as int, bytes@),
            r is Err ==> (forall|j: int|
                0 <= j < SLOT_COUNT && j != index ==> final(self).blocks()[j] == old(
                    self,
                ).blocks()[j]) && !slot_valid(final(self).blocks()[index as int]),
    ;
}

impl FlashRegion for ConfigAreaFlash {
    open spec fn blocks(&self) -> Seq<Seq<u8>> {
        region_of(self.slots())
    }

    closed spec fn erases(&self) -> nat {
        self.erase_count as nat
    }

    fn read_block(&self, index: usize) -> (r: Vec<u8>) {
        self.config[index].to_bytes()
    }

    /// Fails, as a worn-out region would, once the erase counter is full.
    fn erase_region(&mut self) -> (r: Result<(), ()>) {
        if self.erase_count == u64::MAX {
            return Err(());
        }
        let mut i: usize = 0;
        while i < SLOT_COUNT
            invariant
                0 <= i <= SLOT_COUNT,
                self.config@.len() == SLOT_COUNT,
                self.erase_count == old(self).erase_count,
                self.erase_count < u64::MAX,
                forall|k: int| 0 <= k < i ==> encode(#[trigger] self.config@[k]) == erased_block(),
            decreases SLOT_COUNT - i,
        {
            self.config.set(i, ConfigBlock::erased());
            i = i + 1;
        }
        self.erase_count = self.erase_count + 1;
        assert(region_of(self.slots()) =~= erased_region());
        Ok(())
    }

    fn program_block(&mut self, index: usize, bytes: &[u8]) -> (r: Result<(), ()>) {
        if self.program_fault {
            let mut cut = ConfigBlock::erased();
            cut.magic = 0;
            proof {
                lemma_encode_layout(cut);
            }
            self.config.set(index, cut);
            proof {
                assert forall|j: int| 0 <= j < SLOT_COUNT && j != index implies self.blocks()[j]
                    == old(self).blocks()[j] by {}
            }
            return Err(());
        }
        let b = ConfigBlock::from_bytes(bytes);
        self.config.set(index, b);
        assert(region_of(self.slots()) =~= region_of(old(self).slots()).update(index as int, bytes@));
        Ok(())
    }
}

/// Every slot of an erased region is Erased.
pub proof fn lemma_erased_region()
    ensures
        region_wf(erased_region()),
        forall|j: int| 0 <= j < SLOT_COUNT ==> slot_erased(#[trigger] erased_region()[j]),
        forall|j: int| 0 <= j < SLOT_COUNT ==> !slot_valid(#[trigger] erased_region()[j]),
{
    lemma_all_ones_marker();
    assert(erased_block().subrange(1020, 1024) =~= seq![0xffu8, 0xffu8, 0xffu8, 0xffu8]);
}

/// After a write, the slot written is the current one when the record is
/// Valid and the Valid slots formed one run from slot 0; that shape is kept
/// in any case.
proof fn lemma_written(region: Seq<Seq<u8>>, bytes: Seq<u8>)
    requires
        region_wf(region),
        bytes.len() == BLOCK_SIZE,
    ensures
        region_wf(written(region, bytes)),
        layout_ok(region) ==> layout_ok(written(region, bytes)),
        layout_ok(region) && slot_valid(bytes) ==> current_slot(written(region, bytes)) == (if write_erases(region) {
            0
        } else {
            next_slot(region) as int
        }),
{
    let flags = valid_flags(region);
    let w = written(region, bytes);
    let wf = valid_flags(w);
    lemma_first_unset_bounds(flags, 0);
    lemma_erased_region();
    lemma_prefix_run_tail(flags);
    let k: int = if write_erases(region) {
        0
    } else {
        next_slot(region) as int
    };
    assert(region_wf(w));
    assert(w[k] == bytes);
    assert forall|j: int| 0 <= j < k implies #[trigger] wf[j] == flags[j] && flags[j] by {}
    if layout_ok(region) {
        assert forall|j: int| k < j < SLOT_COUNT implies !#[trigger] wf[j] by {
            if !write_erases(region) {
                assert(w[j] == region[j]);
                assert(!flags[j]);
            } else {
                assert(w[j] == erased_region()[j]);
            }
        }
        assert forall|i: int, j: int| 0 <= i < j < wf.len() && #[trigger] wf[j] implies #[trigger] wf[i] by {
            if j > k {
            } else if j == k {
                assert(flags[i]);
            } else {
                assert(flags[j]);
                assert(flags[i]);
            }
        }
        if slot_valid(bytes) {
            assert(wf[k]);
            lemma_last_set_skip(wf, (k + 1) as nat, SLOT_COUNT as nat);
        }
    }
}

/// Writing a Valid record to a region whose Valid slots form one run from
/// slot 0 keeps that shape, and a read then returns exactly that record.
pub proof fn lemma_write_then_read(region: Seq<Seq<u8>>, r: ConfigBlock)
    requires
        region_wf(region),
        layout_ok(region),
        r.magic == MAGIC,
    ensures
        region_wf(written(region, encode(r))),
        layout_ok(written(region, encode(r))),
        forall|x: ConfigBlock| #[trigger] reads_as(written(region, encode(r)), x) <==> x == r,
{
    lemma_encode_layout(r);
    lemma_written(region, encode(r));
    let w = written(region, encode(r));
    let k = current_slot(w);
    assert(k >= 0);
    assert(w[k] == encode(r));
    assert forall|x: ConfigBlock| #[trigger] reads_as(w, x) <==> x == r by {
        if encode(x) == encode(r) {
            lemma_encode_injective(x, r);
        }
    }
}

/// The region after writing each record of `rs` in turn.
pub open spec fn after_writes(region: Seq<Seq<u8>>, rs: Seq<ConfigBlock>) -> Seq<Seq<u8>>
    decreases rs.len(),
{
    if rs.len() == 0 {
        region
    } else {
        written(after_writes(region, rs.drop_last()), encode(rs.last()))
    }
}

/// Slots below `k` are Valid and the others are not.
pub open spec fn filled(region: Seq<Seq<u8>>, k: int) -> bool {
    &&& region_wf(region)
    &&& forall|j: int| 0 <= j < k ==> slot_valid(#[trigger] region[j])
    &&& forall|j: int| k <= j < SLOT_COUNT ==> !slot_valid(#[trigger] region[j])
}

proof fn lemma_filled_next(region: Seq<Seq<u8>>, k: int)
    requires
        0 <= k <= SLOT_COUNT,
        filled(region, k),
    ensures
        next_slot(region) == k,
{
    let flags = valid_flags(region);
    assert forall|j: int| 0 <= j < k implies flags[j] by {}
    lemma_first_unset_skip(flags, 0, k as nat);
    if k < SLOT_COUNT {
        assert(!flags[k]);
    }
}

proof fn lemma_fill_step(before: Seq<Seq<u8>>, k: int, r: ConfigBlock)
    requires
        0 <= k < SLOT_COUNT,
        filled(before, k),
        r.magic == MAGIC,
    ensures
        filled(written(before, encode(r)), k + 1),
{
    lemma_filled_next(before, k);
    lemma_encode_layout(r);
    let after = written(before, encode(r));
    assert(after == before.update(k, encode(r)));
    assert forall|j: int| 0 <= j < k + 1 implies slot_valid(#[trigger] after[j]) by {
        if j < k {
            assert(after[j] == before[j]);
        }
    }
    assert forall|j: int| k + 1 <= j < SLOT_COUNT implies !slot_valid(#[trigger] after[j]) by {
        assert(after[j] == before[j]);
    }
}

proof fn lemma_fill_history(rs: Seq<ConfigBlock>, k: int)
    requires
        0 <= k <= rs.len(),
        k <= SLOT_COUNT,
        forall|i: int| 0 <= i < rs.len() ==> (#[trigger] rs[i]).magic == MAGIC,
    ensures
        filled(after_writes(erased_region(), rs.take(k)), k),
    decreases k,
{
    if k == 0 {
        lemma_erased_region();
        assert(rs.take(0).len() == 0);
    } else {
        lemma_fill_history(rs, k - 1);
        assert(rs.take(k).drop_last() =~= rs.take(k - 1));
        assert(rs.take(k).last() == rs[k - 1]);
        lemma_fill_step(after_writes(erased_region(), rs.take(k - 1)), k - 1, rs[k - 1]);
    }
}

/// From an erased region, sixteen writes go to fresh slots without an
/// erase; the seventeenth finds the region full, erases it once, and a read
/// then returns the seventeenth record.
pub proof fn lemma_seventeen_writes(rs: Seq<ConfigBlock>)
    requires
        rs.len() == SLOT_COUNT + 1,
        forall|i: int| 0 <= i < rs.len() ==> (#[trigger] rs[i]).magic == MAGIC,
    ensures
        forall|k: int|
            0 <= k < SLOT_COUNT ==> !write_erases(#[trigger] after_writes(erased_region(), rs.take(k))),
        write_erases(after_writes(erased_region(), rs.take(SLOT_COUNT as int))),
        forall|x: ConfigBlock| #[trigger]
            reads_as(after_writes(erased_region(), rs), x) <==> x == rs[SLOT_COUNT as int],
{
    assert forall|k: int| 0 <= k < SLOT_COUNT implies !write_erases(
        #[trigger] after_writes(erased_region(), rs.take(k)),
    ) by {
        lemma_fill_history(rs, k);
        lemma_filled_next(after_writes(erased_region(), rs.take(k)), k);
    }
    let full = after_writes(erased_region(), rs.take(SLOT_COUNT as int));
    lemma_fill_history(rs, SLOT_COUNT as int);
    lemma_filled_next(full, SLOT_COUNT as int);
    assert forall|i: int, j: int| 0 <= i < j < SLOT_COUNT && #[trigger] valid_flags(full)[j] implies #[trigger] valid_flags(full)[i] by {}
    assert(layout_ok(full));
    assert(rs.drop_last() =~= rs.take(SLOT_COUNT as int));
    assert(rs.last() == rs[SLOT_COUNT as int]);
    lemma_write_then_read(full, rs[SLOT_COUNT as int]);
}

/// The configuration store: one logical record kept in a wear-levelled
/// region behind a storage driver.
pub struct ConfigArea<F: FlashRegion> {
    flash: F,
}

impl<F: FlashRegion> ConfigArea<F> {
    /// What the region holds now.
    pub closed spec fn region(&self) -> Seq<Seq<u8>> {
        self.flash.blocks()
    }

    /// The erase cycles that the region went through.
    pub closed spec fn erases(&self) -> nat {
        self.flash.erases()
    }

    pub open spec fn wf(&self) -> bool {
        region_wf(self.region())
    }

    /// Takes over a region, erasing it first when a slot is Corrupt; also
    /// returns how that erase went (`Ok` when none was due).
    pub fn new(flash: F) -> (r: (Self, Result<(), ()>))
        requires
            region_wf(flash.blocks()),
        ensures
            r.0.wf(),
            !has_corrupt(flash.blocks()) ==> r.1 is Ok && r.0.region() == flash.blocks()
                && r.0.erases() == flash.erases(),
            has_corrupt(flash.blocks()) && r.1 is Ok ==> r.0.region() == erased_region()
                && r.0.erases() == flash.erases() + 1,
            has_corrupt(flash.blocks()) && r.1 is Err ==> r.0.region() == flash.blocks()
                && r.0.erases() == flash.erases(),
    {
        let mut area = ConfigArea { flash };
        let image = area.snapshot();
        if image.format_error() {
            let erased = area.flash.erase_region();
            (area, erased)
        } else {
            (area, Ok(()))
        }
    }

    /// Takes over a region as it is, with no check: for a region that this
    /// store already used, as after a driver fault.
    pub fn resume(flash: F) -> (r: Self)
        requires
            region_wf(flash.blocks()),
        ensures
            r.wf(),
            r.region() == flash.blocks(),
            r.erases() == flash.erases(),
    {
        ConfigArea { flash }
    }

    /// The driver, for inspection.
    pub fn flash(&self) -> (r: &F)
        ensures
            r.blocks() == self.region(),
    {
        &self.flash
    }

    /// A decoded copy of every slot.
    pub fn snapshot(&self) -> (r: ConfigAreaFlash)
        requires
            self.wf(),
        ensures
            r.wf(),
            region_of(r.slots()) == self.region(),
            r.erases() == 0,
    {
        let ghost region = self.region();
        let mut config: Vec<ConfigBlock> = Vec::new();
        let mut i: usize = 0;
        while i < SLOT_COUNT
            invariant
                self.wf(),
                region == self.region(),
                0 <= i <= SLOT_COUNT,
                config@.len() == i,
                forall|k: int| 0 <= k < i ==> encode(#[trigger] config@[k]) == region[k],
            decreases SLOT_COUNT - i,
        {
            let bytes = self.flash.read_block(i);
            config.push(ConfigBlock::from_bytes(bytes.as_slice()));
            i = i + 1;
        }
        let r = ConfigAreaFlash::from_slots(config);
        assert(region_of(r.slots()) =~= region);
        r
    }

    /// A copy of the current record, or the blank record when no slot is
    /// Valid.
    pub fn get(&self) -> (r: ConfigBlock)
        requires
            self.wf(),
        ensures
            reads_as(self.region(), r),
    {
        self.snapshot().ram_config()
    }

    /// Appends `cfg` to the lowest slot that is not Valid, erasing the region
    /// first when every slot is Valid. A driver fault abandons the write.
    pub fn write_config(&mut self, cfg: &ConfigBlock) -> (r: Result<(), ()>)
        requires
            old(self).wf(),
        ensures
            final(self).wf(),
            r is Ok ==> final(self).region() == written(old(self).region(), encode(*cfg)),
            r is Err && !write_erases(old(self).region()) ==> forall|x: ConfigBlock|
                #[trigger] reads_as(final(self).region(), x) == reads_as(old(self).region(), x),
            r is Err && write_erases(old(self).region()) ==> final(self).region() == old(
                self,
            ).region() || forall|j: int|
                0 <= j < SLOT_COUNT ==> !slot_valid(#[trigger] final(self).region()[j]),
            layout_ok(old(self).region()) ==> layout_ok(final(self).region()),
            write_outcome(old(self).region(), final(self).region(), encode(*cfg)),
            r is Ok ==> final(self).erases() == old(self).erases() + (if write_erases(
                old(self).region(),
            ) {
                1nat
            } else {
                0nat
            }),
            r is Err ==> final(self).erases() == old(self).erases() || write_erases(
                old(self).region(),
            ) && final(self).erases() == old(self).erases() + 1,
    {
        let ghost region = self.region();
        let image = self.snapshot();
        let bytes = cfg.to_bytes();
        proof {
            lemma_region_of_flags(image.slots());
            lemma_encode_layout(*cfg);
            lemma_written(region, encode(*cfg));
            lemma_first_unset_bounds(valid_flags(region), 0);
            lemma_erased_region();
        }
        let plan = image.write_plan();
        if plan.erase_first {
            if self.flash.erase_region().is_err() {
                return Err(());
            }
        }
        let slot = plan.slot;
        let r = self.flash.program_block(slot, bytes.as_slice());
        proof {
            let fin = self.region();
            if r is Err {
                if !write_erases(region) {
                    let flags = valid_flags(region);
                    assert(!flags[slot as int]);
                    assert(valid_flags(fin) =~= flags);
                    lemma_last_set_bounds(flags, SLOT_COUNT as nat);
                    assert forall|x: ConfigBlock| #[trigger]
                        reads_as(fin, x) == reads_as(region, x) by {
                        if current_slot(region) >= 0 {
                            assert(fin[current_slot(region)] == region[current_slot(region)]);
                        }
                    }
                } else {
                    assert forall|j: int| 0 <= j < SLOT_COUNT implies !slot_valid(
                        #[trigger] fin[j],
                    ) by {
                        if j != 0 {
                            assert(fin[j] == erased_region()[j]);
                        }
                    }
                    assert forall|i: int, j: int|
                        0 <= i < j < valid_flags(fin).len() && #[trigger] valid_flags(fin)[j] implies #[trigger] valid_flags(fin)[i] by {
                        assert(!slot_valid(fin[j]));
                    }
                }
            }
        }
        r
    }
}

} // verus!
