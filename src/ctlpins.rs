//! The control lines of the device under test and the sequencing language
//! that drives them.
//!
//! The engine keeps, for each of the five lines, the state last requested
//! for it, and whether main power is marked on. It drives nothing itself:
//! every physical action (a line driven, the power enable switched, a
//! wait) is appended to a list of operations that the caller performs in
//! order on the hardware.
//!
//! A sequence is a list of orders separated by commas; case does not
//! matter, a zero byte ends it early, and an unknown order is skipped up
//! to the next comma:
//! - `a`, `b`, `c`, `d` or `r` then a state: `h` high, `l` low, anything
//!   else floating; the line is driven so, whatever its requested state;
//! - `w` then decimal digits: a wait of that many tenths of a second (no
//!   digits: zero), saturated at `u32::MAX`;
//! - `p` then `1`: power on, anything else: power off, with no sequence.

use vstd::prelude::*;

verus! {

#[derive(Clone, Copy, PartialEq, Eq, Structural, Debug)]
pub enum PinState {
    High,
    Low,
    Floating,
}

#[derive(Clone, Copy, PartialEq, Eq, Structural, Debug)]
pub enum Line {
    Reset,
    A,
    B,
    C,
    D,
}

/// One physical action on the hardware.
#[derive(Clone, Copy, PartialEq, Eq, Structural, Debug)]
pub enum LineOp {
    /// Drive a line to a state.
    Drive(Line, PinState),
    /// Switch the main power enable on or off.
    Enable(bool),
    /// Wait this many tenths of a second.
    Wait(u32),
}

/// The requested state of each line, and whether power is marked on.
#[derive(Clone, Copy, PartialEq, Eq, Structural, Debug)]
pub struct Lines {
    pub a: PinState,
    pub b: PinState,
    pub c: PinState,
    pub d: PinState,
    pub reset: PinState,
    pub on: bool,
}

/// The engine as a whole: its lines and every operation issued so far.
pub struct EngineState {
    pub lines: Lines,
    pub ops: Seq<LineOp>,
}

/// A state that is safe to hold while the device is unpowered.
pub open spec fn spec_off_tolerant(state: PinState) -> bool {
    state == PinState::Low || state == PinState::Floating
}

pub fn off_tolerant(state: PinState) -> (r: bool)
    ensures
        r == spec_off_tolerant(state),
{
    match state {
        PinState::Floating => true,
        PinState::Low => true,
        _ => false,
    }
}

/// What a line is physically driven to when `requested` is asked for:
/// nothing (`None`) for a high request while power is off.
pub open spec fn spec_physical_drive(requested: PinState, power_on: bool) -> Option<PinState> {
    if power_on || spec_off_tolerant(requested) {
        Some(requested)
    } else {
        None
    }
}

pub fn physical_drive(requested: PinState, power_on: bool) -> (r: Option<PinState>)
    ensures
        r == spec_physical_drive(requested, power_on),
{
    if power_on || off_tolerant(requested) {
        Some(requested)
    } else {
        None
    }
}

pub open spec fn stored_of(l: Lines, line: Line) -> PinState {
    match line {
        Line::A => l.a,
        Line::B => l.b,
        Line::C => l.c,
        Line::D => l.d,
        Line::Reset => l.reset,
    }
}

pub open spec fn with_stored(l: Lines, line: Line, s: PinState) -> Lines {
    match line {
        Line::A => Lines { a: s, ..l },
        Line::B => Lines { b: s, ..l },
        Line::C => Lines { c: s, ..l },
        Line::D => Lines { d: s, ..l },
        Line::Reset => Lines { reset: s, ..l },
    }
}

pub open spec fn emit(e: EngineState, op: LineOp) -> EngineState {
    EngineState { lines: e.lines, ops: e.ops.push(op) }
}

/// A request for `line`: it is stored, and driven unless withheld.
pub open spec fn set_spec(e: EngineState, line: Line, s: PinState) -> EngineState {
    let l = with_stored(e.lines, line, s);
    match spec_physical_drive(s, e.lines.on) {
        Some(p) => EngineState { lines: l, ops: e.ops.push(LineOp::Drive(line, p)) },
        None => EngineState { lines: l, ops: e.ops },
    }
}

/// Every line driven to its requested state, in the order A, B, C, D, Reset.
pub open spec fn reapply_ops(l: Lines) -> Seq<LineOp> {
    seq![
        LineOp::Drive(Line::A, l.a),
        LineOp::Drive(Line::B, l.b),
        LineOp::Drive(Line::C, l.c),
        LineOp::Drive(Line::D, l.d),
        LineOp::Drive(Line::Reset, l.reset),
    ]
}

pub open spec fn float_op(line: Line, s: PinState) -> Seq<LineOp> {
    if spec_off_tolerant(s) {
        seq![]
    } else {
        seq![LineOp::Drive(line, PinState::Floating)]
    }
}

/// Every line whose request is not off-tolerant let float, in the order A,
/// B, C, D, Reset.
pub open spec fn float_ops(l: Lines) -> Seq<LineOp> {
    float_op(Line::A, l.a) + float_op(Line::B, l.b) + float_op(Line::C, l.c) + float_op(
        Line::D,
        l.d,
    ) + float_op(Line::Reset, l.reset)
}

pub open spec fn with_power(e: EngineState, on: bool) -> EngineState {
    EngineState { lines: Lines { on, ..e.lines }, ops: e.ops }
}

/// Power on with no sequence: lines re-applied, enable on.
pub open spec fn power_on_plain(e: EngineState) -> EngineState {
    with_power(
        EngineState { lines: e.lines, ops: e.ops + reapply_ops(e.lines) + seq![LineOp::Enable(true)] },
        true,
    )
}

/// Power off with no sequence: lines that are not off-tolerant let float,
/// enable off.
pub open spec fn power_off_plain(e: EngineState) -> EngineState {
    with_power(
        EngineState { lines: e.lines, ops: e.ops + float_ops(e.lines) + seq![LineOp::Enable(false)] },
        false,
    )
}

/// ASCII upper-case letters to lower case; other bytes unchanged.
pub open spec fn spec_lower(ch: u8) -> u8 {
    if 65 <= ch <= 90 {
        (ch + 32) as u8
    } else {
        ch
    }
}

pub open spec fn spec_status(ch: u8) -> PinState {
    if spec_lower(ch) == 104 {
        PinState::High
    } else if spec_lower(ch) == 108 {
        PinState::Low
    } else {
        PinState::Floating
    }
}

/// The line that a lower-case order letter names.
pub open spec fn line_of(c: u8) -> Option<Line> {
    if c == 97 {
        Some(Line::A)
    } else if c == 98 {
        Some(Line::B)
    } else if c == 99 {
        Some(Line::C)
    } else if c == 100 {
        Some(Line::D)
    } else if c == 114 {
        Some(Line::Reset)
    } else {
        None
    }
}

pub open spec fn is_digit(ch: u8) -> bool {
    48 <= ch <= 57
}

/// The end of the run of digits that starts at `q`.
pub open spec fn digits_end(s: Seq<u8>, q: int) -> int
    decreases s.len() - q,
{
    if 0 <= q < s.len() && is_digit(s[q]) {
        digits_end(s, q + 1)
    } else {
        q
    }
}

/// The decimal value of the digits `s[from..end]`.
pub open spec fn decimal(s: Seq<u8>, from: int, end: int) -> nat
    decreases end - from,
{
    if end <= from {
        0
    } else {
        decimal(s, from, end - 1) * 10 + (s[end - 1] - 48) as nat
    }
}

pub open spec fn saturate(n: nat) -> u32 {
    if n >= u32::MAX {
        u32::MAX
    } else {
        n as u32
    }
}

/// The engine after running the orders of `s` from position `p` on.
pub open spec fn run_from(e: EngineState, s: Seq<u8>, p: int) -> EngineState
    decreases s.len() - p,
{
    if p < 0 || p + 1 >= s.len() {
        e
    } else {
        let c = spec_lower(s[p]);
        if c == 0 {
            e
        } else if line_of(c) is Some {
            run_from(emit(e, LineOp::Drive(line_of(c)->Some_0, spec_status(s[p + 1]))), s, p + 2)
        } else if c == 119 {
            let end = digits_end(s, p + 1);
            if p < end <= s.len() {
                run_from(emit(e, LineOp::Wait(saturate(decimal(s, p + 1, end)))), s, end)
            } else {
                e
            }
        } else if c == 112 {
            let e2 = if s[p + 1] == 49 {
                power_on_plain(e)
            } else {
                power_off_plain(e)
            };
            run_from(e2, s, p + 2)
        } else if c == 44 {
            run_from(e, s, p + 1)
        } else {
            let next = token_end(s, p + 1);
            if p < next <= s.len() {
                run_from(e, s, next)
            } else {
                e
            }
        }
    }
}

/// The position of the first comma or zero byte at or after `q`, or the
/// length: where an unknown order ends.
pub open spec fn token_end(s: Seq<u8>, q: int) -> int
    decreases s.len() - q,
{
    if 0 <= q < s.len() && s[q] != 44 && s[q] != 0 {
        token_end(s, q + 1)
    } else {
        q
    }
}

proof fn lemma_token_end(s: Seq<u8>, q: int)
    requires
        0 <= q <= s.len(),
    ensures
        q <= token_end(s, q) <= s.len(),
    decreases s.len() - q,
{
    if q < s.len() && s[q] != 44 && s[q] != 0 {
        lemma_token_end(s, q + 1);
    }
}

/// No sequence: empty, or starting with a zero byte.
pub open spec fn no_sequence(s: Seq<u8>) -> bool {
    s.len() == 0 || s[0] == 0
}

/// Power on: every line re-applied, then the sequence run (or the enable
/// switched on when there is none), then power marked on.
pub open spec fn power_on_spec(e: EngineState, s: Seq<u8>) -> EngineState {
    if no_sequence(s) {
        power_on_plain(e)
    } else {
        with_power(run_from(EngineState { lines: e.lines, ops: e.ops + reapply_ops(e.lines) }, s, 0), true)
    }
}

/// Power off: the sequence run (if any), then every line whose request is
/// not off-tolerant let float, then the enable switched off and power
/// marked off.
pub open spec fn power_off_spec(e: EngineState, s: Seq<u8>) -> EngineState {
    if no_sequence(s) {
        power_off_plain(e)
    } else {
        power_off_plain(run_from(e, s, 0))
    }
}

/// While power is off, a request is always stored; it is driven at once
/// when off-tolerant and withheld otherwise.
pub proof fn lemma_unpowered_requests(e: EngineState, line: Line, s: PinState)
    requires
        !e.lines.on,
    ensures
        stored_of(set_spec(e, line, s).lines, line) == s,
        !set_spec(e, line, s).lines.on,
        !spec_off_tolerant(s) ==> set_spec(e, line, s).ops == e.ops,
        spec_off_tolerant(s) ==> set_spec(e, line, s).ops == e.ops.push(LineOp::Drive(line, s)),
{
}

/// A power on first drives every line to its stored request, withheld ones
/// included, whatever sequence follows.
pub proof fn lemma_power_on_applies_requests(e: EngineState, s: Seq<u8>)
    ensures
        power_on_spec(e, s).ops.len() >= e.ops.len() + 5,
        power_on_spec(e, s).ops.subrange(0, e.ops.len() + 5int) == e.ops + reapply_ops(e.lines),
        power_on_spec(e, s).lines == (Lines { on: true, ..e.lines }),
{
    let e1 = EngineState { lines: e.lines, ops: e.ops + reapply_ops(e.lines) };
    if no_sequence(s) {
        assert(power_on_spec(e, s).ops.subrange(0, e.ops.len() + 5int) =~= e.ops + reapply_ops(e.lines));
    } else {
        lemma_run_from_extends(e1, s, 0);
        assert(power_on_spec(e, s).ops.subrange(0, e.ops.len() + 5int) =~= e1.ops);
    }
}

/// Running a sequence keeps the stored requests and only appends
/// operations.
pub proof fn lemma_run_from_extends(e: EngineState, s: Seq<u8>, p: int)
    ensures
        run_from(e, s, p).ops.len() >= e.ops.len(),
        run_from(e, s, p).ops.subrange(0, e.ops.len() as int) == e.ops,
        run_from(e, s, p).lines == (Lines { on: run_from(e, s, p).lines.on, ..e.lines }),
    decreases s.len() - p,
{
    if p < 0 || p + 1 >= s.len() {
        assert(e.ops.subrange(0, e.ops.len() as int) =~= e.ops);
    } else {
        let c = spec_lower(s[p]);
        if c == 0 {
            assert(e.ops.subrange(0, e.ops.len() as int) =~= e.ops);
        } else if line_of(c) is Some {
            let e2 = emit(e, LineOp::Drive(line_of(c)->Some_0, spec_status(s[p + 1])));
            lemma_run_from_extends(e2, s, p + 2);
            assert(run_from(e, s, p).ops.subrange(0, e.ops.len() as int) =~= run_from(e, s, p).ops.subrange(0, e2.ops.len() as int).subrange(0, e.ops.len() as int));
        } else if c == 119 {
            let end = digits_end(s, p + 1);
            if p < end <= s.len() {
                let e2 = emit(e, LineOp::Wait(saturate(decimal(s, p + 1, end))));
                lemma_run_from_extends(e2, s, end);
                assert(run_from(e, s, p).ops.subrange(0, e.ops.len() as int) =~= run_from(e, s, p).ops.subrange(0, e2.ops.len() as int).subrange(0, e.ops.len() as int));
            } else {
                assert(e.ops.subrange(0, e.ops.len() as int) =~= e.ops);
            }
        } else if c == 112 {
            let e2 = if s[p + 1] == 49 {
                power_on_plain(e)
            } else {
                power_off_plain(e)
            };
            lemma_run_from_extends(e2, s, p + 2);
            assert(e2.ops.subrange(0, e.ops.len() as int) =~= e.ops);
            assert(run_from(e, s, p).ops.subrange(0, e.ops.len() as int) =~= run_from(e, s, p).ops.subrange(0, e2.ops.len() as int).subrange(0, e.ops.len() as int));
        } else if c == 44 {
            lemma_run_from_extends(e, s, p + 1);
        } else {
            let next = token_end(s, p + 1);
            if p < next <= s.len() {
                lemma_run_from_extends(e, s, next);
            } else {
                assert(e.ops.subrange(0, e.ops.len() as int) =~= e.ops);
            }
        }
    }
}

/// The order letter of a line.
pub open spec fn line_letter(l: Line) -> u8 {
    match l {
        Line::A => 97,
        Line::B => 98,
        Line::C => 99,
        Line::D => 100,
        Line::Reset => 114,
    }
}

/// Where a line stands among the operations that re-apply every request.
pub open spec fn reapply_index(l: Line) -> int {
    match l {
        Line::A => 0,
        Line::B => 1,
        Line::C => 2,
        Line::D => 3,
        Line::Reset => 4,
    }
}

/// `op` drives line `l`.
pub open spec fn drives(op: LineOp, l: Line) -> bool {
    op is Drive && op->Drive_0 == l
}

/// No byte of `s` names line `l` or a power order, whatever its case.
pub open spec fn avoids(s: Seq<u8>, l: Line) -> bool {
    forall|i: int| 0 <= i < s.len() ==> spec_lower(#[trigger] s[i]) != line_letter(l)
        && spec_lower(s[i]) != 112
}

/// A sequence that names neither `line` nor a power order keeps the
/// requests and the power mark, and issues no operation on `line`.
pub proof fn lemma_run_from_avoids(e: EngineState, s: Seq<u8>, p: int, line: Line)
    requires
        avoids(s, line),
    ensures
        run_from(e, s, p).lines == e.lines,
        run_from(e, s, p).ops.len() >= e.ops.len(),
        run_from(e, s, p).ops.subrange(0, e.ops.len() as int) == e.ops,
        forall|k: int|
            e.ops.len() <= k < run_from(e, s, p).ops.len() ==> !drives(
                #[trigger] run_from(e, s, p).ops[k],
                line,
            ),
    decreases s.len() - p,
{
    if p < 0 || p + 1 >= s.len() {
        assert(e.ops.subrange(0, e.ops.len() as int) =~= e.ops);
    } else {
        let c = spec_lower(s[p]);
        if c == 0 {
            assert(e.ops.subrange(0, e.ops.len() as int) =~= e.ops);
        } else if line_of(c) is Some {
            let e2 = emit(e, LineOp::Drive(line_of(c)->Some_0, spec_status(s[p + 1])));
            assert(c != line_letter(line));
            assert(line_of(c)->Some_0 != line);
            lemma_run_from_avoids(e2, s, p + 2, line);
            let f = run_from(e, s, p);
            assert(f.ops.subrange(0, e.ops.len() as int) =~= f.ops.subrange(
                0,
                e2.ops.len() as int,
            ).subrange(0, e.ops.len() as int));
            assert forall|k: int| e.ops.len() <= k < f.ops.len() implies !drives(
                #[trigger] f.ops[k],
                line,
            ) by {
                if k == e.ops.len() {
                    assert(f.ops[k] == f.ops.subrange(0, e2.ops.len() as int)[k]);
                }
            }
        } else if c == 119 {
            let end = digits_end(s, p + 1);
            if p < end <= s.len() {
                let e2 = emit(e, LineOp::Wait(saturate(decimal(s, p + 1, end))));
                lemma_run_from_avoids(e2, s, end, line);
                let f = run_from(e, s, p);
                assert(f.ops.subrange(0, e.ops.len() as int) =~= f.ops.subrange(
                    0,
                    e2.ops.len() as int,
                ).subrange(0, e.ops.len() as int));
                assert forall|k: int| e.ops.len() <= k < f.ops.len() implies !drives(
                    #[trigger] f.ops[k],
                    line,
                ) by {
                    if k == e.ops.len() {
                        assert(f.ops[k] == f.ops.subrange(0, e2.ops.len() as int)[k]);
                    }
                }
            } else {
                assert(e.ops.subrange(0, e.ops.len() as int) =~= e.ops);
            }
        } else if c == 112 {
            assert(false);
        } else if c == 44 {
            lemma_run_from_avoids(e, s, p + 1, line);
        } else {
            let next = token_end(s, p + 1);
            if p < next <= s.len() {
                lemma_run_from_avoids(e, s, next, line);
            } else {
                assert(e.ops.subrange(0, e.ops.len() as int) =~= e.ops);
            }
        }
    }
}

/// A power on whose sequence names neither `line` nor a power order drives
/// `line` exactly once, to its stored request, also one that was withheld
/// while power was off; power is then marked on.
pub proof fn lemma_power_on_drives_line_once(e: EngineState, s: Seq<u8>, line: Line)
    requires
        avoids(s, line),
    ensures
        power_on_spec(e, s).ops.len() > e.ops.len() + reapply_index(line),
        power_on_spec(e, s).ops[e.ops.len() + reapply_index(line)] == LineOp::Drive(
            line,
            stored_of(e.lines, line),
        ),
        forall|k: int|
            e.ops.len() <= k < power_on_spec(e, s).ops.len() && drives(
                #[trigger] power_on_spec(e, s).ops[k],
                line,
            ) ==> k == e.ops.len() + reapply_index(line),
        power_on_spec(e, s).lines.on,
{
    let e1 = EngineState { lines: e.lines, ops: e.ops + reapply_ops(e.lines) };
    let f = power_on_spec(e, s);
    let n = e.ops.len() as int;
    if no_sequence(s) {
        assert(f.ops =~= e1.ops.push(LineOp::Enable(true)));
    } else {
        lemma_run_from_avoids(e1, s, 0, line);
        assert forall|k: int| n <= k < n + 5 implies f.ops[k] == e1.ops[k] by {
            assert(f.ops.subrange(0, e1.ops.len() as int)[k] == f.ops[k]);
        }
    }
    assert forall|k: int| n <= k < f.ops.len() && drives(#[trigger] f.ops[k], line) implies k == n
        + reapply_index(line) by {
        if k < n + 5 {
            assert(f.ops[k] == e1.ops[k]);
            assert(e1.ops[k] == reapply_ops(e.lines)[k - n]);
        }
    }
    assert(f.ops[n + reapply_index(line)] == e1.ops[n + reapply_index(line)]);
    assert(e1.ops[n + reapply_index(line)] == reapply_ops(e.lines)[reapply_index(line)]);
}

proof fn lemma_digits_end(s: Seq<u8>, q: int)
    requires
        0 <= q,
    ensures
        q <= digits_end(s, q),
        q <= s.len() ==> digits_end(s, q) <= s.len(),
        forall|j: int| q <= j < digits_end(s, q) ==> is_digit(#[trigger] s[j]),
        digits_end(s, q) < s.len() ==> !is_digit(s[digits_end(s, q)]),
    decreases s.len() - q,
{
    if 0 <= q < s.len() && is_digit(s[q]) {
        lemma_digits_end(s, q + 1);
    }
}

proof fn lemma_saturate_step(prev: nat, d: nat, w: u32)
    requires
        w == saturate(prev),
        d <= 9,
    ensures
        saturate(prev * 10 + d) == (if w as nat * 10 + d > u32::MAX as nat {
            u32::MAX as nat
        } else {
            w as nat * 10 + d
        }),
{
    if prev >= u32::MAX {
        assert(prev * 10 + d >= u32::MAX) by (nonlinear_arith)
            requires
                prev >= u32::MAX,
        ;
        assert(w as nat * 10 + d > u32::MAX as nat) by (nonlinear_arith)
            requires
                w == u32::MAX,
        ;
    }
}

/// The operations a caller asks of the control lines.
pub trait CTLPinsTrait {
    spec fn engine(&self) -> EngineState;

    fn set_ctl_a(&mut self, state: PinState)
        ensures
            final(self).engine() == set_spec(old(self).engine(), Line::A, state),
    ;

    fn set_ctl_b(&mut self, state: PinState)
        ensures
            final(self).engine() == set_spec(old(self).engine(), Line::B, state),
    ;

    fn set_ctl_c(&mut self, state: PinState)
        ensures
            final(self).engine() == set_spec(old(self).engine(), Line::C, state),
    ;

    fn set_ctl_d(&mut self, state: PinState)
        ensures
            final(self).engine() == set_spec(old(self).engine(), Line::D, state),
    ;

    fn set_reset(&mut self, state: PinState)
        ensures
            final(self).engine() == set_spec(old(self).engine(), Line::Reset, state),
    ;

    /// Guided power on with `on_seq`, or a plain one when it is empty.
    fn power_on(&mut self, on_seq: &[u8])
        ensures
            final(self).engine() == power_on_spec(old(self).engine(), on_seq@),
    ;

    /// Guided power off with `off_seq`, or a plain one when it is empty.
    fn power_off(&mut self, off_seq: &[u8])
        ensures
            final(self).engine() == power_off_spec(old(self).engine(), off_seq@),
    ;
}

/// The sequence engine: requested line states, the power mark, and the
/// operations issued and not yet taken by the caller.
pub struct CTLPins {
    lines: Lines,
    ops: Vec<LineOp>,
}

impl View for CTLPins {
    type V = EngineState;

    closed spec fn view(&self) -> EngineState {
        EngineState { lines: self.lines, ops: self.ops@ }
    }
}

pub fn lower(ch: u8) -> (r: u8)
    ensures
        r == spec_lower(ch),
{
    if ch > 64 && ch < 91 {
        ch + 32
    } else {
        ch
    }
}

pub fn status_from_u8(ch: u8) -> (r: PinState)
    ensures
        r == spec_status(ch),
{
    let c = lower(ch);
    if c == 104 {
        PinState::High
    } else if c == 108 {
        PinState::Low
    } else {
        PinState::Floating
    }
}

/// The end of an unknown order that goes on from `q`.
fn skip_token(s: &[u8], q: usize) -> (r: usize)
    requires
        q <= s@.len(),
    ensures
        r == token_end(s@, q as int),
{
    let mut i = q;
    while i < s.len() && s[i] != 44 && s[i] != 0
        invariant
            q <= i <= s@.len(),
            token_end(s@, q as int) == token_end(s@, i as int),
        decreases s@.len() - i,
    {
        i = i + 1;
    }
    i
}

fn line_from_letter(c: u8) -> (r: Option<Line>)
    ensures
        r == line_of(c),
{
    if c == 97 {
        Some(Line::A)
    } else if c == 98 {
        Some(Line::B)
    } else if c == 99 {
        Some(Line::C)
    } else if c == 100 {
        Some(Line::D)
    } else if c == 114 {
        Some(Line::Reset)
    } else {
        None
    }
}

impl CTLPins {
    /// Every line requested floating and driven so, then a plain power off.
    pub fn new() -> (r: Self)
        ensures
            r@.lines == (Lines {
                a: PinState::Floating,
                b: PinState::Floating,
                c: PinState::Floating,
                d: PinState::Floating,
                reset: PinState::Floating,
                on: false,
            }),
            r@.ops == seq![
                LineOp::Drive(Line::A, PinState::Floating),
                LineOp::Drive(Line::B, PinState::Floating),
                LineOp::Drive(Line::C, PinState::Floating),
                LineOp::Drive(Line::D, PinState::Floating),
                LineOp::Drive(Line::Reset, PinState::Floating),
                LineOp::Enable(false),
            ],
    {
        let mut r = CTLPins {
            lines: Lines {
                a: PinState::Floating,
                b: PinState::Floating,
                c: PinState::Floating,
                d: PinState::Floating,
                reset: PinState::Floating,
                on: false,
            },
            ops: Vec::new(),
        };
        r.set(Line::A, PinState::Floating);
        r.set(Line::B, PinState::Floating);
        r.set(Line::C, PinState::Floating);
        r.set(Line::D, PinState::Floating);
        r.set(Line::Reset, PinState::Floating);
        r.power_off_plain();
        assert(r@.ops =~= seq![
            LineOp::Drive(Line::A, PinState::Floating),
            LineOp::Drive(Line::B, PinState::Floating),
            LineOp::Drive(Line::C, PinState::Floating),
            LineOp::Drive(Line::D, PinState::Floating),
            LineOp::Drive(Line::Reset, PinState::Floating),
            LineOp::Enable(false),
        ]);
        r
    }

    /// The requested line states and the power mark.
    pub fn lines(&self) -> (r: Lines)
        ensures
            r == self@.lines,
    {
        self.lines
    }

    /// Hands over the operations issued so far, in order, and forgets them.
    pub fn take_ops(&mut self) -> (r: Vec<LineOp>)
        ensures
            r@ == old(self)@.ops,
            final(self)@.lines == old(self)@.lines,
            final(self)@.ops == Seq::<LineOp>::empty(),
    {
        let mut taken: Vec<LineOp> = Vec::new();
        std::mem::swap(&mut taken, &mut self.ops);
        taken
    }

    fn drive(&mut self, line: Line, state: PinState)
        ensures
            final(self)@ == emit(old(self)@, LineOp::Drive(line, state)),
    {
        self.ops.push(LineOp::Drive(line, state));
    }

    fn store(&mut self, line: Line, state: PinState)
        ensures
            final(self)@ == (EngineState {
                lines: with_stored(old(self)@.lines, line, state),
                ops: old(self)@.ops,
            }),
    {
        match line {
            Line::A => self.lines.a = state,
            Line::B => self.lines.b = state,
            Line::C => self.lines.c = state,
            Line::D => self.lines.d = state,
            Line::Reset => self.lines.reset = state,
        }
    }

    /// Stores the request for `line` and drives it, unless it is a high
    /// request while power is off.
    pub fn set(&mut self, line: Line, state: PinState)
        ensures
            final(self)@ == set_spec(old(self)@, line, state),
    {
        let on = self.lines.on;
        self.store(line, state);
        match physical_drive(state, on) {
            Some(p) => self.drive(line, p),
            None => {},
        }
    }

    fn reapply(&mut self)
        ensures
            final(self)@ == (EngineState {
                lines: old(self)@.lines,
                ops: old(self)@.ops + reapply_ops(old(self)@.lines),
            }),
    {
        let l = self.lines;
        self.drive(Line::A, l.a);
        self.drive(Line::B, l.b);
        self.drive(Line::C, l.c);
        self.drive(Line::D, l.d);
        self.drive(Line::Reset, l.reset);
        assert(self@.ops =~= old(self)@.ops + reapply_ops(l));
    }

    fn float_if_not_tolerant(&mut self, line: Line, requested: PinState)
        ensures
            final(self)@ == (EngineState {
                lines: old(self)@.lines,
                ops: old(self)@.ops + float_op(line, requested),
            }),
    {
        if !off_tolerant(requested) {
            self.drive(line, PinState::Floating);
        }
        assert(self@.ops =~= old(self)@.ops + float_op(line, requested));
    }

    fn float_not_off_tolerant(&mut self)
        ensures
            final(self)@ == (EngineState {
                lines: old(self)@.lines,
                ops: old(self)@.ops + float_ops(old(self)@.lines),
            }),
    {
        let l = self.lines;
        self.float_if_not_tolerant(Line::A, l.a);
        self.float_if_not_tolerant(Line::B, l.b);
        self.float_if_not_tolerant(Line::C, l.c);
        self.float_if_not_tolerant(Line::D, l.d);
        self.float_if_not_tolerant(Line::Reset, l.reset);
        assert(self@.ops =~= old(self)@.ops + float_ops(l));
    }

    fn power_on_plain(&mut self)
        ensures
            final(self)@ == power_on_plain(old(self)@),
    {
        self.reapply();
        self.ops.push(LineOp::Enable(true));
        self.lines.on = true;
        assert(self@.ops =~= old(self)@.ops + reapply_ops(old(self)@.lines) + seq![LineOp::Enable(true)]);
    }

    fn power_off_plain(&mut self)
        ensures
            final(self)@ == power_off_plain(old(self)@),
    {
        self.float_not_off_tolerant();
        self.ops.push(LineOp::Enable(false));
        self.lines.on = false;
        assert(self@.ops =~= old(self)@.ops + float_ops(old(self)@.lines) + seq![
            LineOp::Enable(false),
        ]);
    }

    /// Reads the digits from `q` on and issues the wait they give; returns
    /// the position after them.
    fn wait(&mut self, sequence: &[u8], q: usize) -> (r: usize)
        requires
            q <= sequence@.len(),
        ensures
            r == digits_end(sequence@, q as int),
            final(self)@ == emit(
                old(self)@,
                LineOp::Wait(saturate(decimal(sequence@, q as int, r as int))),
            ),
    {
        let ghost s = sequence@;
        proof {
            lemma_digits_end(s, q as int);
        }
        let mut i: usize = q;
        let mut units: u32 = 0;
        while i < sequence.len() && sequence[i] >= 48 && sequence[i] <= 57
            invariant
                s == sequence@,
                q <= i <= s.len(),
                digits_end(s, q as int) == digits_end(s, i as int),
                units == saturate(decimal(s, q as int, i as int)),
            decreases s.len() - i,
        {
            let d = (sequence[i] - 48) as u32;
            proof {
                lemma_saturate_step(decimal(s, q as int, i as int), d as nat, units);
                assert(decimal(s, q as int, i + 1) == decimal(s, q as int, i as int) * 10 + d as nat);
            }
            units = match units.checked_mul(10) {
                Some(m) => m.saturating_add(d),
                None => u32::MAX,
            };
            i = i + 1;
        }
        self.ops.push(LineOp::Wait(units));
        i
    }

    /// Runs the orders of `sequence` in turn.
    pub fn run_sequence(&mut self, sequence: &[u8])
        ensures
            final(self)@ == run_from(old(self)@, sequence@, 0),
    {
        let ghost s = sequence@;
        let mut p: usize = 0;
        let mut done = false;
        while !done && p < sequence.len() && sequence.len() - p > 1
            invariant
                s == sequence@,
                p <= s.len(),
                !done ==> run_from(self@, s, p as int) == run_from(old(self)@, s, 0),
                done ==> self@ == run_from(old(self)@, s, 0),
            decreases s.len() - p + (if done {
                0int
            } else {
                1int
            }),
        {
            let c = lower(sequence[p]);
            if c == 0 {
                done = true;
            } else {
                match line_from_letter(c) {
                    Some(line) => {
                        self.drive(line, status_from_u8(sequence[p + 1]));
                        p = p + 2;
                    },
                    None => {
                        if c == 119 {
                            proof {
                                lemma_digits_end(s, p + 1);
                            }
                            p = self.wait(sequence, p + 1);
                        } else if c == 112 {
                            if sequence[p + 1] == 49 {
                                self.power_on_plain();
                            } else {
                                self.power_off_plain();
                            }
                            p = p + 2;
                        } else if c == 44 {
                            p = p + 1;
                        } else {
                            proof {
                                lemma_token_end(s, p + 1);
                            }
                            p = skip_token(sequence, p + 1);
                        }
                    },
                }
            }
        }
    }
}

impl CTLPinsTrait for CTLPins {
    open spec fn engine(&self) -> EngineState {
        self@
    }

    fn set_ctl_a(&mut self, state: PinState) {
        self.set(Line::A, state);
    }

    fn set_ctl_b(&mut self, state: PinState) {
        self.set(Line::B, state);
    }

    fn set_ctl_c(&mut self, state: PinState) {
        self.set(Line::C, state);
    }

    fn set_ctl_d(&mut self, state: PinState) {
        self.set(Line::D, state);
    }

    fn set_reset(&mut self, state: PinState) {
        self.set(Line::Reset, state);
    }

    fn power_on(&mut self, on_seq: &[u8]) {
        if on_seq.len() == 0 || on_seq[0] == 0 {
            self.power_on_plain();
        } else {
            self.reapply();
            self.run_sequence(on_seq);
            self.lines.on = true;
        }
    }

    fn power_off(&mut self, off_seq: &[u8]) {
        if !(off_seq.len() == 0 || off_seq[0] == 0) {
            self.run_sequence(off_seq);
        }
        self.power_off_plain();
    }
}

} // verus!
