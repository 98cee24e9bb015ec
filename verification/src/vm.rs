//! Deterministic core of the UK2 MES interpreter: variables, strings,
//! expression evaluation, conditions, control flow and MES-to-MES calls.
//! Presentation and device commands go to a [`Uk2Host`].
use vstd::prelude::*;

use crate::disasm::{
    args_view, last_offset, spec_decode, ArgV, Instruction, InstructionArg, InstructionKind, KindV, ResourceArgument,
    decode_instruction,
};
use crate::mes::{MES_CODE_OFFSET, MesProgram};
use crate::opcode::TwoOpcode;
use crate::value::{
    BoolJoin, ClauseV, CompareOp, Condition, ConditionClause, Expression, ExpressionOp,
    ExpressionTerm, ExpressionV, IndirectKind, InlineStringPart, InlineStringPartV, Operand,
    OperandV, TermV,
};

verus! {

pub const FIXED_STRING_MAX_LEN: usize = 0x3e;
pub const LARGE_STRING_MAX_LEN: usize = 0x7d2;
pub const TEXT_SLOT_MAX_LEN: usize = 0x15;
/// One 60 Hz timer tick in nanoseconds.
pub const TICK_NANOS: u128 = 16_666_667;

#[derive(Debug, Clone, Copy, PartialEq, Eq)]
pub enum NumericWidth {
    Byte,
    Word,
}

#[derive(Debug, Clone, PartialEq, Eq)]
pub enum RuntimeValue {
    Number { value: u16, width: NumericWidth },
    String(Vec<u8>),
}

/// Model of a runtime value.
pub enum Val {
    Number { value: u16, width: NumericWidth },
    Str(Seq<u8>),
}

impl RuntimeValue {
    pub open spec fn view(&self) -> Val {
        match self {
            RuntimeValue::Number { value, width } => Val::Number { value: *value, width: *width },
            RuntimeValue::String(b) => Val::Str(b@),
        }
    }

    pub fn number(&self) -> (res: Result<u16, VmError>)
        ensures
            match self.view() {
                Val::Number { value, .. } => res == Ok::<u16, VmError>(value),
                Val::Str(_) => res == Err::<u16, VmError>(VmError::ExpectedNumber),
            },
    {
        match self {
            RuntimeValue::Number { value, .. } => Ok(*value),
            RuntimeValue::String(_) => Err(VmError::ExpectedNumber),
        }
    }

    pub fn string(&self) -> (res: Result<&[u8], VmError>)
        ensures
            match self.view() {
                Val::Str(b) => res is Ok && res.unwrap()@ == b,
                Val::Number { .. } => res == Err::<&[u8], VmError>(VmError::ExpectedString),
            },
    {
        match self {
            RuntimeValue::String(bytes) => Ok(bytes.as_slice()),
            RuntimeValue::Number { .. } => Err(VmError::ExpectedString),
        }
    }
}

/// Errors of the interpreter core.
#[derive(Debug, Clone, Copy, PartialEq, Eq)]
pub enum VmError {
    ExpectedNumber,
    ExpectedString,
    /// Mouse events are only counted in slots 1 and 3.
    BadMouseSlot(u8),
    /// A system or local word index beyond its table.
    IndexOutOfRange,
    /// Inline string slot 0 (slots are one-based).
    ZeroSlot,
    /// A string beyond its destination's limit.
    StringTooLong,
    /// An indexed-byte index above 0x100.
    IndexTooLarge,
    /// A class-4 selector other than 5 and 8.
    UnknownSelector(u8),
    /// A class-5 kind other than byte, word and string.
    UnknownIndirectKind(u8),
    /// Immediates and inline strings cannot be written.
    NotWritable,
    DivisionByZero,
    /// An operation other than set and add on a string.
    StringOperation,
    /// A condition compares a string with a number.
    MixedComparison,
    /// Decoding failed at the program counter.
    Decode(usize),
    ReturnOutOfRange(i16),
    /// A jump leaves the bytecode.
    JumpOutside(usize),
    /// A callee returned a status below what its caller requires.
    CalleeStatus(u16),
    /// A command lacks an argument of the required shape.
    MissingArgument,
    /// A condition reached a service command.
    ConditionArgument,
    InstructionLimit(usize),
    /// Text-slot index above 255.
    TextSlotIndex,
    /// Error reported by the host.
    Host,
}


// ---- clock ----------------------------------------------------------------------

#[verifier::external_type_specification]
#[verifier::external_body]
pub struct ExInstant(std::time::Instant);

/// `Instant::now`: the current point of the monotonic clock.  Nothing is
/// stated of it: it depends on the time of the call.
#[verifier::external_body]
fn instant_now() -> std::time::Instant {
    std::time::Instant::now()
}

/// `Instant::elapsed`: time since `since`.  It depends on the time of the
/// call, so nothing is stated of it.
#[verifier::external_body]
fn instant_elapsed(since: &std::time::Instant) -> std::time::Duration {
    since.elapsed()
}

/// `Duration::as_nanos`: the whole nanoseconds of a duration.  Durations are
/// opaque here, so only the type of the result is known.
#[verifier::external_body]
fn duration_nanos(d: &std::time::Duration) -> u128 {
    d.as_nanos()
}

// ---- memory ---------------------------------------------------------------------

/// Script-visible interpreter memory.
#[derive(Debug)]
pub struct Uk2Memory {
    system_words: Vec<u16>,
    fixed_strings: Vec<Vec<u8>>,
    local_words: Vec<u16>,
    indexed_5: Vec<u8>,
    indexed_8: Vec<u8>,
    indirect_bytes: Vec<u8>,
    indirect_words: Vec<u16>,
    /// Clock origin; deadlines are nanoseconds after it.
    epoch: std::time::Instant,
    timer16_deadline: Option<u128>,
    timer16_fast_forward: bool,
    mouse_event_deadline: Option<u128>,
    mouse_event_ticks: u16,
    indirect_strings: Vec<Vec<u8>>,
    large_strings: Vec<Vec<u8>>,
    table5_slots: Vec<Vec<u8>>,
    table6_slots: Vec<Vec<u8>>,
}

/// Model of [`Uk2Memory`].  Table entries that UK2.EXE never wrote are
/// the zero / empty entries here.
pub struct MemV {
    pub system_words: Seq<u16>,
    pub fixed_strings: Seq<Seq<u8>>,
    pub local_words: Seq<u16>,
    pub indexed_5: Seq<u8>,
    pub indexed_8: Seq<u8>,
    pub indirect_bytes: Seq<u8>,
    pub indirect_words: Seq<u16>,
    pub indirect_strings: Seq<Seq<u8>>,
    pub large_strings: Seq<Seq<u8>>,
    pub table5: Seq<Seq<u8>>,
    pub table6: Seq<Seq<u8>>,
    pub fast_forward: bool,
    pub mouse_event_ticks: u16,
    pub timer16_armed: bool,
}

pub open spec fn strings_view(v: Seq<Vec<u8>>) -> Seq<Seq<u8>> {
    Seq::new(v.len(), |i: int| v[i]@)
}

impl Uk2Memory {
    pub closed spec fn view(&self) -> MemV {
        MemV {
            system_words: self.system_words@,
            fixed_strings: strings_view(self.fixed_strings@),
            local_words: self.local_words@,
            indexed_5: self.indexed_5@,
            indexed_8: self.indexed_8@,
            indirect_bytes: self.indirect_bytes@,
            indirect_words: self.indirect_words@,
            indirect_strings: strings_view(self.indirect_strings@),
            large_strings: strings_view(self.large_strings@),
            table5: strings_view(self.table5_slots@),
            table6: strings_view(self.table6_slots@),
            fast_forward: self.timer16_fast_forward,
            mouse_event_ticks: self.mouse_event_ticks,
            timer16_armed: self.timer16_deadline is Some,
        }
    }

    /// Table sizes.
    pub closed spec fn wf(&self) -> bool {
        mem_wf(self.view())
    }
}

pub open spec fn mem_wf(m: MemV) -> bool {
    &&& m.system_words.len() == 31
    &&& m.fixed_strings.len() == 32
    &&& m.local_words.len() == 32
    &&& m.indexed_5.len() == 257
    &&& m.indexed_8.len() == 257
    &&& m.indirect_bytes.len() == 256
    &&& m.indirect_words.len() == 256
    &&& m.indirect_strings.len() == 256
    &&& m.large_strings.len() == 32
    &&& m.table5.len() == 256
    &&& m.table6.len() == 256
}

/// Memory at start: everything zero or empty.
pub open spec fn initial_mem(m: MemV) -> bool {
    &&& mem_wf(m)
    &&& forall|i: int| 0 <= i < 31 ==> m.system_words[i] == 0
    &&& forall|i: int| 0 <= i < 32 ==> m.local_words[i] == 0 && m.fixed_strings[i].len() == 0
        && m.large_strings[i].len() == 0
    &&& forall|i: int| 0 <= i < 257 ==> m.indexed_5[i] == 0 && m.indexed_8[i] == 0
    &&& forall|i: int| 0 <= i < 256 ==> m.indirect_bytes[i] == 0 && m.indirect_words[i] == 0
        && m.indirect_strings[i].len() == 0 && m.table5[i].len() == 0 && m.table6[i].len() == 0
    &&& !m.fast_forward
    &&& m.mouse_event_ticks == 0
    &&& !m.timer16_armed
}

fn zeros_u16(n: usize) -> (res: Vec<u16>)
    ensures
        res@.len() == n,
        forall|i: int| 0 <= i < n ==> res@[i] == 0,
{
    let mut v: Vec<u16> = Vec::new();
    while v.len() < n
        invariant
            v@.len() <= n,
            forall|i: int| 0 <= i < v@.len() ==> v@[i] == 0,
        decreases n - v@.len(),
    {
        v.push(0);
    }
    v
}

fn zeros_u8(n: usize) -> (res: Vec<u8>)
    ensures
        res@.len() == n,
        forall|i: int| 0 <= i < n ==> res@[i] == 0,
{
    let mut v: Vec<u8> = Vec::new();
    while v.len() < n
        invariant
            v@.len() <= n,
            forall|i: int| 0 <= i < v@.len() ==> v@[i] == 0,
        decreases n - v@.len(),
    {
        v.push(0);
    }
    v
}

fn empty_strings(n: usize) -> (res: Vec<Vec<u8>>)
    ensures
        res@.len() == n,
        forall|i: int| 0 <= i < n ==> res@[i]@.len() == 0,
{
    let mut v: Vec<Vec<u8>> = Vec::new();
    while v.len() < n
        invariant
            v@.len() <= n,
            forall|i: int| 0 <= i < v@.len() ==> v@[i]@.len() == 0,
        decreases n - v@.len(),
    {
        v.push(Vec::new());
    }
    v
}

impl Default for Uk2Memory {
    /// Fresh memory: all words zero, all strings empty, no timers.
    fn default() -> (res: Self)
        ensures
            res.wf(),
            initial_mem(res@),
    {
        Uk2Memory {
            system_words: zeros_u16(31),
            fixed_strings: empty_strings(32),
            local_words: zeros_u16(32),
            indexed_5: zeros_u8(257),
            indexed_8: zeros_u8(257),
            indirect_bytes: zeros_u8(256),
            indirect_words: zeros_u16(256),
            epoch: instant_now(),
            timer16_deadline: None,
            timer16_fast_forward: false,
            mouse_event_deadline: None,
            mouse_event_ticks: 0,
            indirect_strings: empty_strings(256),
            large_strings: empty_strings(32),
            table5_slots: empty_strings(256),
            table6_slots: empty_strings(256),
        }
    }

}

impl Uk2Memory {
    fn now_nanos(&self) -> u128 {
        let elapsed = instant_elapsed(&self.epoch);
        duration_nanos(&elapsed)
    }

    /// Advance the timer immediately on each read (offline probes with no
    /// interrupt clock).
    pub fn set_timer16_fast_forward(&mut self, enabled: bool)
        requires
            old(self).wf(),
        ensures
            final(self).wf(),
            final(self)@ == (MemV { fast_forward: enabled, ..old(self)@ }),
    {
        self.timer16_fast_forward = enabled;
    }

    /// Counts a mouse button event in slot 1 or 3 and starts the ten-tick
    /// debounce period when none is running.
    pub fn register_mouse_press(&mut self, slot: u8) -> (res: Result<(), VmError>)
        requires
            old(self).wf(),
        ensures
            final(self).wf(),
            slot != 1 && slot != 3 ==> res == Err::<(), VmError>(VmError::BadMouseSlot(slot))
                && final(self)@ == old(self)@,
            slot == 1 || slot == 3 ==> res is Ok && final(self)@ == (MemV {
                indirect_words: old(self)@.indirect_words.update(
                    slot as int,
                    old(self)@.indirect_words[slot as int].wrapping_add(1),
                ),
                mouse_event_ticks: if old(self)@.mouse_event_ticks == 0 {
                    10
                } else {
                    old(self)@.mouse_event_ticks
                },
                ..old(self)@
            }),
    {
        if slot != 1 && slot != 3 {
            return Err(VmError::BadMouseSlot(slot));
        }
        let count = self.indirect_words[slot as usize];
        self.indirect_words.set(slot as usize, count.wrapping_add(1));
        if self.mouse_event_ticks == 0 {
            self.mouse_event_ticks = 10;
            let now = self.now_nanos();
            self.mouse_event_deadline = Some(now.saturating_add(TICK_NANOS * 10));
        }
        Ok(())
    }

    /// Clears both mouse event counters and the debounce period.
    pub fn clear_mouse_events(&mut self)
        requires
            old(self).wf(),
        ensures
            final(self).wf(),
            final(self)@ == (MemV {
                indirect_words: old(self)@.indirect_words.update(1, 0).update(3, 0),
                mouse_event_ticks: 0,
                ..old(self)@
            }),
    {
        self.indirect_words.set(1, 0);
        self.indirect_words.set(3, 0);
        self.mouse_event_ticks = 0;
        self.mouse_event_deadline = None;
    }

    fn advance_mouse_event_timer(&mut self)
        requires
            old(self).wf(),
        ensures
            final(self).wf(),
            old(self)@.mouse_event_ticks == 0 ==> final(self)@ == old(self)@,
            old(self)@.mouse_event_ticks != 0 && old(self)@.fast_forward && old(self)@.mouse_event_ticks > 1
                ==> final(self)@ == (MemV { mouse_event_ticks: (old(self)@.mouse_event_ticks - 1) as u16, ..old(self)@ }),
            old(self)@.mouse_event_ticks == 1 && old(self)@.fast_forward ==> final(self)@ == (MemV {
                indirect_words: old(self)@.indirect_words.update(1, 0).update(3, 0),
                mouse_event_ticks: 0,
                ..old(self)@
            }),
            !old(self)@.fast_forward ==> final(self)@ == old(self)@ || final(self)@ == (MemV {
                indirect_words: old(self)@.indirect_words.update(1, 0).update(3, 0),
                mouse_event_ticks: 0,
                ..old(self)@
            }),
    {
        if self.mouse_event_ticks == 0 {
            return;
        }
        if self.timer16_fast_forward {
            self.mouse_event_ticks = self.mouse_event_ticks - 1;
        } else {
            match self.mouse_event_deadline {
                Some(deadline) => {
                    let now = self.now_nanos();
                    if now >= deadline {
                        self.mouse_event_ticks = 0;
                    }
                },
                None => {},
            }
        }
        if self.mouse_event_ticks == 0 {
            self.clear_mouse_events();
        }
    }

    /// Word of the far-pointer table; slots 1 and 3 are the mouse event
    /// counters and slot 16 the countdown timer, which run on the clock.
    fn read_indirect_word(&mut self, slot: u8) -> (res: u16)
        requires
            old(self).wf(),
        ensures
            final(self).wf(),
            slot != 1 && slot != 3 && slot != 16 ==> final(self)@ == old(self)@ && res
                == old(self)@.indirect_words[slot as int],
            res == final(self)@.indirect_words[slot as int],
            read_frame(old(self)@, final(self)@),
    {
        if slot == 1 || slot == 3 {
            self.advance_mouse_event_timer();
        }
        let value = self.indirect_words[slot as usize];
        if slot != 16 || value == 0 {
            return value;
        }
        if self.timer16_fast_forward {
            let value = value - 1;
            self.indirect_words.set(slot as usize, value);
            return value;
        }
        let deadline = match self.timer16_deadline {
            Some(d) => d,
            None => return value,
        };
        let now = self.now_nanos();
        let remaining = deadline.saturating_sub(now);
        let ticks = ceil_ticks(remaining);
        if ticks == 0 {
            self.timer16_deadline = None;
        }
        self.indirect_words.set(slot as usize, ticks);
        ticks
    }

    pub fn system_word(&self, index: usize) -> (res: Option<u16>)
        requires
            self.wf(),
        ensures
            index < 31 ==> res == Some(self@.system_words[index as int]),
            index >= 31 ==> res is None,
    {
        if index < self.system_words.len() {
            Some(self.system_words[index])
        } else {
            None
        }
    }

    pub fn set_system_word(&mut self, index: usize, value: u16) -> (res: Result<(), VmError>)
        requires
            old(self).wf(),
        ensures
            final(self).wf(),
            index < 31 ==> res is Ok && final(self)@ == (MemV {
                system_words: old(self)@.system_words.update(index as int, value),
                ..old(self)@
            }),
            index >= 31 ==> res == Err::<(), VmError>(VmError::IndexOutOfRange) && final(self)@ == old(self)@,
    {
        if index >= self.system_words.len() {
            return Err(VmError::IndexOutOfRange);
        }
        self.system_words.set(index, value);
        Ok(())
    }

    pub fn local_word(&self, index: usize) -> (res: Option<u16>)
        requires
            self.wf(),
        ensures
            index < 32 ==> res == Some(self@.local_words[index as int]),
            index >= 32 ==> res is None,
    {
        if index < self.local_words.len() {
            Some(self.local_words[index])
        } else {
            None
        }
    }

    pub fn set_local_word(&mut self, index: usize, value: u16) -> (res: Result<(), VmError>)
        requires
            old(self).wf(),
        ensures
            final(self).wf(),
            index < 32 ==> res is Ok && final(self)@ == (MemV {
                local_words: old(self)@.local_words.update(index as int, value),
                ..old(self)@
            }),
            index >= 32 ==> res == Err::<(), VmError>(VmError::IndexOutOfRange) && final(self)@ == old(self)@,
    {
        if index >= self.local_words.len() {
            return Err(VmError::IndexOutOfRange);
        }
        self.local_words.set(index, value);
        Ok(())
    }

    pub fn set_table5_slot(&mut self, index: u8, value: Vec<u8>)
        requires
            old(self).wf(),
        ensures
            final(self).wf(),
            final(self)@ == (MemV { table5: old(self)@.table5.update(index as int, value@), ..old(self)@ }),
    {
        let ghost v = value@;
        self.table5_slots.set(index as usize, value);
        assert(strings_view(self.table5_slots@) =~= old(self)@.table5.update(index as int, v));
    }

    pub fn set_table6_slot(&mut self, index: u8, value: Vec<u8>)
        requires
            old(self).wf(),
        ensures
            final(self).wf(),
            final(self)@ == (MemV { table6: old(self)@.table6.update(index as int, value@), ..old(self)@ }),
    {
        let ghost v = value@;
        self.table6_slots.set(index as usize, value);
        assert(strings_view(self.table6_slots@) =~= old(self)@.table6.update(index as int, v));
    }
}

/// Whole ticks in `remaining` nanoseconds, rounded up, as a 16-bit count.
pub open spec fn spec_ceil_ticks(remaining: u128) -> u16 {
    ((remaining as int + TICK_NANOS - 1) / TICK_NANOS as int) as u16
}

fn ceil_ticks(remaining: u128) -> (res: u16)
    ensures
        res == spec_ceil_ticks(remaining),
{
    let whole = remaining / TICK_NANOS;
    let ticks = if remaining % TICK_NANOS != 0 { whole + 1 } else { whole };
    assert(ticks == (remaining as int + TICK_NANOS - 1) / TICK_NANOS as int) by (nonlinear_arith)
        requires
            whole == remaining as int / TICK_NANOS as int,
            ticks == if remaining as int % TICK_NANOS as int != 0 { whole + 1 } else { whole as int },
            TICK_NANOS == 16_666_667,
    {
    }
    ticks as u16
}


// ---- reading and evaluation, as functions of the memory --------------------------------

/// No operand reads a clock-driven word (mouse counters 1 and 3, timer 16).
pub open spec fn op_time_free(op: OperandV) -> bool
    decreases op, 0int,
{
    match op {
        OperandV::Indirect { kind: IndirectKind::Word, slot } => slot != 1 && slot != 3 && slot != 16,
        OperandV::IndexedByte { selector, index } => terms_time_free(index.terms, index.terms.len() as int),
        _ => true,
    }
}

/// The first `n` terms read no clock-driven word.
pub open spec fn terms_time_free(terms: Seq<TermV>, n: int) -> bool
    decreases terms, n,
{
    if n <= 0 || n > terms.len() {
        true
    } else {
        terms_time_free(terms, n - 1) && op_time_free(terms[n - 1].operand)
    }
}

pub open spec fn expr_time_free(e: ExpressionV) -> bool {
    terms_time_free(e.terms, e.terms.len() as int)
}

pub open spec fn clauses_time_free(c: Seq<ClauseV>) -> bool {
    forall|k: int| 0 <= k < c.len() ==> expr_time_free(#[trigger] c[k].left) && expr_time_free(c[k].right)
}

/// Literal pieces and table-5/6 slots concatenated, up to 0x7d2 bytes.
pub open spec fn spec_inline_value(m: MemV, parts: Seq<InlineStringPartV>) -> Option<Seq<u8>>
    decreases parts.len(),
{
    if parts.len() == 0 {
        Some(Seq::empty())
    } else {
        match spec_inline_value(m, parts.drop_last()) {
            None => None,
            Some(prefix) => {
                let piece = match parts.last() {
                    InlineStringPartV::Literal(b) => Some(b),
                    InlineStringPartV::Table5Slot(slot) => if slot == 0 {
                        None
                    } else {
                        Some(m.table5[slot - 1])
                    },
                    InlineStringPartV::Table6Slot(slot) => if slot == 0 {
                        None
                    } else {
                        Some(m.table6[slot - 1])
                    },
                };
                match piece {
                    None => None,
                    Some(p) => if prefix.len() + p.len() > LARGE_STRING_MAX_LEN {
                        None
                    } else {
                        Some(prefix + p)
                    },
                }
            },
        }
    }
}

/// Truncating division (Rust's `/` on signed integers), `b > 0`.
pub open spec fn tdiv(a: i64, b: i64) -> i64 {
    if a >= 0 {
        (a as int / b as int) as i64
    } else {
        (-((-(a as int)) / (b as int))) as i64
    }
}

/// Remainder of truncating division: `a - b * tdiv(a, b)` (Rust's `%`).
pub open spec fn trem(a: i64, b: i64) -> i64 {
    a.wrapping_sub(b.wrapping_mul(tdiv(a, b)))
}

/// One step of the accumulator: (number, string, last value) after a term.
pub open spec fn spec_step(acc: (i64, Seq<u8>, Val), op: ExpressionOp, r: Val) -> Option<(i64, Seq<u8>, Val)> {
    let (n, s, _) = acc;
    match r {
        Val::Number { value, .. } => {
            let v = value as i64;
            match op {
                ExpressionOp::Assign => Some((v, s, r)),
                ExpressionOp::Add => Some((n.wrapping_add(v), s, r)),
                ExpressionOp::Subtract => Some((n.wrapping_sub(v), s, r)),
                ExpressionOp::Multiply => Some((n.wrapping_mul(v), s, r)),
                ExpressionOp::Divide => if value == 0 {
                    None
                } else {
                    Some((tdiv(n, v), s, r))
                },
                ExpressionOp::Modulo => if value == 0 {
                    None
                } else {
                    Some((trem(n, v), s, r))
                },
            }
        },
        Val::Str(b) => match op {
            ExpressionOp::Assign => Some((n, b, r)),
            ExpressionOp::Add => Some((n, s + b, r)),
            _ => None,
        },
    }
}

/// The accumulator after the first `n` terms.
pub open spec fn spec_eval_terms(m: MemV, terms: Seq<TermV>, n: int) -> Option<(i64, Seq<u8>, Val)>
    decreases terms, n,
{
    if n <= 0 || n > terms.len() {
        Some((0i64, Seq::empty(), Val::Number { value: 0, width: NumericWidth::Word }))
    } else {
        match spec_eval_terms(m, terms, n - 1) {
            None => None,
            Some(acc) => match spec_read(m, terms[n - 1].operand) {
                None => None,
                Some(r) => spec_step(acc, terms[n - 1].op, r),
            },
        }
    }
}

/// The value of a finished accumulator: the last operand decides the type,
/// and numbers are clamped to the width of the last operand.
pub open spec fn spec_finish(acc: (i64, Seq<u8>, Val)) -> Val {
    let (n, s, last) = acc;
    match last {
        Val::Str(_) => Val::Str(s),
        Val::Number { width, .. } => {
            let max: int = match width {
                NumericWidth::Byte => 0xff,
                NumericWidth::Word => 0xffff,
            };
            let clamped: int = if n < 0 {
                0
            } else if n > max {
                max
            } else {
                n as int
            };
            Val::Number { value: clamped as u16, width }
        },
    }
}

pub open spec fn spec_eval(m: MemV, e: ExpressionV) -> Option<Val> {
    match spec_eval_terms(m, e.terms, e.terms.len() as int) {
        Some(acc) => Some(spec_finish(acc)),
        None => None,
    }
}

/// The largest number of a width.
pub open spec fn width_max(w: NumericWidth) -> int {
    match w {
        NumericWidth::Byte => 0xff,
        NumericWidth::Word => 0xffff,
    }
}

/// Two numeric operands combined by an expression `[Assign p, op q]`: the
/// value is `a - b` for a subtraction and `a + b` for an addition, held
/// between 0 and the maximum of the width of `q`, which it takes.  So
/// subtracting takes the operand away from the accumulator: whenever
/// `a >= b`, the value plus `b` gives `a` back.
pub proof fn lemma_subtract_add_values(m: MemV, p: OperandV, q: OperandV, a: u16, b: u16, wa: NumericWidth, wb: NumericWidth)
    requires
        spec_read(m, p) == Some(Val::Number { value: a, width: wa }),
        spec_read(m, q) == Some(Val::Number { value: b, width: wb }),
    ensures
        spec_eval(
            m,
            ExpressionV {
                terms: seq![TermV { op: ExpressionOp::Assign, operand: p }, TermV { op: ExpressionOp::Subtract, operand: q }],
            },
        ) == Some(Val::Number {
            value: (if a < b { 0 } else if a - b > width_max(wb) { width_max(wb) } else { a - b }) as u16,
            width: wb,
        }),
        spec_eval(
            m,
            ExpressionV {
                terms: seq![TermV { op: ExpressionOp::Assign, operand: p }, TermV { op: ExpressionOp::Add, operand: q }],
            },
        ) == Some(Val::Number { value: (if a + b > width_max(wb) { width_max(wb) } else { a + b }) as u16, width: wb }),
        wb == NumericWidth::Word && a >= b ==> spec_eval(
            m,
            ExpressionV {
                terms: seq![TermV { op: ExpressionOp::Assign, operand: p }, TermV { op: ExpressionOp::Subtract, operand: q }],
            },
        ) == Some(Val::Number { value: (a - b) as u16, width: NumericWidth::Word }),
{
    let sub = seq![TermV { op: ExpressionOp::Assign, operand: p }, TermV { op: ExpressionOp::Subtract, operand: q }];
    let add = seq![TermV { op: ExpressionOp::Assign, operand: p }, TermV { op: ExpressionOp::Add, operand: q }];
    assert(spec_eval_terms(m, sub, 0) is Some);
    assert(spec_eval_terms(m, sub, 1) == Some((a as i64, Seq::<u8>::empty(), Val::Number { value: a, width: wa })));
    assert(spec_eval_terms(m, add, 0) is Some);
    assert(spec_eval_terms(m, add, 1) == Some((a as i64, Seq::<u8>::empty(), Val::Number { value: a, width: wa })));
    assert((a as i64).wrapping_sub(b as i64) == a - b);
    assert((a as i64).wrapping_add(b as i64) == a + b);
}

/// Strings in an expression: `[Assign p, Add q]` on strings is `p`'s bytes
/// followed by `q`'s.
pub proof fn lemma_strings_concatenate(m: MemV, p: OperandV, q: OperandV, x: Seq<u8>, y: Seq<u8>)
    requires
        spec_read(m, p) == Some(Val::Str(x)),
        spec_read(m, q) == Some(Val::Str(y)),
    ensures
        spec_eval(
            m,
            ExpressionV {
                terms: seq![TermV { op: ExpressionOp::Assign, operand: p }, TermV { op: ExpressionOp::Add, operand: q }],
            },
        ) == Some(Val::Str(x + y)),
{
    let t = seq![TermV { op: ExpressionOp::Assign, operand: p }, TermV { op: ExpressionOp::Add, operand: q }];
    assert(spec_eval_terms(m, t, 0) is Some);
    assert(spec_eval_terms(m, t, 1) == Some((0i64, x, Val::Str(x))));
}

/// The other arithmetic of an expression `[Assign p, op q]` on numbers `a`
/// and `b`: a product held to the width of `q`, and for nonzero `b` the
/// quotient and remainder of `a` by `b`; division or remainder by zero fails.
pub proof fn lemma_multiply_divide_values(m: MemV, p: OperandV, q: OperandV, a: u16, b: u16, wa: NumericWidth, wb: NumericWidth)
    requires
        spec_read(m, p) == Some(Val::Number { value: a, width: wa }),
        spec_read(m, q) == Some(Val::Number { value: b, width: wb }),
    ensures
        spec_eval(
            m,
            ExpressionV {
                terms: seq![TermV { op: ExpressionOp::Assign, operand: p }, TermV { op: ExpressionOp::Multiply, operand: q }],
            },
        ) == Some(Val::Number { value: (if a * b > width_max(wb) { width_max(wb) } else { a * b }) as u16, width: wb }),
        b != 0 ==> spec_eval(
            m,
            ExpressionV {
                terms: seq![TermV { op: ExpressionOp::Assign, operand: p }, TermV { op: ExpressionOp::Divide, operand: q }],
            },
        ) == Some(Val::Number { value: (if (a as int) / (b as int) > width_max(wb) { width_max(wb) } else { (a as int) / (b as int) }) as u16, width: wb }),
        b != 0 ==> spec_eval(
            m,
            ExpressionV {
                terms: seq![TermV { op: ExpressionOp::Assign, operand: p }, TermV { op: ExpressionOp::Modulo, operand: q }],
            },
        ) == Some(Val::Number { value: (if (a as int) % (b as int) > width_max(wb) { width_max(wb) } else { (a as int) % (b as int) }) as u16, width: wb }),
        b == 0 ==> spec_eval(
            m,
            ExpressionV {
                terms: seq![TermV { op: ExpressionOp::Assign, operand: p }, TermV { op: ExpressionOp::Divide, operand: q }],
            },
        ) is None,
        b == 0 ==> spec_eval(
            m,
            ExpressionV {
                terms: seq![TermV { op: ExpressionOp::Assign, operand: p }, TermV { op: ExpressionOp::Modulo, operand: q }],
            },
        ) is None,
{
    let mul = seq![TermV { op: ExpressionOp::Assign, operand: p }, TermV { op: ExpressionOp::Multiply, operand: q }];
    let div = seq![TermV { op: ExpressionOp::Assign, operand: p }, TermV { op: ExpressionOp::Divide, operand: q }];
    let rem = seq![TermV { op: ExpressionOp::Assign, operand: p }, TermV { op: ExpressionOp::Modulo, operand: q }];
    let first = Some((a as i64, Seq::<u8>::empty(), Val::Number { value: a, width: wa }));
    assert(spec_eval_terms(m, mul, 0) is Some);
    assert(spec_eval_terms(m, div, 0) is Some);
    assert(spec_eval_terms(m, rem, 0) is Some);
    assert(spec_eval_terms(m, mul, 1) == first);
    assert(spec_eval_terms(m, div, 1) == first);
    assert(spec_eval_terms(m, rem, 1) == first);
    assert(0 <= a * b <= 0xffff * 0xffff) by (nonlinear_arith)
        requires
            0 <= a <= 0xffff,
            0 <= b <= 0xffff,
    ;
    assert((a as i64).wrapping_mul(b as i64) == a * b);
    if b != 0 {
        let q = (a as int) / (b as int);
        assert(0 <= q <= a) by (nonlinear_arith)
            requires
                q == (a as int) / (b as int),
                0 <= a,
                b > 0,
        ;
        assert(tdiv(a as i64, b as i64) == q);
        assert(0 <= b * q <= a) by (nonlinear_arith)
            requires
                q == (a as int) / (b as int),
                0 <= a,
                b > 0,
        ;
        assert((b as i64).wrapping_mul(q as i64) == b * q);
        assert(a - b * q == (a as int) % (b as int)) by (nonlinear_arith)
            requires
                q == (a as int) / (b as int),
                b > 0,
        ;
        assert(trem(a as i64, b as i64) == (a as int) % (b as int));
    }
}

/// The value an operand reads.
pub open spec fn spec_read(m: MemV, op: OperandV) -> Option<Val>
    decreases op, 0int,
{
    match op {
        OperandV::SystemWord(i) => if i < 31 {
            Some(Val::Number { value: m.system_words[i as int], width: NumericWidth::Word })
        } else {
            None
        },
        OperandV::Immediate(v) => Some(Val::Number { value: v, width: NumericWidth::Word }),
        OperandV::FixedString(i) => if i < 32 {
            Some(Val::Str(m.fixed_strings[i as int]))
        } else {
            None
        },
        OperandV::LocalWord(i) => if i < 32 {
            Some(Val::Number { value: m.local_words[i as int], width: NumericWidth::Word })
        } else {
            None
        },
        OperandV::InlineString(parts) => match spec_inline_value(m, parts) {
            Some(b) => Some(Val::Str(b)),
            None => None,
        },
        OperandV::IndexedByte { selector, index } => match spec_eval_terms(m, index.terms, index.terms.len() as int) {
            Some(acc) => match spec_finish(acc) {
                Val::Number { value, .. } => if value > 0x100 {
                    None
                } else if selector == 5 {
                    Some(Val::Number { value: m.indexed_5[value as int] as u16, width: NumericWidth::Byte })
                } else if selector == 8 {
                    Some(Val::Number { value: m.indexed_8[value as int] as u16, width: NumericWidth::Byte })
                } else {
                    None
                },
                Val::Str(_) => None,
            },
            None => None,
        },
        OperandV::Indirect { kind, slot } => match kind {
            IndirectKind::Byte => Some(Val::Number { value: m.indirect_bytes[slot as int] as u16, width: NumericWidth::Byte }),
            IndirectKind::Word => Some(Val::Number { value: m.indirect_words[slot as int], width: NumericWidth::Word }),
            IndirectKind::String => Some(Val::Str(m.indirect_strings[slot as int])),
            IndirectKind::Raw(_) => None,
        },
        OperandV::LargeString(i) => if i < 32 {
            Some(Val::Str(m.large_strings[i as int]))
        } else {
            None
        },
    }
}


/// Fields that no read changes.
pub open spec fn read_frame(a: MemV, b: MemV) -> bool {
    &&& mem_wf(b)
    &&& b.system_words == a.system_words
    &&& b.fixed_strings == a.fixed_strings
    &&& b.local_words == a.local_words
    &&& b.indexed_5 == a.indexed_5
    &&& b.indexed_8 == a.indexed_8
    &&& b.indirect_bytes == a.indirect_bytes
    &&& b.indirect_strings == a.indirect_strings
    &&& b.large_strings == a.large_strings
    &&& b.table5 == a.table5
    &&& b.table6 == a.table6
    &&& b.fast_forward == a.fast_forward
}

fn one_based_slot(slot: u8) -> (res: Result<u8, VmError>)
    ensures
        slot == 0 ==> res == Err::<u8, VmError>(VmError::ZeroSlot),
        slot != 0 ==> res == Ok::<u8, VmError>((slot - 1) as u8),
{
    if slot == 0 {
        Err(VmError::ZeroSlot)
    } else {
        Ok(slot - 1)
    }
}

fn append_bytes(out: &mut Vec<u8>, bytes: &Vec<u8>)
    ensures
        final(out)@ == old(out)@ + bytes@,
{
    let mut i: usize = 0;
    while i < bytes.len()
        invariant
            i <= bytes@.len(),
            out@ == old(out)@ + bytes@.take(i as int),
        decreases bytes@.len() - i,
    {
        out.push(bytes[i]);
        i = i + 1;
        assert(bytes@.take(i as int) =~= bytes@.take(i - 1).push(bytes@[i - 1]));
    }
    assert(bytes@.take(i as int) =~= bytes@);
}

fn copy_bytes(bytes: &Vec<u8>) -> (res: Vec<u8>)
    ensures
        res@ == bytes@,
{
    let mut out: Vec<u8> = Vec::new();
    append_bytes(&mut out, bytes);
    assert(out@ =~= bytes@);
    out
}

impl Uk2Memory {
    fn inline_value(&self, parts: &Vec<InlineStringPart>) -> (res: Result<Vec<u8>, VmError>)
        requires
            self.wf(),
        ensures
            spec_inline_value(self@, crate::value::parts_view(parts@)) == (match res {
                Ok(b) => Some(b@),
                Err(_) => None::<Seq<u8>>,
            }),
    {
        let ghost pv = crate::value::parts_view(parts@);
        let mut output: Vec<u8> = Vec::new();
        let mut i: usize = 0;
        assert(pv.take(0) =~= Seq::<InlineStringPartV>::empty());
        while i < parts.len()
            invariant
                self.wf(),
                i <= parts@.len(),
                pv == crate::value::parts_view(parts@),
                spec_inline_value(self@, pv.take(i as int)) == Some(output@),
            decreases parts@.len() - i,
        {
            assert(pv.take(i + 1).drop_last() =~= pv.take(i as int));
            assert(pv.take(i + 1).last() == parts@[i as int].view());
            match &parts[i] {
                InlineStringPart::Literal(bytes) => append_bytes(&mut output, bytes),
                InlineStringPart::Table5Slot(slot) => {
                    if *slot == 0 {
                        proof { lemma_inline_prefix_none(self@, pv, i + 1, pv.len() as int); }
                    }
                    let index = one_based_slot(*slot)?;
                    append_bytes(&mut output, &self.table5_slots[index as usize]);
                },
                InlineStringPart::Table6Slot(slot) => {
                    if *slot == 0 {
                        proof { lemma_inline_prefix_none(self@, pv, i + 1, pv.len() as int); }
                    }
                    let index = one_based_slot(*slot)?;
                    append_bytes(&mut output, &self.table6_slots[index as usize]);
                },
            }
            if output.len() > LARGE_STRING_MAX_LEN {
                proof { lemma_inline_prefix_none(self@, pv, i + 1, pv.len() as int); }
                return Err(VmError::StringTooLong);
            }
            i = i + 1;
        }
        assert(pv.take(i as int) =~= pv);
        Ok(output)
    }

    /// Reads an operand.  Reads of the clock-driven words (mouse counters 1
    /// and 3, timer 16) depend on the time of the read; every other read is
    /// a function of the memory and changes nothing.
    pub fn read_operand(&mut self, operand: &Operand) -> (res: Result<RuntimeValue, VmError>)
        requires
            old(self).wf(),
        ensures
            final(self).wf(),
            read_frame(old(self)@, final(self)@),
            op_time_free(operand.view()) ==> final(self)@ == old(self)@ && spec_read(old(self)@, operand.view())
                == (match res {
                Ok(v) => Some(v.view()),
                Err(_) => None::<Val>,
            }),
        decreases operand, 0int,
    {
        match operand {
            Operand::SystemWord(index) => {
                if *index >= 31 {
                    return Err(VmError::IndexOutOfRange);
                }
                Ok(RuntimeValue::Number { value: self.system_words[*index as usize], width: NumericWidth::Word })
            },
            Operand::Immediate(value) => Ok(RuntimeValue::Number { value: *value, width: NumericWidth::Word }),
            Operand::FixedString(index) => {
                if *index >= 32 {
                    return Err(VmError::IndexOutOfRange);
                }
                Ok(RuntimeValue::String(copy_bytes(&self.fixed_strings[*index as usize])))
            },
            Operand::LocalWord(index) => {
                if *index >= 32 {
                    return Err(VmError::IndexOutOfRange);
                }
                Ok(RuntimeValue::Number { value: self.local_words[*index as usize], width: NumericWidth::Word })
            },
            Operand::InlineString(parts) => Ok(RuntimeValue::String(self.inline_value(parts)?)),
            Operand::IndexedByte { selector, index } => {
                let value = self.eval_expression(index)?;
                let index = match value {
                    RuntimeValue::Number { value, .. } => value,
                    RuntimeValue::String(_) => return Err(VmError::ExpectedNumber),
                };
                if index > 0x100 {
                    return Err(VmError::IndexTooLarge);
                }
                let value = if *selector == 5 {
                    self.indexed_5[index as usize]
                } else if *selector == 8 {
                    self.indexed_8[index as usize]
                } else {
                    return Err(VmError::UnknownSelector(*selector));
                };
                Ok(RuntimeValue::Number { value: value as u16, width: NumericWidth::Byte })
            },
            Operand::Indirect { kind, slot } => match kind {
                IndirectKind::Byte => Ok(RuntimeValue::Number {
                    value: self.indirect_bytes[*slot as usize] as u16,
                    width: NumericWidth::Byte,
                }),
                IndirectKind::Word => {
                    let value = self.read_indirect_word(*slot);
                    Ok(RuntimeValue::Number { value, width: NumericWidth::Word })
                },
                IndirectKind::String => Ok(RuntimeValue::String(copy_bytes(&self.indirect_strings[*slot as usize]))),
                IndirectKind::Raw(raw) => Err(VmError::UnknownIndirectKind(*raw)),
            },
            Operand::LargeString(index) => {
                if *index >= 32 {
                    return Err(VmError::IndexOutOfRange);
                }
                Ok(RuntimeValue::String(copy_bytes(&self.large_strings[*index as usize])))
            },
        }
    }

    /// Evaluates an expression left to right.  The last operand decides
    /// whether the result is a string or a number; numbers are clamped to
    /// the width of the last operand.
    pub fn eval_expression(&mut self, expression: &Expression) -> (res: Result<RuntimeValue, VmError>)
        requires
            old(self).wf(),
        ensures
            final(self).wf(),
            read_frame(old(self)@, final(self)@),
            expr_time_free(expression.view()) ==> final(self)@ == old(self)@ && spec_eval(old(self)@, expression.view())
                == (match res {
                Ok(v) => Some(v.view()),
                Err(_) => None::<Val>,
            }),
        decreases expression, 1int,
    {
        let ghost m0 = self@;
        let ghost tv = expression.view().terms;
        let mut number: i64 = 0;
        let mut string: Vec<u8> = Vec::new();
        let mut last = RuntimeValue::Number { value: 0, width: NumericWidth::Word };
        let mut i: usize = 0;
        while i < expression.terms.len()
            invariant
                self.wf(),
                read_frame(m0, self@),
                m0 == old(self)@,
                tv == expression.view().terms,
                tv.len() == expression.terms@.len(),
                i <= tv.len(),
                expr_time_free(expression.view()) ==> self@ == m0 && spec_eval_terms(m0, tv, i as int) == Some(
                    (number, string@, last.view()),
                ),
            decreases tv.len() - i,
        {
            proof {
                broadcast use vstd::std_specs::vec::axiom_vec_decreases_to_view;
                assert(decreases_to!(expression.terms => expression.terms@));
                assert(decreases_to!(expression.terms@ => expression.terms@[i as int]));
                if expr_time_free(expression.view()) {
                    lemma_terms_time_free_prefix(tv, tv.len() as int, i + 1);
                }
                assert(tv[i as int].operand == expression.terms@[i as int].operand.view());
            }
            let term = &expression.terms[i];
            let operand = match self.read_operand(&term.operand) {
                Ok(v) => v,
                Err(e) => {
                    proof {
                        if expr_time_free(expression.view()) {
                            lemma_eval_prefix_none(m0, tv, i + 1, tv.len() as int);
                        }
                    }
                    return Err(e);
                },
            };
            match (&term.op, &operand) {
                (ExpressionOp::Assign, RuntimeValue::Number { value, .. }) => {
                    number = *value as i64;
                },
                (ExpressionOp::Add, RuntimeValue::Number { value, .. }) => {
                    number = number.wrapping_add(*value as i64);
                },
                (ExpressionOp::Subtract, RuntimeValue::Number { value, .. }) => {
                    number = number.wrapping_sub(*value as i64);
                },
                (ExpressionOp::Multiply, RuntimeValue::Number { value, .. }) => {
                    number = number.wrapping_mul(*value as i64);
                },
                (ExpressionOp::Divide, RuntimeValue::Number { value, .. }) => {
                    if *value == 0 {
                        proof {
                            if expr_time_free(expression.view()) {
                                lemma_eval_prefix_none(m0, tv, i + 1, tv.len() as int);
                            }
                        }
                        return Err(VmError::DivisionByZero);
                    }
                    number = number / (*value as i64);
                },
                (ExpressionOp::Modulo, RuntimeValue::Number { value, .. }) => {
                    if *value == 0 {
                        proof {
                            if expr_time_free(expression.view()) {
                                lemma_eval_prefix_none(m0, tv, i + 1, tv.len() as int);
                            }
                        }
                        return Err(VmError::DivisionByZero);
                    }
                    let q = number / (*value as i64);
                    number = number.wrapping_sub((*value as i64).wrapping_mul(q));
                },
                (ExpressionOp::Assign, RuntimeValue::String(bytes)) => {
                    string = copy_bytes(bytes);
                },
                (ExpressionOp::Add, RuntimeValue::String(bytes)) => {
                    append_bytes(&mut string, bytes);
                },
                (_, RuntimeValue::String(_)) => {
                    proof {
                        if expr_time_free(expression.view()) {
                            lemma_eval_prefix_none(m0, tv, i + 1, tv.len() as int);
                        }
                    }
                    return Err(VmError::StringOperation);
                },
            }
            last = operand;
            i = i + 1;
        }
        match last {
            RuntimeValue::String(_) => Ok(RuntimeValue::String(string)),
            RuntimeValue::Number { width, .. } => {
                let max: i64 = match width {
                    NumericWidth::Byte => 0xff,
                    NumericWidth::Word => 0xffff,
                };
                let value = if number < 0 {
                    0
                } else if number > max {
                    max
                } else {
                    number
                };
                Ok(RuntimeValue::Number { value: value as u16, width })
            },
        }
    }
}

proof fn lemma_inline_prefix_none(m: MemV, pv: Seq<InlineStringPartV>, k: int, n: int)
    requires
        0 <= k <= n <= pv.len(),
        spec_inline_value(m, pv.take(k)) is None,
    ensures
        spec_inline_value(m, pv.take(n)) is None,
        n == pv.len() ==> spec_inline_value(m, pv) is None,
    decreases n - k,
{
    if k < n {
        assert(pv.take(k + 1).drop_last() =~= pv.take(k));
        lemma_inline_prefix_none(m, pv, k + 1, n);
    }
    if n == pv.len() {
        assert(pv.take(n) =~= pv);
    }
}

proof fn lemma_eval_prefix_none(m: MemV, tv: Seq<TermV>, k: int, n: int)
    requires
        0 < k <= n <= tv.len(),
        spec_eval_terms(m, tv, k) is None,
    ensures
        spec_eval_terms(m, tv, n) is None,
    decreases n - k,
{
    if k < n {
        lemma_eval_prefix_none(m, tv, k + 1, n);
    }
}

proof fn lemma_terms_time_free_prefix(terms: Seq<TermV>, n: int, k: int)
    requires
        terms_time_free(terms, n),
        0 < k <= n <= terms.len(),
    ensures
        terms_time_free(terms, k),
        op_time_free(terms[k - 1].operand),
    decreases n - k,
{
    if k < n {
        lemma_terms_time_free_prefix(terms, n - 1, k);
    }
}


// ---- writing ----------------------------------------------------------------------

pub open spec fn spec_numeric(v: Val, width: NumericWidth) -> Option<u16> {
    match v {
        Val::Number { value, .. } => Some(match width {
            NumericWidth::Byte => if value > 0xff { 0xffu16 } else { value },
            NumericWidth::Word => value,
        }),
        Val::Str(_) => None,
    }
}

pub open spec fn spec_string(v: Val, max: int) -> Option<Seq<u8>> {
    match v {
        Val::Str(b) => if b.len() > max {
            None
        } else {
            Some(b)
        },
        Val::Number { .. } => None,
    }
}

/// The memory after writing `v` to `op`; `None` when the write fails.
pub open spec fn spec_write(m: MemV, op: OperandV, v: Val) -> Option<MemV> {
    match op {
        OperandV::SystemWord(i) => match spec_numeric(v, NumericWidth::Word) {
            Some(n) => if i < 31 {
                Some(MemV { system_words: m.system_words.update(i as int, n), ..m })
            } else {
                None
            },
            None => None,
        },
        OperandV::Immediate(_) => None,
        OperandV::InlineString(_) => None,
        OperandV::FixedString(i) => match spec_string(v, FIXED_STRING_MAX_LEN as int) {
            Some(b) => if i < 32 {
                Some(MemV { fixed_strings: m.fixed_strings.update(i as int, b), ..m })
            } else {
                None
            },
            None => None,
        },
        OperandV::LocalWord(i) => match spec_numeric(v, NumericWidth::Word) {
            Some(n) => if i < 32 {
                Some(MemV { local_words: m.local_words.update(i as int, n), ..m })
            } else {
                None
            },
            None => None,
        },
        OperandV::IndexedByte { selector, index } => match spec_eval(m, index) {
            Some(Val::Number { value: at, .. }) => if at > 0x100 {
                None
            } else {
                match spec_numeric(v, NumericWidth::Byte) {
                    Some(n) => if selector == 5 {
                        Some(MemV { indexed_5: m.indexed_5.update(at as int, n as u8), ..m })
                    } else if selector == 8 {
                        Some(MemV { indexed_8: m.indexed_8.update(at as int, n as u8), ..m })
                    } else {
                        None
                    },
                    None => None,
                }
            },
            _ => None,
        },
        OperandV::Indirect { kind, slot } => match kind {
            IndirectKind::Byte => match spec_numeric(v, NumericWidth::Byte) {
                Some(n) => Some(MemV { indirect_bytes: m.indirect_bytes.update(slot as int, n as u8), ..m }),
                None => None,
            },
            IndirectKind::Word => match spec_numeric(v, NumericWidth::Word) {
                Some(n) => Some(MemV {
                    indirect_words: m.indirect_words.update(slot as int, n),
                    timer16_armed: if slot == 16 { true } else { m.timer16_armed },
                    ..m
                }),
                None => None,
            },
            IndirectKind::String => match v {
                Val::Str(b) => Some(MemV { indirect_strings: m.indirect_strings.update(slot as int, b), ..m }),
                Val::Number { .. } => None,
            },
            IndirectKind::Raw(_) => None,
        },
        OperandV::LargeString(i) => match spec_string(v, LARGE_STRING_MAX_LEN as int) {
            Some(b) => if i < 32 {
                Some(MemV { large_strings: m.large_strings.update(i as int, b), ..m })
            } else {
                None
            },
            None => None,
        },
    }
}

/// What a written operand holds: the number at the operand's width, or the
/// string.
pub open spec fn stored_value(op: OperandV, v: Val) -> Val {
    match op {
        OperandV::Indirect { kind: IndirectKind::Byte, .. } => Val::Number {
            value: spec_numeric(v, NumericWidth::Byte).unwrap(),
            width: NumericWidth::Byte,
        },
        OperandV::SystemWord(_) | OperandV::LocalWord(_) | OperandV::Indirect { kind: IndirectKind::Word, .. } => Val::Number {
            value: spec_numeric(v, NumericWidth::Word).unwrap(),
            width: NumericWidth::Word,
        },
        _ => v,
    }
}

/// Writing an operand and reading it back gives what was stored: the
/// number at the operand's width, or the string.  (An indexed byte is left
/// out: its index is evaluated again, against the memory just written.)
pub proof fn lemma_write_then_read(m: MemV, op: OperandV, v: Val)
    requires
        mem_wf(m),
        !(op is IndexedByte),
    ensures
        spec_write(m, op, v) matches Some(m2) ==> mem_wf(m2) && spec_read(m2, op) == Some(stored_value(op, v)),
        op is Immediate || op is InlineString ==> spec_write(m, op, v) is None,
        numeric_target(op) ==> (spec_write(m, op, v) is Some <==> v is Number),
        (op matches OperandV::FixedString(i) && i < 32) ==> (spec_write(m, op, v) is Some <==> (v matches Val::Str(b)
            && b.len() <= FIXED_STRING_MAX_LEN)),
        (op matches OperandV::LargeString(i) && i < 32) ==> (spec_write(m, op, v) is Some <==> (v matches Val::Str(b)
            && b.len() <= LARGE_STRING_MAX_LEN)),
{
}

/// An operand that holds a number and always takes one: a system word
/// below 31, a local word below 32, or an indirect byte or word.
pub open spec fn numeric_target(op: OperandV) -> bool {
    match op {
        OperandV::SystemWord(i) => i < 31,
        OperandV::LocalWord(i) => i < 32,
        OperandV::Indirect { kind: IndirectKind::Byte, .. } => true,
        OperandV::Indirect { kind: IndirectKind::Word, .. } => true,
        _ => false,
    }
}

fn numeric_for_width(value: &RuntimeValue, width: NumericWidth) -> (res: Result<u16, VmError>)
    ensures
        spec_numeric(value.view(), width) == (match res {
            Ok(n) => Some(n),
            Err(_) => None::<u16>,
        }),
{
    let value = value.number()?;
    Ok(match width {
        NumericWidth::Byte => if value > 0xff { 0xff } else { value },
        NumericWidth::Word => value,
    })
}

fn checked_string(value: RuntimeValue, max_len: usize) -> (res: Result<Vec<u8>, VmError>)
    ensures
        spec_string(value.view(), max_len as int) == (match res {
            Ok(b) => Some(b@),
            Err(_) => None::<Seq<u8>>,
        }),
{
    match value {
        RuntimeValue::String(bytes) => {
            if bytes.len() > max_len {
                return Err(VmError::StringTooLong);
            }
            Ok(bytes)
        },
        RuntimeValue::Number { .. } => Err(VmError::ExpectedString),
    }
}

proof fn lemma_strings_update(v: Seq<Vec<u8>>, i: int, b: Vec<u8>)
    requires
        0 <= i < v.len(),
    ensures
        strings_view(v.update(i, b)) == strings_view(v).update(i, b@),
{
    assert(strings_view(v.update(i, b)) =~= strings_view(v).update(i, b@));
}

impl Uk2Memory {
    /// Writes `value` to an operand.
    pub fn write_operand(&mut self, operand: &Operand, value: RuntimeValue) -> (res: Result<(), VmError>)
        requires
            old(self).wf(),
        ensures
            final(self).wf(),
            op_time_free(operand.view()) ==> match spec_write(old(self)@, operand.view(), value.view()) {
                Some(m) => res is Ok && final(self)@ == m,
                None => res is Err,
            },
    {
        let ghost v = value.view();
        match operand {
            Operand::SystemWord(index) => {
                let n = numeric_for_width(&value, NumericWidth::Word)?;
                if *index >= 31 {
                    return Err(VmError::IndexOutOfRange);
                }
                self.system_words.set(*index as usize, n);
                Ok(())
            },
            Operand::Immediate(_) | Operand::InlineString(_) => Err(VmError::NotWritable),
            Operand::FixedString(index) => {
                let b = checked_string(value, FIXED_STRING_MAX_LEN)?;
                if *index >= 32 {
                    return Err(VmError::IndexOutOfRange);
                }
                proof { lemma_strings_update(self.fixed_strings@, *index as int, b); }
                self.fixed_strings.set(*index as usize, b);
                Ok(())
            },
            Operand::LocalWord(index) => {
                let n = numeric_for_width(&value, NumericWidth::Word)?;
                if *index >= 32 {
                    return Err(VmError::IndexOutOfRange);
                }
                self.local_words.set(*index as usize, n);
                Ok(())
            },
            Operand::IndexedByte { selector, index } => {
                let at = match self.eval_expression(index)? {
                    RuntimeValue::Number { value, .. } => value,
                    RuntimeValue::String(_) => return Err(VmError::ExpectedNumber),
                };
                if at > 0x100 {
                    return Err(VmError::IndexTooLarge);
                }
                let n = numeric_for_width(&value, NumericWidth::Byte)? as u8;
                if *selector == 5 {
                    self.indexed_5.set(at as usize, n);
                } else if *selector == 8 {
                    self.indexed_8.set(at as usize, n);
                } else {
                    return Err(VmError::UnknownSelector(*selector));
                }
                Ok(())
            },
            Operand::Indirect { kind, slot } => match kind {
                IndirectKind::Byte => {
                    let n = numeric_for_width(&value, NumericWidth::Byte)?;
                    self.indirect_bytes.set(*slot as usize, n as u8);
                    Ok(())
                },
                IndirectKind::Word => {
                    let n = numeric_for_width(&value, NumericWidth::Word)?;
                    self.indirect_words.set(*slot as usize, n);
                    if *slot == 16 {
                        let now = self.now_nanos();
                        self.timer16_deadline = Some(now.saturating_add(TICK_NANOS * n as u128));
                    }
                    Ok(())
                },
                IndirectKind::String => {
                    match value {
                        RuntimeValue::String(b) => {
                            proof { lemma_strings_update(self.indirect_strings@, *slot as int, b); }
                            self.indirect_strings.set(*slot as usize, b);
                            Ok(())
                        },
                        RuntimeValue::Number { .. } => Err(VmError::ExpectedString),
                    }
                },
                IndirectKind::Raw(raw) => Err(VmError::UnknownIndirectKind(*raw)),
            },
            Operand::LargeString(index) => {
                let b = checked_string(value, LARGE_STRING_MAX_LEN)?;
                if *index >= 32 {
                    return Err(VmError::IndexOutOfRange);
                }
                proof { lemma_strings_update(self.large_strings@, *index as int, b); }
                self.large_strings.set(*index as usize, b);
                Ok(())
            },
        }
    }
}

// ---- conditions ---------------------------------------------------------------------

/// Byte-wise lexicographic order: -1, 0 or 1.
pub open spec fn lex_order(a: Seq<u8>, b: Seq<u8>) -> int
    decreases a.len(),
{
    if a.len() == 0 && b.len() == 0 {
        0
    } else if a.len() == 0 {
        -1
    } else if b.len() == 0 {
        1
    } else if a[0] < b[0] {
        -1
    } else if a[0] > b[0] {
        1
    } else {
        lex_order(a.skip(1), b.skip(1))
    }
}

pub open spec fn spec_compare(l: Val, op: CompareOp, r: Val) -> Option<bool> {
    match (l, r) {
        (Val::Number { value: a, .. }, Val::Number { value: b, .. }) => Some(match op {
            CompareOp::Less => a < b,
            CompareOp::Greater => a > b,
            CompareOp::Equal => a == b,
            CompareOp::NotEqual => a != b,
        }),
        (Val::Str(a), Val::Str(b)) => {
            let o = lex_order(a, b);
            Some(match op {
                CompareOp::Less => o < 0,
                CompareOp::Greater => o > 0,
                CompareOp::Equal => o == 0,
                CompareOp::NotEqual => o != 0,
            })
        },
        _ => None,
    }
}

fn lex_order_exec(a: &Vec<u8>, b: &Vec<u8>) -> (res: i8)
    ensures
        res as int == lex_order(a@, b@),
{
    let mut i: usize = 0;
    assert(a@.skip(0) =~= a@);
    assert(b@.skip(0) =~= b@);
    while i < a.len() && i < b.len()
        invariant
            i <= a@.len(),
            i <= b@.len(),
            lex_order(a@, b@) == lex_order(a@.skip(i as int), b@.skip(i as int)),
        decreases a@.len() - i,
    {
        if a[i] < b[i] {
            return -1;
        }
        if a[i] > b[i] {
            return 1;
        }
        assert(a@.skip(i as int).skip(1) =~= a@.skip(i + 1));
        assert(b@.skip(i as int).skip(1) =~= b@.skip(i + 1));
        i = i + 1;
    }
    if i == a.len() && i == b.len() {
        0
    } else if i == a.len() {
        -1
    } else {
        1
    }
}

fn compare_values(left: &RuntimeValue, op: CompareOp, right: &RuntimeValue) -> (res: Result<bool, VmError>)
    ensures
        spec_compare(left.view(), op, right.view()) == (match res {
            Ok(b) => Some(b),
            Err(_) => None::<bool>,
        }),
{
    match (left, right) {
        (RuntimeValue::Number { value: a, .. }, RuntimeValue::Number { value: b, .. }) => Ok(match op {
            CompareOp::Less => *a < *b,
            CompareOp::Greater => *a > *b,
            CompareOp::Equal => *a == *b,
            CompareOp::NotEqual => *a != *b,
        }),
        (RuntimeValue::String(a), RuntimeValue::String(b)) => {
            let o = lex_order_exec(a, b);
            Ok(match op {
                CompareOp::Less => o < 0,
                CompareOp::Greater => o > 0,
                CompareOp::Equal => o == 0,
                CompareOp::NotEqual => o != 0,
            })
        },
        _ => Err(VmError::MixedComparison),
    }
}

/// Whether two numbers pass a comparison: less, greater, equal, different.
pub open spec fn passes(op: CompareOp, a: u16, b: u16) -> bool {
    ||| op == CompareOp::Less && a < b
    ||| op == CompareOp::Greater && a > b
    ||| op == CompareOp::Equal && a == b
    ||| op == CompareOp::NotEqual && a != b
}

/// The result after the first `n` clauses and the connector before the next.
pub open spec fn spec_cond_prefix(m: MemV, c: Seq<ClauseV>, n: int) -> Option<(bool, BoolJoin)>
    decreases n,
{
    if n <= 0 || n > c.len() {
        Some((false, BoolJoin::Or))
    } else {
        match spec_cond_prefix(m, c, n - 1) {
            None => None,
            Some((result, join)) => match spec_eval(m, c[n - 1].left) {
                None => None,
                Some(l) => match spec_eval(m, c[n - 1].right) {
                    None => None,
                    Some(r) => match spec_compare(l, c[n - 1].compare, r) {
                        None => None,
                        Some(x) => Some((
                            match join {
                                BoolJoin::And => result && x,
                                BoolJoin::Or => result || x,
                            },
                            match c[n - 1].join_after {
                                Some(j) => j,
                                None => join,
                            },
                        )),
                    },
                },
            },
        }
    }
}

/// Clauses are folded left to right; each connector applies to the next
/// clause, and the fold starts from `false` with OR.
pub open spec fn spec_cond(m: MemV, c: Seq<ClauseV>) -> Option<bool> {
    match spec_cond_prefix(m, c, c.len() as int) {
        Some((r, _)) => Some(r),
        None => None,
    }
}

/// A condition on numbers: one clause holds exactly when its comparison
/// does, and a second clause joins the first by the connector written after
/// the first: `And` needs both, `Or` either.
pub proof fn lemma_condition_on_numbers(
    m: MemV,
    c1: ClauseV,
    c2: ClauseV,
    a1: u16,
    b1: u16,
    a2: u16,
    b2: u16,
    w: NumericWidth,
)
    requires
        spec_eval(m, c1.left) == Some(Val::Number { value: a1, width: w }),
        spec_eval(m, c1.right) == Some(Val::Number { value: b1, width: w }),
        spec_eval(m, c2.left) == Some(Val::Number { value: a2, width: w }),
        spec_eval(m, c2.right) == Some(Val::Number { value: b2, width: w }),
    ensures
        spec_cond(m, seq![c1]) == Some(passes(c1.compare, a1, b1)),
        c1.join_after == Some(BoolJoin::And) ==> spec_cond(m, seq![c1, c2]) == Some(
            passes(c1.compare, a1, b1) && passes(c2.compare, a2, b2),
        ),
        c1.join_after == Some(BoolJoin::Or) ==> spec_cond(m, seq![c1, c2]) == Some(
            passes(c1.compare, a1, b1) || passes(c2.compare, a2, b2),
        ),
{
    let one = seq![c1];
    let two = seq![c1, c2];
    assert(one[0] == c1);
    assert(two[0] == c1 && two[1] == c2);
    assert(spec_cond_prefix(m, one, 0) == Some((false, BoolJoin::Or)));
    assert(spec_cond_prefix(m, two, 0) == Some((false, BoolJoin::Or)));
    assert(spec_cond_prefix(m, two, 1) == spec_cond_prefix(m, one, 1));
}

proof fn lemma_cond_prefix_none(m: MemV, c: Seq<ClauseV>, k: int, n: int)
    requires
        0 < k <= n <= c.len(),
        spec_cond_prefix(m, c, k) is None,
    ensures
        spec_cond_prefix(m, c, n) is None,
    decreases n - k,
{
    if k < n {
        lemma_cond_prefix_none(m, c, k + 1, n);
    }
}

impl Uk2Memory {
    /// Evaluates a condition.
    pub fn eval_condition(&mut self, condition: &Condition) -> (res: Result<bool, VmError>)
        requires
            old(self).wf(),
        ensures
            final(self).wf(),
            read_frame(old(self)@, final(self)@),
            clauses_time_free(crate::value::clauses_view(condition.clauses@)) ==> final(self)@ == old(self)@
                && spec_cond(old(self)@, crate::value::clauses_view(condition.clauses@)) == (match res {
                Ok(b) => Some(b),
                Err(_) => None::<bool>,
            }),
    {
        let ghost m0 = self@;
        let ghost cv = crate::value::clauses_view(condition.clauses@);
        let mut result = false;
        let mut join_before = BoolJoin::Or;
        let mut i: usize = 0;
        while i < condition.clauses.len()
            invariant
                self.wf(),
                read_frame(m0, self@),
                m0 == old(self)@,
                cv == crate::value::clauses_view(condition.clauses@),
                i <= cv.len(),
                clauses_time_free(cv) ==> self@ == m0 && spec_cond_prefix(m0, cv, i as int) == Some((result, join_before)),
            decreases cv.len() - i,
        {
            let clause = &condition.clauses[i];
            assert(cv[i as int] == clause.view());
            let left = match self.eval_expression(&clause.left) {
                Ok(v) => v,
                Err(e) => {
                    proof { if clauses_time_free(cv) { lemma_cond_prefix_none(m0, cv, i + 1, cv.len() as int); } }
                    return Err(e);
                },
            };
            let right = match self.eval_expression(&clause.right) {
                Ok(v) => v,
                Err(e) => {
                    proof { if clauses_time_free(cv) { lemma_cond_prefix_none(m0, cv, i + 1, cv.len() as int); } }
                    return Err(e);
                },
            };
            let clause_result = match compare_values(&left, clause.compare, &right) {
                Ok(b) => b,
                Err(e) => {
                    proof { if clauses_time_free(cv) { lemma_cond_prefix_none(m0, cv, i + 1, cv.len() as int); } }
                    return Err(e);
                },
            };
            result = match join_before {
                BoolJoin::And => result && clause_result,
                BoolJoin::Or => result || clause_result,
            };
            match clause.join_after {
                Some(join) => {
                    join_before = join;
                },
                None => {},
            }
            i = i + 1;
        }
        Ok(result)
    }
}


// ---- services ------------------------------------------------------------------------

#[derive(Debug, PartialEq, Eq)]
pub struct ResolvedResource {
    pub resource: RuntimeValue,
    pub arguments: Vec<RuntimeValue>,
}

#[derive(Debug, PartialEq, Eq)]
pub enum ResolvedArg {
    Direct { operand: Operand, value: RuntimeValue },
    Value(RuntimeValue),
    Values(Vec<RuntimeValue>),
    Offset(u16),
    Resources(Vec<ResolvedResource>),
}

/// A command the core leaves to the host, with its arguments evaluated.
#[derive(Debug, PartialEq, Eq)]
pub struct ServiceCommand {
    pub offset: usize,
    pub opcode: TwoOpcode,
    pub arguments: Vec<ResolvedArg>,
}

/// The engine services around the interpreter core.
pub trait Uk2Host {
    /// Loads the MES named by UK2 bytecode (normally a virtual `.mes1` name).
    fn load_mes(&mut self, name: &[u8]) -> (res: Result<MesProgram, VmError>)
        ensures
            res is Ok ==> res.unwrap().wf();

    /// Executes a non-core command; returns the interpreter status that the
    /// handler in UK2.EXE leaves (normally zero).
    fn command(&mut self, command: &ServiceCommand, memory: &mut Uk2Memory) -> (res: Result<u16, VmError>)
        requires
            old(memory).wf(),
        ensures
            final(memory).wf();

    /// Pumps asynchronous device state before each instruction.
    fn poll(&mut self, memory: &mut Uk2Memory) -> (res: Result<(), VmError>)
        requires
            old(memory).wf(),
        ensures
            final(memory).wf(),
    {
        Ok(())
    }
}

/// What one instruction leaves to the block that runs it.
#[derive(Debug)]
pub enum Step {
    /// Go on with the next instruction.
    Next,
    /// The block ends with this status.
    Done(u16),
    /// Run the block at this offset, then go on after the call.
    Block(u16),
    /// A command, decoded at `offset`, for the interpreter or the host.
    Command { offset: usize, opcode: TwoOpcode, arguments: Vec<InstructionArg> },
}

/// The instruction decoded at `pc`, if any (the header holds none).
pub open spec fn decoded_at(d: Seq<u8>, pc: usize) -> Option<(KindV, int)> {
    if pc < MES_CODE_OFFSET {
        None
    } else {
        spec_decode(d, pc as int)
    }
}

/// The execution limit stops the next instruction.
pub open spec fn limit_reached(limit: Option<usize>, executed: usize) -> bool {
    executed == usize::MAX || match limit {
        Some(l) => executed >= l,
        None => false,
    }
}

/// What one decoded instruction at `pc` does to memory `m` (giving `m2`),
/// and what it leaves to its block.
pub open spec fn instruction_settled(m: MemV, m2: MemV, pc: usize, k: KindV, res: Result<Step, VmError>) -> bool {
    match k {
        KindV::End => res == Ok::<Step, VmError>(Step::Done(0)) && m2 == m,
        KindV::Return { status, .. } => m2 == m && if 0 <= status <= 7 {
            res == Ok::<Step, VmError>(Step::Done(status as u16))
        } else {
            res == Err::<Step, VmError>(VmError::ReturnOutOfRange(status))
        },
        KindV::Assign { destination, value } => expr_time_free(value) && op_time_free(destination) ==> match spec_eval(m, value) {
            None => res is Err && m2 == m,
            Some(v) => match spec_write(m, destination, v) {
                Some(w) => res == Ok::<Step, VmError>(Step::Next) && m2 == w,
                None => res is Err,
            },
        },
        KindV::Decrement(op) => adjust_settled(m, m2, op, false, res),
        KindV::Increment(op) => adjust_settled(m, m2, op, true, res),
        KindV::BlockCall { target } => res == Ok::<Step, VmError>(Step::Block(target)) && m2 == m,
        KindV::Command { opcode, arguments } => m2 == m && (res matches Ok(Step::Command { offset, opcode: o, arguments: a })
            && offset == pc && o == opcode && args_view(a@) == arguments),
    }
}

/// A numeric operand one step up or down, held to its width.
pub open spec fn adjust_settled(m: MemV, m2: MemV, op: OperandV, up: bool, res: Result<Step, VmError>) -> bool {
    op_time_free(op) ==> match spec_read(m, op) {
        None => res is Err && m2 == m,
        Some(Val::Str(_)) => res == Err::<Step, VmError>(VmError::ExpectedNumber) && m2 == m,
        Some(Val::Number { value, width }) => match spec_write(m, op, Val::Number { value: adjusted(value, width, up), width }) {
            Some(w) => res == Ok::<Step, VmError>(Step::Next) && m2 == w,
            None => res is Err,
        },
    }
}

/// One step of the interpreter after the host's poll answered `polled`.
pub open spec fn step_settled(a: &Uk2Vm, b: &Uk2Vm, polled: Result<(), VmError>, res: Result<Step, VmError>) -> bool {
    &&& b.spec_program() == a.spec_program()
    &&& b.spec_limit() == a.spec_limit()
    &&& b.spec_flag() == a.spec_flag()
    &&& b.spec_last_j3() == a.spec_last_j3()
    &&& match polled {
        Err(e) => res == Err::<Step, VmError>(e) && b.spec_pc() == a.spec_pc() && b.spec_memory() == a.spec_memory()
            && b.spec_executed() == a.spec_executed(),
        Ok(_) => if limit_reached(a.spec_limit(), a.spec_executed()) {
            res == Err::<Step, VmError>(VmError::InstructionLimit(a.spec_executed())) && b.spec_pc() == a.spec_pc()
                && b.spec_memory() == a.spec_memory() && b.spec_executed() == a.spec_executed()
        } else {
            b.spec_executed() == a.spec_executed() + 1 && match decoded_at(a.spec_program(), a.spec_pc()) {
                None => res == Err::<Step, VmError>(VmError::Decode(a.spec_pc())) && b.spec_pc() == a.spec_pc()
                    && b.spec_memory() == a.spec_memory(),
                Some((k, end)) => b.spec_pc() == end && instruction_settled(a.spec_memory(), b.spec_memory(), a.spec_pc(), k, res),
            }
        },
    }
}

/// One pass of a block's loop as it happened: the machine as the host's
/// poll left it and the poll's answer; the machine after the step and the
/// step's result; the machine after the pass and what the pass decided
/// (`None`: go on; `Some(r)`: the block ends with `r`).
pub struct BlockPass {
    pub polled_vm: Uk2Vm,
    pub polled: Result<(), VmError>,
    pub stepped_vm: Uk2Vm,
    pub step: Result<Step, VmError>,
    pub after: Uk2Vm,
    pub out: Option<Result<u16, VmError>>,
    /// For a block call: the called block's passes, its machine at the end
    /// and its result.
    pub inner: Seq<BlockPass>,
    pub inner_end: Uk2Vm,
    pub inner_res: Result<u16, VmError>,
    /// For a command: what it gave.
    pub command_res: Result<CoreOutcome, VmError>,
}

/// The host's poll may change the memory, keeping it well formed, and
/// nothing else.
pub closed spec fn poll_left(a: Uk2Vm, p: Uk2Vm) -> bool {
    &&& p.memory.wf()
    &&& p.program == a.program
    &&& p.pc == a.pc
    &&& p.condition_flag == a.condition_flag
    &&& p.last_j3_name == a.last_j3_name
    &&& p.instruction_limit == a.instruction_limit
    &&& p.instructions_executed == a.instructions_executed
}

/// What follows a block call that ended with `r` (machine `c`), giving
/// machine `b` and the caller's decision `out`: an error ends the caller
/// with it; otherwise the caller's condition flag `saved` comes back and
/// control jumps to `target` (refused outside the code), and a nonzero
/// status ends the caller with that status.
pub closed spec fn block_returned(
    c: Uk2Vm,
    b: Uk2Vm,
    saved: bool,
    target: u16,
    r: Result<u16, VmError>,
    out: Option<Result<u16, VmError>>,
) -> bool {
    match r {
        Err(e) => out == Some(Err::<u16, VmError>(e)) && b == c,
        Ok(status) => if in_code(&c, target) {
            vm_moved(&c, &b, target as usize, saved) && out == (if status == 0 {
                None::<Result<u16, VmError>>
            } else {
                Some(Ok::<u16, VmError>(status))
            })
        } else {
            vm_moved(&c, &b, c.pc, saved) && out == Some(Err::<u16, VmError>(VmError::JumpOutside(target as usize)))
        },
    }
}

/// A command's outcome as the decision of its block.
pub open spec fn core_out(r: Result<CoreOutcome, VmError>) -> Option<Result<u16, VmError>> {
    match r {
        Err(e) => Some(Err(e)),
        Ok(CoreOutcome::Continue) => None,
        Ok(CoreOutcome::Return(v)) => Some(Ok(v)),
    }
}

/// Pass `x` of a block's loop, from machine `a`: the poll's effect, then
/// one step, then for a block call the called block's run and what follows
/// it, and for a command what the command does.
pub closed spec fn pass_ok(a: Uk2Vm, x: BlockPass) -> bool
    decreases usize::MAX - a.spec_executed(), 0int,
{
    &&& poll_left(a, x.polled_vm)
    &&& step_settled(&x.polled_vm, &x.stepped_vm, x.polled, x.step)
    &&& match x.step {
        Err(e) => x.out == Some(Err::<u16, VmError>(e)) && x.after == x.stepped_vm,
        Ok(Step::Next) => x.out is None && x.after == x.stepped_vm,
        Ok(Step::Done(v)) => x.out == Some(Ok::<u16, VmError>(v)) && x.after == x.stepped_vm,
        Ok(Step::Block(target)) => x.stepped_vm.instructions_executed > a.instructions_executed && block_runs(
            x.stepped_vm,
            x.inner_end,
            x.inner_res,
            x.inner,
        ) && block_returned(x.inner_end, x.after, x.stepped_vm.condition_flag, target, x.inner_res, x.out),
        Ok(Step::Command { opcode, arguments, .. }) => core_settled(&x.stepped_vm, &x.after, opcode, arguments@, x.command_res)
            && x.out == core_out(x.command_res),
    }
}

/// A block run from machine `a` to machine `b` ending with `res`, pass by
/// pass as recorded in `t`.
pub closed spec fn block_runs(a: Uk2Vm, b: Uk2Vm, res: Result<u16, VmError>, t: Seq<BlockPass>) -> bool
    decreases usize::MAX - a.spec_executed(), t.len(),
{
    &&& t.len() > 0
    &&& pass_ok(a, t[0])
    &&& t[0].after.instructions_executed >= a.instructions_executed
    &&& match t[0].out {
        Some(r) => r == res && b == t[0].after && t.len() == 1,
        None => block_runs(t[0].after, b, res, t.drop_first()),
    }
}

/// The passes `t` of a block's loop that went on, from `a` to `b`.
pub closed spec fn block_prefix(a: Uk2Vm, b: Uk2Vm, t: Seq<BlockPass>) -> bool
    decreases t.len(),
{
    if t.len() == 0 {
        a == b
    } else {
        &&& pass_ok(a, t[0])
        &&& t[0].out is None
        &&& t[0].after.instructions_executed >= a.instructions_executed
        &&& block_prefix(t[0].after, b, t.drop_first())
    }
}

proof fn lemma_prefix_extend(a: Uk2Vm, c: Uk2Vm, t: Seq<BlockPass>, x: BlockPass)
    requires
        block_prefix(a, c, t),
        pass_ok(c, x),
        x.out is None,
        x.after.instructions_executed >= c.instructions_executed,
    ensures
        block_prefix(a, x.after, t.push(x)),
    decreases t.len(),
{
    if t.len() == 0 {
        assert(t.push(x)[0] == x);
        assert(t.push(x).drop_first() =~= Seq::<BlockPass>::empty());
        assert(block_prefix(x.after, x.after, Seq::<BlockPass>::empty()));
    } else {
        lemma_prefix_extend(t[0].after, c, t.drop_first(), x);
        assert(t.push(x)[0] == t[0]);
        assert(t.push(x).drop_first() =~= t.drop_first().push(x));
    }
}

proof fn lemma_prefix_finish(a: Uk2Vm, c: Uk2Vm, t: Seq<BlockPass>, x: BlockPass, res: Result<u16, VmError>)
    requires
        block_prefix(a, c, t),
        pass_ok(c, x),
        x.out == Some(res),
        x.after.instructions_executed >= c.instructions_executed,
    ensures
        block_runs(a, x.after, res, t.push(x)),
    decreases t.len(),
{
    if t.len() == 0 {
        assert(t.push(x)[0] == x);
        assert(t.push(x).len() == 1);
    } else {
        lemma_prefix_finish(t[0].after, c, t.drop_first(), x, res);
        assert(t.push(x)[0] == t[0]);
        assert(t.push(x).drop_first() =~= t.drop_first().push(x));
    }
}

/// What a core command leaves to its block.
#[derive(Debug, Clone, Copy, PartialEq, Eq)]
pub enum CoreOutcome {
    /// Go on with the next instruction.
    Continue,
    /// End the block with this status.
    Return(u16),
}

/// What a block status (from a called block or from the host's handling
/// of a service command) means for the block that made the call: zero goes
/// on, any other status ends it with that status.
pub fn status_outcome(status: u16) -> (res: CoreOutcome)
    ensures
        status == 0 ==> res == CoreOutcome::Continue,
        status != 0 ==> res == CoreOutcome::Return(status),
{
    if status == 0 {
        CoreOutcome::Continue
    } else {
        CoreOutcome::Return(status)
    }
}

impl Uk2Memory {
    /// Entering another MES: local words are zeroed and table-5 slots
    /// emptied; the previous ones are handed back.
    fn reset_external_locals(&mut self) -> (res: (Vec<u16>, Vec<Vec<u8>>))
        requires
            old(self).wf(),
        ensures
            final(self).wf(),
            read_frame_locals(old(self)@, final(self)@),
            res.0@ == old(self)@.local_words,
            strings_view(res.1@) == old(self)@.table5,
    {
        let mut words = zeros_u16(32);
        let mut slots = empty_strings(256);
        std::mem::swap(&mut words, &mut self.local_words);
        std::mem::swap(&mut slots, &mut self.table5_slots);
        (words, slots)
    }

    fn restore_external_locals(&mut self, saved: (Vec<u16>, Vec<Vec<u8>>))
        requires
            old(self).wf(),
            saved.0@.len() == 32,
            saved.1@.len() == 256,
        ensures
            final(self).wf(),
            read_frame_locals(old(self)@, final(self)@),
            final(self)@.local_words == saved.0@,
            final(self)@.table5 == strings_view(saved.1@),
    {
        let (words, slots) = saved;
        self.local_words = words;
        self.table5_slots = slots;
    }
}

/// Everything but the local words and table-5 slots is unchanged.
pub open spec fn read_frame_locals(a: MemV, b: MemV) -> bool {
    &&& mem_wf(b)
    &&& b.system_words == a.system_words
    &&& b.fixed_strings == a.fixed_strings
    &&& b.indexed_5 == a.indexed_5
    &&& b.indexed_8 == a.indexed_8
    &&& b.indirect_bytes == a.indirect_bytes
    &&& b.indirect_words == a.indirect_words
    &&& b.indirect_strings == a.indirect_strings
    &&& b.large_strings == a.large_strings
    &&& b.table6 == a.table6
    &&& b.fast_forward == a.fast_forward
}

/// The MES interpreter.
#[derive(Debug)]
pub struct Uk2Vm {
    program: MesProgram,
    pc: usize,
    memory: Uk2Memory,
    condition_flag: bool,
    last_j3_name: Option<Vec<u8>>,
    instruction_limit: Option<usize>,
    instructions_executed: usize,
}

impl Uk2Vm {
    /// The program counter stays inside the program; the memory is sized.
    pub closed spec fn wf(&self) -> bool {
        &&& self.program.wf()
        &&& self.pc <= self.program.view_bytes().len()
        &&& self.memory.wf()
    }

    pub closed spec fn spec_pc(&self) -> usize {
        self.pc
    }

    pub closed spec fn spec_memory(&self) -> MemV {
        self.memory@
    }

    pub closed spec fn spec_program(&self) -> Seq<u8> {
        self.program.view_bytes()
    }

    pub closed spec fn spec_limit(&self) -> Option<usize> {
        self.instruction_limit
    }

    pub closed spec fn spec_executed(&self) -> usize {
        self.instructions_executed
    }

    pub closed spec fn spec_flag(&self) -> bool {
        self.condition_flag
    }

    pub closed spec fn spec_last_j3(&self) -> Option<Seq<u8>> {
        match self.last_j3_name {
            Some(v) => Some(v@),
            None => None,
        }
    }

    /// A machine at the start of `program` with fresh memory.
    pub fn new(program: MesProgram) -> (res: Self)
        requires
            program.wf(),
        ensures
            res.wf(),
            res.spec_pc() == MES_CODE_OFFSET,
            res.spec_program() == program.view_bytes(),
            initial_mem(res.spec_memory()),
            res.spec_limit() is None,
            res.spec_executed() == 0,
            res.spec_last_j3() is None,
    {
        proof { program.lemma_wf(); }
        Uk2Vm {
            program,
            pc: MES_CODE_OFFSET,
            memory: Uk2Memory::default(),
            condition_flag: false,
            last_j3_name: None,
            instruction_limit: None,
            instructions_executed: 0,
        }
    }

    pub fn memory(&self) -> (res: &Uk2Memory)
        ensures
            res@ == self.spec_memory(),
    {
        &self.memory
    }

    pub fn memory_mut(&mut self) -> (res: &mut Uk2Memory)
        requires
            old(self).wf(),
        ensures
            res@ == old(self).spec_memory(),
            res.wf(),
            final(self).spec_memory() == final(res)@,
            final(res).wf() ==> final(self).wf(),
            final(self).spec_program() == old(self).spec_program(),
            final(self).spec_pc() == old(self).spec_pc(),
            final(self).spec_last_j3() == old(self).spec_last_j3(),
            final(self).spec_limit() == old(self).spec_limit(),
            final(self).spec_executed() == old(self).spec_executed(),
    {
        &mut self.memory
    }

    pub fn pc(&self) -> (res: usize)
        ensures
            res == self.spec_pc(),
    {
        self.pc
    }

    /// Name stored by the last `J3` (the MES to restart with).
    pub fn last_j3_name(&self) -> (res: Option<&[u8]>)
        ensures
            match self.spec_last_j3() {
                Some(n) => res is Some && res.unwrap()@ == n,
                None => res is None,
            },
    {
        match &self.last_j3_name {
            Some(v) => Some(v.as_slice()),
            None => None,
        }
    }

    /// Bounds execution for offline probes that cannot provide live input.
    pub fn set_instruction_limit(&mut self, limit: usize)
        requires
            old(self).wf(),
        ensures
            final(self).wf(),
            final(self).spec_limit() == Some(limit),
            final(self).spec_pc() == old(self).spec_pc(),
            final(self).spec_memory() == old(self).spec_memory(),
            final(self).spec_program() == old(self).spec_program(),
            final(self).spec_executed() == old(self).spec_executed(),
    {
        self.instruction_limit = Some(limit);
    }

    /// Runs the program from the current program counter until its top
    /// block returns; the result is the interpreter status.  Each
    /// instruction is one [`Uk2Vm::step`] after the host's poll; block calls
    /// and commands are run as [`Step`] hands them back, and what follows a
    /// block call is [`Uk2Vm::after_block`].  The run, pass by pass, is
    /// [`block_runs`] over what the host answered.
    pub fn run<H: Uk2Host>(&mut self, host: &mut H) -> (res: Result<u16, VmError>)
        requires
            old(self).wf(),
        ensures
            final(self).wf(),
            final(self).spec_program() == old(self).spec_program(),
            final(self).spec_limit() == old(self).spec_limit(),
            final(self).spec_executed() >= old(self).spec_executed(),
            res is Ok ==> final(self).spec_executed() > old(self).spec_executed(),
            match final(self).spec_limit() {
                Some(limit) => final(self).spec_executed() <= limit || final(self).spec_executed() == old(self).spec_executed(),
                None => true,
            },
            exists|t: Seq<BlockPass>| #[trigger] block_runs(*old(self), *final(self), res, t),
    {
        self.execute_block(host)
    }

    fn set_pc(&mut self, target: u16) -> (res: Result<(), VmError>)
        requires
            old(self).wf(),
        ensures
            final(self).wf(),
            final(self).program == old(self).program,
            final(self).memory == old(self).memory,
            final(self).condition_flag == old(self).condition_flag,
            final(self).instruction_limit == old(self).instruction_limit,
            final(self).instructions_executed == old(self).instructions_executed,
            final(self).last_j3_name == old(self).last_j3_name,
            MES_CODE_OFFSET <= target < old(self).program.view_bytes().len() ==> res is Ok && final(self).pc == target,
            !(MES_CODE_OFFSET <= target < old(self).program.view_bytes().len()) ==> res == Err::<(), VmError>(
                VmError::JumpOutside(target as usize),
            ) && final(self).pc == old(self).pc,
    {
        let target = target as usize;
        if target < MES_CODE_OFFSET || target >= self.program.len() {
            return Err(VmError::JumpOutside(target));
        }
        self.pc = target;
        Ok(())
    }
}

/// Bookkeeping that every step keeps: the program and limit are those of
/// the caller, the count of executed instructions only grows.
pub open spec fn vm_step(a: &Uk2Vm, b: &Uk2Vm) -> bool {
    &&& b.wf()
    &&& b.spec_program() == a.spec_program()
    &&& b.spec_limit() == a.spec_limit()
    &&& b.spec_executed() >= a.spec_executed()
    &&& match b.spec_limit() {
        Some(limit) => b.spec_executed() <= limit || b.spec_executed() == a.spec_executed(),
        None => true,
    }
}

/// `b` is `a` with the program counter at `pc` and the condition flag at
/// `flag`, and nothing else changed (the memory compared by its model).
spec fn vm_moved(a: &Uk2Vm, b: &Uk2Vm, pc: usize, flag: bool) -> bool {
    &&& b.program == a.program
    &&& b.pc == pc
    &&& b.memory@ == a.memory@
    &&& b.condition_flag == flag
    &&& b.last_j3_name == a.last_j3_name
    &&& b.instruction_limit == a.instruction_limit
    &&& b.instructions_executed == a.instructions_executed
}

/// `b` is `a` unchanged.
spec fn vm_same(a: &Uk2Vm, b: &Uk2Vm) -> bool {
    vm_moved(a, b, a.pc, a.condition_flag)
}

/// `t` lies in the code of `a`'s program.
spec fn in_code(a: &Uk2Vm, t: u16) -> bool {
    MES_CODE_OFFSET <= t && (t as int) < a.program.view_bytes().len()
}

/// A jump to `t` that sets the condition flag to `flag`: taken with status
/// 0 when `t` lies in the code, else refused with the program counter kept.
spec fn jump_outcome(a: &Uk2Vm, b: &Uk2Vm, t: u16, flag: bool, res: Result<u16, VmError>) -> bool {
    if in_code(a, t) {
        res == Ok::<u16, VmError>(0) && vm_moved(a, b, t as usize, flag)
    } else {
        res == Err::<u16, VmError>(VmError::JumpOutside(t as usize)) && vm_moved(a, b, a.pc, flag)
    }
}

/// The clauses of a condition argument.
pub open spec fn cond_clauses(a: InstructionArg) -> Seq<ClauseV> {
    match a {
        InstructionArg::Condition(c) => crate::value::clauses_view(c.clauses@),
        _ => Seq::empty(),
    }
}

/// The condition and branch target of a conditional command, when it has both.
pub open spec fn guard_of(args: Seq<InstructionArg>) -> Option<(Seq<ClauseV>, u16)> {
    match first_condition(args, 0) {
        Some(k) => match last_offset(args_view(args)) {
            Some(t) => Some((cond_clauses(args[k]), t)),
            None => None,
        },
        None => None,
    }
}

/// What `L1` does where no block runs: a missing condition or target
/// fails; a condition that fails to evaluate fails; a false condition
/// clears the flag and jumps to the target.
spec fn l1_settled(a: &Uk2Vm, b: &Uk2Vm, args: Seq<InstructionArg>, res: Result<u16, VmError>) -> bool {
    match guard_of(args) {
        None => res == Err::<u16, VmError>(VmError::MissingArgument) && vm_same(a, b),
        Some((c, t)) => clauses_time_free(c) ==> match spec_cond(a.memory@, c) {
            None => res is Err && vm_same(a, b),
            Some(false) => jump_outcome(a, b, t, false, res),
            Some(true) => true,
        },
    }
}

/// What `L0` does where no block runs: as `L1`, but a false condition
/// keeps the flag; whenever it ends well it stands at the target.
spec fn l0_settled(a: &Uk2Vm, b: &Uk2Vm, args: Seq<InstructionArg>, res: Result<u16, VmError>) -> bool {
    match guard_of(args) {
        None => res == Err::<u16, VmError>(VmError::MissingArgument) && vm_same(a, b),
        Some((c, t)) => (res is Ok ==> b.pc == t) && (clauses_time_free(c) ==> match spec_cond(a.memory@, c) {
            None => res is Err && vm_same(a, b),
            Some(false) => jump_outcome(a, b, t, a.condition_flag, res),
            Some(true) => true,
        }),
    }
}

/// What `L2` does where no block runs: a missing target fails; a set flag
/// jumps to the target; after the block runs the flag is clear.
spec fn l2_settled(a: &Uk2Vm, b: &Uk2Vm, args: Seq<InstructionArg>, res: Result<u16, VmError>) -> bool {
    match last_offset(args_view(args)) {
        None => res == Err::<u16, VmError>(VmError::MissingArgument) && vm_same(a, b),
        Some(t) => if a.condition_flag {
            jump_outcome(a, b, t, true, res)
        } else {
            res is Ok ==> !b.condition_flag
        },
    }
}

/// What `L5` does where no block runs: with the flag clear it is `L1`;
/// with the flag set it evaluates the condition and jumps to the target.
spec fn l5_settled(a: &Uk2Vm, b: &Uk2Vm, args: Seq<InstructionArg>, res: Result<u16, VmError>) -> bool {
    match guard_of(args) {
        None => res == Err::<u16, VmError>(VmError::MissingArgument) && vm_same(a, b),
        Some((c, t)) => if !a.condition_flag {
            l1_settled(a, b, args, res)
        } else {
            clauses_time_free(c) ==> match spec_cond(a.memory@, c) {
                None => res is Err && vm_same(a, b),
                Some(_) => jump_outcome(a, b, t, true, res),
            }
        },
    }
}

/// The expression of argument `i`, when it is one.
pub open spec fn expr_arg(args: Seq<InstructionArg>, i: int) -> Option<ExpressionV> {
    if 0 <= i < args.len() {
        match args[i] {
            InstructionArg::Expression(e) => Some(e.view()),
            _ => None,
        }
    } else {
        None
    }
}

/// The number of an evaluation, when it gave one.
pub open spec fn number_val(v: Option<Val>) -> Option<u16> {
    match v {
        Some(Val::Number { value, .. }) => Some(value),
        _ => None,
    }
}

/// What `L3` does where no block runs: a missing part of its header
/// fails; bounds that fail to give numbers fail; a start above the end
/// jumps to the target; whenever it ends well it stands at the target.
spec fn l3_settled(a: &Uk2Vm, b: &Uk2Vm, args: Seq<InstructionArg>, res: Result<u16, VmError>) -> bool {
    match (nth_direct(args, 0, 0), expr_arg(args, 1), expr_arg(args, 2), expr_arg(args, 3), last_offset(args_view(args))) {
        (Some(_), Some(e1), Some(e2), Some(e3), Some(t)) => (res is Ok ==> b.pc == t) && (expr_time_free(e1)
            && expr_time_free(e2) && expr_time_free(e3) ==> match (
            number_val(spec_eval(a.memory@, e1)),
            number_val(spec_eval(a.memory@, e2)),
            number_val(spec_eval(a.memory@, e3)),
        ) {
            (Some(first), Some(last), Some(_)) => first > last ==> jump_outcome(a, b, t, a.condition_flag, res),
            _ => res is Err && vm_same(a, b),
        }),
        _ => res is Err,
    }
}

/// A block status as a command outcome.
spec fn as_outcome(r: Result<u16, VmError>) -> Result<CoreOutcome, VmError> {
    match r {
        Ok(s) => Ok(if s == 0 { CoreOutcome::Continue } else { CoreOutcome::Return(s) }),
        Err(e) => Err(e),
    }
}

/// Whether an opcode is run by the interpreter itself rather than the host.
pub open spec fn core_opcode(op: TwoOpcode) -> bool {
    match op {
        TwoOpcode::J0 | TwoOpcode::J1 | TwoOpcode::J2 | TwoOpcode::J3 | TwoOpcode::L0 | TwoOpcode::L1
        | TwoOpcode::L2 | TwoOpcode::L3 | TwoOpcode::L4 | TwoOpcode::L5 | TwoOpcode::T0 | TwoOpcode::T1
        | TwoOpcode::M3 => true,
        _ => false,
    }
}

/// What a core command does where no block runs and no host is asked.
spec fn core_settled(
    a: &Uk2Vm,
    b: &Uk2Vm,
    opcode: TwoOpcode,
    args: Seq<InstructionArg>,
    res: Result<CoreOutcome, VmError>,
) -> bool {
    match opcode {
        TwoOpcode::J0 => match last_offset(args_view(args)) {
            None => res == Err::<CoreOutcome, VmError>(VmError::MissingArgument) && vm_same(a, b),
            Some(t) => if in_code(a, t) {
                res == Ok::<CoreOutcome, VmError>(CoreOutcome::Continue) && vm_moved(a, b, t as usize, a.condition_flag)
            } else {
                res == Err::<CoreOutcome, VmError>(VmError::JumpOutside(t as usize)) && vm_same(a, b)
            },
        },
        TwoOpcode::J1 => (res is Ok ==> b.pc == a.pc) && match last_offset(args_view(args)) {
            None => res == Err::<CoreOutcome, VmError>(VmError::MissingArgument) && vm_same(a, b),
            Some(t) => !in_code(a, t) ==> res == Err::<CoreOutcome, VmError>(VmError::JumpOutside(t as usize)) && vm_same(a, b),
        },
        TwoOpcode::J2 => (res is Ok ==> b.pc == a.pc) && (nth_direct(args, 0, 0) is None ==> res
            == Err::<CoreOutcome, VmError>(VmError::MissingArgument) && vm_same(a, b)),
        TwoOpcode::J3 => match nth_direct(args, 0, 0) {
            None => res == Err::<CoreOutcome, VmError>(VmError::MissingArgument) && vm_same(a, b),
            Some(k) => op_time_free(direct_operand(args[k]).view()) ==> match spec_read(a.memory@, direct_operand(args[k]).view()) {
                Some(Val::Str(s)) => res == Ok::<CoreOutcome, VmError>(CoreOutcome::Return(5)) && b.program == a.program
                    && b.pc == a.pc && b.memory@ == a.memory@ && b.condition_flag == a.condition_flag
                    && (b.last_j3_name matches Some(n) && n@ == cut13(s)),
                _ => res is Err && vm_same(a, b),
            },
        },
        TwoOpcode::L4 => match guard_of(args) {
            None => res == Err::<CoreOutcome, VmError>(VmError::MissingArgument) && vm_same(a, b),
            Some((c, t)) => clauses_time_free(c) ==> match spec_cond(a.memory@, c) {
                None => res is Err && vm_same(a, b),
                Some(false) => if in_code(a, t) {
                    res == Ok::<CoreOutcome, VmError>(CoreOutcome::Continue) && vm_moved(a, b, t as usize, false)
                } else {
                    res == Err::<CoreOutcome, VmError>(VmError::JumpOutside(t as usize)) && vm_moved(a, b, a.pc, false)
                },
                Some(true) => true,
            },
        },
        TwoOpcode::T0 | TwoOpcode::T1 => b.program == a.program && b.pc == a.pc && b.condition_flag == a.condition_flag
            && b.last_j3_name == a.last_j3_name && match first_list(args, 0) {
            None => res == Err::<CoreOutcome, VmError>(VmError::MissingArgument) && b.memory@ == a.memory@,
            Some(k) => all_time_free(list_exprs(args[k])) ==> match fill_text_slots(
                a.memory@,
                list_exprs(args[k]),
                opcode == TwoOpcode::T0,
                0,
            ) {
                Some(m) => res == Ok::<CoreOutcome, VmError>(CoreOutcome::Continue) && b.memory@ == m,
                None => res is Err,
            },
        },
        TwoOpcode::M3 => res == Ok::<CoreOutcome, VmError>(CoreOutcome::Continue) && vm_same(a, b),
        TwoOpcode::L0 => exists|r: Result<u16, VmError>| #[trigger] as_outcome(r) == res && l0_settled(a, b, args, r),
        TwoOpcode::L1 => exists|r: Result<u16, VmError>| #[trigger] as_outcome(r) == res && l1_settled(a, b, args, r),
        TwoOpcode::L2 => exists|r: Result<u16, VmError>| #[trigger] as_outcome(r) == res && l2_settled(a, b, args, r),
        TwoOpcode::L5 => exists|r: Result<u16, VmError>| #[trigger] as_outcome(r) == res && l5_settled(a, b, args, r),
        TwoOpcode::L3 => exists|r: Result<u16, VmError>| #[trigger] as_outcome(r) == res && l3_settled(a, b, args, r),
        _ => !core_opcode(opcode) && (forall|i: int| 0 <= i < args.len() ==> arg_time_free(#[trigger] args[i])) && !(forall|i: int|
            0 <= i < args.len() ==> arg_resolves(a.memory@, #[trigger] args[i])) ==> res is Err && b.pc == a.pc && b.memory@
            == a.memory@ && b.condition_flag == a.condition_flag && b.spec_last_j3() == a.spec_last_j3(),
    }
}

/// The index of the first argument from `i` on that is a condition.
pub open spec fn first_condition(args: Seq<InstructionArg>, i: int) -> Option<int>
    decreases args.len() - i,
{
    if i < 0 || i >= args.len() {
        None
    } else if args[i] is Condition {
        Some(i)
    } else {
        first_condition(args, i + 1)
    }
}

/// The index of direct operand number `n` (counting from 0) among the
/// arguments from `i` on.
pub open spec fn nth_direct(args: Seq<InstructionArg>, n: int, i: int) -> Option<int>
    decreases args.len() - i,
{
    if i < 0 || i >= args.len() {
        None
    } else if args[i] is Direct {
        if n == 0 {
            Some(i)
        } else {
            nth_direct(args, n - 1, i + 1)
        }
    } else {
        nth_direct(args, n, i + 1)
    }
}

/// The operand of a direct argument.
pub open spec fn direct_operand(a: InstructionArg) -> Operand {
    match a {
        InstructionArg::Direct(o) => o,
        _ => Operand::Immediate(0),
    }
}

/// A string cut to its first 13 bytes.
pub open spec fn cut13(b: Seq<u8>) -> Seq<u8> {
    if b.len() > 13 {
        b.take(13)
    } else {
        b
    }
}

/// A number one step up or down, held between 0 and the width's maximum.
pub open spec fn adjusted(value: u16, width: NumericWidth, up: bool) -> u16 {
    let max: u16 = match width {
        NumericWidth::Byte => 0xff,
        NumericWidth::Word => 0xffff,
    };
    if up {
        if value >= max { max } else { (value + 1) as u16 }
    } else {
        if value == 0 { 0 } else if value > max { max } else { (value - 1) as u16 }
    }
}

/// Every expression reads no clock-driven word.
pub open spec fn all_time_free(e: Seq<Expression>) -> bool {
    forall|i: int| 0 <= i < e.len() ==> expr_time_free(#[trigger] e[i].view())
}

/// Every resource and resource argument reads no clock-driven word.
pub open spec fn resources_time_free(r: Seq<ResourceArgument>) -> bool {
    forall|k: int| 0 <= k < r.len() ==> expr_time_free(#[trigger] r[k].resource.view()) && all_time_free(r[k].arguments@)
}

/// A command argument reads no clock-driven word.
pub open spec fn arg_time_free(a: InstructionArg) -> bool {
    match a {
        InstructionArg::Direct(op) => op_time_free(op.view()),
        InstructionArg::Expression(e) => expr_time_free(e.view()),
        InstructionArg::ExpressionList(es) => all_time_free(es@),
        InstructionArg::ResourceList(rs) => resources_time_free(rs@),
        _ => true,
    }
}

/// Every expression of a list evaluates.
pub open spec fn all_evaluate(m: MemV, e: Seq<Expression>) -> bool {
    forall|i: int| 0 <= i < e.len() ==> spec_eval(m, #[trigger] e[i].view()) is Some
}

/// A list of values is that of the expressions.
pub open spec fn values_of(m: MemV, e: Seq<Expression>, v: Seq<RuntimeValue>) -> bool {
    &&& v.len() == e.len()
    &&& forall|i: int| 0 <= i < e.len() ==> Some(#[trigger] v[i].view()) == spec_eval(m, e[i].view())
}

/// A command argument resolves: every read and evaluation succeeds, and it
/// is not a condition.
pub open spec fn arg_resolves(m: MemV, a: InstructionArg) -> bool {
    match a {
        InstructionArg::Direct(op) => spec_read(m, op.view()) is Some,
        InstructionArg::Expression(e) => spec_eval(m, e.view()) is Some,
        InstructionArg::ExpressionList(es) => all_evaluate(m, es@),
        InstructionArg::Offset(_) => true,
        InstructionArg::ResourceList(rs) => forall|k: int| 0 <= k < rs@.len() ==> spec_eval(m, #[trigger] rs@[k].resource.view()) is Some
            && all_evaluate(m, rs@[k].arguments@),
        InstructionArg::Condition(_) => false,
    }
}

/// A resolved argument is the argument with its values.
pub open spec fn resolved_as(m: MemV, a: InstructionArg, r: ResolvedArg) -> bool {
    match a {
        InstructionArg::Direct(op) => r matches ResolvedArg::Direct { operand, value } && operand.view() == op.view()
            && spec_read(m, op.view()) == Some(value.view()),
        InstructionArg::Expression(e) => r matches ResolvedArg::Value(v) && spec_eval(m, e.view()) == Some(v.view()),
        InstructionArg::ExpressionList(es) => r matches ResolvedArg::Values(vs) && values_of(m, es@, vs@),
        InstructionArg::Offset(t) => r == ResolvedArg::Offset(t),
        InstructionArg::ResourceList(rs) => r matches ResolvedArg::Resources(out) && out@.len() == rs@.len() && forall|k: int|
            0 <= k < rs@.len() ==> Some(#[trigger] out@[k].resource.view()) == spec_eval(m, rs@[k].resource.view()) && values_of(
                m,
                rs@[k].arguments@,
                out@[k].arguments@,
            ),
        InstructionArg::Condition(_) => false,
    }
}

/// The last offset argument (the branch target).
fn require_offset(arguments: &Vec<InstructionArg>) -> (res: Result<u16, VmError>)
    ensures
        match last_offset(args_view(arguments@)) {
            Some(o) => res == Ok::<u16, VmError>(o),
            None => res == Err::<u16, VmError>(VmError::MissingArgument),
        },
{
    let mut i = arguments.len();
    let ghost av = args_view(arguments@);
    assert(av.take(i as int) =~= av);
    while i > 0
        invariant
            i <= arguments@.len(),
            av == args_view(arguments@),
            last_offset(av) == last_offset(av.take(i as int)),
        decreases i,
    {
        assert(av.take(i as int).drop_last() =~= av.take(i - 1));
        match &arguments[i - 1] {
            InstructionArg::Offset(o) => return Ok(*o),
            _ => {},
        }
        i = i - 1;
    }
    Err(VmError::MissingArgument)
}

/// The first condition argument.
fn require_condition(arguments: &Vec<InstructionArg>) -> (res: Result<&Condition, VmError>)
    ensures
        match first_condition(arguments@, 0) {
            Some(k) => res matches Ok(c) && arguments@[k] == InstructionArg::Condition(*c),
            None => res == Err::<&Condition, VmError>(VmError::MissingArgument),
        },
{
    let mut i: usize = 0;
    while i < arguments.len()
        invariant
            i <= arguments@.len(),
            first_condition(arguments@, 0) == first_condition(arguments@, i as int),
        decreases arguments@.len() - i,
    {
        match &arguments[i] {
            InstructionArg::Condition(c) => return Ok(c),
            _ => {},
        }
        i = i + 1;
    }
    Err(VmError::MissingArgument)
}

/// The index of the first argument from `i` on that is an expression list.
pub open spec fn first_list(args: Seq<InstructionArg>, i: int) -> Option<int>
    decreases args.len() - i,
{
    if i < 0 || i >= args.len() {
        None
    } else if args[i] is ExpressionList {
        Some(i)
    } else {
        first_list(args, i + 1)
    }
}

/// The expressions of an expression-list argument.
pub open spec fn list_exprs(a: InstructionArg) -> Seq<Expression> {
    match a {
        InstructionArg::ExpressionList(es) => es@,
        _ => Seq::empty(),
    }
}

/// The memory after text slots `i..` are filled one after another from
/// `es` (table 5 when `current`, else table 6): each expression must give a
/// string of at most `TEXT_SLOT_MAX_LEN` bytes and each slot index must be at
/// most 255; `None` at the first that fails.
pub open spec fn fill_text_slots(m: MemV, es: Seq<Expression>, current: bool, i: int) -> Option<MemV>
    decreases es.len() - i,
{
    if i >= es.len() {
        Some(m)
    } else {
        match spec_eval(m, es[i].view()) {
            None => None,
            Some(v) => match spec_string(v, TEXT_SLOT_MAX_LEN as int) {
                None => None,
                Some(b) => if i < 0 || i > 255 {
                    None
                } else if current {
                    fill_text_slots(MemV { table5: m.table5.update(i, b), ..m }, es, current, i + 1)
                } else {
                    fill_text_slots(MemV { table6: m.table6.update(i, b), ..m }, es, current, i + 1)
                },
            },
        }
    }
}

/// The first expression-list argument.
fn require_list(arguments: &Vec<InstructionArg>) -> (res: Result<&Vec<Expression>, VmError>)
    ensures
        match first_list(arguments@, 0) {
            Some(k) => res matches Ok(es) && arguments@[k] == InstructionArg::ExpressionList(*es),
            None => res == Err::<&Vec<Expression>, VmError>(VmError::MissingArgument),
        },
{
    let mut i: usize = 0;
    while i < arguments.len()
        invariant
            i <= arguments@.len(),
            first_list(arguments@, 0) == first_list(arguments@, i as int),
        decreases arguments@.len() - i,
    {
        match &arguments[i] {
            InstructionArg::ExpressionList(es) => return Ok(es),
            _ => {},
        }
        i = i + 1;
    }
    Err(VmError::MissingArgument)
}

/// Direct operand number `index`.
fn require_direct(arguments: &Vec<InstructionArg>, index: usize) -> (res: Result<&Operand, VmError>)
    ensures
        match nth_direct(arguments@, index as int, 0) {
            Some(k) => res matches Ok(o) && arguments@[k] == InstructionArg::Direct(*o),
            None => res == Err::<&Operand, VmError>(VmError::MissingArgument),
        },
{
    let mut seen: usize = 0;
    let mut i: usize = 0;
    while i < arguments.len()
        invariant
            i <= arguments@.len(),
            seen <= i,
            seen <= index,
            nth_direct(arguments@, index as int, 0) == nth_direct(arguments@, index - seen, i as int),
        decreases arguments@.len() - i,
    {
        match &arguments[i] {
            InstructionArg::Direct(o) => {
                if seen == index {
                    return Ok(o);
                }
                seen = seen + 1;
            },
            _ => {},
        }
        i = i + 1;
    }
    Err(VmError::MissingArgument)
}

/// The argument at `index`, which must be an expression.
fn require_expression(arguments: &Vec<InstructionArg>, index: usize) -> (res: Result<&Expression, VmError>)
    ensures
        index < arguments@.len() && arguments@[index as int] is Expression ==> (res matches Ok(e)
            && arguments@[index as int] == InstructionArg::Expression(*e)),
        !(index < arguments@.len() && arguments@[index as int] is Expression) ==> res == Err::<&Expression, VmError>(
            VmError::MissingArgument,
        ),
{
    if index < arguments.len() {
        match &arguments[index] {
            InstructionArg::Expression(e) => Ok(e),
            _ => Err(VmError::MissingArgument),
        }
    } else {
        Err(VmError::MissingArgument)
    }
}

fn host_error<T>(r: Result<T, VmError>) -> (res: Result<T, VmError>)
    ensures
        res == r,
{
    r
}

impl Uk2Vm {
    /// Runs the instruction at the program counter, once the host's poll
    /// before it has answered `polled`: checks the execution limit, decodes,
    /// moves past the instruction and does what needs no host.  Block calls
    /// and commands are handed back to the caller.
    pub fn step(&mut self, polled: Result<(), VmError>) -> (res: Result<Step, VmError>)
        requires
            old(self).wf(),
        ensures
            final(self).wf(),
            vm_step(old(self), final(self)),
            step_settled(old(self), final(self), polled, res),
            res is Ok ==> final(self).spec_executed() == old(self).spec_executed() + 1,
    {
        polled?;
        match self.instruction_limit {
            Some(limit) => {
                if self.instructions_executed >= limit {
                    return Err(VmError::InstructionLimit(self.instructions_executed));
                }
            },
            None => {},
        }
        if self.instructions_executed == usize::MAX {
            return Err(VmError::InstructionLimit(self.instructions_executed));
        }
        self.instructions_executed = self.instructions_executed + 1;
        let instruction = match decode_instruction(&self.program, self.pc) {
            Ok(i) => i,
            Err(_) => return Err(VmError::Decode(self.pc)),
        };
        let offset = instruction.offset;
        self.pc = instruction.end_offset;
        match instruction.kind {
            InstructionKind::End => Ok(Step::Done(0)),
            InstructionKind::Return { status, .. } => {
                if status < 0 || status > 7 {
                    return Err(VmError::ReturnOutOfRange(status));
                }
                Ok(Step::Done(status as u16))
            },
            InstructionKind::Assign { destination, value } => {
                let value = self.memory.eval_expression(&value)?;
                self.memory.write_operand(&destination, value)?;
                Ok(Step::Next)
            },
            InstructionKind::Decrement(destination) => {
                self.adjust_numeric(&destination, false)?;
                Ok(Step::Next)
            },
            InstructionKind::Increment(destination) => {
                self.adjust_numeric(&destination, true)?;
                Ok(Step::Next)
            },
            InstructionKind::BlockCall { target } => Ok(Step::Block(target)),
            InstructionKind::Command { opcode, arguments } => Ok(Step::Command { offset, opcode, arguments }),
        }
    }

    /// What follows a block call once the called block has ended with
    /// `callee`: its error ends the caller; otherwise the caller's condition
    /// flag `saved_flag` comes back and control jumps to `target`, and a
    /// nonzero status ends the caller with that status.
    pub fn after_block(&mut self, saved_flag: bool, target: u16, callee: Result<u16, VmError>) -> (res: Result<CoreOutcome, VmError>)
        requires
            old(self).wf(),
        ensures
            final(self).wf(),
            block_returned(*old(self), *final(self), saved_flag, target, callee, core_out(res)),
    {
        match callee {
            Err(e) => Err(e),
            Ok(status) => {
                self.condition_flag = saved_flag;
                self.set_pc(target)?;
                Ok(status_outcome(status))
            },
        }
    }

    fn execute_block<H: Uk2Host>(&mut self, host: &mut H) -> (res: Result<u16, VmError>)
        requires
            old(self).wf(),
        ensures
            vm_step(old(self), final(self)),
            res is Ok ==> final(self).spec_executed() > old(self).spec_executed(),
            exists|t: Seq<BlockPass>| #[trigger] block_runs(*old(self), *final(self), res, t),
        decreases usize::MAX - old(self).instructions_executed, 0int,
    {
        let ghost start = *self;
        let ghost mut t: Seq<BlockPass> = Seq::empty();
        loop
            invariant
                vm_step(&start, self),
                start == *old(self),
                self.instructions_executed >= start.instructions_executed,
                block_prefix(start, *self, t),
                t.len() > 0 ==> self.instructions_executed > start.instructions_executed,
            decreases usize::MAX - self.instructions_executed,
        {
            let ghost a = *self;
            let polled = host.poll(&mut self.memory);
            let ghost p = *self;
            let st = self.step(polled);
            let ghost s = *self;
            let ghost stg = st;
            match st {
                Err(e) => {
                    proof {
                        let x = BlockPass {
                            polled_vm: p,
                            polled,
                            stepped_vm: s,
                            step: stg,
                            after: s,
                            out: Some(Err(e)),
                            inner: Seq::empty(),
                            inner_end: s,
                            inner_res: Err(e),
                            command_res: Err(e),
                        };
                        lemma_prefix_finish(start, a, t, x, Err(e));
                    }
                    return Err(e);
                },
                Ok(Step::Next) => {
                    proof {
                        let x = BlockPass {
                            polled_vm: p,
                            polled,
                            stepped_vm: s,
                            step: stg,
                            after: s,
                            out: None,
                            inner: Seq::empty(),
                            inner_end: s,
                            inner_res: Ok(0),
                            command_res: Ok(CoreOutcome::Continue),
                        };
                        lemma_prefix_extend(start, a, t, x);
                        t = t.push(x);
                    }
                },
                Ok(Step::Done(status)) => {
                    proof {
                        let x = BlockPass {
                            polled_vm: p,
                            polled,
                            stepped_vm: s,
                            step: stg,
                            after: s,
                            out: Some(Ok(status)),
                            inner: Seq::empty(),
                            inner_end: s,
                            inner_res: Ok(status),
                            command_res: Ok(CoreOutcome::Return(status)),
                        };
                        lemma_prefix_finish(start, a, t, x, Ok(status));
                    }
                    return Ok(status);
                },
                Ok(Step::Block(target)) => {
                    let saved_condition = self.condition_flag;
                    let callee = self.execute_block(host);
                    let ghost c = *self;
                    let r = self.after_block(saved_condition, target, callee);
                    let ghost b = *self;
                    let ghost tt = choose|tt: Seq<BlockPass>| #[trigger] block_runs(s, c, callee, tt);
                    let ghost x = BlockPass {
                        polled_vm: p,
                        polled,
                        stepped_vm: s,
                        step: stg,
                        after: b,
                        out: core_out(r),
                        inner: tt,
                        inner_end: c,
                        inner_res: callee,
                        command_res: r,
                    };
                    match r {
                        Err(e) => {
                            proof {
                                lemma_prefix_finish(start, a, t, x, Err(e));
                            }
                            return Err(e);
                        },
                        Ok(CoreOutcome::Continue) => {
                            proof {
                                lemma_prefix_extend(start, a, t, x);
                                t = t.push(x);
                            }
                        },
                        Ok(CoreOutcome::Return(status)) => {
                            proof {
                                lemma_prefix_finish(start, a, t, x, Ok(status));
                            }
                            return Ok(status);
                        },
                    }
                },
                Ok(Step::Command { offset, opcode, arguments }) => {
                    let r = self.execute_core_command(host, offset, opcode, &arguments);
                    let ghost b = *self;
                    let ghost x = BlockPass {
                        polled_vm: p,
                        polled,
                        stepped_vm: s,
                        step: stg,
                        after: b,
                        out: core_out(r),
                        inner: Seq::empty(),
                        inner_end: b,
                        inner_res: Ok(0),
                        command_res: r,
                    };
                    match r {
                        Err(e) => {
                            proof {
                                lemma_prefix_finish(start, a, t, x, Err(e));
                            }
                            return Err(e);
                        },
                        Ok(CoreOutcome::Continue) => {
                            proof {
                                lemma_prefix_extend(start, a, t, x);
                                t = t.push(x);
                            }
                        },
                        Ok(CoreOutcome::Return(status)) => {
                            proof {
                                lemma_prefix_finish(start, a, t, x, Ok(status));
                            }
                            return Ok(status);
                        },
                    }
                },
            }
        }
    }

    fn execute_core_command<H: Uk2Host>(
        &mut self,
        host: &mut H,
        offset: usize,
        opcode: TwoOpcode,
        arguments: &Vec<InstructionArg>,
    ) -> (res: Result<CoreOutcome, VmError>)
        requires
            old(self).wf(),
        ensures
            vm_step(old(self), final(self)),
            core_settled(old(self), final(self), opcode, arguments@, res),
        decreases usize::MAX - old(self).instructions_executed, 3int,
    {
        match opcode {
            TwoOpcode::J0 => {
                self.set_pc(require_offset(arguments)?)?;
                Ok(CoreOutcome::Continue)
            },
            TwoOpcode::J1 => {
                let return_pc = self.pc;
                self.set_pc(require_offset(arguments)?)?;
                let status = self.execute_block(host)?;
                self.pc = return_pc;
                if status < 2 {
                    return Err(VmError::CalleeStatus(status));
                }
                if status == 2 {
                    Ok(CoreOutcome::Continue)
                } else {
                    Ok(CoreOutcome::Return(status))
                }
            },
            TwoOpcode::J2 => {
                let name = self.direct_string(arguments, 0)?;
                let status = self.call_external(host, &name)?;
                if status < 3 {
                    return Err(VmError::CalleeStatus(status));
                }
                if status == 3 {
                    Ok(CoreOutcome::Continue)
                } else {
                    Ok(CoreOutcome::Return(status))
                }
            },
            TwoOpcode::J3 => {
                let name = self.direct_string(arguments, 0)?;
                self.last_j3_name = Some(name);
                Ok(CoreOutcome::Return(5))
            },
            TwoOpcode::L0 => {
                let r = self.execute_l0(host, arguments);
                proof {
                    let _ = as_outcome(r);
                }
                Ok(status_outcome(r?))
            },
            TwoOpcode::L1 => {
                let r = self.execute_l1(host, arguments);
                proof {
                    let _ = as_outcome(r);
                }
                Ok(status_outcome(r?))
            },
            TwoOpcode::L2 => {
                let r = self.execute_l2(host, arguments);
                proof {
                    let _ = as_outcome(r);
                }
                Ok(status_outcome(r?))
            },
            TwoOpcode::L3 => {
                let r = self.execute_l3(host, arguments);
                proof {
                    let _ = as_outcome(r);
                }
                Ok(status_outcome(r?))
            },
            TwoOpcode::L4 => {
                let condition = require_condition(arguments)?;
                let target = require_offset(arguments)?;
                if !self.memory.eval_condition(condition)? {
                    self.condition_flag = false;
                    self.set_pc(target)?;
                    return Ok(CoreOutcome::Continue);
                }
                self.condition_flag = true;
                let status = self.execute_block(host)?;
                Ok(CoreOutcome::Return(if status <= 1 { 0 } else { status }))
            },
            TwoOpcode::L5 => {
                let r = self.execute_l5(host, arguments);
                proof {
                    let _ = as_outcome(r);
                }
                Ok(status_outcome(r?))
            },
            TwoOpcode::T0 => {
                self.store_text_slots(arguments, true)?;
                Ok(CoreOutcome::Continue)
            },
            TwoOpcode::T1 => {
                self.store_text_slots(arguments, false)?;
                Ok(CoreOutcome::Continue)
            },
            TwoOpcode::M3 => Ok(CoreOutcome::Continue),
            _ => {
                let command = match self.service_command(offset, opcode, arguments) {
                    Ok(c) => c,
                    Err(e) => {
                        return Err(e);
                    },
                };
                let status = host_error(host.command(&command, &mut self.memory))?;
                Ok(status_outcome(status))
            },
        }
    }

    fn execute_l0<H: Uk2Host>(&mut self, host: &mut H, arguments: &Vec<InstructionArg>) -> (res: Result<u16, VmError>)
        requires
            old(self).wf(),
        ensures
            vm_step(old(self), final(self)),
            l0_settled(old(self), final(self), arguments@, res),
        decreases usize::MAX - old(self).instructions_executed, 2int,
    {
        let ghost start = *self;
        let condition = require_condition(arguments)?;
        let target = require_offset(arguments)?;
        let ghost cv = crate::value::clauses_view(condition.clauses@);
        let ghost tf = clauses_time_free(cv);
        let ghost mut first = true;
        let body = self.pc;
        let mut active = true;
        let mut status: u16 = 0;
        loop
            invariant
                vm_step(&start, self),
                start == *old(self),
                self.pc <= self.program.view_bytes().len(),
                body <= self.program.view_bytes().len(),
                tf == clauses_time_free(cv),
                cv == crate::value::clauses_view(condition.clauses@),
                guard_of(arguments@) == Some((cv, target)),
                first ==> active && status == 0,
                tf && first ==> vm_same(&start, self),
                tf && !first ==> spec_cond(start.memory@, cv) == Some(true),
            ensures
                tf ==> spec_cond(start.memory@, cv) is Some,
            decreases usize::MAX - self.instructions_executed,
        {
            if !active {
                break;
            }
            if !self.memory.eval_condition(condition)? {
                break;
            }
            proof {
                first = false;
            }
            self.pc = body;
            status = self.execute_block(host)?;
            if status != 0 {
                active = false;
            }
            if status == 1 {
                status = 0;
            }
            if status == 6 {
                active = true;
                status = 0;
            }
        }
        self.set_pc(target)?;
        Ok(status)
    }

    fn execute_l1<H: Uk2Host>(&mut self, host: &mut H, arguments: &Vec<InstructionArg>) -> (res: Result<u16, VmError>)
        requires
            old(self).wf(),
        ensures
            vm_step(old(self), final(self)),
            l1_settled(old(self), final(self), arguments@, res),
        decreases usize::MAX - old(self).instructions_executed, 1int,
    {
        let condition = require_condition(arguments)?;
        let target = require_offset(arguments)?;
        if self.memory.eval_condition(condition)? {
            self.condition_flag = true;
            self.execute_block(host)
        } else {
            self.condition_flag = false;
            self.set_pc(target)?;
            Ok(0)
        }
    }

    fn execute_l2<H: Uk2Host>(&mut self, host: &mut H, arguments: &Vec<InstructionArg>) -> (res: Result<u16, VmError>)
        requires
            old(self).wf(),
        ensures
            vm_step(old(self), final(self)),
            l2_settled(old(self), final(self), arguments@, res),
        decreases usize::MAX - old(self).instructions_executed, 2int,
    {
        let target = require_offset(arguments)?;
        if self.condition_flag {
            self.set_pc(target)?;
            Ok(0)
        } else {
            let status = self.execute_block(host)?;
            self.condition_flag = false;
            Ok(status)
        }
    }

    fn execute_l3<H: Uk2Host>(&mut self, host: &mut H, arguments: &Vec<InstructionArg>) -> (res: Result<u16, VmError>)
        requires
            old(self).wf(),
        ensures
            vm_step(old(self), final(self)),
            l3_settled(old(self), final(self), arguments@, res),
        decreases usize::MAX - old(self).instructions_executed, 2int,
    {
        let ghost start = *self;
        let destination = require_direct(arguments, 0)?;
        let e1 = require_expression(arguments, 1)?;
        let start_value = self.memory.eval_expression(e1)?.number()?;
        let e2 = require_expression(arguments, 2)?;
        let end = self.memory.eval_expression(e2)?.number()?;
        let e3 = require_expression(arguments, 3)?;
        let step = self.memory.eval_expression(e3)?.number()?;
        let target = require_offset(arguments)?;
        let ghost tf = expr_time_free(e1.view()) && expr_time_free(e2.view()) && expr_time_free(e3.view());
        let body = self.pc;
        let mut current = start_value;
        let mut status: u16 = 0;
        let ghost mut first = true;
        loop
            invariant
                vm_step(&start, self),
                start == *old(self),
                body <= self.program.view_bytes().len(),
                first ==> current == start_value && status == 0,
                tf && first ==> vm_same(&start, self),
                !first ==> start_value <= end,
                nth_direct(arguments@, 0, 0) is Some,
                expr_arg(arguments@, 1) == Some(e1.view()),
                expr_arg(arguments@, 2) == Some(e2.view()),
                expr_arg(arguments@, 3) == Some(e3.view()),
                last_offset(args_view(arguments@)) == Some(target),
                tf == (expr_time_free(e1.view()) && expr_time_free(e2.view()) && expr_time_free(e3.view())),
                tf ==> number_val(spec_eval(start.memory@, e1.view())) == Some(start_value),
                tf ==> number_val(spec_eval(start.memory@, e2.view())) == Some(end),
                tf ==> number_val(spec_eval(start.memory@, e3.view())) is Some,
            decreases usize::MAX - self.instructions_executed,
        {
            if current > end {
                break;
            }
            proof {
                first = false;
            }
            self.memory.write_operand(destination, RuntimeValue::Number { value: current, width: NumericWidth::Word })?;
            self.pc = body;
            status = self.execute_block(host)?;
            if status == 0 || status == 6 {
                current = current.wrapping_add(step);
                continue;
            }
            if status == 1 {
                status = 0;
            }
            break;
        }
        self.set_pc(target)?;
        Ok(status)
    }

    fn execute_l5<H: Uk2Host>(&mut self, host: &mut H, arguments: &Vec<InstructionArg>) -> (res: Result<u16, VmError>)
        requires
            old(self).wf(),
        ensures
            vm_step(old(self), final(self)),
            l5_settled(old(self), final(self), arguments@, res),
        decreases usize::MAX - old(self).instructions_executed, 2int,
    {
        let condition = require_condition(arguments)?;
        let target = require_offset(arguments)?;
        if !self.condition_flag {
            return self.execute_l1(host, arguments);
        }
        // UK2.EXE still evaluates the condition before skipping this
        // else-if arm, so operand reads and errors are kept.
        let _ = self.memory.eval_condition(condition)?;
        self.set_pc(target)?;
        self.condition_flag = true;
        Ok(0)
    }

    fn call_external<H: Uk2Host>(&mut self, host: &mut H, name: &Vec<u8>) -> (res: Result<u16, VmError>)
        requires
            old(self).wf(),
        ensures
            vm_step(old(self), final(self)),
            final(self).program == old(self).program,
            final(self).pc == old(self).pc,
            final(self).memory@.local_words == old(self).memory@.local_words,
            final(self).memory@.table5 == old(self).memory@.table5,
        decreases usize::MAX - old(self).instructions_executed, 1int,
    {
        let mut callee = host_error(host.load_mes(name.as_slice()))?;
        proof { callee.lemma_wf(); }
        std::mem::swap(&mut self.program, &mut callee);
        let caller_pc = self.pc;
        let saved_locals = self.memory.reset_external_locals();
        self.pc = MES_CODE_OFFSET;
        let result = self.execute_block(host);
        std::mem::swap(&mut self.program, &mut callee);
        self.pc = caller_pc;
        self.memory.restore_external_locals(saved_locals);
        result
    }

    fn store_text_slots(&mut self, arguments: &Vec<InstructionArg>, current: bool) -> (res: Result<(), VmError>)
        requires
            old(self).wf(),
        ensures
            final(self).wf(),
            final(self).program == old(self).program,
            final(self).pc == old(self).pc,
            final(self).condition_flag == old(self).condition_flag,
            final(self).last_j3_name == old(self).last_j3_name,
            final(self).instruction_limit == old(self).instruction_limit,
            final(self).instructions_executed == old(self).instructions_executed,
            match first_list(arguments@, 0) {
                None => res == Err::<(), VmError>(VmError::MissingArgument) && final(self).memory@ == old(self).memory@,
                Some(k) => all_time_free(list_exprs(arguments@[k])) ==> match fill_text_slots(
                    old(self).memory@,
                    list_exprs(arguments@[k]),
                    current,
                    0,
                ) {
                    Some(m) => res is Ok && final(self).memory@ == m,
                    None => res is Err,
                },
            },
    {
        let ghost m0 = self.memory@;
        let expressions = require_list(arguments)?;
        let ghost es = expressions@;
        let ghost tf = all_time_free(es);
        let mut index: usize = 0;
        while index < expressions.len()
            invariant
                self.wf(),
                self.program == old(self).program,
                self.pc == old(self).pc,
                self.condition_flag == old(self).condition_flag,
                self.last_j3_name == old(self).last_j3_name,
                self.instruction_limit == old(self).instruction_limit,
                self.instructions_executed == old(self).instructions_executed,
                index <= expressions@.len(),
                es == expressions@,
                first_list(arguments@, 0) is Some,
                list_exprs(arguments@[first_list(arguments@, 0).unwrap()]) == es,
                tf == all_time_free(es),
                m0 == old(self).memory@,
                tf ==> fill_text_slots(m0, es, current, 0) == fill_text_slots(self.memory@, es, current, index as int),
            decreases expressions@.len() - index,
        {
            proof {
                if tf {
                    assert(expr_time_free(es[index as int].view()));
                }
            }
            let value = self.memory.eval_expression(&expressions[index])?;
            let bytes = checked_string(value, TEXT_SLOT_MAX_LEN)?;
            if index > 255 {
                return Err(VmError::TextSlotIndex);
            }
            if current {
                self.memory.set_table5_slot(index as u8, bytes);
            } else {
                self.memory.set_table6_slot(index as u8, bytes);
            }
            index = index + 1;
        }
        Ok(())
    }

    fn resolve_values(&mut self, expressions: &Vec<Expression>) -> (res: Result<Vec<RuntimeValue>, VmError>)
        requires
            old(self).wf(),
        ensures
            final(self).wf(),
            final(self).program == old(self).program,
            final(self).pc == old(self).pc,
            final(self).instruction_limit == old(self).instruction_limit,
            final(self).instructions_executed == old(self).instructions_executed,
            final(self).condition_flag == old(self).condition_flag,
            final(self).last_j3_name == old(self).last_j3_name,
            res is Ok ==> res.unwrap()@.len() == expressions@.len(),
            all_time_free(expressions@) ==> {
                &&& final(self).memory@ == old(self).memory@
                &&& (res is Ok <==> forall|i: int| 0 <= i < expressions@.len() ==> spec_eval(old(self).memory@, #[trigger] expressions@[i].view()) is Some)
                &&& res is Ok ==> forall|i: int| 0 <= i < expressions@.len() ==> Some(#[trigger] res.unwrap()@[i].view())
                    == spec_eval(old(self).memory@, expressions@[i].view())
            },
    {
        let mut values: Vec<RuntimeValue> = Vec::new();
        let mut i: usize = 0;
        while i < expressions.len()
            invariant
                self.wf(),
                self.program == old(self).program,
                self.pc == old(self).pc,
                self.instruction_limit == old(self).instruction_limit,
                self.instructions_executed == old(self).instructions_executed,
                self.condition_flag == old(self).condition_flag,
                self.last_j3_name == old(self).last_j3_name,
                i <= expressions@.len(),
                values@.len() == i,
                all_time_free(expressions@) ==> self.memory@ == old(self).memory@,
                all_time_free(expressions@) ==> forall|j: int| 0 <= j < i ==> Some(#[trigger] values@[j].view())
                    == spec_eval(old(self).memory@, expressions@[j].view()),
            decreases expressions@.len() - i,
        {
            let v = match self.memory.eval_expression(&expressions[i]) {
                Ok(v) => v,
                Err(e) => {
                    proof {
                        if all_time_free(expressions@) {
                            assert(expr_time_free(expressions@[i as int].view()));
                            assert(spec_eval(old(self).memory@, expressions@[i as int].view()) is None);
                        }
                    }
                    return Err(e);
                },
            };
            proof {
                if all_time_free(expressions@) {
                    assert(expr_time_free(expressions@[i as int].view()));
                }
            }
            values.push(v);
            i = i + 1;
        }
        proof {
            if all_time_free(expressions@) {
                assert forall|j: int| 0 <= j < expressions@.len() implies spec_eval(old(self).memory@, #[trigger] expressions@[j].view()) is Some by {
                    assert(Some(values@[j].view()) == spec_eval(old(self).memory@, expressions@[j].view()));
                }
            }
        }
        Ok(values)
    }

    /// The service command that the host is handed for a command decoded at
    /// `offset`: every argument resolved against the current memory.
    pub fn service_command(&mut self, offset: usize, opcode: TwoOpcode, arguments: &Vec<InstructionArg>) -> (res: Result<ServiceCommand, VmError>)
        requires
            old(self).wf(),
        ensures
            final(self).wf(),
            final(self).spec_program() == old(self).spec_program(),
            final(self).spec_pc() == old(self).spec_pc(),
            final(self).spec_limit() == old(self).spec_limit(),
            final(self).spec_executed() == old(self).spec_executed(),
            final(self).spec_flag() == old(self).spec_flag(),
            final(self).spec_last_j3() == old(self).spec_last_j3(),
            res is Ok ==> res.unwrap().offset == offset && res.unwrap().opcode == opcode
                && res.unwrap().arguments@.len() == arguments@.len(),
            (forall|i: int| 0 <= i < arguments@.len() ==> arg_time_free(#[trigger] arguments@[i])) ==> {
                &&& final(self).spec_memory() == old(self).spec_memory()
                &&& (res is Ok <==> forall|i: int| 0 <= i < arguments@.len() ==> arg_resolves(old(self).spec_memory(), #[trigger] arguments@[i]))
                &&& res is Ok ==> forall|i: int| 0 <= i < arguments@.len() ==> resolved_as(
                    old(self).spec_memory(),
                    #[trigger] arguments@[i],
                    res.unwrap().arguments@[i],
                )
            },
    {
        self.resolve_service(offset, opcode, arguments)
    }

    fn resolve_service(&mut self, offset: usize, opcode: TwoOpcode, arguments: &Vec<InstructionArg>) -> (res: Result<ServiceCommand, VmError>)
        requires
            old(self).wf(),
        ensures
            final(self).wf(),
            final(self).program == old(self).program,
            final(self).pc == old(self).pc,
            final(self).instruction_limit == old(self).instruction_limit,
            final(self).instructions_executed == old(self).instructions_executed,
            final(self).condition_flag == old(self).condition_flag,
            final(self).last_j3_name == old(self).last_j3_name,
            res is Ok ==> res.unwrap().offset == offset && res.unwrap().opcode == opcode
                && res.unwrap().arguments@.len() == arguments@.len(),
            (forall|i: int| 0 <= i < arguments@.len() ==> arg_time_free(#[trigger] arguments@[i])) ==> {
                &&& final(self).memory@ == old(self).memory@
                &&& (res is Ok <==> forall|i: int| 0 <= i < arguments@.len() ==> arg_resolves(old(self).memory@, #[trigger] arguments@[i]))
                &&& res is Ok ==> forall|i: int| 0 <= i < arguments@.len() ==> resolved_as(
                    old(self).memory@,
                    #[trigger] arguments@[i],
                    res.unwrap().arguments@[i],
                )
            },
    {
        let ghost m0 = self.memory@;
        let ghost tf = forall|i: int| 0 <= i < arguments@.len() ==> arg_time_free(#[trigger] arguments@[i]);
        let mut resolved: Vec<ResolvedArg> = Vec::new();
        let mut i: usize = 0;
        while i < arguments.len()
            invariant
                self.wf(),
                self.program == old(self).program,
                self.pc == old(self).pc,
                self.instruction_limit == old(self).instruction_limit,
                self.instructions_executed == old(self).instructions_executed,
                self.condition_flag == old(self).condition_flag,
                self.last_j3_name == old(self).last_j3_name,
                i <= arguments@.len(),
                resolved@.len() == i,
                m0 == old(self).memory@,
                tf == (forall|i: int| 0 <= i < arguments@.len() ==> arg_time_free(#[trigger] arguments@[i])),
                tf ==> self.memory@ == m0,
                tf ==> forall|j: int| 0 <= j < i ==> arg_resolves(m0, #[trigger] arguments@[j]) && resolved_as(m0, arguments@[j], resolved@[j]),
            decreases arguments@.len() - i,
        {
            proof {
                if tf {
                    assert(arg_time_free(arguments@[i as int]));
                }
            }
            let arg = match self.resolve_arg(&arguments[i]) {
                Ok(a) => a,
                Err(e) => {
                    proof {
                        if tf {
                            assert(!arg_resolves(m0, arguments@[i as int]));
                        }
                    }
                    return Err(e);
                },
            };
            resolved.push(arg);
            i = i + 1;
        }
        Ok(ServiceCommand { offset, opcode, arguments: resolved })
    }

    /// One argument of a service command, resolved.
    fn resolve_arg(&mut self, argument: &InstructionArg) -> (res: Result<ResolvedArg, VmError>)
        requires
            old(self).wf(),
        ensures
            final(self).wf(),
            final(self).program == old(self).program,
            final(self).pc == old(self).pc,
            final(self).instruction_limit == old(self).instruction_limit,
            final(self).instructions_executed == old(self).instructions_executed,
            final(self).condition_flag == old(self).condition_flag,
            final(self).last_j3_name == old(self).last_j3_name,
            arg_time_free(*argument) ==> {
                &&& final(self).memory@ == old(self).memory@
                &&& (res is Ok <==> arg_resolves(old(self).memory@, *argument))
                &&& res is Ok ==> resolved_as(old(self).memory@, *argument, res.unwrap())
            },
    {
        let ghost m0 = self.memory@;
        match argument {
            InstructionArg::Direct(operand) => {
                let value = self.memory.read_operand(operand)?;
                Ok(ResolvedArg::Direct { operand: operand.duplicate(), value })
            },
            InstructionArg::Expression(expression) => Ok(ResolvedArg::Value(self.memory.eval_expression(expression)?)),
            InstructionArg::ExpressionList(expressions) => Ok(ResolvedArg::Values(self.resolve_values(expressions)?)),
            InstructionArg::Offset(target) => Ok(ResolvedArg::Offset(*target)),
            InstructionArg::ResourceList(resources) => {
                let ghost tf = resources_time_free(resources@);
                let mut out: Vec<ResolvedResource> = Vec::new();
                let mut k: usize = 0;
                while k < resources.len()
                    invariant
                        self.wf(),
                        self.program == old(self).program,
                        self.pc == old(self).pc,
                        self.instruction_limit == old(self).instruction_limit,
                        self.instructions_executed == old(self).instructions_executed,
                        self.condition_flag == old(self).condition_flag,
                        self.last_j3_name == old(self).last_j3_name,
                self.condition_flag == old(self).condition_flag,
                self.last_j3_name == old(self).last_j3_name,
                        k <= resources@.len(),
                        out@.len() == k,
                        m0 == old(self).memory@,
                        tf == resources_time_free(resources@),
                        *argument == InstructionArg::ResourceList(*resources),
                        tf ==> self.memory@ == m0,
                        tf ==> forall|j: int| 0 <= j < k ==> Some(#[trigger] out@[j].resource.view()) == spec_eval(m0, resources@[j].resource.view())
                            && values_of(m0, resources@[j].arguments@, out@[j].arguments@),
                    decreases resources@.len() - k,
                {
                    proof {
                        if tf {
                            assert(expr_time_free(resources@[k as int].resource.view()) && all_time_free(resources@[k as int].arguments@));
                        }
                    }
                    let ghost before = out@;
                    let resource = match self.memory.eval_expression(&resources[k].resource) {
                        Ok(v) => v,
                        Err(e) => {
                            proof {
                                if tf {
                                    assert(spec_eval(m0, resources@[k as int].resource.view()) is None);
                                    assert(!arg_resolves(m0, *argument));
                                }
                            }
                            return Err(e);
                        },
                    };
                    let args = match self.resolve_values(&resources[k].arguments) {
                        Ok(a) => a,
                        Err(e) => {
                            proof {
                                if tf {
                                    assert(!all_evaluate(m0, resources@[k as int].arguments@));
                                    assert(!(spec_eval(m0, resources@[k as int].resource.view()) is Some
                                        && all_evaluate(m0, resources@[k as int].arguments@)));
                                    assert(!arg_resolves(m0, *argument));
                                }
                            }
                            return Err(e);
                        },
                    };
                    let ghost rv = resource.view();
                    let ghost av = args@;
                    proof {
                        if tf {
                            assert(Some(rv) == spec_eval(m0, resources@[k as int].resource.view()));
                            assert(values_of(m0, resources@[k as int].arguments@, av));
                        }
                    }
                    out.push(ResolvedResource { resource, arguments: args });
                    proof {
                        if tf {
                            assert forall|j: int| 0 <= j < k + 1 implies Some(#[trigger] out@[j].resource.view()) == spec_eval(
                                m0,
                                resources@[j].resource.view(),
                            ) && values_of(m0, resources@[j].arguments@, out@[j].arguments@) by {
                                if j < k {
                                    assert(out@[j] == before[j]);
                                    assert(Some(before[j].resource.view()) == spec_eval(m0, resources@[j].resource.view()));
                                } else {
                                    assert(out@[j].resource.view() == rv);
                                    assert(out@[j].arguments@ == av);
                                }
                            }
                        }
                    }
                    k = k + 1;
                }
                proof {
                    if tf {
                        assert forall|j: int| 0 <= j < resources@.len() implies spec_eval(m0, #[trigger] resources@[j].resource.view()) is Some
                            && all_evaluate(m0, resources@[j].arguments@) by {
                            assert(Some(out@[j].resource.view()) == spec_eval(m0, resources@[j].resource.view()));
                            assert(values_of(m0, resources@[j].arguments@, out@[j].arguments@));
                            let es = resources@[j].arguments@;
                            let vs = out@[j].arguments@;
                            assert forall|i: int| 0 <= i < es.len() implies spec_eval(m0, #[trigger] es[i].view()) is Some by {
                                assert(Some(vs[i].view()) == spec_eval(m0, es[i].view()));
                            }
                        }
                    }
                }
                Ok(ResolvedArg::Resources(out))
            },
            InstructionArg::Condition(_) => Err(VmError::ConditionArgument),
        }
    }

    /// The string of the `index`th direct operand, cut to 13 bytes.
    fn direct_string(&mut self, arguments: &Vec<InstructionArg>, index: usize) -> (res: Result<Vec<u8>, VmError>)
        requires
            old(self).wf(),
        ensures
            final(self).wf(),
            final(self).program == old(self).program,
            final(self).pc == old(self).pc,
            final(self).instruction_limit == old(self).instruction_limit,
            final(self).instructions_executed == old(self).instructions_executed,
            final(self).condition_flag == old(self).condition_flag,
            final(self).last_j3_name == old(self).last_j3_name,
            res is Ok ==> res.unwrap()@.len() <= 13,
            nth_direct(arguments@, index as int, 0) is None ==> res == Err::<Vec<u8>, VmError>(VmError::MissingArgument)
                && final(self).memory@ == old(self).memory@,
            ({
                let k = nth_direct(arguments@, index as int, 0).unwrap();
                let op = direct_operand(arguments@[k]).view();
                nth_direct(arguments@, index as int, 0) is Some && op_time_free(op) ==> final(self).memory@ == old(
                    self,
                ).memory@ && match spec_read(old(self).memory@, op) {
                    None => res is Err,
                    Some(Val::Str(b)) => res matches Ok(v) && v@ == cut13(b),
                    Some(Val::Number { .. }) => res == Err::<Vec<u8>, VmError>(VmError::ExpectedString),
                }
            }),
    {
        let operand = require_direct(arguments, index)?;
        let value = self.memory.read_operand(operand)?;
        let mut bytes = match value {
            RuntimeValue::String(b) => b,
            RuntimeValue::Number { .. } => return Err(VmError::ExpectedString),
        };
        if bytes.len() > 13 {
            bytes.truncate(13);
        }
        Ok(bytes)
    }

    /// Saturating increment or decrement within the operand's width.
    fn adjust_numeric(&mut self, operand: &Operand, up: bool) -> (res: Result<(), VmError>)
        requires
            old(self).wf(),
        ensures
            final(self).wf(),
            final(self).program == old(self).program,
            final(self).pc == old(self).pc,
            final(self).condition_flag == old(self).condition_flag,
            final(self).last_j3_name == old(self).last_j3_name,
            final(self).instruction_limit == old(self).instruction_limit,
            final(self).instructions_executed == old(self).instructions_executed,
            op_time_free(operand.view()) ==> match spec_read(old(self).memory@, operand.view()) {
                None => res is Err && final(self).memory@ == old(self).memory@,
                Some(Val::Str(_)) => res == Err::<(), VmError>(VmError::ExpectedNumber) && final(self).memory@ == old(self).memory@,
                Some(Val::Number { value, width }) => match spec_write(
                    old(self).memory@,
                    operand.view(),
                    Val::Number { value: adjusted(value, width, up), width },
                ) {
                    Some(m) => res is Ok && final(self).memory@ == m,
                    None => res is Err,
                },
            },
    {
        let (value, width) = match self.memory.read_operand(operand)? {
            RuntimeValue::Number { value, width } => (value, width),
            RuntimeValue::String(_) => return Err(VmError::ExpectedNumber),
        };
        let max: u16 = match width {
            NumericWidth::Byte => 0xff,
            NumericWidth::Word => 0xffff,
        };
        let adjusted = if up {
            if value >= max { max } else { value + 1 }
        } else {
            if value == 0 { 0 } else if value > max { max } else { value - 1 }
        };
        self.memory.write_operand(operand, RuntimeValue::Number { value: adjusted, width })
    }
}

} // verus!
