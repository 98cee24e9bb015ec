//! The boot probe: a host that drives the MES interpreter from the start
//! script to its first menu or text-input wait, checking the shape of every
//! service command on the way and loading the resources the commands name.
//! The decisions live here; reading the resources is the caller's part.
#![allow(unused_imports)]

use vstd::prelude::*;

use crate::game::{decode_engine_name, GameError};
use crate::opcode::TwoOpcode;
use crate::sjis::{eq_ignore_ascii_case, eq_ignore_case, shift_jis_text};
use crate::value::{Expression, ExpressionV, InlineStringPart, InlineStringPartV, Operand, OperandV, TermV};
use crate::vm::{op_time_free, spec_write, MemV, NumericWidth, ResolvedArg, ResolvedResource, RuntimeValue, ServiceCommand, Uk2Memory, Val, VmError};

verus! {

/// Why the probe refused a service command.
#[derive(Debug, Clone, Copy, PartialEq, Eq)]
pub enum ProbeError {
    /// The command lacks the argument of the expected shape.
    MissingArgument(TwoOpcode),
    /// The command has this many values where the probe expects another count.
    ValueCount(TwoOpcode, usize),
    /// A value has the wrong type, or the memory refused a write.
    Value(VmError),
    /// A resource name is not valid Shift-JIS.
    BadName,
    /// `F5` attached a map before `F0` loaded one.
    MapNotLoaded,
    /// The probe does not model this service (at this MES offset).
    Unhandled(TwoOpcode, usize),
}

/// How a probe run stops.
#[derive(Debug, Clone, PartialEq, Eq)]
pub enum ProbeHalt {
    /// The script waits for text input.
    InputReached,
    /// The script shows a menu beyond the scripted choices; the raw
    /// (Shift-JIS) labels of its string options.
    MenuReached(Vec<Vec<u8>>),
    Failed(ProbeError),
}

/// A map edit that the probe's current map receives.
#[derive(Debug, Clone, Copy, PartialEq, Eq)]
pub enum MapEdit {
    /// `FA`: entity values.
    Entity([u16; 5]),
    /// `FB`: cell `(x, y)` gets `chip` on `layer`.
    Cell { x: u16, y: u16, chip: u16, layer: u16 },
    /// `FC`/`FD`: trigger `id` is disabled or enabled.
    Trigger { id: u16, enabled: bool },
}

/// What the caller does after a service command the probe accepted.
#[derive(Debug, Clone, PartialEq, Eq)]
pub enum ProbeRequest {
    Continue,
    /// Load these PDT34 images in order; then fail with the error, if any.
    LoadImages(Vec<String>, Option<ProbeError>),
    /// Load and render this MAP and attach it as the current map.
    LoadMap(String),
    /// Load this score with the configured music extensions.
    LoadMusic(String),
    /// Read `color.tbl1` and check that this one-based bank exists.
    CheckPalette(u16),
    /// Apply this edit to the current map.
    EditMap(MapEdit),
    /// A left-button press was scheduled for the text-input wait.
    InputScheduled,
}

/// The probe's state: the scripted menu choices and what it has seen.
pub struct BootProbe {
    pub menu_path: Vec<u16>,
    pub menus_seen: usize,
    pub window_count: usize,
    pub image_count: usize,
    pub map_count: usize,
    pub music_count: usize,
    pub command_count: usize,
    pub last_command: Option<(TwoOpcode, usize)>,
    pub map_object_id: Option<u16>,
    pub map_loaded: bool,
    pub last_loaded_mes: String,
    pub auto_inputs_remaining: usize,
    pub pending_input_delay: Option<usize>,
}

// ---------------------------------------------------------------- argument model

pub open spec fn arg_values(c: ServiceCommand, i: int) -> Option<Seq<RuntimeValue>> {
    if 0 <= i < c.arguments@.len() {
        match c.arguments@[i] {
            ResolvedArg::Values(vs) => Some(vs@),
            _ => None,
        }
    } else {
        None
    }
}

pub open spec fn arg_value(c: ServiceCommand, i: int) -> Option<RuntimeValue> {
    if 0 <= i < c.arguments@.len() {
        match c.arguments@[i] {
            ResolvedArg::Value(v) => Some(v),
            _ => None,
        }
    } else {
        None
    }
}

pub open spec fn arg_direct(c: ServiceCommand, i: int) -> Option<RuntimeValue> {
    if 0 <= i < c.arguments@.len() {
        match c.arguments@[i] {
            ResolvedArg::Direct { value, .. } => Some(value),
            _ => None,
        }
    } else {
        None
    }
}

pub open spec fn number_of(v: RuntimeValue) -> Result<u16, ProbeError> {
    match v.view() {
        Val::Number { value, .. } => Ok(value),
        Val::Str(_) => Err(ProbeError::Value(VmError::ExpectedNumber)),
    }
}

/// The values as numbers, or the error of the first that is not one.
pub open spec fn numbers_of(vs: Seq<RuntimeValue>) -> Result<Seq<u16>, ProbeError>
    decreases vs.len(),
{
    if vs.len() == 0 {
        Ok(Seq::empty())
    } else {
        match number_of(vs[0]) {
            Err(e) => Err(e),
            Ok(n) => match numbers_of(vs.drop_first()) {
                Err(e) => Err(e),
                Ok(rest) => Ok(seq![n] + rest),
            },
        }
    }
}

/// The resource name a string value holds.
pub open spec fn name_of(v: RuntimeValue) -> Result<Seq<char>, ProbeError> {
    match v.view() {
        Val::Number { .. } => Err(ProbeError::Value(VmError::ExpectedString)),
        Val::Str(b) => if b.len() > usize::MAX / 8 {
            Err(ProbeError::BadName)
        } else {
            match shift_jis_text(b) {
                Some(t) => Ok(t),
                None => Err(ProbeError::BadName),
            }
        },
    }
}

/// The name in direct argument `i`.
pub open spec fn direct_name(c: ServiceCommand, i: int) -> Result<Seq<char>, ProbeError> {
    match arg_direct(c, i) {
        None => Err(ProbeError::MissingArgument(c.opcode)),
        Some(v) => name_of(v),
    }
}

/// `Values` argument `i` with exactly `n` numbers.
pub open spec fn counted_numbers(c: ServiceCommand, i: int, n: int) -> Result<Seq<u16>, ProbeError> {
    match arg_values(c, i) {
        None => Err(ProbeError::MissingArgument(c.opcode)),
        Some(vs) => if vs.len() != n {
            Err(ProbeError::ValueCount(c.opcode, vs.len() as usize))
        } else {
            numbers_of(vs)
        },
    }
}

/// `Values` argument `i` with exactly `n` values.
pub open spec fn value_count(c: ServiceCommand, i: int, n: int) -> Result<(), ProbeError> {
    match arg_values(c, i) {
        None => Err(ProbeError::MissingArgument(c.opcode)),
        Some(vs) => if vs.len() != n {
            Err(ProbeError::ValueCount(c.opcode, vs.len() as usize))
        } else {
            Ok(())
        },
    }
}

/// `Value` argument `i` as a number.
pub open spec fn single_number(c: ServiceCommand, i: int) -> Result<u16, ProbeError> {
    match arg_value(c, i) {
        None => Err(ProbeError::MissingArgument(c.opcode)),
        Some(v) => number_of(v),
    }
}

/// The names of a resource list up to the first refused one, and that
/// refusal: each name must decode and each of its arguments be a number.
pub open spec fn resource_names(rs: Seq<ResolvedResource>) -> (Seq<Seq<char>>, Option<ProbeError>)
    decreases rs.len(),
{
    if rs.len() == 0 {
        (Seq::empty(), None)
    } else {
        match name_of(rs[0].resource) {
            Err(e) => (Seq::empty(), Some(e)),
            Ok(name) => match numbers_of(rs[0].arguments@) {
                Err(e) => (seq![name], Some(e)),
                Ok(_) => {
                    let rest = resource_names(rs.drop_first());
                    (seq![name] + rest.0, rest.1)
                },
            },
        }
    }
}

/// The raw labels of the string options of a menu.
pub open spec fn option_labels(vs: Seq<RuntimeValue>) -> Seq<Seq<u8>>
    decreases vs.len(),
{
    if vs.len() == 0 {
        Seq::empty()
    } else {
        let rest = option_labels(vs.drop_first());
        match vs[0].view() {
            Val::Str(b) => seq![b] + rest,
            Val::Number { .. } => rest,
        }
    }
}

pub open spec fn input_mes() -> Seq<char> {
    seq!['s', '0', '1', '_', '0', '0', '2', '.', 'm', 'e', 's', '1']
}

pub enum RequestV {
    Continue,
    LoadImages(Seq<Seq<char>>, Option<ProbeError>),
    LoadMap(Seq<char>),
    LoadMusic(Seq<char>),
    CheckPalette(u16),
    EditMap(MapEdit),
    InputScheduled,
}

pub enum HaltV {
    InputReached,
    MenuReached(Seq<Seq<u8>>),
    Failed(ProbeError),
}

/// What a command does to the interpreter's memory.
pub enum MemoryEffect {
    Unchanged,
    /// Both mouse event counters cleared.
    ClearMouse,
    /// The menu result operand gets this choice.
    Select(u16),
}

pub open spec fn request_view(r: ProbeRequest) -> RequestV {
    match r {
        ProbeRequest::Continue => RequestV::Continue,
        ProbeRequest::LoadImages(names, e) => RequestV::LoadImages(names@.map_values(|n: String| n@), e),
        ProbeRequest::LoadMap(n) => RequestV::LoadMap(n@),
        ProbeRequest::LoadMusic(n) => RequestV::LoadMusic(n@),
        ProbeRequest::CheckPalette(b) => RequestV::CheckPalette(b),
        ProbeRequest::EditMap(m) => RequestV::EditMap(m),
        ProbeRequest::InputScheduled => RequestV::InputScheduled,
    }
}

pub open spec fn halt_view(h: ProbeHalt) -> HaltV {
    match h {
        ProbeHalt::InputReached => HaltV::InputReached,
        ProbeHalt::MenuReached(labels) => HaltV::MenuReached(labels@.map_values(|l: Vec<u8>| l@)),
        ProbeHalt::Failed(e) => HaltV::Failed(e),
    }
}

pub open spec fn outcome_view(r: Result<ProbeRequest, ProbeHalt>) -> Result<RequestV, HaltV> {
    match r {
        Ok(q) => Ok(request_view(q)),
        Err(h) => Err(halt_view(h)),
    }
}

pub open spec fn fail<T>(e: ProbeError) -> Result<T, HaltV> {
    Err(HaltV::Failed(e))
}

pub open spec fn arg_operand(c: ServiceCommand, i: int) -> Option<Operand> {
    if 0 <= i < c.arguments@.len() {
        match c.arguments@[i] {
            ResolvedArg::Direct { operand, .. } => Some(operand),
            _ => None,
        }
    } else {
        None
    }
}

/// What the probe does with service command `c` in state `p`: its next
/// state, its request or halt, and what the memory gets.  (Every command is
/// counted and remembered first.)
pub open spec fn probe_step(p: BootProbe, c: ServiceCommand) -> (BootProbe, Result<RequestV, HaltV>, MemoryEffect) {
    let p = BootProbe { command_count: (p.command_count + 1) as usize, last_command: Some((c.opcode, c.offset)), ..p };
    let same = MemoryEffect::Unchanged;
    match c.opcode {
        TwoOpcode::W1 => match value_count(c, 0, 7) {
            Err(e) => (p, fail(e), same),
            Ok(_) => (BootProbe { window_count: (p.window_count + 1) as usize, ..p }, Ok(RequestV::Continue), same),
        },
        TwoOpcode::W5 | TwoOpcode::FI => match direct_name(c, 0) {
            Err(e) => (p, fail(e), same),
            Ok(n) => (BootProbe { image_count: (p.image_count + 1) as usize, ..p }, Ok(RequestV::LoadImages(seq![n], None)), same),
        },
        TwoOpcode::F0 => match direct_name(c, 0) {
            Err(e) => (p, fail(e), same),
            Ok(n) => (
                BootProbe { map_object_id: None, map_count: (p.map_count + 1) as usize, ..p },
                Ok(RequestV::LoadMap(n)),
                same,
            ),
        },
        TwoOpcode::FA => match counted_numbers(c, 0, 5) {
            Err(e) => (p, fail(e), same),
            Ok(ns) => (p, Ok(if p.map_loaded {
                RequestV::EditMap(MapEdit::Entity([ns[0], ns[1], ns[2], ns[3], ns[4]]))
            } else {
                RequestV::Continue
            }), same),
        },
        TwoOpcode::F5 => match single_number(c, 0) {
            Err(e) => (p, fail(e), same),
            Ok(id) => {
                let q = BootProbe { map_object_id: Some(id), ..p };
                (q, if p.map_loaded { Ok(RequestV::Continue) } else { fail(ProbeError::MapNotLoaded) }, same)
            },
        },
        TwoOpcode::FB => match counted_numbers(c, 0, 5) {
            Err(e) => (p, fail(e), same),
            Ok(ns) => (p, Ok(if p.map_object_id == Some(ns[2]) && p.map_loaded {
                RequestV::EditMap(MapEdit::Cell { x: ns[0], y: ns[1], chip: ns[3], layer: ns[4] })
            } else {
                RequestV::Continue
            }), same),
        },
        TwoOpcode::FC | TwoOpcode::FD => match counted_numbers(c, 0, 2) {
            Err(e) => (p, fail(e), same),
            Ok(ns) => (p, Ok(if p.map_object_id == Some(ns[0]) && p.map_loaded {
                RequestV::EditMap(MapEdit::Trigger { id: ns[1], enabled: c.opcode is FD })
            } else {
                RequestV::Continue
            }), same),
        },
        TwoOpcode::WC | TwoOpcode::U0 | TwoOpcode::WD => match single_number(c, 0) {
            Err(e) => (p, fail(e), same),
            Ok(_) => (p, Ok(RequestV::Continue), same),
        },
        TwoOpcode::FJ => match counted_numbers(c, 0, 3) {
            Err(e) => (p, fail(e), same),
            Ok(_) => (p, Ok(RequestV::Continue), same),
        },
        TwoOpcode::FK | TwoOpcode::M2 | TwoOpcode::M4 | TwoOpcode::W4 | TwoOpcode::WA => (p, Ok(RequestV::Continue), same),
        TwoOpcode::M0 => match direct_name(c, 0) {
            Err(e) => (p, fail(e), same),
            Ok(n) => (BootProbe { music_count: (p.music_count + 1) as usize, ..p }, Ok(RequestV::LoadMusic(n)), same),
        },
        TwoOpcode::M1 => match arg_values(c, 0) {
            None => (p, fail(ProbeError::MissingArgument(c.opcode)), same),
            Some(vs) => if vs.len() == 0 {
                (p, fail(ProbeError::MissingArgument(c.opcode)), same)
            } else {
                match number_of(vs[0]) {
                    Err(e) => (p, fail(e), same),
                    Ok(_) => (p, Ok(RequestV::Continue), same),
                }
            },
        },
        TwoOpcode::U1 => match arg_values(c, 0) {
            None => (p, fail(ProbeError::MissingArgument(c.opcode)), same),
            Some(vs) => if vs.len() < 2 {
                (p, fail(ProbeError::MissingArgument(c.opcode)), same)
            } else {
                match number_of(vs[1]) {
                    Err(e) => (p, fail(e), same),
                    Ok(b) => (p, Ok(RequestV::CheckPalette(b)), same),
                }
            },
        },
        TwoOpcode::U3 => match counted_numbers(c, 0, 2) {
            Err(e) => (p, fail(e), same),
            Ok(_) => match direct_name(c, 1) {
                Err(e) => (p, fail(e), same),
                Ok(n) => (BootProbe { image_count: (p.image_count + 1) as usize, ..p }, Ok(RequestV::LoadImages(seq![n], None)), same),
            },
        },
        TwoOpcode::UE => if 1 < c.arguments@.len() && c.arguments@[1] is Resources {
            let rs = match c.arguments@[1] {
                ResolvedArg::Resources(rs) => rs@,
                _ => Seq::empty(),
            };
            let (names, e) = resource_names(rs);
            (BootProbe { image_count: (p.image_count + names.len()) as usize, ..p }, Ok(RequestV::LoadImages(names, e)), same)
        } else {
            (p, fail(ProbeError::MissingArgument(c.opcode)), same)
        },
        TwoOpcode::U2 => match single_number(c, 0) {
            Err(e) => (p, fail(e), same),
            Ok(_) => if eq_ignore_case(p.last_loaded_mes@, input_mes()) && p.auto_inputs_remaining > 0
                && p.pending_input_delay is None {
                (
                    BootProbe {
                        pending_input_delay: Some(500usize),
                        auto_inputs_remaining: (p.auto_inputs_remaining - 1) as usize,
                        ..p
                    },
                    Ok(RequestV::InputScheduled),
                    same,
                )
            } else {
                (p, Ok(RequestV::Continue), same)
            },
        },
        TwoOpcode::W6 => match arg_direct(c, 1) {
            None => (p, fail(ProbeError::MissingArgument(c.opcode)), same),
            Some(v) => match v.view() {
                Val::Str(_) => (p, Ok(RequestV::Continue), same),
                Val::Number { .. } => (p, fail(ProbeError::Value(VmError::ExpectedString)), same),
            },
        },
        TwoOpcode::W7 => (p, Err(HaltV::InputReached), same),
        TwoOpcode::W2 => if p.auto_inputs_remaining == 0 {
            (p, Err(HaltV::InputReached), same)
        } else {
            (
                BootProbe { auto_inputs_remaining: (p.auto_inputs_remaining - 1) as usize, ..p },
                Ok(RequestV::Continue),
                MemoryEffect::ClearMouse,
            )
        },
        TwoOpcode::W8 => {
            let q = BootProbe { menus_seen: (p.menus_seen + 1) as usize, ..p };
            if q.menus_seen - 1 < p.menu_path@.len() {
                match arg_operand(c, 0) {
                    None => (q, fail(ProbeError::MissingArgument(c.opcode)), same),
                    Some(_) => (q, Ok(RequestV::Continue), MemoryEffect::Select(p.menu_path@[q.menus_seen - 1])),
                }
            } else {
                let labels = match arg_values(c, 4) {
                    Some(vs) => option_labels(vs),
                    None => Seq::empty(),
                };
                (q, Err(HaltV::MenuReached(labels)), same)
            }
        },
        _ => (p, fail(ProbeError::Unhandled(c.opcode, c.offset)), same),
    }
}

/// The memory after both mouse event counters are cleared.
pub open spec fn mouse_cleared(m: MemV) -> MemV {
    MemV { indirect_words: m.indirect_words.update(1, 0).update(3, 0), mouse_event_ticks: 0, ..m }
}

/// The memory after a left-button press is counted.
pub open spec fn left_pressed(m: MemV) -> MemV {
    MemV {
        indirect_words: m.indirect_words.update(3, m.indirect_words[3].wrapping_add(1)),
        mouse_event_ticks: if m.mouse_event_ticks == 0 {
            10
        } else {
            m.mouse_event_ticks
        },
        ..m
    }
}

/// No counter of the probe overflows on this command.
pub open spec fn counters_fit(p: BootProbe, c: ServiceCommand) -> bool {
    &&& p.command_count < usize::MAX
    &&& p.window_count < usize::MAX
    &&& p.map_count < usize::MAX
    &&& p.music_count < usize::MAX
    &&& p.menus_seen < usize::MAX
    &&& p.image_count + c.arguments@.len() < usize::MAX
    &&& forall|i: int| 0 <= i < c.arguments@.len() ==> (#[trigger] c.arguments@[i] matches ResolvedArg::Resources(rs) ==> p.image_count + rs@.len() < usize::MAX)
}

fn values_of(c: &ServiceCommand, i: usize) -> (res: Option<&Vec<RuntimeValue>>)
    ensures
        match arg_values(*c, i as int) {
            Some(vs) => res is Some && res.unwrap()@ == vs,
            None => res is None,
        },
{
    if i < c.arguments.len() {
        match &c.arguments[i] {
            ResolvedArg::Values(vs) => Some(vs),
            _ => None,
        }
    } else {
        None
    }
}

fn value_of(c: &ServiceCommand, i: usize) -> (res: Option<&RuntimeValue>)
    ensures
        match arg_value(*c, i as int) {
            Some(v) => res == Some(&v),
            None => res is None,
        },
{
    if i < c.arguments.len() {
        match &c.arguments[i] {
            ResolvedArg::Value(v) => Some(v),
            _ => None,
        }
    } else {
        None
    }
}

fn direct_of(c: &ServiceCommand, i: usize) -> (res: Option<(&Operand, &RuntimeValue)>)
    ensures
        match arg_direct(*c, i as int) {
            Some(v) => res is Some && *res.unwrap().1 == v && Some(*res.unwrap().0) == arg_operand(*c, i as int),
            None => res is None && arg_operand(*c, i as int) is None,
        },
{
    if i < c.arguments.len() {
        match &c.arguments[i] {
            ResolvedArg::Direct { operand, value } => Some((operand, value)),
            _ => None,
        }
    } else {
        None
    }
}

fn number_exec(v: &RuntimeValue) -> (res: Result<u16, ProbeError>)
    ensures
        res == number_of(*v),
{
    match v {
        RuntimeValue::Number { value, .. } => Ok(*value),
        RuntimeValue::String(_) => Err(ProbeError::Value(VmError::ExpectedNumber)),
    }
}

fn numbers_exec(vs: &Vec<RuntimeValue>) -> (res: Result<Vec<u16>, ProbeError>)
    ensures
        match numbers_of(vs@) {
            Ok(ns) => res is Ok && res.unwrap()@ == ns,
            Err(e) => res == Err::<Vec<u16>, ProbeError>(e),
        },
        res is Ok ==> res.unwrap()@.len() == vs@.len(),
{
    let mut out: Vec<u16> = Vec::new();
    let mut i: usize = 0;
    assert(vs@.skip(0) =~= vs@);
    while i < vs.len()
        invariant
            i <= vs@.len(),
            out@.len() == i,
            numbers_of(vs@) == match numbers_of(vs@.skip(i as int)) {
                Ok(rest) => Ok(out@ + rest),
                Err(e) => Err::<Seq<u16>, ProbeError>(e),
            },
        decreases vs@.len() - i,
    {
        assert(vs@.skip(i as int).drop_first() =~= vs@.skip(i + 1));
        assert(vs@.skip(i as int)[0] == vs@[i as int]);
        let n = number_exec(&vs[i])?;
        let ghost before = out@;
        out.push(n);
        proof {
            match numbers_of(vs@.skip(i + 1)) {
                Ok(rest) => {
                    assert(before + (seq![n] + rest) =~= out@ + rest);
                },
                Err(e) => {},
            }
        }
        i = i + 1;
    }
    assert(vs@.skip(i as int) =~= Seq::<RuntimeValue>::empty());
    assert(out@ + Seq::<u16>::empty() =~= out@);
    Ok(out)
}

fn name_exec(v: &RuntimeValue) -> (res: Result<String, ProbeError>)
    ensures
        match name_of(*v) {
            Ok(n) => res is Ok && res.unwrap()@ == n,
            Err(e) => res == Err::<String, ProbeError>(e),
        },
{
    match v {
        RuntimeValue::Number { .. } => Err(ProbeError::Value(VmError::ExpectedString)),
        RuntimeValue::String(b) => {
            if b.len() > usize::MAX / 8 {
                return Err(ProbeError::BadName);
            }
            match decode_engine_name(b.as_slice()) {
                Ok(n) => Ok(n),
                Err(_) => Err(ProbeError::BadName),
            }
        },
    }
}

fn direct_name_exec(c: &ServiceCommand, i: usize) -> (res: Result<String, ProbeError>)
    ensures
        match direct_name(*c, i as int) {
            Ok(n) => res is Ok && res.unwrap()@ == n,
            Err(e) => res == Err::<String, ProbeError>(e),
        },
{
    match direct_of(c, i) {
        None => Err(ProbeError::MissingArgument(c.opcode)),
        Some((_, v)) => name_exec(v),
    }
}

fn counted_exec(c: &ServiceCommand, i: usize, n: usize) -> (res: Result<Vec<u16>, ProbeError>)
    ensures
        match counted_numbers(*c, i as int, n as int) {
            Ok(ns) => res is Ok && res.unwrap()@ == ns,
            Err(e) => res == Err::<Vec<u16>, ProbeError>(e),
        },
        res is Ok ==> res.unwrap()@.len() == n,
{
    match values_of(c, i) {
        None => Err(ProbeError::MissingArgument(c.opcode)),
        Some(vs) => if vs.len() != n {
            Err(ProbeError::ValueCount(c.opcode, vs.len()))
        } else {
            numbers_exec(vs)
        },
    }
}

fn single_exec(c: &ServiceCommand, i: usize) -> (res: Result<u16, ProbeError>)
    ensures
        res == single_number(*c, i as int),
{
    match value_of(c, i) {
        None => Err(ProbeError::MissingArgument(c.opcode)),
        Some(v) => number_exec(v),
    }
}

fn resource_names_exec(rs: &Vec<ResolvedResource>) -> (res: (Vec<String>, Option<ProbeError>))
    ensures
        (res.0@.map_values(|n: String| n@), res.1) == resource_names(rs@),
{
    let mut names: Vec<String> = Vec::new();
    let mut i: usize = 0;
    assert(rs@.skip(0) =~= rs@);
    assert(names@.map_values(|n: String| n@) =~= Seq::<Seq<char>>::empty());
    while i < rs.len()
        invariant
            i <= rs@.len(),
            resource_names(rs@) == (
                names@.map_values(|n: String| n@) + resource_names(rs@.skip(i as int)).0,
                resource_names(rs@.skip(i as int)).1,
            ),
        decreases rs@.len() - i,
    {
        assert(rs@.skip(i as int).drop_first() =~= rs@.skip(i + 1));
        assert(rs@.skip(i as int)[0] == rs@[i as int]);
        let ghost before = names@.map_values(|n: String| n@);
        let name = match name_exec(&rs[i].resource) {
            Ok(n) => n,
            Err(e) => {
                assert(before + Seq::<Seq<char>>::empty() =~= before);
                return (names, Some(e));
            },
        };
        let ghost nv = name@;
        let checked = numbers_exec(&rs[i].arguments);
        names.push(name);
        assert(names@.map_values(|n: String| n@) =~= before.push(nv));
        match checked {
            Err(e) => {
                assert(before + seq![nv] =~= names@.map_values(|n: String| n@));
                return (names, Some(e));
            },
            Ok(_) => {
                let ghost rest = resource_names(rs@.skip(i + 1));
                assert(before + (seq![nv] + rest.0) =~= names@.map_values(|n: String| n@) + rest.0);
            },
        }
        i = i + 1;
    }
    assert(rs@.skip(i as int) =~= Seq::<ResolvedResource>::empty());
    assert(names@.map_values(|n: String| n@) + Seq::<Seq<char>>::empty() =~= names@.map_values(|n: String| n@));
    (names, None)
}

fn labels_exec(vs: &Vec<RuntimeValue>) -> (res: Vec<Vec<u8>>)
    ensures
        res@.map_values(|l: Vec<u8>| l@) == option_labels(vs@),
{
    let mut out: Vec<Vec<u8>> = Vec::new();
    let mut i: usize = 0;
    assert(vs@.skip(0) =~= vs@);
    assert(out@.map_values(|l: Vec<u8>| l@) =~= Seq::<Seq<u8>>::empty());
    while i < vs.len()
        invariant
            i <= vs@.len(),
            option_labels(vs@) == out@.map_values(|l: Vec<u8>| l@) + option_labels(vs@.skip(i as int)),
        decreases vs@.len() - i,
    {
        assert(vs@.skip(i as int).drop_first() =~= vs@.skip(i + 1));
        assert(vs@.skip(i as int)[0] == vs@[i as int]);
        let ghost before = out@.map_values(|l: Vec<u8>| l@);
        match &vs[i] {
            RuntimeValue::String(b) => {
                let copy = vstd::slice::slice_to_vec(b.as_slice());
                out.push(copy);
                assert(out@.map_values(|l: Vec<u8>| l@) =~= before + seq![b@]);
                assert(before + (seq![b@] + option_labels(vs@.skip(i + 1))) =~= out@.map_values(|l: Vec<u8>| l@)
                    + option_labels(vs@.skip(i + 1)));
            },
            RuntimeValue::Number { .. } => {},
        }
        i = i + 1;
    }
    assert(vs@.skip(i as int) =~= Seq::<RuntimeValue>::empty());
    assert(out@.map_values(|l: Vec<u8>| l@) + Seq::<Seq<u8>>::empty() =~= out@.map_values(|l: Vec<u8>| l@));
    out
}

impl BootProbe {
    /// A probe that answers the menus it meets with `menu_path`, in order,
    /// and answers up to `auto_inputs` text-input waits.
    pub fn new(menu_path: Vec<u16>, auto_inputs: usize) -> (res: Self)
        ensures
            res.menu_path@ == menu_path@,
            res.auto_inputs_remaining == auto_inputs,
            res.menus_seen == 0 && res.window_count == 0 && res.image_count == 0,
            res.map_count == 0 && res.music_count == 0 && res.command_count == 0,
            res.last_command is None && res.map_object_id is None && !res.map_loaded,
            res.last_loaded_mes@ == Seq::<char>::empty(),
            res.pending_input_delay is None,
    {
        BootProbe {
            menu_path,
            menus_seen: 0,
            window_count: 0,
            image_count: 0,
            map_count: 0,
            music_count: 0,
            command_count: 0,
            last_command: None,
            map_object_id: None,
            map_loaded: false,
            last_loaded_mes: String::new(),
            auto_inputs_remaining: auto_inputs,
            pending_input_delay: None,
        }
    }

    /// Remembers the name of the MES the interpreter asked for.
    pub fn record_mes(&mut self, name: &[u8]) -> (res: Result<(), GameError>)
        requires
            name@.len() <= usize::MAX / 8,
        ensures
            match shift_jis_text(name@) {
                Some(t) => res is Ok && *final(self) == (BootProbe { last_loaded_mes: final(self).last_loaded_mes, ..*old(self) })
                    && final(self).last_loaded_mes@ == t,
                None => res == Err::<(), GameError>(GameError::BadName) && *final(self) == *old(self),
            },
    {
        let text = decode_engine_name(name)?;
        self.last_loaded_mes = text;
        Ok(())
    }

    /// The current map is loaded and rendered.
    pub fn map_attached(&mut self)
        ensures
            *final(self) == (BootProbe { map_loaded: true, ..*old(self) }),
    {
        self.map_loaded = true;
    }

    /// Before each instruction: a scheduled press lands when its delay runs out.
    pub fn poll(&mut self, memory: &mut Uk2Memory) -> (res: bool)
        requires
            old(memory).wf(),
        ensures
            final(memory).wf(),
            match old(self).pending_input_delay {
                Some(d) => if d == 0 {
                    res && *final(self) == (BootProbe { pending_input_delay: None, ..*old(self) })
                        && final(memory)@ == left_pressed(old(memory)@)
                } else {
                    !res && *final(self) == (BootProbe { pending_input_delay: Some((d - 1) as usize), ..*old(self) })
                        && final(memory)@ == old(memory)@
                },
                None => !res && *final(self) == *old(self) && final(memory)@ == old(memory)@,
            },
    {
        match self.pending_input_delay {
            Some(d) => {
                if d == 0 {
                    let _ = memory.register_mouse_press(3);
                    self.pending_input_delay = None;
                    true
                } else {
                    self.pending_input_delay = Some(d - 1);
                    false
                }
            },
            None => false,
        }
    }

    /// Takes one service command: checks its arguments, updates the
    /// probe's state and the interpreter memory, and says what the caller
    /// loads next, or why the run stops.
    #[verifier::rlimit(60)]
    pub fn decide(&mut self, c: &ServiceCommand, memory: &mut Uk2Memory) -> (res: Result<ProbeRequest, ProbeHalt>)
        requires
            old(memory).wf(),
            counters_fit(*old(self), *c),
        ensures
            final(memory).wf(),
            *final(self) == probe_step(*old(self), *c).0,
            match probe_step(*old(self), *c).2 {
                MemoryEffect::Unchanged => final(memory)@ == old(memory)@ && outcome_view(res) == probe_step(*old(self), *c).1,
                MemoryEffect::ClearMouse => final(memory)@ == mouse_cleared(old(memory)@) && outcome_view(res) == probe_step(
                    *old(self),
                    *c,
                ).1,
                MemoryEffect::Select(choice) => op_time_free(arg_operand(*c, 0).unwrap().view()) ==> match spec_write(
                    old(memory)@,
                    arg_operand(*c, 0).unwrap().view(),
                    Val::Number { value: choice, width: NumericWidth::Word },
                ) {
                    Some(m) => final(memory)@ == m && outcome_view(res) == probe_step(*old(self), *c).1,
                    None => res matches Err(ProbeHalt::Failed(ProbeError::Value(_))),
                },
            },
    {
        self.command_count = self.command_count + 1;
        self.last_command = Some((c.opcode, c.offset));
        match c.opcode {
            TwoOpcode::W1 => {
                match values_of(c, 0) {
                    None => Err(ProbeHalt::Failed(ProbeError::MissingArgument(c.opcode))),
                    Some(vs) => {
                        if vs.len() != 7 {
                            return Err(ProbeHalt::Failed(ProbeError::ValueCount(c.opcode, vs.len())));
                        }
                        self.window_count = self.window_count + 1;
                        Ok(ProbeRequest::Continue)
                    },
                }
            },
            TwoOpcode::W5 | TwoOpcode::FI => {
                let name = match direct_name_exec(c, 0) {
                    Ok(n) => n,
                    Err(e) => return Err(ProbeHalt::Failed(e)),
                };
                self.image_count = self.image_count + 1;
                let mut names: Vec<String> = Vec::new();
                let ghost nv = name@;
                names.push(name);
                assert(names@.map_values(|n: String| n@) =~= seq![nv]);
                Ok(ProbeRequest::LoadImages(names, None))
            },
            TwoOpcode::F0 => {
                let name = match direct_name_exec(c, 0) {
                    Ok(n) => n,
                    Err(e) => return Err(ProbeHalt::Failed(e)),
                };
                self.map_object_id = None;
                self.map_count = self.map_count + 1;
                Ok(ProbeRequest::LoadMap(name))
            },
            TwoOpcode::FA => {
                let ns = match counted_exec(c, 0, 5) {
                    Ok(ns) => ns,
                    Err(e) => return Err(ProbeHalt::Failed(e)),
                };
                if self.map_loaded {
                    Ok(ProbeRequest::EditMap(MapEdit::Entity([ns[0], ns[1], ns[2], ns[3], ns[4]])))
                } else {
                    Ok(ProbeRequest::Continue)
                }
            },
            TwoOpcode::F5 => {
                let id = match single_exec(c, 0) {
                    Ok(v) => v,
                    Err(e) => return Err(ProbeHalt::Failed(e)),
                };
                self.map_object_id = Some(id);
                if self.map_loaded {
                    Ok(ProbeRequest::Continue)
                } else {
                    Err(ProbeHalt::Failed(ProbeError::MapNotLoaded))
                }
            },
            TwoOpcode::FB => {
                let ns = match counted_exec(c, 0, 5) {
                    Ok(ns) => ns,
                    Err(e) => return Err(ProbeHalt::Failed(e)),
                };
                if self.map_object_id == Some(ns[2]) && self.map_loaded {
                    Ok(ProbeRequest::EditMap(MapEdit::Cell { x: ns[0], y: ns[1], chip: ns[3], layer: ns[4] }))
                } else {
                    Ok(ProbeRequest::Continue)
                }
            },
            TwoOpcode::FC | TwoOpcode::FD => {
                let ns = match counted_exec(c, 0, 2) {
                    Ok(ns) => ns,
                    Err(e) => return Err(ProbeHalt::Failed(e)),
                };
                let enabled = match c.opcode {
                    TwoOpcode::FD => true,
                    _ => false,
                };
                if self.map_object_id == Some(ns[0]) && self.map_loaded {
                    Ok(ProbeRequest::EditMap(MapEdit::Trigger { id: ns[1], enabled }))
                } else {
                    Ok(ProbeRequest::Continue)
                }
            },
            TwoOpcode::WC | TwoOpcode::U0 | TwoOpcode::WD => {
                match single_exec(c, 0) {
                    Ok(_) => Ok(ProbeRequest::Continue),
                    Err(e) => Err(ProbeHalt::Failed(e)),
                }
            },
            TwoOpcode::FJ => {
                match counted_exec(c, 0, 3) {
                    Ok(_) => Ok(ProbeRequest::Continue),
                    Err(e) => Err(ProbeHalt::Failed(e)),
                }
            },
            TwoOpcode::FK | TwoOpcode::M2 | TwoOpcode::M4 | TwoOpcode::W4 | TwoOpcode::WA => Ok(ProbeRequest::Continue),
            TwoOpcode::M0 => {
                let name = match direct_name_exec(c, 0) {
                    Ok(n) => n,
                    Err(e) => return Err(ProbeHalt::Failed(e)),
                };
                self.music_count = self.music_count + 1;
                Ok(ProbeRequest::LoadMusic(name))
            },
            TwoOpcode::M1 => {
                match values_of(c, 0) {
                    None => Err(ProbeHalt::Failed(ProbeError::MissingArgument(c.opcode))),
                    Some(vs) => {
                        if vs.len() == 0 {
                            return Err(ProbeHalt::Failed(ProbeError::MissingArgument(c.opcode)));
                        }
                        match number_exec(&vs[0]) {
                            Ok(_) => Ok(ProbeRequest::Continue),
                            Err(e) => Err(ProbeHalt::Failed(e)),
                        }
                    },
                }
            },
            TwoOpcode::U1 => {
                match values_of(c, 0) {
                    None => Err(ProbeHalt::Failed(ProbeError::MissingArgument(c.opcode))),
                    Some(vs) => {
                        if vs.len() < 2 {
                            return Err(ProbeHalt::Failed(ProbeError::MissingArgument(c.opcode)));
                        }
                        match number_exec(&vs[1]) {
                            Ok(b) => Ok(ProbeRequest::CheckPalette(b)),
                            Err(e) => Err(ProbeHalt::Failed(e)),
                        }
                    },
                }
            },
            TwoOpcode::U3 => {
                if let Err(e) = counted_exec(c, 0, 2) {
                    return Err(ProbeHalt::Failed(e));
                }
                let name = match direct_name_exec(c, 1) {
                    Ok(n) => n,
                    Err(e) => return Err(ProbeHalt::Failed(e)),
                };
                self.image_count = self.image_count + 1;
                let mut names: Vec<String> = Vec::new();
                let ghost nv = name@;
                names.push(name);
                assert(names@.map_values(|n: String| n@) =~= seq![nv]);
                Ok(ProbeRequest::LoadImages(names, None))
            },
            TwoOpcode::UE => {
                if c.arguments.len() <= 1 {
                    return Err(ProbeHalt::Failed(ProbeError::MissingArgument(c.opcode)));
                }
                match &c.arguments[1] {
                    ResolvedArg::Resources(rs) => {
                        let (names, e) = resource_names_exec(rs);
                        assert(names@.len() == resource_names(rs@).0.len());
                        proof {
                            lemma_resource_names_len(rs@);
                        }
                        self.image_count = self.image_count + names.len();
                        Ok(ProbeRequest::LoadImages(names, e))
                    },
                    _ => Err(ProbeHalt::Failed(ProbeError::MissingArgument(c.opcode))),
                }
            },
            TwoOpcode::U2 => {
                if let Err(e) = single_exec(c, 0) {
                    return Err(ProbeHalt::Failed(e));
                }
                let wanted = "s01_002.mes1";
                proof {
                    reveal_strlit("s01_002.mes1");
                }
                assert(wanted@ =~= input_mes());
                if eq_ignore_ascii_case(self.last_loaded_mes.as_str(), wanted) && self.auto_inputs_remaining > 0
                    && self.pending_input_delay.is_none() {
                    self.pending_input_delay = Some(500);
                    self.auto_inputs_remaining = self.auto_inputs_remaining - 1;
                    Ok(ProbeRequest::InputScheduled)
                } else {
                    Ok(ProbeRequest::Continue)
                }
            },
            TwoOpcode::W6 => {
                match direct_of(c, 1) {
                    None => Err(ProbeHalt::Failed(ProbeError::MissingArgument(c.opcode))),
                    Some((_, v)) => match v {
                        RuntimeValue::String(_) => Ok(ProbeRequest::Continue),
                        RuntimeValue::Number { .. } => Err(ProbeHalt::Failed(ProbeError::Value(VmError::ExpectedString))),
                    },
                }
            },
            TwoOpcode::W7 => Err(ProbeHalt::InputReached),
            TwoOpcode::W2 => {
                if self.auto_inputs_remaining == 0 {
                    return Err(ProbeHalt::InputReached);
                }
                self.auto_inputs_remaining = self.auto_inputs_remaining - 1;
                memory.clear_mouse_events();
                Ok(ProbeRequest::Continue)
            },
            TwoOpcode::W8 => {
                self.menus_seen = self.menus_seen + 1;
                if self.menus_seen - 1 < self.menu_path.len() {
                    let choice = self.menu_path[self.menus_seen - 1];
                    match direct_of(c, 0) {
                        None => Err(ProbeHalt::Failed(ProbeError::MissingArgument(c.opcode))),
                        Some((operand, _)) => {
                            match memory.write_operand(operand, RuntimeValue::Number { value: choice, width: NumericWidth::Word }) {
                                Ok(()) => Ok(ProbeRequest::Continue),
                                Err(e) => Err(ProbeHalt::Failed(ProbeError::Value(e))),
                            }
                        },
                    }
                } else {
                    let labels = match values_of(c, 4) {
                        Some(vs) => labels_exec(vs),
                        None => Vec::new(),
                    };
                    assert(labels@.map_values(|l: Vec<u8>| l@) =~= match arg_values(*c, 4) {
                        Some(vs) => option_labels(vs),
                        None => Seq::empty(),
                    });
                    Err(ProbeHalt::MenuReached(labels))
                }
            },
            _ => Err(ProbeHalt::Failed(ProbeError::Unhandled(c.opcode, c.offset))),
        }
    }
}

proof fn lemma_resource_names_len(rs: Seq<ResolvedResource>)
    ensures
        resource_names(rs).0.len() <= rs.len(),
    decreases rs.len(),
{
    if rs.len() > 0 {
        lemma_resource_names_len(rs.drop_first());
    }
}

// ---------------------------------------------------------------- literal resource names

/// The bytes of inline-string parts that are all literals.
pub open spec fn literal_bytes(parts: Seq<InlineStringPartV>) -> Option<Seq<u8>>
    decreases parts.len(),
{
    if parts.len() == 0 {
        Some(Seq::empty())
    } else {
        match parts.last() {
            InlineStringPartV::Literal(b) => match literal_bytes(parts.drop_last()) {
                Some(front) => Some(front + b),
                None => None,
            },
            _ => None,
        }
    }
}

/// The name a resource expression spells when it is a single inline string
/// made of literals only (no string-table slots).
pub open spec fn literal_name(e: ExpressionV) -> Option<Seq<u8>> {
    if e.terms.len() != 1 {
        None
    } else {
        match e.terms[0].operand {
            OperandV::InlineString(parts) => literal_bytes(parts),
            _ => None,
        }
    }
}

pub fn inline_resource_name(expression: &Expression) -> (res: Option<Vec<u8>>)
    ensures
        match literal_name(expression.view()) {
            Some(b) => res is Some && res.unwrap()@ == b,
            None => res is None,
        },
{
    if expression.terms.len() != 1 {
        return None;
    }
    let parts = match &expression.terms[0].operand {
        Operand::InlineString(parts) => parts,
        _ => return None,
    };
    assert(expression.view().terms[0].operand == expression.terms@[0].operand.view());
    let ghost pv = crate::value::parts_view(parts@);
    assert(literal_name(expression.view()) == literal_bytes(pv));
    let mut name: Vec<u8> = Vec::new();
    let mut i: usize = 0;
    assert(pv.take(0) =~= Seq::<InlineStringPartV>::empty());
    while i < parts.len()
        invariant
            i <= parts@.len(),
            pv == crate::value::parts_view(parts@),
            literal_name(expression.view()) == literal_bytes(pv),
            literal_bytes(pv.take(i as int)) == Some(name@),
        decreases parts@.len() - i,
    {
        assert(pv.take(i + 1).drop_last() =~= pv.take(i as int));
        assert(pv.take(i + 1).last() == parts@[i as int].view());
        match &parts[i] {
            InlineStringPart::Literal(bytes) => {
                let ghost before = name@;
                let mut k: usize = 0;
                while k < bytes.len()
                    invariant
                        k <= bytes@.len(),
                        name@ == before + bytes@.take(k as int),
                    decreases bytes@.len() - k,
                {
                    name.push(bytes[k]);
                    k = k + 1;
                    assert(name@ =~= before + bytes@.take(k as int));
                }
                assert(bytes@.take(k as int) =~= bytes@);
            },
            _ => {
                proof {
                    lemma_literal_prefix(pv, i as int + 1);
                }
                return None;
            },
        }
        i = i + 1;
    }
    assert(pv.take(i as int) =~= pv);
    Some(name)
}

/// A prefix that is not all literals keeps the whole from being one.
proof fn lemma_literal_prefix(parts: Seq<InlineStringPartV>, k: int)
    requires
        0 <= k <= parts.len(),
        literal_bytes(parts.take(k)) is None,
    ensures
        literal_bytes(parts) is None,
    decreases parts.len(),
{
    if k < parts.len() {
        assert(parts.drop_last().take(k) =~= parts.take(k));
        lemma_literal_prefix(parts.drop_last(), k);
    } else {
        assert(parts.take(k) =~= parts);
    }
}

} // verus!
