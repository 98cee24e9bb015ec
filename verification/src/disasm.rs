//! Structural UK2 bytecode decoder and control-flow traversal.
use vstd::prelude::*;
use std::collections::{BTreeMap, VecDeque};

use crate::mes::{MES_CODE_OFFSET, MesError, MesProgram, MesReader, le16};
use crate::opcode::{SigToken, SingleOpcode, TwoOpcode, spec_pair, spec_signature, spec_single};
use crate::value::{
    ClauseV, Condition, Expression, ExpressionV, Operand, OperandV, ValueError, clauses_view,
    exprs_view, parse_condition, parse_expression, parse_expression_list, parse_operand,
    parse_required_expression, spec_condition, spec_expression, spec_expression_list,
    spec_operand, spec_required_expression,
};

verus! {

#[derive(Debug, PartialEq, Eq)]
pub struct ResourceArgument {
    pub resource: Expression,
    pub arguments: Vec<Expression>,
}

#[derive(Debug, PartialEq, Eq)]
pub enum InstructionArg {
    Direct(Operand),
    Expression(Expression),
    ExpressionList(Vec<Expression>),
    Condition(Condition),
    Offset(u16),
    ResourceList(Vec<ResourceArgument>),
}

#[derive(Debug, PartialEq, Eq)]
pub enum InstructionKind {
    End,
    Assign { destination: Operand, value: Expression },
    BlockCall { target: u16 },
    Decrement(Operand),
    Increment(Operand),
    Return { raw: u8, status: i16 },
    Command { opcode: TwoOpcode, arguments: Vec<InstructionArg> },
}

#[derive(Debug, PartialEq, Eq)]
pub struct Instruction {
    pub offset: usize,
    pub end_offset: usize,
    pub kind: InstructionKind,
}

/// Errors of the decoder and the traversal.
#[derive(Debug, Clone, Copy, PartialEq, Eq)]
pub enum DisasmError {
    /// The offset lies inside the MES header.
    InsideHeader,
    /// The offset lies beyond the file.
    OffsetBeyondEnd,
    /// The bytes ended inside an instruction.
    Truncated,
    /// No command is spelled by these two bytes.
    UnknownOpcode(u8, u8),
    /// An operand, expression or condition is malformed.
    Value(ValueError),
    /// A control-flow edge leaves the bytecode.
    EdgeOutside(usize),
    /// A control-flow command has no offset argument.
    NoOffsetArgument,
}

// ---- model ------------------------------------------------------------------

pub enum ArgV {
    Direct(OperandV),
    Expression(ExpressionV),
    ExpressionList(Seq<ExpressionV>),
    Condition(Seq<ClauseV>),
    Offset(u16),
    ResourceList(Seq<(ExpressionV, Seq<ExpressionV>)>),
}

pub enum KindV {
    End,
    Assign { destination: OperandV, value: ExpressionV },
    BlockCall { target: u16 },
    Decrement(OperandV),
    Increment(OperandV),
    Return { raw: u8, status: i16 },
    Command { opcode: TwoOpcode, arguments: Seq<ArgV> },
}

impl ResourceArgument {
    pub open spec fn view(&self) -> (ExpressionV, Seq<ExpressionV>) {
        (self.resource.view(), exprs_view(self.arguments@))
    }
}

pub open spec fn resources_view(r: Seq<ResourceArgument>) -> Seq<(ExpressionV, Seq<ExpressionV>)> {
    Seq::new(r.len(), |i: int| r[i].view())
}

impl InstructionArg {
    pub open spec fn view(&self) -> ArgV {
        match self {
            InstructionArg::Direct(o) => ArgV::Direct(o.view()),
            InstructionArg::Expression(e) => ArgV::Expression(e.view()),
            InstructionArg::ExpressionList(v) => ArgV::ExpressionList(exprs_view(v@)),
            InstructionArg::Condition(c) => ArgV::Condition(clauses_view(c.clauses@)),
            InstructionArg::Offset(o) => ArgV::Offset(*o),
            InstructionArg::ResourceList(r) => ArgV::ResourceList(resources_view(r@)),
        }
    }
}

pub open spec fn args_view(a: Seq<InstructionArg>) -> Seq<ArgV> {
    Seq::new(a.len(), |i: int| a[i].view())
}

impl InstructionKind {
    pub open spec fn view(&self) -> KindV {
        match self {
            InstructionKind::End => KindV::End,
            InstructionKind::Assign { destination, value } => KindV::Assign {
                destination: destination.view(),
                value: value.view(),
            },
            InstructionKind::BlockCall { target } => KindV::BlockCall { target: *target },
            InstructionKind::Decrement(o) => KindV::Decrement(o.view()),
            InstructionKind::Increment(o) => KindV::Increment(o.view()),
            InstructionKind::Return { raw, status } => KindV::Return { raw: *raw, status: *status },
            InstructionKind::Command { opcode, arguments } => KindV::Command {
                opcode: *opcode,
                arguments: args_view(arguments@),
            },
        }
    }
}

// ---- the encoding -------------------------------------------------------------

/// Expressions until a null marker.
pub open spec fn spec_until_null(d: Seq<u8>, at: int, acc: Seq<ExpressionV>) -> Option<(Seq<ExpressionV>, int)>
    decreases d.len() - at,
{
    match spec_expression(d, at) {
        None => None,
        Some((None, p)) => Some((acc, p)),
        Some((Some(e), p)) => if p <= at || p > d.len() {
            None
        } else {
            spec_until_null(d, p, acc.push(e))
        },
    }
}

/// Resource expressions with up to two arguments each, until a null marker.
pub open spec fn spec_resources(d: Seq<u8>, at: int, acc: Seq<(ExpressionV, Seq<ExpressionV>)>) -> Option<(Seq<(ExpressionV, Seq<ExpressionV>)>, int)>
    decreases d.len() - at,
{
    match spec_expression(d, at) {
        None => None,
        Some((None, p)) => Some((acc, p)),
        Some((Some(r), p)) => match spec_expression_list(d, p, 2, Seq::empty()) {
            None => None,
            Some((args, q)) => if q <= at || q > d.len() {
                None
            } else {
                spec_resources(d, q, acc.push((r, args)))
            },
        },
    }
}

/// One argument slot at `at`.
pub open spec fn spec_arg(d: Seq<u8>, at: int, token: SigToken) -> Option<(ArgV, int)> {
    match token {
        SigToken::Direct => match spec_operand(d, at) {
            Some((o, p)) => Some((ArgV::Direct(o), p)),
            None => None,
        },
        SigToken::Expression => match spec_required_expression(d, at) {
            Some((e, p)) => Some((ArgV::Expression(e), p)),
            None => None,
        },
        SigToken::Condition => match spec_condition(d, at) {
            Some((c, p)) => Some((ArgV::Condition(c), p)),
            None => None,
        },
        SigToken::Offset => if 0 <= at && at + 2 <= d.len() {
            Some((ArgV::Offset(le16(d[at], d[at + 1])), at + 2))
        } else {
            None
        },
        SigToken::ExpressionsUntilNull => match spec_until_null(d, at, Seq::empty()) {
            Some((v, p)) => Some((ArgV::ExpressionList(v), p)),
            None => None,
        },
        SigToken::ExpressionsAtMost(n) => match spec_expression_list(d, at, n as int, Seq::empty()) {
            Some((v, p)) => Some((ArgV::ExpressionList(v), p)),
            None => None,
        },
        SigToken::ResourceList => match spec_resources(d, at, Seq::empty()) {
            Some((v, p)) => Some((ArgV::ResourceList(v), p)),
            None => None,
        },
    }
}

/// The arguments laid out by `sig`, after `acc`.
pub open spec fn spec_args(d: Seq<u8>, at: int, sig: Seq<SigToken>, acc: Seq<ArgV>) -> Option<(Seq<ArgV>, int)>
    decreases sig.len(),
{
    if sig.len() == 0 {
        Some((acc, at))
    } else {
        match spec_arg(d, at, sig[0]) {
            None => None,
            Some((a, p)) => spec_args(d, p, sig.skip(1), acc.push(a)),
        }
    }
}

/// The instruction encoded at `at` and the offset after it.
pub open spec fn spec_decode(d: Seq<u8>, at: int) -> Option<(KindV, int)> {
    if at < 0 || at >= d.len() {
        None
    } else {
        match spec_single(d[at]) {
            Some(SingleOpcode::End) => Some((KindV::End, at + 1)),
            Some(SingleOpcode::Assign) => match spec_operand(d, at + 1) {
                None => None,
                Some((dst, p)) => match spec_required_expression(d, p) {
                    None => None,
                    Some((v, q)) => Some((KindV::Assign { destination: dst, value: v }, q)),
                },
            },
            Some(SingleOpcode::BlockCall) => if at + 3 <= d.len() {
                Some((KindV::BlockCall { target: le16(d[at + 1], d[at + 2]) }, at + 3))
            } else {
                None
            },
            Some(SingleOpcode::Decrement) => match spec_operand(d, at + 1) {
                None => None,
                Some((o, p)) => Some((KindV::Decrement(o), p)),
            },
            Some(SingleOpcode::Increment) => match spec_operand(d, at + 1) {
                None => None,
                Some((o, p)) => Some((KindV::Increment(o), p)),
            },
            Some(SingleOpcode::Return) => if at + 2 <= d.len() {
                Some((KindV::Return { raw: d[at + 1], status: (d[at + 1] - 48) as i16 }, at + 2))
            } else {
                None
            },
            None => if at + 2 <= d.len() {
                match spec_pair(d[at], d[at + 1]) {
                    None => None,
                    Some(op) => match spec_args(d, at + 2, spec_signature(op), Seq::empty()) {
                        None => None,
                        Some((args, p)) => Some((KindV::Command { opcode: op, arguments: args }, p)),
                    },
                }
            } else {
                None
            },
        }
    }
}

// ---- decoder ------------------------------------------------------------------------

impl Instruction {
    pub fn len(&self) -> (res: usize)
        requires
            self.offset <= self.end_offset,
        ensures
            res == self.end_offset - self.offset,
    {
        self.end_offset - self.offset
    }

    pub fn is_empty(&self) -> (res: bool)
        requires
            self.offset <= self.end_offset,
        ensures
            res == (self.end_offset == self.offset),
    {
        self.len() == 0
    }
}

fn value_error<T>(r: Result<T, ValueError>) -> (res: Result<T, DisasmError>)
    ensures
        r is Ok <==> res is Ok,
        r is Ok ==> res.unwrap() == r.unwrap(),
{
    match r {
        Ok(v) => Ok(v),
        Err(e) => Err(DisasmError::Value(e)),
    }
}

fn reader_byte(reader: &mut MesReader<'_>) -> (res: Result<u8, DisasmError>)
    requires
        old(reader).valid(),
    ensures
        final(reader).valid(),
        final(reader).data() == old(reader).data(),
        old(reader).pos() < old(reader).data().len() ==> res == Ok::<u8, DisasmError>(
            old(reader).data()[old(reader).pos()],
        ) && final(reader).pos() == old(reader).pos() + 1,
        old(reader).pos() >= old(reader).data().len() ==> res is Err,
{
    match reader.byte() {
        Ok(b) => Ok(b),
        Err(_) => Err(DisasmError::Truncated),
    }
}

fn reader_u16(reader: &mut MesReader<'_>) -> (res: Result<u16, DisasmError>)
    requires
        old(reader).valid(),
    ensures
        final(reader).valid(),
        final(reader).data() == old(reader).data(),
        old(reader).pos() + 2 <= old(reader).data().len() ==> res == Ok::<u16, DisasmError>(
            le16(old(reader).data()[old(reader).pos()], old(reader).data()[old(reader).pos() + 1]),
        ) && final(reader).pos() == old(reader).pos() + 2,
        old(reader).pos() + 2 > old(reader).data().len() ==> res is Err,
{
    match reader.u16() {
        Ok(b) => Ok(b),
        Err(_) => Err(DisasmError::Truncated),
    }
}

fn parse_until_null(reader: &mut MesReader<'_>) -> (res: Result<Vec<Expression>, DisasmError>)
    requires
        old(reader).valid(),
    ensures
        final(reader).valid(),
        final(reader).data() == old(reader).data(),
        res is Ok ==> final(reader).pos() >= old(reader).pos(),
        spec_until_null(old(reader).data(), old(reader).pos(), Seq::empty()) == (match res {
            Ok(v) => Some((exprs_view(v@), final(reader).pos())),
            Err(_) => None::<(Seq<ExpressionV>, int)>,
        }),
{
    let ghost d = reader.data();
    let ghost start = reader.pos();
    let mut v: Vec<Expression> = Vec::new();
    assert(exprs_view(v@) =~= Seq::<ExpressionV>::empty());
    loop
        invariant
            reader.valid(),
            reader.data() == d,
            d == old(reader).data(),
            start == old(reader).pos(),
            reader.pos() >= start,
            spec_until_null(d, start, Seq::empty()) == spec_until_null(d, reader.pos(), exprs_view(v@)),
        decreases d.len() - reader.pos(),
    {
        proof { reader.lemma_valid(); }
        match value_error(parse_expression(reader))? {
            None => return Ok(v),
            Some(e) => {
                let ghost before = exprs_view(v@);
                let ghost ev = e.view();
                v.push(e);
                assert(exprs_view(v@) =~= before.push(ev));
                proof { reader.lemma_valid(); }
            },
        }
    }
}

fn parse_resources(reader: &mut MesReader<'_>) -> (res: Result<Vec<ResourceArgument>, DisasmError>)
    requires
        old(reader).valid(),
    ensures
        final(reader).valid(),
        final(reader).data() == old(reader).data(),
        res is Ok ==> final(reader).pos() >= old(reader).pos(),
        spec_resources(old(reader).data(), old(reader).pos(), Seq::empty()) == (match res {
            Ok(v) => Some((resources_view(v@), final(reader).pos())),
            Err(_) => None::<(Seq<(ExpressionV, Seq<ExpressionV>)>, int)>,
        }),
{
    let ghost d = reader.data();
    let ghost start = reader.pos();
    let mut v: Vec<ResourceArgument> = Vec::new();
    assert(resources_view(v@) =~= Seq::<(ExpressionV, Seq<ExpressionV>)>::empty());
    loop
        invariant
            reader.valid(),
            reader.data() == d,
            d == old(reader).data(),
            start == old(reader).pos(),
            reader.pos() >= start,
            spec_resources(d, start, Seq::empty()) == spec_resources(d, reader.pos(), resources_view(v@)),
        decreases d.len() - reader.pos(),
    {
        proof { reader.lemma_valid(); }
        let ghost at = reader.pos();
        match value_error(parse_expression(reader))? {
            None => return Ok(v),
            Some(resource) => {
                let arguments = value_error(parse_expression_list(reader, 2))?;
                let ghost before = resources_view(v@);
                let r = ResourceArgument { resource, arguments };
                let ghost rv = r.view();
                v.push(r);
                assert(resources_view(v@) =~= before.push(rv));
                proof { reader.lemma_valid(); }
            },
        }
    }
}

fn parse_arg(reader: &mut MesReader<'_>, token: SigToken) -> (res: Result<InstructionArg, DisasmError>)
    requires
        old(reader).valid(),
    ensures
        final(reader).valid(),
        final(reader).data() == old(reader).data(),
        res is Ok ==> final(reader).pos() >= old(reader).pos(),
        spec_arg(old(reader).data(), old(reader).pos(), token) == (match res {
            Ok(a) => Some((a.view(), final(reader).pos())),
            Err(_) => None::<(ArgV, int)>,
        }),
{
    match token {
        SigToken::Direct => Ok(InstructionArg::Direct(value_error(parse_operand(reader))?)),
        SigToken::Expression => Ok(
            InstructionArg::Expression(value_error(parse_required_expression(reader))?),
        ),
        SigToken::Condition => Ok(InstructionArg::Condition(value_error(parse_condition(reader))?)),
        SigToken::Offset => {
            proof { reader.lemma_valid(); }
            Ok(InstructionArg::Offset(reader_u16(reader)?))
        },
        SigToken::ExpressionsUntilNull => Ok(InstructionArg::ExpressionList(parse_until_null(reader)?)),
        SigToken::ExpressionsAtMost(n) => Ok(
            InstructionArg::ExpressionList(value_error(parse_expression_list(reader, n))?),
        ),
        SigToken::ResourceList => Ok(InstructionArg::ResourceList(parse_resources(reader)?)),
    }
}

fn parse_signature(opcode: TwoOpcode, reader: &mut MesReader<'_>) -> (res: Result<Vec<InstructionArg>, DisasmError>)
    requires
        old(reader).valid(),
    ensures
        final(reader).valid(),
        final(reader).data() == old(reader).data(),
        res is Ok ==> final(reader).pos() >= old(reader).pos(),
        spec_args(old(reader).data(), old(reader).pos(), spec_signature(opcode), Seq::empty()) == (match res {
            Ok(a) => Some((args_view(a@), final(reader).pos())),
            Err(_) => None::<(Seq<ArgV>, int)>,
        }),
{
    let ghost d = reader.data();
    let ghost start = reader.pos();
    let sig = opcode.signature();
    let mut arguments: Vec<InstructionArg> = Vec::new();
    let mut i: usize = 0;
    assert(args_view(arguments@) =~= Seq::<ArgV>::empty());
    assert(sig@.skip(0) =~= sig@);
    while i < sig.len()
        invariant
            reader.valid(),
            reader.data() == d,
            d == old(reader).data(),
            start == old(reader).pos(),
            sig@ == spec_signature(opcode),
            i <= sig@.len(),
            reader.pos() >= start,
            spec_args(d, start, sig@, Seq::empty()) == spec_args(d, reader.pos(), sig@.skip(i as int), args_view(arguments@)),
        decreases sig@.len() - i,
    {
        let ghost at = reader.pos();
        let ghost acc = args_view(arguments@);
        assert(sig@.skip(i as int)[0] == sig@[i as int]);
        assert(sig@.skip(i as int).skip(1) =~= sig@.skip(i + 1));
        let a = parse_arg(reader, sig[i]);
        let a = a?;
        let ghost av = a.view();
        arguments.push(a);
        assert(args_view(arguments@) =~= acc.push(av));
        i = i + 1;
    }
    assert(sig@.skip(i as int) =~= Seq::<SigToken>::empty());
    Ok(arguments)
}

/// Decodes the instruction at `offset`.
pub fn decode_instruction(program: &MesProgram, offset: usize) -> (res: Result<Instruction, DisasmError>)
    ensures
        offset < MES_CODE_OFFSET ==> res == Err::<Instruction, DisasmError>(DisasmError::InsideHeader),
        offset >= MES_CODE_OFFSET ==> spec_decode(program.view_bytes(), offset as int) == (match res {
            Ok(i) => Some((i.kind.view(), i.end_offset as int)),
            Err(_) => None::<(KindV, int)>,
        }),
        res is Ok ==> res.unwrap().offset == offset && offset < res.unwrap().end_offset <= program.view_bytes().len(),
{
    if offset < MES_CODE_OFFSET {
        return Err(DisasmError::InsideHeader);
    }
    let mut reader = match program.reader_at(offset) {
        Ok(r) => r,
        Err(_) => return Err(DisasmError::OffsetBeyondEnd),
    };
    let ghost d = reader.data();
    proof { reader.lemma_valid(); }
    let first = reader_byte(&mut reader)?;
    let kind = match SingleOpcode::from_byte(first) {
        Some(SingleOpcode::End) => InstructionKind::End,
        Some(SingleOpcode::Assign) => {
            let destination = value_error(parse_operand(&mut reader))?;
            let value = value_error(parse_required_expression(&mut reader))?;
            InstructionKind::Assign { destination, value }
        },
        Some(SingleOpcode::BlockCall) => InstructionKind::BlockCall { target: reader_u16(&mut reader)? },
        Some(SingleOpcode::Decrement) => InstructionKind::Decrement(value_error(parse_operand(&mut reader))?),
        Some(SingleOpcode::Increment) => InstructionKind::Increment(value_error(parse_operand(&mut reader))?),
        Some(SingleOpcode::Return) => {
            proof { reader.lemma_valid(); }
            let raw = reader_byte(&mut reader)?;
            InstructionKind::Return { raw, status: raw as i16 - 48 }
        },
        None => {
            proof { reader.lemma_valid(); }
            let second = reader_byte(&mut reader)?;
            let opcode = match TwoOpcode::from_pair(first, second) {
                Some(op) => op,
                None => return Err(DisasmError::UnknownOpcode(first, second)),
            };
            let arguments = parse_signature(opcode, &mut reader)?;
            InstructionKind::Command { opcode, arguments }
        },
    };
    proof { reader.lemma_valid(); }
    Ok(Instruction { offset, end_offset: reader.position(), kind })
}


// ---- control flow ---------------------------------------------------------------

broadcast use vstd::std_specs::btree::group_btree_axioms, vstd::laws_cmp::group_laws_cmp;

/// The last offset argument of a command.
pub open spec fn last_offset(args: Seq<ArgV>) -> Option<u16>
    decreases args.len(),
{
    if args.len() == 0 {
        None
    } else {
        match args.last() {
            ArgV::Offset(o) => Some(o),
            _ => last_offset(args.drop_last()),
        }
    }
}

/// Whether the recursive interpreter goes on with the next instruction.
pub open spec fn falls_through(k: KindV) -> bool {
    match k {
        KindV::End => false,
        KindV::Return { .. } => false,
        KindV::Command { opcode: TwoOpcode::J0, .. } => false,
        KindV::Command { opcode: TwoOpcode::J3, .. } => false,
        _ => true,
    }
}

/// Whether a command transfers control to its offset argument.
pub open spec fn branches(op: TwoOpcode) -> bool {
    match op {
        TwoOpcode::J0 | TwoOpcode::J1 | TwoOpcode::L0 | TwoOpcode::L1 | TwoOpcode::L2
        | TwoOpcode::L3 | TwoOpcode::L4 | TwoOpcode::L5 => true,
        _ => false,
    }
}

/// The branch target of an instruction, if it has one.
pub open spec fn branch_target(k: KindV) -> Option<int> {
    match k {
        KindV::BlockCall { target } => Some(target as int),
        KindV::Command { opcode, arguments } => if branches(opcode) {
            match last_offset(arguments) {
                Some(o) => Some(o as int),
                None => None,
            }
        } else {
            None
        },
        _ => None,
    }
}

/// A set of decoded instructions that is closed under control flow.
pub open spec fn closed_under_flow(d: Seq<u8>, m: Map<usize, Instruction>) -> bool {
    &&& forall|o: usize| #[trigger] m.contains_key(o) ==> {
        &&& MES_CODE_OFFSET <= o < d.len()
        &&& m[o].offset == o
        &&& spec_decode(d, o as int) == Some((m[o].kind.view(), m[o].end_offset as int))
    }
    &&& forall|o: usize| #[trigger] m.contains_key(o) && falls_through(m[o].kind.view())
        && m[o].end_offset < d.len() ==> m.contains_key(m[o].end_offset)
    &&& forall|o: usize| #[trigger] m.contains_key(o) && branch_target(m[o].kind.view()) is Some
        ==> 0 <= branch_target(m[o].kind.view()).unwrap() <= usize::MAX && m.contains_key(
        branch_target(m[o].kind.view()).unwrap() as usize)
}

fn argument_offset(arguments: &Vec<InstructionArg>) -> (res: Result<usize, DisasmError>)
    ensures
        match last_offset(args_view(arguments@)) {
            Some(o) => res == Ok::<usize, DisasmError>(o as usize),
            None => res == Err::<usize, DisasmError>(DisasmError::NoOffsetArgument),
        },
{
    let mut i = arguments.len();
    let ghost av = args_view(arguments@);
    assert(av.take(i as int) =~= av);
    while i > 0
        invariant
            i <= arguments@.len(),
            av == args_view(arguments@),
            last_offset(av) == last_offset(av.take(i as int)),
        decreases i,
    {
        assert(av.take(i as int).drop_last() =~= av.take(i - 1));
        match &arguments[i - 1] {
            InstructionArg::Offset(o) => return Ok(*o as usize),
            _ => {},
        }
        i = i - 1;
    }
    Err(DisasmError::NoOffsetArgument)
}

fn push_target(program: &MesProgram, pending: &mut VecDeque<usize>, target: usize) -> (res: Result<(), DisasmError>)
    ensures
        MES_CODE_OFFSET <= target < program.view_bytes().len() ==> res is Ok && final(pending)@ == old(pending)@.push(target),
        !(MES_CODE_OFFSET <= target < program.view_bytes().len()) ==> res == Err::<(), DisasmError>(DisasmError::EdgeOutside(target)) && final(pending)@ == old(pending)@,
{
    if target < MES_CODE_OFFSET || target >= program.len() {
        return Err(DisasmError::EdgeOutside(target));
    }
    pending.push_back(target);
    Ok(())
}

proof fn lemma_push_keeps(s: Seq<usize>, v: usize)
    ensures
        forall|x: usize| s.contains(x) ==> #[trigger] s.push(v).contains(x),
        s.push(v).contains(v),
{
    assert forall|x: usize| s.contains(x) implies #[trigger] s.push(v).contains(x) by {
        let k = choose|k: int| 0 <= k < s.len() && s[k] == x;
        assert(s.push(v)[k] == x);
    }
    assert(s.push(v)[s.len() as int] == v);
}

proof fn lemma_pop_keeps(s: Seq<usize>)
    requires
        s.len() > 0,
    ensures
        forall|x: usize| s.contains(x) && x != s[0] ==> #[trigger] s.subrange(1, s.len() as int).contains(x),
{
    assert forall|x: usize| s.contains(x) && x != s[0] implies #[trigger] s.subrange(1, s.len() as int).contains(x) by {
        let k = choose|k: int| 0 <= k < s.len() && s[k] == x;
        assert(k != 0);
        assert(s.subrange(1, s.len() as int)[k - 1] == x);
    }
}

/// The offsets that control leaves an instruction ending at `end` for, in
/// the order they are queued (the branch target, then the next
/// instruction); an error when a branching command has no offset or an edge
/// leaves the code of a program of `len` bytes.
pub open spec fn successors(len: int, k: KindV, end: usize) -> Result<Seq<usize>, DisasmError> {
    let fall: Seq<usize> = if falls_through(k) && end < len {
        seq![end]
    } else {
        Seq::empty()
    };
    match k {
        KindV::BlockCall { target } => if MES_CODE_OFFSET <= target < len {
            Ok(seq![target as usize] + fall)
        } else {
            Err(DisasmError::EdgeOutside(target as usize))
        },
        KindV::Command { opcode, arguments } => if branches(opcode) {
            match last_offset(arguments) {
                None => Err(DisasmError::NoOffsetArgument),
                Some(o) => if MES_CODE_OFFSET <= o < len {
                    Ok(seq![o as usize] + fall)
                } else {
                    Err(DisasmError::EdgeOutside(o as usize))
                },
            }
        } else {
            Ok(fall)
        },
        _ => Ok(fall),
    }
}

/// The successors of a decoded instruction of the program `d`.
pub open spec fn succ_of(d: Seq<u8>, i: Instruction) -> Result<Seq<usize>, DisasmError> {
    successors(d.len() as int, i.kind.view(), i.end_offset)
}

/// Every offset of `s` is decoded in `m` or still waits in `p`.
pub open spec fn covered_by(s: Seq<usize>, m: Map<usize, Instruction>, p: Seq<usize>) -> bool {
    forall|i: int| 0 <= i < s.len() ==> m.contains_key(#[trigger] s[i]) || p.contains(s[i])
}

/// Every instruction of `m` is decoded from `d` at its own offset inside
/// the code, and every edge out of it is sound and lands on an instruction
/// of `m`.
pub open spec fn flow_covered(d: Seq<u8>, m: Map<usize, Instruction>) -> bool {
    forall|o: usize| #[trigger] m.contains_key(o) ==> {
        &&& MES_CODE_OFFSET <= o < d.len()
        &&& m[o].offset == o
        &&& spec_decode(d, o as int) == Some((m[o].kind.view(), m[o].end_offset as int))
        &&& succ_of(d, m[o]) is Ok
        &&& covered_by(succ_of(d, m[o])->Ok_0, m, Seq::empty())
    }
}

/// Popping a decoded offset off the queue keeps every edge covered.
proof fn lemma_cover_pop(d: Seq<u8>, m: Map<usize, Instruction>, p: Seq<usize>)
    requires
        p.len() > 0,
        m.contains_key(p[0]),
        forall|o: usize| #[trigger] m.contains_key(o) ==> succ_of(d, m[o]) is Ok && covered_by(succ_of(d, m[o])->Ok_0, m, p),
    ensures
        forall|o: usize| #[trigger] m.contains_key(o) ==> succ_of(d, m[o]) is Ok && covered_by(
            succ_of(d, m[o])->Ok_0,
            m,
            p.subrange(1, p.len() as int),
        ),
{
    let q = p.subrange(1, p.len() as int);
    assert forall|o: usize| #[trigger] m.contains_key(o) implies succ_of(d, m[o]) is Ok && covered_by(succ_of(d, m[o])->Ok_0, m, q) by {
        let s = succ_of(d, m[o])->Ok_0;
        assert forall|i: int| 0 <= i < s.len() implies m.contains_key(#[trigger] s[i]) || q.contains(s[i]) by {
            if !m.contains_key(s[i]) {
                assert(p.contains(s[i]));
                let k = choose|k: int| 0 <= k < p.len() && p[k] == s[i];
                assert(q[k - 1] == s[i]);
            }
        }
    }
}

/// Decoding the offset at the head of the queue and queueing its successors
/// keeps every edge covered.
proof fn lemma_cover_step(d: Seq<u8>, m: Map<usize, Instruction>, p: Seq<usize>, ins: Instruction, s: Seq<usize>)
    requires
        p.len() > 0,
        succ_of(d, ins) == Ok::<Seq<usize>, DisasmError>(s),
        forall|o: usize| #[trigger] m.contains_key(o) ==> succ_of(d, m[o]) is Ok && covered_by(succ_of(d, m[o])->Ok_0, m, p),
    ensures
        forall|o: usize| #[trigger] m.insert(p[0], ins).contains_key(o) ==> succ_of(d, m.insert(p[0], ins)[o]) is Ok
            && covered_by(
            succ_of(d, m.insert(p[0], ins)[o])->Ok_0,
            m.insert(p[0], ins),
            p.subrange(1, p.len() as int) + s,
        ),
{
    let m2 = m.insert(p[0], ins);
    let q = p.subrange(1, p.len() as int);
    let p2 = q + s;
    assert forall|o: usize| #[trigger] m2.contains_key(o) implies succ_of(d, m2[o]) is Ok && covered_by(succ_of(d, m2[o])->Ok_0, m2, p2) by {
        if o == p[0] {
            assert forall|i: int| 0 <= i < s.len() implies m2.contains_key(#[trigger] s[i]) || p2.contains(s[i]) by {
                assert(p2[q.len() + i] == s[i]);
            }
        } else {
            let t = succ_of(d, m[o])->Ok_0;
            assert forall|i: int| 0 <= i < t.len() implies m2.contains_key(#[trigger] t[i]) || p2.contains(t[i]) by {
                if !m.contains_key(t[i]) {
                    assert(p.contains(t[i]));
                    let k = choose|k: int| 0 <= k < p.len() && p[k] == t[i];
                    if k > 0 {
                        assert(p2[k - 1] == t[i]);
                    }
                }
            }
        }
    }
}

/// When a covering set of instructions exists, the instruction decoded at
/// the head of the queue has successors, and they all lie in that set.
proof fn lemma_good_step(d: Seq<u8>, gm: Map<usize, Instruction>, p: Seq<usize>, ins: Instruction)
    requires
        flow_covered(d, gm),
        p.len() > 0,
        forall|i: int| 0 <= i < p.len() ==> gm.contains_key(#[trigger] p[i]),
        spec_decode(d, p[0] as int) == Some((ins.kind.view(), ins.end_offset as int)),
    ensures
        succ_of(d, ins) is Ok,
        forall|i: int| 0 <= i < (p.subrange(1, p.len() as int) + succ_of(d, ins)->Ok_0).len() ==> gm.contains_key(
            #[trigger] (p.subrange(1, p.len() as int) + succ_of(d, ins)->Ok_0)[i],
        ),
{
    let o = p[0];
    assert(gm.contains_key(o));
    assert(succ_of(d, ins) == succ_of(d, gm[o]));
    let s = succ_of(d, ins)->Ok_0;
    let q = p.subrange(1, p.len() as int);
    let p2 = q + s;
    assert forall|i: int| 0 <= i < p2.len() implies gm.contains_key(#[trigger] p2[i]) by {
        if i < q.len() {
            assert(p2[i] == p[i + 1]);
        } else {
            assert(p2[i] == s[i - q.len()]);
            assert(covered_by(s, gm, Seq::empty()));
            assert(!Seq::<usize>::empty().contains(s[i - q.len()]));
        }
    }
}

/// A `J1` call comes back: control goes both to its target and, after the
/// called block, to the instruction that follows the call.  So the
/// successors of a `J1` whose target and end lie in the code are the target
/// and then its end offset.
pub proof fn lemma_call_returns(len: int, arguments: Seq<ArgV>, end: usize, t: u16)
    requires
        last_offset(arguments) == Some(t),
        MES_CODE_OFFSET <= t < len,
        end < len,
    ensures
        falls_through(KindV::Command { opcode: TwoOpcode::J1, arguments }),
        successors(len, KindV::Command { opcode: TwoOpcode::J1, arguments }, end) == Ok::<Seq<usize>, DisasmError>(
            seq![t as usize, end],
        ),
{
    assert(seq![t as usize] + seq![end] =~= seq![t as usize, end]);
}

/// Where control goes after each kind of instruction (targets and ends in
/// the code): nowhere after `End`, `Return` and `J3`; only to the target
/// after `J0`; to the next instruction after assignments, increments and
/// decrements; to the called block and then the next instruction after a
/// block call.
pub proof fn lemma_successors_by_kind(len: int, k: KindV, end: usize, t: u16)
    requires
        MES_CODE_OFFSET <= t < len,
        end < len,
    ensures
        k is End || k is Return ==> successors(len, k, end) == Ok::<Seq<usize>, DisasmError>(Seq::empty()),
        k is Assign || k is Increment || k is Decrement ==> successors(len, k, end) == Ok::<Seq<usize>, DisasmError>(
            seq![end],
        ),
        k == (KindV::BlockCall { target: t }) ==> successors(len, k, end) == Ok::<Seq<usize>, DisasmError>(
            seq![t as usize, end],
        ),
        (k matches KindV::Command { opcode: TwoOpcode::J0, arguments } && last_offset(arguments) == Some(t)) ==> successors(
            len,
            k,
            end,
        ) == Ok::<Seq<usize>, DisasmError>(seq![t as usize]),
        (k matches KindV::Command { opcode: TwoOpcode::J3, .. }) ==> successors(len, k, end) == Ok::<Seq<usize>, DisasmError>(
            Seq::empty(),
        ),
{
    assert(seq![t as usize] + seq![end] =~= seq![t as usize, end]);
    assert(seq![t as usize] + Seq::<usize>::empty() =~= seq![t as usize]);
}

/// A disassembly that covers every edge lists the instruction after each
/// `J1` call inside the code, as well as the called block.
pub proof fn lemma_listing_has_call_returns(d: Seq<u8>, m: Map<usize, Instruction>, o: usize)
    requires
        flow_covered(d, m),
        m.contains_key(o),
        m[o].kind.view() matches KindV::Command { opcode: TwoOpcode::J1, .. },
        m[o].end_offset < d.len(),
    ensures
        m.contains_key(m[o].end_offset),
{
    let k = m[o].kind.view();
    let end = m[o].end_offset;
    let s = succ_of(d, m[o]);
    assert(s is Ok);
    let succ = s->Ok_0;
    assert(covered_by(succ, m, Seq::empty()));
    let args = k->Command_arguments;
    match last_offset(args) {
        Some(t) => {
            assert(succ == seq![t as usize] + seq![end]);
            assert(succ[1] == end);
            assert(m.contains_key(succ[1]) || Seq::<usize>::empty().contains(succ[1]));
        },
        None => {},
    }
}

/// Whatever covering set holds the entry point holds every decoded offset
/// of `r`.
pub open spec fn least_cover(d: Seq<u8>, r: Map<usize, Instruction>) -> bool {
    forall|m: Map<usize, Instruction>| m.contains_key(MES_CODE_OFFSET) && #[trigger] flow_covered(d, m) ==> forall|o: usize|
        #[trigger] r.contains_key(o) ==> m.contains_key(o)
}

/// Whatever covering set holds the entry point holds every queued offset
/// and every decoded one.
spec fn inside_every_cover(d: Seq<u8>, p: Seq<usize>, r: Map<usize, Instruction>) -> bool {
    forall|m: Map<usize, Instruction>| m.contains_key(MES_CODE_OFFSET) && #[trigger] flow_covered(d, m) ==> {
        &&& forall|i: int| 0 <= i < p.len() ==> m.contains_key(#[trigger] p[i])
        &&& forall|o: usize| #[trigger] r.contains_key(o) ==> m.contains_key(o)
    }
}

proof fn lemma_every_cover_pop(d: Seq<u8>, p: Seq<usize>, r: Map<usize, Instruction>)
    requires
        p.len() > 0,
        inside_every_cover(d, p, r),
    ensures
        inside_every_cover(d, p.subrange(1, p.len() as int), r),
{
    let q = p.subrange(1, p.len() as int);
    assert forall|m: Map<usize, Instruction>| m.contains_key(MES_CODE_OFFSET) && #[trigger] flow_covered(d, m) implies {
        &&& forall|i: int| 0 <= i < q.len() ==> m.contains_key(#[trigger] q[i])
        &&& forall|o: usize| #[trigger] r.contains_key(o) ==> m.contains_key(o)
    } by {
        assert forall|i: int| 0 <= i < q.len() implies m.contains_key(#[trigger] q[i]) by {
            assert(q[i] == p[i + 1]);
        }
    }
}

proof fn lemma_every_cover_step(d: Seq<u8>, p: Seq<usize>, r: Map<usize, Instruction>, ins: Instruction)
    requires
        p.len() > 0,
        inside_every_cover(d, p, r),
        spec_decode(d, p[0] as int) == Some((ins.kind.view(), ins.end_offset as int)),
        succ_of(d, ins) is Ok,
    ensures
        inside_every_cover(d, p.subrange(1, p.len() as int) + succ_of(d, ins)->Ok_0, r.insert(p[0], ins)),
{
    let p2 = p.subrange(1, p.len() as int) + succ_of(d, ins)->Ok_0;
    let r2 = r.insert(p[0], ins);
    assert forall|m: Map<usize, Instruction>| m.contains_key(MES_CODE_OFFSET) && #[trigger] flow_covered(d, m) implies {
        &&& forall|i: int| 0 <= i < p2.len() ==> m.contains_key(#[trigger] p2[i])
        &&& forall|o: usize| #[trigger] r2.contains_key(o) ==> m.contains_key(o)
    } by {
        lemma_good_step(d, m, p, ins);
        assert(m.contains_key(p[0]));
    }
}

fn push_successors(program: &MesProgram, pending: &mut VecDeque<usize>, instruction: &Instruction) -> (res: Result<(), DisasmError>)
    requires
        instruction.end_offset <= program.view_bytes().len(),
    ensures
        match successors(program.view_bytes().len() as int, instruction.kind.view(), instruction.end_offset) {
            Ok(s) => res is Ok && final(pending)@ == old(pending)@ + s,
            Err(e) => res == Err::<(), DisasmError>(e) && final(pending)@ == old(pending)@,
        },
        res is Ok ==> {
            &&& forall|x: usize| old(pending)@.contains(x) ==> final(pending)@.contains(x)
            &&& final(pending)@.len() <= old(pending)@.len() + 2
            &&& falls_through(instruction.kind.view()) && instruction.end_offset < program.view_bytes().len()
                ==> final(pending)@.contains(instruction.end_offset)
            &&& branch_target(instruction.kind.view()) is Some ==> 0 <= branch_target(instruction.kind.view()).unwrap() <= usize::MAX
                && final(pending)@.contains(branch_target(instruction.kind.view()).unwrap() as usize)
        },
{
    let len = program.len();
    let fallthrough = instruction.end_offset;
    let ghost kv = instruction.kind.view();
    let mut push_fallthrough = true;
    let ghost before_push = pending@;
    match &instruction.kind {
        InstructionKind::End | InstructionKind::Return { .. } => {
            push_fallthrough = false;
        },
        InstructionKind::BlockCall { target } => {
            push_target(program, pending, *target as usize)?;
            proof { lemma_push_keeps(before_push, *target as usize); }
        },
        InstructionKind::Command { opcode, arguments } => {
            match opcode {
                TwoOpcode::J0 => {
                    let t = argument_offset(arguments)?;
                    push_target(program, pending, t)?;
                    proof { lemma_push_keeps(before_push, t); }
                    push_fallthrough = false;
                },
                TwoOpcode::J1 | TwoOpcode::L0 | TwoOpcode::L1 | TwoOpcode::L2 | TwoOpcode::L3
                | TwoOpcode::L4 | TwoOpcode::L5 => {
                    let t = argument_offset(arguments)?;
                    push_target(program, pending, t)?;
                    proof { lemma_push_keeps(before_push, t); }
                },
                TwoOpcode::J3 => {
                    push_fallthrough = false;
                },
                _ => {},
            }
        },
        _ => {},
    }
    assert(push_fallthrough == falls_through(kv));
    assert(forall|x: usize| before_push.contains(x) ==> pending@.contains(x));
    let ghost after_target = pending@;
    if push_fallthrough && fallthrough < len {
        pending.push_back(fallthrough);
        proof { lemma_push_keeps(after_target, fallthrough); }
    }
    assert(forall|x: usize| after_target.contains(x) ==> pending@.contains(x));
    Ok(())
}

/// Decodes every instruction reachable from the entry point along the
/// control flow of UK2's recursive interpreter.  Data behind an unreachable
/// block terminator is not taken for bytecode.
#[verifier::rlimit(100)]
pub fn disassemble_reachable(program: &MesProgram) -> (res: Result<BTreeMap<usize, Instruction>, DisasmError>)
    ensures
        res is Ok ==> res.unwrap()@.contains_key(MES_CODE_OFFSET) && closed_under_flow(
            program.view_bytes(),
            res.unwrap()@,
        ) && flow_covered(program.view_bytes(), res.unwrap()@) && least_cover(program.view_bytes(), res.unwrap()@),
        res is Ok <==> exists|m: Map<usize, Instruction>| m.contains_key(MES_CODE_OFFSET) && #[trigger] flow_covered(
            program.view_bytes(),
            m,
        ),
{
    let ghost d = program.view_bytes();
    let len = program.len();
    let mut pending: VecDeque<usize> = VecDeque::new();
    pending.push_back(MES_CODE_OFFSET);
    assert(pending@[0] == MES_CODE_OFFSET);
    let mut instructions: BTreeMap<usize, Instruction> = BTreeMap::new();
    let ghost mut visited: Set<int> = Set::empty();
    let ghost range: Set<int> = vstd::set_lib::set_int_range(0, len as int);
    let ghost good = exists|m: Map<usize, Instruction>| m.contains_key(MES_CODE_OFFSET) && #[trigger] flow_covered(d, m);
    let ghost gm = choose|m: Map<usize, Instruction>| m.contains_key(MES_CODE_OFFSET) && #[trigger] flow_covered(d, m);
    proof {
        vstd::set_lib::lemma_int_range(0, len as int);
    }
    loop
        invariant
            len == d.len(),
            d == program.view_bytes(),
            forall|o: usize| #[trigger] instructions@.contains_key(o) <==> visited.contains(o as int),
            visited.finite(),
            visited.subset_of(range),
            range.finite(),
            range.len() == len,
            range == vstd::set_lib::set_int_range(0, len as int),
            forall|o: usize| #[trigger] instructions@.contains_key(o) ==> {
                &&& MES_CODE_OFFSET <= o < d.len()
                &&& instructions@[o].offset == o
                &&& spec_decode(d, o as int) == Some((instructions@[o].kind.view(), instructions@[o].end_offset as int))
            },
            forall|o: usize| #[trigger] instructions@.contains_key(o) && falls_through(instructions@[o].kind.view())
                && instructions@[o].end_offset < d.len() ==> instructions@.contains_key(instructions@[o].end_offset)
                || pending@.contains(instructions@[o].end_offset),
            forall|o: usize| #[trigger] instructions@.contains_key(o) && branch_target(instructions@[o].kind.view()) is Some
                ==> 0 <= branch_target(instructions@[o].kind.view()).unwrap() <= usize::MAX && (instructions@.contains_key(
                branch_target(instructions@[o].kind.view()).unwrap() as usize) || pending@.contains(
                branch_target(instructions@[o].kind.view()).unwrap() as usize)),
            instructions@.contains_key(MES_CODE_OFFSET) || pending@.contains(MES_CODE_OFFSET),
            forall|o: usize| #[trigger] instructions@.contains_key(o) ==> succ_of(d, instructions@[o]) is Ok && covered_by(
                succ_of(d, instructions@[o])->Ok_0,
                instructions@,
                pending@,
            ),
            good == (exists|m: Map<usize, Instruction>| m.contains_key(MES_CODE_OFFSET) && #[trigger] flow_covered(d, m)),
            good ==> gm.contains_key(MES_CODE_OFFSET) && flow_covered(d, gm),
            inside_every_cover(d, pending@, instructions@),
        decreases (len - visited.len()) * 3 + pending@.len(),
    {
        proof {
            vstd::set_lib::lemma_len_subset(visited, range);
        }
        let ghost old_pending = pending@;
        let offset = match pending.pop_front() {
            Some(o) => o,
            None => {
                assert forall|o: usize| #[trigger] instructions@.contains_key(o) && falls_through(instructions@[o].kind.view())
                    && instructions@[o].end_offset < d.len() implies instructions@.contains_key(instructions@[o].end_offset) by {
                    assert(!pending@.contains(instructions@[o].end_offset));
                }
                assert forall|o: usize| #[trigger] instructions@.contains_key(o) && branch_target(instructions@[o].kind.view()) is Some
                    implies 0 <= branch_target(instructions@[o].kind.view()).unwrap() <= usize::MAX && instructions@.contains_key(
                    branch_target(instructions@[o].kind.view()).unwrap() as usize) by {
                    assert(!pending@.contains(branch_target(instructions@[o].kind.view()).unwrap() as usize));
                }
                assert(pending@ =~= Seq::<usize>::empty());
                assert(flow_covered(d, instructions@));
                assert(least_cover(d, instructions@));
                return Ok(instructions);
            },
        };
        proof { lemma_pop_keeps(old_pending); }
        assert(good ==> gm.contains_key(offset) && forall|i: int| 0 <= i < old_pending.len() ==> gm.contains_key(
            #[trigger] old_pending[i],
        )) by {
            if good {
                assert(flow_covered(d, gm));
                assert(gm.contains_key(old_pending[0]));
            }
        }
        proof { lemma_every_cover_pop(d, old_pending, instructions@); }
        if instructions.contains_key(&offset) {
            proof { lemma_cover_pop(d, instructions@, old_pending); }
            continue;
        }
        if offset < MES_CODE_OFFSET || offset >= len {
            return Err(DisasmError::EdgeOutside(offset));
        }
        let instruction = decode_instruction(program, offset)?;
        let ghost before_push = pending@;
        proof {
            if good {
                lemma_good_step(d, gm, old_pending, instruction);
                assert(before_push == old_pending.subrange(1, old_pending.len() as int));
            }
        }
        push_successors(program, &mut pending, &instruction)?;
        proof {
            lemma_cover_step(d, instructions@, old_pending, instruction, succ_of(d, instruction)->Ok_0);
            lemma_every_cover_step(d, old_pending, instructions@, instruction);
        }
        instructions.insert(offset, instruction);
        proof {
            let ghost v0 = visited;
            assert(!v0.contains(offset as int));
            visited = visited.insert(offset as int);
            assert(visited.len() == v0.len() + 1);
            vstd::set_lib::lemma_len_subset(visited, range);
        }
    }
}

} // verus!
