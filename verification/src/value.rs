//! UK2 operand, expression, and condition encoding (`sub_14FFA`,
//! `sub_15222`, `sub_1542C` of `UK2.EXE`).
use vstd::prelude::*;

use crate::mes::{MesError, MesReader, le16};

verus! {

/// One operand as encoded in MES bytecode.
#[derive(Debug, PartialEq, Eq)]
pub enum Operand {
    /// Class 0, indices 0..30: DS:3B62 + index * 2.
    SystemWord(u8),
    /// Class 0, index 31: inline little-endian immediate.
    Immediate(u16),
    /// Class 1: fixed 0x3e-byte string slot.
    FixedString(u8),
    /// Class 2: word in the current local table.
    LocalWord(u8),
    /// Class 3: inline string assembled until a zero byte.
    InlineString(Vec<InlineStringPart>),
    /// Class 4: byte table chosen by the low five bits, indexed by a nested
    /// expression.
    IndexedByte { selector: u8, index: Box<Expression> },
    /// Class 5: entry of the engine's far-pointer table.
    Indirect { kind: IndirectKind, slot: u8 },
    /// Class 6: 0x7d2-byte string slot.
    LargeString(u8),
}

#[derive(Debug, Clone, PartialEq, Eq)]
pub enum InlineStringPart {
    Literal(Vec<u8>),
    /// Marker byte 0x05 followed by a one-based slot number.
    Table5Slot(u8),
    /// Marker byte 0x06 followed by a one-based slot number.
    Table6Slot(u8),
}

#[derive(Debug, Clone, Copy, PartialEq, Eq)]
pub enum IndirectKind {
    Byte,
    Word,
    String,
    Raw(u8),
}

#[derive(Debug, Clone, Copy, PartialEq, Eq)]
pub enum ExpressionOp {
    Add,
    Subtract,
    Multiply,
    Divide,
    Modulo,
    Assign,
}

#[derive(Debug, PartialEq, Eq)]
pub struct ExpressionTerm {
    pub op: ExpressionOp,
    pub operand: Operand,
}

#[derive(Debug, PartialEq, Eq)]
pub struct Expression {
    pub terms: Vec<ExpressionTerm>,
}

#[derive(Debug, Clone, Copy, PartialEq, Eq)]
pub enum CompareOp {
    Less,
    Greater,
    Equal,
    NotEqual,
}

#[derive(Debug, Clone, Copy, PartialEq, Eq)]
pub enum BoolJoin {
    And,
    Or,
}

#[derive(Debug, PartialEq, Eq)]
pub struct ConditionClause {
    pub left: Expression,
    pub compare: CompareOp,
    pub right: Expression,
    pub join_after: Option<BoolJoin>,
}

#[derive(Debug, PartialEq, Eq)]
pub struct Condition {
    pub clauses: Vec<ConditionClause>,
}

/// Errors of the operand/expression/condition decoder.
#[derive(Debug, Clone, Copy, PartialEq, Eq)]
pub enum ValueError {
    /// The byte stream ended.
    Truncated,
    /// Operand class 7.
    InvalidOperandClass,
    /// A class-4 operand whose nested expression is the null marker.
    NullNestedExpression,
    /// Expression operation 6 or above 7.
    InvalidExpressionOp(u8),
    /// Comparison code outside 1..4.
    InvalidCompare(u8),
    /// Connector outside 0..2.
    InvalidJoin(u8),
    /// A required expression was the null marker.
    MissingExpression,
}

// ---- mathematical model ---------------------------------------------------

pub enum InlineStringPartV {
    Literal(Seq<u8>),
    Table5Slot(u8),
    Table6Slot(u8),
}

pub enum OperandV {
    SystemWord(u8),
    Immediate(u16),
    FixedString(u8),
    LocalWord(u8),
    InlineString(Seq<InlineStringPartV>),
    IndexedByte { selector: u8, index: ExpressionV },
    Indirect { kind: IndirectKind, slot: u8 },
    LargeString(u8),
}

pub struct TermV {
    pub op: ExpressionOp,
    pub operand: OperandV,
}

pub struct ExpressionV {
    pub terms: Seq<TermV>,
}

pub struct ClauseV {
    pub left: ExpressionV,
    pub compare: CompareOp,
    pub right: ExpressionV,
    pub join_after: Option<BoolJoin>,
}

impl InlineStringPart {
    pub open spec fn view(&self) -> InlineStringPartV {
        match self {
            InlineStringPart::Literal(b) => InlineStringPartV::Literal(b@),
            InlineStringPart::Table5Slot(s) => InlineStringPartV::Table5Slot(*s),
            InlineStringPart::Table6Slot(s) => InlineStringPartV::Table6Slot(*s),
        }
    }
}

pub open spec fn parts_view(parts: Seq<InlineStringPart>) -> Seq<InlineStringPartV> {
    Seq::new(parts.len(), |i: int| parts[i].view())
}

impl Operand {
    pub open spec fn view(&self) -> OperandV
        decreases self,
    {
        match self {
            Operand::SystemWord(i) => OperandV::SystemWord(*i),
            Operand::Immediate(v) => OperandV::Immediate(*v),
            Operand::FixedString(i) => OperandV::FixedString(*i),
            Operand::LocalWord(i) => OperandV::LocalWord(*i),
            Operand::InlineString(p) => OperandV::InlineString(parts_view(p@)),
            Operand::IndexedByte { selector, index } => {
                proof {
                    broadcast use vstd::std_specs::vec::axiom_vec_decreases_to_view;

                    assert(decreases_to!(index.terms => index.terms@));
                }
                OperandV::IndexedByte {
                    selector: *selector,
                    index: ExpressionV { terms: terms_view(index.terms@) },
                }
            },
            Operand::Indirect { kind, slot } => OperandV::Indirect { kind: *kind, slot: *slot },
            Operand::LargeString(i) => OperandV::LargeString(*i),
        }
    }
}

pub open spec fn terms_view(terms: Seq<ExpressionTerm>) -> Seq<TermV>
    decreases terms,
{
    Seq::new(
        terms.len(),
        |i: int|
            if 0 <= i < terms.len() {
                proof {
                    assert(decreases_to!(terms => terms[i]));
                }
                TermV { op: terms[i].op, operand: terms[i].operand.view() }
            } else {
                TermV { op: ExpressionOp::Assign, operand: OperandV::SystemWord(0) }
            },
    )
}

impl Expression {
    pub open spec fn view(&self) -> ExpressionV {
        ExpressionV { terms: terms_view(self.terms@) }
    }
}


impl ConditionClause {
    pub open spec fn view(&self) -> ClauseV {
        ClauseV {
            left: self.left.view(),
            compare: self.compare,
            right: self.right.view(),
            join_after: self.join_after,
        }
    }
}

pub open spec fn clauses_view(c: Seq<ConditionClause>) -> Seq<ClauseV> {
    Seq::new(c.len(), |i: int| c[i].view())
}

pub open spec fn exprs_view(e: Seq<Expression>) -> Seq<ExpressionV> {
    Seq::new(e.len(), |i: int| e[i].view())
}

// ---- the encoding, as a function of the bytes -------------------------------

/// Class-5 kind selected by the low five bits.
pub open spec fn indirect_kind(index: u8) -> IndirectKind {
    if index == 0 {
        IndirectKind::Byte
    } else if index == 1 {
        IndirectKind::Word
    } else if index == 2 {
        IndirectKind::String
    } else {
        IndirectKind::Raw(index)
    }
}

/// Expression operation codes 1..5 and 7.
pub open spec fn expression_op(code: u8) -> Option<ExpressionOp> {
    if code == 1 {
        Some(ExpressionOp::Add)
    } else if code == 2 {
        Some(ExpressionOp::Subtract)
    } else if code == 3 {
        Some(ExpressionOp::Multiply)
    } else if code == 4 {
        Some(ExpressionOp::Divide)
    } else if code == 5 {
        Some(ExpressionOp::Modulo)
    } else if code == 7 {
        Some(ExpressionOp::Assign)
    } else {
        None
    }
}

pub open spec fn compare_op(code: u8) -> Option<CompareOp> {
    if code == 1 {
        Some(CompareOp::Less)
    } else if code == 2 {
        Some(CompareOp::Greater)
    } else if code == 3 {
        Some(CompareOp::Equal)
    } else if code == 4 {
        Some(CompareOp::NotEqual)
    } else {
        None
    }
}

pub open spec fn push_literal(parts: Seq<InlineStringPartV>, literal: Seq<u8>) -> Seq<InlineStringPartV> {
    if literal.len() == 0 {
        parts
    } else {
        parts.push(InlineStringPartV::Literal(literal))
    }
}

/// The inline-string body at `at`: parts so far, pending literal.
pub open spec fn spec_inline(d: Seq<u8>, at: int, parts: Seq<InlineStringPartV>, literal: Seq<u8>) -> Option<(Seq<InlineStringPartV>, int)>
    decreases d.len() - at,
{
    if at < 0 || at >= d.len() {
        None
    } else if d[at] == 0 {
        Some((push_literal(parts, literal), at + 1))
    } else if d[at] == 5 || d[at] == 6 {
        if at + 1 >= d.len() {
            None
        } else {
            let slot = d[at + 1];
            let part = if d[at] == 5 {
                InlineStringPartV::Table5Slot(slot)
            } else {
                InlineStringPartV::Table6Slot(slot)
            };
            spec_inline(d, at + 2, push_literal(parts, literal).push(part), Seq::empty())
        }
    } else {
        spec_inline(d, at + 1, parts, literal.push(d[at]))
    }
}

/// The operand encoded at `at`, and the position after it.
pub open spec fn spec_operand(d: Seq<u8>, at: int) -> Option<(OperandV, int)>
    decreases d.len() - at, 1int,
{
    if at < 0 || at >= d.len() {
        None
    } else {
        let encoded = d[at];
        let class = encoded / 32;
        let index = encoded % 32;
        if class == 0 {
            if index == 0x1f {
                if at + 3 <= d.len() {
                    Some((OperandV::Immediate(le16(d[at + 1], d[at + 2])), at + 3))
                } else {
                    None
                }
            } else {
                Some((OperandV::SystemWord(index), at + 1))
            }
        } else if class == 1 {
            Some((OperandV::FixedString(index), at + 1))
        } else if class == 2 {
            Some((OperandV::LocalWord(index), at + 1))
        } else if class == 3 {
            match spec_inline(d, at + 1, Seq::empty(), Seq::empty()) {
                Some((parts, p)) => Some((OperandV::InlineString(parts), p)),
                None => None,
            }
        } else if class == 4 {
            match spec_terms(d, at + 1, Seq::empty()) {
                Some((Some(e), p)) => Some((OperandV::IndexedByte { selector: index, index: e }, p)),
                _ => None,
            }
        } else if class == 5 {
            if at + 2 <= d.len() {
                Some((OperandV::Indirect { kind: indirect_kind(index), slot: d[at + 1] }, at + 2))
            } else {
                None
            }
        } else if class == 6 {
            Some((OperandV::LargeString(index), at + 1))
        } else {
            None
        }
    }
}

/// An expression at `at` (after `acc` terms): `Some(None)` is the null marker.
pub open spec fn spec_terms(d: Seq<u8>, at: int, acc: Seq<TermV>) -> Option<(Option<ExpressionV>, int)>
    decreases d.len() - at, 0int,
{
    if at < 0 || at >= d.len() {
        None
    } else {
        let control = d[at];
        let last = control >= 0x80;
        let code = control % 128;
        if code == 0 {
            Some((None, at + 1))
        } else {
            match expression_op(code) {
                None => None,
                Some(op) => match spec_operand(d, at + 1) {
                    None => None,
                    Some((x, p)) => {
                        let acc2 = acc.push(TermV { op, operand: x });
                        if last {
                            Some((Some(ExpressionV { terms: acc2 }), p))
                        } else if p <= at || p > d.len() {
                            None
                        } else {
                            spec_terms(d, p, acc2)
                        }
                    },
                },
            }
        }
    }
}

pub open spec fn spec_expression(d: Seq<u8>, at: int) -> Option<(Option<ExpressionV>, int)> {
    spec_terms(d, at, Seq::empty())
}

/// A required expression: the null marker is an error.
pub open spec fn spec_required_expression(d: Seq<u8>, at: int) -> Option<(ExpressionV, int)> {
    match spec_expression(d, at) {
        Some((Some(e), p)) => Some((e, p)),
        _ => None,
    }
}

/// At most `max - acc.len()` further expressions, stopping at a null marker.
pub open spec fn spec_expression_list(d: Seq<u8>, at: int, max: int, acc: Seq<ExpressionV>) -> Option<(Seq<ExpressionV>, int)>
    decreases max - acc.len(),
{
    if acc.len() >= max {
        Some((acc, at))
    } else {
        match spec_expression(d, at) {
            None => None,
            Some((None, p)) => Some((acc, p)),
            Some((Some(e), p)) => spec_expression_list(d, p, max, acc.push(e)),
        }
    }
}

/// Condition clauses from `at`, after `acc`.
pub open spec fn spec_clauses(d: Seq<u8>, at: int, acc: Seq<ClauseV>) -> Option<(Seq<ClauseV>, int)>
    decreases d.len() - at,
{
    match spec_required_expression(d, at) {
        None => None,
        Some((left, p1)) => if p1 < 0 || p1 >= d.len() {
            None
        } else {
            match compare_op(d[p1]) {
                None => None,
                Some(compare) => match spec_required_expression(d, p1 + 1) {
                    None => None,
                    Some((right, p2)) => if p2 < 0 || p2 >= d.len() {
                        None
                    } else {
                        let j = d[p2];
                        if j > 2 {
                            None
                        } else {
                            let join_after = if j == 0 {
                                None
                            } else if j == 1 {
                                Some(BoolJoin::And)
                            } else {
                                Some(BoolJoin::Or)
                            };
                            let acc2 = acc.push(ClauseV { left, compare, right, join_after });
                            if j == 0 {
                                Some((acc2, p2 + 1))
                            } else if p2 + 1 <= at || p2 + 1 > d.len() {
                                None
                            } else {
                                spec_clauses(d, p2 + 1, acc2)
                            }
                        }
                    },
                },
            }
        },
    }
}

pub open spec fn spec_condition(d: Seq<u8>, at: int) -> Option<(Seq<ClauseV>, int)> {
    spec_clauses(d, at, Seq::empty())
}

// ---- the decoder --------------------------------------------------------------

fn byte_of(reader: &mut MesReader<'_>) -> (res: Result<u8, ValueError>)
    requires
        old(reader).valid(),
    ensures
        final(reader).valid(),
        final(reader).data() == old(reader).data(),
        old(reader).pos() < old(reader).data().len() ==> res == Ok::<u8, ValueError>(
            old(reader).data()[old(reader).pos()],
        ) && final(reader).pos() == old(reader).pos() + 1,
        old(reader).pos() >= old(reader).data().len() ==> res is Err,
{
    match reader.byte() {
        Ok(b) => Ok(b),
        Err(_) => Err(ValueError::Truncated),
    }
}

/// Decodes one operand.
pub fn parse_operand(reader: &mut MesReader<'_>) -> (res: Result<Operand, ValueError>)
    requires
        old(reader).valid(),
    ensures
        final(reader).valid(),
        final(reader).data() == old(reader).data(),
        spec_operand(old(reader).data(), old(reader).pos()) == (match res {
            Ok(v) => Some((v.view(), final(reader).pos())),
            Err(_) => None::<(OperandV, int)>,
        }),
        res is Ok ==> final(reader).pos() > old(reader).pos(),
    decreases old(reader).data().len() - old(reader).pos(), 1int,
{
    let ghost d = reader.data();
    let ghost at = reader.pos();
    proof { reader.lemma_valid(); }
    let encoded = byte_of(reader)?;
    let class = encoded / 32;
    let index = encoded % 32;
    if class == 0 {
        if index == 0x1f {
            match reader.u16() {
                Ok(v) => Ok(Operand::Immediate(v)),
                Err(_) => Err(ValueError::Truncated),
            }
        } else {
            Ok(Operand::SystemWord(index))
        }
    } else if class == 1 {
        Ok(Operand::FixedString(index))
    } else if class == 2 {
        Ok(Operand::LocalWord(index))
    } else if class == 3 {
        parse_inline_string(reader)
    } else if class == 4 {
        match parse_expression(reader)? {
            Some(e) => Ok(Operand::IndexedByte { selector: index, index: Box::new(e) }),
            None => Err(ValueError::NullNestedExpression),
        }
    } else if class == 5 {
        let kind = if index == 0 {
            IndirectKind::Byte
        } else if index == 1 {
            IndirectKind::Word
        } else if index == 2 {
            IndirectKind::String
        } else {
            IndirectKind::Raw(index)
        };
        let slot = byte_of(reader)?;
        Ok(Operand::Indirect { kind, slot })
    } else if class == 6 {
        Ok(Operand::LargeString(index))
    } else {
        Err(ValueError::InvalidOperandClass)
    }
}

fn flush_literal(parts: &mut Vec<InlineStringPart>, literal: &mut Vec<u8>)
    ensures
        parts_view(final(parts)@) == push_literal(parts_view(old(parts)@), old(literal)@),
        final(literal)@.len() == 0,
{
    if literal.len() > 0 {
        let mut taken: Vec<u8> = Vec::new();
        std::mem::swap(&mut taken, literal);
        parts.push(InlineStringPart::Literal(taken));
        assert(parts_view(parts@) =~= parts_view(old(parts)@).push(InlineStringPartV::Literal(old(literal)@)));
    } else {
        assert(old(literal)@ =~= Seq::<u8>::empty());
    }
}

fn parse_inline_string(reader: &mut MesReader<'_>) -> (res: Result<Operand, ValueError>)
    requires
        old(reader).valid(),
    ensures
        final(reader).valid(),
        final(reader).data() == old(reader).data(),
        spec_inline(old(reader).data(), old(reader).pos(), Seq::empty(), Seq::empty()) == (match res {
            Ok(Operand::InlineString(p)) => Some((parts_view(p@), final(reader).pos())),
            _ => None::<(Seq<InlineStringPartV>, int)>,
        }),
        res is Ok ==> res.unwrap() is InlineString && final(reader).pos() > old(reader).pos(),
{
    let mut parts: Vec<InlineStringPart> = Vec::new();
    let mut literal: Vec<u8> = Vec::new();
    let ghost d = reader.data();
    let ghost start = reader.pos();
    assert(parts_view(parts@) =~= Seq::<InlineStringPartV>::empty());
    loop
        invariant
            reader.valid(),
            reader.data() == d,
            d == old(reader).data(),
            start == old(reader).pos(),
            reader.pos() >= start,
            spec_inline(d, start, Seq::empty(), Seq::empty()) == spec_inline(d, reader.pos(), parts_view(parts@), literal@),
        decreases d.len() - reader.pos(),
    {
        proof { reader.lemma_valid(); }
        let byte = byte_of(reader)?;
        if byte == 0 {
            flush_literal(&mut parts, &mut literal);
            return Ok(Operand::InlineString(parts));
        } else if byte == 5 || byte == 6 {
            flush_literal(&mut parts, &mut literal);
            let slot = byte_of(reader)?;
            let part = if byte == 5 {
                InlineStringPart::Table5Slot(slot)
            } else {
                InlineStringPart::Table6Slot(slot)
            };
            let ghost before = parts_view(parts@);
            parts.push(part);
            assert(parts_view(parts@) =~= before.push(part.view()));
            assert(literal@ =~= Seq::<u8>::empty());
        } else {
            literal.push(byte);
        }
    }
}

/// Decodes one expression; `None` is the null list marker.
pub fn parse_expression(reader: &mut MesReader<'_>) -> (res: Result<Option<Expression>, ValueError>)
    requires
        old(reader).valid(),
    ensures
        final(reader).valid(),
        final(reader).data() == old(reader).data(),
        spec_expression(old(reader).data(), old(reader).pos()) == (match res {
            Ok(Some(e)) => Some((Some(e.view()), final(reader).pos())),
            Ok(None) => Some((None, final(reader).pos())),
            Err(_) => None::<(Option<ExpressionV>, int)>,
        }),
        res is Ok ==> final(reader).pos() > old(reader).pos(),
    decreases old(reader).data().len() - old(reader).pos(), 0int,
{
    let ghost d = reader.data();
    let ghost start = reader.pos();
    let mut terms: Vec<ExpressionTerm> = Vec::new();
    assert(terms_view(terms@) =~= Seq::<TermV>::empty());
    loop
        invariant
            reader.valid(),
            reader.data() == d,
            d == old(reader).data(),
            start == old(reader).pos(),
            reader.pos() >= start,
            spec_terms(d, start, Seq::empty()) == spec_terms(d, reader.pos(), terms_view(terms@)),
        decreases d.len() - reader.pos(),
    {
        proof { reader.lemma_valid(); }
        let ghost at = reader.pos();
        let control = byte_of(reader)?;
        let last = control >= 0x80;
        let code = control % 128;
        if code == 0 {
            return Ok(None);
        }
        let op = if code == 1 {
            ExpressionOp::Add
        } else if code == 2 {
            ExpressionOp::Subtract
        } else if code == 3 {
            ExpressionOp::Multiply
        } else if code == 4 {
            ExpressionOp::Divide
        } else if code == 5 {
            ExpressionOp::Modulo
        } else if code == 7 {
            ExpressionOp::Assign
        } else {
            return Err(ValueError::InvalidExpressionOp(code));
        };
        let operand = parse_operand(reader)?;
        let ghost before = terms_view(terms@);
        let ghost ov = operand.view();
        terms.push(ExpressionTerm { op, operand });
        assert(terms_view(terms@) =~= before.push(TermV { op, operand: ov }));
        proof { reader.lemma_valid(); }
        if last {
            return Ok(Some(Expression { terms }));
        }
    }
}

/// Decodes an expression that must not be the null marker.
pub fn parse_required_expression(reader: &mut MesReader<'_>) -> (res: Result<Expression, ValueError>)
    requires
        old(reader).valid(),
    ensures
        final(reader).valid(),
        final(reader).data() == old(reader).data(),
        spec_required_expression(old(reader).data(), old(reader).pos()) == (match res {
            Ok(e) => Some((e.view(), final(reader).pos())),
            Err(_) => None::<(ExpressionV, int)>,
        }),
        res is Ok ==> final(reader).pos() > old(reader).pos(),
{
    match parse_expression(reader)? {
        Some(e) => Ok(e),
        None => Err(ValueError::MissingExpression),
    }
}

/// Up to `max` expressions, stopping after a null marker.
pub fn parse_expression_list(reader: &mut MesReader<'_>, max: usize) -> (res: Result<Vec<Expression>, ValueError>)
    requires
        old(reader).valid(),
    ensures
        final(reader).valid(),
        final(reader).data() == old(reader).data(),
        spec_expression_list(old(reader).data(), old(reader).pos(), max as int, Seq::empty()) == (match res {
            Ok(v) => Some((exprs_view(v@), final(reader).pos())),
            Err(_) => None::<(Seq<ExpressionV>, int)>,
        }),
        res is Ok ==> final(reader).pos() >= old(reader).pos(),
{
    let ghost d = reader.data();
    let ghost start = reader.pos();
    let mut expressions: Vec<Expression> = Vec::new();
    assert(exprs_view(expressions@) =~= Seq::<ExpressionV>::empty());
    while expressions.len() < max
        invariant
            reader.valid(),
            reader.data() == d,
            d == old(reader).data(),
            start == old(reader).pos(),
            reader.pos() >= start,
            expressions@.len() <= max,
            spec_expression_list(d, start, max as int, Seq::empty()) == spec_expression_list(d, reader.pos(), max as int, exprs_view(expressions@)),
        decreases max - expressions@.len(),
    {
        match parse_expression(reader)? {
            Some(e) => {
                let ghost before = exprs_view(expressions@);
                let ghost ev = e.view();
                expressions.push(e);
                assert(exprs_view(expressions@) =~= before.push(ev));
            },
            None => {
                return Ok(expressions);
            },
        }
    }
    Ok(expressions)
}

/// Decodes a condition: clauses joined by AND/OR codes until connector 0.
pub fn parse_condition(reader: &mut MesReader<'_>) -> (res: Result<Condition, ValueError>)
    requires
        old(reader).valid(),
    ensures
        final(reader).valid(),
        final(reader).data() == old(reader).data(),
        spec_condition(old(reader).data(), old(reader).pos()) == (match res {
            Ok(c) => Some((clauses_view(c.clauses@), final(reader).pos())),
            Err(_) => None::<(Seq<ClauseV>, int)>,
        }),
        res is Ok ==> final(reader).pos() > old(reader).pos(),
{
    let ghost d = reader.data();
    let ghost start = reader.pos();
    let mut clauses: Vec<ConditionClause> = Vec::new();
    assert(clauses_view(clauses@) =~= Seq::<ClauseV>::empty());
    loop
        invariant
            reader.valid(),
            reader.data() == d,
            d == old(reader).data(),
            start == old(reader).pos(),
            reader.pos() >= start,
            spec_clauses(d, start, Seq::empty()) == spec_clauses(d, reader.pos(), clauses_view(clauses@)),
        decreases d.len() - reader.pos(),
    {
        let ghost at = reader.pos();
        let left = parse_required_expression(reader)?;
        proof { reader.lemma_valid(); }
        let code = byte_of(reader)?;
        let compare = if code == 1 {
            CompareOp::Less
        } else if code == 2 {
            CompareOp::Greater
        } else if code == 3 {
            CompareOp::Equal
        } else if code == 4 {
            CompareOp::NotEqual
        } else {
            return Err(ValueError::InvalidCompare(code));
        };
        let right = parse_required_expression(reader)?;
        proof { reader.lemma_valid(); }
        let j = byte_of(reader)?;
        let join_after = if j == 0 {
            None
        } else if j == 1 {
            Some(BoolJoin::And)
        } else if j == 2 {
            Some(BoolJoin::Or)
        } else {
            return Err(ValueError::InvalidJoin(j));
        };
        let ghost before = clauses_view(clauses@);
        let clause = ConditionClause { left, compare, right, join_after };
        let ghost cv = clause.view();
        clauses.push(clause);
        assert(clauses_view(clauses@) =~= before.push(cv));
        if j == 0 {
            return Ok(Condition { clauses });
        }
    }
}


// ---- copies --------------------------------------------------------------------

impl InlineStringPart {
    /// A copy with the same model.
    pub fn duplicate(&self) -> (res: InlineStringPart)
        ensures
            res.view() == self.view(),
    {
        match self {
            InlineStringPart::Literal(b) => {
                let mut c: Vec<u8> = Vec::new();
                let mut i: usize = 0;
                while i < b.len()
                    invariant
                        i <= b@.len(),
                        c@ == b@.take(i as int),
                    decreases b@.len() - i,
                {
                    c.push(b[i]);
                    i = i + 1;
                    assert(c@ =~= b@.take(i as int));
                }
                assert(b@.take(i as int) =~= b@);
                InlineStringPart::Literal(c)
            },
            InlineStringPart::Table5Slot(s) => InlineStringPart::Table5Slot(*s),
            InlineStringPart::Table6Slot(s) => InlineStringPart::Table6Slot(*s),
        }
    }
}

impl Operand {
    /// A copy with the same model.
    pub fn duplicate(&self) -> (res: Operand)
        ensures
            res.view() == self.view(),
        decreases self, 0int,
    {
        match self {
            Operand::SystemWord(i) => Operand::SystemWord(*i),
            Operand::Immediate(v) => Operand::Immediate(*v),
            Operand::FixedString(i) => Operand::FixedString(*i),
            Operand::LocalWord(i) => Operand::LocalWord(*i),
            Operand::InlineString(parts) => {
                let mut c: Vec<InlineStringPart> = Vec::new();
                let mut i: usize = 0;
                while i < parts.len()
                    invariant
                        i <= parts@.len(),
                        parts_view(c@) == parts_view(parts@).take(i as int),
                    decreases parts@.len() - i,
                {
                    let ghost before = parts_view(c@);
                    let d = parts[i].duplicate();
                    let ghost dv = d.view();
                    c.push(d);
                    assert(parts_view(c@) =~= before.push(dv));
                    assert(parts_view(parts@).take(i + 1) =~= parts_view(parts@).take(i as int).push(parts_view(parts@)[i as int]));
                    i = i + 1;
                }
                assert(parts_view(parts@).take(i as int) =~= parts_view(parts@));
                Operand::InlineString(c)
            },
            Operand::IndexedByte { selector, index } => {
                let e = index.duplicate();
                Operand::IndexedByte { selector: *selector, index: Box::new(e) }
            },
            Operand::Indirect { kind, slot } => Operand::Indirect { kind: *kind, slot: *slot },
            Operand::LargeString(i) => Operand::LargeString(*i),
        }
    }
}

impl Expression {
    /// A copy with the same model.
    pub fn duplicate(&self) -> (res: Expression)
        ensures
            res.view() == self.view(),
        decreases self, 1int,
    {
        let mut terms: Vec<ExpressionTerm> = Vec::new();
        let mut i: usize = 0;
        while i < self.terms.len()
            invariant
                i <= self.terms@.len(),
                terms_view(terms@) == terms_view(self.terms@).take(i as int),
            decreases self.terms@.len() - i,
        {
            proof {
                broadcast use vstd::std_specs::vec::axiom_vec_decreases_to_view;
                assert(decreases_to!(self.terms => self.terms@));
                assert(decreases_to!(self.terms@ => self.terms@[i as int]));
            }
            let t = &self.terms[i];
            let operand = t.operand.duplicate();
            let ghost before = terms_view(terms@);
            let nt = ExpressionTerm { op: t.op, operand };
            let ghost tv = TermV { op: nt.op, operand: nt.operand.view() };
            terms.push(nt);
            assert(terms_view(terms@) =~= before.push(tv));
            assert(terms_view(self.terms@).take(i + 1) =~= terms_view(self.terms@).take(i as int).push(terms_view(self.terms@)[i as int]));
            i = i + 1;
        }
        assert(terms_view(self.terms@).take(i as int) =~= terms_view(self.terms@));
        Expression { terms }
    }
}

} // verus!
