//! Opcode tables of the UK2 MES interpreter (`sub_19640` / `jpt_19849`).
use vstd::prelude::*;

verus! {

/// One-byte instructions.
#[derive(Debug, Clone, Copy, PartialEq, Eq)]
pub enum SingleOpcode {
    /// 0x00: end of block.
    End,
    /// 0x01: operand = expression.
    Assign,
    /// 0x02: nested block, then continue at an absolute offset.
    BlockCall,
    /// 0x03: saturating decrement.
    Decrement,
    /// 0x04: saturating increment.
    Increment,
    /// `R` followed by an ASCII digit: return a status.
    Return,
}

/// The single opcode a byte denotes.
pub open spec fn spec_single(byte: u8) -> Option<SingleOpcode> {
    if byte == 0 {
        Some(SingleOpcode::End)
    } else if byte == 1 {
        Some(SingleOpcode::Assign)
    } else if byte == 2 {
        Some(SingleOpcode::BlockCall)
    } else if byte == 3 {
        Some(SingleOpcode::Decrement)
    } else if byte == 4 {
        Some(SingleOpcode::Increment)
    } else if byte == 0x52 {
        Some(SingleOpcode::Return)
    } else {
        None
    }
}

impl SingleOpcode {
    pub fn from_byte(byte: u8) -> (res: Option<SingleOpcode>)
        ensures
            res == spec_single(byte),
    {
        if byte == 0 {
            Some(SingleOpcode::End)
        } else if byte == 1 {
            Some(SingleOpcode::Assign)
        } else if byte == 2 {
            Some(SingleOpcode::BlockCall)
        } else if byte == 3 {
            Some(SingleOpcode::Decrement)
        } else if byte == 4 {
            Some(SingleOpcode::Increment)
        } else if byte == 0x52 {
            Some(SingleOpcode::Return)
        } else {
            None
        }
    }
}

/// One argument slot of a two-character command.
#[derive(Debug, Clone, Copy, PartialEq, Eq)]
pub enum SigToken {
    /// A direct operand.
    Direct,
    /// One required expression.
    Expression,
    /// A condition.
    Condition,
    /// A little-endian absolute offset.
    Offset,
    /// Expressions until the null marker.
    ExpressionsUntilNull,
    /// At most this many expressions, stopping at a null marker.
    ExpressionsAtMost(usize),
    /// Resource expressions, each with up to two argument expressions,
    /// until the null marker.
    ResourceList,
}

/// Two-character commands.
#[derive(Debug, Clone, Copy, PartialEq, Eq)]
pub enum TwoOpcode {
    A0,
    A1,
    A2,
    A3,
    A4,
    A5,
    A6,
    D0,
    D1,
    F0,
    F1,
    F4,
    F5,
    F6,
    F7,
    F8,
    F9,
    FA,
    FB,
    FC,
    FD,
    FE,
    FG,
    FH,
    FI,
    FJ,
    FK,
    I0,
    I1,
    I2,
    I3,
    I4,
    I5,
    J0,
    J1,
    J2,
    J3,
    L0,
    L1,
    L2,
    L3,
    L4,
    L5,
    M0,
    M1,
    M2,
    M3,
    M4,
    M5,
    T0,
    T1,
    U0,
    U1,
    U2,
    U3,
    U5,
    U6,
    U7,
    U8,
    U9,
    UB,
    UD,
    UE,
    UH,
    UI,
    UJ,
    UK,
    W1,
    W2,
    W3,
    W4,
    W5,
    W6,
    W7,
    W8,
    W9,
    WA,
    WB,
    WC,
    WD,
    WE,
    WF,
    WG,
    WH,
    WI,
    WJ,
    WK,
    WL,
}

/// The command spelled by two bytes.
pub open spec fn spec_pair(first: u8, second: u8) -> Option<TwoOpcode> {
    if first == 65 && second == 48 {
        Some(TwoOpcode::A0)
    } else if first == 65 && second == 49 {
        Some(TwoOpcode::A1)
    } else if first == 65 && second == 50 {
        Some(TwoOpcode::A2)
    } else if first == 65 && second == 51 {
        Some(TwoOpcode::A3)
    } else if first == 65 && second == 52 {
        Some(TwoOpcode::A4)
    } else if first == 65 && second == 53 {
        Some(TwoOpcode::A5)
    } else if first == 65 && second == 54 {
        Some(TwoOpcode::A6)
    } else if first == 68 && second == 48 {
        Some(TwoOpcode::D0)
    } else if first == 68 && second == 49 {
        Some(TwoOpcode::D1)
    } else if first == 70 && second == 48 {
        Some(TwoOpcode::F0)
    } else if first == 70 && second == 49 {
        Some(TwoOpcode::F1)
    } else if first == 70 && second == 52 {
        Some(TwoOpcode::F4)
    } else if first == 70 && second == 53 {
        Some(TwoOpcode::F5)
    } else if first == 70 && second == 54 {
        Some(TwoOpcode::F6)
    } else if first == 70 && second == 55 {
        Some(TwoOpcode::F7)
    } else if first == 70 && second == 56 {
        Some(TwoOpcode::F8)
    } else if first == 70 && second == 57 {
        Some(TwoOpcode::F9)
    } else if first == 70 && second == 65 {
        Some(TwoOpcode::FA)
    } else if first == 70 && second == 66 {
        Some(TwoOpcode::FB)
    } else if first == 70 && second == 67 {
        Some(TwoOpcode::FC)
    } else if first == 70 && second == 68 {
        Some(TwoOpcode::FD)
    } else if first == 70 && second == 69 {
        Some(TwoOpcode::FE)
    } else if first == 70 && second == 71 {
        Some(TwoOpcode::FG)
    } else if first == 70 && second == 72 {
        Some(TwoOpcode::FH)
    } else if first == 70 && second == 73 {
        Some(TwoOpcode::FI)
    } else if first == 70 && second == 74 {
        Some(TwoOpcode::FJ)
    } else if first == 70 && second == 75 {
        Some(TwoOpcode::FK)
    } else if first == 73 && second == 48 {
        Some(TwoOpcode::I0)
    } else if first == 73 && second == 49 {
        Some(TwoOpcode::I1)
    } else if first == 73 && second == 50 {
        Some(TwoOpcode::I2)
    } else if first == 73 && second == 51 {
        Some(TwoOpcode::I3)
    } else if first == 73 && second == 52 {
        Some(TwoOpcode::I4)
    } else if first == 73 && second == 53 {
        Some(TwoOpcode::I5)
    } else if first == 74 && second == 48 {
        Some(TwoOpcode::J0)
    } else if first == 74 && second == 49 {
        Some(TwoOpcode::J1)
    } else if first == 74 && second == 50 {
        Some(TwoOpcode::J2)
    } else if first == 74 && second == 51 {
        Some(TwoOpcode::J3)
    } else if first == 76 && second == 48 {
        Some(TwoOpcode::L0)
    } else if first == 76 && second == 49 {
        Some(TwoOpcode::L1)
    } else if first == 76 && second == 50 {
        Some(TwoOpcode::L2)
    } else if first == 76 && second == 51 {
        Some(TwoOpcode::L3)
    } else if first == 76 && second == 52 {
        Some(TwoOpcode::L4)
    } else if first == 76 && second == 53 {
        Some(TwoOpcode::L5)
    } else if first == 77 && second == 48 {
        Some(TwoOpcode::M0)
    } else if first == 77 && second == 49 {
        Some(TwoOpcode::M1)
    } else if first == 77 && second == 50 {
        Some(TwoOpcode::M2)
    } else if first == 77 && second == 51 {
        Some(TwoOpcode::M3)
    } else if first == 77 && second == 52 {
        Some(TwoOpcode::M4)
    } else if first == 77 && second == 53 {
        Some(TwoOpcode::M5)
    } else if first == 84 && second == 48 {
        Some(TwoOpcode::T0)
    } else if first == 84 && second == 49 {
        Some(TwoOpcode::T1)
    } else if first == 85 && second == 48 {
        Some(TwoOpcode::U0)
    } else if first == 85 && second == 49 {
        Some(TwoOpcode::U1)
    } else if first == 85 && second == 50 {
        Some(TwoOpcode::U2)
    } else if first == 85 && second == 51 {
        Some(TwoOpcode::U3)
    } else if first == 85 && second == 53 {
        Some(TwoOpcode::U5)
    } else if first == 85 && second == 54 {
        Some(TwoOpcode::U6)
    } else if first == 85 && second == 55 {
        Some(TwoOpcode::U7)
    } else if first == 85 && second == 56 {
        Some(TwoOpcode::U8)
    } else if first == 85 && second == 57 {
        Some(TwoOpcode::U9)
    } else if first == 85 && second == 66 {
        Some(TwoOpcode::UB)
    } else if first == 85 && second == 68 {
        Some(TwoOpcode::UD)
    } else if first == 85 && second == 69 {
        Some(TwoOpcode::UE)
    } else if first == 85 && second == 72 {
        Some(TwoOpcode::UH)
    } else if first == 85 && second == 73 {
        Some(TwoOpcode::UI)
    } else if first == 85 && second == 74 {
        Some(TwoOpcode::UJ)
    } else if first == 85 && second == 75 {
        Some(TwoOpcode::UK)
    } else if first == 87 && second == 49 {
        Some(TwoOpcode::W1)
    } else if first == 87 && second == 50 {
        Some(TwoOpcode::W2)
    } else if first == 87 && second == 51 {
        Some(TwoOpcode::W3)
    } else if first == 87 && second == 52 {
        Some(TwoOpcode::W4)
    } else if first == 87 && second == 53 {
        Some(TwoOpcode::W5)
    } else if first == 87 && second == 54 {
        Some(TwoOpcode::W6)
    } else if first == 87 && second == 55 {
        Some(TwoOpcode::W7)
    } else if first == 87 && second == 56 {
        Some(TwoOpcode::W8)
    } else if first == 87 && second == 57 {
        Some(TwoOpcode::W9)
    } else if first == 87 && second == 65 {
        Some(TwoOpcode::WA)
    } else if first == 87 && second == 66 {
        Some(TwoOpcode::WB)
    } else if first == 87 && second == 67 {
        Some(TwoOpcode::WC)
    } else if first == 87 && second == 68 {
        Some(TwoOpcode::WD)
    } else if first == 87 && second == 69 {
        Some(TwoOpcode::WE)
    } else if first == 87 && second == 70 {
        Some(TwoOpcode::WF)
    } else if first == 87 && second == 71 {
        Some(TwoOpcode::WG)
    } else if first == 87 && second == 72 {
        Some(TwoOpcode::WH)
    } else if first == 87 && second == 73 {
        Some(TwoOpcode::WI)
    } else if first == 87 && second == 74 {
        Some(TwoOpcode::WJ)
    } else if first == 87 && second == 75 {
        Some(TwoOpcode::WK)
    } else if first == 87 && second == 76 {
        Some(TwoOpcode::WL)
    } else {
        None
    }
}

/// The argument layout of each command.
pub open spec fn spec_signature(op: TwoOpcode) -> Seq<SigToken> {
    match op {
        TwoOpcode::A0 => seq![SigToken::Direct],
        TwoOpcode::A1 => seq![],
        TwoOpcode::A2 => seq![SigToken::Direct, SigToken::Direct, SigToken::Direct, SigToken::Direct, SigToken::Direct, SigToken::Direct],
        TwoOpcode::A3 => seq![SigToken::ExpressionsAtMost(20)],
        TwoOpcode::A4 => seq![SigToken::ExpressionsAtMost(20)],
        TwoOpcode::A5 => seq![SigToken::Direct],
        TwoOpcode::A6 => seq![],
        TwoOpcode::D0 => seq![SigToken::Expression, SigToken::ExpressionsUntilNull],
        TwoOpcode::D1 => seq![SigToken::Expression, SigToken::Expression],
        TwoOpcode::F0 => seq![SigToken::Direct],
        TwoOpcode::F1 => seq![SigToken::Expression, SigToken::Direct],
        TwoOpcode::F4 => seq![SigToken::Direct, SigToken::Direct, SigToken::Direct, SigToken::Expression, SigToken::Direct, SigToken::Direct],
        TwoOpcode::F5 => seq![SigToken::Expression],
        TwoOpcode::F6 => seq![SigToken::Direct],
        TwoOpcode::F7 => seq![SigToken::Direct],
        TwoOpcode::F8 => seq![SigToken::Expression],
        TwoOpcode::F9 => seq![SigToken::ExpressionsAtMost(3)],
        TwoOpcode::FA => seq![SigToken::ExpressionsAtMost(5)],
        TwoOpcode::FB => seq![SigToken::ExpressionsAtMost(5)],
        TwoOpcode::FC => seq![SigToken::ExpressionsAtMost(2)],
        TwoOpcode::FD => seq![SigToken::ExpressionsAtMost(2)],
        TwoOpcode::FE => seq![SigToken::Direct],
        TwoOpcode::FG => seq![SigToken::Direct],
        TwoOpcode::FH => seq![SigToken::ExpressionsAtMost(2), SigToken::Direct, SigToken::Direct, SigToken::Direct, SigToken::Direct, SigToken::Direct],
        TwoOpcode::FI => seq![SigToken::Direct],
        TwoOpcode::FJ => seq![SigToken::ExpressionsAtMost(3)],
        TwoOpcode::FK => seq![],
        TwoOpcode::I0 => seq![SigToken::Direct, SigToken::ExpressionsAtMost(8)],
        TwoOpcode::I1 => seq![],
        TwoOpcode::I2 => seq![],
        TwoOpcode::I3 => seq![SigToken::Direct, SigToken::ExpressionsAtMost(1)],
        TwoOpcode::I4 => seq![],
        TwoOpcode::I5 => seq![SigToken::Direct],
        TwoOpcode::J0 => seq![SigToken::Offset],
        TwoOpcode::J1 => seq![SigToken::Offset],
        TwoOpcode::J2 => seq![SigToken::Direct],
        TwoOpcode::J3 => seq![SigToken::Direct],
        TwoOpcode::L0 => seq![SigToken::Condition, SigToken::Offset],
        TwoOpcode::L1 => seq![SigToken::Condition, SigToken::Offset],
        TwoOpcode::L2 => seq![SigToken::Offset],
        TwoOpcode::L3 => seq![SigToken::Direct, SigToken::Expression, SigToken::Expression, SigToken::Expression, SigToken::Offset],
        TwoOpcode::L4 => seq![SigToken::Condition, SigToken::Offset],
        TwoOpcode::L5 => seq![SigToken::Condition, SigToken::Offset],
        TwoOpcode::M0 => seq![SigToken::Direct],
        TwoOpcode::M1 => seq![SigToken::ExpressionsAtMost(1)],
        TwoOpcode::M2 => seq![],
        TwoOpcode::M3 => seq![],
        TwoOpcode::M4 => seq![],
        TwoOpcode::M5 => seq![SigToken::ExpressionsAtMost(2)],
        TwoOpcode::T0 => seq![SigToken::ExpressionsUntilNull],
        TwoOpcode::T1 => seq![SigToken::ExpressionsUntilNull],
        TwoOpcode::U0 => seq![SigToken::Expression],
        TwoOpcode::U1 => seq![SigToken::ExpressionsAtMost(2)],
        TwoOpcode::U2 => seq![SigToken::Expression, SigToken::ExpressionsUntilNull],
        TwoOpcode::U3 => seq![SigToken::ExpressionsAtMost(2), SigToken::Direct],
        TwoOpcode::U5 => seq![SigToken::Direct, SigToken::Expression],
        TwoOpcode::U6 => seq![SigToken::Expression, SigToken::Expression],
        TwoOpcode::U7 => seq![SigToken::Expression],
        TwoOpcode::U8 => seq![SigToken::ExpressionsAtMost(2)],
        TwoOpcode::U9 => seq![SigToken::Direct],
        TwoOpcode::UB => seq![SigToken::Direct, SigToken::Direct],
        TwoOpcode::UD => seq![SigToken::Expression, SigToken::Direct],
        TwoOpcode::UE => seq![SigToken::Expression, SigToken::ResourceList],
        TwoOpcode::UH => seq![SigToken::Expression],
        TwoOpcode::UI => seq![SigToken::ExpressionsAtMost(6)],
        TwoOpcode::UJ => seq![SigToken::Expression, SigToken::Direct],
        TwoOpcode::UK => seq![SigToken::Expression],
        TwoOpcode::W1 => seq![SigToken::ExpressionsAtMost(7)],
        TwoOpcode::W2 => seq![],
        TwoOpcode::W3 => seq![SigToken::Expression],
        TwoOpcode::W4 => seq![SigToken::ExpressionsAtMost(2)],
        TwoOpcode::W5 => seq![SigToken::Direct, SigToken::Expression],
        TwoOpcode::W6 => seq![SigToken::Expression, SigToken::Direct, SigToken::Expression],
        TwoOpcode::W7 => seq![SigToken::Expression],
        TwoOpcode::W8 => seq![SigToken::Direct, SigToken::Expression, SigToken::Expression, SigToken::Expression, SigToken::ExpressionsUntilNull],
        TwoOpcode::W9 => seq![SigToken::Expression],
        TwoOpcode::WA => seq![SigToken::Expression],
        TwoOpcode::WB => seq![SigToken::ExpressionsAtMost(2)],
        TwoOpcode::WC => seq![SigToken::Expression],
        TwoOpcode::WD => seq![SigToken::Expression],
        TwoOpcode::WE => seq![SigToken::Expression],
        TwoOpcode::WF => seq![SigToken::Expression],
        TwoOpcode::WG => seq![],
        TwoOpcode::WH => seq![SigToken::ExpressionsAtMost(5)],
        TwoOpcode::WI => seq![SigToken::Expression],
        TwoOpcode::WJ => seq![SigToken::Direct, SigToken::Expression, SigToken::Direct],
        TwoOpcode::WK => seq![SigToken::ExpressionsAtMost(6)],
        TwoOpcode::WL => seq![SigToken::ExpressionsAtMost(4)],
    }
}

/// The two bytes of each command.
pub open spec fn spec_mnemonic(op: TwoOpcode) -> (u8, u8) {
    match op {
        TwoOpcode::A0 => (65, 48),
        TwoOpcode::A1 => (65, 49),
        TwoOpcode::A2 => (65, 50),
        TwoOpcode::A3 => (65, 51),
        TwoOpcode::A4 => (65, 52),
        TwoOpcode::A5 => (65, 53),
        TwoOpcode::A6 => (65, 54),
        TwoOpcode::D0 => (68, 48),
        TwoOpcode::D1 => (68, 49),
        TwoOpcode::F0 => (70, 48),
        TwoOpcode::F1 => (70, 49),
        TwoOpcode::F4 => (70, 52),
        TwoOpcode::F5 => (70, 53),
        TwoOpcode::F6 => (70, 54),
        TwoOpcode::F7 => (70, 55),
        TwoOpcode::F8 => (70, 56),
        TwoOpcode::F9 => (70, 57),
        TwoOpcode::FA => (70, 65),
        TwoOpcode::FB => (70, 66),
        TwoOpcode::FC => (70, 67),
        TwoOpcode::FD => (70, 68),
        TwoOpcode::FE => (70, 69),
        TwoOpcode::FG => (70, 71),
        TwoOpcode::FH => (70, 72),
        TwoOpcode::FI => (70, 73),
        TwoOpcode::FJ => (70, 74),
        TwoOpcode::FK => (70, 75),
        TwoOpcode::I0 => (73, 48),
        TwoOpcode::I1 => (73, 49),
        TwoOpcode::I2 => (73, 50),
        TwoOpcode::I3 => (73, 51),
        TwoOpcode::I4 => (73, 52),
        TwoOpcode::I5 => (73, 53),
        TwoOpcode::J0 => (74, 48),
        TwoOpcode::J1 => (74, 49),
        TwoOpcode::J2 => (74, 50),
        TwoOpcode::J3 => (74, 51),
        TwoOpcode::L0 => (76, 48),
        TwoOpcode::L1 => (76, 49),
        TwoOpcode::L2 => (76, 50),
        TwoOpcode::L3 => (76, 51),
        TwoOpcode::L4 => (76, 52),
        TwoOpcode::L5 => (76, 53),
        TwoOpcode::M0 => (77, 48),
        TwoOpcode::M1 => (77, 49),
        TwoOpcode::M2 => (77, 50),
        TwoOpcode::M3 => (77, 51),
        TwoOpcode::M4 => (77, 52),
        TwoOpcode::M5 => (77, 53),
        TwoOpcode::T0 => (84, 48),
        TwoOpcode::T1 => (84, 49),
        TwoOpcode::U0 => (85, 48),
        TwoOpcode::U1 => (85, 49),
        TwoOpcode::U2 => (85, 50),
        TwoOpcode::U3 => (85, 51),
        TwoOpcode::U5 => (85, 53),
        TwoOpcode::U6 => (85, 54),
        TwoOpcode::U7 => (85, 55),
        TwoOpcode::U8 => (85, 56),
        TwoOpcode::U9 => (85, 57),
        TwoOpcode::UB => (85, 66),
        TwoOpcode::UD => (85, 68),
        TwoOpcode::UE => (85, 69),
        TwoOpcode::UH => (85, 72),
        TwoOpcode::UI => (85, 73),
        TwoOpcode::UJ => (85, 74),
        TwoOpcode::UK => (85, 75),
        TwoOpcode::W1 => (87, 49),
        TwoOpcode::W2 => (87, 50),
        TwoOpcode::W3 => (87, 51),
        TwoOpcode::W4 => (87, 52),
        TwoOpcode::W5 => (87, 53),
        TwoOpcode::W6 => (87, 54),
        TwoOpcode::W7 => (87, 55),
        TwoOpcode::W8 => (87, 56),
        TwoOpcode::W9 => (87, 57),
        TwoOpcode::WA => (87, 65),
        TwoOpcode::WB => (87, 66),
        TwoOpcode::WC => (87, 67),
        TwoOpcode::WD => (87, 68),
        TwoOpcode::WE => (87, 69),
        TwoOpcode::WF => (87, 70),
        TwoOpcode::WG => (87, 71),
        TwoOpcode::WH => (87, 72),
        TwoOpcode::WI => (87, 73),
        TwoOpcode::WJ => (87, 74),
        TwoOpcode::WK => (87, 75),
        TwoOpcode::WL => (87, 76),
    }
}

impl TwoOpcode {
    pub fn from_pair(first: u8, second: u8) -> (res: Option<TwoOpcode>)
        ensures
            res == spec_pair(first, second),
    {
        if first == 65 && second == 48 {
            Some(TwoOpcode::A0)
        } else if first == 65 && second == 49 {
            Some(TwoOpcode::A1)
        } else if first == 65 && second == 50 {
            Some(TwoOpcode::A2)
        } else if first == 65 && second == 51 {
            Some(TwoOpcode::A3)
        } else if first == 65 && second == 52 {
            Some(TwoOpcode::A4)
        } else if first == 65 && second == 53 {
            Some(TwoOpcode::A5)
        } else if first == 65 && second == 54 {
            Some(TwoOpcode::A6)
        } else if first == 68 && second == 48 {
            Some(TwoOpcode::D0)
        } else if first == 68 && second == 49 {
            Some(TwoOpcode::D1)
        } else if first == 70 && second == 48 {
            Some(TwoOpcode::F0)
        } else if first == 70 && second == 49 {
            Some(TwoOpcode::F1)
        } else if first == 70 && second == 52 {
            Some(TwoOpcode::F4)
        } else if first == 70 && second == 53 {
            Some(TwoOpcode::F5)
        } else if first == 70 && second == 54 {
            Some(TwoOpcode::F6)
        } else if first == 70 && second == 55 {
            Some(TwoOpcode::F7)
        } else if first == 70 && second == 56 {
            Some(TwoOpcode::F8)
        } else if first == 70 && second == 57 {
            Some(TwoOpcode::F9)
        } else if first == 70 && second == 65 {
            Some(TwoOpcode::FA)
        } else if first == 70 && second == 66 {
            Some(TwoOpcode::FB)
        } else if first == 70 && second == 67 {
            Some(TwoOpcode::FC)
        } else if first == 70 && second == 68 {
            Some(TwoOpcode::FD)
        } else if first == 70 && second == 69 {
            Some(TwoOpcode::FE)
        } else if first == 70 && second == 71 {
            Some(TwoOpcode::FG)
        } else if first == 70 && second == 72 {
            Some(TwoOpcode::FH)
        } else if first == 70 && second == 73 {
            Some(TwoOpcode::FI)
        } else if first == 70 && second == 74 {
            Some(TwoOpcode::FJ)
        } else if first == 70 && second == 75 {
            Some(TwoOpcode::FK)
        } else if first == 73 && second == 48 {
            Some(TwoOpcode::I0)
        } else if first == 73 && second == 49 {
            Some(TwoOpcode::I1)
        } else if first == 73 && second == 50 {
            Some(TwoOpcode::I2)
        } else if first == 73 && second == 51 {
            Some(TwoOpcode::I3)
        } else if first == 73 && second == 52 {
            Some(TwoOpcode::I4)
        } else if first == 73 && second == 53 {
            Some(TwoOpcode::I5)
        } else if first == 74 && second == 48 {
            Some(TwoOpcode::J0)
        } else if first == 74 && second == 49 {
            Some(TwoOpcode::J1)
        } else if first == 74 && second == 50 {
            Some(TwoOpcode::J2)
        } else if first == 74 && second == 51 {
            Some(TwoOpcode::J3)
        } else if first == 76 && second == 48 {
            Some(TwoOpcode::L0)
        } else if first == 76 && second == 49 {
            Some(TwoOpcode::L1)
        } else if first == 76 && second == 50 {
            Some(TwoOpcode::L2)
        } else if first == 76 && second == 51 {
            Some(TwoOpcode::L3)
        } else if first == 76 && second == 52 {
            Some(TwoOpcode::L4)
        } else if first == 76 && second == 53 {
            Some(TwoOpcode::L5)
        } else if first == 77 && second == 48 {
            Some(TwoOpcode::M0)
        } else if first == 77 && second == 49 {
            Some(TwoOpcode::M1)
        } else if first == 77 && second == 50 {
            Some(TwoOpcode::M2)
        } else if first == 77 && second == 51 {
            Some(TwoOpcode::M3)
        } else if first == 77 && second == 52 {
            Some(TwoOpcode::M4)
        } else if first == 77 && second == 53 {
            Some(TwoOpcode::M5)
        } else if first == 84 && second == 48 {
            Some(TwoOpcode::T0)
        } else if first == 84 && second == 49 {
            Some(TwoOpcode::T1)
        } else if first == 85 && second == 48 {
            Some(TwoOpcode::U0)
        } else if first == 85 && second == 49 {
            Some(TwoOpcode::U1)
        } else if first == 85 && second == 50 {
            Some(TwoOpcode::U2)
        } else if first == 85 && second == 51 {
            Some(TwoOpcode::U3)
        } else if first == 85 && second == 53 {
            Some(TwoOpcode::U5)
        } else if first == 85 && second == 54 {
            Some(TwoOpcode::U6)
        } else if first == 85 && second == 55 {
            Some(TwoOpcode::U7)
        } else if first == 85 && second == 56 {
            Some(TwoOpcode::U8)
        } else if first == 85 && second == 57 {
            Some(TwoOpcode::U9)
        } else if first == 85 && second == 66 {
            Some(TwoOpcode::UB)
        } else if first == 85 && second == 68 {
            Some(TwoOpcode::UD)
        } else if first == 85 && second == 69 {
            Some(TwoOpcode::UE)
        } else if first == 85 && second == 72 {
            Some(TwoOpcode::UH)
        } else if first == 85 && second == 73 {
            Some(TwoOpcode::UI)
        } else if first == 85 && second == 74 {
            Some(TwoOpcode::UJ)
        } else if first == 85 && second == 75 {
            Some(TwoOpcode::UK)
        } else if first == 87 && second == 49 {
            Some(TwoOpcode::W1)
        } else if first == 87 && second == 50 {
            Some(TwoOpcode::W2)
        } else if first == 87 && second == 51 {
            Some(TwoOpcode::W3)
        } else if first == 87 && second == 52 {
            Some(TwoOpcode::W4)
        } else if first == 87 && second == 53 {
            Some(TwoOpcode::W5)
        } else if first == 87 && second == 54 {
            Some(TwoOpcode::W6)
        } else if first == 87 && second == 55 {
            Some(TwoOpcode::W7)
        } else if first == 87 && second == 56 {
            Some(TwoOpcode::W8)
        } else if first == 87 && second == 57 {
            Some(TwoOpcode::W9)
        } else if first == 87 && second == 65 {
            Some(TwoOpcode::WA)
        } else if first == 87 && second == 66 {
            Some(TwoOpcode::WB)
        } else if first == 87 && second == 67 {
            Some(TwoOpcode::WC)
        } else if first == 87 && second == 68 {
            Some(TwoOpcode::WD)
        } else if first == 87 && second == 69 {
            Some(TwoOpcode::WE)
        } else if first == 87 && second == 70 {
            Some(TwoOpcode::WF)
        } else if first == 87 && second == 71 {
            Some(TwoOpcode::WG)
        } else if first == 87 && second == 72 {
            Some(TwoOpcode::WH)
        } else if first == 87 && second == 73 {
            Some(TwoOpcode::WI)
        } else if first == 87 && second == 74 {
            Some(TwoOpcode::WJ)
        } else if first == 87 && second == 75 {
            Some(TwoOpcode::WK)
        } else if first == 87 && second == 76 {
            Some(TwoOpcode::WL)
        } else {
            None
        }
    }

    /// The argument layout read by the command's handler.
    pub fn signature(&self) -> (res: Vec<SigToken>)
        ensures
            res@ == spec_signature(*self),
    {
        match self {
            TwoOpcode::A0 => {
                let v: Vec<SigToken> = vec![SigToken::Direct];
                v
            },
            TwoOpcode::A1 => {
                let v: Vec<SigToken> = vec![];
                v
            },
            TwoOpcode::A2 => {
                let v: Vec<SigToken> = vec![SigToken::Direct, SigToken::Direct, SigToken::Direct, SigToken::Direct, SigToken::Direct, SigToken::Direct];
                v
            },
            TwoOpcode::A3 => {
                let v: Vec<SigToken> = vec![SigToken::ExpressionsAtMost(20)];
                v
            },
            TwoOpcode::A4 => {
                let v: Vec<SigToken> = vec![SigToken::ExpressionsAtMost(20)];
                v
            },
            TwoOpcode::A5 => {
                let v: Vec<SigToken> = vec![SigToken::Direct];
                v
            },
            TwoOpcode::A6 => {
                let v: Vec<SigToken> = vec![];
                v
            },
            TwoOpcode::D0 => {
                let v: Vec<SigToken> = vec![SigToken::Expression, SigToken::ExpressionsUntilNull];
                v
            },
            TwoOpcode::D1 => {
                let v: Vec<SigToken> = vec![SigToken::Expression, SigToken::Expression];
                v
            },
            TwoOpcode::F0 => {
                let v: Vec<SigToken> = vec![SigToken::Direct];
                v
            },
            TwoOpcode::F1 => {
                let v: Vec<SigToken> = vec![SigToken::Expression, SigToken::Direct];
                v
            },
            TwoOpcode::F4 => {
                let v: Vec<SigToken> = vec![SigToken::Direct, SigToken::Direct, SigToken::Direct, SigToken::Expression, SigToken::Direct, SigToken::Direct];
                v
            },
            TwoOpcode::F5 => {
                let v: Vec<SigToken> = vec![SigToken::Expression];
                v
            },
            TwoOpcode::F6 => {
                let v: Vec<SigToken> = vec![SigToken::Direct];
                v
            },
            TwoOpcode::F7 => {
                let v: Vec<SigToken> = vec![SigToken::Direct];
                v
            },
            TwoOpcode::F8 => {
                let v: Vec<SigToken> = vec![SigToken::Expression];
                v
            },
            TwoOpcode::F9 => {
                let v: Vec<SigToken> = vec![SigToken::ExpressionsAtMost(3)];
                v
            },
            TwoOpcode::FA => {
                let v: Vec<SigToken> = vec![SigToken::ExpressionsAtMost(5)];
                v
            },
            TwoOpcode::FB => {
                let v: Vec<SigToken> = vec![SigToken::ExpressionsAtMost(5)];
                v
            },
            TwoOpcode::FC => {
                let v: Vec<SigToken> = vec![SigToken::ExpressionsAtMost(2)];
                v
            },
            TwoOpcode::FD => {
                let v: Vec<SigToken> = vec![SigToken::ExpressionsAtMost(2)];
                v
            },
            TwoOpcode::FE => {
                let v: Vec<SigToken> = vec![SigToken::Direct];
                v
            },
            TwoOpcode::FG => {
                let v: Vec<SigToken> = vec![SigToken::Direct];
                v
            },
            TwoOpcode::FH => {
                let v: Vec<SigToken> = vec![SigToken::ExpressionsAtMost(2), SigToken::Direct, SigToken::Direct, SigToken::Direct, SigToken::Direct, SigToken::Direct];
                v
            },
            TwoOpcode::FI => {
                let v: Vec<SigToken> = vec![SigToken::Direct];
                v
            },
            TwoOpcode::FJ => {
                let v: Vec<SigToken> = vec![SigToken::ExpressionsAtMost(3)];
                v
            },
            TwoOpcode::FK => {
                let v: Vec<SigToken> = vec![];
                v
            },
            TwoOpcode::I0 => {
                let v: Vec<SigToken> = vec![SigToken::Direct, SigToken::ExpressionsAtMost(8)];
                v
            },
            TwoOpcode::I1 => {
                let v: Vec<SigToken> = vec![];
                v
            },
            TwoOpcode::I2 => {
                let v: Vec<SigToken> = vec![];
                v
            },
            TwoOpcode::I3 => {
                let v: Vec<SigToken> = vec![SigToken::Direct, SigToken::ExpressionsAtMost(1)];
                v
            },
            TwoOpcode::I4 => {
                let v: Vec<SigToken> = vec![];
                v
            },
            TwoOpcode::I5 => {
                let v: Vec<SigToken> = vec![SigToken::Direct];
                v
            },
            TwoOpcode::J0 => {
                let v: Vec<SigToken> = vec![SigToken::Offset];
                v
            },
            TwoOpcode::J1 => {
                let v: Vec<SigToken> = vec![SigToken::Offset];
                v
            },
            TwoOpcode::J2 => {
                let v: Vec<SigToken> = vec![SigToken::Direct];
                v
            },
            TwoOpcode::J3 => {
                let v: Vec<SigToken> = vec![SigToken::Direct];
                v
            },
            TwoOpcode::L0 => {
                let v: Vec<SigToken> = vec![SigToken::Condition, SigToken::Offset];
                v
            },
            TwoOpcode::L1 => {
                let v: Vec<SigToken> = vec![SigToken::Condition, SigToken::Offset];
                v
            },
            TwoOpcode::L2 => {
                let v: Vec<SigToken> = vec![SigToken::Offset];
                v
            },
            TwoOpcode::L3 => {
                let v: Vec<SigToken> = vec![SigToken::Direct, SigToken::Expression, SigToken::Expression, SigToken::Expression, SigToken::Offset];
                v
            },
            TwoOpcode::L4 => {
                let v: Vec<SigToken> = vec![SigToken::Condition, SigToken::Offset];
                v
            },
            TwoOpcode::L5 => {
                let v: Vec<SigToken> = vec![SigToken::Condition, SigToken::Offset];
                v
            },
            TwoOpcode::M0 => {
                let v: Vec<SigToken> = vec![SigToken::Direct];
                v
            },
            TwoOpcode::M1 => {
                let v: Vec<SigToken> = vec![SigToken::ExpressionsAtMost(1)];
                v
            },
            TwoOpcode::M2 => {
                let v: Vec<SigToken> = vec![];
                v
            },
            TwoOpcode::M3 => {
                let v: Vec<SigToken> = vec![];
                v
            },
            TwoOpcode::M4 => {
                let v: Vec<SigToken> = vec![];
                v
            },
            TwoOpcode::M5 => {
                let v: Vec<SigToken> = vec![SigToken::ExpressionsAtMost(2)];
                v
            },
            TwoOpcode::T0 => {
                let v: Vec<SigToken> = vec![SigToken::ExpressionsUntilNull];
                v
            },
            TwoOpcode::T1 => {
                let v: Vec<SigToken> = vec![SigToken::ExpressionsUntilNull];
                v
            },
            TwoOpcode::U0 => {
                let v: Vec<SigToken> = vec![SigToken::Expression];
                v
            },
            TwoOpcode::U1 => {
                let v: Vec<SigToken> = vec![SigToken::ExpressionsAtMost(2)];
                v
            },
            TwoOpcode::U2 => {
                let v: Vec<SigToken> = vec![SigToken::Expression, SigToken::ExpressionsUntilNull];
                v
            },
            TwoOpcode::U3 => {
                let v: Vec<SigToken> = vec![SigToken::ExpressionsAtMost(2), SigToken::Direct];
                v
            },
            TwoOpcode::U5 => {
                let v: Vec<SigToken> = vec![SigToken::Direct, SigToken::Expression];
                v
            },
            TwoOpcode::U6 => {
                let v: Vec<SigToken> = vec![SigToken::Expression, SigToken::Expression];
                v
            },
            TwoOpcode::U7 => {
                let v: Vec<SigToken> = vec![SigToken::Expression];
                v
            },
            TwoOpcode::U8 => {
                let v: Vec<SigToken> = vec![SigToken::ExpressionsAtMost(2)];
                v
            },
            TwoOpcode::U9 => {
                let v: Vec<SigToken> = vec![SigToken::Direct];
                v
            },
            TwoOpcode::UB => {
                let v: Vec<SigToken> = vec![SigToken::Direct, SigToken::Direct];
                v
            },
            TwoOpcode::UD => {
                let v: Vec<SigToken> = vec![SigToken::Expression, SigToken::Direct];
                v
            },
            TwoOpcode::UE => {
                let v: Vec<SigToken> = vec![SigToken::Expression, SigToken::ResourceList];
                v
            },
            TwoOpcode::UH => {
                let v: Vec<SigToken> = vec![SigToken::Expression];
                v
            },
            TwoOpcode::UI => {
                let v: Vec<SigToken> = vec![SigToken::ExpressionsAtMost(6)];
                v
            },
            TwoOpcode::UJ => {
                let v: Vec<SigToken> = vec![SigToken::Expression, SigToken::Direct];
                v
            },
            TwoOpcode::UK => {
                let v: Vec<SigToken> = vec![SigToken::Expression];
                v
            },
            TwoOpcode::W1 => {
                let v: Vec<SigToken> = vec![SigToken::ExpressionsAtMost(7)];
                v
            },
            TwoOpcode::W2 => {
                let v: Vec<SigToken> = vec![];
                v
            },
            TwoOpcode::W3 => {
                let v: Vec<SigToken> = vec![SigToken::Expression];
                v
            },
            TwoOpcode::W4 => {
                let v: Vec<SigToken> = vec![SigToken::ExpressionsAtMost(2)];
                v
            },
            TwoOpcode::W5 => {
                let v: Vec<SigToken> = vec![SigToken::Direct, SigToken::Expression];
                v
            },
            TwoOpcode::W6 => {
                let v: Vec<SigToken> = vec![SigToken::Expression, SigToken::Direct, SigToken::Expression];
                v
            },
            TwoOpcode::W7 => {
                let v: Vec<SigToken> = vec![SigToken::Expression];
                v
            },
            TwoOpcode::W8 => {
                let v: Vec<SigToken> = vec![SigToken::Direct, SigToken::Expression, SigToken::Expression, SigToken::Expression, SigToken::ExpressionsUntilNull];
                v
            },
            TwoOpcode::W9 => {
                let v: Vec<SigToken> = vec![SigToken::Expression];
                v
            },
            TwoOpcode::WA => {
                let v: Vec<SigToken> = vec![SigToken::Expression];
                v
            },
            TwoOpcode::WB => {
                let v: Vec<SigToken> = vec![SigToken::ExpressionsAtMost(2)];
                v
            },
            TwoOpcode::WC => {
                let v: Vec<SigToken> = vec![SigToken::Expression];
                v
            },
            TwoOpcode::WD => {
                let v: Vec<SigToken> = vec![SigToken::Expression];
                v
            },
            TwoOpcode::WE => {
                let v: Vec<SigToken> = vec![SigToken::Expression];
                v
            },
            TwoOpcode::WF => {
                let v: Vec<SigToken> = vec![SigToken::Expression];
                v
            },
            TwoOpcode::WG => {
                let v: Vec<SigToken> = vec![];
                v
            },
            TwoOpcode::WH => {
                let v: Vec<SigToken> = vec![SigToken::ExpressionsAtMost(5)];
                v
            },
            TwoOpcode::WI => {
                let v: Vec<SigToken> = vec![SigToken::Expression];
                v
            },
            TwoOpcode::WJ => {
                let v: Vec<SigToken> = vec![SigToken::Direct, SigToken::Expression, SigToken::Direct];
                v
            },
            TwoOpcode::WK => {
                let v: Vec<SigToken> = vec![SigToken::ExpressionsAtMost(6)];
                v
            },
            TwoOpcode::WL => {
                let v: Vec<SigToken> = vec![SigToken::ExpressionsAtMost(4)];
                v
            },
        }
    }

    /// The two bytes that spell the command.
    pub fn mnemonic(&self) -> (res: (u8, u8))
        ensures
            res == spec_mnemonic(*self),
    {
        match self {
            TwoOpcode::A0 => (65, 48),
            TwoOpcode::A1 => (65, 49),
            TwoOpcode::A2 => (65, 50),
            TwoOpcode::A3 => (65, 51),
            TwoOpcode::A4 => (65, 52),
            TwoOpcode::A5 => (65, 53),
            TwoOpcode::A6 => (65, 54),
            TwoOpcode::D0 => (68, 48),
            TwoOpcode::D1 => (68, 49),
            TwoOpcode::F0 => (70, 48),
            TwoOpcode::F1 => (70, 49),
            TwoOpcode::F4 => (70, 52),
            TwoOpcode::F5 => (70, 53),
            TwoOpcode::F6 => (70, 54),
            TwoOpcode::F7 => (70, 55),
            TwoOpcode::F8 => (70, 56),
            TwoOpcode::F9 => (70, 57),
            TwoOpcode::FA => (70, 65),
            TwoOpcode::FB => (70, 66),
            TwoOpcode::FC => (70, 67),
            TwoOpcode::FD => (70, 68),
            TwoOpcode::FE => (70, 69),
            TwoOpcode::FG => (70, 71),
            TwoOpcode::FH => (70, 72),
            TwoOpcode::FI => (70, 73),
            TwoOpcode::FJ => (70, 74),
            TwoOpcode::FK => (70, 75),
            TwoOpcode::I0 => (73, 48),
            TwoOpcode::I1 => (73, 49),
            TwoOpcode::I2 => (73, 50),
            TwoOpcode::I3 => (73, 51),
            TwoOpcode::I4 => (73, 52),
            TwoOpcode::I5 => (73, 53),
            TwoOpcode::J0 => (74, 48),
            TwoOpcode::J1 => (74, 49),
            TwoOpcode::J2 => (74, 50),
            TwoOpcode::J3 => (74, 51),
            TwoOpcode::L0 => (76, 48),
            TwoOpcode::L1 => (76, 49),
            TwoOpcode::L2 => (76, 50),
            TwoOpcode::L3 => (76, 51),
            TwoOpcode::L4 => (76, 52),
            TwoOpcode::L5 => (76, 53),
            TwoOpcode::M0 => (77, 48),
            TwoOpcode::M1 => (77, 49),
            TwoOpcode::M2 => (77, 50),
            TwoOpcode::M3 => (77, 51),
            TwoOpcode::M4 => (77, 52),
            TwoOpcode::M5 => (77, 53),
            TwoOpcode::T0 => (84, 48),
            TwoOpcode::T1 => (84, 49),
            TwoOpcode::U0 => (85, 48),
            TwoOpcode::U1 => (85, 49),
            TwoOpcode::U2 => (85, 50),
            TwoOpcode::U3 => (85, 51),
            TwoOpcode::U5 => (85, 53),
            TwoOpcode::U6 => (85, 54),
            TwoOpcode::U7 => (85, 55),
            TwoOpcode::U8 => (85, 56),
            TwoOpcode::U9 => (85, 57),
            TwoOpcode::UB => (85, 66),
            TwoOpcode::UD => (85, 68),
            TwoOpcode::UE => (85, 69),
            TwoOpcode::UH => (85, 72),
            TwoOpcode::UI => (85, 73),
            TwoOpcode::UJ => (85, 74),
            TwoOpcode::UK => (85, 75),
            TwoOpcode::W1 => (87, 49),
            TwoOpcode::W2 => (87, 50),
            TwoOpcode::W3 => (87, 51),
            TwoOpcode::W4 => (87, 52),
            TwoOpcode::W5 => (87, 53),
            TwoOpcode::W6 => (87, 54),
            TwoOpcode::W7 => (87, 55),
            TwoOpcode::W8 => (87, 56),
            TwoOpcode::W9 => (87, 57),
            TwoOpcode::WA => (87, 65),
            TwoOpcode::WB => (87, 66),
            TwoOpcode::WC => (87, 67),
            TwoOpcode::WD => (87, 68),
            TwoOpcode::WE => (87, 69),
            TwoOpcode::WF => (87, 70),
            TwoOpcode::WG => (87, 71),
            TwoOpcode::WH => (87, 72),
            TwoOpcode::WI => (87, 73),
            TwoOpcode::WJ => (87, 74),
            TwoOpcode::WK => (87, 75),
            TwoOpcode::WL => (87, 76),
        }
    }
}

/// Each command is spelled by its own two bytes.
pub proof fn lemma_pair_mnemonic(op: TwoOpcode)
    ensures
        spec_pair(spec_mnemonic(op).0, spec_mnemonic(op).1) == Some(op),
{
}

} // verus!
