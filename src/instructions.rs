//! Mnemonics, addressing modes and the decoding of instruction text.

use std::str::FromStr;

use vstd::prelude::*;

use crate::text::{
    chars_of, is_space, lemma_trim_end_at, lemma_trim_start_at, slice, trim, trim_bounds,
};

verus! {

/// Why instruction text could not be decoded.
#[derive(Clone, Copy, Debug, PartialEq, Eq, Structural)]
pub enum DecodeError {
    /// The text does not start with one of the known three-letter names.
    UnknownMnemonic,
}

/// The operations of the instruction set, by their three-letter names.
#[derive(Clone, Copy, Debug, PartialEq, Eq, Structural)]
pub enum Mnemonic {
    ADC,
    AND,
    ASL,
    BCC,
    BCS,
    BEQ,
    BIT,
    BMI,
    BNE,
    BPL,
    BRK,
    BVC,
    BVS,
    CLC,
    CLD,
    CLI,
    CLV,
    CMP,
    CPX,
    CPY,
    DEC,
    DEX,
    DEY,
    EOR,
    INC,
    INX,
    INY,
    JMP,
    JSR,
    LDA,
    LDX,
    LDY,
    LSR,
    NOP,
    ORA,
    PHA,
    PHP,
    PLA,
    PLP,
    ROL,
    ROR,
    RTI,
    RTS,
    SBC,
    SEC,
    SED,
    SEI,
    STA,
    STX,
    STY,
    TAX,
    TAY,
    TSX,
    TXA,
    TXS,
    TYA,
}

/// `c` in upper case where it is an ASCII letter, else `c` itself.
pub open spec fn ascii_upper(c: char) -> char {
    if 'a' <= c <= 'z' {
        ((c as u32) - 32) as char
    } else {
        c
    }
}

/// Executable [`ascii_upper`].
pub fn to_upper(c: char) -> (r: char)
    ensures
        r == ascii_upper(c),
{
    if 'a' <= c && c <= 'z' {
        ((c as u8) - 32) as char
    } else {
        c
    }
}

impl Mnemonic {
    /// The canonical upper-case name, letter by letter.
    pub open spec fn letters(self) -> (char, char, char) {
        match self {
            Mnemonic::ADC => ('A', 'D', 'C'),
            Mnemonic::AND => ('A', 'N', 'D'),
            Mnemonic::ASL => ('A', 'S', 'L'),
            Mnemonic::BCC => ('B', 'C', 'C'),
            Mnemonic::BCS => ('B', 'C', 'S'),
            Mnemonic::BEQ => ('B', 'E', 'Q'),
            Mnemonic::BIT => ('B', 'I', 'T'),
            Mnemonic::BMI => ('B', 'M', 'I'),
            Mnemonic::BNE => ('B', 'N', 'E'),
            Mnemonic::BPL => ('B', 'P', 'L'),
            Mnemonic::BRK => ('B', 'R', 'K'),
            Mnemonic::BVC => ('B', 'V', 'C'),
            Mnemonic::BVS => ('B', 'V', 'S'),
            Mnemonic::CLC => ('C', 'L', 'C'),
            Mnemonic::CLD => ('C', 'L', 'D'),
            Mnemonic::CLI => ('C', 'L', 'I'),
            Mnemonic::CLV => ('C', 'L', 'V'),
            Mnemonic::CMP => ('C', 'M', 'P'),
            Mnemonic::CPX => ('C', 'P', 'X'),
            Mnemonic::CPY => ('C', 'P', 'Y'),
            Mnemonic::DEC => ('D', 'E', 'C'),
            Mnemonic::DEX => ('D', 'E', 'X'),
            Mnemonic::DEY => ('D', 'E', 'Y'),
            Mnemonic::EOR => ('E', 'O', 'R'),
            Mnemonic::INC => ('I', 'N', 'C'),
            Mnemonic::INX => ('I', 'N', 'X'),
            Mnemonic::INY => ('I', 'N', 'Y'),
            Mnemonic::JMP => ('J', 'M', 'P'),
            Mnemonic::JSR => ('J', 'S', 'R'),
            Mnemonic::LDA => ('L', 'D', 'A'),
            Mnemonic::LDX => ('L', 'D', 'X'),
            Mnemonic::LDY => ('L', 'D', 'Y'),
            Mnemonic::LSR => ('L', 'S', 'R'),
            Mnemonic::NOP => ('N', 'O', 'P'),
            Mnemonic::ORA => ('O', 'R', 'A'),
            Mnemonic::PHA => ('P', 'H', 'A'),
            Mnemonic::PHP => ('P', 'H', 'P'),
            Mnemonic::PLA => ('P', 'L', 'A'),
            Mnemonic::PLP => ('P', 'L', 'P'),
            Mnemonic::ROL => ('R', 'O', 'L'),
            Mnemonic::ROR => ('R', 'O', 'R'),
            Mnemonic::RTI => ('R', 'T', 'I'),
            Mnemonic::RTS => ('R', 'T', 'S'),
            Mnemonic::SBC => ('S', 'B', 'C'),
            Mnemonic::SEC => ('S', 'E', 'C'),
            Mnemonic::SED => ('S', 'E', 'D'),
            Mnemonic::SEI => ('S', 'E', 'I'),
            Mnemonic::STA => ('S', 'T', 'A'),
            Mnemonic::STX => ('S', 'T', 'X'),
            Mnemonic::STY => ('S', 'T', 'Y'),
            Mnemonic::TAX => ('T', 'A', 'X'),
            Mnemonic::TAY => ('T', 'A', 'Y'),
            Mnemonic::TSX => ('T', 'S', 'X'),
            Mnemonic::TXA => ('T', 'X', 'A'),
            Mnemonic::TXS => ('T', 'X', 'S'),
            Mnemonic::TYA => ('T', 'Y', 'A'),
        }
    }

    /// The canonical upper-case name.
    pub open spec fn spec_name(self) -> Seq<char> {
        seq![self.letters().0, self.letters().1, self.letters().2]
    }

    /// The mnemonic spelled by three upper-case letters, if any.
    pub fn from_letters(a: char, b: char, c: char) -> (r: Option<Mnemonic>)
        ensures
            match r {
                Some(m) => m.letters() == (a, b, c),
                None => forall|m: Mnemonic| m.letters() != (a, b, c),
            },
    {
        match (a, b, c) {
            ('A', 'D', 'C') => Some(Mnemonic::ADC),
            ('A', 'N', 'D') => Some(Mnemonic::AND),
            ('A', 'S', 'L') => Some(Mnemonic::ASL),
            ('B', 'C', 'C') => Some(Mnemonic::BCC),
            ('B', 'C', 'S') => Some(Mnemonic::BCS),
            ('B', 'E', 'Q') => Some(Mnemonic::BEQ),
            ('B', 'I', 'T') => Some(Mnemonic::BIT),
            ('B', 'M', 'I') => Some(Mnemonic::BMI),
            ('B', 'N', 'E') => Some(Mnemonic::BNE),
            ('B', 'P', 'L') => Some(Mnemonic::BPL),
            ('B', 'R', 'K') => Some(Mnemonic::BRK),
            ('B', 'V', 'C') => Some(Mnemonic::BVC),
            ('B', 'V', 'S') => Some(Mnemonic::BVS),
            ('C', 'L', 'C') => Some(Mnemonic::CLC),
            ('C', 'L', 'D') => Some(Mnemonic::CLD),
            ('C', 'L', 'I') => Some(Mnemonic::CLI),
            ('C', 'L', 'V') => Some(Mnemonic::CLV),
            ('C', 'M', 'P') => Some(Mnemonic::CMP),
            ('C', 'P', 'X') => Some(Mnemonic::CPX),
            ('C', 'P', 'Y') => Some(Mnemonic::CPY),
            ('D', 'E', 'C') => Some(Mnemonic::DEC),
            ('D', 'E', 'X') => Some(Mnemonic::DEX),
            ('D', 'E', 'Y') => Some(Mnemonic::DEY),
            ('E', 'O', 'R') => Some(Mnemonic::EOR),
            ('I', 'N', 'C') => Some(Mnemonic::INC),
            ('I', 'N', 'X') => Some(Mnemonic::INX),
            ('I', 'N', 'Y') => Some(Mnemonic::INY),
            ('J', 'M', 'P') => Some(Mnemonic::JMP),
            ('J', 'S', 'R') => Some(Mnemonic::JSR),
            ('L', 'D', 'A') => Some(Mnemonic::LDA),
            ('L', 'D', 'X') => Some(Mnemonic::LDX),
            ('L', 'D', 'Y') => Some(Mnemonic::LDY),
            ('L', 'S', 'R') => Some(Mnemonic::LSR),
            ('N', 'O', 'P') => Some(Mnemonic::NOP),
            ('O', 'R', 'A') => Some(Mnemonic::ORA),
            ('P', 'H', 'A') => Some(Mnemonic::PHA),
            ('P', 'H', 'P') => Some(Mnemonic::PHP),
            ('P', 'L', 'A') => Some(Mnemonic::PLA),
            ('P', 'L', 'P') => Some(Mnemonic::PLP),
            ('R', 'O', 'L') => Some(Mnemonic::ROL),
            ('R', 'O', 'R') => Some(Mnemonic::ROR),
            ('R', 'T', 'I') => Some(Mnemonic::RTI),
            ('R', 'T', 'S') => Some(Mnemonic::RTS),
            ('S', 'B', 'C') => Some(Mnemonic::SBC),
            ('S', 'E', 'C') => Some(Mnemonic::SEC),
            ('S', 'E', 'D') => Some(Mnemonic::SED),
            ('S', 'E', 'I') => Some(Mnemonic::SEI),
            ('S', 'T', 'A') => Some(Mnemonic::STA),
            ('S', 'T', 'X') => Some(Mnemonic::STX),
            ('S', 'T', 'Y') => Some(Mnemonic::STY),
            ('T', 'A', 'X') => Some(Mnemonic::TAX),
            ('T', 'A', 'Y') => Some(Mnemonic::TAY),
            ('T', 'S', 'X') => Some(Mnemonic::TSX),
            ('T', 'X', 'A') => Some(Mnemonic::TXA),
            ('T', 'X', 'S') => Some(Mnemonic::TXS),
            ('T', 'Y', 'A') => Some(Mnemonic::TYA),
            _ => None,
        }
    }
}

/// No two mnemonics share a name.
pub proof fn lemma_names_distinct(m1: Mnemonic, m2: Mnemonic)
    ensures
        m1.letters() == m2.letters() ==> m1 == m2,
{
}

/// `s` with its ASCII letters in upper case.
pub open spec fn upper(s: Seq<char>) -> Seq<char> {
    s.map_values(|c: char| ascii_upper(c))
}

/// The mnemonic that `s` names, ignoring the case of ASCII letters.
pub open spec fn mnemonic_of(s: Seq<char>) -> Option<Mnemonic> {
    if exists|m: Mnemonic| m.spec_name() == upper(s) {
        Some(choose|m: Mnemonic| m.spec_name() == upper(s))
    } else {
        None
    }
}

/// Names are read without regard to the case of their letters.
pub proof fn lemma_mnemonic_case_insensitive(s: Seq<char>, t: Seq<char>)
    requires
        upper(s) == upper(t),
    ensures
        mnemonic_of(s) == mnemonic_of(t),
{
}

impl Mnemonic {
    /// Reads a mnemonic from its three-letter name, in any case.
    pub fn from_name(s: &str) -> (r: Result<Mnemonic, DecodeError>)
        ensures
            match mnemonic_of(s@) {
                Some(m) => r == Ok::<Mnemonic, DecodeError>(m),
                None => r == Err::<Mnemonic, DecodeError>(DecodeError::UnknownMnemonic),
            },
    {
        let cs = chars_of(s);
        if cs.len() != 3 {
            proof {
                assert forall|m: Mnemonic| m.spec_name() != upper(s@) by {
                    assert(m.spec_name().len() == 3);
                }
            }
            return Err(DecodeError::UnknownMnemonic);
        }
        let found = Mnemonic::from_letters(to_upper(cs[0]), to_upper(cs[1]), to_upper(cs[2]));
        proof {
            let u = upper(s@);
            assert(u.len() == 3 && u[0] == ascii_upper(cs@[0]) && u[1] == ascii_upper(cs@[1])
                && u[2] == ascii_upper(cs@[2]));
            assert forall|m: Mnemonic| #[trigger] m.spec_name() == u <==> m.letters() == (u[0], u[1], u[2]) by {
                if m.letters() == (u[0], u[1], u[2]) {
                    assert(m.spec_name() =~= u);
                }
            }
        }
        match found {
            Some(m) => {
                proof {
                    let u = upper(s@);
                    assert(m.spec_name() == u);
                    let k = choose|k: Mnemonic| k.spec_name() == u;
                    lemma_names_distinct(m, k);
                }
                Ok(m)
            },
            None => Err(DecodeError::UnknownMnemonic),
        }
    }
}

/// The syntactic shape of an operand, with the address expression it carries
/// as unparsed text.
#[derive(Debug, PartialEq, Eq)]
pub enum PseudoAddressingMode {
    /// No operand.
    Implicit,
    /// `A`.
    Accumulator,
    /// `#expr`, an immediate value.
    Inmediate(String),
    /// `expr`.
    Direct(String),
    /// `expr,x`.
    IndexedByX(String),
    /// `expr,y`.
    IndexedByY(String),
    /// `(expr,x)`.
    IndirectByX(String),
    /// `(expr),y`.
    IndirectByY(String),
    /// `(expr)`.
    Indirect(String),
}

/// An addressing mode with its expression as a character sequence.
pub enum ModeView {
    Implicit,
    Accumulator,
    Inmediate(Seq<char>),
    Direct(Seq<char>),
    IndexedByX(Seq<char>),
    IndexedByY(Seq<char>),
    IndirectByX(Seq<char>),
    IndirectByY(Seq<char>),
    Indirect(Seq<char>),
}

impl View for PseudoAddressingMode {
    type V = ModeView;

    open spec fn view(&self) -> ModeView {
        match self {
            PseudoAddressingMode::Implicit => ModeView::Implicit,
            PseudoAddressingMode::Accumulator => ModeView::Accumulator,
            PseudoAddressingMode::Inmediate(e) => ModeView::Inmediate(e@),
            PseudoAddressingMode::Direct(e) => ModeView::Direct(e@),
            PseudoAddressingMode::IndexedByX(e) => ModeView::IndexedByX(e@),
            PseudoAddressingMode::IndexedByY(e) => ModeView::IndexedByY(e@),
            PseudoAddressingMode::IndirectByX(e) => ModeView::IndirectByX(e@),
            PseudoAddressingMode::IndirectByY(e) => ModeView::IndirectByY(e@),
            PseudoAddressingMode::Indirect(e) => ModeView::Indirect(e@),
        }
    }
}

/// The X index register, in either case.
pub open spec fn is_x(c: char) -> bool {
    c == 'x' || c == 'X'
}

/// The Y index register, in either case.
pub open spec fn is_y(c: char) -> bool {
    c == 'y' || c == 'Y'
}

/// The shape of operand text `o`: the first of these that fits, each with a
/// non-empty expression.
pub open spec fn shape_of(o: Seq<char>) -> ModeView {
    let n = o.len() as int;
    if n == 0 {
        ModeView::Implicit
    } else if o == seq!['A'] {
        ModeView::Accumulator
    } else if n >= 2 && o[0] == '#' {
        ModeView::Inmediate(o.subrange(1, n))
    } else if n >= 5 && o[0] == '(' && o[n - 3] == ',' && is_x(o[n - 2]) && o[n - 1] == ')' {
        ModeView::IndirectByX(o.subrange(1, n - 3))
    } else if n >= 5 && o[0] == '(' && o[n - 3] == ')' && o[n - 2] == ',' && is_y(o[n - 1]) {
        ModeView::IndirectByY(o.subrange(1, n - 3))
    } else if n >= 3 && o[0] == '(' && o[n - 1] == ')' {
        ModeView::Indirect(o.subrange(1, n - 1))
    } else if n >= 3 && o[n - 2] == ',' && is_x(o[n - 1]) {
        ModeView::IndexedByX(o.subrange(0, n - 2))
    } else if n >= 3 && o[n - 2] == ',' && is_y(o[n - 1]) {
        ModeView::IndexedByY(o.subrange(0, n - 2))
    } else {
        ModeView::Direct(o)
    }
}

impl PseudoAddressingMode {
    /// Classifies operand text by its shape; every text has one.
    pub fn classify(o: &str) -> (r: PseudoAddressingMode)
        ensures
            r@ == shape_of(o@),
    {
        let cs = chars_of(o);
        let n = cs.len();
        if n == 0 {
            return PseudoAddressingMode::Implicit;
        }
        if n == 1 && cs[0] == 'A' {
            assert(o@ =~= seq!['A']);
            return PseudoAddressingMode::Accumulator;
        }
        assert(o@ != seq!['A']) by {
            if n == 1 {
                assert(seq!['A'][0] == 'A');
            }
        }
        let x_at_end = n >= 2 && (cs[n - 1] == 'x' || cs[n - 1] == 'X');
        let y_at_end = n >= 2 && (cs[n - 1] == 'y' || cs[n - 1] == 'Y');
        let x_before_paren = n >= 2 && (cs[n - 2] == 'x' || cs[n - 2] == 'X');
        if n >= 2 && cs[0] == '#' {
            PseudoAddressingMode::Inmediate(slice(o, 1, n))
        } else if n >= 5 && cs[0] == '(' && cs[n - 3] == ',' && x_before_paren && cs[n - 1] == ')' {
            PseudoAddressingMode::IndirectByX(slice(o, 1, n - 3))
        } else if n >= 5 && cs[0] == '(' && cs[n - 3] == ')' && cs[n - 2] == ',' && y_at_end {
            PseudoAddressingMode::IndirectByY(slice(o, 1, n - 3))
        } else if n >= 3 && cs[0] == '(' && cs[n - 1] == ')' {
            PseudoAddressingMode::Indirect(slice(o, 1, n - 1))
        } else if n >= 3 && cs[n - 2] == ',' && x_at_end {
            PseudoAddressingMode::IndexedByX(slice(o, 0, n - 2))
        } else if n >= 3 && cs[n - 2] == ',' && y_at_end {
            PseudoAddressingMode::IndexedByY(slice(o, 0, n - 2))
        } else {
            PseudoAddressingMode::Direct(o.to_owned())
        }
    }
}

/// A decoded instruction: an operation and the shape of its operand.
#[derive(Debug, PartialEq, Eq)]
pub struct Instruction(pub Mnemonic, pub PseudoAddressingMode);

impl View for Instruction {
    type V = (Mnemonic, ModeView);

    open spec fn view(&self) -> (Mnemonic, ModeView) {
        (self.0, self.1@)
    }
}

/// The operand of trimmed instruction text `t`: what follows the name and the
/// one separator character after it.
pub open spec fn operand_of(t: Seq<char>) -> Seq<char> {
    if t.len() > 4 {
        t.subrange(4, t.len() as int)
    } else {
        Seq::empty()
    }
}

/// What instruction text `s` decodes to: its first three characters, once
/// trimmed, name the mnemonic, and the rest is classified as an operand.
pub open spec fn decode_spec(s: Seq<char>) -> Result<(Mnemonic, ModeView), DecodeError> {
    let t = trim(s);
    if t.len() < 3 {
        Err(DecodeError::UnknownMnemonic)
    } else {
        match mnemonic_of(t.subrange(0, 3)) {
            Some(m) => Ok((m, shape_of(operand_of(t)))),
            None => Err(DecodeError::UnknownMnemonic),
        }
    }
}

impl Instruction {
    /// Decodes instruction text into a mnemonic and an addressing mode.
    pub fn decode(text: &str) -> (r: Result<Instruction, DecodeError>)
        ensures
            match decode_spec(text@) {
                Ok(v) => r matches Ok(i) && i@ == v,
                Err(e) => r == Err::<Instruction, DecodeError>(e),
            },
    {
        let cs = chars_of(text);
        let (a, b) = trim_bounds(&cs, 0, cs.len());
        assert(cs@.subrange(0, cs@.len() as int) =~= text@);
        if b - a < 3 {
            return Err(DecodeError::UnknownMnemonic);
        }
        let name = text.substring_char(a, a + 3);
        assert(name@ =~= trim(text@).subrange(0, 3));
        let m = match Mnemonic::from_name(name) {
            Ok(m) => m,
            Err(e) => {
                return Err(e);
            },
        };
        let operand = if b - a > 4 {
            text.substring_char(a + 4, b)
        } else {
            ""
        };
        proof {
            reveal_strlit("");
            assert(operand@ =~= operand_of(trim(text@)));
        }
        Ok(Instruction(m, PseudoAddressingMode::classify(operand)))
    }
}

impl FromStr for Mnemonic {
    type Err = DecodeError;

    fn from_str(s: &str) -> (r: Result<Mnemonic, DecodeError>)
        ensures
            match mnemonic_of(s@) {
                Some(m) => r == Ok::<Mnemonic, DecodeError>(m),
                None => r == Err::<Mnemonic, DecodeError>(DecodeError::UnknownMnemonic),
            },
    {
        Mnemonic::from_name(s)
    }
}

impl FromStr for PseudoAddressingMode {
    type Err = DecodeError;

    fn from_str(s: &str) -> (r: Result<PseudoAddressingMode, DecodeError>)
        ensures
            r matches Ok(p) && p@ == shape_of(s@),
    {
        Ok(PseudoAddressingMode::classify(s))
    }
}

impl FromStr for Instruction {
    type Err = DecodeError;

    fn from_str(s: &str) -> (r: Result<Instruction, DecodeError>)
        ensures
            match decode_spec(s@) {
                Ok(v) => r matches Ok(i) && i@ == v,
                Err(e) => r == Err::<Instruction, DecodeError>(e),
            },
    {
        Instruction::decode(s)
    }
}

/// Operand text in the shape that `mode` stands for, with lower-case index
/// registers.
pub open spec fn operand_text(mode: ModeView) -> Seq<char> {
    match mode {
        ModeView::Implicit => Seq::empty(),
        ModeView::Accumulator => seq!['A'],
        ModeView::Inmediate(e) => seq!['#'] + e,
        ModeView::Direct(e) => e,
        ModeView::IndexedByX(e) => e + seq![',', 'x'],
        ModeView::IndexedByY(e) => e + seq![',', 'y'],
        ModeView::IndirectByX(e) => seq!['('] + e + seq![',', 'x', ')'],
        ModeView::IndirectByY(e) => seq!['('] + e + seq![')', ',', 'y'],
        ModeView::Indirect(e) => seq!['('] + e + seq![')'],
    }
}

/// An address expression that none of the shapes' punctuation can be read
/// into: not empty, no parenthesis or comma, no `#` in front, no whitespace at
/// the end, and not the accumulator's `A`.
pub open spec fn is_plain_expression(e: Seq<char>) -> bool {
    &&& e.len() > 0
    &&& e[0] != '#'
    &&& !is_space(e.last())
    &&& e != seq!['A']
    &&& forall|k: int| 0 <= k < e.len() ==> #[trigger] e[k] != '(' && e[k] != ')' && e[k] != ','
}

/// Every expression that `mode` carries is plain.
pub open spec fn is_plain_mode(mode: ModeView) -> bool {
    match mode {
        ModeView::Implicit => true,
        ModeView::Accumulator => true,
        ModeView::Inmediate(e) => is_plain_expression(e),
        ModeView::Direct(e) => is_plain_expression(e),
        ModeView::IndexedByX(e) => is_plain_expression(e),
        ModeView::IndexedByY(e) => is_plain_expression(e),
        ModeView::IndirectByX(e) => is_plain_expression(e),
        ModeView::IndirectByY(e) => is_plain_expression(e),
        ModeView::Indirect(e) => is_plain_expression(e),
    }
}

/// The instruction text `m`, a space, and `mode`'s operand.
pub open spec fn instruction_text(m: Mnemonic, mode: ModeView) -> Seq<char> {
    m.spec_name() + seq![' '] + operand_text(mode)
}

/// Each operand shape is classified as itself.
pub proof fn lemma_shape_of_operand_text(mode: ModeView)
    requires
        is_plain_mode(mode),
    ensures
        shape_of(operand_text(mode)) == mode,
{
    let o = operand_text(mode);
    let n = o.len() as int;
    match mode {
        ModeView::Implicit => {},
        ModeView::Accumulator => {},
        ModeView::Inmediate(e) => {
            assert(o[0] == '#');
            assert(o.subrange(1, n) =~= e);
        },
        ModeView::Direct(e) => {
            if n >= 2 {
                assert(e[n - 2] != ',');
            }
            if n >= 1 {
                assert(e[n - 1] != ')');
            }
            assert(e[0] != '(');
        },
        ModeView::IndexedByX(e) => {
            assert(o[0] == e[0]);
            assert(o[n - 2] == ',' && o[n - 1] == 'x');
            assert(o != seq!['A']) by {
                assert(o.len() != 1);
            }
            assert(o.subrange(0, n - 2) =~= e);
        },
        ModeView::IndexedByY(e) => {
            assert(o[0] == e[0]);
            assert(o[n - 2] == ',' && o[n - 1] == 'y');
            assert(o != seq!['A']) by {
                assert(o.len() != 1);
            }
            assert(o.subrange(0, n - 2) =~= e);
        },
        ModeView::IndirectByX(e) => {
            assert(o[0] == '(' && o[n - 3] == ',' && o[n - 2] == 'x' && o[n - 1] == ')');
            assert(o != seq!['A']) by {
                assert(o.len() != 1);
            }
            assert(o.subrange(1, n - 3) =~= e);
        },
        ModeView::IndirectByY(e) => {
            assert(o[0] == '(' && o[n - 3] == ')' && o[n - 2] == ',' && o[n - 1] == 'y');
            assert(o != seq!['A']) by {
                assert(o.len() != 1);
            }
            assert(o.subrange(1, n - 3) =~= e);
        },
        ModeView::Indirect(e) => {
            assert(o[0] == '(' && o[n - 1] == ')');
            if n >= 5 {
                assert(o[n - 3] == e[n - 4]);
            }
            assert(o != seq!['A']) by {
                assert(o.len() != 1);
            }
            assert(o.subrange(1, n - 1) =~= e);
        },
    }
}

/// For every mnemonic and every operand shape with a plain expression, the
/// mnemonic's name, a space and the operand decode to exactly that mnemonic
/// and shape.
pub proof fn lemma_decode_round_trip(m: Mnemonic, mode: ModeView)
    requires
        is_plain_mode(mode),
    ensures
        decode_spec(instruction_text(m, mode)) == Ok::<(Mnemonic, ModeView), DecodeError>(
            (m, mode),
        ),
{
    let name = m.spec_name();
    let o = operand_text(mode);
    let t = instruction_text(m, mode);
    assert(t[0] == name[0] && t[3] == ' ');
    lemma_trim_start_at(t, 0);
    assert(t.subrange(0, t.len() as int) =~= t);
    if o.len() == 0 {
        assert(t.len() == 4);
        lemma_trim_end_at(t, 3);
    } else {
        assert(t.last() == o.last());
        assert(!is_space(o.last())) by {
            match mode {
                ModeView::Inmediate(e) => {
                    assert(o.last() == e.last());
                },
                _ => {},
            }
        }
        lemma_trim_end_at(t, t.len() as int);
        assert(operand_of(t) =~= o);
    }
    let u = trim(t);
    assert(u.subrange(0, 3) =~= name);
    assert(upper(name) =~= name);
    let k = choose|k: Mnemonic| k.spec_name() == upper(name);
    lemma_names_distinct(m, k);
    assert(k.letters() == m.letters()) by {
        assert(k.spec_name()[0] == m.spec_name()[0]);
        assert(k.spec_name()[1] == m.spec_name()[1]);
        assert(k.spec_name()[2] == m.spec_name()[2]);
    }
    lemma_shape_of_operand_text(mode);
}

/// No text is the operand of two distinct plain shapes.
pub proof fn lemma_shapes_never_collide(m: Mnemonic, mode1: ModeView, mode2: ModeView)
    requires
        is_plain_mode(mode1),
        is_plain_mode(mode2),
        instruction_text(m, mode1) == instruction_text(m, mode2),
    ensures
        mode1 == mode2,
{
    lemma_decode_round_trip(m, mode1);
    lemma_decode_round_trip(m, mode2);
}

} // verus!
