//! One line of the program: an optional label, an opcode or a directive,
//! and up to three operands; the parsers for the instruction shapes, tried
//! in the grammar's fixed precedence order; and the 4-byte encoding of an
//! opcode line.
use crate::assembler::base_assembler::{AssemblerError, ErrModel};
use crate::assembler::directive_parsers;
use crate::assembler::opcode_parser;
use crate::assembler::operand_parser;
use crate::assembler::register_parser;
use crate::assembler::scan;
use crate::assembler::{spec_symbol_value, SymbolModel, SymbolTable, Token, TokenModel};
use crate::instruction::spec_opcode_to_u8;
use vstd::prelude::*;

verus! {

/// A parsed instruction. Exactly one of `opcode` and `directive` is set by
/// the grammar; the three operand slots are filled left to right.
#[derive(Debug, PartialEq, Clone)]
pub struct AssemblerInstruction {
    pub opcode: Option<Token>,
    pub label: Option<Token>,
    pub directive: Option<Token>,
    pub operand1: Option<Token>,
    pub operand2: Option<Token>,
    pub operand3: Option<Token>,
}

/// The mathematical shape of an instruction.
pub struct InstrModel {
    pub opcode: Option<TokenModel>,
    pub label: Option<TokenModel>,
    pub directive: Option<TokenModel>,
    pub operand1: Option<TokenModel>,
    pub operand2: Option<TokenModel>,
    pub operand3: Option<TokenModel>,
}

pub open spec fn view_opt_token(t: Option<Token>) -> Option<TokenModel> {
    match t {
        Some(tok) => Some(tok@),
        None => None,
    }
}

impl View for AssemblerInstruction {
    type V = InstrModel;

    open spec fn view(&self) -> InstrModel {
        InstrModel {
            opcode: view_opt_token(self.opcode),
            label: view_opt_token(self.label),
            directive: view_opt_token(self.directive),
            operand1: view_opt_token(self.operand1),
            operand2: view_opt_token(self.operand2),
            operand3: view_opt_token(self.operand3),
        }
    }
}

/// The name under a label declaration token, if the instruction has one.
pub open spec fn spec_label_name(i: InstrModel) -> Option<Seq<char>> {
    match i.label {
        Some(TokenModel::LabelDeclaration { name }) => Some(name),
        _ => None,
    }
}

/// The name under a directive token, if the instruction has one.
pub open spec fn spec_directive_name(i: InstrModel) -> Option<Seq<char>> {
    match i.directive {
        Some(TokenModel::Directive { name }) => Some(name),
        _ => None,
    }
}

/// The string constant in the first operand slot, if there is one.
pub open spec fn spec_string_constant(i: InstrModel) -> Option<Seq<char>> {
    match i.operand1 {
        Some(TokenModel::IrString { name }) => Some(name),
        _ => None,
    }
}

pub open spec fn spec_has_operand(i: InstrModel) -> bool {
    i.operand1 is Some || i.operand2 is Some || i.operand3 is Some
}

/// The bytes one operand token contributes to the instruction word: one
/// byte for a register, two big-endian bytes for an immediate, and the
/// referenced symbol's offset, two big-endian bytes, for a label usage. Any
/// other token in an operand slot is an internal-consistency fault.
pub open spec fn spec_operand_bytes(t: TokenModel, syms: Seq<SymbolModel>) -> Result<
    Seq<u8>,
    ErrModel,
> {
    match t {
        TokenModel::Register { reg } => Ok(seq![reg]),
        TokenModel::IntergerOperand { val } => {
            let w = (val as int) % 0x10000;
            Ok(seq![(w / 0x100) as u8, (w % 0x100) as u8])
        },
        TokenModel::LabelUsage { name } => match spec_symbol_value(syms, name) {
            Some(off) => {
                let w = (off as int) % 0x10000;
                Ok(seq![(w / 0x100) as u8, (w % 0x100) as u8])
            },
            None => Err(ErrModel::UndefinedSymbol),
        },
        _ => Err(ErrModel::NonOpcodeInOpcodeField),
    }
}

/// The bytes of the three operand slots joined, left to right.
pub open spec fn spec_operands_bytes(i: InstrModel, syms: Seq<SymbolModel>) -> Result<
    Seq<u8>,
    ErrModel,
> {
    let r1 = match i.operand1 {
        Some(t) => spec_operand_bytes(t, syms),
        None => Ok(Seq::<u8>::empty()),
    };
    let r2 = match i.operand2 {
        Some(t) => spec_operand_bytes(t, syms),
        None => Ok(Seq::<u8>::empty()),
    };
    let r3 = match i.operand3 {
        Some(t) => spec_operand_bytes(t, syms),
        None => Ok(Seq::<u8>::empty()),
    };
    if r1 is Err {
        r1
    } else if r2 is Err {
        r2
    } else if r3 is Err {
        r3
    } else {
        Ok(r1->Ok_0 + r2->Ok_0 + r3->Ok_0)
    }
}

/// A byte sequence cut or zero-padded to the fixed instruction width of
/// four bytes.
pub open spec fn spec_word4(b: Seq<u8>) -> Seq<u8> {
    (b + seq![0u8, 0u8, 0u8, 0u8]).subrange(0, 4)
}

/// The 4-byte word an opcode line encodes to: the opcode's byte, the
/// operand bytes left to right, zero-padded, at the fixed width of four. A
/// missing or non-opcode token in the opcode field is a fault.
pub open spec fn spec_instr_to_bytes(i: InstrModel, syms: Seq<SymbolModel>) -> Result<
    Seq<u8>,
    ErrModel,
> {
    match i.opcode {
        Some(TokenModel::Op { code }) => match spec_operands_bytes(i, syms) {
            Ok(ops) => Ok(spec_word4(seq![spec_opcode_to_u8(code)] + ops)),
            Err(e) => Err(e),
        },
        _ => Err(ErrModel::NonOpcodeInOpcodeField),
    }
}

impl AssemblerInstruction {
    pub fn is_label(&self) -> (r: bool)
        ensures
            r == (self@.label is Some),
    {
        self.label.is_some()
    }

    pub fn is_opcode(&self) -> (r: bool)
        ensures
            r == (self@.opcode is Some),
    {
        self.opcode.is_some()
    }

    pub fn is_directive(&self) -> (r: bool)
        ensures
            r == (self@.directive is Some),
    {
        self.directive.is_some()
    }

    /// The declared label's name, when the label slot holds a declaration.
    pub fn label_name(&self) -> (r: Option<String>)
        ensures
            match r {
                Some(n) => spec_label_name(self@) == Some(n@),
                None => spec_label_name(self@) is None,
            },
    {
        match &self.label {
            Some(Token::LabelDeclaration { name }) => Some(name.clone()),
            Some(_) => None,
            None => None,
        }
    }

    /// The directive's name, when the directive slot holds one.
    pub fn get_directive_name(&self) -> (r: Option<String>)
        ensures
            match r {
                Some(n) => spec_directive_name(self@) == Some(n@),
                None => spec_directive_name(self@) is None,
            },
    {
        match &self.directive {
            Some(Token::Directive { name }) => Some(name.clone()),
            Some(_) => None,
            None => None,
        }
    }

    /// The string constant in the first operand slot, when there is one.
    pub fn get_string_constant(&self) -> (r: Option<String>)
        ensures
            match r {
                Some(n) => spec_string_constant(self@) == Some(n@),
                None => spec_string_constant(self@) is None,
            },
    {
        match &self.operand1 {
            Some(Token::IrString { name }) => Some(name.clone()),
            Some(_) => None,
            None => None,
        }
    }

    pub fn has_operand(&self) -> (r: bool)
        ensures
            r == spec_has_operand(self@),
    {
        self.operand1.is_some() || self.operand2.is_some() || self.operand3.is_some()
    }

    /// Append one operand token's bytes; a token that cannot stand in an
    /// operand slot, or an unresolved label, leaves `result` unchanged and
    /// reports the fault.
    fn extract_operand(t: &Token, result: &mut Vec<u8>, symbol_table: &SymbolTable) -> (r: Result<
        (),
        AssemblerError,
    >)
        ensures
            match r {
                Ok(_) => spec_operand_bytes(t@, symbol_table@) is Ok && final(result)@ == old(
                    result,
                )@ + spec_operand_bytes(t@, symbol_table@)->Ok_0,
                Err(e) => spec_operand_bytes(t@, symbol_table@) == Err::<Seq<u8>, ErrModel>(e@)
                    && final(result)@ == old(result)@,
            },
    {
        match t {
            Token::Register { reg } => {
                result.push(*reg);
                proof {
                    assert(result@ =~= old(result)@ + spec_operand_bytes(t@, symbol_table@)->Ok_0);
                }
                Ok(())
            },
            Token::IntergerOperand { val } => {
                let w = low16_of_i32(*val);
                result.push((w / 0x100) as u8);
                result.push((w % 0x100) as u8);
                proof {
                    assert(result@ =~= old(result)@ + spec_operand_bytes(t@, symbol_table@)->Ok_0);
                }
                Ok(())
            },
            Token::LabelUsage { name } => match symbol_table.symbol_value(name.as_str()) {
                Some(off) => {
                    let w = off % 0x10000;
                    result.push((w / 0x100) as u8);
                    result.push((w % 0x100) as u8);
                    proof {
                        assert(result@ =~= old(result)@ + spec_operand_bytes(
                            t@,
                            symbol_table@,
                        )->Ok_0);
                    }
                    Ok(())
                },
                None => Err(AssemblerError::UndefinedSymbol),
            },
            _ => Err(AssemblerError::NonOpcodeInOpcodeField),
        }
    }

    /// Encode this line as its 4-byte instruction word, resolving label
    /// operands through the symbol table.
    pub fn to_bytes(&self, symbol_table: &SymbolTable) -> (r: Result<Vec<u8>, AssemblerError>)
        ensures
            match r {
                Ok(b) => spec_instr_to_bytes(self@, symbol_table@) == Ok::<Seq<u8>, ErrModel>(b@)
                    && b@.len() == 4,
                Err(e) => spec_instr_to_bytes(self@, symbol_table@) == Err::<Seq<u8>, ErrModel>(
                    e@,
                ),
            },
    {
        let mut result: Vec<u8> = Vec::new();
        let code = match &self.opcode {
            Some(Token::Op { code }) => *code,
            _ => {
                return Err(AssemblerError::NonOpcodeInOpcodeField);
            },
        };
        result.push(code.to_u8());
        if let Some(t) = &self.operand1 {
            match Self::extract_operand(t, &mut result, symbol_table) {
                Ok(_) => (),
                Err(e) => {
                    return Err(e);
                },
            }
        }
        if let Some(t) = &self.operand2 {
            match Self::extract_operand(t, &mut result, symbol_table) {
                Ok(_) => (),
                Err(e) => {
                    return Err(e);
                },
            }
        }
        if let Some(t) = &self.operand3 {
            match Self::extract_operand(t, &mut result, symbol_table) {
                Ok(_) => (),
                Err(e) => {
                    return Err(e);
                },
            }
        }
        let ghost full = result@;
        proof {
            assert(spec_operands_bytes(self@, symbol_table@) is Ok);
            assert(full =~= seq![spec_opcode_to_u8(code)] + spec_operands_bytes(
                self@,
                symbol_table@,
            )->Ok_0);
        }
        result.push(0);
        result.push(0);
        result.push(0);
        result.push(0);
        result.truncate(4);
        proof {
            assert(result@ =~= spec_word4(full));
        }
        Ok(result)
    }
}

/// The low 16 bits of a signed 32-bit value, as Euclidean remainder.
fn low16_of_i32(val: i32) -> (r: u32)
    ensures
        r == (val as int) % 0x10000,
        r < 0x10000,
{
    if val >= 0 {
        (val as u32) % 0x10000
    } else {
        let shifted: i64 = (val as i64) + 0x1_0000_0000;
        proof {
            assert(((val as int) + 0x1_0000_0000) % 0x10000 == (val as int) % 0x10000) by (nonlinear_arith);
        }
        ((shifted as u32) % 0x10000) as u32
    }
}

/// The register-and-immediate shape: an opcode, one register, one integer.
pub open spec fn spec_instruction_one(s: Seq<char>, pos: int) -> Option<(int, InstrModel)> {
    match opcode_parser::spec_opcode(s, pos) {
        None => None,
        Some((i1, op)) => match register_parser::spec_register(s, i1) {
            None => None,
            Some((i2, r)) => match operand_parser::spec_interger_operand(s, i2) {
                None => None,
                Some((i3, n)) => Some(
                    (
                        i3,
                        InstrModel {
                            label: None,
                            directive: None,
                            opcode: Some(op),
                            operand1: Some(r),
                            operand2: Some(n),
                            operand3: None,
                        },
                    ),
                ),
            },
        },
    }
}

/// The bare shape: an opcode alone, followed by optional whitespace.
pub open spec fn spec_instruction_two(s: Seq<char>, pos: int) -> Option<(int, InstrModel)> {
    match opcode_parser::spec_opcode(s, pos) {
        None => None,
        Some((i1, op)) => Some(
            (
                scan::spec_skip_space(s, i1),
                InstrModel {
                    label: None,
                    directive: None,
                    opcode: Some(op),
                    operand1: None,
                    operand2: None,
                    operand3: None,
                },
            ),
        ),
    }
}

/// The three-register shape: an opcode and three registers.
pub open spec fn spec_instruction_three(s: Seq<char>, pos: int) -> Option<(int, InstrModel)> {
    match opcode_parser::spec_opcode(s, pos) {
        None => None,
        Some((i1, op)) => match register_parser::spec_register(s, i1) {
            None => None,
            Some((i2, r1)) => match register_parser::spec_register(s, i2) {
                None => None,
                Some((i3, r2)) => match register_parser::spec_register(s, i3) {
                    None => None,
                    Some((i4, r3)) => Some(
                        (
                            i4,
                            InstrModel {
                                label: None,
                                directive: None,
                                opcode: Some(op),
                                operand1: Some(r1),
                                operand2: Some(r2),
                                operand3: Some(r3),
                            },
                        ),
                    ),
                },
            },
        },
    }
}

/// An optional operand: the position moves only on a match.
pub open spec fn spec_opt_operand(s: Seq<char>, pos: int) -> (int, Option<TokenModel>) {
    match operand_parser::spec_operand(s, pos) {
        Some((e, t)) => (e, Some(t)),
        None => (pos, None),
    }
}

/// The generic shape: an optional label declaration, an opcode, and up to
/// three free operands.
pub open spec fn spec_instruction_four(s: Seq<char>, pos: int) -> Option<(int, InstrModel)> {
    let (lab, i1): (Option<TokenModel>, int) = match crate::assembler::label_parsers::spec_label_declaration(
        s,
        pos,
    ) {
        Some((e, t)) => (Some(t), e),
        None => (None, pos),
    };
    match opcode_parser::spec_opcode(s, i1) {
        None => None,
        Some((i2, op)) => {
            let (i3, o1) = spec_opt_operand(s, i2);
            let (i4, o2) = spec_opt_operand(s, i3);
            let (i5, o3) = spec_opt_operand(s, i4);
            Some(
                (
                    i5,
                    InstrModel {
                        label: lab,
                        directive: None,
                        opcode: Some(op),
                        operand1: o1,
                        operand2: o2,
                        operand3: o3,
                    },
                ),
            )
        },
    }
}

/// The instruction shapes in their precedence order: three registers, then
/// register and immediate, then the bare opcode, then the generic form. The
/// order is part of the grammar: the earlier, more specific shapes must not
/// be shadowed by the later ones.
pub open spec fn spec_instruction_combined(s: Seq<char>, pos: int) -> Option<(int, InstrModel)> {
    if spec_instruction_three(s, pos) is Some {
        spec_instruction_three(s, pos)
    } else if spec_instruction_one(s, pos) is Some {
        spec_instruction_one(s, pos)
    } else if spec_instruction_two(s, pos) is Some {
        spec_instruction_two(s, pos)
    } else {
        spec_instruction_four(s, pos)
    }
}

/// A whole line: one of the opcode shapes, or a directive line.
pub open spec fn spec_instruction(s: Seq<char>, pos: int) -> Option<(int, InstrModel)> {
    if spec_instruction_combined(s, pos) is Some {
        spec_instruction_combined(s, pos)
    } else {
        directive_parsers::spec_directive(s, pos)
    }
}

pub fn instruction_one(s: &str, pos: usize) -> (r: Option<(usize, AssemblerInstruction)>)
    requires
        pos <= s@.len(),
    ensures
        match r {
            Some((e, ins)) => spec_instruction_one(s@, pos as int) == Some((e as int, ins@))
                && pos < e <= s@.len(),
            None => spec_instruction_one(s@, pos as int) is None,
        },
{
    let (i1, op) = match opcode_parser::opcode(s, pos) {
        Some(x) => x,
        None => {
            return None;
        },
    };
    let (i2, r1) = match register_parser::register(s, i1) {
        Some(x) => x,
        None => {
            return None;
        },
    };
    proof {
        operand_parser::lemma_register_advances(s@, i1 as int);
    }
    let (i3, n1) = match operand_parser::interger_operand(s, i2) {
        Some(x) => x,
        None => {
            return None;
        },
    };
    Some(
        (
            i3,
            AssemblerInstruction {
                label: None,
                directive: None,
                opcode: Some(op),
                operand1: Some(r1),
                operand2: Some(n1),
                operand3: None,
            },
        ),
    )
}

pub fn instruction_two(s: &str, pos: usize) -> (r: Option<(usize, AssemblerInstruction)>)
    requires
        pos <= s@.len(),
    ensures
        match r {
            Some((e, ins)) => spec_instruction_two(s@, pos as int) == Some((e as int, ins@))
                && pos < e <= s@.len(),
            None => spec_instruction_two(s@, pos as int) is None,
        },
{
    let (i1, op) = match opcode_parser::opcode(s, pos) {
        Some(x) => x,
        None => {
            return None;
        },
    };
    let e = scan::skip_space(s, i1);
    Some(
        (
            e,
            AssemblerInstruction {
                label: None,
                directive: None,
                opcode: Some(op),
                operand1: None,
                operand2: None,
                operand3: None,
            },
        ),
    )
}

pub fn instruction_three(s: &str, pos: usize) -> (r: Option<(usize, AssemblerInstruction)>)
    requires
        pos <= s@.len(),
    ensures
        match r {
            Some((e, ins)) => spec_instruction_three(s@, pos as int) == Some((e as int, ins@))
                && pos < e <= s@.len(),
            None => spec_instruction_three(s@, pos as int) is None,
        },
{
    let (i1, op) = match opcode_parser::opcode(s, pos) {
        Some(x) => x,
        None => {
            return None;
        },
    };
    let (i2, r1) = match register_parser::register(s, i1) {
        Some(x) => x,
        None => {
            return None;
        },
    };
    proof {
        operand_parser::lemma_register_advances(s@, i1 as int);
    }
    let (i3, r2) = match register_parser::register(s, i2) {
        Some(x) => x,
        None => {
            return None;
        },
    };
    proof {
        operand_parser::lemma_register_advances(s@, i2 as int);
    }
    let (i4, r3) = match register_parser::register(s, i3) {
        Some(x) => x,
        None => {
            return None;
        },
    };
    proof {
        operand_parser::lemma_register_advances(s@, i3 as int);
    }
    Some(
        (
            i4,
            AssemblerInstruction {
                label: None,
                directive: None,
                opcode: Some(op),
                operand1: Some(r1),
                operand2: Some(r2),
                operand3: Some(r3),
            },
        ),
    )
}

pub fn instruction_four(s: &str, pos: usize) -> (r: Option<(usize, AssemblerInstruction)>)
    requires
        pos <= s@.len(),
    ensures
        match r {
            Some((e, ins)) => spec_instruction_four(s@, pos as int) == Some((e as int, ins@))
                && pos < e <= s@.len(),
            None => spec_instruction_four(s@, pos as int) is None,
        },
{
    let (lab, i1) = match crate::assembler::label_parsers::label_declaration(s, pos) {
        Some((e, t)) => (Some(t), e),
        None => (None, pos),
    };
    let (i2, op) = match opcode_parser::opcode(s, i1) {
        Some(x) => x,
        None => {
            return None;
        },
    };
    let (i3, o1) = match operand_parser::operand(s, i2) {
        Some((e, t)) => (e, Some(t)),
        None => (i2, None),
    };
    let (i4, o2) = match operand_parser::operand(s, i3) {
        Some((e, t)) => (e, Some(t)),
        None => (i3, None),
    };
    let (i5, o3) = match operand_parser::operand(s, i4) {
        Some((e, t)) => (e, Some(t)),
        None => (i4, None),
    };
    Some(
        (
            i5,
            AssemblerInstruction {
                label: lab,
                directive: None,
                opcode: Some(op),
                operand1: o1,
                operand2: o2,
                operand3: o3,
            },
        ),
    )
}

pub fn instruction_combined(s: &str, pos: usize) -> (r: Option<(usize, AssemblerInstruction)>)
    requires
        pos <= s@.len(),
    ensures
        match r {
            Some((e, ins)) => spec_instruction_combined(s@, pos as int) == Some((e as int, ins@))
                && pos < e <= s@.len(),
            None => spec_instruction_combined(s@, pos as int) is None,
        },
{
    let r3 = instruction_three(s, pos);
    if r3.is_some() {
        return r3;
    }
    let r1 = instruction_one(s, pos);
    if r1.is_some() {
        return r1;
    }
    let r2 = instruction_two(s, pos);
    if r2.is_some() {
        return r2;
    }
    instruction_four(s, pos)
}

/// Parse any of the instruction forms, the directive line included.
pub fn instruction(s: &str, pos: usize) -> (r: Option<(usize, AssemblerInstruction)>)
    requires
        pos <= s@.len(),
    ensures
        match r {
            Some((e, ins)) => spec_instruction(s@, pos as int) == Some((e as int, ins@)) && pos
                < e <= s@.len(),
            None => spec_instruction(s@, pos as int) is None,
        },
{
    let rc = instruction_combined(s, pos);
    if rc.is_some() {
        return rc;
    }
    directive_parsers::directive(s, pos)
}

} // verus!
