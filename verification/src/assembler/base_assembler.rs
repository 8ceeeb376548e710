//! The two-pass assembler driver: it walks a parsed program once to collect
//! sections, labels and read-only data, a second time to encode the
//! instruction words, and joins header, read-only segment and code segment
//! into the binary image.
use crate::assembler::instruction_parser::{
    spec_directive_name, spec_has_operand, spec_instr_to_bytes, spec_label_name,
    spec_operand_bytes, spec_string_constant, AssemblerInstruction, InstrModel,
};
use crate::assembler::{spec_symbol_value, TokenModel};
use crate::assembler::program_parser::{program, spec_program, Program};
use crate::assembler::scan;
use crate::assembler::{
    pie_header_prefix, spec_has_symbol, spec_pie_prefix, spec_set_symbol_offset, Symbol,
    SymbolModel, SymbolTable, SymbolType, PIE_HEADER_LENGTH,
};
use vstd::prelude::*;

verus! {

/// Which pass the assembler is in.
#[derive(Debug, PartialEq, Eq, Structural, Clone, Copy)]
pub enum AssemblerPhase {
    First,
    Second,
}

impl Default for AssemblerPhase {
    fn default() -> (r: Self)
        ensures
            r == AssemblerPhase::First,
    {
        AssemblerPhase::First
    }
}

/// A declared section of the program text.
#[derive(Debug, PartialEq, Clone, Copy)]
pub enum AssemblerSection {
    Data { starting_instruction: Option<u32> },
    Code { starting_instruction: Option<u32> },
    Unknown,
}

/// The section a directive name declares; any name but `data` and `code` is
/// unknown.
pub open spec fn spec_section_from_name(name: Seq<char>) -> AssemblerSection {
    if name == "data"@ {
        AssemblerSection::Data { starting_instruction: None }
    } else if name == "code"@ {
        AssemblerSection::Code { starting_instruction: None }
    } else {
        AssemblerSection::Unknown
    }
}

impl AssemblerSection {
    pub fn from_name(name: &str) -> (r: AssemblerSection)
        ensures
            r == spec_section_from_name(name@),
    {
        if scan::str_eq(name, "data") {
            AssemblerSection::Data { starting_instruction: None }
        } else if scan::str_eq(name, "code") {
            AssemblerSection::Code { starting_instruction: None }
        } else {
            AssemblerSection::Unknown
        }
    }
}

/// Everything that can go wrong while assembling. All but `ParseError` are
/// collected across the whole program; a parse failure is fatal at once
/// since no program exists to keep analyzing.
#[derive(Debug, PartialEq, Clone)]
pub enum AssemblerError {
    NoSegmentDeclarationFound { instruction: u32 },
    StringConstantDeclaredWithoutLabel { instruction: u32 },
    SymbolAlreadyDeclared,
    UnknownDirectiveFound { directive: String },
    NonOpcodeInOpcodeField,
    InsufficientSections,
    UndefinedSymbol,
    ParseError { error: String },
}

/// The mathematical shape of an assembler error.
pub enum ErrModel {
    NoSegmentDeclarationFound { instruction: u32 },
    StringConstantDeclaredWithoutLabel { instruction: u32 },
    SymbolAlreadyDeclared,
    UnknownDirectiveFound { directive: Seq<char> },
    NonOpcodeInOpcodeField,
    InsufficientSections,
    UndefinedSymbol,
    ParseError { error: Seq<char> },
}

impl View for AssemblerError {
    type V = ErrModel;

    open spec fn view(&self) -> ErrModel {
        match self {
            AssemblerError::NoSegmentDeclarationFound { instruction } =>
                ErrModel::NoSegmentDeclarationFound { instruction: *instruction },
            AssemblerError::StringConstantDeclaredWithoutLabel { instruction } =>
                ErrModel::StringConstantDeclaredWithoutLabel { instruction: *instruction },
            AssemblerError::SymbolAlreadyDeclared => ErrModel::SymbolAlreadyDeclared,
            AssemblerError::UnknownDirectiveFound { directive } =>
                ErrModel::UnknownDirectiveFound { directive: directive@ },
            AssemblerError::NonOpcodeInOpcodeField => ErrModel::NonOpcodeInOpcodeField,
            AssemblerError::InsufficientSections => ErrModel::InsufficientSections,
            AssemblerError::UndefinedSymbol => ErrModel::UndefinedSymbol,
            AssemblerError::ParseError { error } => ErrModel::ParseError { error: error@ },
        }
    }
}

/// The mathematical shape of the assembler's whole state.
#[verifier::ext_equal]
pub struct AsmModel {
    pub phase: AssemblerPhase,
    pub symbols: Seq<SymbolModel>,
    pub ro: Seq<u8>,
    pub bytecode: Seq<u8>,
    pub ro_offset: u32,
    pub code_offset: u32,
    pub sections: Seq<AssemblerSection>,
    pub current_section: Option<AssemblerSection>,
    pub current_instruction: u32,
    pub errors: Seq<ErrModel>,
}

/// A 32-bit offset advanced by `d`, wrapping around as the counters do.
pub open spec fn spec_u32_add(x: u32, d: int) -> u32 {
    (((x as int) + d) % 0x1_0000_0000) as u32
}

pub proof fn lemma_u32_add_zero(x: u32)
    ensures
        spec_u32_add(x, 0) == x,
{
    assert((x as int) % 0x1_0000_0000 == x as int) by (nonlinear_arith)
        requires
            0 <= x < 0x1_0000_0000,
    ;
}

/// Advancing a wrapped counter one more step is one wrapping addition.
pub proof fn lemma_u32_add_step(x: u32, a: int)
    requires
        a >= 0,
    ensures
        spec_u32_add(x, a + 1) == spec_u32_add(spec_u32_add(x, a) as u32, 1),
{
    let m = 0x1_0000_0000;
    let y = ((x as int) + a) % m;
    assert(((x as int) + a + 1) % m == (y + 1) % m) by (nonlinear_arith)
        requires
            m == 0x1_0000_0000,
            y == ((x as int) + a) % m,
    ;
    assert(0 <= y < m) by (nonlinear_arith)
        requires
            m == 0x1_0000_0000,
            y == ((x as int) + a) % m,
            (x as int) + a >= 0,
    ;
    assert((y + 1) % m == (if y + 1 == m {
        0int
    } else {
        y + 1
    })) by (nonlinear_arith)
        requires
            m == 0x1_0000_0000,
            0 <= y < m,
    ;
}

/// For small steps the wrapped counter is the plain wrapping addition.
pub proof fn lemma_u32_add_wrap(x: u32, d: u32)
    ensures
        spec_u32_add(x, d as int) == (if x + d > u32::MAX {
            (x + d - 0x1_0000_0000) as u32
        } else {
            (x + d) as u32
        }),
{
    assert(((x as int) + d) % 0x1_0000_0000 == (if x + d > u32::MAX {
        (x as int) + d - 0x1_0000_0000
    } else {
        (x as int) + d
    })) by (nonlinear_arith)
        requires
            0 <= x < 0x1_0000_0000,
            0 <= d < 0x1_0000_0000,
    ;
}

/// The empty assembler, before any pass has run.
pub open spec fn spec_assembler_init() -> AsmModel {
    AsmModel {
        phase: AssemblerPhase::First,
        symbols: Seq::<SymbolModel>::empty(),
        ro: Seq::<u8>::empty(),
        bytecode: Seq::<u8>::empty(),
        ro_offset: 0,
        code_offset: 0,
        sections: Seq::<AssemblerSection>::empty(),
        current_section: None,
        current_instruction: 0,
        errors: Seq::<ErrModel>::empty(),
    }
}

/// Declaring the label of one instruction in the first pass: a label slot
/// without a proper declaration is recorded as a string constant without a
/// label; a name already present is a duplicate; a fresh name is bound to
/// the running code offset.
pub open spec fn spec_process_label_declaration(m: AsmModel, ins: InstrModel) -> AsmModel {
    match spec_label_name(ins) {
        None => AsmModel {
            errors: m.errors.push(
                ErrModel::StringConstantDeclaredWithoutLabel { instruction: m.current_instruction },
            ),
            ..m
        },
        Some(name) => if spec_has_symbol(m.symbols, name) {
            AsmModel { errors: m.errors.push(ErrModel::SymbolAlreadyDeclared), ..m }
        } else {
            AsmModel {
                symbols: m.symbols.push(
                    SymbolModel {
                        name,
                        symbol_type: SymbolType::Label,
                        offset: Some(m.code_offset),
                    },
                ),
                ..m
            }
        },
    }
}

/// Declaring a section header: an unknown name is an unknown directive;
/// `data` and `code` are recorded and become the active section.
pub open spec fn spec_process_section_header(m: AsmModel, name: Seq<char>) -> AsmModel {
    let sec = spec_section_from_name(name);
    if sec is Unknown {
        AsmModel { errors: m.errors.push(ErrModel::UnknownDirectiveFound { directive: name }), ..m }
    } else {
        AsmModel { sections: m.sections.push(sec), current_section: Some(sec), ..m }
    }
}

/// The string-constant directive in the first pass: the owning label is
/// bound to the running read-only offset, then the string's bytes and one
/// null terminator go into the read-only segment. Outside the first pass it
/// does nothing.
pub open spec fn spec_handle_asciiz(m: AsmModel, ins: InstrModel) -> AsmModel {
    if m.phase != AssemblerPhase::First {
        m
    } else {
        match spec_string_constant(ins) {
            None => m,
            Some(strv) => match spec_label_name(ins) {
                None => AsmModel {
                    errors: m.errors.push(
                        ErrModel::StringConstantDeclaredWithoutLabel {
                            instruction: m.current_instruction,
                        },
                    ),
                    ..m
                },
                Some(name) => {
                    let bytes = vstd::utf8::encode_utf8(strv) + seq![0u8];
                    AsmModel {
                        symbols: spec_set_symbol_offset(m.symbols, name, m.ro_offset),
                        ro: m.ro + bytes,
                        ro_offset: spec_u32_add(m.ro_offset, bytes.len() as int),
                        ..m
                    }
                },
            },
        }
    }
}

/// One directive: with operands it is either the string constant or an
/// unknown directive; without, a section header. A directive token with no
/// name changes nothing.
pub open spec fn spec_process_directive(m: AsmModel, ins: InstrModel) -> AsmModel {
    match spec_directive_name(ins) {
        None => m,
        Some(name) => if spec_has_operand(ins) {
            if name == "asciiz"@ {
                spec_handle_asciiz(m, ins)
            } else {
                AsmModel {
                    errors: m.errors.push(ErrModel::UnknownDirectiveFound { directive: name }),
                    ..m
                }
            }
        } else {
            spec_process_section_header(m, name)
        },
    }
}

/// One instruction of the first pass: its label (only under an active
/// section), its directive, the code offset for an encodable line, and the
/// instruction counter.
pub open spec fn spec_p1_step(m: AsmModel, ins: InstrModel) -> AsmModel {
    let m1 = if ins.label is Some {
        if m.current_section is Some {
            spec_process_label_declaration(m, ins)
        } else {
            AsmModel {
                errors: m.errors.push(
                    ErrModel::NoSegmentDeclarationFound { instruction: m.current_instruction },
                ),
                ..m
            }
        }
    } else {
        m
    };
    let m2 = if ins.directive is Some {
        spec_process_directive(m1, ins)
    } else {
        m1
    };
    let m3 = if ins.opcode is Some {
        AsmModel { code_offset: spec_u32_add(m2.code_offset, 4), ..m2 }
    } else {
        m2
    };
    AsmModel { current_instruction: spec_u32_add(m3.current_instruction, 1), ..m3 }
}

/// The first pass over the instructions from index `i` on; it ends in the
/// second phase.
pub open spec fn spec_first_phase_from(instrs: Seq<InstrModel>, i: int, m: AsmModel) -> AsmModel
    decreases instrs.len() - i,
{
    if i < 0 || i >= instrs.len() {
        AsmModel { phase: AssemblerPhase::Second, ..m }
    } else {
        spec_first_phase_from(instrs, i + 1, spec_p1_step(m, instrs[i]))
    }
}

/// The second pass from index `i` on: each opcode line appends its 4-byte
/// word, encoded against the symbol table as it stands; a fault there is
/// fatal and leaves the state as it was before the failing line. Directive
/// lines are walked again, though outside the first phase the string
/// constant does nothing.
pub open spec fn spec_second_phase_from(
    instrs: Seq<InstrModel>,
    i: int,
    m: AsmModel,
    acc: Seq<u8>,
) -> (AsmModel, Result<Seq<u8>, ErrModel>)
    decreases instrs.len() - i,
{
    if i < 0 || i >= instrs.len() {
        (m, Ok(acc))
    } else {
        let ins = instrs[i];
        if ins.opcode is Some {
            match spec_instr_to_bytes(ins, m.symbols) {
                Ok(b) => {
                    let m2 = if ins.directive is Some {
                        spec_process_directive(m, ins)
                    } else {
                        m
                    };
                    let m3 = AsmModel {
                        current_instruction: spec_u32_add(m2.current_instruction, 1),
                        ..m2
                    };
                    spec_second_phase_from(instrs, i + 1, m3, acc + b)
                },
                Err(e) => (m, Err(e)),
            }
        } else {
            let m2 = if ins.directive is Some {
                spec_process_directive(m, ins)
            } else {
                m
            };
            let m3 = AsmModel { current_instruction: spec_u32_add(m2.current_instruction, 1), ..m2 };
            spec_second_phase_from(instrs, i + 1, m3, acc)
        }
    }
}

/// The 64-byte header: the magic prefix, zero-padded.
pub open spec fn spec_pie_header() -> Seq<u8> {
    spec_pie_prefix() + Seq::new(60, |i: int| 0u8)
}

/// A well-formed program declares exactly one data and one code section.
pub open spec fn spec_sections_ok(sections: Seq<AssemblerSection>) -> bool {
    sections.len() == 2 && ((sections[0] is Data && sections[1] is Code) || (sections[0] is Code
        && sections[1] is Data))
}

/// Assembling a parsed program: first pass, the two structural checks,
/// second pass, and the image as header, read-only segment and code. Every
/// failing path reports at least one error and emits no image.
pub open spec fn spec_assemble_program(m: AsmModel, instrs: Seq<InstrModel>) -> (AsmModel, Result<
    Seq<u8>,
    Seq<ErrModel>,
>) {
    let m1 = spec_first_phase_from(instrs, 0, m);
    if m1.errors.len() > 0 {
        (m1, Err(m1.errors))
    } else if !spec_sections_ok(m1.sections) {
        let m2 = AsmModel { errors: m1.errors.push(ErrModel::InsufficientSections), ..m1 };
        (m2, Err(m2.errors))
    } else {
        let (m3, res) = spec_second_phase_from(
            instrs,
            0,
            AsmModel { current_instruction: 0, ..m1 },
            Seq::<u8>::empty(),
        );
        match res {
            Ok(code) => (m3, Ok(spec_pie_header() + m3.ro + code)),
            Err(e) => {
                let m4 = AsmModel { errors: m3.errors.push(e), ..m3 };
                (m4, Err(m4.errors))
            },
        }
    }
}

/// Assembling a whole text: a parse failure is fatal at once, anything
/// else is the parsed program assembled.
pub open spec fn spec_assemble(m: AsmModel, s: Seq<char>) -> (AsmModel, Result<
    Seq<u8>,
    Seq<ErrModel>,
>) {
    match spec_program(s) {
        None => (m, Err(seq![ErrModel::ParseError { error: s }])),
        Some((_, instrs)) => spec_assemble_program(m, instrs),
    }
}

/// Label extraction on its own: every labelled instruction's name, bound to
/// four bytes per instruction walked, whether or not that instruction
/// encodes to code.
pub open spec fn spec_extract_label_from(
    instrs: Seq<InstrModel>,
    i: int,
    syms: Seq<SymbolModel>,
    c: u32,
) -> Seq<SymbolModel>
    decreases instrs.len() - i,
{
    if i < 0 || i >= instrs.len() {
        syms
    } else {
        let syms2 = match spec_label_name(instrs[i]) {
            Some(name) => syms.push(
                SymbolModel { name, symbol_type: SymbolType::Label, offset: Some(c) },
            ),
            None => syms,
        };
        spec_extract_label_from(instrs, i + 1, syms2, spec_u32_add(c, 4))
    }
}

/// The assembler: the cross-pass state threaded through both passes.
#[derive(Debug)]
pub struct Assembler {
    pub phase: AssemblerPhase,
    pub symbol_table: SymbolTable,
    pub ro: Vec<u8>,
    pub bytecode: Vec<u8>,
    pub ro_offset: u32,
    pub code_offset: u32,
    pub sections: Vec<AssemblerSection>,
    pub current_section: Option<AssemblerSection>,
    pub current_instruction: u32,
    pub errors: Vec<AssemblerError>,
}

impl View for Assembler {
    type V = AsmModel;

    open spec fn view(&self) -> AsmModel {
        AsmModel {
            phase: self.phase,
            symbols: self.symbol_table@,
            ro: self.ro@,
            bytecode: self.bytecode@,
            ro_offset: self.ro_offset,
            code_offset: self.code_offset,
            sections: self.sections@,
            current_section: self.current_section,
            current_instruction: self.current_instruction,
            errors: self.errors@.map_values(|e: AssemblerError| e@),
        }
    }
}

impl Default for Assembler {
    fn default() -> (r: Self)
        ensures
            r@ == spec_assembler_init(),
    {
        Assembler::new()
    }
}

impl Assembler {
    pub fn new() -> (r: Assembler)
        ensures
            r@ == spec_assembler_init(),
    {
        let a = Assembler {
            phase: AssemblerPhase::First,
            symbol_table: SymbolTable::new(),
            ro: Vec::new(),
            bytecode: Vec::new(),
            ro_offset: 0,
            code_offset: 0,
            sections: Vec::new(),
            current_section: None,
            current_instruction: 0,
            errors: Vec::new(),
        };
        proof {
            assert(a@ =~= spec_assembler_init());
        }
        a
    }

    /// Walk the program and bind every labelled line, four bytes apart,
    /// into the symbol table, without the section bookkeeping of the full
    /// first pass.
    pub fn extract_label(&mut self, p: &Program)
        ensures
            final(self)@ == (AsmModel {
                symbols: spec_extract_label_from(p@, 0, old(self)@.symbols, 0),
                ..old(self)@
            }),
    {
        let n = p.instructions.len();
        let mut i: usize = 0;
        let mut c: u32 = 0;
        while i < n
            invariant
                0 <= i <= n,
                n == p.instructions.len(),
                spec_extract_label_from(p@, 0, old(self)@.symbols, 0) == spec_extract_label_from(
                    p@,
                    i as int,
                    self@.symbols,
                    c,
                ),
                self@ == (AsmModel { symbols: self@.symbols, ..old(self)@ }),
            decreases n - i,
        {
            proof {
                assert(p@[i as int] == p.instructions@[i as int]@);
            }
            let ins = &p.instructions[i];
            if ins.is_label() {
                if let Some(name) = ins.label_name() {
                    let ghost pre = self@.symbols;
                    self.symbol_table.symbols.push(
                        Symbol { name, symbol_type: SymbolType::Label, offset: Some(c) },
                    );
                    proof {
                        assert(self@.symbols =~= pre.push(
                            self.symbol_table.symbols@[self.symbol_table.symbols@.len() - 1]@,
                        ));
                    }
                }
            }
            c = c.wrapping_add(4);
            i = i + 1;
        }
    }

    /// One label declaration of the first pass.
    fn process_label_declaration(&mut self, i: &AssemblerInstruction)
        ensures
            final(self)@ == spec_process_label_declaration(old(self)@, i@),
    {
        let name = match i.label_name() {
            Some(name) => name,
            None => {
                let ghost pre = self@;
                self.errors.push(
                    AssemblerError::StringConstantDeclaredWithoutLabel {
                        instruction: self.current_instruction,
                    },
                );
                proof {
                    assert(self@ =~= spec_process_label_declaration(pre, i@));
                }
                return ;
            },
        };
        if self.symbol_table.has_symbol(name.as_str()) {
            let ghost pre = self@;
            self.errors.push(AssemblerError::SymbolAlreadyDeclared);
            proof {
                assert(self@ =~= spec_process_label_declaration(pre, i@));
            }
            return ;
        }
        let ghost pre = self@;
        let off = self.code_offset;
        self.symbol_table.add_symbols(
            Symbol { name, symbol_type: SymbolType::Label, offset: Some(off) },
        );
        proof {
            assert(self@ =~= spec_process_label_declaration(pre, i@));
        }
    }

    /// One section header.
    fn process_section_header(&mut self, header_name: &str)
        ensures
            final(self)@ == spec_process_section_header(old(self)@, header_name@),
    {
        let new_section = AssemblerSection::from_name(header_name);
        if matches!(new_section, AssemblerSection::Unknown) {
            let ghost pre = self@;
            self.errors.push(
                AssemblerError::UnknownDirectiveFound { directive: header_name.to_owned() },
            );
            proof {
                assert(self@ =~= spec_process_section_header(pre, header_name@));
            }
            return ;
        }
        let ghost pre = self@;
        self.sections.push(new_section);
        self.current_section = Some(new_section);
        proof {
            assert(self@ =~= spec_process_section_header(pre, header_name@));
        }
    }

    /// The string-constant directive of the first pass.
    fn handle_asciiz(&mut self, i: &AssemblerInstruction)
        ensures
            final(self)@ == spec_handle_asciiz(old(self)@, i@),
    {
        if !matches!(self.phase, AssemblerPhase::First) {
            return ;
        }
        let string = match i.get_string_constant() {
            Some(s) => s,
            None => {
                return ;
            },
        };
        let name = match i.label_name() {
            Some(n) => n,
            None => {
                let ghost pre = self@;
                self.errors.push(
                    AssemblerError::StringConstantDeclaredWithoutLabel {
                        instruction: self.current_instruction,
                    },
                );
                proof {
                    assert(self@ =~= spec_handle_asciiz(pre, i@));
                }
                return ;
            },
        };
        let ghost pre = self@;
        let ghost bytes = vstd::utf8::encode_utf8(string@) + seq![0u8];
        let off = self.ro_offset;
        self.symbol_table.set_symbol_offset(name.as_str(), off);
        let bs = string.as_str().as_bytes_vec();
        let n = bs.len();
        let mut k: usize = 0;
        proof {
            lemma_u32_add_zero(pre.ro_offset);
        }
        while k < n
            invariant
                0 <= k <= n,
                n == bs@.len(),
                bs@ == vstd::utf8::encode_utf8(string@),
                bytes == vstd::utf8::encode_utf8(string@) + seq![0u8],
                self@.ro == pre.ro + bs@.subrange(0, k as int),
                self@.ro_offset == spec_u32_add(pre.ro_offset, k as int),
                self@ == (AsmModel {
                    ro: self@.ro,
                    ro_offset: self@.ro_offset,
                    symbols: spec_set_symbol_offset(pre.symbols, name@, pre.ro_offset),
                    ..pre
                }),
                name@ == spec_label_name(i@)->Some_0,
            decreases n - k,
        {
            self.ro.push(bs[k]);
            proof {
                assert(pre.ro + bs@.subrange(0, k as int + 1) =~= (pre.ro + bs@.subrange(
                    0,
                    k as int,
                )).push(bs@[k as int]));
                lemma_u32_add_step(pre.ro_offset, k as int);
            }
            self.ro_offset = self.ro_offset.wrapping_add(1);
            k = k + 1;
        }
        self.ro.push(0);
        proof {
            lemma_u32_add_step(pre.ro_offset, n as int);
        }
        self.ro_offset = self.ro_offset.wrapping_add(1);
        proof {
            assert(bs@.subrange(0, n as int) =~= bs@);
            assert(pre.ro + bytes =~= (pre.ro + bs@).push(0u8));
            assert(self@ =~= spec_handle_asciiz(pre, i@));
        }
    }

    /// One directive, in whichever pass.
    fn process_directive(&mut self, i: &AssemblerInstruction)
        ensures
            final(self)@ == spec_process_directive(old(self)@, i@),
    {
        let directive_name = match i.get_directive_name() {
            Some(name) => name,
            None => {
                return ;
            },
        };
        if i.has_operand() {
            if scan::str_eq(directive_name.as_str(), "asciiz") {
                self.handle_asciiz(i);
            } else {
                let ghost pre = self@;
                self.errors.push(
                    AssemblerError::UnknownDirectiveFound { directive: directive_name },
                );
                proof {
                    assert(self@ =~= spec_process_directive(pre, i@));
                }
            }
        } else {
            self.process_section_header(directive_name.as_str());
        }
    }

    /// One whole instruction of the first pass.
    fn p1_step(&mut self, ins: &AssemblerInstruction)
        ensures
            final(self)@ == spec_p1_step(old(self)@, ins@),
    {
        if ins.is_label() {
            if self.current_section.is_some() {
                self.process_label_declaration(ins);
            } else {
                let ghost pre = self@;
                self.errors.push(
                    AssemblerError::NoSegmentDeclarationFound {
                        instruction: self.current_instruction,
                    },
                );
                proof {
                    assert(self@ =~= (AsmModel {
                        errors: pre.errors.push(
                            ErrModel::NoSegmentDeclarationFound {
                                instruction: pre.current_instruction,
                            },
                        ),
                        ..pre
                    }));
                }
            }
        }
        if ins.is_directive() {
            self.process_directive(ins);
        }
        if ins.is_opcode() {
            let ghost pre = self@;
            proof {
                lemma_u32_add_wrap(pre.code_offset, 4);
            }
            self.code_offset = self.code_offset.wrapping_add(4);
            proof {
                assert(self@ =~= (AsmModel { code_offset: spec_u32_add(pre.code_offset, 4), ..pre }));
            }
        }
        let ghost pre2 = self@;
        proof {
            lemma_u32_add_wrap(pre2.current_instruction, 1);
        }
        self.current_instruction = self.current_instruction.wrapping_add(1);
        proof {
            assert(self@ =~= (AsmModel {
                current_instruction: spec_u32_add(pre2.current_instruction, 1),
                ..pre2
            }));
        }
    }

    /// The first pass: labels, sections and read-only data, in instruction
    /// order.
    pub fn process_first_phase(&mut self, p: &Program)
        ensures
            final(self)@ == spec_first_phase_from(p@, 0, old(self)@),
    {
        let n = p.instructions.len();
        let mut i: usize = 0;
        while i < n
            invariant
                0 <= i <= n,
                n == p.instructions.len(),
                spec_first_phase_from(p@, 0, old(self)@) == spec_first_phase_from(
                    p@,
                    i as int,
                    self@,
                ),
            decreases n - i,
        {
            proof {
                assert(p@[i as int] == p.instructions@[i as int]@);
            }
            self.p1_step(&p.instructions[i]);
            i = i + 1;
        }
        self.phase = AssemblerPhase::Second;
        proof {
            assert(self@ =~= spec_first_phase_from(p@, n as int, AsmModel {
                phase: old(self)@.phase,
                ..self@
            }));
        }
    }

    /// The second pass: every opcode line's 4-byte word, in order, against
    /// the symbol table the first pass built. The first unresolved symbol
    /// or ill-placed token is fatal.
    pub fn process_second_phase(&mut self, p: &Program) -> (r: Result<Vec<u8>, AssemblerError>)
        ensures
            ({
                let (m2, res) = spec_second_phase_from(
                    p@,
                    0,
                    AsmModel { current_instruction: 0, ..old(self)@ },
                    Seq::<u8>::empty(),
                );
                &&& final(self)@ == m2
                &&& match r {
                    Ok(b) => res == Ok::<Seq<u8>, ErrModel>(b@),
                    Err(e) => res == Err::<Seq<u8>, ErrModel>(e@),
                }
            }),
    {
        self.current_instruction = 0;
        proof {
            assert(self@ =~= (AsmModel { current_instruction: 0, ..old(self)@ }));
        }
        let mut out: Vec<u8> = Vec::new();
        let n = p.instructions.len();
        let mut i: usize = 0;
        while i < n
            invariant
                0 <= i <= n,
                n == p.instructions.len(),
                spec_second_phase_from(
                    p@,
                    0,
                    AsmModel { current_instruction: 0, ..old(self)@ },
                    Seq::<u8>::empty(),
                ) == spec_second_phase_from(p@, i as int, self@, out@),
            decreases n - i,
        {
            proof {
                assert(p@[i as int] == p.instructions@[i as int]@);
            }
            let ins = &p.instructions[i];
            if ins.is_opcode() {
                match ins.to_bytes(&self.symbol_table) {
                    Ok(mut b) => {
                        out.append(&mut b);
                    },
                    Err(e) => {
                        return Err(e);
                    },
                }
            }
            if ins.is_directive() {
                self.process_directive(ins);
            }
            let ghost pre2 = self@;
            proof {
                lemma_u32_add_wrap(pre2.current_instruction, 1);
            }
            self.current_instruction = self.current_instruction.wrapping_add(1);
            proof {
                assert(self@ =~= (AsmModel {
                    current_instruction: spec_u32_add(pre2.current_instruction, 1),
                    ..pre2
                }));
            }
            i = i + 1;
        }
        Ok(out)
    }

    /// The 64-byte header that opens every image.
    fn write_pie_header(&self) -> (r: Vec<u8>)
        ensures
            r@ == spec_pie_header(),
    {
        let mut header = pie_header_prefix();
        while header.len() < PIE_HEADER_LENGTH
            invariant
                4 <= header@.len() <= 64,
                header@.subrange(0, 4) == spec_pie_prefix(),
                forall|k: int| 4 <= k < header@.len() ==> header@[k] == 0u8,
            decreases 64 - header@.len(),
        {
            let ghost pre = header@;
            header.push(0);
            proof {
                assert(header@.subrange(0, 4) =~= pre.subrange(0, 4));
            }
        }
        proof {
            assert(header@ =~= spec_pie_header());
        }
        header
    }

    /// The collected errors, as their own vector.
    fn errors_clone(&self) -> (r: Vec<AssemblerError>)
        ensures
            r@.map_values(|e: AssemblerError| e@) == self@.errors,
    {
        let n = self.errors.len();
        let mut out: Vec<AssemblerError> = Vec::new();
        let mut i: usize = 0;
        while i < n
            invariant
                0 <= i <= n,
                n == self.errors.len(),
                out@.map_values(|e: AssemblerError| e@) == self@.errors.subrange(0, i as int),
            decreases n - i,
        {
            let ghost pre = out@.map_values(|e: AssemblerError| e@);
            let e = clone_error(&self.errors[i]);
            out.push(e);
            proof {
                assert(out@.map_values(|e: AssemblerError| e@) =~= pre.push(e@));
                assert(pre.push(self@.errors[i as int]) =~= self@.errors.subrange(0, i as int + 1));
            }
            i = i + 1;
        }
        proof {
            assert(self@.errors.subrange(0, n as int) =~= self@.errors);
        }
        out
    }

    /// Assemble a whole text into a binary image, or the list of everything
    /// found wrong with it.
    pub fn assemble(&mut self, raw: &str) -> (r: Result<Vec<u8>, Vec<AssemblerError>>)
        ensures
            ({
                let (mfin, res) = spec_assemble(old(self)@, raw@);
                &&& final(self)@ == mfin
                &&& match r {
                    Ok(b) => res == Ok::<Seq<u8>, Seq<ErrModel>>(b@),
                    Err(errs) => res == Err::<Seq<u8>, Seq<ErrModel>>(
                        errs@.map_values(|e: AssemblerError| e@),
                    ),
                }
            }),
    {
        let p = match program(raw) {
            Some((_, p)) => p,
            None => {
                let mut errs: Vec<AssemblerError> = Vec::new();
                errs.push(AssemblerError::ParseError { error: raw.to_owned() });
                proof {
                    assert(errs@.map_values(|e: AssemblerError| e@) =~= seq![
                        ErrModel::ParseError { error: raw@ },
                    ]);
                }
                return Err(errs);
            },
        };
        self.assemble_program(&p)
    }

    /// Whether the first pass saw exactly one data and one code section.
    fn sections_well_formed(&self) -> (r: bool)
        ensures
            r == spec_sections_ok(self@.sections),
    {
        if self.sections.len() != 2 {
            return false;
        }
        let a = matches!(self.sections[0], AssemblerSection::Data { .. });
        let b = matches!(self.sections[1], AssemblerSection::Code { .. });
        let c = matches!(self.sections[0], AssemblerSection::Code { .. });
        let d = matches!(self.sections[1], AssemblerSection::Data { .. });
        (a && b) || (c && d)
    }

    /// Assemble an already parsed program: both passes, the section check,
    /// and the image as header, read-only segment and code.
    pub fn assemble_program(&mut self, p: &Program) -> (r: Result<Vec<u8>, Vec<AssemblerError>>)
        ensures
            ({
                let (mfin, res) = spec_assemble_program(old(self)@, p@);
                &&& final(self)@ == mfin
                &&& match r {
                    Ok(b) => res == Ok::<Seq<u8>, Seq<ErrModel>>(b@),
                    Err(errs) => res == Err::<Seq<u8>, Seq<ErrModel>>(
                        errs@.map_values(|e: AssemblerError| e@),
                    ),
                }
            }),
    {
        self.process_first_phase(&p);
        if self.errors.len() > 0 {
            return Err(self.errors_clone());
        }
        if !self.sections_well_formed() {
            let ghost pre = self@;
            self.errors.push(AssemblerError::InsufficientSections);
            proof {
                assert(self@ =~= (AsmModel {
                    errors: pre.errors.push(ErrModel::InsufficientSections),
                    ..pre
                }));
            }
            return Err(self.errors_clone());
        }
        let code = match self.process_second_phase(&p) {
            Ok(code) => code,
            Err(e) => {
                let ghost pre = self@;
                let ghost ev = e@;
                self.errors.push(e);
                proof {
                    assert(self@ =~= (AsmModel { errors: pre.errors.push(ev), ..pre }));
                }
                return Err(self.errors_clone());
            },
        };
        let mut image = self.write_pie_header();
        let mut ro2 = copy_bytes(&self.ro);
        image.append(&mut ro2);
        let ghost codeview = code@;
        let mut code2 = code;
        image.append(&mut code2);
        proof {
            assert(image@ =~= spec_pie_header() + self@.ro + codeview);
        }
        Ok(image)
    }
}

/// The read-only segment a text assembles to: what the first pass of a
/// fresh assembler collects from its string constants.
pub open spec fn spec_ro_segment(s: Seq<char>) -> Seq<u8> {
    match spec_program(s) {
        Some((e, instrs)) => spec_first_phase_from(instrs, 0, spec_assembler_init()).ro,
        None => Seq::<u8>::empty(),
    }
}

/// The code the second pass emits grows by exactly four bytes per encoded
/// line, so its length keeps its remainder modulo four.
proof fn lemma_second_phase_len(instrs: Seq<InstrModel>, i: int, m: AsmModel, acc: Seq<u8>)
    ensures
        match spec_second_phase_from(instrs, i, m, acc).1 {
            Ok(bytes) => bytes.len() % 4 == acc.len() % 4,
            Err(_) => true,
        },
    decreases instrs.len() - i,
{
    if 0 <= i < instrs.len() {
        let ins = instrs[i];
        if ins.opcode is Some {
            match spec_instr_to_bytes(ins, m.symbols) {
                Ok(b) => {
                    assert(b.len() == 4);
                    let m2 = if ins.directive is Some {
                        spec_process_directive(m, ins)
                    } else {
                        m
                    };
                    let m3 = AsmModel {
                        current_instruction: spec_u32_add(m2.current_instruction, 1),
                        ..m2
                    };
                    lemma_second_phase_len(instrs, i + 1, m3, acc + b);
                    assert((acc.len() + 4) % 4 == acc.len() % 4) by (nonlinear_arith);
                },
                Err(_) => {},
            }
        } else {
            let m2 = if ins.directive is Some {
                spec_process_directive(m, ins)
            } else {
                m
            };
            let m3 = AsmModel { current_instruction: spec_u32_add(m2.current_instruction, 1), ..m2 };
            lemma_second_phase_len(instrs, i + 1, m3, acc);
        }
    }
}

/// The second pass never touches the read-only segment: the assembler is
/// past its first phase there, where the string-constant directive is the
/// only writer.
proof fn lemma_second_phase_ro(instrs: Seq<InstrModel>, i: int, m: AsmModel, acc: Seq<u8>)
    requires
        m.phase == AssemblerPhase::Second,
    ensures
        spec_second_phase_from(instrs, i, m, acc).0.ro == m.ro,
        spec_second_phase_from(instrs, i, m, acc).0.phase == AssemblerPhase::Second,
    decreases instrs.len() - i,
{
    if 0 <= i < instrs.len() {
        let ins = instrs[i];
        let m2 = if ins.directive is Some {
            spec_process_directive(m, ins)
        } else {
            m
        };
        assert(m2.ro == m.ro && m2.phase == AssemblerPhase::Second);
        let m3 = AsmModel { current_instruction: spec_u32_add(m2.current_instruction, 1), ..m2 };
        if ins.opcode is Some {
            match spec_instr_to_bytes(ins, m.symbols) {
                Ok(b) => {
                    lemma_second_phase_ro(instrs, i + 1, m3, acc + b);
                },
                Err(_) => {},
            }
        } else {
            lemma_second_phase_ro(instrs, i + 1, m3, acc);
        }
    }
}

/// The first pass always ends in the second phase.
proof fn lemma_first_phase_phase(instrs: Seq<InstrModel>, i: int, m: AsmModel)
    ensures
        spec_first_phase_from(instrs, i, m).phase == AssemblerPhase::Second,
    decreases instrs.len() - i,
{
    if 0 <= i < instrs.len() {
        lemma_first_phase_phase(instrs, i + 1, spec_p1_step(m, instrs[i]));
    }
}

/// Assembling a well-formed text from a fresh assembler returns either an
/// image that opens with the magic bytes and whose segment past the header
/// and the read-only data is whole instruction words, or a non-empty error
/// list; never both, never neither.
pub proof fn lemma_assemble_image_shape(s: Seq<char>)
    ensures
        ({
            let (mfin, res) = spec_assemble(spec_assembler_init(), s);
            match res {
                Err(errs) => errs.len() > 0,
                Ok(b) => {
                    &&& b.len() >= 64 + spec_ro_segment(s).len()
                    &&& b.subrange(0, 4) == spec_pie_prefix()
                    &&& (b.len() - 64 - spec_ro_segment(s).len()) % 4 == 0
                },
            }
        }),
{
    match spec_program(s) {
        None => {},
        Some((e, instrs)) => {
            let m1 = spec_first_phase_from(instrs, 0, spec_assembler_init());
            if m1.errors.len() > 0 {
            } else if !spec_sections_ok(m1.sections) {
            } else {
                let (m3, res) = spec_second_phase_from(
                    instrs,
                    0,
                    AsmModel { current_instruction: 0, ..m1 },
                    Seq::<u8>::empty(),
                );
                match res {
                    Ok(code) => {
                        lemma_first_phase_phase(instrs, 0, spec_assembler_init());
                        lemma_second_phase_len(
                            instrs,
                            0,
                            AsmModel { current_instruction: 0, ..m1 },
                            Seq::<u8>::empty(),
                        );
                        lemma_second_phase_ro(
                            instrs,
                            0,
                            AsmModel { current_instruction: 0, ..m1 },
                            Seq::<u8>::empty(),
                        );
                        let b = spec_pie_header() + m3.ro + code;
                        assert(m3.ro == spec_ro_segment(s));
                        assert(b.subrange(0, 4) =~= spec_pie_prefix());
                        assert(code.len() % 4 == 0);
                        assert(b.len() - 64 - m3.ro.len() == code.len());
                    },
                    Err(_) => {},
                }
            }
        },
    }
}

/// The first pass leaves the read-only segment alone when no line carries
/// the string-constant directive.
proof fn lemma_first_phase_ro(instrs: Seq<InstrModel>, i: int, m: AsmModel)
    requires
        forall|j: int|
            0 <= j < instrs.len() ==> spec_directive_name(#[trigger] instrs[j]) != Some("asciiz"@),
    ensures
        spec_first_phase_from(instrs, i, m).ro == m.ro,
    decreases instrs.len() - i,
{
    if 0 <= i < instrs.len() {
        let m2 = spec_p1_step(m, instrs[i]);
        assert(m2.ro == m.ro);
        lemma_first_phase_ro(instrs, i + 1, m2);
    }
}

/// For a program without string constants the whole segment past the
/// header is instruction words: its length is a multiple of four.
pub proof fn lemma_assemble_aligned(s: Seq<char>)
    requires
        spec_program(s) matches Some((e, instrs)) ==> forall|j: int|
            0 <= j < instrs.len() ==> spec_directive_name(#[trigger] instrs[j]) != Some("asciiz"@),
    ensures
        ({
            let (mfin, res) = spec_assemble(spec_assembler_init(), s);
            match res {
                Err(errs) => errs.len() > 0,
                Ok(b) => {
                    &&& b.len() >= 64
                    &&& b.subrange(0, 4) == spec_pie_prefix()
                    &&& (b.len() - 64) % 4 == 0
                },
            }
        }),
{
    lemma_assemble_image_shape(s);
    match spec_program(s) {
        None => {},
        Some((e, instrs)) => {
            lemma_first_phase_ro(instrs, 0, spec_assembler_init());
        },
    }
}

/// One list of errors extends another without rewriting it.
pub open spec fn spec_errors_prefix(a: Seq<ErrModel>, b: Seq<ErrModel>) -> bool {
    a.len() <= b.len() && b.subrange(0, a.len() as int) == a
}

proof fn lemma_prefix_refl(a: Seq<ErrModel>)
    ensures
        spec_errors_prefix(a, a),
{
    assert(a.subrange(0, a.len() as int) =~= a);
}

proof fn lemma_prefix_push(a: Seq<ErrModel>, x: ErrModel)
    ensures
        spec_errors_prefix(a, a.push(x)),
{
    assert(a.push(x).subrange(0, a.len() as int) =~= a);
}

proof fn lemma_prefix_trans(a: Seq<ErrModel>, b: Seq<ErrModel>, c: Seq<ErrModel>)
    requires
        spec_errors_prefix(a, b),
        spec_errors_prefix(b, c),
    ensures
        spec_errors_prefix(a, c),
{
    assert forall|i: int| 0 <= i < a.len() implies c[i] == a[i] by {
        assert(b.subrange(0, a.len() as int)[i] == b[i]);
        assert(c.subrange(0, b.len() as int)[i] == c[i]);
    }
    assert(c.subrange(0, a.len() as int) =~= a);
}

proof fn lemma_prefix_contains(a: Seq<ErrModel>, b: Seq<ErrModel>, e: ErrModel)
    requires
        spec_errors_prefix(a, b),
        a.contains(e),
    ensures
        b.contains(e),
{
    let i = choose|i: int| 0 <= i < a.len() && a[i] == e;
    assert(b.subrange(0, a.len() as int)[i] == b[i]);
}

proof fn lemma_handle_asciiz_errors(m: AsmModel, ins: InstrModel)
    ensures
        spec_errors_prefix(m.errors, spec_handle_asciiz(m, ins).errors),
{
    let r = spec_handle_asciiz(m, ins);
    if r.errors == m.errors {
        lemma_prefix_refl(m.errors);
    } else {
        lemma_prefix_push(
            m.errors,
            ErrModel::StringConstantDeclaredWithoutLabel { instruction: m.current_instruction },
        );
    }
}

proof fn lemma_process_directive_errors(m: AsmModel, ins: InstrModel)
    ensures
        spec_errors_prefix(m.errors, spec_process_directive(m, ins).errors),
{
    let r = spec_process_directive(m, ins);
    match spec_directive_name(ins) {
        None => {
            lemma_prefix_refl(m.errors);
        },
        Some(name) => {
            if spec_has_operand(ins) {
                if name == "asciiz"@ {
                    lemma_handle_asciiz_errors(m, ins);
                } else {
                    lemma_prefix_push(m.errors, ErrModel::UnknownDirectiveFound { directive: name });
                }
            } else {
                if spec_section_from_name(name) is Unknown {
                    lemma_prefix_push(m.errors, ErrModel::UnknownDirectiveFound { directive: name });
                } else {
                    lemma_prefix_refl(m.errors);
                }
            }
        },
    }
}

proof fn lemma_label_decl_errors(m: AsmModel, ins: InstrModel)
    ensures
        spec_errors_prefix(m.errors, spec_process_label_declaration(m, ins).errors),
{
    let r = spec_process_label_declaration(m, ins);
    if r.errors == m.errors {
        lemma_prefix_refl(m.errors);
    } else if r.errors == m.errors.push(ErrModel::SymbolAlreadyDeclared) {
        lemma_prefix_push(m.errors, ErrModel::SymbolAlreadyDeclared);
    } else {
        lemma_prefix_push(
            m.errors,
            ErrModel::StringConstantDeclaredWithoutLabel { instruction: m.current_instruction },
        );
    }
}

/// One first-pass step only ever appends to the error list.
proof fn lemma_p1_step_errors(m: AsmModel, ins: InstrModel)
    ensures
        spec_errors_prefix(m.errors, spec_p1_step(m, ins).errors),
{
    let m1 = if ins.label is Some {
        if m.current_section is Some {
            spec_process_label_declaration(m, ins)
        } else {
            AsmModel {
                errors: m.errors.push(
                    ErrModel::NoSegmentDeclarationFound { instruction: m.current_instruction },
                ),
                ..m
            }
        }
    } else {
        m
    };
    if ins.label is Some {
        if m.current_section is Some {
            lemma_label_decl_errors(m, ins);
        } else {
            lemma_prefix_push(
                m.errors,
                ErrModel::NoSegmentDeclarationFound { instruction: m.current_instruction },
            );
        }
    } else {
        lemma_prefix_refl(m.errors);
    }
    if ins.directive is Some {
        lemma_process_directive_errors(m1, ins);
        lemma_prefix_trans(m.errors, m1.errors, spec_process_directive(m1, ins).errors);
    }
}

/// The state after the first `i` instructions of the first pass.
pub open spec fn spec_p1_upto(instrs: Seq<InstrModel>, i: int, m: AsmModel) -> AsmModel
    decreases i,
{
    if i <= 0 {
        m
    } else {
        spec_p1_step(spec_p1_upto(instrs, i - 1, m), instrs[i - 1])
    }
}

/// The whole first pass is the pass from any cut onward, started from the
/// state the cut reached.
proof fn lemma_p1_decompose(instrs: Seq<InstrModel>, k: int, m: AsmModel)
    requires
        0 <= k <= instrs.len(),
    ensures
        spec_first_phase_from(instrs, 0, m) == spec_first_phase_from(
            instrs,
            k,
            spec_p1_upto(instrs, k, m),
        ),
    decreases k,
{
    if k > 0 {
        lemma_p1_decompose(instrs, k - 1, m);
    }
}

proof fn lemma_upto_errors(instrs: Seq<InstrModel>, a: int, b: int, m: AsmModel)
    requires
        0 <= a <= b,
    ensures
        spec_errors_prefix(spec_p1_upto(instrs, a, m).errors, spec_p1_upto(instrs, b, m).errors),
    decreases b - a,
{
    if a == b {
        lemma_prefix_refl(spec_p1_upto(instrs, a, m).errors);
    } else {
        lemma_upto_errors(instrs, a, b - 1, m);
        lemma_p1_step_errors(spec_p1_upto(instrs, b - 1, m), instrs[b - 1]);
        lemma_prefix_trans(
            spec_p1_upto(instrs, a, m).errors,
            spec_p1_upto(instrs, b - 1, m).errors,
            spec_p1_upto(instrs, b, m).errors,
        );
    }
}

proof fn lemma_fold_errors(instrs: Seq<InstrModel>, i: int, m: AsmModel)
    ensures
        spec_errors_prefix(m.errors, spec_first_phase_from(instrs, i, m).errors),
    decreases instrs.len() - i,
{
    if i < 0 || i >= instrs.len() {
        lemma_prefix_refl(m.errors);
    } else {
        lemma_p1_step_errors(m, instrs[i]);
        lemma_fold_errors(instrs, i + 1, spec_p1_step(m, instrs[i]));
        lemma_prefix_trans(
            m.errors,
            spec_p1_step(m, instrs[i]).errors,
            spec_first_phase_from(instrs, i, m).errors,
        );
    }
}

/// Once a section is active it stays active: nothing in the first pass
/// clears it.
proof fn lemma_p1_step_section(m: AsmModel, ins: InstrModel)
    requires
        m.current_section is Some,
    ensures
        spec_p1_step(m, ins).current_section is Some,
{
}

proof fn lemma_upto_section(instrs: Seq<InstrModel>, a: int, b: int, m: AsmModel)
    requires
        0 <= a <= b,
        spec_p1_upto(instrs, a, m).current_section is Some,
    ensures
        spec_p1_upto(instrs, b, m).current_section is Some,
    decreases b - a,
{
    if a < b {
        lemma_upto_section(instrs, a, b - 1, m);
        lemma_p1_step_section(spec_p1_upto(instrs, b - 1, m), instrs[b - 1]);
    }
}

/// A section header instruction leaves a section active.
proof fn lemma_p1_step_sets_section(m: AsmModel, ins: InstrModel)
    requires
        spec_directive_name(ins) == Some("data"@) || spec_directive_name(ins) == Some("code"@),
        !spec_has_operand(ins),
    ensures
        spec_p1_step(m, ins).current_section is Some,
{
    assert(ins.directive is Some);
}

/// Pushing a fresh symbol moves nothing for a name already present.
proof fn lemma_symbol_value_push(syms: Seq<SymbolModel>, name: Seq<char>, x: SymbolModel)
    requires
        spec_has_symbol(syms, name),
    ensures
        spec_symbol_value(syms.push(x), name) == spec_symbol_value(syms, name),
        spec_has_symbol(syms.push(x), name),
{
    crate::assembler::lemma_first_symbol_index_props(syms, name);
    let i = crate::assembler::spec_first_symbol_index(syms, name);
    crate::assembler::lemma_first_symbol_index_is(syms.push(x), name, i);
}

/// Pushing a symbol under a name makes that name resolvable.
proof fn lemma_symbol_value_push_new(syms: Seq<SymbolModel>, x: SymbolModel)
    requires
        !spec_has_symbol(syms, x.name),
    ensures
        spec_symbol_value(syms.push(x), x.name) == x.offset,
{
    crate::assembler::lemma_first_symbol_index_props(syms, x.name);
    crate::assembler::lemma_first_symbol_index_is(syms.push(x), x.name, syms.len() as int);
}

/// Binding an offset neither adds nor removes names, and a name that
/// resolved before still resolves.
proof fn lemma_symbol_value_set(
    syms: Seq<SymbolModel>,
    name: Seq<char>,
    name2: Seq<char>,
    off: u32,
)
    ensures
        name != name2 ==> spec_symbol_value(spec_set_symbol_offset(syms, name2, off), name)
            == spec_symbol_value(syms, name),
        (name == name2 && spec_has_symbol(syms, name2)) ==> spec_symbol_value(
            spec_set_symbol_offset(syms, name2, off),
            name,
        ) == Some(off),
{
    crate::assembler::lemma_first_symbol_index_props(syms, name2);
    let i2 = crate::assembler::spec_first_symbol_index(syms, name2);
    if i2 >= 0 {
        let upd = spec_set_symbol_offset(syms, name2, off);
        if name == name2 {
            crate::assembler::lemma_first_symbol_index_is(upd, name, i2);
        } else {
            crate::assembler::lemma_first_symbol_index_props(syms, name);
            let i = crate::assembler::spec_first_symbol_index(syms, name);
            if i >= 0 {
                crate::assembler::lemma_first_symbol_index_is(upd, name, i);
            } else {
                crate::assembler::lemma_first_symbol_index_props(upd, name);
                if crate::assembler::spec_first_symbol_index(upd, name) >= 0 {
                    let iu = crate::assembler::spec_first_symbol_index(upd, name);
                    assert(syms[iu].name == name);
                }
            }
        }
    }
}

/// A name that resolves keeps resolving through one first-pass step.
proof fn lemma_p1_step_symbol(m: AsmModel, ins: InstrModel, name: Seq<char>)
    requires
        spec_symbol_value(m.symbols, name) is Some,
    ensures
        spec_symbol_value(spec_p1_step(m, ins).symbols, name) is Some,
{
    crate::assembler::lemma_first_symbol_index_props(m.symbols, name);
    let m1 = if ins.label is Some {
        if m.current_section is Some {
            spec_process_label_declaration(m, ins)
        } else {
            AsmModel {
                errors: m.errors.push(
                    ErrModel::NoSegmentDeclarationFound { instruction: m.current_instruction },
                ),
                ..m
            }
        }
    } else {
        m
    };
    if ins.label is Some && m.current_section is Some {
        match spec_label_name(ins) {
            Some(n2) => {
                if !spec_has_symbol(m.symbols, n2) {
                    lemma_symbol_value_push(
                        m.symbols,
                        name,
                        SymbolModel {
                            name: n2,
                            symbol_type: SymbolType::Label,
                            offset: Some(m.code_offset),
                        },
                    );
                }
            },
            None => {},
        }
    }
    assert(spec_symbol_value(m1.symbols, name) is Some);
    if ins.directive is Some {
        let m2 = spec_process_directive(m1, ins);
        match spec_directive_name(ins) {
            Some(dn) => {
                if spec_has_operand(ins) && dn == "asciiz"@ && m1.phase == AssemblerPhase::First {
                    match spec_string_constant(ins) {
                        Some(strv) => match spec_label_name(ins) {
                            Some(n2) => {
                                crate::assembler::lemma_first_symbol_index_props(m1.symbols, n2);
                                lemma_symbol_value_set(m1.symbols, name, n2, m1.ro_offset);
                                if name == n2 && !spec_has_symbol(m1.symbols, n2) {
                                    crate::assembler::lemma_first_symbol_index_props(
                                        m1.symbols,
                                        name,
                                    );
                                }
                            },
                            None => {},
                        },
                        None => {},
                    }
                }
            },
            None => {},
        }
        assert(spec_symbol_value(m2.symbols, name) is Some);
    }
}

proof fn lemma_upto_symbol(instrs: Seq<InstrModel>, a: int, b: int, m: AsmModel, name: Seq<char>)
    requires
        0 <= a <= b,
        spec_symbol_value(spec_p1_upto(instrs, a, m).symbols, name) is Some,
    ensures
        spec_symbol_value(spec_p1_upto(instrs, b, m).symbols, name) is Some,
    decreases b - a,
{
    if a < b {
        lemma_upto_symbol(instrs, a, b - 1, m, name);
        lemma_p1_step_symbol(spec_p1_upto(instrs, b - 1, m), instrs[b - 1], name);
    }
}

proof fn lemma_fold_symbol(instrs: Seq<InstrModel>, i: int, m: AsmModel, name: Seq<char>)
    requires
        spec_symbol_value(m.symbols, name) is Some,
    ensures
        spec_symbol_value(spec_first_phase_from(instrs, i, m).symbols, name) is Some,
    decreases instrs.len() - i,
{
    if 0 <= i < instrs.len() {
        lemma_p1_step_symbol(m, instrs[i], name);
        lemma_fold_symbol(instrs, i + 1, spec_p1_step(m, instrs[i]), name);
    }
}

/// Declaring a label under an active section either reports the duplicate
/// or leaves the name resolvable.
proof fn lemma_p1_step_declare(m: AsmModel, ins: InstrModel, name: Seq<char>)
    requires
        m.current_section is Some,
        spec_label_name(ins) == Some(name),
    ensures
        spec_p1_step(m, ins).errors.contains(ErrModel::SymbolAlreadyDeclared) || spec_symbol_value(
            spec_p1_step(m, ins).symbols,
            name,
        ) is Some,
{
    assert(ins.label is Some);
    let m1 = spec_process_label_declaration(m, ins);
    if spec_has_symbol(m.symbols, name) {
        assert(m1.errors == m.errors.push(ErrModel::SymbolAlreadyDeclared));
        assert(m1.errors[m1.errors.len() - 1] == ErrModel::SymbolAlreadyDeclared);
        assert(m1.errors.contains(ErrModel::SymbolAlreadyDeclared));
        if ins.directive is Some {
            lemma_process_directive_errors(m1, ins);
            lemma_prefix_contains(
                m1.errors,
                spec_process_directive(m1, ins).errors,
                ErrModel::SymbolAlreadyDeclared,
            );
        }
    } else {
        let x = SymbolModel {
            name,
            symbol_type: SymbolType::Label,
            offset: Some(m.code_offset),
        };
        lemma_symbol_value_push_new(m.symbols, x);
        assert(spec_symbol_value(m1.symbols, name) is Some);
        if ins.directive is Some {
            lemma_p1_step_symbol_directive_only(m1, ins, name);
        }
    }
}

/// The directive half of one step keeps a resolvable name resolvable.
proof fn lemma_p1_step_symbol_directive_only(m1: AsmModel, ins: InstrModel, name: Seq<char>)
    requires
        spec_symbol_value(m1.symbols, name) is Some,
        ins.directive is Some,
    ensures
        spec_symbol_value(spec_process_directive(m1, ins).symbols, name) is Some,
{
    match spec_directive_name(ins) {
        Some(dn) => {
            if spec_has_operand(ins) && dn == "asciiz"@ && m1.phase == AssemblerPhase::First {
                match spec_string_constant(ins) {
                    Some(strv) => match spec_label_name(ins) {
                        Some(n2) => {
                            lemma_symbol_value_set(m1.symbols, name, n2, m1.ro_offset);
                            if name == n2 && !spec_has_symbol(m1.symbols, n2) {
                                crate::assembler::lemma_first_symbol_index_props(m1.symbols, name);
                            }
                        },
                        None => {},
                    },
                    None => {},
                }
            }
        },
        None => {},
    }
}

/// A second declaration of a name that already resolves is reported.
proof fn lemma_p1_step_dup(m: AsmModel, ins: InstrModel, name: Seq<char>)
    requires
        m.current_section is Some,
        spec_label_name(ins) == Some(name),
        spec_symbol_value(m.symbols, name) is Some,
    ensures
        spec_p1_step(m, ins).errors.contains(ErrModel::SymbolAlreadyDeclared),
{
    assert(ins.label is Some);
    crate::assembler::lemma_first_symbol_index_props(m.symbols, name);
    let m1 = spec_process_label_declaration(m, ins);
    assert(m1.errors == m.errors.push(ErrModel::SymbolAlreadyDeclared));
    assert(m1.errors[m1.errors.len() - 1] == ErrModel::SymbolAlreadyDeclared);
    assert(m1.errors.contains(ErrModel::SymbolAlreadyDeclared));
    if ins.directive is Some {
        lemma_process_directive_errors(m1, ins);
        lemma_prefix_contains(
            m1.errors,
            spec_process_directive(m1, ins).errors,
            ErrModel::SymbolAlreadyDeclared,
        );
    }
}

/// A label declared anywhere in a program whose first pass reports nothing
/// resolves afterwards, so a use of it in any line — one before the
/// declaration included — encodes rather than failing as undefined:
/// forward references are sound because all declarations are collected
/// before any operand is encoded.
pub proof fn lemma_forward_reference_resolves(instrs: Seq<InstrModel>, j: int, name: Seq<char>)
    requires
        0 <= j < instrs.len(),
        spec_label_name(instrs[j]) == Some(name),
        spec_first_phase_from(instrs, 0, spec_assembler_init()).errors.len() == 0,
    ensures
        spec_symbol_value(
            spec_first_phase_from(instrs, 0, spec_assembler_init()).symbols,
            name,
        ) is Some,
        spec_operand_bytes(
            TokenModel::LabelUsage { name },
            spec_first_phase_from(instrs, 0, spec_assembler_init()).symbols,
        ) is Ok,
{
    let init = spec_assembler_init();
    let mfin = spec_first_phase_from(instrs, 0, init);
    let mj = spec_p1_upto(instrs, j, init);
    let mj1 = spec_p1_upto(instrs, j + 1, init);
    lemma_p1_decompose(instrs, j + 1, init);
    lemma_fold_errors(instrs, j + 1, mj1);
    if mj.current_section is None {
        assert(instrs[j].label is Some);
        let e = ErrModel::NoSegmentDeclarationFound { instruction: mj.current_instruction };
        let m1 = AsmModel { errors: mj.errors.push(e), ..mj };
        lemma_prefix_push(mj.errors, e);
        if instrs[j].directive is Some {
            lemma_process_directive_errors(m1, instrs[j]);
            lemma_prefix_contains(m1.errors, spec_process_directive(m1, instrs[j]).errors, e);
        } else {
            assert(m1.errors.contains(e));
        }
        assert(mj1.errors.contains(e));
        lemma_prefix_contains(mj1.errors, mfin.errors, e);
        assert(false);
    }
    lemma_p1_step_declare(mj, instrs[j], name);
    if mj1.errors.contains(ErrModel::SymbolAlreadyDeclared) {
        lemma_prefix_contains(mj1.errors, mfin.errors, ErrModel::SymbolAlreadyDeclared);
        assert(false);
    }
    lemma_fold_symbol(instrs, j + 1, mj1, name);
}

/// Two declarations of one name in a program with an active section yield
/// `SymbolAlreadyDeclared`, and assembling that text emits no image.
pub proof fn lemma_duplicate_label_rejected(
    s: Seq<char>,
    e: int,
    instrs: Seq<InstrModel>,
    k: int,
    i: int,
    j: int,
    name: Seq<char>,
)
    requires
        spec_program(s) == Some((e, instrs)),
        0 <= k < i < j < instrs.len(),
        spec_directive_name(instrs[k]) == Some("data"@) || spec_directive_name(instrs[k]) == Some(
            "code"@,
        ),
        !spec_has_operand(instrs[k]),
        spec_label_name(instrs[i]) == Some(name),
        spec_label_name(instrs[j]) == Some(name),
    ensures
        spec_first_phase_from(instrs, 0, spec_assembler_init()).errors.contains(
            ErrModel::SymbolAlreadyDeclared,
        ),
        spec_assemble(spec_assembler_init(), s).1 is Err,
{
    let init = spec_assembler_init();
    let mfin = spec_first_phase_from(instrs, 0, init);
    lemma_p1_step_sets_section(spec_p1_upto(instrs, k, init), instrs[k]);
    lemma_upto_section(instrs, k + 1, i, init);
    let mi = spec_p1_upto(instrs, i, init);
    let mi1 = spec_p1_upto(instrs, i + 1, init);
    lemma_p1_step_declare(mi, instrs[i], name);
    lemma_p1_decompose(instrs, j + 1, init);
    lemma_fold_errors(instrs, j + 1, spec_p1_upto(instrs, j + 1, init));
    if mi1.errors.contains(ErrModel::SymbolAlreadyDeclared) {
        lemma_upto_errors(instrs, i + 1, j + 1, init);
        lemma_prefix_contains(
            mi1.errors,
            spec_p1_upto(instrs, j + 1, init).errors,
            ErrModel::SymbolAlreadyDeclared,
        );
        lemma_prefix_contains(
            spec_p1_upto(instrs, j + 1, init).errors,
            mfin.errors,
            ErrModel::SymbolAlreadyDeclared,
        );
    } else {
        lemma_upto_symbol(instrs, i + 1, j, init, name);
        lemma_upto_section(instrs, i, j, init);
        lemma_p1_step_dup(spec_p1_upto(instrs, j, init), instrs[j], name);
        lemma_prefix_contains(
            spec_p1_upto(instrs, j + 1, init).errors,
            mfin.errors,
            ErrModel::SymbolAlreadyDeclared,
        );
    }
    assert(mfin.errors.len() > 0);
}

/// An error, rebuilt field by field.
fn clone_error(e: &AssemblerError) -> (r: AssemblerError)
    ensures
        r@ == e@,
{
    match e {
        AssemblerError::NoSegmentDeclarationFound { instruction } =>
            AssemblerError::NoSegmentDeclarationFound { instruction: *instruction },
        AssemblerError::StringConstantDeclaredWithoutLabel { instruction } =>
            AssemblerError::StringConstantDeclaredWithoutLabel { instruction: *instruction },
        AssemblerError::SymbolAlreadyDeclared => AssemblerError::SymbolAlreadyDeclared,
        AssemblerError::UnknownDirectiveFound { directive } => AssemblerError::UnknownDirectiveFound {
            directive: directive.clone(),
        },
        AssemblerError::NonOpcodeInOpcodeField => AssemblerError::NonOpcodeInOpcodeField,
        AssemblerError::InsufficientSections => AssemblerError::InsufficientSections,
        AssemblerError::UndefinedSymbol => AssemblerError::UndefinedSymbol,
        AssemblerError::ParseError { error } => AssemblerError::ParseError { error: error.clone() },
    }
}

/// A byte vector, copied.
fn copy_bytes(v: &Vec<u8>) -> (r: Vec<u8>)
    ensures
        r@ == v@,
{
    let n = v.len();
    let mut out: Vec<u8> = Vec::new();
    let mut i: usize = 0;
    while i < n
        invariant
            0 <= i <= n,
            n == v@.len(),
            out@ == v@.subrange(0, i as int),
        decreases n - i,
    {
        out.push(v[i]);
        proof {
            assert(out@ =~= v@.subrange(0, i as int + 1));
        }
        i = i + 1;
    }
    proof {
        assert(v@.subrange(0, n as int) =~= v@);
    }
    out
}

} // verus!
