use iridation::assembler::base_assembler::{Assembler, AssemblerError};
use iridation::assembler::instruction_parser::AssemblerInstruction;
use iridation::assembler::program_parser::Program;
use iridation::assembler::{Symbol, SymbolTable, SymbolType, Token};
use iridation::instruction::Opcode;
use iridation::vm::Vm;

#[test]
fn test_create_symbol_table() {
    let mut table = SymbolTable::new();
    table.add_symbols(Symbol {
        name: "test".to_string(),
        symbol_type: SymbolType::Label,
        offset: Some(13),
    });
    assert_eq!(table.symbols.len(), 1);
    let symbol_val = table.symbol_value("test");
    assert!(symbol_val.is_some());
    assert_eq!(symbol_val.unwrap(), 13);
    let symbol_val = table.symbol_value("error");
    assert!(symbol_val.is_none());
}

#[test]
fn test_assemble_program() {
    let program: &str =
        ".data\n.code\nload $2 #10\n load $1 #20\n add $1 $2 $3\ntest: inc $1\n jmpe @test\n";
    let mut assembler: Assembler = Assembler::new();
    let result = assembler.assemble(program);
    assert!(result.is_ok());
    let mut vm: Vm = Vm::new();
    vm.add_bytes(result.unwrap());
    assert_eq!(vm.program.len(), 80);
}

#[test]
fn resolving_a_symbol_twice_gives_the_same_offset() {
    let mut table = SymbolTable::new();
    table.add_symbols(Symbol {
        name: "spot".to_string(),
        symbol_type: SymbolType::Label,
        offset: Some(8),
    });
    let first = table.symbol_value("spot");
    let second = table.symbol_value("spot");
    assert_eq!(first, second);
    assert_eq!(first, Some(8));
}

fn opcode_line(code: Opcode, operands: [Option<Token>; 3]) -> AssemblerInstruction {
    let [operand1, operand2, operand3] = operands;
    AssemblerInstruction {
        opcode: Some(Token::Op { code }),
        label: None,
        directive: None,
        operand1,
        operand2,
        operand3,
    }
}

fn section_line(name: &str) -> AssemblerInstruction {
    AssemblerInstruction {
        opcode: None,
        label: None,
        directive: Some(Token::Directive { name: name.to_string() }),
        operand1: None,
        operand2: None,
        operand3: None,
    }
}

#[test]
fn forward_reference_resolves() {
    // jmp @end comes before end: hlt, and still encodes end's offset.
    let jmp = opcode_line(
        Opcode::JMP,
        [Some(Token::LabelUsage { name: "end".to_string() }), None, None],
    );
    let hlt = AssemblerInstruction {
        opcode: Some(Token::Op { code: Opcode::HLT }),
        label: Some(Token::LabelDeclaration { name: "end".to_string() }),
        directive: None,
        operand1: None,
        operand2: None,
        operand3: None,
    };
    let p = Program { instructions: vec![section_line("data"), section_line("code"), jmp, hlt] };
    let mut assembler = Assembler::new();
    let image = assembler.assemble_program(&p).unwrap();
    assert_eq!(assembler.symbol_table.symbol_value("end"), Some(4));
    assert_eq!(&image[64..], &[5, 0, 4, 0, 254, 0, 0, 0]);
}

#[test]
fn duplicate_declaration_is_rejected() {
    let labelled_hlt = |name: &str| AssemblerInstruction {
        opcode: Some(Token::Op { code: Opcode::HLT }),
        label: Some(Token::LabelDeclaration { name: name.to_string() }),
        directive: None,
        operand1: None,
        operand2: None,
        operand3: None,
    };
    let p = Program {
        instructions: vec![
            section_line("data"),
            section_line("code"),
            labelled_hlt("foo"),
            labelled_hlt("foo"),
        ],
    };
    let mut assembler = Assembler::new();
    let result = assembler.assemble_program(&p);
    let errors = result.unwrap_err();
    assert!(errors.contains(&AssemblerError::SymbolAlreadyDeclared));
}

#[test]
fn string_constant_lands_in_read_only_segment() {
    let asciiz = AssemblerInstruction {
        opcode: None,
        label: Some(Token::LabelDeclaration { name: "hello".to_string() }),
        directive: Some(Token::Directive { name: "asciiz".to_string() }),
        operand1: Some(Token::IrString { name: "Hi".to_string() }),
        operand2: None,
        operand3: None,
    };
    let p = Program {
        instructions: vec![
            section_line("data"),
            asciiz,
            section_line("code"),
            opcode_line(Opcode::HLT, [None, None, None]),
        ],
    };
    let mut assembler = Assembler::new();
    let image = assembler.assemble_program(&p).unwrap();
    assert_eq!(image.len(), 64 + 3 + 4);
    assert_eq!(&image[64..67], b"Hi\0");
    assert_eq!(&image[67..], &[254, 0, 0, 0]);
    assert_eq!(assembler.symbol_table.symbol_value("hello"), Some(0));
}

#[test]
fn undefined_symbol_is_fatal() {
    let jmp = opcode_line(
        Opcode::JMP,
        [Some(Token::LabelUsage { name: "missing".to_string() }), None, None],
    );
    let p = Program { instructions: vec![section_line("data"), section_line("code"), jmp] };
    let mut assembler = Assembler::new();
    let errors = assembler.assemble_program(&p).unwrap_err();
    assert!(errors.contains(&AssemblerError::UndefinedSymbol));
}

#[test]
fn parse_failure_is_fatal() {
    let mut assembler = Assembler::new();
    let errors = assembler.assemble("@@@").unwrap_err();
    assert_eq!(errors.len(), 1);
    assert!(matches!(errors[0], AssemblerError::ParseError { .. }));
}

#[test]
fn missing_sections_are_reported() {
    let mut assembler = Assembler::new();
    let errors = assembler.assemble("load $0 #100\n").unwrap_err();
    assert!(errors.contains(&AssemblerError::InsufficientSections));
}

#[test]
fn two_sections_of_one_kind_are_rejected() {
    let mut assembler = Assembler::new();
    let errors = assembler.assemble(".data\n.data\nload $0 #100\n").unwrap_err();
    assert!(errors.contains(&AssemblerError::InsufficientSections));
}

#[test]
fn unknown_directive_is_reported() {
    let mut assembler = Assembler::new();
    let errors = assembler.assemble(".data\n.code\n.bogus\n").unwrap_err();
    assert!(errors.contains(&AssemblerError::UnknownDirectiveFound {
        directive: "bogus".to_string()
    }));
}

#[test]
fn label_before_any_section_is_reported() {
    let mut assembler = Assembler::new();
    let errors = assembler.assemble(" foo: load $1 #1\n.data\n.code\n").unwrap_err();
    assert!(errors.contains(&AssemblerError::NoSegmentDeclarationFound { instruction: 0 }));
}

#[test]
fn string_constant_without_label_is_reported() {
    let mut assembler = Assembler::new();
    let errors = assembler.assemble(".data\n.asciiz 'hi'\n.code\nhlt\n").unwrap_err();
    assert!(errors.contains(&AssemblerError::StringConstantDeclaredWithoutLabel {
        instruction: 1
    }));
}

#[test]
fn directive_in_opcode_position_does_not_encode() {
    let p = Program { instructions: vec![section_line("data")] };
    let result = p.to_bytes();
    assert_eq!(result.unwrap_err(), AssemblerError::NonOpcodeInOpcodeField);
}

#[test]
fn instruction_word_is_exact() {
    let table = SymbolTable::new();
    let ins = AssemblerInstruction {
        opcode: Some(Token::Op { code: Opcode::LOAD }),
        label: None,
        directive: None,
        operand1: Some(Token::Register { reg: 0 }),
        operand2: Some(Token::IntergerOperand { val: 500 }),
        operand3: None,
    };
    assert_eq!(ins.to_bytes(&table).unwrap(), vec![0, 0, 1, 244]);
}

#[test]
fn negative_immediate_keeps_its_low_bits() {
    let table = SymbolTable::new();
    let ins = AssemblerInstruction {
        opcode: Some(Token::Op { code: Opcode::LOAD }),
        label: None,
        directive: None,
        operand1: Some(Token::Register { reg: 0 }),
        operand2: Some(Token::IntergerOperand { val: -1 }),
        operand3: None,
    };
    assert_eq!(ins.to_bytes(&table).unwrap(), vec![0, 0, 255, 255]);
}

#[test]
fn extract_label_binds_four_bytes_apart() {
    let labelled = |name: &str| AssemblerInstruction {
        opcode: Some(Token::Op { code: Opcode::HLT }),
        label: Some(Token::LabelDeclaration { name: name.to_string() }),
        directive: None,
        operand1: None,
        operand2: None,
        operand3: None,
    };
    let p = Program {
        instructions: vec![
            opcode_line(Opcode::NOP, [None, None, None]),
            labelled("one"),
            labelled("two"),
        ],
    };
    let mut assembler = Assembler::new();
    assembler.extract_label(&p);
    assert_eq!(assembler.symbol_table.symbol_value("one"), Some(4));
    assert_eq!(assembler.symbol_table.symbol_value("two"), Some(8));
}

#[test]
fn assemble_then_single_step_loads_register() {
    let mut assembler = Assembler::new();
    let image = assembler.assemble(".data\n.code\nload $0 #100\n").unwrap();
    assert_eq!(&image[0..4], &[45, 50, 49, 45]);
    assert_eq!((image.len() - 64) % 4, 0);
    let mut vm = Vm::new();
    vm.add_bytes(image);
    vm.run_once();
    assert_eq!(vm.registers[0], 100);
}
