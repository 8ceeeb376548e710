use iridation::assembler::directive_parsers::{directive_combined};
use iridation::assembler::instruction_parser::{
    instruction_one, instruction_two, AssemblerInstruction,
};
use iridation::assembler::label_parsers::{label_declaration, label_usage};
use iridation::assembler::opcode_parser::{opcode, opcode_load};
use iridation::assembler::operand_parser::{interger_operand, operand};
use iridation::assembler::program_parser::program;
use iridation::assembler::register_parser::register;
use iridation::assembler::Token;
use iridation::instruction::Opcode;

#[test]
fn test_parse_instruction() {
    let result = instruction_one("load $0 #100", 0);
    assert_eq!(
        result,
        Some((
            12,
            AssemblerInstruction {
                label: None,
                directive: None,
                opcode: Some(Token::Op { code: Opcode::LOAD }),
                operand1: Some(Token::Register { reg: 0 }),
                operand2: Some(Token::IntergerOperand { val: 100 }),
                operand3: None
            }
        ))
    );
}

#[test]
fn test_single_instruction_to_bytes() {
    let (_, result) = instruction_one("load $0 #100", 0).unwrap();
    let code_value = match result.opcode {
        Some(Token::Op { code }) => code.to_u8(),
        _ => panic!("Non opcode found in opcode field"),
    };
    assert_eq!(code_value, 0);
}

#[test]
fn test_parse_instruction_no_operand() {
    let result = instruction_two("hlt\n", 0);
    assert!(result.is_some());
    let (_, res) = result.unwrap();
    assert_eq!(
        res,
        AssemblerInstruction {
            opcode: Some(Token::Op { code: Opcode::HLT }),
            label: None,
            directive: None,
            operand1: None,
            operand2: None,
            operand3: None
        }
    );
}

#[test]
fn mod_test_parse_instruction() {
    let result = instruction_one("load $0 #100", 0);
    assert_eq!(
        result,
        Some((
            12,
            AssemblerInstruction {
                label: None,
                directive: None,
                opcode: Some(Token::Op { code: Opcode::LOAD }),
                operand1: Some(Token::Register { reg: 0 }),
                operand2: Some(Token::IntergerOperand { val: 100 }),
                operand3: None
            }
        ))
    );
}

#[test]
fn mod_test_single_instruction_to_bytes() {
    let (_, result) = instruction_one("load $0 #100", 0).unwrap();
    let code_value = match result.opcode {
        Some(Token::Op { code }) => code.to_u8(),
        _ => panic!("Non opcode found in opcode field"),
    };
    assert_eq!(code_value, 0);
}

#[test]
fn test_label_declaration() {
    let result = label_declaration("test:", 0);
    assert!(result.is_some());
    let (_, token) = result.unwrap();
    assert_eq!(
        token,
        Token::LabelDeclaration { name: "test".to_string() }
    );
    let result = label_declaration("test", 0);
    assert!(result.is_none());
}

#[test]
fn test_label_usage() {
    let result = label_usage("@test", 0);
    assert!(result.is_some());
    let (_, token) = result.unwrap();
    assert_eq!(token, Token::LabelUsage { name: "test".to_string() });
    let result = label_usage("test", 0);
    assert!(result.is_none());
}

#[test]
fn test_parse_opcode_load() {
    let result = opcode_load("load", 0);
    assert!(result.is_some());
    let (rest, token) = result.unwrap();
    assert_eq!(token, Token::Op { code: Opcode::LOAD });
    assert_eq!(rest, 4);
    let result = opcode_load("aopload", 0);
    assert!(result.is_none());
}

#[test]
fn mod_test_parse_opcode_load() {
    let result = opcode_load("load", 0);
    assert!(result.is_some());
    let (rest, token) = result.unwrap();
    assert_eq!(token, Token::Op { code: Opcode::LOAD });
    assert_eq!(rest, 4);
    let result = opcode_load("aopload", 0);
    assert!(result.is_none());
}

#[test]
fn test_parse_opcode() {
    let result = opcode("load", 0);
    assert!(result.is_some());
    let (_, token) = result.unwrap();
    assert_eq!(token, Token::Op { code: Opcode::LOAD });
    let result = opcode("aoad", 0);
    assert!(result.is_some());
    let (_, token) = result.unwrap();
    assert_eq!(token, Token::Op { code: Opcode::IGL });
    let result = opcode("add", 0);
    assert!(result.is_some());
    let (_, token) = result.unwrap();
    assert_eq!(token, Token::Op { code: Opcode::ADD });
}

#[test]
fn test_parse_interger_operand() {
    let result = interger_operand("#0", 0);
    assert!(result.is_some());
    let result = interger_operand("0", 0);
    assert!(result.is_none());
    let result = interger_operand("#u", 0);
    assert!(result.is_none());
}

#[test]
fn test_parse_string_operand() {
    let result = operand("'This is Just me testing things lol'", 0);
    assert!(result.is_some());
    assert_eq!(
        result,
        Some((
            36,
            Token::IrString { name: "This is Just me testing things lol".to_string() }
        ))
    );
}

#[test]
fn test_parse_registers() {
    let result = register("$0", 0);
    assert!(result.is_some());
    let result = register("0", 0);
    assert!(result.is_none());
    let result = register("$u", 0);
    assert!(result.is_none());
}

#[test]
fn mod_test_parse_registers() {
    let result = register("$0", 0);
    assert!(result.is_some());
    let result = register("0", 0);
    assert!(result.is_none());
    let result = register("$u", 0);
    assert!(result.is_none());
}

#[test]
fn test_string_directive() {
    let result = directive_combined("test: .asciiz 'Hello'", 0);
    assert!(result.is_some());
    let (_, directive) = result.unwrap();
    assert_eq!(
        directive,
        AssemblerInstruction {
            opcode: None,
            label: Some(Token::LabelDeclaration { name: "test".to_string() }),
            directive: Some(Token::Directive { name: "asciiz".to_string() }),
            operand1: Some(Token::IrString { name: "Hello".to_string() }),
            operand2: None,
            operand3: None
        }
    );
}

#[test]
fn test_program_parser() {
    let result = program("load $1 #100");
    let (leftover, p) = result.unwrap();
    assert_eq!(leftover, 12);
    assert_eq!(1, p.instructions.len());
}

#[test]
fn mod_test_program_parser() {
    let result = program("load $1 #100");
    let (leftover, p) = result.unwrap();
    assert_eq!(leftover, 12);
    assert_eq!(1, p.instructions.len());
}

#[test]
fn program_parse_to_bytes() {
    let result = program("load $0 #100\n");
    assert!(result.is_some());
    let (_, parsed) = result.unwrap();
    let bytecode = parsed.to_bytes().unwrap();
    assert_eq!(bytecode.len(), 4);
    assert_eq!(bytecode, vec![0, 0, 0, 100]);
}

#[test]
fn test_complete_program() {
    let result = program(".data\nhello: .asciiz 'Hello Everyone!'\n .code\n hlt");
    assert!(result.is_some());
}
