use iridation::instruction::{Instruction, Opcode};

#[test]
fn make_instruction() {
    let opcode = Opcode::HLT;
    assert_eq!(opcode, Opcode::HLT);
}

#[test]
fn create_instruction() {
    let instruct = Instruction::new(Opcode::HLT);
    assert_eq!(instruct.opcode, Opcode::HLT);
}

#[test]
fn test_str_to_opcode() {
    let opcode = Opcode::from_mnemonic("load");
    assert_eq!(opcode, Opcode::LOAD);
    let opcode = Opcode::from_mnemonic("illegal");
    assert_eq!(opcode, Opcode::IGL);
}

#[test]
fn opcode_bytes_are_fixed() {
    assert_eq!(Opcode::from_u8(0), Opcode::LOAD);
    assert_eq!(Opcode::from_u8(1), Opcode::ADD);
    assert_eq!(Opcode::from_u8(4), Opcode::DIV);
    assert_eq!(Opcode::from_u8(16), Opcode::NOP);
    assert_eq!(Opcode::from_u8(17), Opcode::AlOC);
    assert_eq!(Opcode::from_u8(20), Opcode::PTRS);
    assert_eq!(Opcode::from_u8(99), Opcode::IGL);
    assert_eq!(Opcode::LOAD.to_u8(), 0);
    assert_eq!(Opcode::HLT.to_u8(), 254);
    assert_eq!(Opcode::IGL.to_u8(), 255);
}
