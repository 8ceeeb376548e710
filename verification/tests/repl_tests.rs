use iridation::repl::{HexParseError, Repl};

#[test]
fn parse_hex_reads_space_separated_bytes() {
    let mut repl = Repl::new();
    let bytes = repl.parse_hex("00 01 0a ff").unwrap();
    assert_eq!(bytes, vec![0, 1, 10, 255]);
}

#[test]
fn parse_hex_rejects_stray_characters() {
    let mut repl = Repl::new();
    assert_eq!(repl.parse_hex("zz"), Err(HexParseError::Invalid));
}

#[test]
fn parse_hex_rejects_values_over_one_byte() {
    let mut repl = Repl::new();
    assert_eq!(repl.parse_hex("100"), Err(HexParseError::Invalid));
}

#[test]
fn parse_hex_rejects_empty_pieces() {
    let mut repl = Repl::new();
    assert_eq!(repl.parse_hex(""), Err(HexParseError::Invalid));
    assert_eq!(repl.parse_hex("0a  0b"), Err(HexParseError::Invalid));
}

#[test]
fn repl_records_commands() {
    let mut repl = Repl::new();
    repl.record_command(".registers".to_string());
    repl.record_command(".quit".to_string());
    assert_eq!(repl.command_buffer, vec![".registers".to_string(), ".quit".to_string()]);
    assert_eq!(repl.vm.registers[0], 0);
}
