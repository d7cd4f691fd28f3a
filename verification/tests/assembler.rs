use hack_backend::assemble;
use hack_backend::error::AsmError;
use hack_backend::lexer::Lexer;
use hack_backend::symbol_table::SymbolTable;
use hack_backend::to_bytecode::format_u16;
use hack_backend::token::{Instruction, C};

#[test]
fn minimal_a_instruction() {
    assert_eq!(assemble("@5").unwrap(), "0000000000000101");
}

#[test]
fn c_with_dest_and_comp() {
    assert_eq!(assemble("D=A+1").unwrap(), "1110110111010000");
}

#[test]
fn c_with_comp_and_jump() {
    assert_eq!(assemble("0;JMP").unwrap(), "1110101010000111");
}

#[test]
fn c_with_dest_comp_and_jump() {
    assert_eq!(assemble("D=D+1;JGT").unwrap(), "1110011111010001");
}

#[test]
fn variable_allocation_is_consecutive_and_idempotent() {
    let out = assemble("@foo\n@bar\n@foo").unwrap();
    let lines: Vec<&str> = out.lines().collect();
    assert_eq!(
        lines,
        vec!["0000000000010000", "0000000000010001", "0000000000010000"]
    );
}

#[test]
fn label_back_reference() {
    let out = assemble("@LOOP\n0;JMP\n(LOOP)\n@LOOP\n0;JMP").unwrap();
    let lines: Vec<&str> = out.lines().collect();
    assert_eq!(lines.len(), 4);
    assert_eq!(lines[0], "0000000000000010");
    assert_eq!(lines[2], "0000000000000010");
}

#[test]
fn forward_label_reference() {
    let out = assemble("@END\n0;JMP\nD=A\n(END)\n@END\n0;JMP").unwrap();
    let lines: Vec<&str> = out.lines().collect();
    assert_eq!(lines[0], "0000000000000011");
    assert_eq!(lines[3], "0000000000000011");
}

#[test]
fn predefined_symbols_resolve() {
    let out = assemble("@SP\n@LCL\n@ARG\n@THIS\n@THAT\n@R13\n@SCREEN\n@KBD").unwrap();
    let lines: Vec<&str> = out.lines().collect();
    assert_eq!(lines[0], "0000000000000000");
    assert_eq!(lines[1], "0000000000000001");
    assert_eq!(lines[2], "0000000000000010");
    assert_eq!(lines[3], "0000000000000011");
    assert_eq!(lines[4], "0000000000000100");
    assert_eq!(lines[5], "0000000000001101");
    assert_eq!(lines[6], "0100000000000000");
    assert_eq!(lines[7], "0110000000000000");
}

#[test]
fn comments_and_blanks_are_stripped() {
    let out = assemble("// a comment\n\n   @5   // trailing\n").unwrap();
    assert_eq!(out, "0000000000000101");
}

#[test]
fn empty_source_assembles_to_nothing() {
    assert_eq!(assemble("").unwrap(), "");
    assert_eq!(assemble("// only a comment\n\n").unwrap(), "");
}

#[test]
fn assembling_is_deterministic() {
    let src = "@x\nM=D+1;JNE\n(L)\n@L\n0;JMP";
    assert_eq!(assemble(src), assemble(src));
}

#[test]
fn unknown_comp_is_reported() {
    assert_eq!(
        assemble("D=W"),
        Err(AsmError::UnknownComp(String::from("W")))
    );
}

#[test]
fn unknown_dest_is_reported() {
    assert_eq!(
        assemble("W=D"),
        Err(AsmError::UnknownDest(String::from("W")))
    );
}

#[test]
fn unknown_jump_is_reported() {
    assert_eq!(
        assemble("D;JXX"),
        Err(AsmError::UnknownJump(String::from("JXX")))
    );
}

#[test]
fn bare_word_line_is_malformed() {
    assert_eq!(assemble("FOO"), Err(AsmError::MalformedC(String::from("FOO"))));
}

#[test]
fn oversized_address_becomes_a_variable() {
    // 99999 does not fit in sixteen bits, so the name is taken symbolically
    // and allocated at 16.
    assert_eq!(assemble("@99999").unwrap(), "0000000000010000");
}

#[test]
fn carriage_returns_are_trimmed() {
    assert_eq!(assemble("@5\r\nD=A\r\n").unwrap(), assemble("@5\nD=A").unwrap());
}

#[test]
fn repeated_address_markers_are_stripped() {
    assert_eq!(assemble("@@5").unwrap(), "0000000000000101");
}

#[test]
fn format_u16_pads_to_sixteen_bits() {
    assert_eq!(format_u16(0), "0000000000000000");
    assert_eq!(format_u16(5), "0000000000000101");
    assert_eq!(format_u16(u16::MAX), "1111111111111111");
}

#[test]
fn symbol_table_lifecycle() {
    let mut t = SymbolTable::new();
    assert_eq!(t.get("SP"), Some(0));
    assert_eq!(t.get("KBD"), Some(24576));
    assert_eq!(t.get("missing"), None);
    assert_eq!(t.append("x"), 16);
    assert_eq!(t.append("y"), 17);
    assert_eq!(t.append("x"), 16);
    t.insert("x", 99);
    assert_eq!(t.get("x"), Some(99));
}

#[test]
fn lexer_counts_rom_slots_for_labels() {
    let table = SymbolTable::new();
    let lexer = Lexer::new("@1\nD=A\n(HERE)\n@HERE", table).unwrap();
    assert_eq!(lexer.tokens.len(), 4);
    assert_eq!(lexer.table.get("HERE"), Some(2));
}

#[test]
fn c_token_encodes_directly() {
    let c = C {
        dest: Some(String::from("D")),
        comp: String::from("A+1"),
        jump: None,
    };
    assert_eq!(c.to_bytecode().unwrap(), "1110110111010000");
    let mut table = SymbolTable::new();
    let label = Instruction::Label(String::from("X"));
    assert_eq!(label.to_bytecode(&mut table).unwrap(), None);
}
