use vdg_oxidizer::assembler::{AsmErr, Assembler};
use vdg_oxidizer::lexer::Lexer;
use vdg_oxidizer::parser::{Operand, Parsed, Parser};
use vdg_oxidizer::vm::VM;

fn assemble_source(src: &str) -> Result<Vec<u8>, AsmErr> {
    let mut lexer = Lexer::new();
    let tokens = lexer.tokenize(src).unwrap();
    let mut parser = Parser::new();
    let items: Vec<Parsed> = parser.parse(tokens).unwrap();
    let mut assembler = Assembler::new();
    assembler.assemble(&items)
}

#[test]
fn add_three_registers_runs_to_500() {
    let bytes = assemble_source("mov $1 250\nmov $2 250\nadd $1 $2 $3\nhlt").unwrap();
    let mut vm = VM::new(bytes);
    assert_eq!(vm.run(100), Ok(true));
    assert_eq!(vm.test_register(3).unwrap(), 500);
}

#[test]
fn aloc_grows_heap_to_10() {
    let bytes = assemble_source("mov $2 10\naloc $2\nhlt").unwrap();
    let mut vm = VM::new(bytes);
    assert_eq!(vm.run(100), Ok(true));
    assert_eq!(vm.heap(), 10);
}

#[test]
fn hlt_assembles_to_one_byte() {
    assert_eq!(assemble_source("hlt"), Ok(vec![0x00]));
}

#[test]
fn mov_forms_assemble_to_canonical_bytes() {
    assert_eq!(
        assemble_source("mov $2 500"),
        Ok(vec![0x01, 0x02, 0x00, 0xf4, 0x01, 0x00, 0x00])
    );
    assert_eq!(assemble_source("mov $3 $23"), Ok(vec![0x01, 0x03, 0x02, 23]));
    // a bare-integer pointer resolves to an absolute offset, mode 1
    assert_eq!(
        assemble_source("mov $2 [500]"),
        Ok(vec![0x01, 0x02, 0x01, 0xf4, 0x01, 0x00, 0x00])
    );
}

#[test]
fn labels_resolve_to_body_offsets() {
    // the 7-byte mov and the 1-byte hlt come first, so lbl's body
    // begins at byte offset 8, and the pointer resolves to 8
    let bytes = assemble_source("mov $3 500 hlt lbl: { hlt } mov $5 [lbl]").unwrap();
    assert_eq!(
        bytes,
        vec![
            0x01, 0x03, 0x00, 0xf4, 0x01, 0x00, 0x00, // mov $3 500
            0x00, // hlt
            0x00, // lbl: hlt
            0x01, 0x05, 0x01, 8, 0, 0, 0, // mov $5 [lbl]
        ]
    );
}

#[test]
fn label_plus_offset_resolves() {
    let bytes = assemble_source("lbl: { hlt hlt hlt } mov $1 [lbl + 2]").unwrap();
    assert_eq!(bytes, vec![0x00, 0x00, 0x00, 0x01, 0x01, 0x01, 2, 0, 0, 0]);
}

#[test]
fn jump_lands_on_label_body() {
    // mov $1 16 ; jmp $1 ; mov $4 99 ; lbl: { mov $3 77 } — the register
    // holds the label's byte offset, so the jump lands on its body
    let bytes =
        assemble_source("mov $1 16 jmp $1 mov $4 99 lbl: { mov $3 77 hlt }").unwrap();
    let mut vm = VM::new(bytes);
    assert_eq!(vm.run(100), Ok(true));
    assert_eq!(vm.test_register(4).unwrap(), 0);
    assert_eq!(vm.test_register(3).unwrap(), 77);
}

#[test]
fn string_payloads_occupy_space_in_data_sections() {
    let bytes = assemble_source(".string \"hi\" hlt").unwrap();
    assert_eq!(bytes, vec![b'h', b'i', 0x00]);
}

#[test]
fn redefined_label_is_fatal() {
    let mut lexer = Lexer::new();
    let tokens = lexer.tokenize("a: { } a: { }").unwrap();
    let mut parser = Parser::new();
    let items = parser.parse(tokens).unwrap();
    let mut assembler = Assembler::new();
    assert_eq!(
        assembler.assemble(&items),
        Err(AsmErr::RedefinedLabel(String::from("a")))
    );
}

#[test]
fn unknown_label_in_pointer_is_unresolved() {
    assert_eq!(
        assemble_source("mov $1 [nope]"),
        Err(AsmErr::UnresolvedPointer(String::from("nope")))
    );
}

#[test]
fn jump_to_missing_label_is_undefined() {
    assert_eq!(
        assemble_source("jmp @missing"),
        Err(AsmErr::UndefinedLabel(String::from("missing")))
    );
}

#[test]
fn literal_jump_has_no_encoding() {
    assert_eq!(
        assemble_source("jmp 600"),
        Err(AsmErr::UnencodableOperand(Operand::NumLiteral(600)))
    );
}
