use vdg_oxidizer::instruction::{Instruction, Opcode};
use vdg_oxidizer::parser::Operand;

#[test]
fn test_opcode_from() {
    let hlt = 0x00;
    let mov = 0x01;
    let igl = 0xf7;

    let hltopcode = Opcode::from(hlt);
    let movopcode = Opcode::from(mov);
    let iglopcode = Opcode::from(igl);
    assert_eq!(hltopcode, Opcode::Hlt);
    assert_eq!(movopcode, Opcode::Mov);
    assert_eq!(iglopcode, Opcode::Igl);
}

#[test]
fn instruction_test_opcode_from() {
    let hlt = 0x00;
    let mov = 0x01;
    let igl = 0xf7;

    let hltopcode = Opcode::from(hlt);
    let movopcode = Opcode::from(mov);
    let iglopcode = Opcode::from(igl);
    assert_eq!(hltopcode, Opcode::Hlt);
    assert_eq!(movopcode, Opcode::Mov);
    assert_eq!(iglopcode, Opcode::Igl);
}

#[test]
fn opcode_bytes_round_trip() {
    // every real opcode decodes back from its canonical byte
    for b in 0x00u8..=0x2b {
        let op = Opcode::from(b);
        if op != Opcode::Igl {
            assert_eq!(op.to_byte(), b);
        }
    }
    assert_eq!(Opcode::Aloc.to_byte(), 0x0c);
    assert_eq!(Opcode::Add.to_byte(), 0x22);
}

#[test]
fn instruction_new_decodes_byte() {
    let i = Instruction::new(0x22);
    assert_eq!(i.inst, Opcode::Add);
    assert!(i.op1.is_none() && i.op2.is_none() && i.op3.is_none());
}

#[test]
fn encode_decode_round_trip_mov_immediate() {
    let i = Instruction::from_parsed(
        Opcode::Mov,
        (
            Some(Operand::Register(2)),
            Some(Operand::NumLiteral(500)),
            None,
        ),
    );
    let bytes = i.clone().to_bytes().unwrap();
    assert_eq!(bytes, vec![0x01, 0x02, 0x00, 0xf4, 0x01, 0x00, 0x00]);
    let (back, next) = Instruction::from_bytes(&bytes, 0).unwrap();
    assert_eq!(back, i);
    assert_eq!(next, bytes.len());
}

#[test]
fn encode_decode_round_trip_negative_immediate() {
    let i = Instruction::from_parsed(
        Opcode::Aloc,
        (Some(Operand::NumLiteral(-1)), None, None),
    );
    let bytes = i.clone().to_bytes().unwrap();
    assert_eq!(bytes, vec![0x0c, 0x00, 0xff, 0xff, 0xff, 0xff]);
    let (back, next) = Instruction::from_bytes(&bytes, 0).unwrap();
    assert_eq!(back, i);
    assert_eq!(next, 6);
}

#[test]
fn encode_decode_round_trip_three_registers() {
    let i = Instruction::from_parsed(
        Opcode::Add,
        (
            Some(Operand::Register(1)),
            Some(Operand::Register(2)),
            Some(Operand::Register(3)),
        ),
    );
    let bytes = i.clone().to_bytes().unwrap();
    assert_eq!(bytes, vec![0x22, 1, 2, 3]);
    let (back, next) = Instruction::from_bytes(&bytes, 0).unwrap();
    assert_eq!(back, i);
    assert_eq!(next, 4);
}

#[test]
fn unencodable_shapes_have_no_bytes() {
    // the wire format has no register-jump alternative for a literal
    let jmp_lit = Instruction::from_parsed(
        Opcode::Jmp,
        (Some(Operand::NumLiteral(600)), None, None),
    );
    assert!(jmp_lit.to_bytes().is_none());
    // a pointer destination for mov is not encodable either
    let mov_ptr = Instruction::from_parsed(
        Opcode::Mov,
        (
            Some(Operand::Pointer(String::from("4"))),
            Some(Operand::NumLiteral(1)),
            None,
        ),
    );
    assert!(mov_ptr.to_bytes().is_none());
}

#[test]
fn decode_rejects_unknown_mode_and_illegal_byte() {
    assert!(Instruction::from_bytes(&vec![0x01, 0x02, 0x03, 0, 0, 0, 0], 0).is_none());
    assert!(Instruction::from_bytes(&vec![0xf7], 0).is_none());
    assert!(Instruction::from_bytes(&vec![0x01, 0x02], 0).is_none());
}

#[test]
fn pointer_mode_decodes_to_the_resolved_offset() {
    // mode 1, the assembler's pointer form: the wire carries the offset,
    // which reads back as a literal
    let (i, next) = Instruction::from_bytes(&vec![0x01, 0x05, 0x01, 8, 0, 0, 0], 0).unwrap();
    assert_eq!(
        i,
        Instruction::from_parsed(
            Opcode::Mov,
            (
                Some(Operand::Register(5)),
                Some(Operand::NumLiteral(8)),
                None,
            ),
        )
    );
    assert_eq!(next, 7);
    let (i, next) = Instruction::from_bytes(&vec![0x0c, 0x01, 2, 0, 0, 0], 0).unwrap();
    assert_eq!(
        i,
        Instruction::from_parsed(Opcode::Aloc, (Some(Operand::NumLiteral(2)), None, None),)
    );
    assert_eq!(next, 6);
}
