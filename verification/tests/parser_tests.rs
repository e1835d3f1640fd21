use vdg_oxidizer::instruction::{Instruction, Opcode};
use vdg_oxidizer::lexer::{AsmParseErr, Context, Lexer, Token};
use vdg_oxidizer::parser::{Operand, Parsed, Parser};

#[test]
fn test_hlt_opcode_parsing() {
    let test_code = "   hlt  ";
    let mut lexer = Lexer::new();
    let tokens = lexer.tokenize(test_code).unwrap();

    let mut parser = Parser::new();
    let parsed = parser.parse(tokens).unwrap();

    let inst = Instruction::from_parsed(Opcode::Hlt, (None, None, None));

    assert_eq!(parsed, vec![Parsed::Instruction(inst)])
}

#[test]
fn test_mov_opcode_parsing() {
    let test_code1 = "mov $2 [500]";
    let test_code2 = "mov $3 $23 mov $5 69";
    let fail_code1 = "mov [4] @label";

    let mut lexer = Lexer::new();
    let tokens1 = lexer.tokenize(test_code1).unwrap();
    let tokens2 = lexer.tokenize(test_code2).unwrap();
    let tokens3 = lexer.tokenize(fail_code1).unwrap();

    let mut parser = Parser::new();
    let parsed1 = parser.parse(tokens1).unwrap();
    let parsed2 = parser.parse(tokens2).unwrap();
    let parsed3 = parser.parse(tokens3);

    let cmp_inst1 = Instruction::from_parsed(
        Opcode::Mov,
        (
            Some(Operand::Register(2)),
            Some(Operand::Pointer(String::from("500"))),
            None,
        ),
    );

    let cmp_inst2_1 = Instruction::from_parsed(
        Opcode::Mov,
        (
            Some(Operand::Register(3)),
            Some(Operand::Register(23)),
            None,
        ),
    );

    let cmp_inst2_2 = Instruction::from_parsed(
        Opcode::Mov,
        (
            Some(Operand::Register(5)),
            Some(Operand::NumLiteral(69)),
            None,
        ),
    );

    assert_eq!(parsed1, vec![Parsed::Instruction(cmp_inst1)]);
    assert_eq!(
        parsed2,
        vec![
            Parsed::Instruction(cmp_inst2_1),
            Parsed::Instruction(cmp_inst2_2),
        ]
    );
    assert!(parsed3.is_err())
}

#[test]
fn test_jmp_opcode_passing() {
    let test_lit = "jmp 600";
    let test_ptr = "jmp [main + 60]";
    let test_lab = "jmp @main";
    let test_reg = "jmp $20";

    let mut lexer = Lexer::new();
    let tokens_lit = lexer.tokenize(test_lit).unwrap();
    let tokens_ptr = lexer.tokenize(test_ptr).unwrap();
    let tokens_lab = lexer.tokenize(test_lab).unwrap();
    let tokens_reg = lexer.tokenize(test_reg).unwrap();

    let mut parser = Parser::new();
    let parsed_lit = parser.parse(tokens_lit).unwrap();
    let parsed_ptr = parser.parse(tokens_ptr).unwrap();
    let parsed_lab = parser.parse(tokens_lab).unwrap();
    let parsed_reg = parser.parse(tokens_reg).unwrap();

    let inst_lit =
        Instruction::from_parsed(Opcode::Jmp, (Some(Operand::NumLiteral(600)), None, None));

    let inst_ptr = Instruction::from_parsed(
        Opcode::Jmp,
        (Some(Operand::Pointer(String::from("main + 60"))), None, None),
    );

    let inst_lab = Instruction::from_parsed(
        Opcode::Jmp,
        (Some(Operand::LabelUse(String::from("main"))), None, None),
    );

    let inst_reg =
        Instruction::from_parsed(Opcode::Jmp, (Some(Operand::Register(20)), None, None));

    assert_eq!(parsed_lit, vec![Parsed::Instruction(inst_lit)]);
    assert_eq!(parsed_ptr, vec![Parsed::Instruction(inst_ptr)]);
    assert_eq!(parsed_lab, vec![Parsed::Instruction(inst_lab)]);
    assert_eq!(parsed_reg, vec![Parsed::Instruction(inst_reg)]);
}

#[test]
fn test_jmpf_and_jmpb_parsing() {
    let test_jmpf_lit = "jmpf 10";
    let test_jmpf_reg = "jmpf $9";
    let test_jmpb_lit = "jmpb 15";
    let test_jmpb_reg = "jmpb $5";
    let test_jmpf_err = "jmpf [main + 2]";
    let test_jmpb_err = "jmpb [main + 2]";

    let mut lexer = Lexer::new();
    let tok_jmpf_lit = lexer.tokenize(test_jmpf_lit).unwrap();
    let tok_jmpf_reg = lexer.tokenize(test_jmpf_reg).unwrap();
    let tok_jmpb_lit = lexer.tokenize(test_jmpb_lit).unwrap();
    let tok_jmpb_reg = lexer.tokenize(test_jmpb_reg).unwrap();
    let tok_jmpf_err = lexer.tokenize(test_jmpf_err).unwrap();
    let tok_jmpb_err = lexer.tokenize(test_jmpb_err).unwrap();

    let mut parser = Parser::new();
    let p_jmpf_lit = parser.parse(tok_jmpf_lit).unwrap();
    let p_jmpf_reg = parser.parse(tok_jmpf_reg).unwrap();
    let p_jmpb_lit = parser.parse(tok_jmpb_lit).unwrap();
    let p_jmpb_reg = parser.parse(tok_jmpb_reg).unwrap();
    let p_jmpf_err = parser.parse(tok_jmpf_err);
    let p_jmpb_err = parser.parse(tok_jmpb_err);

    let inst_jmpf_lit =
        Instruction::from_parsed(Opcode::Jmpf, (Some(Operand::NumLiteral(10)), None, None));

    let inst_jmpf_reg =
        Instruction::from_parsed(Opcode::Jmpf, (Some(Operand::Register(9)), None, None));

    let inst_jmpb_lit =
        Instruction::from_parsed(Opcode::Jmpb, (Some(Operand::NumLiteral(15)), None, None));

    let inst_jmpb_reg =
        Instruction::from_parsed(Opcode::Jmpb, (Some(Operand::Register(5)), None, None));

    assert_eq!(p_jmpf_lit, vec![Parsed::Instruction(inst_jmpf_lit)]);
    assert_eq!(p_jmpf_reg, vec![Parsed::Instruction(inst_jmpf_reg)]);
    assert_eq!(p_jmpb_lit, vec![Parsed::Instruction(inst_jmpb_lit)]);
    assert_eq!(p_jmpb_reg, vec![Parsed::Instruction(inst_jmpb_reg)]);
    assert!(p_jmpf_err.is_err());
    assert!(p_jmpb_err.is_err());
}

#[test]
fn test_comparison_parsing() {
    let test_code = "cmp $3 50";
    let test_err = "cmp [420] @hello";

    let mut lexer = Lexer::new();
    let tokens = lexer.tokenize(test_code).unwrap();
    let tokens_err = lexer.tokenize(test_err).unwrap();

    let mut parser = Parser::new();
    let parsed = parser.parse(tokens).unwrap();
    let parsed_err = parser.parse(tokens_err);

    let inst = Instruction::from_parsed(
        Opcode::Cmp,
        (
            Some(Operand::Register(3)),
            Some(Operand::NumLiteral(50)),
            None,
        ),
    );

    assert_eq!(parsed, vec![Parsed::Instruction(inst)]);
    assert!(parsed_err.is_err());
}

#[test]
fn mov_with_mismatched_operand_kind_is_rejected() {
    // the second operand admits no label use, so that operand is blamed
    let mut lexer = Lexer::new();
    let tokens = lexer.tokenize("mov [4] @label").unwrap();
    let mut parser = Parser::new();
    match parser.parse(tokens) {
        Err(AsmParseErr::InvalidOperand(op, con)) => {
            assert_eq!(op, Operand::LabelUse(String::from("label")));
            assert_eq!(con, Context::from(1, 9));
        }
        other => panic!("expected InvalidOperand, got {:?}", other),
    }
}

#[test]
fn wrong_operand_count_is_rejected() {
    let mut lexer = Lexer::new();
    let mut parser = Parser::new();
    let tokens = lexer.tokenize("mov $1").unwrap();
    match parser.parse(tokens) {
        Err(AsmParseErr::IncorrectOperandNo(2, 1, _)) => {}
        other => panic!("expected IncorrectOperandNo, got {:?}", other),
    }
    let tokens = lexer.tokenize("mov $1 $2 $3 $4").unwrap();
    match parser.parse(tokens) {
        Err(AsmParseErr::TooManyOperands(_)) => {}
        other => panic!("expected TooManyOperands, got {:?}", other),
    }
}

#[test]
fn stray_operand_at_top_level_is_rejected() {
    let mut lexer = Lexer::new();
    let mut parser = Parser::new();
    let tokens = lexer.tokenize("$5 mov $1 2").unwrap();
    match parser.parse(tokens) {
        Err(AsmParseErr::UnexpectedOperand(Token::Register(5, _))) => {}
        other => panic!("expected UnexpectedOperand, got {:?}", other),
    }
}

#[test]
fn string_literal_needs_string_directive() {
    let mut lexer = Lexer::new();
    let mut parser = Parser::new();
    let tokens = lexer.tokenize("\"hello\"").unwrap();
    match parser.parse(tokens) {
        Err(AsmParseErr::UnexpectedToken(t, _)) => assert_eq!(t, "hello"),
        other => panic!("expected UnexpectedToken, got {:?}", other),
    }
    let tokens = lexer.tokenize(".string \"hello\"").unwrap();
    let items = parser.parse(tokens).unwrap();
    assert_eq!(items.len(), 2);
    assert!(matches!(items[1], Parsed::StrLiteral(ref s, _) if s == "hello"));
}

#[test]
fn operand_conversion_refuses_non_operand_tokens() {
    let con = Context::from(1, 1);
    let t = Token::Opcode(Opcode::Hlt, con);
    assert_eq!(
        Operand::try_from(t.clone()),
        Err(AsmParseErr::InvalidOperandConversion(t))
    );
    assert_eq!(
        Operand::try_from(Token::Register(7, con)),
        Ok(Operand::Register(7))
    );
}

#[test]
fn reserved_opcodes_parse_bare() {
    let mut lexer = Lexer::new();
    let mut parser = Parser::new();
    let tokens = lexer.tokenize("push").unwrap();
    let items = parser.parse(tokens).unwrap();
    let inst = Instruction::from_parsed(Opcode::Push, (None, None, None));
    assert_eq!(items, vec![Parsed::Instruction(inst)]);
}
