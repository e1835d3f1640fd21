use vdg_oxidizer::instruction::Opcode;
use vdg_oxidizer::lexer::{AsmParseErr, Context, Directive, Lexer, Token};

#[test]
fn test_basic_instruction() {
    let test_str = "\tmov $2 500\n\tadd $5 [main + 24] $10   sub [50] 40 $2";
    let mut tokenizer = Lexer::new();
    let tokens = tokenizer.tokenize(test_str).unwrap();
    assert_eq!(
        tokens,
        vec![
            Token::Opcode(Opcode::Mov, tokens[0].context()),
            Token::Register(2, tokens[1].context()),
            Token::NumLiteral(500, tokens[2].context()),
            Token::Opcode(Opcode::Add, tokens[3].context()),
            Token::Register(5, tokens[4].context()),
            Token::Pointer(String::from("main + 24"), tokens[5].context()),
            Token::Register(10, tokens[6].context()),
            Token::Opcode(Opcode::Sub, tokens[7].context()),
            Token::Pointer(String::from("50"), tokens[8].context()),
            Token::NumLiteral(40, tokens[9].context()),
            Token::Register(2, tokens[10].context()),
        ]
    )
}

#[test]
fn test_label_and_strlit() {
    let test_str = "string: {\"hello\"}";
    let mut tokenizer = Lexer::new();
    let tokens = tokenizer.tokenize(test_str).unwrap();
    assert_eq!(
        tokens,
        vec![
            Token::LabelDeclStart(String::from("string"), tokens[0].context()),
            Token::StrLiteral(String::from("hello"), tokens[1].context()),
            Token::LabelDeclEnd(tokens[2].context())
        ]
    )
}

#[test]
fn test_label_usage() {
    let test_str = "label: { mov $3 500 }\nmov $5 @label";
    let mut lexer = Lexer::new();
    let tokens = lexer.tokenize(test_str).unwrap();
    assert_eq!(
        tokens,
        vec![
            Token::LabelDeclStart(String::from("label"), tokens[0].context()),
            Token::Opcode(Opcode::Mov, tokens[1].context()),
            Token::Register(3, tokens[2].context()),
            Token::NumLiteral(500, tokens[3].context()),
            Token::LabelDeclEnd(tokens[4].context()),
            Token::Opcode(Opcode::Mov, tokens[5].context()),
            Token::Register(5, tokens[6].context()),
            Token::LabelUse(String::from("label"), tokens[7].context())
        ]
    )
}

#[test]
fn test_unexpected() {
    let test_str = "{";
    let mut lexer = Lexer::new();
    let res = lexer.tokenize(test_str);
    assert_eq!(
        Err(AsmParseErr::UnexpectedToken(
            String::from("{"),
            Context::from(1, 1)
        )),
        res
    )
}

#[test]
fn test_backtick() {
    let test_str = "label: { \"say \\\"hello world!\\\"\"}";
    let mut lexer = Lexer::new();
    let tokens = lexer.tokenize(test_str).unwrap();
    assert_eq!(
        tokens,
        vec![
            Token::LabelDeclStart(String::from("label"), tokens[0].context()),
            Token::StrLiteral(String::from("say \"hello world!\""), tokens[1].context()),
            Token::LabelDeclEnd(tokens[2].context()),
        ]
    )
}

#[test]
fn token_positions_point_at_first_character() {
    // every reported (line, column) points at the token's first character
    let test_str = "mov $2 500\n  add $1 $2 $3";
    let mut lexer = Lexer::new();
    let tokens = lexer.tokenize(test_str).unwrap();
    let expected = vec![
        (1, 1),  // mov
        (1, 5),  // $2
        (1, 8),  // 500
        (2, 3),  // add
        (2, 7),  // $1
        (2, 10), // $2
        (2, 13), // $3
    ];
    assert_eq!(tokens.len(), expected.len());
    for (tok, (line, col)) in tokens.iter().zip(expected.iter()) {
        assert_eq!(tok.context(), Context::from(*line, *col));
    }
}

#[test]
fn label_position_points_at_name() {
    let mut lexer = Lexer::new();
    let tokens = lexer.tokenize("  start: { }").unwrap();
    assert_eq!(
        tokens[0],
        Token::LabelDeclStart(String::from("start"), Context::from(1, 3))
    );
    assert_eq!(tokens[1], Token::LabelDeclEnd(Context::from(1, 12)));
}

#[test]
fn register_out_of_range_is_invalid() {
    let mut lexer = Lexer::new();
    match lexer.tokenize("mov $40 1") {
        Err(AsmParseErr::InvalidRegister(40, _)) => {}
        other => panic!("expected InvalidRegister, got {:?}", other),
    }
}

#[test]
fn register_text_that_is_no_number() {
    let mut lexer = Lexer::new();
    match lexer.tokenize("mov $x2 1") {
        Err(AsmParseErr::CouldNotParse(t, _)) => assert_eq!(t, "x2"),
        other => panic!("expected CouldNotParse, got {:?}", other),
    }
}

#[test]
fn unterminated_pointer_is_eof() {
    let mut lexer = Lexer::new();
    match lexer.tokenize("mov $1 [main") {
        Err(AsmParseErr::UnexpectedEOF(_)) => {}
        other => panic!("expected UnexpectedEOF, got {:?}", other),
    }
}

#[test]
fn unterminated_string_is_eof() {
    let mut lexer = Lexer::new();
    match lexer.tokenize("\"say hello") {
        Err(AsmParseErr::UnexpectedEOF(_)) => {}
        other => panic!("expected UnexpectedEOF, got {:?}", other),
    }
}

#[test]
fn directives_lex_and_bad_ones_fail() {
    let mut lexer = Lexer::new();
    let tokens = lexer.tokenize(".code .data .string .global").unwrap();
    assert_eq!(
        tokens,
        vec![
            Token::Directive(Directive::Code, tokens[0].context()),
            Token::Directive(Directive::Data, tokens[1].context()),
            Token::Directive(Directive::String, tokens[2].context()),
            Token::Directive(Directive::Global, tokens[3].context()),
        ]
    );
    match lexer.tokenize(".bogus") {
        Err(AsmParseErr::InvalidDirective(t, _)) => assert_eq!(t, "bogus"),
        other => panic!("expected InvalidDirective, got {:?}", other),
    }
}

#[test]
fn oversized_literal_is_no_number() {
    let mut lexer = Lexer::new();
    match lexer.tokenize("2147483648") {
        Err(AsmParseErr::UnexpectedToken(t, _)) => assert_eq!(t, "2147483648"),
        other => panic!("expected UnexpectedToken, got {:?}", other),
    }
    let tokens = lexer.tokenize("2147483647 -2147483648").unwrap();
    assert_eq!(tokens[0], Token::NumLiteral(2147483647, tokens[0].context()));
    assert_eq!(tokens[1], Token::NumLiteral(-2147483648, tokens[1].context()));
}

#[test]
fn directive_try_from_maps_the_four_words() {
    let con = Context::from(1, 1);
    assert_eq!(
        Directive::try_from(String::from("code"), con),
        Ok(Directive::Code)
    );
    assert_eq!(
        Directive::try_from(String::from("data"), con),
        Ok(Directive::Data)
    );
    assert_eq!(
        Directive::try_from(String::from("string"), con),
        Ok(Directive::String)
    );
    assert_eq!(
        Directive::try_from(String::from("global"), con),
        Ok(Directive::Global)
    );
    assert_eq!(
        Directive::try_from(String::from("other"), con),
        Err(AsmParseErr::InvalidDirective(String::from("other"), con))
    );
}
