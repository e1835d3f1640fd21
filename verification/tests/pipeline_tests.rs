use vdg_oxidizer::assembler::Assembler;
use vdg_oxidizer::instruction::Instruction;
use vdg_oxidizer::lexer::Lexer;
use vdg_oxidizer::parser::{Parsed, Parser};

#[test]
fn assembling_then_decoding_gives_the_parsed_stream_back() {
    let src = "mov $1 250\nmov $2 250\nadd $1 $2 $3\ncmp $3 $1\njeq $2\nhlt";
    let mut lexer = Lexer::new();
    let tokens = lexer.tokenize(src).unwrap();
    let mut parser = Parser::new();
    let items = parser.parse(tokens).unwrap();
    let parsed_instrs: Vec<Instruction> = items
        .iter()
        .map(|p| match p {
            Parsed::Instruction(i) => i.clone(),
            _ => panic!("only instructions here"),
        })
        .collect();

    let mut assembler = Assembler::new();
    let bytes = assembler.assemble(&items).unwrap();

    let mut decoded: Vec<Instruction> = Vec::new();
    let mut pos = 0;
    while pos < bytes.len() {
        let (i, next) = Instruction::from_bytes(&bytes, pos).unwrap();
        decoded.push(i);
        pos = next;
    }
    assert_eq!(decoded, parsed_instrs);
}

#[test]
fn every_encodable_instruction_survives_the_round_trip() {
    let sources = [
        "hlt",
        "mov $0 -2147483648",
        "mov $31 $0",
        "jmp $5",
        "jmpf $1",
        "jmpb $2",
        "jeq $3",
        "jne $4",
        "cmp $1 $2",
        "lt $1 $2",
        "gt $1 $2",
        "le $1 $2",
        "ge $1 $2",
        "add $1 $2 $3",
        "sub $1 $2 $3",
        "mul $1 $2 $3",
        "div $1 $2 $3",
        "aloc $7",
        "aloc 12",
        "dalc $7",
        "dalc 12",
        "push",
        "pop",
        "call",
        "ret",
    ];
    for src in sources {
        let mut lexer = Lexer::new();
        let tokens = lexer.tokenize(src).unwrap();
        let mut parser = Parser::new();
        let items = parser.parse(tokens).unwrap();
        let inst = match &items[0] {
            Parsed::Instruction(i) => i.clone(),
            _ => panic!("an instruction"),
        };
        let bytes = inst.clone().to_bytes().unwrap();
        let (back, next) = Instruction::from_bytes(&bytes, 0).unwrap();
        assert_eq!(back, inst, "{}", src);
        assert_eq!(next, bytes.len(), "{}", src);
    }
}
