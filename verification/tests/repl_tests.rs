use vdg_oxidizer::repl::{AsmLexErr, AsmLexer, Executable, ReplCmd};
use vdg_oxidizer::vm::VM;

#[test]
fn dot_commands_parse() {
    let mut lx = AsmLexer::new();
    assert_eq!(
        lx.parse(String::from(".registers")),
        Ok(Some(Executable::Command(ReplCmd::Registers)))
    );
    assert_eq!(
        lx.parse(String::from(".program")),
        Ok(Some(Executable::Command(ReplCmd::Program)))
    );
    assert_eq!(
        lx.parse(String::from(".info")),
        Ok(Some(Executable::Command(ReplCmd::Info)))
    );
    assert_eq!(
        lx.parse(String::from(".quit")),
        Ok(Some(Executable::Command(ReplCmd::Quit)))
    );
    assert_eq!(
        lx.parse(String::from("  .help  ")),
        Ok(Some(Executable::Command(ReplCmd::Help)))
    );
}

#[test]
fn unknown_commands_and_blank_lines_yield_nothing() {
    let mut lx = AsmLexer::new();
    assert_eq!(lx.parse(String::from(".bogus")), Ok(None));
    assert_eq!(lx.parse(String::from("   ")), Ok(None));
    assert_eq!(lx.parse(String::new()), Ok(None));
}

#[test]
fn instructions_lower_to_canonical_bytes() {
    let mut lx = AsmLexer::new();
    assert_eq!(
        lx.parse(String::from("mov $2 500")),
        Ok(Some(Executable::Instruction(vec![
            0x01, 0x02, 0x00, 0xf4, 0x01, 0x00, 0x00
        ])))
    );
    assert_eq!(
        lx.parse(String::from("hlt")),
        Ok(Some(Executable::Instruction(vec![0x00])))
    );
    assert_eq!(
        lx.parse(String::from("add $1 $2 $3")),
        Ok(Some(Executable::Instruction(vec![0x22, 1, 2, 3])))
    );
}

#[test]
fn line_errors_carry_their_kind() {
    let mut lx = AsmLexer::new();
    assert_eq!(
        lx.parse(String::from("mov $40 1")),
        Err(AsmLexErr::InvalidRegister(40))
    );
    assert_eq!(
        lx.parse(String::from("mov $1")),
        Err(AsmLexErr::IncorrectOperandNo(2, 1))
    );
    assert_eq!(
        lx.parse(String::from("bogus")),
        Err(AsmLexErr::UnexpectedOperand(String::from("bogus")))
    );
    // a label declaration is not a single instruction
    assert_eq!(
        lx.parse(String::from("lbl: { hlt }")),
        Err(AsmLexErr::SyntaxError)
    );
    // neither are two instructions on one line
    assert_eq!(
        lx.parse(String::from("hlt hlt")),
        Err(AsmLexErr::SyntaxError)
    );
    assert_eq!(
        lx.parse(String::from("mov $1 2 mov $3 4")),
        Err(AsmLexErr::SyntaxError)
    );
}

#[test]
fn a_session_of_lines_drives_the_vm() {
    let mut lx = AsmLexer::new();
    let mut vm = VM::new(vec![]);
    for line in ["mov $1 250", "mov $2 250", "add $1 $2 $3"] {
        match lx.parse(String::from(line)).unwrap().unwrap() {
            Executable::Instruction(bytes) => {
                vm.add_bytes(bytes);
                assert_eq!(vm.run_once(), Ok(false));
            }
            Executable::Command(_) => panic!("not a command"),
        }
    }
    assert_eq!(vm.test_register(3).unwrap(), 500);
    match lx.parse(String::from("hlt")).unwrap().unwrap() {
        Executable::Instruction(bytes) => {
            vm.add_bytes(bytes);
            assert_eq!(vm.run_once(), Ok(true));
        }
        Executable::Command(_) => panic!("not a command"),
    }
}
