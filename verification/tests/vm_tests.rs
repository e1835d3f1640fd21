use byteorder::{LittleEndian, WriteBytesExt};
use vdg_oxidizer::instruction::Opcode;
use vdg_oxidizer::vm::{VMError, VMMemory, VM};

fn i32_to_bytes(num: i32) -> [u8; 4] {
    let mut buf: [u8; 4] = [0, 0, 0, 0];
    buf.as_mut().write_i32::<LittleEndian>(num).unwrap();

    buf
}

#[test]
fn test_vm_init() {
    let test_vm = VM::new(vec![]);
    assert_eq!(test_vm.registers(), vec![0; 32]);
    assert_eq!(test_vm.heap(), 0);
    assert_eq!(test_vm.program().len(), 0);
}

#[test]
fn vm_test_vm_init() {
    let test_vm = VM::new(vec![]);
    assert_eq!(test_vm.registers(), vec![0; 32]);
    assert_eq!(test_vm.heap(), 0);
}

#[test]
fn test_vm_opcodes() {
    let test_code: Vec<u8> = vec![0x01, 0x02, 0x00, 244, 1, 0, 0, 0, 0x00];
    let mut test_vm = VM::new(test_code);

    test_vm.run(100).unwrap();
    assert_eq!(test_vm.test_register(2).unwrap(), 500);
}

#[test]
fn test_mov_opcode() {
    let mut test_code: Vec<u8> = vec![0x01, 0x02, 0x00];

    test_code.extend(i32_to_bytes(500).to_vec());
    test_code.push(0x00);
    /*
    The above code means:
    mov $2 500 (0x01 (mov), 0x02 (register 2), flag LIT (0), (500 in little endian))
    hlt (0x00)
    */
    let mut test_vm = VM::new(test_code);

    test_vm.run(100).unwrap();
    assert_eq!(test_vm.test_register(2).unwrap(), 500);
}

#[test]
fn test_aloc_opcode() {
    // mov $2 10
    let mut test_code: Vec<u8> = vec![0x01, 0x02, 0x00];
    test_code.extend(i32_to_bytes(10).to_vec());
    // aloc $2
    test_code.extend(vec![0x0c, 0x02, 0x02]);
    // hlt
    test_code.push(0x00);

    let mut test_vm = VM::new(test_code);

    test_vm.run(100).unwrap();
    assert_eq!(test_vm.heap(), 10)
}

#[test]
fn mov_immediate_program_sets_register() {
    let mut code: Vec<u8> = vec![0x01, 0x02, 0x00, 0xf4, 0x01, 0x00, 0x00, 0x00];
    code.push(0x00);
    let mut vm = VM::new(code);
    assert_eq!(vm.run(100), Ok(true));
    assert_eq!(vm.test_register(2).unwrap(), 500);
}

#[test]
fn illegal_opcode_fails_the_run() {
    let mut vm = VM::new(vec![0xf7]);
    assert_eq!(vm.run(100), Err(VMError::IglOpcode));
}

#[test]
fn running_past_the_end_is_a_segfault() {
    let mut vm = VM::new(vec![]);
    assert_eq!(vm.run(100), Err(VMError::SegFault));
    // a truncated operand is a segfault too
    let mut vm = VM::new(vec![0x01]);
    assert_eq!(vm.run(100), Err(VMError::SegFault));
}

#[test]
fn reserved_things_are_typed_errors() {
    // a reserved opcode
    let mut vm = VM::new(vec![0x0e]);
    assert_eq!(vm.run(100), Err(VMError::Unsupported(Opcode::Push)));
    // a reserved operand mode
    let mut vm = VM::new(vec![0x01, 0x00, 0x03, 0, 0, 0, 0]);
    assert_eq!(vm.run(100), Err(VMError::OpcodeErr));
    // a register index past the file
    let mut vm = VM::new(vec![0x01, 0x20, 0x00, 0, 0, 0, 0]);
    assert_eq!(vm.run(100), Err(VMError::OpcodeErr));
}

#[test]
fn jump_out_of_bounds_is_a_segfault() {
    // mov $1 100 ; jmp $1  — the program is only 9 bytes long
    let mut code: Vec<u8> = vec![0x01, 0x01, 0x00];
    code.extend(i32_to_bytes(100).to_vec());
    code.extend(vec![0x02, 0x01]);
    let mut vm = VM::new(code);
    assert_eq!(vm.run(100), Err(VMError::SegFault));
}

#[test]
fn jump_to_offset_executes_there() {
    // mov $1 16 ; jmp $1 ; mov $4 99 ; hlt   (hlt stands at offset 16)
    let mut code: Vec<u8> = vec![0x01, 0x01, 0x00];
    code.extend(i32_to_bytes(16).to_vec());
    code.extend(vec![0x02, 0x01]);
    code.extend(vec![0x01, 0x04, 0x00]);
    code.extend(i32_to_bytes(99).to_vec());
    code.push(0x00);
    let mut vm = VM::new(code);
    assert_eq!(vm.run(100), Ok(true));
    assert_eq!(vm.test_register(4).unwrap(), 0);
}

#[test]
fn arithmetic_wraps_and_divides() {
    // mov $0 2147483647 ; mov $1 1 ; add $0 $1 $2 ; hlt
    let mut code: Vec<u8> = vec![0x01, 0x00, 0x00];
    code.extend(i32_to_bytes(i32::MAX).to_vec());
    code.extend(vec![0x01, 0x01, 0x00]);
    code.extend(i32_to_bytes(1).to_vec());
    code.extend(vec![0x22, 0x00, 0x01, 0x02]);
    code.push(0x00);
    let mut vm = VM::new(code);
    assert_eq!(vm.run(100), Ok(true));
    assert_eq!(vm.test_register(2).unwrap(), i32::MIN);

    // mov $0 7 ; mov $1 2 ; div $0 $1 $2 ; hlt   — remainder goes unseen,
    // the truncated quotient lands in $2
    let mut code: Vec<u8> = vec![0x01, 0x00, 0x00];
    code.extend(i32_to_bytes(7).to_vec());
    code.extend(vec![0x01, 0x01, 0x00]);
    code.extend(i32_to_bytes(2).to_vec());
    code.extend(vec![0x25, 0x00, 0x01, 0x02]);
    code.push(0x00);
    let mut vm = VM::new(code);
    assert_eq!(vm.run(100), Ok(true));
    assert_eq!(vm.test_register(2).unwrap(), 3);

    // division by zero
    let mut vm = VM::new(vec![0x25, 0x00, 0x00, 0x02]);
    assert_eq!(vm.run(100), Err(VMError::OpcodeErr));
}

#[test]
fn comparison_sets_flag_for_conditional_jumps() {
    // mov $2 19 ; cmp $0 $1 ; jeq $2 ; mov $4 99 ; hlt   (hlt at offset 19)
    let mut code: Vec<u8> = vec![0x01, 0x02, 0x00];
    code.extend(i32_to_bytes(19).to_vec());
    code.extend(vec![0x05, 0x00, 0x01]);
    code.extend(vec![0x0a, 0x02]);
    code.extend(vec![0x01, 0x04, 0x00]);
    code.extend(i32_to_bytes(99).to_vec());
    code.push(0x00);
    // registers 0 and 1 both hold zero, so the flag is set and jeq jumps
    let mut vm = VM::new(code.clone());
    assert_eq!(vm.run(100), Ok(true));
    assert_eq!(vm.test_register(4).unwrap(), 0);

    // with jne instead, the jump is not taken and $4 is written
    code[10] = 0x0b;
    let mut vm = VM::new(code);
    assert_eq!(vm.run(100), Ok(true));
    assert_eq!(vm.test_register(4).unwrap(), 99);
}

#[test]
fn dalc_shrinks_and_never_goes_negative() {
    // mov $1 10 ; aloc $1 ; mov $2 4 ; dalc $2 ; hlt
    let mut code: Vec<u8> = vec![0x01, 0x01, 0x00];
    code.extend(i32_to_bytes(10).to_vec());
    code.extend(vec![0x0c, 0x02, 0x01]);
    code.extend(vec![0x01, 0x02, 0x00]);
    code.extend(i32_to_bytes(4).to_vec());
    code.extend(vec![0x0d, 0x02, 0x02]);
    code.push(0x00);
    let mut vm = VM::new(code);
    assert_eq!(vm.run(100), Ok(true));
    assert_eq!(vm.heap(), 6);

    // shrinking past zero is refused
    let mut code: Vec<u8> = vec![0x0d, 0x00];
    code.extend(i32_to_bytes(1).to_vec());
    let mut vm = VM::new(code);
    assert_eq!(vm.run(100), Err(VMError::OpcodeErr));
}

#[test]
fn add_bytes_appends_and_run_once_steps() {
    let mut vm = VM::new(vec![]);
    let mut prog: Vec<u8> = vec![0x01, 0x03, 0x00];
    prog.extend(i32_to_bytes(7).to_vec());
    vm.add_bytes(prog);
    assert_eq!(vm.run_once(), Ok(false));
    assert_eq!(vm.test_register(3).unwrap(), 7);
    vm.add_bytes(vec![0x00]);
    assert_eq!(vm.run_once(), Ok(true));
}

#[test]
fn out_of_range_register_queries_fail() {
    let vm = VM::new(vec![]);
    assert_eq!(vm.test_register(32), Err(()));
    assert_eq!(vm.test_register(31), Ok(0));
}

#[test]
fn memory_tracks_heap_and_stack() {
    let mut m = VMMemory::new();
    assert_eq!(m.size(), 0);
    assert_eq!(m.allocate_heap(10), 10);
    assert_eq!(m.size(), 10);
    assert_eq!(m.allocate_stack(4), (0, 4));
    assert_eq!(m.size(), 14);
    assert_eq!(m.push_stack(4), (4, 8));
    assert_eq!(m.size(), 18);
}
