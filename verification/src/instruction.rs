//! The opcode table and instructions.
//!
//! This is the single authoritative table tying mnemonic strings, enum
//! variants and single-byte encodings together, with each opcode's operand
//! signature and the wire codec for whole instructions.

use vstd::prelude::*;

verus! {

use crate::codec::i32_of_u32;
use crate::codec::u32_of_i32;
use crate::parser::Operand;
use vstd::bytes::spec_u32_from_le_bytes;
use vstd::bytes::spec_u32_to_le_bytes;

/// A VM instruction's operation, one byte on the wire.
#[non_exhaustive]
#[derive(Debug, Clone, Copy, PartialEq, Eq, Structural)]
pub enum Opcode {
    //* Standard opcodes
    Hlt,  // Halt execution
    Mov,  // Load register
    Jmp,  // Jump to a location in program
    Jmpf, // Jump forward by x bytes
    Jmpb, // Jump backward by x bytes
    //* Comparison and conditional jumps
    Cmp,  // Compare and set flag if equal
    Lt,   // Compare and set flag if lhs < rhs
    Gt,   // Compare and set flag if lhs > rhs
    Le,   // Compare and set flag if lhs <= rhs
    Ge,   // Compare and set flag if lhs >= rhs
    Jeq,  // Jump if flag is set
    Jne,  // Jump if flag is not set
    //* Memory management
    Aloc, // Allocate some memory on the heap
    Dalc, // Deallocate the memory on the heap
    //* Function operations (reserved)
    Push,
    Pop,
    Call,
    Ret,
    //* I/O operations (reserved)
    Prt,
    Open,
    Clse,
    Read,
    Wrt,
    //* Numerical and bitwise operations
    Inc,
    Dec,
    Add,
    Sub,
    Mul,
    Div,
    And,
    Not,
    Or,
    Xor,
    Bsl,
    Bsr,
    //* Illegal
    Igl,
}

/// The opcode a program byte decodes to; unmapped bytes give `Igl`.
pub open spec fn opcode_of_byte(b: u8) -> Opcode {
    if b == 0x00 {
        Opcode::Hlt
    } else if b == 0x01 {
        Opcode::Mov
    } else if b == 0x02 {
        Opcode::Jmp
    } else if b == 0x03 {
        Opcode::Jmpf
    } else if b == 0x04 {
        Opcode::Jmpb
    } else if b == 0x05 {
        Opcode::Cmp
    } else if b == 0x06 {
        Opcode::Lt
    } else if b == 0x07 {
        Opcode::Gt
    } else if b == 0x08 {
        Opcode::Le
    } else if b == 0x09 {
        Opcode::Ge
    } else if b == 0x0a {
        Opcode::Jeq
    } else if b == 0x0b {
        Opcode::Jne
    } else if b == 0x0c {
        Opcode::Aloc
    } else if b == 0x0d {
        Opcode::Dalc
    } else if b == 0x0e {
        Opcode::Push
    } else if b == 0x0f {
        Opcode::Pop
    } else if b == 0x10 {
        Opcode::Call
    } else if b == 0x11 {
        Opcode::Ret
    } else if b == 0x12 {
        Opcode::Prt
    } else if b == 0x13 {
        Opcode::Open
    } else if b == 0x14 {
        Opcode::Clse
    } else if b == 0x15 {
        Opcode::Read
    } else if b == 0x16 {
        Opcode::Wrt
    } else if b == 0x20 {
        Opcode::Inc
    } else if b == 0x21 {
        Opcode::Dec
    } else if b == 0x22 {
        Opcode::Add
    } else if b == 0x23 {
        Opcode::Sub
    } else if b == 0x24 {
        Opcode::Mul
    } else if b == 0x25 {
        Opcode::Div
    } else if b == 0x26 {
        Opcode::And
    } else if b == 0x27 {
        Opcode::Not
    } else if b == 0x28 {
        Opcode::Or
    } else if b == 0x29 {
        Opcode::Xor
    } else if b == 0x2a {
        Opcode::Bsl
    } else if b == 0x2b {
        Opcode::Bsr
    } else {
        Opcode::Igl
    }
}

/// The canonical encoding of an opcode; `Igl` has no mnemonic and no
/// reserved byte, it stands for every unmapped byte.
pub open spec fn byte_of_opcode(op: Opcode) -> u8 {
    match op {
        Opcode::Hlt => 0x00,
        Opcode::Mov => 0x01,
        Opcode::Jmp => 0x02,
        Opcode::Jmpf => 0x03,
        Opcode::Jmpb => 0x04,
        Opcode::Cmp => 0x05,
        Opcode::Lt => 0x06,
        Opcode::Gt => 0x07,
        Opcode::Le => 0x08,
        Opcode::Ge => 0x09,
        Opcode::Jeq => 0x0a,
        Opcode::Jne => 0x0b,
        Opcode::Aloc => 0x0c,
        Opcode::Dalc => 0x0d,
        Opcode::Push => 0x0e,
        Opcode::Pop => 0x0f,
        Opcode::Call => 0x10,
        Opcode::Ret => 0x11,
        Opcode::Prt => 0x12,
        Opcode::Open => 0x13,
        Opcode::Clse => 0x14,
        Opcode::Read => 0x15,
        Opcode::Wrt => 0x16,
        Opcode::Inc => 0x20,
        Opcode::Dec => 0x21,
        Opcode::Add => 0x22,
        Opcode::Sub => 0x23,
        Opcode::Mul => 0x24,
        Opcode::Div => 0x25,
        Opcode::And => 0x26,
        Opcode::Not => 0x27,
        Opcode::Or => 0x28,
        Opcode::Xor => 0x29,
        Opcode::Bsl => 0x2a,
        Opcode::Bsr => 0x2b,
        Opcode::Igl => 0xff,
    }
}

/// Decoding is a left inverse of encoding on every real opcode.
pub proof fn lemma_opcode_byte_roundtrip(op: Opcode)
    requires
        op != Opcode::Igl,
    ensures
        opcode_of_byte(byte_of_opcode(op)) == op,
{
}

/// The mnemonic of an opcode; `Igl` has none.
pub open spec fn mnemonic(op: Opcode) -> Seq<char> {
    match op {
        Opcode::Hlt => "hlt"@,
        Opcode::Mov => "mov"@,
        Opcode::Jmp => "jmp"@,
        Opcode::Jmpf => "jmpf"@,
        Opcode::Jmpb => "jmpb"@,
        Opcode::Cmp => "cmp"@,
        Opcode::Lt => "lt"@,
        Opcode::Gt => "gt"@,
        Opcode::Le => "le"@,
        Opcode::Ge => "ge"@,
        Opcode::Jeq => "jeq"@,
        Opcode::Jne => "jne"@,
        Opcode::Aloc => "aloc"@,
        Opcode::Dalc => "dalc"@,
        Opcode::Push => "push"@,
        Opcode::Pop => "pop"@,
        Opcode::Call => "call"@,
        Opcode::Ret => "ret"@,
        Opcode::Prt => "prt"@,
        Opcode::Open => "open"@,
        Opcode::Clse => "clse"@,
        Opcode::Read => "read"@,
        Opcode::Wrt => "wrt"@,
        Opcode::Inc => "inc"@,
        Opcode::Dec => "dec"@,
        Opcode::Add => "add"@,
        Opcode::Sub => "sub"@,
        Opcode::Mul => "mul"@,
        Opcode::Div => "div"@,
        Opcode::And => "and"@,
        Opcode::Not => "not"@,
        Opcode::Or => "or"@,
        Opcode::Xor => "xor"@,
        Opcode::Bsl => "bsl"@,
        Opcode::Bsr => "bsr"@,
        Opcode::Igl => Seq::<char>::empty(),
    }
}

/// The opcode a bare word names, if any.
pub open spec fn spec_opcode_of_word(w: Seq<char>) -> Option<Opcode> {
    if w == "hlt"@ {
        Some(Opcode::Hlt)
    } else if w == "mov"@ {
        Some(Opcode::Mov)
    } else if w == "jmp"@ {
        Some(Opcode::Jmp)
    } else if w == "jmpf"@ {
        Some(Opcode::Jmpf)
    } else if w == "jmpb"@ {
        Some(Opcode::Jmpb)
    } else if w == "cmp"@ {
        Some(Opcode::Cmp)
    } else if w == "lt"@ {
        Some(Opcode::Lt)
    } else if w == "gt"@ {
        Some(Opcode::Gt)
    } else if w == "le"@ {
        Some(Opcode::Le)
    } else if w == "ge"@ {
        Some(Opcode::Ge)
    } else if w == "jeq"@ {
        Some(Opcode::Jeq)
    } else if w == "jne"@ {
        Some(Opcode::Jne)
    } else if w == "aloc"@ {
        Some(Opcode::Aloc)
    } else if w == "dalc"@ {
        Some(Opcode::Dalc)
    } else if w == "push"@ {
        Some(Opcode::Push)
    } else if w == "pop"@ {
        Some(Opcode::Pop)
    } else if w == "call"@ {
        Some(Opcode::Call)
    } else if w == "ret"@ {
        Some(Opcode::Ret)
    } else if w == "prt"@ {
        Some(Opcode::Prt)
    } else if w == "open"@ {
        Some(Opcode::Open)
    } else if w == "clse"@ {
        Some(Opcode::Clse)
    } else if w == "read"@ {
        Some(Opcode::Read)
    } else if w == "wrt"@ {
        Some(Opcode::Wrt)
    } else if w == "inc"@ {
        Some(Opcode::Inc)
    } else if w == "dec"@ {
        Some(Opcode::Dec)
    } else if w == "add"@ {
        Some(Opcode::Add)
    } else if w == "sub"@ {
        Some(Opcode::Sub)
    } else if w == "mul"@ {
        Some(Opcode::Mul)
    } else if w == "div"@ {
        Some(Opcode::Div)
    } else if w == "and"@ {
        Some(Opcode::And)
    } else if w == "not"@ {
        Some(Opcode::Not)
    } else if w == "or"@ {
        Some(Opcode::Or)
    } else if w == "xor"@ {
        Some(Opcode::Xor)
    } else if w == "bsl"@ {
        Some(Opcode::Bsl)
    } else if w == "bsr"@ {
        Some(Opcode::Bsr)
    } else {
        None
    }
}

/// A word that names an opcode reads back as that opcode's mnemonic.
pub proof fn lemma_opcode_word_mnemonic(w: Seq<char>)
    ensures
        spec_opcode_of_word(w) matches Some(op) ==> mnemonic(op) == w && op != Opcode::Igl,
{
}

impl Opcode {
    /// Decodes one program byte.
    pub fn from(from: u8) -> (r: Self)
        ensures
            r == opcode_of_byte(from),
    {
        match from {
            0x00 => Opcode::Hlt,
            0x01 => Opcode::Mov,
            0x02 => Opcode::Jmp,
            0x03 => Opcode::Jmpf,
            0x04 => Opcode::Jmpb,
            0x05 => Opcode::Cmp,
            0x06 => Opcode::Lt,
            0x07 => Opcode::Gt,
            0x08 => Opcode::Le,
            0x09 => Opcode::Ge,
            0x0a => Opcode::Jeq,
            0x0b => Opcode::Jne,
            0x0c => Opcode::Aloc,
            0x0d => Opcode::Dalc,
            0x0e => Opcode::Push,
            0x0f => Opcode::Pop,
            0x10 => Opcode::Call,
            0x11 => Opcode::Ret,
            0x12 => Opcode::Prt,
            0x13 => Opcode::Open,
            0x14 => Opcode::Clse,
            0x15 => Opcode::Read,
            0x16 => Opcode::Wrt,
            0x20 => Opcode::Inc,
            0x21 => Opcode::Dec,
            0x22 => Opcode::Add,
            0x23 => Opcode::Sub,
            0x24 => Opcode::Mul,
            0x25 => Opcode::Div,
            0x26 => Opcode::And,
            0x27 => Opcode::Not,
            0x28 => Opcode::Or,
            0x29 => Opcode::Xor,
            0x2a => Opcode::Bsl,
            0x2b => Opcode::Bsr,
            _ => Opcode::Igl,
        }
    }

    /// Encodes the opcode as its canonical byte.
    pub fn to_byte(self) -> (r: u8)
        ensures
            r == byte_of_opcode(self),
    {
        match self {
            Opcode::Hlt => 0x00,
            Opcode::Mov => 0x01,
            Opcode::Jmp => 0x02,
            Opcode::Jmpf => 0x03,
            Opcode::Jmpb => 0x04,
            Opcode::Cmp => 0x05,
            Opcode::Lt => 0x06,
            Opcode::Gt => 0x07,
            Opcode::Le => 0x08,
            Opcode::Ge => 0x09,
            Opcode::Jeq => 0x0a,
            Opcode::Jne => 0x0b,
            Opcode::Aloc => 0x0c,
            Opcode::Dalc => 0x0d,
            Opcode::Push => 0x0e,
            Opcode::Pop => 0x0f,
            Opcode::Call => 0x10,
            Opcode::Ret => 0x11,
            Opcode::Prt => 0x12,
            Opcode::Open => 0x13,
            Opcode::Clse => 0x14,
            Opcode::Read => 0x15,
            Opcode::Wrt => 0x16,
            Opcode::Inc => 0x20,
            Opcode::Dec => 0x21,
            Opcode::Add => 0x22,
            Opcode::Sub => 0x23,
            Opcode::Mul => 0x24,
            Opcode::Div => 0x25,
            Opcode::And => 0x26,
            Opcode::Not => 0x27,
            Opcode::Or => 0x28,
            Opcode::Xor => 0x29,
            Opcode::Bsl => 0x2a,
            Opcode::Bsr => 0x2b,
            Opcode::Igl => 0xff,
        }
    }
}

// ---------------------------------------------------------------------------
// Operand signatures.
// ---------------------------------------------------------------------------

pub open spec fn op_none(o: Option<Operand>) -> bool {
    o is None
}

pub open spec fn op_reg(o: Option<Operand>) -> bool {
    o matches Some(Operand::Register(_))
}

pub open spec fn op_num_or_reg(o: Option<Operand>) -> bool {
    o matches Some(Operand::NumLiteral(_)) || o matches Some(Operand::Register(_))
}

pub open spec fn op_reg_or_ptr(o: Option<Operand>) -> bool {
    o matches Some(Operand::Register(_)) || o matches Some(Operand::Pointer(_))
}

pub open spec fn op_num_ptr_or_reg(o: Option<Operand>) -> bool {
    o matches Some(Operand::NumLiteral(_)) || o matches Some(Operand::Pointer(_))
        || o matches Some(Operand::Register(_))
}

pub open spec fn op_any(o: Option<Operand>) -> bool {
    o is Some
}

/// The number of operands each opcode takes; reserved opcodes take none
/// until their conventions are defined.
pub open spec fn arity(op: Opcode) -> int {
    match op {
        Opcode::Hlt => 0,
        Opcode::Mov => 2,
        Opcode::Jmp => 1,
        Opcode::Jmpf => 1,
        Opcode::Jmpb => 1,
        Opcode::Cmp => 2,
        Opcode::Lt => 2,
        Opcode::Gt => 2,
        Opcode::Le => 2,
        Opcode::Ge => 2,
        Opcode::Jeq => 1,
        Opcode::Jne => 1,
        Opcode::Aloc => 1,
        Opcode::Dalc => 1,
        Opcode::Add => 3,
        Opcode::Sub => 3,
        Opcode::Mul => 3,
        Opcode::Div => 3,
        _ => 0,
    }
}

/// The signature table: which operand kinds each opcode admits.
pub open spec fn sig_ok(i: Instruction) -> bool {
    match i.inst {
        Opcode::Hlt => op_none(i.op1) && op_none(i.op2) && op_none(i.op3),
        Opcode::Mov => op_reg_or_ptr(i.op1) && op_num_ptr_or_reg(i.op2) && op_none(i.op3),
        Opcode::Jmp => op_any(i.op1) && op_none(i.op2) && op_none(i.op3),
        Opcode::Jmpf | Opcode::Jmpb => op_num_or_reg(i.op1) && op_none(i.op2) && op_none(
            i.op3,
        ),
        Opcode::Cmp | Opcode::Lt | Opcode::Gt | Opcode::Le | Opcode::Ge => op_num_or_reg(
            i.op1,
        ) && op_num_or_reg(i.op2) && op_none(i.op3),
        Opcode::Jeq | Opcode::Jne => op_reg(i.op1) && op_none(i.op2) && op_none(i.op3),
        Opcode::Add | Opcode::Sub | Opcode::Mul | Opcode::Div => op_reg(i.op1) && op_reg(
            i.op2,
        ) && op_reg(i.op3),
        Opcode::Aloc | Opcode::Dalc => op_num_or_reg(i.op1) && op_none(i.op2) && op_none(
            i.op3,
        ),
        Opcode::Igl => false,
        _ => op_none(i.op1) && op_none(i.op2) && op_none(i.op3),
    }
}

// ---------------------------------------------------------------------------
// Instructions and the wire codec.
// ---------------------------------------------------------------------------

/// An instruction after parsing: an opcode and up to three operands.
#[derive(Debug, Clone, PartialEq)]
pub struct Instruction {
    pub inst: Opcode,
    pub op1: Option<Operand>,
    pub op2: Option<Operand>,
    pub op3: Option<Operand>,
}

/// An instruction as the contracts speak of it.
pub ghost struct InstructionSpec {
    pub inst: Opcode,
    pub op1: Option<crate::parser::OperandSpec>,
    pub op2: Option<crate::parser::OperandSpec>,
    pub op3: Option<crate::parser::OperandSpec>,
}

pub open spec fn opt_operand_view(o: Option<Operand>) -> Option<crate::parser::OperandSpec> {
    match o {
        Some(op) => Some(op@),
        None => None,
    }
}

impl View for Instruction {
    type V = InstructionSpec;

    open spec fn view(&self) -> InstructionSpec {
        InstructionSpec {
            inst: self.inst,
            op1: opt_operand_view(self.op1),
            op2: opt_operand_view(self.op2),
            op3: opt_operand_view(self.op3),
        }
    }
}

/// The bytes of an instruction whose operands are concrete (registers and
/// number literals); `None` where the wire format has no encoding for it.
/// Pointer operands are resolved and emitted by the assembler instead.
pub open spec fn spec_encode(i: Instruction) -> Option<Seq<u8>> {
    let opb = byte_of_opcode(i.inst);
    match i.inst {
        Opcode::Mov => {
            match (i.op1, i.op2, i.op3) {
                (Some(Operand::Register(r)), Some(Operand::NumLiteral(n)), None) => Some(
                    seq![opb, r, 0u8] + spec_u32_to_le_bytes(u32_of_i32(n)),
                ),
                (Some(Operand::Register(r)), Some(Operand::Register(s)), None) => Some(
                    seq![opb, r, 2u8, s],
                ),
                _ => None,
            }
        },
        Opcode::Jmp | Opcode::Jmpf | Opcode::Jmpb | Opcode::Jeq | Opcode::Jne => {
            match (i.op1, i.op2, i.op3) {
                (Some(Operand::Register(r)), None, None) => Some(seq![opb, r]),
                _ => None,
            }
        },
        Opcode::Cmp | Opcode::Lt | Opcode::Gt | Opcode::Le | Opcode::Ge => {
            match (i.op1, i.op2, i.op3) {
                (Some(Operand::Register(a)), Some(Operand::Register(b)), None) => Some(
                    seq![opb, a, b],
                ),
                _ => None,
            }
        },
        Opcode::Add | Opcode::Sub | Opcode::Mul | Opcode::Div => {
            match (i.op1, i.op2, i.op3) {
                (
                    Some(Operand::Register(a)),
                    Some(Operand::Register(b)),
                    Some(Operand::Register(d)),
                ) => Some(seq![opb, a, b, d]),
                _ => None,
            }
        },
        Opcode::Aloc | Opcode::Dalc => {
            match (i.op1, i.op2, i.op3) {
                (Some(Operand::NumLiteral(n)), None, None) => Some(
                    seq![opb, 0u8] + spec_u32_to_le_bytes(u32_of_i32(n)),
                ),
                (Some(Operand::Register(r)), None, None) => Some(seq![opb, 2u8, r]),
                _ => None,
            }
        },
        Opcode::Igl => None,
        _ => {
            match (i.op1, i.op2, i.op3) {
                (None, None, None) => Some(seq![opb]),
                _ => None,
            }
        },
    }
}

/// The wire encoding as a function of an instruction's view: the same
/// arms as `spec_encode`.
pub open spec fn spec_encode_view(i: InstructionSpec) -> Option<Seq<u8>> {
    let opb = byte_of_opcode(i.inst);
    match i.inst {
        Opcode::Mov => {
            match (i.op1, i.op2, i.op3) {
                (
                    Some(crate::parser::OperandSpec::Register(r)),
                    Some(crate::parser::OperandSpec::NumLiteral(n)),
                    None,
                ) => Some(seq![opb, r, 0u8] + spec_u32_to_le_bytes(u32_of_i32(n))),
                (
                    Some(crate::parser::OperandSpec::Register(r)),
                    Some(crate::parser::OperandSpec::Register(s)),
                    None,
                ) => Some(seq![opb, r, 2u8, s]),
                _ => None,
            }
        },
        Opcode::Jmp | Opcode::Jmpf | Opcode::Jmpb | Opcode::Jeq | Opcode::Jne => {
            match (i.op1, i.op2, i.op3) {
                (Some(crate::parser::OperandSpec::Register(r)), None, None) => Some(
                    seq![opb, r],
                ),
                _ => None,
            }
        },
        Opcode::Cmp | Opcode::Lt | Opcode::Gt | Opcode::Le | Opcode::Ge => {
            match (i.op1, i.op2, i.op3) {
                (
                    Some(crate::parser::OperandSpec::Register(a)),
                    Some(crate::parser::OperandSpec::Register(b)),
                    None,
                ) => Some(seq![opb, a, b]),
                _ => None,
            }
        },
        Opcode::Add | Opcode::Sub | Opcode::Mul | Opcode::Div => {
            match (i.op1, i.op2, i.op3) {
                (
                    Some(crate::parser::OperandSpec::Register(a)),
                    Some(crate::parser::OperandSpec::Register(b)),
                    Some(crate::parser::OperandSpec::Register(d)),
                ) => Some(seq![opb, a, b, d]),
                _ => None,
            }
        },
        Opcode::Aloc | Opcode::Dalc => {
            match (i.op1, i.op2, i.op3) {
                (Some(crate::parser::OperandSpec::NumLiteral(n)), None, None) => Some(
                    seq![opb, 0u8] + spec_u32_to_le_bytes(u32_of_i32(n)),
                ),
                (Some(crate::parser::OperandSpec::Register(r)), None, None) => Some(
                    seq![opb, 2u8, r],
                ),
                _ => None,
            }
        },
        Opcode::Igl => None,
        _ => {
            match (i.op1, i.op2, i.op3) {
                (None, None, None) => Some(seq![opb]),
                _ => None,
            }
        },
    }
}

/// Encoding only looks at an instruction through its view.
pub proof fn lemma_encode_is_view(i: Instruction)
    ensures
        spec_encode_view(i@) == spec_encode(i),
{
}

/// Decodes one instruction at `pos`, giving the instruction and the
/// position just past it; `None` on a truncated stream, an unknown mode,
/// or an unmapped opcode byte. Mode 1 — the documented 4-byte pointer
/// form the assembler emits — reads its resolved offset back as the
/// literal value; the text it was resolved from is gone from the wire.
pub open spec fn spec_decode(p: Seq<u8>, pos: int) -> Option<(Instruction, int)> {
    if !(0 <= pos < p.len()) {
        None
    } else {
        let op = opcode_of_byte(p[pos]);
        match op {
            Opcode::Mov => {
                if p.len() - pos < 3 {
                    None
                } else {
                    let r = p[pos + 1];
                    let mode = p[pos + 2];
                    if mode == 0 || mode == 1 {
                        if p.len() - pos < 7 {
                            None
                        } else {
                            Some(
                                (
                                    Instruction {
                                        inst: op,
                                        op1: Some(Operand::Register(r)),
                                        op2: Some(
                                            Operand::NumLiteral(
                                                i32_of_u32(
                                                    spec_u32_from_le_bytes(
                                                        p.subrange(pos + 3, pos + 7),
                                                    ),
                                                ),
                                            ),
                                        ),
                                        op3: None,
                                    },
                                    pos + 7,
                                ),
                            )
                        }
                    } else if mode == 2 {
                        if p.len() - pos < 4 {
                            None
                        } else {
                            Some(
                                (
                                    Instruction {
                                        inst: op,
                                        op1: Some(Operand::Register(r)),
                                        op2: Some(Operand::Register(p[pos + 3])),
                                        op3: None,
                                    },
                                    pos + 4,
                                ),
                            )
                        }
                    } else {
                        None
                    }
                }
            },
            Opcode::Jmp | Opcode::Jmpf | Opcode::Jmpb | Opcode::Jeq | Opcode::Jne => {
                if p.len() - pos < 2 {
                    None
                } else {
                    Some(
                        (
                            Instruction {
                                inst: op,
                                op1: Some(Operand::Register(p[pos + 1])),
                                op2: None,
                                op3: None,
                            },
                            pos + 2,
                        ),
                    )
                }
            },
            Opcode::Cmp | Opcode::Lt | Opcode::Gt | Opcode::Le | Opcode::Ge => {
                if p.len() - pos < 3 {
                    None
                } else {
                    Some(
                        (
                            Instruction {
                                inst: op,
                                op1: Some(Operand::Register(p[pos + 1])),
                                op2: Some(Operand::Register(p[pos + 2])),
                                op3: None,
                            },
                            pos + 3,
                        ),
                    )
                }
            },
            Opcode::Add | Opcode::Sub | Opcode::Mul | Opcode::Div => {
                if p.len() - pos < 4 {
                    None
                } else {
                    Some(
                        (
                            Instruction {
                                inst: op,
                                op1: Some(Operand::Register(p[pos + 1])),
                                op2: Some(Operand::Register(p[pos + 2])),
                                op3: Some(Operand::Register(p[pos + 3])),
                            },
                            pos + 4,
                        ),
                    )
                }
            },
            Opcode::Aloc | Opcode::Dalc => {
                if p.len() - pos < 2 {
                    None
                } else {
                    let mode = p[pos + 1];
                    if mode == 0 || mode == 1 {
                        if p.len() - pos < 6 {
                            None
                        } else {
                            Some(
                                (
                                    Instruction {
                                        inst: op,
                                        op1: Some(
                                            Operand::NumLiteral(
                                                i32_of_u32(
                                                    spec_u32_from_le_bytes(
                                                        p.subrange(pos + 2, pos + 6),
                                                    ),
                                                ),
                                            ),
                                        ),
                                        op2: None,
                                        op3: None,
                                    },
                                    pos + 6,
                                ),
                            )
                        }
                    } else if mode == 2 {
                        if p.len() - pos < 3 {
                            None
                        } else {
                            Some(
                                (
                                    Instruction {
                                        inst: op,
                                        op1: Some(Operand::Register(p[pos + 2])),
                                        op2: None,
                                        op3: None,
                                    },
                                    pos + 3,
                                ),
                            )
                        }
                    } else {
                        None
                    }
                }
            },
            Opcode::Igl => None,
            _ => Some((Instruction { inst: op, op1: None, op2: None, op3: None }, pos + 1)),
        }
    }
}

impl Instruction {
    /// An instruction with no operands, decoded from one opcode byte.
    pub fn new(byte: u8) -> (r: Self)
        ensures
            r.inst == opcode_of_byte(byte),
            r.op1 is None,
            r.op2 is None,
            r.op3 is None,
    {
        Instruction { inst: Opcode::from(byte), op1: None, op2: None, op3: None }
    }

    /// Assembles an instruction from a parsed opcode and operand triple.
    pub fn from_parsed(opcode: Opcode, tokens: (Option<Operand>, Option<Operand>, Option<
        Operand,
    >)) -> (r: Self)
        ensures
            r.inst == opcode,
            r.op1 == tokens.0,
            r.op2 == tokens.1,
            r.op3 == tokens.2,
    {
        Self { inst: opcode, op1: tokens.0, op2: tokens.1, op3: tokens.2 }
    }

    /// A fresh instruction equal to this one.
    pub fn duplicate(&self) -> (r: Self)
        ensures
            r == *self,
    {
        Instruction {
            inst: self.inst,
            op1: match &self.op1 {
                Some(o) => Some(o.duplicate()),
                None => None,
            },
            op2: match &self.op2 {
                Some(o) => Some(o.duplicate()),
                None => None,
            },
            op3: match &self.op3 {
                Some(o) => Some(o.duplicate()),
                None => None,
            },
        }
    }

    /// Encodes the instruction, when the wire format has an encoding for
    /// its operand shape.
    pub fn to_bytes(self) -> (r: Option<Vec<u8>>)
        ensures
            match r {
                Some(v) => spec_encode(self) == Some(v@),
                None => spec_encode(self) is None,
            },
    {
        let opb = self.inst.to_byte();
        match self.inst {
            Opcode::Mov => {
                match (self.op1, self.op2, self.op3) {
                    (Some(Operand::Register(r)), Some(Operand::NumLiteral(n)), None) => {
                        let mut v: Vec<u8> = Vec::new();
                        v.push(opb);
                        v.push(r);
                        v.push(0u8);
                        let mut tail = crate::codec::le_write_i32(n);
                        v.append(&mut tail);
                        assert(v@ =~= seq![opb, r, 0u8] + spec_u32_to_le_bytes(
                            u32_of_i32(n),
                        ));
                        Some(v)
                    },
                    (Some(Operand::Register(r)), Some(Operand::Register(s)), None) => {
                        let mut v: Vec<u8> = Vec::new();
                        v.push(opb);
                        v.push(r);
                        v.push(2u8);
                        v.push(s);
                        assert(v@ =~= seq![opb, r, 2u8, s]);
                        Some(v)
                    },
                    _ => None,
                }
            },
            Opcode::Jmp | Opcode::Jmpf | Opcode::Jmpb | Opcode::Jeq | Opcode::Jne => {
                match (self.op1, self.op2, self.op3) {
                    (Some(Operand::Register(r)), None, None) => {
                        let mut v: Vec<u8> = Vec::new();
                        v.push(opb);
                        v.push(r);
                        assert(v@ =~= seq![opb, r]);
                        Some(v)
                    },
                    _ => None,
                }
            },
            Opcode::Cmp | Opcode::Lt | Opcode::Gt | Opcode::Le | Opcode::Ge => {
                match (self.op1, self.op2, self.op3) {
                    (Some(Operand::Register(a)), Some(Operand::Register(b)), None) => {
                        let mut v: Vec<u8> = Vec::new();
                        v.push(opb);
                        v.push(a);
                        v.push(b);
                        assert(v@ =~= seq![opb, a, b]);
                        Some(v)
                    },
                    _ => None,
                }
            },
            Opcode::Add | Opcode::Sub | Opcode::Mul | Opcode::Div => {
                match (self.op1, self.op2, self.op3) {
                    (
                        Some(Operand::Register(a)),
                        Some(Operand::Register(b)),
                        Some(Operand::Register(d)),
                    ) => {
                        let mut v: Vec<u8> = Vec::new();
                        v.push(opb);
                        v.push(a);
                        v.push(b);
                        v.push(d);
                        assert(v@ =~= seq![opb, a, b, d]);
                        Some(v)
                    },
                    _ => None,
                }
            },
            Opcode::Aloc | Opcode::Dalc => {
                match (self.op1, self.op2, self.op3) {
                    (Some(Operand::NumLiteral(n)), None, None) => {
                        let mut v: Vec<u8> = Vec::new();
                        v.push(opb);
                        v.push(0u8);
                        let mut tail = crate::codec::le_write_i32(n);
                        v.append(&mut tail);
                        assert(v@ =~= seq![opb, 0u8] + spec_u32_to_le_bytes(u32_of_i32(n)));
                        Some(v)
                    },
                    (Some(Operand::Register(r)), None, None) => {
                        let mut v: Vec<u8> = Vec::new();
                        v.push(opb);
                        v.push(2u8);
                        v.push(r);
                        assert(v@ =~= seq![opb, 2u8, r]);
                        Some(v)
                    },
                    _ => None,
                }
            },
            Opcode::Igl => None,
            _ => {
                match (self.op1, self.op2, self.op3) {
                    (None, None, None) => {
                        let mut v: Vec<u8> = Vec::new();
                        v.push(opb);
                        assert(v@ =~= seq![opb]);
                        Some(v)
                    },
                    _ => None,
                }
            },
        }
    }

    /// Decodes one instruction of a program at the given position.
    pub fn from_bytes(p: &Vec<u8>, pos: usize) -> (r: Option<(Instruction, usize)>)
        ensures
            match r {
                Some((i, next)) => spec_decode(p@, pos as int) == Some((i, next as int)),
                None => spec_decode(p@, pos as int) is None,
            },
    {
        if pos >= p.len() {
            return None;
        }
        let op = Opcode::from(p[pos]);
        match op {
            Opcode::Mov => {
                if p.len() - pos < 3 {
                    return None;
                }
                let r = p[pos + 1];
                let mode = p[pos + 2];
                if mode == 0 || mode == 1 {
                    if p.len() - pos < 7 {
                        return None;
                    }
                    let n = read_i32_at(p, pos + 3);
                    Some(
                        (
                            Instruction {
                                inst: op,
                                op1: Some(Operand::Register(r)),
                                op2: Some(Operand::NumLiteral(n)),
                                op3: None,
                            },
                            pos + 7,
                        ),
                    )
                } else if mode == 2 {
                    if p.len() - pos < 4 {
                        return None;
                    }
                    Some(
                        (
                            Instruction {
                                inst: op,
                                op1: Some(Operand::Register(r)),
                                op2: Some(Operand::Register(p[pos + 3])),
                                op3: None,
                            },
                            pos + 4,
                        ),
                    )
                } else {
                    None
                }
            },
            Opcode::Jmp | Opcode::Jmpf | Opcode::Jmpb | Opcode::Jeq | Opcode::Jne => {
                if p.len() - pos < 2 {
                    return None;
                }
                Some(
                    (
                        Instruction {
                            inst: op,
                            op1: Some(Operand::Register(p[pos + 1])),
                            op2: None,
                            op3: None,
                        },
                        pos + 2,
                    ),
                )
            },
            Opcode::Cmp | Opcode::Lt | Opcode::Gt | Opcode::Le | Opcode::Ge => {
                if p.len() - pos < 3 {
                    return None;
                }
                Some(
                    (
                        Instruction {
                            inst: op,
                            op1: Some(Operand::Register(p[pos + 1])),
                            op2: Some(Operand::Register(p[pos + 2])),
                            op3: None,
                        },
                        pos + 3,
                    ),
                )
            },
            Opcode::Add | Opcode::Sub | Opcode::Mul | Opcode::Div => {
                if p.len() - pos < 4 {
                    return None;
                }
                Some(
                    (
                        Instruction {
                            inst: op,
                            op1: Some(Operand::Register(p[pos + 1])),
                            op2: Some(Operand::Register(p[pos + 2])),
                            op3: Some(Operand::Register(p[pos + 3])),
                        },
                        pos + 4,
                    ),
                )
            },
            Opcode::Aloc | Opcode::Dalc => {
                if p.len() - pos < 2 {
                    return None;
                }
                let mode = p[pos + 1];
                if mode == 0 || mode == 1 {
                    if p.len() - pos < 6 {
                        return None;
                    }
                    let n = read_i32_at(p, pos + 2);
                    Some(
                        (
                            Instruction {
                                inst: op,
                                op1: Some(Operand::NumLiteral(n)),
                                op2: None,
                                op3: None,
                            },
                            pos + 6,
                        ),
                    )
                } else if mode == 2 {
                    if p.len() - pos < 3 {
                        return None;
                    }
                    Some(
                        (
                            Instruction {
                                inst: op,
                                op1: Some(Operand::Register(p[pos + 2])),
                                op2: None,
                                op3: None,
                            },
                            pos + 3,
                        ),
                    )
                } else {
                    None
                }
            },
            Opcode::Igl => None,
            _ => Some((Instruction { inst: op, op1: None, op2: None, op3: None }, pos + 1)),
        }
    }
}

/// Law: encoding an instruction and then decoding at its first byte gives
/// the instruction back, whatever bytes stand before or after — the round
/// trip of opcode and operand values. Pointer and label operands are
/// resolved by the assembler before any byte is emitted, so they do not
/// appear here.
pub proof fn lemma_encode_decode_at(i: Instruction, prefix: Seq<u8>, rest: Seq<u8>)
    requires
        spec_encode(i) is Some,
    ensures
        spec_decode(prefix + spec_encode(i).unwrap() + rest, prefix.len() as int) == Some(
            (i, prefix.len() + spec_encode(i).unwrap().len() as int),
        ),
{
    let enc = spec_encode(i).unwrap();
    let p = prefix + enc + rest;
    let base = prefix.len() as int;
    assert(forall|k: int| 0 <= k < enc.len() ==> #[trigger] p[base + k] == enc[k]);
    vstd::bytes::lemma_auto_spec_u32_to_from_le_bytes();
    assert(i.inst != Opcode::Igl);
    lemma_opcode_byte_roundtrip(i.inst);
    let opb = byte_of_opcode(i.inst);
    match i.inst {
        Opcode::Mov => {
            match (i.op1, i.op2, i.op3) {
                (Some(Operand::Register(r)), Some(Operand::NumLiteral(n)), None) => {
                    let tail = spec_u32_to_le_bytes(u32_of_i32(n));
                    assert(enc == seq![opb, r, 0u8] + tail);
                    assert(enc.len() == 7);
                    assert(p[base] == opb && p[base + 1] == r && p[base + 2] == 0u8);
                    assert(p.subrange(base + 3, base + 7) =~= tail);
                    crate::codec::lemma_i32_u32_roundtrip(n);
                },
                (Some(Operand::Register(r)), Some(Operand::Register(s)), None) => {
                    assert(enc == seq![opb, r, 2u8, s]);
                    assert(p[base] == opb && p[base + 1] == r && p[base + 2] == 2u8 && p[
                        base + 3
                    ] == s);
                },
                _ => {},
            }
        },
        Opcode::Jmp | Opcode::Jmpf | Opcode::Jmpb | Opcode::Jeq | Opcode::Jne => {
            match (i.op1, i.op2, i.op3) {
                (Some(Operand::Register(r)), None, None) => {
                    assert(enc == seq![opb, r]);
                    assert(p[base] == opb && p[base + 1] == r);
                },
                _ => {},
            }
        },
        Opcode::Cmp | Opcode::Lt | Opcode::Gt | Opcode::Le | Opcode::Ge => {
            match (i.op1, i.op2, i.op3) {
                (Some(Operand::Register(a)), Some(Operand::Register(b)), None) => {
                    assert(enc == seq![opb, a, b]);
                    assert(p[base] == opb && p[base + 1] == a && p[base + 2] == b);
                },
                _ => {},
            }
        },
        Opcode::Add | Opcode::Sub | Opcode::Mul | Opcode::Div => {
            match (i.op1, i.op2, i.op3) {
                (
                    Some(Operand::Register(a)),
                    Some(Operand::Register(b)),
                    Some(Operand::Register(d)),
                ) => {
                    assert(enc == seq![opb, a, b, d]);
                    assert(p[base] == opb && p[base + 1] == a && p[base + 2] == b && p[
                        base + 3
                    ] == d);
                },
                _ => {},
            }
        },
        Opcode::Aloc | Opcode::Dalc => {
            match (i.op1, i.op2, i.op3) {
                (Some(Operand::NumLiteral(n)), None, None) => {
                    let tail = spec_u32_to_le_bytes(u32_of_i32(n));
                    assert(enc == seq![opb, 0u8] + tail);
                    assert(enc.len() == 6);
                    assert(p[base] == opb && p[base + 1] == 0u8);
                    assert(p.subrange(base + 2, base + 6) =~= tail);
                    crate::codec::lemma_i32_u32_roundtrip(n);
                },
                (Some(Operand::Register(r)), None, None) => {
                    assert(enc == seq![opb, 2u8, r]);
                    assert(p[base] == opb && p[base + 1] == 2u8 && p[base + 2] == r);
                },
                _ => {},
            }
        },
        Opcode::Igl => {},
        _ => {
            assert(enc == seq![opb]);
            assert(p[base] == opb);
        },
    }
}

/// The round trip at the start of a byte stream.
pub proof fn lemma_encode_decode_roundtrip(i: Instruction, rest: Seq<u8>)
    requires
        spec_encode(i) is Some,
    ensures
        spec_decode(spec_encode(i).unwrap() + rest, 0) == Some(
            (i, spec_encode(i).unwrap().len() as int),
        ),
{
    lemma_encode_decode_at(i, Seq::<u8>::empty(), rest);
    assert(Seq::<u8>::empty() + spec_encode(i).unwrap() + rest =~= spec_encode(
        i,
    ).unwrap() + rest);
}

/// The bytes of a whole instruction stream, when every instruction has a
/// wire encoding.
pub open spec fn spec_encode_stream(instrs: Seq<Instruction>) -> Option<Seq<u8>>
    decreases instrs.len(),
{
    if instrs.len() == 0 {
        Some(Seq::<u8>::empty())
    } else {
        match (spec_encode(instrs[0]), spec_encode_stream(instrs.drop_first())) {
            (Some(b), Some(rest)) => Some(b + rest),
            _ => None,
        }
    }
}

/// The instructions decoded one after another from `pos` to the end.
pub open spec fn spec_decode_stream(p: Seq<u8>, pos: int) -> Option<Seq<Instruction>>
    decreases p.len() - pos,
{
    if pos == p.len() {
        Some(Seq::<Instruction>::empty())
    } else {
        match spec_decode(p, pos) {
            None => None,
            Some((i, next)) => {
                if pos < next <= p.len() {
                    match spec_decode_stream(p, next) {
                        None => None,
                        Some(rest) => Some(seq![i] + rest),
                    }
                } else {
                    None
                }
            },
        }
    }
}

/// The stream round trip, at any position inside a longer byte stream.
pub proof fn lemma_stream_roundtrip_at(instrs: Seq<Instruction>, prefix: Seq<u8>)
    requires
        spec_encode_stream(instrs) is Some,
    ensures
        (match spec_encode_stream(instrs) {
            Some(b) => spec_decode_stream(prefix + b, prefix.len() as int) == Some(instrs),
            None => true,
        }),
    decreases instrs.len(),
{
    let b = spec_encode_stream(instrs).unwrap();
    if instrs.len() == 0 {
        assert(prefix + b =~= prefix);
    } else {
        let e0 = spec_encode(instrs[0]).unwrap();
        let brest = spec_encode_stream(instrs.drop_first()).unwrap();
        assert(b == e0 + brest);
        assert(prefix + b =~= (prefix + e0) + brest);
        assert(prefix + b =~= prefix + e0 + brest);
        lemma_encode_decode_at(instrs[0], prefix, brest);
        lemma_stream_roundtrip_at(instrs.drop_first(), prefix + e0);
        assert(spec_decode_stream((prefix + e0) + brest, (prefix + e0).len() as int)
            == Some(instrs.drop_first()));
        assert(e0.len() > 0) by {
            lemma_encode_len_pos(instrs[0]);
        }
        assert(seq![instrs[0]] + instrs.drop_first() =~= instrs);
    }
}

/// Every encoded instruction takes at least one byte.
pub proof fn lemma_encode_len_pos(i: Instruction)
    requires
        spec_encode(i) is Some,
    ensures
        spec_encode(i).unwrap().len() >= 1,
{
    vstd::bytes::lemma_auto_spec_u32_to_from_le_bytes();
}

/// Law: assembling an instruction stream and then decoding the bytes
/// gives the instruction stream back — the round trip of opcodes and
/// operand values over a whole program. Label references are resolved to
/// concrete offsets before encoding, so the stream read back is the
/// parsed stream modulo those offsets.
pub proof fn lemma_stream_roundtrip(instrs: Seq<Instruction>)
    requires
        spec_encode_stream(instrs) is Some,
    ensures
        (match spec_encode_stream(instrs) {
            Some(b) => spec_decode_stream(b, 0) == Some(instrs),
            None => true,
        }),
{
    lemma_stream_roundtrip_at(instrs, Seq::<u8>::empty());
    match spec_encode_stream(instrs) {
        Some(b) => {
            assert(Seq::<u8>::empty() + b =~= b);
        },
        None => {},
    }
}

/// Reads the four little-endian bytes at `at` as an i32.
pub fn read_i32_at(p: &Vec<u8>, at: usize) -> (r: i32)
    requires
        at + 4 <= p@.len(),
    ensures
        r == i32_of_u32(spec_u32_from_le_bytes(p@.subrange(at as int, at + 4))),
{
    let n = p.len();
    assert(at + 4 <= n);
    let mut buf: Vec<u8> = Vec::new();
    buf.push(p[at]);
    buf.push(p[at + 1]);
    buf.push(p[at + 2]);
    buf.push(p[at + 3]);
    assert(buf@ =~= p@.subrange(at as int, at + 4));
    let r = crate::codec::le_read_i32(buf.as_slice());
    assert(buf@.subrange(0, 4) =~= buf@);
    r
}

} // verus!
