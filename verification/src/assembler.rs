//! The two-phase assembler.
//!
//! Phase A walks the parsed items, assigns every label its final byte
//! offset and builds the symbol table; phase B walks them again and emits
//! bytecode, resolving pointer text against the table. Two-phase lowering
//! means a forward reference needs no fix-up list: every label has its
//! address before any operand referencing it is emitted.

use vstd::prelude::*;

verus! {

use crate::codec::spec_parse_u32;
use crate::codec::u32_of_i32;
use crate::instruction::Instruction;
use crate::instruction::Opcode;
use crate::instruction::byte_of_opcode;
use crate::instruction::spec_encode;
use crate::lexer::Directive;
use crate::lexer::is_space;
use crate::parser::Operand;
use crate::parser::Parsed;
use vstd::bytes::spec_u32_to_le_bytes;
use vstd::utf8::encode_utf8;

/// Which section a label was declared in.
#[derive(Debug, Clone, Copy, PartialEq, Eq, Structural)]
pub enum Label {
    Code,
    Data,
}

/// Everything that can go wrong while lowering parsed items to bytes.
#[derive(Debug, Clone, PartialEq)]
pub enum AsmErr {
    UndefinedLabel(String),
    RedefinedLabel(String),
    UnresolvedPointer(String),
    UnencodableOperand(Operand),
}

/// A lowered item as the assembler files it; the tag set is fixed even
/// though lowering currently keeps the richer `Parsed` items instead.
#[derive(Debug, Clone)]
pub enum AsmInst {
    Instruction(Instruction),
    Directive,
    Label,
}

/// A symbol-table entry as the contracts speak of it.
pub ghost struct SymbolSpec {
    pub name: Seq<char>,
    pub kind: Label,
    pub offset: int,
    pub data: Seq<u8>,
    pub global: bool,
}

/// A symbol-table entry: a label's name, section kind, resolved byte
/// offset, optional payload bytes, and whether `.global` marked it.
#[derive(Debug, Clone)]
pub struct Symbol {
    name: String,
    kind: Label,
    offset: usize,
    data: Vec<u8>,
    global: bool,
}

impl View for Symbol {
    type V = SymbolSpec;

    closed spec fn view(&self) -> SymbolSpec {
        SymbolSpec {
            name: self.name@,
            kind: self.kind,
            offset: self.offset as int,
            data: self.data@,
            global: self.global,
        }
    }
}

pub open spec fn syms_view(v: Seq<Symbol>) -> Seq<SymbolSpec> {
    v.map_values(|s: Symbol| s@)
}

// ---------------------------------------------------------------------------
// Sizes: what each item contributes to the byte stream.
// ---------------------------------------------------------------------------

/// The encoded size of an instruction, pointer operands included; an
/// unencodable shape counts zero (emission reports it).
pub open spec fn emit_len(i: Instruction) -> int {
    match i.inst {
        Opcode::Mov => match (i.op1, i.op2, i.op3) {
            (Some(Operand::Register(_)), Some(Operand::NumLiteral(_)), None) => 7,
            (Some(Operand::Register(_)), Some(Operand::Register(_)), None) => 4,
            (Some(Operand::Register(_)), Some(Operand::Pointer(_)), None) => 7,
            _ => 0,
        },
        Opcode::Jmp | Opcode::Jmpf | Opcode::Jmpb | Opcode::Jeq | Opcode::Jne => match (
            i.op1,
            i.op2,
            i.op3,
        ) {
            (Some(Operand::Register(_)), None, None) => 2,
            _ => 0,
        },
        Opcode::Cmp | Opcode::Lt | Opcode::Gt | Opcode::Le | Opcode::Ge => match (
            i.op1,
            i.op2,
            i.op3,
        ) {
            (Some(Operand::Register(_)), Some(Operand::Register(_)), None) => 3,
            _ => 0,
        },
        Opcode::Add | Opcode::Sub | Opcode::Mul | Opcode::Div => match (i.op1, i.op2, i.op3) {
            (
                Some(Operand::Register(_)),
                Some(Operand::Register(_)),
                Some(Operand::Register(_)),
            ) => 4,
            _ => 0,
        },
        Opcode::Aloc | Opcode::Dalc => match (i.op1, i.op2, i.op3) {
            (Some(Operand::NumLiteral(_)), None, None) => 6,
            (Some(Operand::Register(_)), None, None) => 3,
            (Some(Operand::Pointer(_)), None, None) => 6,
            _ => 0,
        },
        Opcode::Igl => 0,
        _ => match (i.op1, i.op2, i.op3) {
            (None, None, None) => 1,
            _ => 0,
        },
    }
}

/// What one parsed item contributes to the program's length.
pub open spec fn item_len(p: Parsed) -> int {
    match p {
        Parsed::Instruction(i) => emit_len(i),
        Parsed::StrLiteral(text, _) => encode_utf8(text@).len() as int,
        _ => 0,
    }
}

/// The length of the bytes emitted for the first `k` items.
pub open spec fn prefix_len(items: Seq<Parsed>, k: int) -> int
    decreases k,
{
    if k <= 0 {
        0
    } else {
        prefix_len(items, k - 1) + item_len(items[k - 1])
    }
}

pub proof fn lemma_item_len_nonneg(p: Parsed)
    ensures
        item_len(p) >= 0,
{
}

pub proof fn lemma_prefix_len_mono(items: Seq<Parsed>, a: int, b: int)
    requires
        0 <= a <= b,
    ensures
        0 <= prefix_len(items, a) <= prefix_len(items, b),
    decreases b,
{
    if b > a {
        lemma_prefix_len_mono(items, a, b - 1);
        lemma_item_len_nonneg(items[b - 1]);
    } else if a > 0 {
        lemma_prefix_len_mono(items, a - 1, a - 1);
        lemma_item_len_nonneg(items[a - 1]);
    }
}

// ---------------------------------------------------------------------------
// Phase A: the symbol table.
// ---------------------------------------------------------------------------

pub open spec fn has_symbol(syms: Seq<SymbolSpec>, name: Seq<char>) -> bool {
    exists|m: int| 0 <= m < syms.len() && (#[trigger] syms[m]).name == name
}

/// The first symbol with the given name.
pub open spec fn lookup(syms: Seq<SymbolSpec>, name: Seq<char>) -> Option<SymbolSpec>
    decreases syms.len(),
{
    if syms.len() == 0 {
        None
    } else if syms[0].name == name {
        Some(syms[0])
    } else {
        lookup(syms.drop_first(), name)
    }
}

/// Appends payload bytes to the most recent symbol when it is a data
/// label; a payload outside any data label only occupies space.
pub open spec fn attach_payload(syms: Seq<SymbolSpec>, bytes: Seq<u8>) -> Seq<SymbolSpec> {
    if syms.len() > 0 && syms.last().kind == Label::Data {
        syms.update(
            syms.len() - 1,
            SymbolSpec { data: syms.last().data + bytes, ..syms.last() },
        )
    } else {
        syms
    }
}

/// Phase A from item `k` on: assigns offsets and builds the table.
/// `section` is the directive in force, `pending` whether `.global`
/// marks the next label.
pub open spec fn phase_a_rec(
    items: Seq<Parsed>,
    k: int,
    off: int,
    section: Directive,
    pending: bool,
    syms: Seq<SymbolSpec>,
) -> Result<Seq<SymbolSpec>, AsmErr>
    decreases items.len() - k,
{
    if k < 0 || k >= items.len() {
        Ok(syms)
    } else {
        match items[k] {
            Parsed::Instruction(i) => phase_a_rec(
                items,
                k + 1,
                off + emit_len(i),
                section,
                pending,
                syms,
            ),
            Parsed::LabelStart(name, _) => {
                if has_symbol(syms, name@) {
                    Err(AsmErr::RedefinedLabel(name))
                } else {
                    phase_a_rec(
                        items,
                        k + 1,
                        off,
                        section,
                        false,
                        syms.push(
                            SymbolSpec {
                                name: name@,
                                kind: if section == Directive::Data || section
                                    == Directive::String {
                                    Label::Data
                                } else {
                                    Label::Code
                                },
                                offset: off,
                                data: Seq::<u8>::empty(),
                                global: pending,
                            },
                        ),
                    )
                }
            },
            Parsed::LabelEnd(_) => phase_a_rec(items, k + 1, off, section, pending, syms),
            Parsed::Directive(d, _) => {
                if d == Directive::Global {
                    phase_a_rec(items, k + 1, off, section, true, syms)
                } else {
                    phase_a_rec(items, k + 1, off, d, pending, syms)
                }
            },
            Parsed::StrLiteral(text, _) => phase_a_rec(
                items,
                k + 1,
                off + encode_utf8(text@).len(),
                section,
                pending,
                attach_payload(syms, encode_utf8(text@)),
            ),
        }
    }
}

pub open spec fn phase_a(items: Seq<Parsed>) -> Result<Seq<SymbolSpec>, AsmErr> {
    phase_a_rec(items, 0, 0, Directive::Code, false, Seq::<SymbolSpec>::empty())
}

// ---------------------------------------------------------------------------
// Trimming and splitting pointer text.
// ---------------------------------------------------------------------------

pub open spec fn trim_front(s: Seq<char>) -> Seq<char>
    decreases s.len(),
{
    if s.len() > 0 && is_space(s[0]) {
        trim_front(s.drop_first())
    } else {
        s
    }
}

pub open spec fn trim_back(s: Seq<char>) -> Seq<char>
    decreases s.len(),
{
    if s.len() > 0 && is_space(s.last()) {
        trim_back(s.drop_last())
    } else {
        s
    }
}

pub open spec fn trim(s: Seq<char>) -> Seq<char> {
    trim_back(trim_front(s))
}

/// The first `'+'` at or after `k`.
pub open spec fn plus_from(s: Seq<char>, k: int) -> Option<int>
    decreases s.len() - k,
{
    if k < 0 || k >= s.len() {
        None
    } else if s[k] == '+' {
        Some(k)
    } else {
        plus_from(s, k + 1)
    }
}

// ---------------------------------------------------------------------------
// Phase B: emission.
// ---------------------------------------------------------------------------

/// What a pointer's text resolves to: a bare integer is an absolute
/// offset, a label name its offset, and `label + N` the offset plus N;
/// anything else, an unknown name, or a result beyond 32 bits does not
/// resolve.
pub open spec fn resolve_ptr(text: Seq<char>, syms: Seq<SymbolSpec>) -> Option<int> {
    let t = trim(text);
    if t.len() == 0 {
        None
    } else if spec_parse_u32(t) is Some {
        Some(spec_parse_u32(t).unwrap() as int)
    } else {
        match plus_from(t, 0) {
            Some(p) => {
                let left = trim(t.subrange(0, p));
                let right = trim(t.subrange(p + 1, t.len() as int));
                match lookup(syms, left) {
                    Some(sym) => match spec_parse_u32(right) {
                        Some(n) => {
                            if 0 <= sym.offset + n <= u32::MAX {
                                Some(sym.offset + n)
                            } else {
                                None
                            }
                        },
                        None => None,
                    },
                    None => None,
                }
            },
            None => {
                match lookup(syms, t) {
                    Some(sym) => {
                        if 0 <= sym.offset <= u32::MAX {
                            Some(sym.offset)
                        } else {
                            None
                        }
                    },
                    None => None,
                }
            },
        }
    }
}

/// The operand to blame when an instruction has no wire encoding.
pub open spec fn spec_first_op(i: Instruction) -> Operand {
    match i.op1 {
        Some(o) => o,
        None => match i.op2 {
            Some(o) => o,
            None => match i.op3 {
                Some(o) => o,
                None => Operand::NumLiteral(0),
            },
        },
    }
}

/// The bytes of one instruction under the symbol table.
pub open spec fn emit_inst(i: Instruction, syms: Seq<SymbolSpec>) -> Result<Seq<u8>, AsmErr> {
    match (i.inst, i.op1, i.op2, i.op3) {
        (Opcode::Mov, Some(Operand::Register(r)), Some(Operand::Pointer(p)), None) => {
            match resolve_ptr(p@, syms) {
                Some(v) => Ok(
                    seq![byte_of_opcode(Opcode::Mov), r, 1u8] + spec_u32_to_le_bytes(
                        v as u32,
                    ),
                ),
                None => Err(AsmErr::UnresolvedPointer(p)),
            }
        },
        (Opcode::Aloc, Some(Operand::Pointer(p)), None, None) => {
            match resolve_ptr(p@, syms) {
                Some(v) => Ok(
                    seq![byte_of_opcode(Opcode::Aloc), 1u8] + spec_u32_to_le_bytes(v as u32),
                ),
                None => Err(AsmErr::UnresolvedPointer(p)),
            }
        },
        (Opcode::Dalc, Some(Operand::Pointer(p)), None, None) => {
            match resolve_ptr(p@, syms) {
                Some(v) => Ok(
                    seq![byte_of_opcode(Opcode::Dalc), 1u8] + spec_u32_to_le_bytes(v as u32),
                ),
                None => Err(AsmErr::UnresolvedPointer(p)),
            }
        },
        (Opcode::Jmp, Some(Operand::LabelUse(name)), None, None) => {
            if lookup(syms, name@) matches Some(_) {
                Err(AsmErr::UnencodableOperand(Operand::LabelUse(name)))
            } else {
                Err(AsmErr::UndefinedLabel(name))
            }
        },
        _ => {
            match spec_encode(i) {
                Some(b) => Ok(b),
                None => Err(AsmErr::UnencodableOperand(spec_first_op(i))),
            }
        },
    }
}

/// Phase B from item `k` on: the emitted bytes.
pub open spec fn emit_rec(items: Seq<Parsed>, k: int, syms: Seq<SymbolSpec>) -> Result<
    Seq<u8>,
    AsmErr,
>
    decreases items.len() - k,
{
    if k < 0 || k >= items.len() {
        Ok(Seq::<u8>::empty())
    } else {
        let rest = emit_rec(items, k + 1, syms);
        match items[k] {
            Parsed::Instruction(i) => match emit_inst(i, syms) {
                Ok(b) => match rest {
                    Ok(r) => Ok(b + r),
                    Err(e) => Err(e),
                },
                Err(e) => Err(e),
            },
            Parsed::StrLiteral(text, _) => match rest {
                Ok(r) => Ok(encode_utf8(text@) + r),
                Err(e) => Err(e),
            },
            _ => rest,
        }
    }
}

pub open spec fn emit(items: Seq<Parsed>, syms: Seq<SymbolSpec>) -> Result<Seq<u8>, AsmErr> {
    emit_rec(items, 0, syms)
}

// ---------------------------------------------------------------------------
// Laws of the two phases.
// ---------------------------------------------------------------------------

/// Phase A only extends the table and never rewrites a recorded name,
/// offset or kind (a string payload may still be attached).
pub proof fn lemma_phase_a_extends(
    items: Seq<Parsed>,
    k: int,
    off: int,
    section: Directive,
    pending: bool,
    syms: Seq<SymbolSpec>,
)
    requires
        phase_a_rec(items, k, off, section, pending, syms) matches Ok(_),
    ensures
        (match phase_a_rec(items, k, off, section, pending, syms) {
            Ok(t) => t.len() >= syms.len() && forall|m: int|
                0 <= m < syms.len() ==> (#[trigger] t[m]).name == syms[m].name && t[m].offset
                    == syms[m].offset && t[m].kind == syms[m].kind,
            Err(_) => true,
        }),
    decreases items.len() - k,
{
    if 0 <= k < items.len() {
        match items[k] {
            Parsed::Instruction(i) => {
                lemma_phase_a_extends(items, k + 1, off + emit_len(i), section, pending, syms);
            },
            Parsed::LabelStart(name, _) => {
                let kind = if section == Directive::Data || section == Directive::String {
                    Label::Data
                } else {
                    Label::Code
                };
                let syms2 = syms.push(
                    SymbolSpec {
                        name: name@,
                        kind,
                        offset: off,
                        data: Seq::<u8>::empty(),
                        global: pending,
                    },
                );
                lemma_phase_a_extends(items, k + 1, off, section, false, syms2);
            },
            Parsed::LabelEnd(_) => {
                lemma_phase_a_extends(items, k + 1, off, section, pending, syms);
            },
            Parsed::Directive(d, _) => {
                if d == Directive::Global {
                    lemma_phase_a_extends(items, k + 1, off, section, true, syms);
                } else {
                    lemma_phase_a_extends(items, k + 1, off, d, pending, syms);
                }
            },
            Parsed::StrLiteral(text, _) => {
                let syms2 = attach_payload(syms, encode_utf8(text@));
                lemma_phase_a_extends(
                    items,
                    k + 1,
                    off + encode_utf8(text@).len(),
                    section,
                    pending,
                    syms2,
                );
            },
        }
    }
}

/// Law (labels): when phase A succeeds, a label declared at item `j` is
/// recorded at offset `off + prefix_len(items, j) - prefix_len(items, k)`.
pub proof fn lemma_phase_a_label_offset(
    items: Seq<Parsed>,
    k: int,
    off: int,
    section: Directive,
    pending: bool,
    syms: Seq<SymbolSpec>,
    j: int,
)
    requires
        phase_a_rec(items, k, off, section, pending, syms) matches Ok(_),
        0 <= k <= j < items.len(),
        items[j] matches Parsed::LabelStart(..),
    ensures
        (match (phase_a_rec(items, k, off, section, pending, syms), items[j]) {
            (Ok(t), Parsed::LabelStart(name, _)) => exists|m: int|
                0 <= m < t.len() && (#[trigger] t[m]).name == name@ && t[m].offset == off
                    + prefix_len(items, j) - prefix_len(items, k),
            _ => true,
        }),
    decreases j - k,
{
    if k == j {
        match items[k] {
            Parsed::LabelStart(name, _) => {
                let kind = if section == Directive::Data || section == Directive::String {
                    Label::Data
                } else {
                    Label::Code
                };
                let sym = SymbolSpec {
                    name: name@,
                    kind,
                    offset: off,
                    data: Seq::<u8>::empty(),
                    global: pending,
                };
                let syms2 = syms.push(sym);
                lemma_phase_a_extends(items, k + 1, off, section, false, syms2);
                match phase_a_rec(items, k + 1, off, section, false, syms2) {
                    Ok(t) => {
                        assert(syms2[syms.len() as int] == sym);
                        assert(t[syms.len() as int].name == name@);
                        assert(t[syms.len() as int].offset == off);
                    },
                    Err(_) => {},
                }
            },
            _ => {},
        }
    } else {
        assert(prefix_len(items, k + 1) == prefix_len(items, k) + item_len(items[k]));
        match items[k] {
            Parsed::Instruction(i) => {
                lemma_phase_a_label_offset(
                    items,
                    k + 1,
                    off + emit_len(i),
                    section,
                    pending,
                    syms,
                    j,
                );
            },
            Parsed::LabelStart(name, _) => {
                let kind = if section == Directive::Data || section == Directive::String {
                    Label::Data
                } else {
                    Label::Code
                };
                let syms2 = syms.push(
                    SymbolSpec {
                        name: name@,
                        kind,
                        offset: off,
                        data: Seq::<u8>::empty(),
                        global: pending,
                    },
                );
                lemma_phase_a_label_offset(items, k + 1, off, section, false, syms2, j);
            },
            Parsed::LabelEnd(_) => {
                lemma_phase_a_label_offset(items, k + 1, off, section, pending, syms, j);
            },
            Parsed::Directive(d, _) => {
                if d == Directive::Global {
                    lemma_phase_a_label_offset(items, k + 1, off, section, true, syms, j);
                } else {
                    lemma_phase_a_label_offset(items, k + 1, off, d, pending, syms, j);
                }
            },
            Parsed::StrLiteral(text, _) => {
                lemma_phase_a_label_offset(
                    items,
                    k + 1,
                    off + encode_utf8(text@).len(),
                    section,
                    pending,
                    attach_payload(syms, encode_utf8(text@)),
                    j,
                );
            },
        }
    }
}

/// Law (labels, top level): a label declared at item `j` is recorded at
/// the byte offset where its body's bytes begin.
pub proof fn lemma_label_offset(items: Seq<Parsed>, j: int)
    requires
        phase_a(items) matches Ok(_),
        0 <= j < items.len(),
        items[j] matches Parsed::LabelStart(..),
    ensures
        (match (phase_a(items), items[j]) {
            (Ok(t), Parsed::LabelStart(name, _)) => exists|m: int|
                0 <= m < t.len() && (#[trigger] t[m]).name == name@ && t[m].offset
                    == prefix_len(items, j),
            _ => true,
        }),
{
    lemma_phase_a_label_offset(
        items,
        0,
        0,
        Directive::Code,
        false,
        Seq::<SymbolSpec>::empty(),
        j,
    );
}

/// Emission produces exactly the declared size of each instruction.
pub proof fn lemma_emit_inst_len(i: Instruction, syms: Seq<SymbolSpec>)
    ensures
        (match emit_inst(i, syms) {
            Ok(b) => b.len() == emit_len(i),
            Err(_) => true,
        }),
{
    vstd::bytes::lemma_auto_spec_u32_to_from_le_bytes();
}

/// Law (layout): the emitted bytes of items `k..` measure exactly
/// `prefix_len(items, len) - prefix_len(items, k)`.
pub proof fn lemma_emit_prefix_len(items: Seq<Parsed>, k: int, syms: Seq<SymbolSpec>)
    requires
        0 <= k <= items.len(),
    ensures
        (match emit_rec(items, k, syms) {
            Ok(b) => b.len() == prefix_len(items, items.len() as int) - prefix_len(
                items,
                k,
            ),
            Err(_) => true,
        }),
    decreases items.len() - k,
{
    if k >= items.len() {
    } else {
        lemma_emit_prefix_len(items, k + 1, syms);
        assert(prefix_len(items, k + 1) == prefix_len(items, k) + item_len(items[k]));
        match items[k] {
            Parsed::Instruction(i) => {
                lemma_emit_inst_len(i, syms);
            },
            _ => {},
        }
    }
}

/// Law: a `Jmp` through a register holding the byte offset of a label
/// named `L` lands exactly on the first instruction of `L`'s body — the
/// offset phase A recorded for `L`, which is where phase B emitted the
/// bytes of the items that follow the declaration (`prefix_len(items, j)`,
/// and a label declaration itself emits nothing).
pub proof fn lemma_jmp_lands_on_label(
    items: Seq<Parsed>,
    t: Seq<SymbolSpec>,
    b: Seq<u8>,
    s: crate::vm::VmState,
    j: int,
    rg: u8,
)
    requires
        phase_a(items) == Ok::<Seq<SymbolSpec>, AsmErr>(t),
        emit(items, t) == Ok::<Seq<u8>, AsmErr>(b),
        s.program == b,
        crate::vm::state_wf(s),
        0 <= j < items.len(),
        items[j] matches Parsed::LabelStart(..),
        0 <= s.pc,
        s.pc + 2 <= s.program.len(),
        crate::instruction::opcode_of_byte(s.program[s.pc]) == Opcode::Jmp,
        s.program[s.pc + 1] == rg,
        rg < 32,
        s.regs[rg as int] as int == prefix_len(items, j),
        prefix_len(items, j) <= i32::MAX,
    ensures
        crate::vm::spec_step(s).1 == Ok::<bool, crate::vm::VMError>(false),
        crate::vm::spec_step(s).0.pc == prefix_len(items, j),
        crate::vm::spec_step(s).0.pc == prefix_len(items, j + 1),
        (match items[j] {
            Parsed::LabelStart(name, _) => exists|m: int|
                0 <= m < t.len() && (#[trigger] t[m]).name == name@ && t[m].offset
                    == prefix_len(items, j),
            _ => true,
        }),
{
    lemma_label_offset(items, j);
    lemma_emit_prefix_len(items, 0, t);
    lemma_prefix_len_mono(items, 0, j);
    lemma_prefix_len_mono(items, j, items.len() as int);
    let v = s.regs[rg as int];
    assert(v >= 0);
    assert(u32_of_i32(v) as int == v as int);
    assert(prefix_len(items, j + 1) == prefix_len(items, j) + item_len(items[j]));
}

/// The bytes of one instruction, as a function of its view: the same
/// arms as `emit_inst`, with the error collapsed to `None`.
pub open spec fn emit_inst_view(i: crate::instruction::InstructionSpec, syms: Seq<
    SymbolSpec,
>) -> Option<Seq<u8>> {
    match (i.inst, i.op1, i.op2, i.op3) {
        (
            Opcode::Mov,
            Some(crate::parser::OperandSpec::Register(r)),
            Some(crate::parser::OperandSpec::Pointer(p)),
            None,
        ) => {
            match resolve_ptr(p, syms) {
                Some(v) => Some(
                    seq![byte_of_opcode(Opcode::Mov), r, 1u8] + spec_u32_to_le_bytes(
                        v as u32,
                    ),
                ),
                None => None,
            }
        },
        (Opcode::Aloc, Some(crate::parser::OperandSpec::Pointer(p)), None, None) => {
            match resolve_ptr(p, syms) {
                Some(v) => Some(
                    seq![byte_of_opcode(Opcode::Aloc), 1u8] + spec_u32_to_le_bytes(v as u32),
                ),
                None => None,
            }
        },
        (Opcode::Dalc, Some(crate::parser::OperandSpec::Pointer(p)), None, None) => {
            match resolve_ptr(p, syms) {
                Some(v) => Some(
                    seq![byte_of_opcode(Opcode::Dalc), 1u8] + spec_u32_to_le_bytes(v as u32),
                ),
                None => None,
            }
        },
        (Opcode::Jmp, Some(crate::parser::OperandSpec::LabelUse(_)), None, None) => None,
        _ => crate::instruction::spec_encode_view(i),
    }
}

/// Emission only looks at an instruction through its view.
pub proof fn lemma_emit_inst_is_view(i: Instruction, syms: Seq<SymbolSpec>)
    ensures
        (match emit_inst(i, syms) {
            Ok(b) => emit_inst_view(i@, syms) == Some(b),
            Err(_) => emit_inst_view(i@, syms) is None,
        }),
{
    crate::instruction::lemma_encode_is_view(i);
}

/// Items that carry no string payloads: every emitted byte belongs to an
/// instruction.
pub open spec fn code_items(items: Seq<Parsed>) -> bool {
    forall|k: int|
        0 <= k < items.len() ==> !((#[trigger] items[k]) matches Parsed::StrLiteral(_, _))
}

/// An instruction with its pointer operand replaced by the literal the
/// wire carries: the offset the text resolved to.
pub open spec fn resolved_instr(i: Instruction, syms: Seq<SymbolSpec>) -> Instruction {
    match (i.inst, i.op1, i.op2, i.op3) {
        (Opcode::Mov, Some(Operand::Register(_)), Some(Operand::Pointer(p)), None) => {
            match resolve_ptr(p@, syms) {
                Some(v) => Instruction {
                    inst: i.inst,
                    op1: i.op1,
                    op2: Some(
                        Operand::NumLiteral(crate::codec::i32_of_u32(v as u32)),
                    ),
                    op3: None,
                },
                None => i,
            }
        },
        (Opcode::Aloc, Some(Operand::Pointer(p)), None, None) => {
            match resolve_ptr(p@, syms) {
                Some(v) => Instruction {
                    inst: i.inst,
                    op1: Some(
                        Operand::NumLiteral(crate::codec::i32_of_u32(v as u32)),
                    ),
                    op2: None,
                    op3: None,
                },
                None => i,
            }
        },
        (Opcode::Dalc, Some(Operand::Pointer(p)), None, None) => {
            match resolve_ptr(p@, syms) {
                Some(v) => Instruction {
                    inst: i.inst,
                    op1: Some(
                        Operand::NumLiteral(crate::codec::i32_of_u32(v as u32)),
                    ),
                    op2: None,
                    op3: None,
                },
                None => i,
            }
        },
        _ => i,
    }
}

/// The instructions among the items from `k` on, pointers resolved.
pub open spec fn resolved_from(items: Seq<Parsed>, k: int, syms: Seq<SymbolSpec>) -> Seq<
    Instruction,
>
    decreases items.len() - k,
{
    if k < 0 || k >= items.len() {
        Seq::<Instruction>::empty()
    } else {
        match items[k] {
            Parsed::Instruction(i) => seq![resolved_instr(i, syms)] + resolved_from(
                items,
                k + 1,
                syms,
            ),
            _ => resolved_from(items, k + 1, syms),
        }
    }
}

/// Every emitted instruction takes at least one byte.
pub proof fn lemma_emit_inst_len_pos(i: Instruction, syms: Seq<SymbolSpec>)
    ensures
        (match emit_inst(i, syms) {
            Ok(b) => b.len() >= 1,
            Err(_) => true,
        }),
{
    vstd::bytes::lemma_auto_spec_u32_to_from_le_bytes();
    match emit_inst(i, syms) {
        Ok(_) => {
            if spec_encode(i) is Some {
                crate::instruction::lemma_encode_len_pos(i);
            }
        },
        Err(_) => {},
    }
}

/// One emitted instruction decodes back as its resolved form, wherever
/// it stands in the byte stream.
pub proof fn lemma_emit_inst_decode_at(
    i: Instruction,
    syms: Seq<SymbolSpec>,
    prefix: Seq<u8>,
    rest: Seq<u8>,
)
    ensures
        (match emit_inst(i, syms) {
            Ok(b) => crate::instruction::spec_decode(prefix + b + rest, prefix.len() as int)
                == Some((resolved_instr(i, syms), prefix.len() + b.len() as int)),
            Err(_) => true,
        }),
{
    vstd::bytes::lemma_auto_spec_u32_to_from_le_bytes();
    let base = prefix.len() as int;
    match (i.inst, i.op1, i.op2, i.op3) {
        (Opcode::Mov, Some(Operand::Register(r)), Some(Operand::Pointer(p)), None) => {
            match resolve_ptr(p@, syms) {
                Some(v) => {
                    let b = seq![byte_of_opcode(Opcode::Mov), r, 1u8] + spec_u32_to_le_bytes(
                        v as u32,
                    );
                    let q = prefix + b + rest;
                    assert(forall|m: int|
                        0 <= m < b.len() ==> #[trigger] q[base + m] == b[m]);
                    assert(q[base] == 0x01 && q[base + 1] == r && q[base + 2] == 1u8);
                    assert(q.subrange(base + 3, base + 7) =~= spec_u32_to_le_bytes(
                        v as u32,
                    ));
                },
                None => {},
            }
        },
        (Opcode::Aloc, Some(Operand::Pointer(p)), None, None) => {
            match resolve_ptr(p@, syms) {
                Some(v) => {
                    let b = seq![byte_of_opcode(Opcode::Aloc), 1u8] + spec_u32_to_le_bytes(
                        v as u32,
                    );
                    let q = prefix + b + rest;
                    assert(forall|m: int|
                        0 <= m < b.len() ==> #[trigger] q[base + m] == b[m]);
                    assert(q[base] == 0x0c && q[base + 1] == 1u8);
                    assert(q.subrange(base + 2, base + 6) =~= spec_u32_to_le_bytes(
                        v as u32,
                    ));
                },
                None => {},
            }
        },
        (Opcode::Dalc, Some(Operand::Pointer(p)), None, None) => {
            match resolve_ptr(p@, syms) {
                Some(v) => {
                    let b = seq![byte_of_opcode(Opcode::Dalc), 1u8] + spec_u32_to_le_bytes(
                        v as u32,
                    );
                    let q = prefix + b + rest;
                    assert(forall|m: int|
                        0 <= m < b.len() ==> #[trigger] q[base + m] == b[m]);
                    assert(q[base] == 0x0d && q[base + 1] == 1u8);
                    assert(q.subrange(base + 2, base + 6) =~= spec_u32_to_le_bytes(
                        v as u32,
                    ));
                },
                None => {},
            }
        },
        (Opcode::Jmp, Some(Operand::LabelUse(_)), None, None) => {},
        _ => {
            match spec_encode(i) {
                Some(_) => {
                    crate::instruction::lemma_encode_decode_at(i, prefix, rest);
                },
                None => {},
            }
        },
    }
}

/// The emitted bytes of items `k..` decode back as the resolved
/// instruction stream, after any prefix.
pub proof fn lemma_emit_decodes(
    items: Seq<Parsed>,
    k: int,
    syms: Seq<SymbolSpec>,
    prefix: Seq<u8>,
)
    requires
        code_items(items),
        0 <= k <= items.len(),
    ensures
        (match emit_rec(items, k, syms) {
            Ok(b) => crate::instruction::spec_decode_stream(prefix + b, prefix.len() as int)
                == Some(resolved_from(items, k, syms)),
            Err(_) => true,
        }),
    decreases items.len() - k,
{
    match emit_rec(items, k, syms) {
        Ok(b) => {
            if k >= items.len() {
                assert(prefix + b =~= prefix);
            } else {
                match items[k] {
                    Parsed::Instruction(i) => {
                        match emit_inst(i, syms) {
                            Ok(b0) => {
                                match emit_rec(items, k + 1, syms) {
                                    Ok(brest) => {
                                        assert(b == b0 + brest);
                                        assert(prefix + b =~= (prefix + b0) + brest);
                                        assert(prefix + b =~= prefix + b0 + brest);
                                        lemma_emit_inst_decode_at(i, syms, prefix, brest);
                                        lemma_emit_inst_len_pos(i, syms);
                                        lemma_emit_decodes(items, k + 1, syms, prefix + b0);
                                        assert(seq![resolved_instr(i, syms)]
                                            + resolved_from(items, k + 1, syms)
                                            =~= resolved_from(items, k, syms));
                                    },
                                    Err(_) => {},
                                }
                            },
                            Err(_) => {},
                        }
                    },
                    Parsed::StrLiteral(_, _) => {
                        assert(false);
                    },
                    _ => {
                        lemma_emit_decodes(items, k + 1, syms, prefix);
                    },
                }
            }
        },
        Err(_) => {},
    }
}

/// Law: assembling and then decoding the bytes gives the parsed
/// instruction stream back — the round trip of opcode and operand
/// values, modulo label offsets: a pointer operand comes back as the
/// offset it resolved to.
pub proof fn lemma_assemble_decode_roundtrip(items: Seq<Parsed>, syms: Seq<SymbolSpec>)
    requires
        code_items(items),
    ensures
        (match emit(items, syms) {
            Ok(b) => crate::instruction::spec_decode_stream(b, 0) == Some(
                resolved_from(items, 0, syms),
            ),
            Err(_) => true,
        }),
{
    lemma_emit_decodes(items, 0, syms, Seq::<u8>::empty());
    match emit(items, syms) {
        Ok(b) => {
            assert(Seq::<u8>::empty() + b =~= b);
        },
        Err(_) => {},
    }
}

// ---------------------------------------------------------------------------
// Executable helpers.
// ---------------------------------------------------------------------------

pub proof fn lemma_lookup_has(syms: Seq<SymbolSpec>, name: Seq<char>)
    ensures
        (lookup(syms, name) is Some) == has_symbol(syms, name),
    decreases syms.len(),
{
    if syms.len() > 0 {
        lemma_lookup_has(syms.drop_first(), name);
        if syms[0].name == name {
            assert(has_symbol(syms, name));
        } else {
            assert forall|m: int|
                0 <= m < syms.drop_first().len() implies #[trigger] syms.drop_first()[m]
                == syms[m + 1] by {}
            if has_symbol(syms, name) {
                let m = choose|m: int|
                    0 <= m < syms.len() && (#[trigger] syms[m]).name == name;
                assert(syms.drop_first()[m - 1].name == name);
                assert(has_symbol(syms.drop_first(), name));
            }
            if has_symbol(syms.drop_first(), name) {
                let m = choose|m: int|
                    0 <= m < syms.drop_first().len() && (#[trigger] syms.drop_first()[m]).name
                        == name;
                assert(syms[m + 1].name == name);
            }
        }
    }
}

/// Trims whitespace inside `cs[from..to]`: the tightened bounds.
#[verifier::loop_isolation(false)]
fn trim_bounds(cs: &Vec<char>, from: usize, to: usize) -> (r: (usize, usize))
    requires
        from <= to <= cs@.len(),
    ensures
        from <= r.0 <= r.1 <= to,
        cs@.subrange(r.0 as int, r.1 as int) == trim(
            cs@.subrange(from as int, to as int),
        ),
{
    let ghost s0 = cs@.subrange(from as int, to as int);
    let mut a = from;
    while a < to && char_is_space_at(cs, a)
        invariant
            from <= a <= to,
            trim_front(s0) == trim_front(cs@.subrange(a as int, to as int)),
        decreases to - a,
    {
        proof {
            assert(cs@.subrange(a as int, to as int).drop_first() =~= cs@.subrange(
                a + 1,
                to as int,
            ));
        }
        a += 1;
    }
    proof {
        assert(trim_front(s0) == cs@.subrange(a as int, to as int));
    }
    let mut b = to;
    while b > a && char_is_space_at(cs, b - 1)
        invariant
            a <= b <= to,
            trim_back(cs@.subrange(a as int, to as int)) == trim_back(
                cs@.subrange(a as int, b as int),
            ),
        decreases b,
    {
        proof {
            assert(cs@.subrange(a as int, b as int).drop_last() =~= cs@.subrange(
                a as int,
                b - 1,
            ));
        }
        b -= 1;
    }
    proof {
        assert(trim_back(cs@.subrange(a as int, b as int)) == cs@.subrange(
            a as int,
            b as int,
        ));
    }
    (a, b)
}

fn char_is_space_at(cs: &Vec<char>, i: usize) -> (r: bool)
    requires
        i < cs@.len(),
    ensures
        r == is_space(cs@[i as int]),
{
    crate::lexer::char_is_space(cs[i])
}

/// The first `'+'` inside `cs[from..to]`, as an index into `cs`.
#[verifier::loop_isolation(false)]
fn find_plus(cs: &Vec<char>, from: usize, to: usize) -> (r: Option<usize>)
    requires
        from <= to <= cs@.len(),
    ensures
        ({
            let t = cs@.subrange(from as int, to as int);
            match r {
                Some(j) => from <= j < to && plus_from(t, 0) == Some(j - from),
                None => plus_from(t, 0) is None,
            }
        }),
{
    let ghost t = cs@.subrange(from as int, to as int);
    let mut j = from;
    while j < to
        invariant
            from <= j <= to,
            plus_from(t, 0) == plus_from(t, j - from),
        decreases to - j,
    {
        if cs[j] == '+' {
            proof {
                assert(t[j - from] == cs@[j as int]);
            }
            return Some(j);
        }
        proof {
            assert(t[j - from] == cs@[j as int]);
        }
        j += 1;
    }
    None
}

/// The offset of the first symbol with the given name.
#[verifier::loop_isolation(false)]
fn lookup_symbol(symbols: &Vec<Symbol>, name: &String) -> (r: Option<usize>)
    ensures
        ({
            let l = lookup(syms_view(symbols@), name@);
            match r {
                Some(off) => match l {
                    Some(sym) => sym.offset == off as int,
                    None => false,
                },
                None => l is None,
            }
        }),
{
    let ghost v = syms_view(symbols@);
    proof {
        assert(v.skip(0) =~= v);
    }
    let n = symbols.len();
    let mut m: usize = 0;
    while m < n
        invariant
            m <= n,
            n == symbols@.len(),
            lookup(v, name@) == lookup(v.skip(m as int), name@),
        decreases n - m,
    {
        proof {
            assert(v.skip(m as int)[0] == v[m as int]);
        }
        if crate::strings::string_eq_str(&symbols[m].name, name.as_str()) {
            return Some(symbols[m].offset);
        }
        proof {
            assert(v.skip(m as int).drop_first() =~= v.skip(m + 1));
        }
        m += 1;
    }
    proof {
        assert(v.skip(n as int).len() == 0);
    }
    None
}

/// Resolves a pointer's text against the symbol table.
fn resolve_pointer(text: &String, symbols: &Vec<Symbol>) -> (r: Option<u32>)
    ensures
        ({
            let sp = resolve_ptr(text@, syms_view(symbols@));
            match r {
                Some(v) => sp == Some(v as int),
                None => sp is None,
            }
        }),
{
    let cs = crate::strings::chars_of_str(text.as_str());
    let n = cs.len();
    let (a, b) = trim_bounds(&cs, 0, n);
    proof {
        assert(cs@.subrange(0, n as int) =~= cs@);
    }
    let ghost t = trim(text@);
    if a == b {
        return None;
    }
    let tb = crate::strings::copy_range(&cs, a, b);
    match crate::codec::parse_u32_chars(tb.as_slice()) {
        Some(v) => {
            return Some(v);
        },
        None => {},
    }
    match find_plus(&cs, a, b) {
        Some(p) => {
            let (la, lb) = trim_bounds(&cs, a, p);
            proof {
                assert(t.subrange(0, p - a) =~= cs@.subrange(a as int, p as int));
            }
            let left = crate::strings::string_of_chars(
                crate::strings::copy_range(&cs, la, lb).as_slice(),
            );
            let (ra, rb) = trim_bounds(&cs, p + 1, b);
            proof {
                assert(t.subrange(p - a + 1, t.len() as int) =~= cs@.subrange(
                    p + 1,
                    b as int,
                ));
            }
            let right = crate::strings::copy_range(&cs, ra, rb);
            match lookup_symbol(symbols, &left) {
                None => None,
                Some(off) => {
                    match crate::codec::parse_u32_chars(right.as_slice()) {
                        None => None,
                        Some(nv) => {
                            if off > 0xFFFF_FFFFusize {
                                return None;
                            }
                            let sum: u64 = off as u64 + nv as u64;
                            if sum <= 0xFFFF_FFFFu64 {
                                Some(sum as u32)
                            } else {
                                None
                            }
                        },
                    }
                },
            }
        },
        None => {
            let tstr = crate::strings::string_of_chars(tb.as_slice());
            match lookup_symbol(symbols, &tstr) {
                Some(off) => {
                    if off <= 0xFFFF_FFFFusize {
                        Some(off as u32)
                    } else {
                        None
                    }
                },
                None => None,
            }
        },
    }
}

/// The operand to blame when an instruction has no wire encoding.
fn first_operand(i: &Instruction) -> (r: Operand)
    ensures
        r == spec_first_op(*i),
{
    match &i.op1 {
        Some(o) => o.duplicate(),
        None => match &i.op2 {
            Some(o) => o.duplicate(),
            None => match &i.op3 {
                Some(o) => o.duplicate(),
                None => Operand::NumLiteral(0),
            },
        },
    }
}

/// The encoded size of one instruction.
fn emit_len_of(i: &Instruction) -> (r: usize)
    ensures
        r == emit_len(*i),
{
    match (&i.inst, &i.op1, &i.op2, &i.op3) {
        (Opcode::Mov, Some(Operand::Register(_)), Some(Operand::NumLiteral(_)), None) => 7,
        (Opcode::Mov, Some(Operand::Register(_)), Some(Operand::Register(_)), None) => 4,
        (Opcode::Mov, Some(Operand::Register(_)), Some(Operand::Pointer(_)), None) => 7,
        (Opcode::Jmp, Some(Operand::Register(_)), None, None) => 2,
        (Opcode::Jmpf, Some(Operand::Register(_)), None, None) => 2,
        (Opcode::Jmpb, Some(Operand::Register(_)), None, None) => 2,
        (Opcode::Jeq, Some(Operand::Register(_)), None, None) => 2,
        (Opcode::Jne, Some(Operand::Register(_)), None, None) => 2,
        (Opcode::Cmp, Some(Operand::Register(_)), Some(Operand::Register(_)), None) => 3,
        (Opcode::Lt, Some(Operand::Register(_)), Some(Operand::Register(_)), None) => 3,
        (Opcode::Gt, Some(Operand::Register(_)), Some(Operand::Register(_)), None) => 3,
        (Opcode::Le, Some(Operand::Register(_)), Some(Operand::Register(_)), None) => 3,
        (Opcode::Ge, Some(Operand::Register(_)), Some(Operand::Register(_)), None) => 3,
        (
            Opcode::Add,
            Some(Operand::Register(_)),
            Some(Operand::Register(_)),
            Some(Operand::Register(_)),
        ) => 4,
        (
            Opcode::Sub,
            Some(Operand::Register(_)),
            Some(Operand::Register(_)),
            Some(Operand::Register(_)),
        ) => 4,
        (
            Opcode::Mul,
            Some(Operand::Register(_)),
            Some(Operand::Register(_)),
            Some(Operand::Register(_)),
        ) => 4,
        (
            Opcode::Div,
            Some(Operand::Register(_)),
            Some(Operand::Register(_)),
            Some(Operand::Register(_)),
        ) => 4,
        (Opcode::Aloc, Some(Operand::NumLiteral(_)), None, None) => 6,
        (Opcode::Aloc, Some(Operand::Register(_)), None, None) => 3,
        (Opcode::Aloc, Some(Operand::Pointer(_)), None, None) => 6,
        (Opcode::Dalc, Some(Operand::NumLiteral(_)), None, None) => 6,
        (Opcode::Dalc, Some(Operand::Register(_)), None, None) => 3,
        (Opcode::Dalc, Some(Operand::Pointer(_)), None, None) => 6,
        (Opcode::Hlt, None, None, None) => 1,
        (Opcode::Igl, _, _, _) => 0,
        (Opcode::Mov, _, _, _) => 0,
        (Opcode::Jmp, _, _, _) => 0,
        (Opcode::Jmpf, _, _, _) => 0,
        (Opcode::Jmpb, _, _, _) => 0,
        (Opcode::Jeq, _, _, _) => 0,
        (Opcode::Jne, _, _, _) => 0,
        (Opcode::Cmp, _, _, _) => 0,
        (Opcode::Lt, _, _, _) => 0,
        (Opcode::Gt, _, _, _) => 0,
        (Opcode::Le, _, _, _) => 0,
        (Opcode::Ge, _, _, _) => 0,
        (Opcode::Add, _, _, _) => 0,
        (Opcode::Sub, _, _, _) => 0,
        (Opcode::Mul, _, _, _) => 0,
        (Opcode::Div, _, _, _) => 0,
        (Opcode::Aloc, _, _, _) => 0,
        (Opcode::Dalc, _, _, _) => 0,
        (_, None, None, None) => 1,
        _ => 0,
    }
}

/// The bytes of one instruction under the symbol table.
pub(crate) fn emit_one(i: &Instruction, symbols: &Vec<Symbol>) -> (r: Result<Vec<u8>, AsmErr>)
    ensures
        ({
            let sp = emit_inst(*i, syms_view(symbols@));
            match r {
                Ok(v) => sp == Ok::<Seq<u8>, AsmErr>(v@),
                Err(e) => sp == Err::<Seq<u8>, AsmErr>(e),
            }
        }),
{
    match (&i.inst, &i.op1, &i.op2, &i.op3) {
        (Opcode::Mov, Some(Operand::Register(r0)), Some(Operand::Pointer(p)), None) => {
            match resolve_pointer(p, symbols) {
                Some(v) => {
                    let mut out: Vec<u8> = Vec::new();
                    out.push(0x01);
                    out.push(*r0);
                    out.push(1u8);
                    let mut tail = crate::codec::le_write_u32(v);
                    out.append(&mut tail);
                    proof {
                        assert(out@ =~= seq![byte_of_opcode(Opcode::Mov), *r0, 1u8]
                            + spec_u32_to_le_bytes(v));
                    }
                    Ok(out)
                },
                None => Err(AsmErr::UnresolvedPointer(p.clone())),
            }
        },
        (Opcode::Aloc, Some(Operand::Pointer(p)), None, None) => {
            match resolve_pointer(p, symbols) {
                Some(v) => {
                    let mut out: Vec<u8> = Vec::new();
                    out.push(0x0c);
                    out.push(1u8);
                    let mut tail = crate::codec::le_write_u32(v);
                    out.append(&mut tail);
                    proof {
                        assert(out@ =~= seq![byte_of_opcode(Opcode::Aloc), 1u8]
                            + spec_u32_to_le_bytes(v));
                    }
                    Ok(out)
                },
                None => Err(AsmErr::UnresolvedPointer(p.clone())),
            }
        },
        (Opcode::Dalc, Some(Operand::Pointer(p)), None, None) => {
            match resolve_pointer(p, symbols) {
                Some(v) => {
                    let mut out: Vec<u8> = Vec::new();
                    out.push(0x0d);
                    out.push(1u8);
                    let mut tail = crate::codec::le_write_u32(v);
                    out.append(&mut tail);
                    proof {
                        assert(out@ =~= seq![byte_of_opcode(Opcode::Dalc), 1u8]
                            + spec_u32_to_le_bytes(v));
                    }
                    Ok(out)
                },
                None => Err(AsmErr::UnresolvedPointer(p.clone())),
            }
        },
        (Opcode::Jmp, Some(Operand::LabelUse(name)), None, None) => {
            match lookup_symbol(symbols, name) {
                Some(_) => Err(AsmErr::UnencodableOperand(Operand::LabelUse(name.clone()))),
                None => Err(AsmErr::UndefinedLabel(name.clone())),
            }
        },
        _ => {
            match i.duplicate().to_bytes() {
                Some(v) => Ok(v),
                None => Err(AsmErr::UnencodableOperand(first_operand(i))),
            }
        },
    }
}

// ---------------------------------------------------------------------------
// The assembler.
// ---------------------------------------------------------------------------

#[derive(Debug, Clone, Copy)]
enum Phase {
    First,
    Second,
}

/// The two-phase assembler; after phase A it holds the symbol table.
#[derive(Debug, Clone)]
pub struct Assembler {
    phase: Phase,
    symbols: Vec<Symbol>,
}

impl Assembler {
    /// The symbol table as built so far.
    pub closed spec fn spec_symbols(&self) -> Seq<SymbolSpec> {
        syms_view(self.symbols@)
    }

    pub fn new() -> (r: Self)
        ensures
            r.spec_symbols() == Seq::<SymbolSpec>::empty(),
    {
        let a = Assembler { phase: Phase::First, symbols: Vec::new() };
        proof {
            assert(a.spec_symbols() =~= Seq::<SymbolSpec>::empty());
        }
        a
    }

    /// Phase A: walks the items, assigns every label its byte offset and
    /// builds the symbol table. A label declared twice is refused.
    #[verifier::loop_isolation(false)]
    #[verifier::rlimit(100)]
    pub fn first_phase(&mut self, items: &Vec<Parsed>) -> (r: Result<(), AsmErr>)
        requires
            prefix_len(items@, items@.len() as int) <= usize::MAX,
        ensures
            (match phase_a(items@) {
                Ok(t) => r == Ok::<(), AsmErr>(()) && final(self).spec_symbols() == t,
                Err(e) => r == Err::<(), AsmErr>(e),
            }),
    {
        self.symbols = Vec::new();
        proof {
            assert(syms_view(self.symbols@) =~= Seq::<SymbolSpec>::empty());
        }
        let n = items.len();
        let mut k: usize = 0;
        let mut off: usize = 0;
        let mut section: Directive = Directive::Code;
        let mut pending: bool = false;
        while k < n
            invariant
                k <= n,
                off == prefix_len(items@, k as int),
                phase_a(items@) == phase_a_rec(
                    items@,
                    k as int,
                    off as int,
                    section,
                    pending,
                    syms_view(self.symbols@),
                ),
            decreases n - k,
        {
            proof {
                lemma_prefix_len_mono(items@, k + 1, n as int);
                lemma_item_len_nonneg(items@[k as int]);
            }
            match &items[k] {
                Parsed::Instruction(i) => {
                    let l = emit_len_of(i);
                    off = off + l;
                },
                Parsed::LabelStart(name, _) => {
                    proof {
                        lemma_lookup_has(syms_view(self.symbols@), name@);
                    }
                    match lookup_symbol(&self.symbols, name) {
                        Some(_) => {
                            return Err(AsmErr::RedefinedLabel(name.clone()));
                        },
                        None => {},
                    }
                    let kind = if section == Directive::Data || section
                        == Directive::String {
                        Label::Data
                    } else {
                        Label::Code
                    };
                    let sym = Symbol {
                        name: name.clone(),
                        kind,
                        offset: off,
                        data: Vec::new(),
                        global: pending,
                    };
                    let ghost before = syms_view(self.symbols@);
                    let ghost symv = sym@;
                    self.symbols.push(sym);
                    pending = false;
                    proof {
                        assert(syms_view(self.symbols@) =~= before.push(symv));
                    }
                },
                Parsed::LabelEnd(_) => {},
                Parsed::Directive(d, _) => {
                    if *d == Directive::Global {
                        pending = true;
                    } else {
                        section = *d;
                    }
                },
                Parsed::StrLiteral(text, _) => {
                    let mut bytes = vstd::string::StrSliceExecFns::as_bytes_vec(
                        text.as_str(),
                    );
                    let l = bytes.len();
                    let ghost before = syms_view(self.symbols@);
                    let ghost payload = bytes@;
                    if self.symbols.len() > 0 {
                        let li = self.symbols.len() - 1;
                        let is_data = match self.symbols[li].kind {
                            Label::Data => true,
                            Label::Code => false,
                        };
                        if is_data {
                            let mut sym = self.symbols.remove(li);
                            sym.data.append(&mut bytes);
                            self.symbols.push(sym);
                        }
                    }
                    proof {
                        assert(syms_view(self.symbols@) =~= attach_payload(
                            before,
                            payload,
                        ));
                    }
                    off = off + l;
                },
            }
            k += 1;
        }
        Ok(())
    }

    /// Phase B: walks the items again and emits the byte program,
    /// resolving pointer text against the symbol table built by phase A.
    #[verifier::loop_isolation(false)]
    #[verifier::rlimit(100)]
    pub fn second_phase(&self, items: &Vec<Parsed>) -> (r: Result<Vec<u8>, AsmErr>)
        ensures
            (match emit(items@, self.spec_symbols()) {
                Ok(bs) => r matches Ok(v) && v@ == bs,
                Err(e) => r == Err::<Vec<u8>, AsmErr>(e),
            }),
    {
        let ghost t = self.spec_symbols();
        let n = items.len();
        let mut out: Vec<u8> = Vec::new();
        let mut k: usize = 0;
        while k < n
            invariant
                k <= n,
                (match emit_rec(items@, k as int, t) {
                    Ok(rest) => emit(items@, t) == Ok::<Seq<u8>, AsmErr>(out@ + rest),
                    Err(e) => emit(items@, t) == Err::<Seq<u8>, AsmErr>(e),
                }),
            decreases n - k,
        {
            match &items[k] {
                Parsed::Instruction(i) => {
                    match emit_one(i, &self.symbols) {
                        Ok(mut b) => {
                            let ghost bs = b@;
                            let ghost out_old = out@;
                            out.append(&mut b);
                            proof {
                                match emit_rec(items@, k + 1, t) {
                                    Ok(rest) => {
                                        assert((out_old + bs) + rest =~= out_old + (bs
                                            + rest));
                                    },
                                    Err(_) => {},
                                }
                            }
                        },
                        Err(e) => {
                            return Err(e);
                        },
                    }
                },
                Parsed::StrLiteral(text, _) => {
                    let mut bytes = vstd::string::StrSliceExecFns::as_bytes_vec(
                        text.as_str(),
                    );
                    let ghost bs = bytes@;
                    let ghost out_old = out@;
                    out.append(&mut bytes);
                    proof {
                        match emit_rec(items@, k + 1, t) {
                            Ok(rest) => {
                                assert((out_old + bs) + rest =~= out_old + (bs + rest));
                            },
                            Err(_) => {},
                        }
                    }
                },
                _ => {},
            }
            k += 1;
        }
        proof {
            assert(out@ + Seq::<u8>::empty() =~= out@);
        }
        Ok(out)
    }

    /// Lowers parsed items to a byte program: phase A, then phase B.
    pub fn assemble(&mut self, items: &Vec<Parsed>) -> (r: Result<Vec<u8>, AsmErr>)
        requires
            prefix_len(items@, items@.len() as int) <= usize::MAX,
        ensures
            (match phase_a(items@) {
                Err(e) => r == Err::<Vec<u8>, AsmErr>(e),
                Ok(t) => final(self).spec_symbols() == t && (match emit(items@, t) {
                    Ok(bs) => r matches Ok(v) && v@ == bs,
                    Err(e) => r == Err::<Vec<u8>, AsmErr>(e),
                }),
            }),
    {
        match self.first_phase(items) {
            Err(e) => {
                return Err(e);
            },
            Ok(()) => {},
        }
        self.phase = Phase::Second;
        self.second_phase(items)
    }
}

} // verus!
