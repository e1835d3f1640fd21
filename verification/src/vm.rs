//! The Verdigris bytecode VM: a fetch–decode–execute loop over a byte
//! program, with 32 signed 32-bit registers, an equality flag, a remainder
//! register, a managed heap and a stack reserved for a future call
//! discipline.
//!
//! `spec_step` is the operational semantics of one step; `run_once` and
//! `run` are proved against it. A step that fails leaves the state
//! unchanged. Malformed bytecode gives a typed error: a truncated operand
//! is a `SegFault`, a register index outside `[0, 32)`, a reserved or
//! unknown operand mode, a negative or oversized memory size and division
//! by zero are an `OpcodeErr`, an unmapped opcode byte is an `IglOpcode`,
//! and a reserved opcode is `Unsupported`.

use vstd::prelude::*;

verus! {

use crate::codec::u32_of_i32;
use crate::codec::i32_of_u32;
use crate::instruction::Opcode;
use crate::instruction::opcode_of_byte;
use vstd::bytes::spec_u32_from_le_bytes;
use vstd::pervasive::VecAdditionalExecFns;

/// Everything that can go wrong while executing bytecode.
#[derive(Debug, Clone, Copy, PartialEq, Eq, Structural)]
pub enum VMError {
    IglOpcode,
    SegFault,
    OpcodeErr,
    Unsupported(Opcode),
}

/// The VM's state as the contracts speak of it.
pub ghost struct VmState {
    pub regs: Seq<i32>,
    pub program: Seq<u8>,
    pub heap: Seq<u8>,
    pub pc: int,
    pub remainder: i32,
    pub flag: bool,
}

pub open spec fn state_wf(s: VmState) -> bool {
    s.regs.len() == 32 && 0 <= s.pc
}

/// Reads a mode-tagged source operand at `at`: mode 0 is a little-endian
/// i32 immediate, mode 2 a register; mode 1 (pointer) is reserved.
pub open spec fn spec_read_src(s: VmState, at: int) -> Result<(i32, int), VMError> {
    let n = s.program.len() as int;
    if at + 1 > n {
        Err(VMError::SegFault)
    } else {
        let mode = s.program[at];
        if mode == 0 {
            if at + 5 > n {
                Err(VMError::SegFault)
            } else {
                Ok((i32_of_u32(spec_u32_from_le_bytes(s.program.subrange(at + 1, at + 5))), at + 5))
            }
        } else if mode == 2 {
            if at + 2 > n {
                Err(VMError::SegFault)
            } else {
                let reg = s.program[at + 1];
                if reg >= 32 {
                    Err(VMError::OpcodeErr)
                } else {
                    Ok((s.regs[reg as int], at + 2))
                }
            }
        } else {
            Err(VMError::OpcodeErr)
        }
    }
}

pub open spec fn is_comparison(op: Opcode) -> bool {
    op == Opcode::Cmp || op == Opcode::Lt || op == Opcode::Gt || op == Opcode::Le || op
        == Opcode::Ge
}

/// The boolean a comparison opcode names.
pub open spec fn spec_compare(op: Opcode, a: i32, b: i32) -> bool {
    match op {
        Opcode::Cmp => a == b,
        Opcode::Lt => a < b,
        Opcode::Gt => a > b,
        Opcode::Le => a <= b,
        Opcode::Ge => a >= b,
        _ => false,
    }
}

/// One fetch–decode–execute step: the state after it and its outcome.
/// `Ok(true)` is a halt; errors leave the state unchanged.
pub open spec fn spec_step(s: VmState) -> (VmState, Result<bool, VMError>) {
    let n = s.program.len() as int;
    if !(0 <= s.pc && s.pc < n) {
        (s, Err(VMError::SegFault))
    } else {
        let op = opcode_of_byte(s.program[s.pc]);
        match op {
            Opcode::Hlt => (VmState { pc: s.pc + 1, ..s }, Ok(true)),
            Opcode::Mov => {
                if s.pc + 2 > n {
                    (s, Err(VMError::SegFault))
                } else {
                    let r = s.program[s.pc + 1];
                    if r >= 32 {
                        (s, Err(VMError::OpcodeErr))
                    } else {
                        match spec_read_src(s, s.pc + 2) {
                            Err(e) => (s, Err(e)),
                            Ok((v, next)) => (
                                VmState { regs: s.regs.update(r as int, v), pc: next, ..s },
                                Ok(false),
                            ),
                        }
                    }
                }
            },
            Opcode::Jmp | Opcode::Jeq | Opcode::Jne => {
                if s.pc + 2 > n {
                    (s, Err(VMError::SegFault))
                } else {
                    let rg = s.program[s.pc + 1];
                    if rg >= 32 {
                        (s, Err(VMError::OpcodeErr))
                    } else {
                        let taken = match op {
                            Opcode::Jeq => s.flag,
                            Opcode::Jne => !s.flag,
                            _ => true,
                        };
                        if !taken {
                            (VmState { pc: s.pc + 2, ..s }, Ok(false))
                        } else {
                            let target = u32_of_i32(s.regs[rg as int]) as int;
                            if target <= n {
                                (VmState { pc: target, ..s }, Ok(false))
                            } else {
                                (s, Err(VMError::SegFault))
                            }
                        }
                    }
                }
            },
            Opcode::Jmpf | Opcode::Jmpb => {
                if s.pc + 2 > n {
                    (s, Err(VMError::SegFault))
                } else {
                    let rg = s.program[s.pc + 1];
                    if rg >= 32 {
                        (s, Err(VMError::OpcodeErr))
                    } else {
                        let base = s.pc + 2;
                        let delta = s.regs[rg as int] as int;
                        let target = if op == Opcode::Jmpf {
                            base + delta
                        } else {
                            base - delta
                        };
                        if 0 <= target && target <= n {
                            (VmState { pc: target, ..s }, Ok(false))
                        } else {
                            (s, Err(VMError::SegFault))
                        }
                    }
                }
            },
            Opcode::Cmp | Opcode::Lt | Opcode::Gt | Opcode::Le | Opcode::Ge => {
                if s.pc + 3 > n {
                    (s, Err(VMError::SegFault))
                } else {
                    let a = s.program[s.pc + 1];
                    let b = s.program[s.pc + 2];
                    if a >= 32 || b >= 32 {
                        (s, Err(VMError::OpcodeErr))
                    } else {
                        (
                            VmState {
                                flag: spec_compare(op, s.regs[a as int], s.regs[b as int]),
                                pc: s.pc + 3,
                                ..s
                            },
                            Ok(false),
                        )
                    }
                }
            },
            Opcode::Add | Opcode::Sub | Opcode::Mul | Opcode::Div => {
                if s.pc + 4 > n {
                    (s, Err(VMError::SegFault))
                } else {
                    let a = s.program[s.pc + 1];
                    let b = s.program[s.pc + 2];
                    let d = s.program[s.pc + 3];
                    if a >= 32 || b >= 32 || d >= 32 {
                        (s, Err(VMError::OpcodeErr))
                    } else {
                        let va = s.regs[a as int];
                        let vb = s.regs[b as int];
                        if op == Opcode::Add {
                            (
                                VmState {
                                    regs: s.regs.update(
                                        d as int,
                                        vstd::wrapping::i32_specs::wrapping_add(va, vb),
                                    ),
                                    pc: s.pc + 4,
                                    ..s
                                },
                                Ok(false),
                            )
                        } else if op == Opcode::Sub {
                            (
                                VmState {
                                    regs: s.regs.update(
                                        d as int,
                                        vstd::wrapping::i32_specs::wrapping_sub(va, vb),
                                    ),
                                    pc: s.pc + 4,
                                    ..s
                                },
                                Ok(false),
                            )
                        } else if op == Opcode::Mul {
                            (
                                VmState {
                                    regs: s.regs.update(
                                        d as int,
                                        vstd::wrapping::i32_specs::wrapping_mul(va, vb),
                                    ),
                                    pc: s.pc + 4,
                                    ..s
                                },
                                Ok(false),
                            )
                        } else {
                            // Div: truncating quotient and remainder; division by
                            // zero is refused and i32::MIN / -1 wraps.
                            if vb == 0 {
                                (s, Err(VMError::OpcodeErr))
                            } else if va == i32::MIN && vb == -1 {
                                (
                                    VmState {
                                        regs: s.regs.update(d as int, i32::MIN),
                                        remainder: 0,
                                        pc: s.pc + 4,
                                        ..s
                                    },
                                    Ok(false),
                                )
                            } else {
                                (
                                    VmState {
                                        regs: s.regs.update(
                                            d as int,
                                            match va.checked_div(vb) {
                                                Some(q) => q,
                                                None => 0,
                                            },
                                        ),
                                        remainder: match va.checked_rem(vb) {
                                            Some(r) => r,
                                            None => 0,
                                        },
                                        pc: s.pc + 4,
                                        ..s
                                    },
                                    Ok(false),
                                )
                            }
                        }
                    }
                }
            },
            Opcode::Aloc => {
                match spec_read_src(s, s.pc + 1) {
                    Err(e) => (s, Err(e)),
                    Ok((v, next)) => {
                        if v < 0 || s.heap.len() + v > usize::MAX {
                            (s, Err(VMError::OpcodeErr))
                        } else {
                            (
                                VmState {
                                    heap: s.heap + Seq::new(v as nat, |i: int| 0u8),
                                    pc: next,
                                    ..s
                                },
                                Ok(false),
                            )
                        }
                    },
                }
            },
            Opcode::Dalc => {
                match spec_read_src(s, s.pc + 1) {
                    Err(e) => (s, Err(e)),
                    Ok((v, next)) => {
                        if v < 0 || v > s.heap.len() {
                            (s, Err(VMError::OpcodeErr))
                        } else {
                            (
                                VmState {
                                    heap: s.heap.take(s.heap.len() - v),
                                    pc: next,
                                    ..s
                                },
                                Ok(false),
                            )
                        }
                    },
                }
            },
            Opcode::Igl => (s, Err(VMError::IglOpcode)),
            _ => (s, Err(VMError::Unsupported(op))),
        }
    }
}

/// Running up to `n` further steps: the final state, and `Some` outcome if
/// the machine halted or failed within them.
pub open spec fn spec_run_to(s: VmState, n: nat) -> (VmState, Option<Result<(), VMError>>)
    decreases n,
{
    if n == 0 {
        (s, None)
    } else {
        let (s1, r) = spec_step(s);
        match r {
            Ok(halted) => {
                if halted {
                    (s1, Some(Ok(())))
                } else {
                    spec_run_to(s1, (n - 1) as nat)
                }
            },
            Err(e) => (s1, Some(Err(e))),
        }
    }
}

/// The heap growth one step grants: the decoded `Aloc` size when the
/// step grants it, zero otherwise.
pub open spec fn aloc_amount(s: VmState) -> int {
    if 0 <= s.pc < s.program.len() && opcode_of_byte(s.program[s.pc]) == Opcode::Aloc {
        match spec_read_src(s, s.pc + 1) {
            Ok((v, _)) => {
                if v >= 0 && s.heap.len() + v <= usize::MAX {
                    v as int
                } else {
                    0
                }
            },
            Err(_) => 0,
        }
    } else {
        0
    }
}

/// The heap shrinkage one step grants: the decoded `Dalc` size when the
/// step grants it, zero otherwise.
pub open spec fn dalc_amount(s: VmState) -> int {
    if 0 <= s.pc < s.program.len() && opcode_of_byte(s.program[s.pc]) == Opcode::Dalc {
        match spec_read_src(s, s.pc + 1) {
            Ok((v, _)) => {
                if 0 <= v <= s.heap.len() {
                    v as int
                } else {
                    0
                }
            },
            Err(_) => 0,
        }
    } else {
        0
    }
}

/// The sum of the `Aloc` sizes granted within `n` steps.
pub open spec fn run_allocs(s: VmState, n: nat) -> int
    decreases n,
{
    if n == 0 {
        0
    } else {
        let (s1, r) = spec_step(s);
        aloc_amount(s) + (match r {
            Ok(halted) => {
                if halted {
                    0
                } else {
                    run_allocs(s1, (n - 1) as nat)
                }
            },
            Err(_) => 0,
        })
    }
}

/// The sum of the `Dalc` sizes granted within `n` steps.
pub open spec fn run_dalcs(s: VmState, n: nat) -> int
    decreases n,
{
    if n == 0 {
        0
    } else {
        let (s1, r) = spec_step(s);
        dalc_amount(s) + (match r {
            Ok(halted) => {
                if halted {
                    0
                } else {
                    run_dalcs(s1, (n - 1) as nat)
                }
            },
            Err(_) => 0,
        })
    }
}

/// One step moves the heap by exactly the granted allocation minus the
/// granted deallocation.
#[verifier::rlimit(50)]
pub proof fn lemma_step_heap_balance(s: VmState)
    ensures
        ({
            let (s2, r) = spec_step(s);
            s2.heap.len() == s.heap.len() + aloc_amount(s) - dalc_amount(s)
        }),
{
}

/// Law: over any bounded run the heap's size is the initial size plus
/// the sum of the granted `Aloc` sizes minus the sum of the granted
/// `Dalc` sizes — and, the sums being of granted sizes only, it never
/// goes below zero.
pub proof fn lemma_run_heap_balance(s: VmState, n: nat)
    ensures
        spec_run_to(s, n).0.heap.len() == s.heap.len() + run_allocs(s, n) - run_dalcs(
            s,
            n,
        ),
        run_allocs(s, n) >= 0,
        run_dalcs(s, n) >= 0,
    decreases n,
{
    if n > 0 {
        let (s1, r) = spec_step(s);
        lemma_step_heap_balance(s);
        match r {
            Ok(halted) => {
                if !halted {
                    lemma_run_heap_balance(s1, (n - 1) as nat);
                }
            },
            Err(_) => {},
        }
    }
}

// ---------------------------------------------------------------------------
// Laws of a single step.
// ---------------------------------------------------------------------------

/// Law: a successful step keeps the program counter inside the program,
/// preserves the register file's size and never touches the program; a
/// failed step changes nothing.
#[verifier::rlimit(50)]
pub proof fn lemma_step_pc_in_bounds(s: VmState)
    requires
        state_wf(s),
    ensures
        ({
            let (s2, r) = spec_step(s);
            &&& ((r matches Ok(_)) ==> 0 <= s2.pc <= s2.program.len())
            &&& s2.regs.len() == s.regs.len()
            &&& s2.program == s.program
            &&& ((r matches Err(_)) ==> s2 == s)
        }),
{
    if 0 <= s.pc < s.program.len() {
        let op = opcode_of_byte(s.program[s.pc]);
        if op == Opcode::Mov {
            match spec_read_src(s, s.pc + 2) {
                Ok((v, next)) => {
                    assert(next <= s.program.len());
                },
                Err(_) => {},
            }
        }
        if op == Opcode::Aloc || op == Opcode::Dalc {
            match spec_read_src(s, s.pc + 1) {
                Ok((v, next)) => {
                    assert(next <= s.program.len());
                },
                Err(_) => {},
            }
        }
    }
}

/// Law: the heap grows by exactly the decoded `Aloc` size, shrinks by
/// exactly the decoded `Dalc` size (never below zero), and no other opcode
/// changes it.
pub proof fn lemma_step_heap(s: VmState)
    requires
        0 <= s.pc < s.program.len(),
    ensures
        ({
            let (s2, r) = spec_step(s);
            let op = opcode_of_byte(s.program[s.pc]);
            &&& (op != Opcode::Aloc && op != Opcode::Dalc ==> s2.heap == s.heap)
            &&& ((op == Opcode::Aloc && (r matches Ok(_))) ==> ({
                let src = spec_read_src(s, s.pc + 1);
                &&& src matches Ok(_)
                &&& (src matches Ok((v, _)) ==> v >= 0 && s2.heap.len() == s.heap.len() + v)
            }))
            &&& ((op == Opcode::Dalc && (r matches Ok(_))) ==> ({
                let src = spec_read_src(s, s.pc + 1);
                &&& src matches Ok(_)
                &&& (src matches Ok((v, _)) ==> 0 <= v <= s.heap.len() && s2.heap.len()
                    == s.heap.len() - v)
            }))
        }),
{
}

/// Law: a comparison opcode sets the flag to exactly the boolean it names
/// on the two named registers, and no other opcode writes the flag.
pub proof fn lemma_step_flag(s: VmState)
    requires
        0 <= s.pc < s.program.len(),
    ensures
        ({
            let (s2, r) = spec_step(s);
            let op = opcode_of_byte(s.program[s.pc]);
            &&& ((is_comparison(op) && (r matches Ok(_))) ==> s2.flag == spec_compare(
                op,
                s.regs[s.program[s.pc + 1] as int],
                s.regs[s.program[s.pc + 2] as int],
            ))
            &&& (!is_comparison(op) ==> s2.flag == s.flag)
        }),
{
}

// ---------------------------------------------------------------------------
// The executable machine.
// ---------------------------------------------------------------------------

/// The VM's heap together with the stack reserved for `Call`/`Ret`.
#[derive(Debug, Clone)]
pub struct VMMemory {
    heap: Vec<u8>,
    stack: Vec<u8>,
    topptr: usize,
    baseptr: usize,
    heap_size: usize,
}

impl VMMemory {
    pub closed spec fn spec_heap(&self) -> Seq<u8> {
        self.heap@
    }

    pub closed spec fn spec_stack(&self) -> Seq<u8> {
        self.stack@
    }

    pub closed spec fn spec_baseptr(&self) -> int {
        self.baseptr as int
    }

    /// The stack pointers track the stack vector, and the recorded heap
    /// size tracks the heap vector.
    pub closed spec fn wf(&self) -> bool {
        self.heap_size == self.heap@.len() && self.topptr == self.stack@.len()
    }

    pub fn new() -> (r: Self)
        ensures
            r.wf(),
            r.spec_heap() == Seq::<u8>::empty(),
            r.spec_stack() == Seq::<u8>::empty(),
            r.spec_baseptr() == 0,
    {
        Self { heap: Vec::new(), stack: Vec::new(), topptr: 0, baseptr: 0, heap_size: 0 }
    }

    /// Grows the heap by `size` zeroed bytes and returns the new size.
    pub fn allocate_heap(&mut self, size: usize) -> (r: usize)
        requires
            old(self).wf(),
            old(self).spec_heap().len() + size <= usize::MAX,
        ensures
            final(self).wf(),
            final(self).spec_heap() == old(self).spec_heap() + Seq::new(
                size as nat,
                |i: int| 0u8,
            ),
            final(self).spec_stack() == old(self).spec_stack(),
            final(self).spec_baseptr() == old(self).spec_baseptr(),
            r == final(self).spec_heap().len(),
    {
        let target = self.heap.len() + size;
        self.heap.resize(target, 0);
        self.heap_size = target;
        proof {
            assert(self.heap@ =~= old(self).heap@ + Seq::new(size as nat, |i: int| 0u8));
        }
        target
    }

    /// Shrinks the heap by `size` bytes.
    pub fn deallocate_heap(&mut self, size: usize)
        requires
            old(self).wf(),
            size <= old(self).spec_heap().len(),
        ensures
            final(self).wf(),
            final(self).spec_heap() == old(self).spec_heap().take(
                old(self).spec_heap().len() - size,
            ),
            final(self).spec_stack() == old(self).spec_stack(),
            final(self).spec_baseptr() == old(self).spec_baseptr(),
    {
        let target = self.heap.len() - size;
        self.heap.truncate(target);
        self.heap_size = target;
    }

    /// Grows the stack by `size` zeroed bytes; returns the base and top
    /// pointers after the growth.
    pub fn allocate_stack(&mut self, size: usize) -> (r: (usize, usize))
        requires
            old(self).wf(),
            old(self).spec_stack().len() + size <= usize::MAX,
        ensures
            final(self).wf(),
            final(self).spec_stack() == old(self).spec_stack() + Seq::new(
                size as nat,
                |i: int| 0u8,
            ),
            final(self).spec_heap() == old(self).spec_heap(),
            final(self).spec_baseptr() == old(self).spec_baseptr(),
            r.0 == final(self).spec_baseptr(),
            r.1 == final(self).spec_stack().len(),
    {
        let target = self.topptr + size;
        self.stack.resize(target, 0);
        self.topptr = target;
        proof {
            assert(self.stack@ =~= old(self).stack@ + Seq::new(size as nat, |i: int| 0u8));
        }
        (self.baseptr, self.topptr)
    }

    /// Opens a frame of `size` bytes: grows the stack and moves the base
    /// pointer up to the new top. The full frame discipline is reserved
    /// for `Call`/`Ret`.
    pub fn push_stack(&mut self, size: usize) -> (r: (usize, usize))
        requires
            old(self).wf(),
            old(self).spec_stack().len() + size <= usize::MAX,
            old(self).spec_baseptr() + size <= usize::MAX,
        ensures
            final(self).wf(),
            final(self).spec_stack() == old(self).spec_stack() + Seq::new(
                size as nat,
                |i: int| 0u8,
            ),
            final(self).spec_heap() == old(self).spec_heap(),
            final(self).spec_baseptr() == old(self).spec_baseptr() + size,
            r.0 == final(self).spec_baseptr(),
            r.1 == final(self).spec_stack().len(),
    {
        self.allocate_stack(size);
        self.baseptr = self.baseptr + size;
        (self.baseptr, self.topptr)
    }

    /// The bytes held: heap plus stack.
    pub fn size(&self) -> (r: usize)
        requires
            self.wf(),
            self.spec_heap().len() + self.spec_stack().len() <= usize::MAX,
        ensures
            r == self.spec_heap().len() + self.spec_stack().len(),
    {
        self.heap_size + self.topptr
    }
}

/// The virtual machine.
#[derive(Debug, Clone)]
pub struct VM {
    registers: Vec<i32>,
    program: Vec<u8>,
    memory: VMMemory,
    pc: usize,
    remainder: i32,
    eq: bool,
}

impl View for VM {
    type V = VmState;

    closed spec fn view(&self) -> VmState {
        VmState {
            regs: self.registers@,
            program: self.program@,
            heap: self.memory.spec_heap(),
            pc: self.pc as int,
            remainder: self.remainder,
            flag: self.eq,
        }
    }
}

impl VM {
    /// 32 registers, the stack empty and unused until `Call`/`Ret` land.
    pub closed spec fn wf(&self) -> bool {
        self.registers@.len() == 32 && self.memory.wf() && self.memory.spec_stack().len()
            == 0
    }

    /// A well-formed machine has a well-formed state view, so the step
    /// laws apply to it.
    pub proof fn lemma_wf_state(&self)
        requires
            self.wf(),
        ensures
            state_wf(self@),
    {
    }

    /// A fresh machine over the given program: registers zeroed, heap
    /// empty, the program counter at the first byte.
    pub fn new(prog: Vec<u8>) -> (r: Self)
        ensures
            r.wf(),
            r@.program == prog@,
            r@.regs == Seq::new(32, |i: int| 0i32),
            r@.heap == Seq::<u8>::empty(),
            r@.pc == 0,
            r@.remainder == 0,
            r@.flag == false,
    {
        let mut registers: Vec<i32> = Vec::new();
        let mut i: usize = 0;
        while i < 32
            invariant
                i <= 32,
                registers@ == Seq::new(i as nat, |j: int| 0i32),
            decreases 32 - i,
        {
            registers.push(0);
            proof {
                assert(registers@ =~= Seq::new((i + 1) as nat, |j: int| 0i32));
            }
            i += 1;
        }
        let vm = VM {
            registers,
            program: prog,
            memory: VMMemory::new(),
            pc: 0,
            remainder: 0,
            eq: false,
        };
        proof {
            assert(vm@.regs =~= Seq::new(32, |i: int| 0i32));
        }
        vm
    }

    /// Appends bytes at the end of the program without moving `pc`.
    pub fn add_bytes(&mut self, bytes: Vec<u8>)
        requires
            old(self).wf(),
        ensures
            final(self).wf(),
            final(self)@ == (VmState { program: old(self)@.program + bytes@, ..old(self)@ }),
    {
        let mut bytes = bytes;
        self.program.append(&mut bytes);
    }

    /// The register file, for inspection.
    pub fn registers(&self) -> (r: Vec<i32>)
        requires
            self.wf(),
        ensures
            r@ == self@.regs,
    {
        let mut out: Vec<i32> = Vec::new();
        let mut i: usize = 0;
        while i < 32
            invariant
                self.wf(),
                i <= 32,
                out@ == self@.regs.take(i as int),
            decreases 32 - i,
        {
            out.push(self.registers[i]);
            proof {
                assert(out@ =~= self@.regs.take(i + 1));
            }
            i += 1;
        }
        proof {
            assert(self@.regs.take(32) =~= self@.regs);
        }
        out
    }

    /// The loaded program, for inspection.
    pub fn program(&self) -> (r: &Vec<u8>)
        ensures
            r@ == self@.program,
    {
        &self.program
    }

    /// The heap's size in bytes (the reserved stack holds nothing).
    pub fn heap(&self) -> (r: usize)
        requires
            self.wf(),
        ensures
            r == self@.heap.len(),
    {
        self.memory.size()
    }

    /// One register's value; registers beyond 31 do not exist.
    pub fn test_register(&self, reg: usize) -> (r: Result<i32, ()>)
        requires
            self.wf(),
        ensures
            reg > 31 ==> r == Err::<i32, ()>(()),
            reg <= 31 ==> r == Ok::<i32, ()>(self@.regs[reg as int]),
    {
        if reg > 31 {
            return Err(());
        }
        Ok(self.registers[reg])
    }

    /// Performs one step; `Ok(true)` reports a halt.
    pub fn run_once(&mut self) -> (r: Result<bool, VMError>)
        requires
            old(self).wf(),
        ensures
            final(self).wf(),
            ({
                let (s2, r2) = spec_step(old(self)@);
                final(self)@ == s2 && r == r2
            }),
    {
        self.execute()
    }

    /// Steps until a halt, an error, or `max_steps` steps have run;
    /// `Ok(false)` reports an exhausted step budget with the machine
    /// still runnable.
    pub fn run(&mut self, max_steps: u64) -> (r: Result<bool, VMError>)
        requires
            old(self).wf(),
        ensures
            final(self).wf(),
            ({
                let (s2, out) = spec_run_to(old(self)@, max_steps as nat);
                final(self)@ == s2 && r == (match out {
                    Some(Ok(())) => Ok::<bool, VMError>(true),
                    Some(Err(e)) => Err::<bool, VMError>(e),
                    None => Ok::<bool, VMError>(false),
                })
            }),
    {
        let mut left: u64 = max_steps;
        loop
            invariant
                self.wf(),
                left <= max_steps,
                spec_run_to(old(self)@, max_steps as nat) == spec_run_to(self@, left as nat),
            decreases left,
        {
            if left == 0 {
                return Ok(false);
            }
            let ghost pre = self@;
            let r = self.execute();
            match r {
                Ok(true) => {
                    return Ok(true);
                },
                Ok(false) => {
                    left = left - 1;
                },
                Err(e) => {
                    return Err(e);
                },
            }
        }
    }

    #[verifier::rlimit(50)]
    fn execute(&mut self) -> (r: Result<bool, VMError>)
        requires
            old(self).wf(),
        ensures
            final(self).wf(),
            ({
                let (s2, r2) = spec_step(old(self)@);
                final(self)@ == s2 && r == r2
            }),
    {
        let n = self.program.len();
        if self.pc >= n {
            return Err(VMError::SegFault);
        }
        let op = Opcode::from(self.program[self.pc]);
        match op {
            Opcode::Hlt => {
                self.pc = self.pc + 1;
                Ok(true)
            },
            Opcode::Mov => {
                if n - self.pc < 2 {
                    return Err(VMError::SegFault);
                }
                let r = self.program[self.pc + 1];
                if r >= 32 {
                    return Err(VMError::OpcodeErr);
                }
                match self.read_src(self.pc + 2) {
                    Err(e) => Err(e),
                    Ok((v, next)) => {
                        self.registers.set(r as usize, v);
                        self.pc = next;
                        Ok(false)
                    },
                }
            },
            Opcode::Jmp | Opcode::Jeq | Opcode::Jne => {
                if n - self.pc < 2 {
                    return Err(VMError::SegFault);
                }
                let rg = self.program[self.pc + 1];
                if rg >= 32 {
                    return Err(VMError::OpcodeErr);
                }
                let taken = match op {
                    Opcode::Jeq => self.eq,
                    Opcode::Jne => !self.eq,
                    _ => true,
                };
                if !taken {
                    self.pc = self.pc + 2;
                    return Ok(false);
                }
                let v = self.registers[rg as usize];
                let target: u32 = if v >= 0 {
                    v as u32
                } else {
                    ((v as i64) + 0x1_0000_0000i64) as u32
                };
                if target as usize <= n {
                    self.pc = target as usize;
                    Ok(false)
                } else {
                    Err(VMError::SegFault)
                }
            },
            Opcode::Jmpf | Opcode::Jmpb => {
                if n - self.pc < 2 {
                    return Err(VMError::SegFault);
                }
                let rg = self.program[self.pc + 1];
                if rg >= 32 {
                    return Err(VMError::OpcodeErr);
                }
                let base = self.pc + 2;
                let v = self.registers[rg as usize];
                let forward = op == Opcode::Jmpf;
                // moving forward by v is moving backward by -v
                let (ahead, dist): (bool, usize) = if v >= 0 {
                    (forward, v as usize)
                } else {
                    (!forward, (-(v as i64)) as usize)
                };
                if ahead {
                    if dist <= n - base {
                        self.pc = base + dist;
                        Ok(false)
                    } else {
                        Err(VMError::SegFault)
                    }
                } else {
                    if dist <= base {
                        self.pc = base - dist;
                        Ok(false)
                    } else {
                        Err(VMError::SegFault)
                    }
                }
            },
            Opcode::Cmp | Opcode::Lt | Opcode::Gt | Opcode::Le | Opcode::Ge => {
                if n - self.pc < 3 {
                    return Err(VMError::SegFault);
                }
                let a = self.program[self.pc + 1];
                let b = self.program[self.pc + 2];
                if a >= 32 || b >= 32 {
                    return Err(VMError::OpcodeErr);
                }
                let va = self.registers[a as usize];
                let vb = self.registers[b as usize];
                self.eq = match op {
                    Opcode::Cmp => va == vb,
                    Opcode::Lt => va < vb,
                    Opcode::Gt => va > vb,
                    Opcode::Le => va <= vb,
                    _ => va >= vb,
                };
                self.pc = self.pc + 3;
                Ok(false)
            },
            Opcode::Add | Opcode::Sub | Opcode::Mul | Opcode::Div => {
                if n - self.pc < 4 {
                    return Err(VMError::SegFault);
                }
                let a = self.program[self.pc + 1];
                let b = self.program[self.pc + 2];
                let d = self.program[self.pc + 3];
                if a >= 32 || b >= 32 || d >= 32 {
                    return Err(VMError::OpcodeErr);
                }
                let va = self.registers[a as usize];
                let vb = self.registers[b as usize];
                match op {
                    Opcode::Add => {
                        self.registers.set(d as usize, va.wrapping_add(vb));
                    },
                    Opcode::Sub => {
                        self.registers.set(d as usize, va.wrapping_sub(vb));
                    },
                    Opcode::Mul => {
                        self.registers.set(d as usize, va.wrapping_mul(vb));
                    },
                    _ => {
                        if vb == 0 {
                            return Err(VMError::OpcodeErr);
                        }
                        if va == i32::MIN && vb == -1 {
                            self.registers.set(d as usize, i32::MIN);
                            self.remainder = 0;
                        } else {
                            let q = match va.checked_div(vb) {
                                Some(q) => q,
                                None => 0,
                            };
                            let rem = match va.checked_rem(vb) {
                                Some(r) => r,
                                None => 0,
                            };
                            self.registers.set(d as usize, q);
                            self.remainder = rem;
                        }
                    },
                }
                self.pc = self.pc + 4;
                Ok(false)
            },
            Opcode::Aloc => {
                match self.read_src(self.pc + 1) {
                    Err(e) => Err(e),
                    Ok((v, next)) => {
                        if v < 0 {
                            return Err(VMError::OpcodeErr);
                        }
                        let size = v as usize;
                        if size > usize::MAX - self.memory.heap_len() {
                            return Err(VMError::OpcodeErr);
                        }
                        self.memory.allocate_heap(size);
                        self.pc = next;
                        Ok(false)
                    },
                }
            },
            Opcode::Dalc => {
                match self.read_src(self.pc + 1) {
                    Err(e) => Err(e),
                    Ok((v, next)) => {
                        if v < 0 {
                            return Err(VMError::OpcodeErr);
                        }
                        let size = v as usize;
                        if size > self.memory.heap_len() {
                            return Err(VMError::OpcodeErr);
                        }
                        self.memory.deallocate_heap(size);
                        self.pc = next;
                        Ok(false)
                    },
                }
            },
            Opcode::Igl => Err(VMError::IglOpcode),
            _ => Err(VMError::Unsupported(op)),
        }
    }

    /// Reads a mode-tagged source operand without committing any state.
    fn read_src(&self, at: usize) -> (r: Result<(i32, usize), VMError>)
        requires
            self.wf(),
        ensures
            r == (match spec_read_src(self@, at as int) {
                Ok((v, next)) => Ok::<(i32, usize), VMError>((v, next as usize)),
                Err(e) => Err::<(i32, usize), VMError>(e),
            }),
    {
        let n = self.program.len();
        if at >= n {
            return Err(VMError::SegFault);
        }
        let mode = self.program[at];
        if mode == 0 {
            if n - at < 5 {
                return Err(VMError::SegFault);
            }
            let v = crate::instruction::read_i32_at(&self.program, at + 1);
            Ok((v, at + 5))
        } else if mode == 2 {
            if n - at < 2 {
                return Err(VMError::SegFault);
            }
            let reg = self.program[at + 1];
            if reg >= 32 {
                return Err(VMError::OpcodeErr);
            }
            Ok((self.registers[reg as usize], at + 2))
        } else {
            Err(VMError::OpcodeErr)
        }
    }
}

impl VMMemory {
    /// The heap's size in bytes.
    pub fn heap_len(&self) -> (r: usize)
        requires
            self.wf(),
        ensures
            r == self.spec_heap().len(),
    {
        self.heap.len()
    }
}

} // verus!
