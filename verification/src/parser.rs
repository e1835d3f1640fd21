//! The parser takes a token stream and produces a stream of parsed items.
//!
//! It does not process labels, strings or directives; that role falls to
//! the assembler, which puts everything together.

use vstd::prelude::*;

verus! {

use crate::instruction::Instruction;
use crate::lexer::AsmParseErr;
use crate::lexer::Context;
use crate::lexer::Directive;
use crate::lexer::Token;

/// An item of the parsed stream.
#[derive(Debug, Clone, PartialEq)]
pub enum Parsed {
    Instruction(Instruction),
    LabelStart(String, Context),
    LabelEnd(Context),
    Directive(Directive, Context),
    StrLiteral(String, Context),
}

/// An instruction operand.
#[derive(Debug, Clone, PartialEq)]
pub enum Operand {
    Pointer(String),
    Register(u8),
    LabelUse(String),
    NumLiteral(i32),
}

/// An operand as the contracts speak of it: text as characters.
pub ghost enum OperandSpec {
    Pointer(Seq<char>),
    Register(u8),
    LabelUse(Seq<char>),
    NumLiteral(i32),
}

impl View for Operand {
    type V = OperandSpec;

    open spec fn view(&self) -> OperandSpec {
        match self {
            Operand::Pointer(p) => OperandSpec::Pointer(p@),
            Operand::Register(r) => OperandSpec::Register(*r),
            Operand::LabelUse(n) => OperandSpec::LabelUse(n@),
            Operand::NumLiteral(n) => OperandSpec::NumLiteral(*n),
        }
    }
}

impl Operand {
    /// The operand carried by an operand token.
    pub open spec fn spec_of_token(t: Token) -> Option<Operand> {
        match t {
            Token::Pointer(ptr, _) => Some(Operand::Pointer(ptr)),
            Token::Register(reg, _) => Some(Operand::Register(reg)),
            Token::NumLiteral(num, _) => Some(Operand::NumLiteral(num)),
            Token::LabelUse(name, _) => Some(Operand::LabelUse(name)),
            _ => None,
        }
    }

    /// A fresh operand equal to this one.
    pub fn duplicate(&self) -> (r: Operand)
        ensures
            r == *self,
    {
        match self {
            Operand::Pointer(p) => Operand::Pointer(p.clone()),
            Operand::Register(r) => Operand::Register(*r),
            Operand::LabelUse(n) => Operand::LabelUse(n.clone()),
            Operand::NumLiteral(n) => Operand::NumLiteral(*n),
        }
    }

    /// Converts an operand token; any other token is refused.
    pub fn try_from(from: Token) -> (r: Result<Self, AsmParseErr>)
        ensures
            r == (match Operand::spec_of_token(from) {
                Some(op) => Ok::<Operand, AsmParseErr>(op),
                None => Err::<Operand, AsmParseErr>(
                    AsmParseErr::InvalidOperandConversion(from),
                ),
            }),
    {
        match from {
            Token::Pointer(ptr, _) => Ok(Operand::Pointer(ptr)),
            Token::Register(reg, _) => Ok(Operand::Register(reg)),
            Token::NumLiteral(num, _) => Ok(Operand::NumLiteral(num)),
            Token::LabelUse(name, _) => Ok(Operand::LabelUse(name)),
            other => Err(AsmParseErr::InvalidOperandConversion(other)),
        }
    }
}

/// A parsed item as the contracts speak of it.
pub ghost enum ParsedSpec {
    Instruction(crate::instruction::InstructionSpec),
    LabelStart(Seq<char>, Context),
    LabelEnd(Context),
    Directive(Directive, Context),
    StrLiteral(Seq<char>, Context),
}

impl View for Parsed {
    type V = ParsedSpec;

    open spec fn view(&self) -> ParsedSpec {
        match self {
            Parsed::Instruction(i) => ParsedSpec::Instruction(i@),
            Parsed::LabelStart(n, con) => ParsedSpec::LabelStart(n@, *con),
            Parsed::LabelEnd(con) => ParsedSpec::LabelEnd(*con),
            Parsed::Directive(d, con) => ParsedSpec::Directive(*d, *con),
            Parsed::StrLiteral(t, con) => ParsedSpec::StrLiteral(t@, *con),
        }
    }
}

pub open spec fn items_view(v: Seq<Parsed>) -> Seq<ParsedSpec> {
    v.map_values(|p: Parsed| p@)
}

pub open spec fn pairs_view(v: Seq<(Operand, Context)>) -> Seq<(OperandSpec, Context)> {
    v.map_values(|p: (Operand, Context)| (p.0@, p.1))
}

/// The operands of a pair sequence, in order.
pub open spec fn ops_of(v: Seq<(Operand, Context)>) -> Seq<Operand> {
    v.map_values(|p: (Operand, Context)| p.0)
}

/// The instruction an opcode and an operand list would form.
pub open spec fn inst_of(op: Opcode, ops: Seq<Operand>) -> Instruction {
    Instruction {
        inst: op,
        op1: if ops.len() > 0 {
            Some(ops[0])
        } else {
            None
        },
        op2: if ops.len() > 1 {
            Some(ops[1])
        } else {
            None
        },
        op3: if ops.len() > 2 {
            Some(ops[2])
        } else {
            None
        },
    }
}

/// Whether an operand list fits an opcode's signature row.
pub open spec fn operands_match(op: Opcode, ops: Seq<Operand>) -> bool {
    ops.len() == crate::instruction::arity(op) && ops.len() <= 3
        && crate::instruction::sig_ok(inst_of(op, ops))
}

use crate::instruction::Opcode;
use crate::instruction::sig_ok;
use crate::lexer::AsmParseErrSpec;
use crate::lexer::TokenSpec;

/// The context a token carries.
pub open spec fn tspec_context(t: TokenSpec) -> Context {
    match t {
        TokenSpec::Opcode(_, con) => con,
        TokenSpec::Pointer(_, con) => con,
        TokenSpec::Register(_, con) => con,
        TokenSpec::NumLiteral(_, con) => con,
        TokenSpec::StrLiteral(_, con) => con,
        TokenSpec::LabelUse(_, con) => con,
        TokenSpec::LabelDeclStart(_, con) => con,
        TokenSpec::LabelDeclEnd(con) => con,
        TokenSpec::Directive(_, con) => con,
    }
}

pub open spec fn tspec_is_operand(t: TokenSpec) -> bool {
    ||| t matches TokenSpec::Pointer(_, _)
    ||| t matches TokenSpec::Register(_, _)
    ||| t matches TokenSpec::NumLiteral(_, _)
    ||| t matches TokenSpec::LabelUse(_, _)
}

/// The operand an operand token carries, with its position.
pub open spec fn tspec_operand_pair(t: TokenSpec) -> (OperandSpec, Context) {
    match t {
        TokenSpec::Pointer(p, con) => (OperandSpec::Pointer(p), con),
        TokenSpec::Register(r, con) => (OperandSpec::Register(r), con),
        TokenSpec::NumLiteral(n, con) => (OperandSpec::NumLiteral(n), con),
        TokenSpec::LabelUse(n, con) => (OperandSpec::LabelUse(n), con),
        _ => (OperandSpec::NumLiteral(0), tspec_context(t)),
    }
}

/// The first non-operand token at or after `k`.
pub open spec fn operand_run_end(ts: Seq<TokenSpec>, k: int) -> int
    decreases ts.len() - k,
{
    if k < 0 || k >= ts.len() {
        ts.len() as int
    } else if tspec_is_operand(ts[k]) {
        operand_run_end(ts, k + 1)
    } else {
        k
    }
}

pub proof fn lemma_operand_run_end(ts: Seq<TokenSpec>, k: int)
    requires
        0 <= k <= ts.len(),
    ensures
        k <= operand_run_end(ts, k) <= ts.len(),
    decreases ts.len() - k,
{
    if k < ts.len() && tspec_is_operand(ts[k]) {
        lemma_operand_run_end(ts, k + 1);
    }
}

/// The run end is pinned by its two sides: operands before, a
/// non-operand (or the end) at it.
pub proof fn lemma_operand_run_end_is(ts: Seq<TokenSpec>, a: int, b: int)
    requires
        0 <= a <= b <= ts.len(),
        forall|m: int| a <= m < b ==> tspec_is_operand(#[trigger] ts[m]),
        b < ts.len() ==> !tspec_is_operand(ts[b]),
    ensures
        operand_run_end(ts, a) == b,
    decreases b - a,
{
    if a < b {
        lemma_operand_run_end_is(ts, a + 1, b);
    }
}

/// The signature check of one instruction, exactly as `create_instruction`
/// performs it: which error comes on which operand list, and the built
/// instruction on success.
pub open spec fn spec_create_instruction(
    op: Opcode,
    con: Context,
    ops: Seq<(OperandSpec, Context)>,
) -> Result<crate::instruction::InstructionSpec, AsmParseErrSpec> {
    if ops.len() > 3 {
        Err(AsmParseErrSpec::TooManyOperands(con))
    } else if ops.len() != crate::instruction::arity(op) {
        Err(
            AsmParseErrSpec::IncorrectOperandNo(
                crate::instruction::arity(op) as u8,
                ops.len() as u8,
                con,
            ),
        )
    } else {
        match op {
            Opcode::Igl => Err(
                AsmParseErrSpec::InvalidOperandConversion(TokenSpec::Opcode(op, con)),
            ),
            Opcode::Mov => {
                let (o1, c1) = ops[0];
                let (o2, c2) = ops[1];
                if !(o1 matches OperandSpec::Register(_) || o1
                    matches OperandSpec::Pointer(_)) {
                    Err(AsmParseErrSpec::InvalidOperand(o1, c1))
                } else if !(o2 matches OperandSpec::NumLiteral(_) || o2
                    matches OperandSpec::Pointer(_) || o2 matches OperandSpec::Register(
                    _,
                )) {
                    Err(AsmParseErrSpec::InvalidOperand(o2, c2))
                } else {
                    Ok(
                        crate::instruction::InstructionSpec {
                            inst: op,
                            op1: Some(o1),
                            op2: Some(o2),
                            op3: None,
                        },
                    )
                }
            },
            Opcode::Jmp => {
                let (o1, _c1) = ops[0];
                Ok(
                    crate::instruction::InstructionSpec {
                        inst: op,
                        op1: Some(o1),
                        op2: None,
                        op3: None,
                    },
                )
            },
            Opcode::Jmpf | Opcode::Jmpb => {
                let (o1, c1) = ops[0];
                if !(o1 matches OperandSpec::NumLiteral(_) || o1
                    matches OperandSpec::Register(_)) {
                    Err(AsmParseErrSpec::InvalidOperand(o1, c1))
                } else {
                    Ok(
                        crate::instruction::InstructionSpec {
                            inst: op,
                            op1: Some(o1),
                            op2: None,
                            op3: None,
                        },
                    )
                }
            },
            Opcode::Cmp | Opcode::Lt | Opcode::Gt | Opcode::Le | Opcode::Ge => {
                let (o1, c1) = ops[0];
                let (o2, c2) = ops[1];
                if !(o1 matches OperandSpec::NumLiteral(_) || o1
                    matches OperandSpec::Register(_)) {
                    Err(AsmParseErrSpec::InvalidOperand(o1, c1))
                } else if !(o2 matches OperandSpec::NumLiteral(_) || o2
                    matches OperandSpec::Register(_)) {
                    Err(AsmParseErrSpec::InvalidOperand(o2, c2))
                } else {
                    Ok(
                        crate::instruction::InstructionSpec {
                            inst: op,
                            op1: Some(o1),
                            op2: Some(o2),
                            op3: None,
                        },
                    )
                }
            },
            Opcode::Jeq | Opcode::Jne => {
                let (o1, c1) = ops[0];
                if !(o1 matches OperandSpec::Register(_)) {
                    Err(AsmParseErrSpec::InvalidOperand(o1, c1))
                } else {
                    Ok(
                        crate::instruction::InstructionSpec {
                            inst: op,
                            op1: Some(o1),
                            op2: None,
                            op3: None,
                        },
                    )
                }
            },
            Opcode::Add | Opcode::Sub | Opcode::Mul | Opcode::Div => {
                let (o1, c1) = ops[0];
                let (o2, c2) = ops[1];
                let (o3, c3) = ops[2];
                if !(o1 matches OperandSpec::Register(_)) {
                    Err(AsmParseErrSpec::InvalidOperand(o1, c1))
                } else if !(o2 matches OperandSpec::Register(_)) {
                    Err(AsmParseErrSpec::InvalidOperand(o2, c2))
                } else if !(o3 matches OperandSpec::Register(_)) {
                    Err(AsmParseErrSpec::InvalidOperand(o3, c3))
                } else {
                    Ok(
                        crate::instruction::InstructionSpec {
                            inst: op,
                            op1: Some(o1),
                            op2: Some(o2),
                            op3: Some(o3),
                        },
                    )
                }
            },
            Opcode::Aloc | Opcode::Dalc => {
                let (o1, c1) = ops[0];
                if !(o1 matches OperandSpec::NumLiteral(_) || o1
                    matches OperandSpec::Register(_)) {
                    Err(AsmParseErrSpec::InvalidOperand(o1, c1))
                } else {
                    Ok(
                        crate::instruction::InstructionSpec {
                            inst: op,
                            op1: Some(o1),
                            op2: None,
                            op3: None,
                        },
                    )
                }
            },
            _ => Ok(
                crate::instruction::InstructionSpec {
                    inst: op,
                    op1: None,
                    op2: None,
                    op3: None,
                },
            ),
        }
    }
}

/// The parser, one item per step: each opcode consumes its maximal
/// operand run; a string literal is accepted only right after a
/// `.string` directive; a stray operand token is refused. This function
/// is the meaning of `Parser::parse`.
pub open spec fn spec_parse_rec(ts: Seq<TokenSpec>, k: int, acc: Seq<ParsedSpec>) -> Result<
    Seq<ParsedSpec>,
    AsmParseErrSpec,
>
    decreases ts.len() - k,
{
    if k < 0 || k >= ts.len() {
        Ok(acc)
    } else {
        match ts[k] {
            TokenSpec::Opcode(op, con) => {
                let e = operand_run_end(ts, k + 1);
                let ops = ts.subrange(k + 1, e).map_values(
                    |t: TokenSpec| tspec_operand_pair(t),
                );
                proof {
                    lemma_operand_run_end(ts, k + 1);
                }
                match spec_create_instruction(op, con, ops) {
                    Ok(ins) => spec_parse_rec(ts, e, acc.push(ParsedSpec::Instruction(ins))),
                    Err(er) => Err(er),
                }
            },
            TokenSpec::StrLiteral(text, con) => {
                if acc.len() > 0 && (acc.last() matches ParsedSpec::Directive(
                    Directive::String,
                    _,
                )) {
                    spec_parse_rec(ts, k + 1, acc.push(ParsedSpec::StrLiteral(text, con)))
                } else {
                    Err(AsmParseErrSpec::UnexpectedToken(text, con))
                }
            },
            TokenSpec::LabelDeclStart(name, con) => spec_parse_rec(
                ts,
                k + 1,
                acc.push(ParsedSpec::LabelStart(name, con)),
            ),
            TokenSpec::LabelDeclEnd(con) => spec_parse_rec(
                ts,
                k + 1,
                acc.push(ParsedSpec::LabelEnd(con)),
            ),
            TokenSpec::Directive(d, con) => spec_parse_rec(
                ts,
                k + 1,
                acc.push(ParsedSpec::Directive(d, con)),
            ),
            _ => Err(AsmParseErrSpec::UnexpectedOperand(ts[k])),
        }
    }
}

/// The parsed items (or error) of a token stream.
pub open spec fn spec_parse(ts: Seq<TokenSpec>) -> Result<Seq<ParsedSpec>, AsmParseErrSpec> {
    spec_parse_rec(ts, 0, Seq::<ParsedSpec>::empty())
}

/// The parser; it owns no state between calls.
#[derive(Debug, Clone)]
pub struct Parser {}

impl Parser {
    pub fn new() -> Self {
        Parser {}
    }

    /// Groups a token stream into parsed items.
    ///
    /// Every instruction in the result satisfies the opcode's signature
    /// table (`sig_ok`). A string literal is accepted only right after a
    /// `.string` directive; a stray operand token at the top level is an
    /// `UnexpectedOperand`.
    #[verifier::loop_isolation(false)]
    #[verifier::rlimit(100)]
    pub fn parse(&mut self, tokens: Vec<Token>) -> (r: Result<Vec<Parsed>, AsmParseErr>)
        ensures
            (r matches Ok(items) ==> forall|k: int|
                0 <= k < items@.len() ==> ((#[trigger] items@[k]) matches Parsed::Instruction(
                    i,
                ) ==> sig_ok(i))),
            (match (r, spec_parse(crate::lexer::tokens_view(tokens@))) {
                (Ok(items), Ok(its)) => items_view(items@) == its,
                (Err(e), Err(es)) => e@ == es,
                _ => false,
            }),
    {
        let ghost orig = tokens@;
        let ghost tso = crate::lexer::tokens_view(orig);
        let ghost mut k: int = 0;
        let mut tokens = tokens;
        let mut items: Vec<Parsed> = Vec::new();
        proof {
            assert(orig.subrange(0, orig.len() as int) =~= orig);
            assert(items_view(items@) =~= Seq::<ParsedSpec>::empty());
        }
        loop
            invariant
                0 <= k <= orig.len(),
                tokens@ == orig.subrange(k, orig.len() as int),
                spec_parse(tso) == spec_parse_rec(tso, k, items_view(items@)),
                forall|m: int|
                    0 <= m < items@.len() ==> ((#[trigger] items@[m])
                        matches Parsed::Instruction(i) ==> sig_ok(i)),
            decreases tokens@.len(),
        {
            if tokens.len() == 0 {
                proof {
                    assert(spec_parse_rec(tso, k, items_view(items@)) == Ok::<
                        Seq<ParsedSpec>,
                        AsmParseErrSpec,
                    >(items_view(items@)));
                }
                return Ok(items);
            }
            let ghost av = items_view(items@);
            let t = tokens.remove(0);
            proof {
                assert(t == orig[k]);
                assert(t@ == tso[k]);
                assert(tokens@ =~= orig.subrange(k + 1, orig.len() as int));
            }
            match t {
                Token::Opcode(op, con) => {
                    let ghost before = tokens@;
                    let ops = self.get_operands(&mut tokens);
                    let ghost ll = ops@.len() as int;
                    proof {
                        let e = k + 1 + ll;
                        assert forall|m: int| k + 1 <= m < e implies tspec_is_operand(
                            #[trigger] tso[m],
                        ) by {
                            let x = m - (k + 1);
                            assert(before[x] == orig[m]);
                            assert(Operand::spec_of_token(before[x]) == Some(ops@[x].0));
                            assert(tso[m] == orig[m]@);
                        }
                        if e < orig.len() {
                            assert(tokens@[0] == before[ll]);
                            assert(before[ll] == orig[e]);
                            assert(!before[ll].spec_is_operand());
                            assert(tso[e] == before[ll]@);
                            assert(!tspec_is_operand(tso[e]));
                        }
                        lemma_operand_run_end_is(tso, k + 1, e);
                        let specops = tso.subrange(k + 1, e).map_values(
                            |tt: TokenSpec| tspec_operand_pair(tt),
                        );
                        assert forall|m: int| 0 <= m < ll implies pairs_view(ops@)[m]
                            == specops[m] by {
                            let tok = orig[k + 1 + m];
                            assert(before[m] == tok);
                            assert(Operand::spec_of_token(tok) == Some(ops@[m].0));
                            assert(ops@[m].1 == tok.spec_context());
                            assert(tso[k + 1 + m] == tok@);
                            match tok {
                                Token::Pointer(_, _) => {},
                                Token::Register(_, _) => {},
                                Token::NumLiteral(_, _) => {},
                                Token::LabelUse(_, _) => {},
                                _ => {
                                    assert(false);
                                },
                            }
                        }
                        assert(pairs_view(ops@) =~= specops);
                    }
                    match self.create_instruction(op, con, ops) {
                        Ok(i) => {
                            proof {
                                assert(spec_parse_rec(tso, k, av) == spec_parse_rec(
                                    tso,
                                    k + 1 + ll,
                                    av.push(ParsedSpec::Instruction(i@)),
                                ));
                            }
                            items.push(Parsed::Instruction(i));
                            proof {
                                assert(items_view(items@) =~= av.push(
                                    ParsedSpec::Instruction(i@),
                                ));
                                k = k + 1 + ll;
                            }
                        },
                        Err(e) => {
                            return Err(e);
                        },
                    }
                },
                Token::StrLiteral(text, con) => {
                    let mut after_string_directive = false;
                    if items.len() > 0 {
                        match &items[items.len() - 1] {
                            Parsed::Directive(Directive::String, _) => {
                                after_string_directive = true;
                            },
                            _ => {},
                        }
                    }
                    proof {
                        if items@.len() > 0 {
                            assert(av.last() == items@.last()@);
                        }
                        assert(after_string_directive == (av.len() > 0 && (av.last()
                            matches ParsedSpec::Directive(Directive::String, _))));
                    }
                    if !after_string_directive {
                        return Err(AsmParseErr::UnexpectedToken(text, con));
                    }
                    let item = Parsed::StrLiteral(text, con);
                    proof {
                        assert(spec_parse_rec(tso, k, av) == spec_parse_rec(
                            tso,
                            k + 1,
                            av.push(item@),
                        ));
                    }
                    items.push(item);
                    proof {
                        assert(items_view(items@) =~= av.push(
                            items@.last()@,
                        ));
                        k = k + 1;
                    }
                },
                Token::LabelDeclStart(name, con) => {
                    let item = Parsed::LabelStart(name, con);
                    proof {
                        assert(spec_parse_rec(tso, k, av) == spec_parse_rec(
                            tso,
                            k + 1,
                            av.push(item@),
                        ));
                    }
                    items.push(item);
                    proof {
                        assert(items_view(items@) =~= av.push(items@.last()@));
                        k = k + 1;
                    }
                },
                Token::LabelDeclEnd(con) => {
                    let item = Parsed::LabelEnd(con);
                    proof {
                        assert(spec_parse_rec(tso, k, av) == spec_parse_rec(
                            tso,
                            k + 1,
                            av.push(item@),
                        ));
                    }
                    items.push(item);
                    proof {
                        assert(items_view(items@) =~= av.push(items@.last()@));
                        k = k + 1;
                    }
                },
                Token::Directive(d, con) => {
                    let item = Parsed::Directive(d, con);
                    proof {
                        assert(spec_parse_rec(tso, k, av) == spec_parse_rec(
                            tso,
                            k + 1,
                            av.push(item@),
                        ));
                    }
                    items.push(item);
                    proof {
                        assert(items_view(items@) =~= av.push(items@.last()@));
                        k = k + 1;
                    }
                },
                other => {
                    return Err(AsmParseErr::UnexpectedOperand(other));
                },
            }
        }
    }

    /// Consumes the run of operand tokens at the head of the stream.
    #[verifier::loop_isolation(false)]
    fn get_operands(&mut self, tokens: &mut Vec<Token>) -> (r: Vec<(Operand, Context)>)
        ensures
            r@.len() <= old(tokens)@.len(),
            final(tokens)@ == old(tokens)@.subrange(
                r@.len() as int,
                old(tokens)@.len() as int,
            ),
            forall|k: int|
                0 <= k < r@.len() ==> (#[trigger] Operand::spec_of_token(old(tokens)@[k]))
                    == Some(r@[k].0),
            forall|k: int|
                0 <= k < r@.len() ==> (#[trigger] r@[k].1) == old(
                    tokens,
                )@[k].spec_context(),
            r@.len() < old(tokens)@.len() ==> !old(tokens)@[r@.len() as int].spec_is_operand(),
    {
        let ghost orig = tokens@;
        let mut out: Vec<(Operand, Context)> = Vec::new();
        loop
            invariant
                out@.len() <= orig.len(),
                tokens@ == orig.subrange(out@.len() as int, orig.len() as int),
                forall|k: int|
                    0 <= k < out@.len() ==> (#[trigger] Operand::spec_of_token(orig[k]))
                        == Some(out@[k].0),
                forall|k: int|
                    0 <= k < out@.len() ==> (#[trigger] out@[k].1)
                        == orig[k].spec_context(),
            decreases tokens@.len(),
        {
            if tokens.len() == 0 {
                return out;
            }
            if !tokens[0].is_operand() {
                return out;
            }
            let t = tokens.remove(0);
            let con = t.context();
            let ghost prev = out@.len() as int;
            match Operand::try_from(t) {
                Ok(op) => {
                    out.push((op, con));
                },
                Err(e) => {
                    // an operand token always converts
                    return out;
                },
            }
            proof {
                assert(tokens@ =~= orig.subrange(out@.len() as int, orig.len() as int));
            }
        }
    }

    /// Checks an operand list against the opcode's signature row and
    /// forms the instruction: `Ok` exactly when the count and the kinds
    /// match the table.
    fn create_instruction(&mut self, op: Opcode, con: Context, ops: Vec<(Operand, Context)>)
        -> (r: Result<Instruction, AsmParseErr>)
        ensures
            (r matches Ok(i) ==> i == inst_of(op, ops_of(ops@)) && sig_ok(i)),
            (r matches Ok(_)) == operands_match(op, ops_of(ops@)),
            (match (r, spec_create_instruction(op, con, pairs_view(ops@))) {
                (Ok(i), Ok(ispec)) => i@ == ispec,
                (Err(e), Err(es)) => e@ == es,
                _ => false,
            }),
    {
        let mut rest = ops;
        let len = rest.len();
        if len > 3 {
            return Err(AsmParseErr::TooManyOperands(con));
        }
        let expected: usize = match op {
            Opcode::Hlt => 0,
            Opcode::Mov => 2,
            Opcode::Jmp => 1,
            Opcode::Jmpf => 1,
            Opcode::Jmpb => 1,
            Opcode::Cmp => 2,
            Opcode::Lt => 2,
            Opcode::Gt => 2,
            Opcode::Le => 2,
            Opcode::Ge => 2,
            Opcode::Jeq => 1,
            Opcode::Jne => 1,
            Opcode::Aloc => 1,
            Opcode::Dalc => 1,
            Opcode::Add => 3,
            Opcode::Sub => 3,
            Opcode::Mul => 3,
            Opcode::Div => 3,
            _ => 0,
        };
        if len != expected {
            return Err(AsmParseErr::IncorrectOperandNo(expected as u8, len as u8, con));
        }
        match op {
            Opcode::Igl => {
                // an illegal opcode has no instruction form
                Err(AsmParseErr::InvalidOperandConversion(Token::Opcode(op, con)))
            },
            Opcode::Mov => {
                let (o1, c1) = rest.remove(0);
                let (o2, c2) = rest.remove(0);
                let ok1 = match &o1 {
                    Operand::Register(_) => true,
                    Operand::Pointer(_) => true,
                    _ => false,
                };
                if !ok1 {
                    return Err(AsmParseErr::InvalidOperand(o1, c1));
                }
                let ok2 = match &o2 {
                    Operand::NumLiteral(_) => true,
                    Operand::Pointer(_) => true,
                    Operand::Register(_) => true,
                    _ => false,
                };
                if !ok2 {
                    return Err(AsmParseErr::InvalidOperand(o2, c2));
                }
                Ok(Instruction::from_parsed(op, (Some(o1), Some(o2), None)))
            },
            Opcode::Jmp => {
                let (o1, _c1) = rest.remove(0);
                Ok(Instruction::from_parsed(op, (Some(o1), None, None)))
            },
            Opcode::Jmpf | Opcode::Jmpb => {
                let (o1, c1) = rest.remove(0);
                let ok1 = match &o1 {
                    Operand::NumLiteral(_) => true,
                    Operand::Register(_) => true,
                    _ => false,
                };
                if !ok1 {
                    return Err(AsmParseErr::InvalidOperand(o1, c1));
                }
                Ok(Instruction::from_parsed(op, (Some(o1), None, None)))
            },
            Opcode::Cmp | Opcode::Lt | Opcode::Gt | Opcode::Le | Opcode::Ge => {
                let (o1, c1) = rest.remove(0);
                let (o2, c2) = rest.remove(0);
                let ok1 = match &o1 {
                    Operand::NumLiteral(_) => true,
                    Operand::Register(_) => true,
                    _ => false,
                };
                if !ok1 {
                    return Err(AsmParseErr::InvalidOperand(o1, c1));
                }
                let ok2 = match &o2 {
                    Operand::NumLiteral(_) => true,
                    Operand::Register(_) => true,
                    _ => false,
                };
                if !ok2 {
                    return Err(AsmParseErr::InvalidOperand(o2, c2));
                }
                Ok(Instruction::from_parsed(op, (Some(o1), Some(o2), None)))
            },
            Opcode::Jeq | Opcode::Jne => {
                let (o1, c1) = rest.remove(0);
                let ok1 = match &o1 {
                    Operand::Register(_) => true,
                    _ => false,
                };
                if !ok1 {
                    return Err(AsmParseErr::InvalidOperand(o1, c1));
                }
                Ok(Instruction::from_parsed(op, (Some(o1), None, None)))
            },
            Opcode::Add | Opcode::Sub | Opcode::Mul | Opcode::Div => {
                let (o1, c1) = rest.remove(0);
                let (o2, c2) = rest.remove(0);
                let (o3, c3) = rest.remove(0);
                let ok1 = match &o1 {
                    Operand::Register(_) => true,
                    _ => false,
                };
                if !ok1 {
                    return Err(AsmParseErr::InvalidOperand(o1, c1));
                }
                let ok2 = match &o2 {
                    Operand::Register(_) => true,
                    _ => false,
                };
                if !ok2 {
                    return Err(AsmParseErr::InvalidOperand(o2, c2));
                }
                let ok3 = match &o3 {
                    Operand::Register(_) => true,
                    _ => false,
                };
                if !ok3 {
                    return Err(AsmParseErr::InvalidOperand(o3, c3));
                }
                Ok(Instruction::from_parsed(op, (Some(o1), Some(o2), Some(o3))))
            },
            Opcode::Aloc | Opcode::Dalc => {
                let (o1, c1) = rest.remove(0);
                let ok1 = match &o1 {
                    Operand::NumLiteral(_) => true,
                    Operand::Register(_) => true,
                    _ => false,
                };
                if !ok1 {
                    return Err(AsmParseErr::InvalidOperand(o1, c1));
                }
                Ok(Instruction::from_parsed(op, (Some(o1), None, None)))
            },
            _ => Ok(Instruction::from_parsed(op, (None, None, None))),
        }
    }
}

} // verus!
