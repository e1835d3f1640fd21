//! The single-line front end the interactive shell feeds.
//!
//! A line is either a dot-command (`.info`, `.registers`, `.program`,
//! `.quit`, `.help`) or one instruction, lowered to its canonical bytes
//! through the same lexer, parser and emitter the assembler uses. The
//! shell itself — reading lines, printing state — stays outside the
//! library; it appends the bytes and single-steps the VM.

use vstd::prelude::*;

verus! {

use crate::assembler::Symbol;
use crate::assembler::SymbolSpec;
use crate::lexer::AsmParseErr;
use crate::lexer::is_space;
use crate::strings::chars_of_str;
use crate::strings::copy_range;
use crate::strings::string_eq_str;
use crate::strings::string_of_chars;

/// What one input line amounts to.
#[derive(Debug, Clone, PartialEq)]
pub enum Executable {
    Instruction(Vec<u8>),
    Command(ReplCmd),
}

/// A dot-command of the shell.
#[derive(Debug, Clone, Copy, PartialEq, Eq, Structural)]
pub enum ReplCmd {
    Info,
    Registers,
    Program,
    Quit,
    Help,
}

/// Everything that can go wrong while reading one line.
#[derive(Debug, Clone, PartialEq)]
pub enum AsmLexErr {
    ReadError,
    SyntaxError,
    UnexpectedOperand(String),
    IncorrectOperandNo(u8, u8),
    InvalidRegister(u32),
    CouldNotParse(String),
}

/// A line-level error as the contracts speak of it.
pub ghost enum AsmLexErrSpec {
    ReadError,
    SyntaxError,
    UnexpectedOperand(Seq<char>),
    IncorrectOperandNo(u8, u8),
    InvalidRegister(u32),
    CouldNotParse(Seq<char>),
}

impl View for AsmLexErr {
    type V = AsmLexErrSpec;

    open spec fn view(&self) -> AsmLexErrSpec {
        match self {
            AsmLexErr::ReadError => AsmLexErrSpec::ReadError,
            AsmLexErr::SyntaxError => AsmLexErrSpec::SyntaxError,
            AsmLexErr::UnexpectedOperand(t) => AsmLexErrSpec::UnexpectedOperand(t@),
            AsmLexErr::IncorrectOperandNo(a, b) => AsmLexErrSpec::IncorrectOperandNo(
                *a,
                *b,
            ),
            AsmLexErr::InvalidRegister(n) => AsmLexErrSpec::InvalidRegister(*n),
            AsmLexErr::CouldNotParse(t) => AsmLexErrSpec::CouldNotParse(t@),
        }
    }
}

/// The line-level reading of a front-end error.
pub open spec fn spec_line_err(e: crate::lexer::AsmParseErrSpec) -> AsmLexErrSpec {
    match e {
        crate::lexer::AsmParseErrSpec::IncorrectOperandNo(a, b, _) =>
            AsmLexErrSpec::IncorrectOperandNo(a, b),
        crate::lexer::AsmParseErrSpec::InvalidRegister(n, _) =>
            AsmLexErrSpec::InvalidRegister(n),
        crate::lexer::AsmParseErrSpec::CouldNotParse(t, _) =>
            AsmLexErrSpec::CouldNotParse(t),
        crate::lexer::AsmParseErrSpec::UnexpectedToken(t, _) =>
            AsmLexErrSpec::UnexpectedOperand(t),
        _ => AsmLexErrSpec::SyntaxError,
    }
}

fn line_err(e: AsmParseErr) -> (r: AsmLexErr)
    ensures
        r@ == spec_line_err(e@),
{
    match e {
        AsmParseErr::IncorrectOperandNo(a, b, _) => AsmLexErr::IncorrectOperandNo(a, b),
        AsmParseErr::InvalidRegister(n, _) => AsmLexErr::InvalidRegister(n),
        AsmParseErr::CouldNotParse(t, _) => AsmLexErr::CouldNotParse(t),
        AsmParseErr::UnexpectedToken(t, _) => AsmLexErr::UnexpectedOperand(t),
        _ => AsmLexErr::SyntaxError,
    }
}

/// The index of the first whitespace character at or after `k`.
pub open spec fn space_from(s: Seq<char>, k: int) -> int
    decreases s.len() - k,
{
    if k < 0 || k >= s.len() {
        s.len() as int
    } else if is_space(s[k]) {
        k
    } else {
        space_from(s, k + 1)
    }
}

/// The command a word names, if any.
pub open spec fn spec_command_of(w: Seq<char>) -> Option<ReplCmd> {
    if w == ".info"@ {
        Some(ReplCmd::Info)
    } else if w == ".registers"@ {
        Some(ReplCmd::Registers)
    } else if w == ".program"@ {
        Some(ReplCmd::Program)
    } else if w == ".quit"@ {
        Some(ReplCmd::Quit)
    } else if w == ".help"@ {
        Some(ReplCmd::Help)
    } else {
        None
    }
}

/// The bytes of a line's parsed items, emitted with no labels in scope:
/// a line holds exactly one instruction, or nothing comes of it.
pub open spec fn spec_line_bytes(items: Seq<crate::parser::ParsedSpec>) -> Option<Seq<u8>> {
    if items.len() == 1 {
        match items[0] {
            crate::parser::ParsedSpec::Instruction(ins) => crate::assembler::emit_inst_view(
                ins,
                Seq::<SymbolSpec>::empty(),
            ),
            _ => None,
        }
    } else {
        None
    }
}

/// State the line scanner keeps between characters.
#[allow(dead_code)]
#[derive(Debug, Clone, Copy)]
pub enum Token {
    LineStart,
    Opcode(u8),
    Pointer(usize),
    Register(usize),
    Literal(i32),
}

/// The single-line lexer the shell drives.
pub struct AsmLexer {
    pos: usize,
    state: Token,
}

impl AsmLexer {
    pub fn new() -> Self {
        Self { pos: 0, state: Token::LineStart }
    }

    /// Reads one line: a dot-command, exactly one instruction's bytes,
    /// or nothing for a blank line or an unknown command (the shell
    /// prints the hint). The line goes through the assembler's own
    /// lexer, parser and emitter, with no labels in scope; a line that
    /// holds anything but a single instruction is refused.
    #[verifier::loop_isolation(false)]
    pub fn parse(&mut self, line: String) -> (r: Result<Option<Executable>, AsmLexErr>)
        requires
            line@.len() < 0xFFFF_FFFF,
        ensures
            ({
                let t = crate::assembler::trim_front(line@);
                let w = t.subrange(0, space_from(t, 0));
                (t.len() > 0 && t[0] == '.') ==> r == (match spec_command_of(w) {
                    Some(c) => Ok::<Option<Executable>, AsmLexErr>(
                        Some(Executable::Command(c)),
                    ),
                    None => Ok::<Option<Executable>, AsmLexErr>(None),
                })
            }),
            (r matches Ok(Some(e)) && e matches Executable::Instruction(_)) ==> ({
                let t = crate::assembler::trim_front(line@);
                !(t.len() > 0 && t[0] == '.')
            }),
            crate::assembler::trim_front(line@).len() == 0 ==> r == Ok::<
                Option<Executable>,
                AsmLexErr,
            >(None),
            ({
                let t = crate::assembler::trim_front(line@);
                (t.len() > 0 && t[0] != '.') ==> (match crate::lexer::spec_tokenize(
                    line@,
                ) {
                    Err(es) => (r matches Err(e) && e@ == spec_line_err(es)),
                    Ok(ts) => (match crate::parser::spec_parse(ts) {
                        Err(es) => (r matches Err(e) && e@ == spec_line_err(es)),
                        Ok(items) => (match spec_line_bytes(items) {
                            Some(bs) => (r matches Ok(o) && o matches Some(x) && x
                                matches Executable::Instruction(b) && b@ == bs),
                            None => r == Err::<Option<Executable>, AsmLexErr>(
                                AsmLexErr::SyntaxError,
                            ),
                        }),
                    }),
                })
            }),
    {
        let cs = chars_of_str(line.as_str());
        let n = cs.len();
        proof {
            assert(cs@.subrange(0, n as int) =~= cs@);
        }
        let mut a: usize = 0;
        while a < n && crate::lexer::char_is_space(cs[a])
            invariant
                a <= n,
                n == cs@.len(),
                cs@ == line@,
                crate::assembler::trim_front(line@) == crate::assembler::trim_front(
                    cs@.subrange(a as int, n as int),
                ),
            decreases n - a,
        {
            proof {
                assert(cs@.subrange(a as int, n as int).drop_first() =~= cs@.subrange(
                    a + 1,
                    n as int,
                ));
            }
            a += 1;
        }
        let ghost t = crate::assembler::trim_front(line@);
        proof {
            assert(t == cs@.subrange(a as int, n as int));
        }
        if a == n {
            return Ok(None);
        }
        if cs[a] == '.' {
            // a dot-command: take the first word
            let mut e: usize = a;
            while e < n && !crate::lexer::char_is_space(cs[e])
                invariant
                    a <= e <= n,
                    n == cs@.len(),
                    cs@ == line@,
                    t == cs@.subrange(a as int, n as int),
                    space_from(t, 0) == space_from(t, e - a),
                    forall|k: int| a <= k < e ==> !is_space(#[trigger] cs@[k]),
                decreases n - e,
            {
                proof {
                    assert(t[e - a] == cs@[e as int]);
                }
                e += 1;
            }
            proof {
                if e < n {
                    assert(t[e - a] == cs@[e as int]);
                }
                assert(space_from(t, 0) == e - a);
            }
            let word = string_of_chars(copy_range(&cs, a, e).as_slice());
            proof {
                assert(word@ =~= t.subrange(0, space_from(t, 0)));
            }
            match self.parse_command(&word) {
                Ok(cmd) => {
                    return Ok(Some(Executable::Command(cmd)));
                },
                Err(()) => {
                    return Ok(None);
                },
            }
        }
        // one instruction: lex, parse, emit with no labels in scope
        let mut lexer = crate::lexer::Lexer::new();
        let tokens = match lexer.tokenize(line.as_str()) {
            Ok(toks) => toks,
            Err(e) => {
                return Err(line_err(e));
            },
        };
        let mut parser = crate::parser::Parser::new();
        let items = match parser.parse(tokens) {
            Ok(items) => items,
            Err(e) => {
                return Err(line_err(e));
            },
        };
        let ghost iv = crate::parser::items_view(items@);
        let no_symbols: Vec<Symbol> = Vec::new();
        proof {
            assert(crate::assembler::syms_view(no_symbols@) =~= Seq::<SymbolSpec>::empty());
        }
        // the shell feeds exactly one instruction per line
        if items.len() != 1 {
            return Err(AsmLexErr::SyntaxError);
        }
        proof {
            assert(iv[0] == items@[0]@);
        }
        match &items[0] {
            crate::parser::Parsed::Instruction(i) => {
                match crate::assembler::emit_one(i, &no_symbols) {
                    Ok(b) => {
                        proof {
                            crate::assembler::lemma_emit_inst_is_view(
                                *i,
                                Seq::<SymbolSpec>::empty(),
                            );
                        }
                        Ok(Some(Executable::Instruction(b)))
                    },
                    Err(_) => {
                        proof {
                            crate::assembler::lemma_emit_inst_is_view(
                                *i,
                                Seq::<SymbolSpec>::empty(),
                            );
                        }
                        Err(AsmLexErr::SyntaxError)
                    },
                }
            },
            _ => Err(AsmLexErr::SyntaxError),
        }
    }

    /// The dot-command a word names; anything else is refused.
    fn parse_command(&mut self, word: &String) -> (r: Result<ReplCmd, ()>)
        ensures
            r == (match spec_command_of(word@) {
                Some(c) => Ok::<ReplCmd, ()>(c),
                None => Err::<ReplCmd, ()>(()),
            }),
    {
        if string_eq_str(word, ".info") {
            Ok(ReplCmd::Info)
        } else if string_eq_str(word, ".registers") {
            Ok(ReplCmd::Registers)
        } else if string_eq_str(word, ".program") {
            Ok(ReplCmd::Program)
        } else if string_eq_str(word, ".quit") {
            Ok(ReplCmd::Quit)
        } else if string_eq_str(word, ".help") {
            Ok(ReplCmd::Help)
        } else {
            Err(())
        }
    }
}

} // verus!
