//! The lexical analyser for Verdigris assembly text.
//!
//! `Lexer::tokenize` turns raw assembly text into a stream of
//! position-tagged tokens; the parser then groups those into instructions.

use vstd::prelude::*;

verus! {

use crate::instruction::Opcode;
use crate::parser::Operand;
use crate::strings::str_eq_str;

/// A source position: 1-based line and column.
#[derive(Debug, Clone, Copy, PartialEq, Eq, Structural)]
pub struct Context {
    pub line: u32,
    pub column: u32,
}

impl Context {
    pub fn from(line: u32, col: u32) -> (r: Self)
        ensures
            r.line == line,
            r.column == col,
    {
        Context { line, column: col }
    }
}

/// An assembler directive: `.code`, `.data`, `.string` or `.global`.
#[derive(Debug, Clone, Copy, PartialEq, Eq, Structural)]
pub enum Directive {
    Code,
    Data,
    String,
    Global,
}

impl Directive {
    /// Maps a directive word (without the leading dot) to its kind.
    pub fn try_from(from: String, con: Context) -> (r: Result<Self, AsmParseErr>)
        ensures
            r == (if from@ == "code"@ {
                Ok::<Directive, AsmParseErr>(Directive::Code)
            } else if from@ == "data"@ {
                Ok::<Directive, AsmParseErr>(Directive::Data)
            } else if from@ == "string"@ {
                Ok::<Directive, AsmParseErr>(Directive::String)
            } else if from@ == "global"@ {
                Ok::<Directive, AsmParseErr>(Directive::Global)
            } else {
                Err::<Directive, AsmParseErr>(AsmParseErr::InvalidDirective(from, con))
            }),
    {
        if crate::strings::string_eq_str(&from, "code") {
            Ok(Directive::Code)
        } else if crate::strings::string_eq_str(&from, "data") {
            Ok(Directive::Data)
        } else if crate::strings::string_eq_str(&from, "string") {
            Ok(Directive::String)
        } else if crate::strings::string_eq_str(&from, "global") {
            Ok(Directive::Global)
        } else {
            Err(AsmParseErr::InvalidDirective(from, con))
        }
    }
}

/// A token of the assembly surface, tagged with where it began.
#[derive(Debug, Clone, PartialEq)]
pub enum Token {
    Opcode(Opcode, Context),
    Pointer(String, Context),
    Register(u8, Context),
    NumLiteral(i32, Context),
    StrLiteral(String, Context),
    LabelUse(String, Context),
    LabelDeclStart(String, Context),
    LabelDeclEnd(Context),
    Directive(Directive, Context),
}

impl Token {
    /// The source position where the token began.
    pub open spec fn spec_context(&self) -> Context {
        match *self {
            Token::Opcode(_, con) => con,
            Token::Pointer(_, con) => con,
            Token::Register(_, con) => con,
            Token::NumLiteral(_, con) => con,
            Token::StrLiteral(_, con) => con,
            Token::LabelUse(_, con) => con,
            Token::LabelDeclStart(_, con) => con,
            Token::LabelDeclEnd(con) => con,
            Token::Directive(_, con) => con,
        }
    }

    pub fn context(&self) -> (r: Context)
        ensures
            r == self.spec_context(),
    {
        match self {
            Token::Opcode(_, con) => *con,
            Token::Pointer(_, con) => *con,
            Token::Register(_, con) => *con,
            Token::NumLiteral(_, con) => *con,
            Token::StrLiteral(_, con) => *con,
            Token::LabelUse(_, con) => *con,
            Token::LabelDeclStart(_, con) => *con,
            Token::LabelDeclEnd(con) => *con,
            Token::Directive(_, con) => *con,
        }
    }

    /// Whether the token can stand as an instruction operand.
    pub open spec fn spec_is_operand(&self) -> bool {
        match *self {
            Token::Pointer(_, _) => true,
            Token::Register(_, _) => true,
            Token::NumLiteral(_, _) => true,
            Token::LabelUse(_, _) => true,
            _ => false,
        }
    }

    pub fn is_operand(&self) -> (r: bool)
        ensures
            r == self.spec_is_operand(),
    {
        match self {
            Token::Pointer(_, _) => true,
            Token::Register(_, _) => true,
            Token::NumLiteral(_, _) => true,
            Token::LabelUse(_, _) => true,
            _ => false,
        }
    }
}

/// A token as the contracts speak of it: text payloads as characters.
pub ghost enum TokenSpec {
    Opcode(Opcode, Context),
    Pointer(Seq<char>, Context),
    Register(u8, Context),
    NumLiteral(i32, Context),
    StrLiteral(Seq<char>, Context),
    LabelUse(Seq<char>, Context),
    LabelDeclStart(Seq<char>, Context),
    LabelDeclEnd(Context),
    Directive(Directive, Context),
}

impl View for Token {
    type V = TokenSpec;

    open spec fn view(&self) -> TokenSpec {
        match self {
            Token::Opcode(op, con) => TokenSpec::Opcode(*op, *con),
            Token::Pointer(p, con) => TokenSpec::Pointer(p@, *con),
            Token::Register(r, con) => TokenSpec::Register(*r, *con),
            Token::NumLiteral(n, con) => TokenSpec::NumLiteral(*n, *con),
            Token::StrLiteral(t, con) => TokenSpec::StrLiteral(t@, *con),
            Token::LabelUse(n, con) => TokenSpec::LabelUse(n@, *con),
            Token::LabelDeclStart(n, con) => TokenSpec::LabelDeclStart(n@, *con),
            Token::LabelDeclEnd(con) => TokenSpec::LabelDeclEnd(*con),
            Token::Directive(d, con) => TokenSpec::Directive(*d, *con),
        }
    }
}

pub open spec fn tokens_view(v: Seq<Token>) -> Seq<TokenSpec> {
    v.map_values(|t: Token| t@)
}

/// The word a directive kind is written as, after the leading dot.
pub open spec fn directive_word(d: Directive) -> Seq<char> {
    match d {
        Directive::Code => "code"@,
        Directive::Data => "data"@,
        Directive::String => "string"@,
        Directive::Global => "global"@,
    }
}

/// Everything that can go wrong while lexing or parsing assembly text.
#[derive(Debug, Clone, PartialEq)]
pub enum AsmParseErr {
    UnexpectedOperand(Token),
    UnexpectedToken(String, Context),
    UnexpectedEOF(Context),
    IncorrectOperandNo(u8, u8, Context),
    TooManyOperands(Context),
    InvalidRegister(u32, Context),
    CouldNotParse(String, Context),
    InvalidDirective(String, Context),
    InvalidOperand(Operand, Context),
    InvalidOperandConversion(Token),
}

/// A front-end error as the contracts speak of it.
pub ghost enum AsmParseErrSpec {
    UnexpectedOperand(TokenSpec),
    UnexpectedToken(Seq<char>, Context),
    UnexpectedEOF(Context),
    IncorrectOperandNo(u8, u8, Context),
    TooManyOperands(Context),
    InvalidRegister(u32, Context),
    CouldNotParse(Seq<char>, Context),
    InvalidDirective(Seq<char>, Context),
    InvalidOperand(crate::parser::OperandSpec, Context),
    InvalidOperandConversion(TokenSpec),
}

impl View for AsmParseErr {
    type V = AsmParseErrSpec;

    open spec fn view(&self) -> AsmParseErrSpec {
        match self {
            AsmParseErr::UnexpectedOperand(t) => AsmParseErrSpec::UnexpectedOperand(t@),
            AsmParseErr::UnexpectedToken(t, con) => AsmParseErrSpec::UnexpectedToken(
                t@,
                *con,
            ),
            AsmParseErr::UnexpectedEOF(con) => AsmParseErrSpec::UnexpectedEOF(*con),
            AsmParseErr::IncorrectOperandNo(a, b, con) => AsmParseErrSpec::IncorrectOperandNo(
                *a,
                *b,
                *con,
            ),
            AsmParseErr::TooManyOperands(con) => AsmParseErrSpec::TooManyOperands(*con),
            AsmParseErr::InvalidRegister(n, con) => AsmParseErrSpec::InvalidRegister(
                *n,
                *con,
            ),
            AsmParseErr::CouldNotParse(t, con) => AsmParseErrSpec::CouldNotParse(t@, *con),
            AsmParseErr::InvalidDirective(t, con) => AsmParseErrSpec::InvalidDirective(
                t@,
                *con,
            ),
            AsmParseErr::InvalidOperand(o, con) => AsmParseErrSpec::InvalidOperand(
                o@,
                *con,
            ),
            AsmParseErr::InvalidOperandConversion(t) => AsmParseErrSpec::InvalidOperandConversion(
                t@,
            ),
        }
    }
}

// ---------------------------------------------------------------------------
// Source positions.
// ---------------------------------------------------------------------------

/// Whitespace as the assembly surface knows it: the ASCII space, tab,
/// carriage return and newline. Other Unicode whitespace is an ordinary
/// word character here.
pub open spec fn is_space(c: char) -> bool {
    c == ' ' || c == '\t' || c == '\r' || c == '\n'
}

pub fn char_is_space(c: char) -> (r: bool)
    ensures
        r == is_space(c),
{
    c == ' ' || c == '\t' || c == '\r' || c == '\n'
}

/// The 1-based line of the character at index `i`: one more than the
/// number of newlines before it.
pub open spec fn line_at(s: Seq<char>, i: int) -> int
    decreases i,
{
    if i <= 0 {
        1
    } else if s[i - 1] == '\n' {
        line_at(s, i - 1) + 1
    } else {
        line_at(s, i - 1)
    }
}

/// The 1-based column of the character at index `i`: how far it stands
/// after the last newline.
pub open spec fn col_at(s: Seq<char>, i: int) -> int
    decreases i,
{
    if i <= 0 {
        1
    } else if s[i - 1] == '\n' {
        1
    } else {
        col_at(s, i - 1) + 1
    }
}

pub proof fn lemma_pos_bounds(s: Seq<char>, i: int)
    requires
        0 <= i,
    ensures
        1 <= line_at(s, i) <= i + 1,
        1 <= col_at(s, i) <= i + 1,
    decreases i,
{
    if i > 0 {
        lemma_pos_bounds(s, i - 1);
    }
}

/// Over a span without newlines the line is kept and the column advances
/// by the span's length.
pub proof fn lemma_pos_no_newline(s: Seq<char>, i: int, j: int)
    requires
        0 <= i <= j,
        forall|k: int| i <= k < j ==> #[trigger] s[k] != '\n',
    ensures
        line_at(s, j) == line_at(s, i),
        col_at(s, j) == col_at(s, i) + (j - i),
    decreases j - i,
{
    if i < j {
        lemma_pos_no_newline(s, i, j - 1);
    }
}

/// The position of index `i`, as a `Context`.
pub open spec fn ctx_at(s: Seq<char>, i: int) -> Context {
    Context { line: line_at(s, i) as u32, column: col_at(s, i) as u32 }
}

// ---------------------------------------------------------------------------
// The lexer as a function of the text.
// ---------------------------------------------------------------------------

/// The end of the run of non-whitespace characters starting at `k`.
pub open spec fn nonspace_end(s: Seq<char>, k: int) -> int
    decreases s.len() - k,
{
    if k < 0 || k >= s.len() {
        s.len() as int
    } else if is_space(s[k]) {
        k
    } else {
        nonspace_end(s, k + 1)
    }
}

pub proof fn lemma_nonspace_end(s: Seq<char>, k: int)
    requires
        0 <= k <= s.len(),
    ensures
        k <= nonspace_end(s, k) <= s.len(),
    decreases s.len() - k,
{
    if k < s.len() && !is_space(s[k]) {
        lemma_nonspace_end(s, k + 1);
    }
}

/// The end of the run of bare-word characters (neither whitespace nor a
/// colon) starting at `k`.
pub open spec fn word_end(s: Seq<char>, k: int) -> int
    decreases s.len() - k,
{
    if k < 0 || k >= s.len() {
        s.len() as int
    } else if is_space(s[k]) || s[k] == ':' {
        k
    } else {
        word_end(s, k + 1)
    }
}

pub proof fn lemma_word_end(s: Seq<char>, k: int)
    requires
        0 <= k <= s.len(),
    ensures
        k <= word_end(s, k) <= s.len(),
    decreases s.len() - k,
{
    if k < s.len() && !(is_space(s[k]) || s[k] == ':') {
        lemma_word_end(s, k + 1);
    }
}

/// The first closing bracket at or after `k`.
pub open spec fn close_bracket_from(s: Seq<char>, k: int) -> Option<int>
    decreases s.len() - k,
{
    if k < 0 || k >= s.len() {
        None
    } else if s[k] == ']' {
        Some(k)
    } else {
        close_bracket_from(s, k + 1)
    }
}

pub proof fn lemma_close_bracket_from(s: Seq<char>, k: int)
    requires
        0 <= k,
    ensures
        (match close_bracket_from(s, k) {
            Some(c) => k <= c < s.len(),
            None => true,
        }),
    decreases s.len() - k,
{
    if 0 <= k < s.len() && s[k] != ']' {
        lemma_close_bracket_from(s, k + 1);
    }
}

/// A string literal body from `k` on: the escape-processed payload up to
/// the first unescaped quote and the index just past that quote, or the
/// index where the input ended too soon.
pub open spec fn strlit_scan(s: Seq<char>, k: int) -> Result<(Seq<char>, int), int>
    decreases s.len() - k,
{
    if k < 0 || k >= s.len() {
        Err(s.len() as int)
    } else if s[k] == '"' {
        Ok((Seq::<char>::empty(), k + 1))
    } else if s[k] == '\\' {
        if k + 1 >= s.len() {
            Err(k)
        } else {
            match strlit_scan(s, k + 2) {
                Ok((p, j)) => Ok((seq![s[k + 1]] + p, j)),
                Err(e) => Err(e),
            }
        }
    } else {
        match strlit_scan(s, k + 1) {
            Ok((p, j)) => Ok((seq![s[k]] + p, j)),
            Err(e) => Err(e),
        }
    }
}

pub proof fn lemma_strlit_scan(s: Seq<char>, k: int)
    requires
        0 <= k <= s.len(),
    ensures
        (match strlit_scan(s, k) {
            Ok((p, j)) => k < j <= s.len(),
            Err(e) => k <= e <= s.len(),
        }),
    decreases s.len() - k,
{
    if 0 <= k < s.len() {
        if s[k] == '"' {
        } else if s[k] == '\\' {
            if k + 1 < s.len() {
                lemma_strlit_scan(s, k + 2);
            }
        } else {
            lemma_strlit_scan(s, k + 1);
        }
    }
}

/// The lexer, one token per step: scans the text from index `i` with the
/// tokens read so far in `acc`. This function is the meaning of
/// `Lexer::tokenize`.
pub open spec fn spec_lex(s: Seq<char>, i: int, acc: Seq<TokenSpec>) -> Result<
    Seq<TokenSpec>,
    AsmParseErrSpec,
>
    decreases s.len() - i,
{
    if i < 0 || i >= s.len() {
        Ok(acc)
    } else {
        let c = s[i];
        let ctx = ctx_at(s, i);
        if is_space(c) {
            spec_lex(s, i + 1, acc)
        } else if c == '$' {
            let j = nonspace_end(s, i + 1);
            let text = s.subrange(i + 1, j);
            proof {
                lemma_nonspace_end(s, i + 1);
            }
            match crate::codec::spec_parse_u32(text) {
                Some(n) => {
                    if n > 31 {
                        Err(AsmParseErrSpec::InvalidRegister(n, ctx))
                    } else {
                        spec_lex(s, j, acc.push(TokenSpec::Register(n as u8, ctx)))
                    }
                },
                None => Err(AsmParseErrSpec::CouldNotParse(text, ctx)),
            }
        } else if c == '[' {
            match close_bracket_from(s, i + 1) {
                Some(cb) => {
                    proof {
                        lemma_close_bracket_from(s, i + 1);
                    }
                    spec_lex(
                        s,
                        cb + 1,
                        acc.push(TokenSpec::Pointer(s.subrange(i + 1, cb), ctx)),
                    )
                },
                None => Err(AsmParseErrSpec::UnexpectedEOF(ctx_at(s, s.len() as int))),
            }
        } else if c == '{' {
            if acc.len() > 0 && (acc.last() matches TokenSpec::LabelDeclStart(_, _)) {
                spec_lex(s, i + 1, acc)
            } else {
                Err(AsmParseErrSpec::UnexpectedToken("{"@, ctx))
            }
        } else if c == '}' {
            spec_lex(s, i + 1, acc.push(TokenSpec::LabelDeclEnd(ctx)))
        } else if c == '@' {
            let j = nonspace_end(s, i + 1);
            proof {
                lemma_nonspace_end(s, i + 1);
            }
            spec_lex(s, j, acc.push(TokenSpec::LabelUse(s.subrange(i + 1, j), ctx)))
        } else if c == '"' {
            match strlit_scan(s, i + 1) {
                Ok((payload, next)) => {
                    proof {
                        lemma_strlit_scan(s, i + 1);
                    }
                    spec_lex(s, next, acc.push(TokenSpec::StrLiteral(payload, ctx)))
                },
                Err(e) => Err(AsmParseErrSpec::UnexpectedEOF(ctx_at(s, e))),
            }
        } else if c == '.' {
            let j = nonspace_end(s, i + 1);
            let w = s.subrange(i + 1, j);
            proof {
                lemma_nonspace_end(s, i + 1);
            }
            if w == "code"@ {
                spec_lex(s, j, acc.push(TokenSpec::Directive(Directive::Code, ctx)))
            } else if w == "data"@ {
                spec_lex(s, j, acc.push(TokenSpec::Directive(Directive::Data, ctx)))
            } else if w == "string"@ {
                spec_lex(s, j, acc.push(TokenSpec::Directive(Directive::String, ctx)))
            } else if w == "global"@ {
                spec_lex(s, j, acc.push(TokenSpec::Directive(Directive::Global, ctx)))
            } else {
                Err(AsmParseErrSpec::InvalidDirective(w, ctx))
            }
        } else if c == ':' {
            spec_lex(
                s,
                i + 1,
                acc.push(TokenSpec::LabelDeclStart(Seq::<char>::empty(), ctx)),
            )
        } else {
            let j = word_end(s, i);
            let w = s.subrange(i, j);
            proof {
                lemma_word_end(s, i + 1);
            }
            if j < s.len() && s[j] == ':' {
                spec_lex(s, j + 1, acc.push(TokenSpec::LabelDeclStart(w, ctx)))
            } else {
                match crate::codec::spec_parse_i32(w) {
                    Some(n) => spec_lex(s, j, acc.push(TokenSpec::NumLiteral(n, ctx))),
                    None => {
                        match crate::instruction::spec_opcode_of_word(w) {
                            Some(op) => spec_lex(
                                s,
                                j,
                                acc.push(TokenSpec::Opcode(op, ctx)),
                            ),
                            None => Err(AsmParseErrSpec::UnexpectedToken(w, ctx)),
                        }
                    },
                }
            }
        }
    }
}

/// The token stream (or error) of a text.
pub open spec fn spec_tokenize(s: Seq<char>) -> Result<Seq<TokenSpec>, AsmParseErrSpec> {
    spec_lex(s, 0, Seq::<TokenSpec>::empty())
}

// ---------------------------------------------------------------------------
// Where a token stands in the input.
// ---------------------------------------------------------------------------

/// The token's text begins at index `i` of the input.
pub open spec fn token_starts_at(s: Seq<char>, i: int, t: Token) -> bool {
    match t {
        Token::Opcode(op, _) => op != crate::instruction::Opcode::Igl && i
            + crate::instruction::mnemonic(op).len() <= s.len() && s.subrange(
            i,
            i + crate::instruction::mnemonic(op).len(),
        ) == crate::instruction::mnemonic(op),
        Token::Pointer(p, _) => s[i] == '[' && i + 1 + p@.len() <= s.len() && s.subrange(
            i + 1,
            i + 1 + p@.len(),
        ) == p@,
        Token::Register(_, _) => s[i] == '$',
        Token::NumLiteral(n, _) => exists|j: int|
            i < j <= s.len() && crate::codec::spec_parse_i32(#[trigger] s.subrange(i, j))
                == Some(n),
        Token::StrLiteral(_, _) => s[i] == '"',
        Token::LabelUse(name, _) => s[i] == '@' && i + 1 + name@.len() <= s.len()
            && s.subrange(i + 1, i + 1 + name@.len()) == name@,
        Token::LabelDeclStart(name, _) => i + name@.len() < s.len() && s.subrange(
            i,
            i + name@.len(),
        ) == name@ && s[i + name@.len()] == ':',
        Token::LabelDeclEnd(_) => s[i] == '}',
        Token::Directive(d, _) => s[i] == '.' && i + 1 + directive_word(d).len() <= s.len()
            && s.subrange(i + 1, i + 1 + directive_word(d).len()) == directive_word(d),
    }
}

/// The token's reported position points at its first character.
pub open spec fn token_placed(s: Seq<char>, t: Token) -> bool {
    exists|i: int|
        0 <= i < s.len() && #[trigger] token_starts_at(s, i, t) && t.spec_context().line
            == line_at(s, i) && t.spec_context().column == col_at(s, i)
}

// ---------------------------------------------------------------------------
// The lexer.
// ---------------------------------------------------------------------------

/// The end of the run of non-whitespace characters starting at `from`.
#[verifier::loop_isolation(false)]
fn scan_nonspace(cs: &Vec<char>, from: usize) -> (j: usize)
    requires
        from <= cs@.len(),
    ensures
        from <= j <= cs@.len(),
        forall|k: int| from <= k < j ==> !is_space(#[trigger] cs@[k]),
        j < cs@.len() ==> is_space(cs@[j as int]),
        j == nonspace_end(cs@, from as int),
{
    let n = cs.len();
    let mut j = from;
    while j < n && !char_is_space(cs[j])
        invariant
            from <= j <= n,
            forall|k: int| from <= k < j ==> !is_space(#[trigger] cs@[k]),
            nonspace_end(cs@, from as int) == nonspace_end(cs@, j as int),
        decreases n - j,
    {
        j += 1;
    }
    j
}

/// The end of the run of bare-word characters (neither whitespace nor a
/// colon) starting at `from`.
#[verifier::loop_isolation(false)]
fn scan_word(cs: &Vec<char>, from: usize) -> (j: usize)
    requires
        from <= cs@.len(),
    ensures
        from <= j <= cs@.len(),
        forall|k: int| from <= k < j ==> !is_space(#[trigger] cs@[k]) && cs@[k] != ':',
        j < cs@.len() ==> is_space(cs@[j as int]) || cs@[j as int] == ':',
        j == word_end(cs@, from as int),
{
    let n = cs.len();
    let mut j = from;
    while j < n && !char_is_space(cs[j]) && cs[j] != ':'
        invariant
            from <= j <= n,
            forall|k: int| from <= k < j ==> !is_space(#[trigger] cs@[k]) && cs@[k] != ':',
            word_end(cs@, from as int) == word_end(cs@, j as int),
        decreases n - j,
    {
        j += 1;
    }
    j
}

/// Consumes `[...]` pointer text from the opening bracket at `start`:
/// the interior text kept verbatim, the index just past the closing
/// bracket, and the position there. A missing bracket is an
/// `UnexpectedEOF`.
#[verifier::loop_isolation(false)]
fn scan_pointer(cs: &Vec<char>, start: usize, line: u32, col: u32) -> (r: Result<
    (String, usize, u32, u32),
    AsmParseErr,
>)
    requires
        cs@.len() < 0xFFFF_FFFF,
        start < cs@.len(),
        cs@[start as int] == '[',
        line == line_at(cs@, start as int),
        col == col_at(cs@, start as int),
    ensures
        (r matches Ok(ok) ==> ({
            let (text, next, l2, c2) = ok;
            &&& next == start + 2 + text@.len()
            &&& next <= cs@.len()
            &&& text@ == cs@.subrange(start + 1, start + 1 + text@.len())
            &&& l2 == line_at(cs@, next as int)
            &&& c2 == col_at(cs@, next as int)
            &&& close_bracket_from(cs@, start + 1) == Some((next - 1) as int)
        })),
        (r matches Err(e) ==> close_bracket_from(cs@, start + 1) is None && e
            == AsmParseErr::UnexpectedEOF(ctx_at(cs@, cs@.len() as int))),
{
    let ghost s = cs@;
    let n = cs.len();
    let mut j = start + 1;
    let mut jline = line;
    let mut jcol = col;
    proof {
        lemma_pos_bounds(s, start as int);
    }
    jcol = jcol + 1;
    while j < n && cs[j] != ']'
        invariant
            start + 1 <= j <= n,
            jline == line_at(s, j as int),
            jcol == col_at(s, j as int),
            close_bracket_from(s, start + 1) == close_bracket_from(s, j as int),
        decreases n - j,
    {
        proof {
            lemma_pos_bounds(s, j as int);
        }
        if cs[j] == '\n' {
            jline = jline + 1;
            jcol = 1;
        } else {
            jcol = jcol + 1;
        }
        j += 1;
    }
    if j >= n {
        proof {
            lemma_pos_bounds(s, n as int);
        }
        return Err(AsmParseErr::UnexpectedEOF(Context { line: jline, column: jcol }));
    }
    let text = crate::strings::string_of_chars(crate::strings::copy_range(
        cs,
        start + 1,
        j,
    ).as_slice());
    proof {
        lemma_pos_bounds(s, j as int);
    }
    let next = j + 1;
    let l2 = jline;
    let c2 = jcol + 1;
    Ok((text, next, l2, c2))
}

/// Consumes a string literal from the opening quote at `start`, with
/// backslash escapes preserving the next character: the payload, the
/// index just past the closing quote, and the position there. A missing
/// quote is an `UnexpectedEOF`.
#[verifier::loop_isolation(false)]
fn scan_strlit(cs: &Vec<char>, start: usize, line: u32, col: u32) -> (r: Result<
    (String, usize, u32, u32),
    AsmParseErr,
>)
    requires
        cs@.len() < 0xFFFF_FFFF,
        start < cs@.len(),
        cs@[start as int] == '"',
        line == line_at(cs@, start as int),
        col == col_at(cs@, start as int),
    ensures
        (r matches Ok(ok) ==> ({
            let (text, next, l2, c2) = ok;
            &&& start < next <= cs@.len()
            &&& l2 == line_at(cs@, next as int)
            &&& c2 == col_at(cs@, next as int)
            &&& (match strlit_scan(cs@, start + 1) {
                Ok(pe) => text@ == pe.0 && next == pe.1,
                Err(_) => false,
            })
        })),
        (r matches Err(e) ==> (match strlit_scan(cs@, start + 1) {
            Err(ix) => e == AsmParseErr::UnexpectedEOF(ctx_at(cs@, ix)),
            Ok(_) => false,
        })),
{
    let ghost s = cs@;
    let n = cs.len();
    let mut j = start + 1;
    let mut jline = line;
    let mut jcol = col;
    proof {
        lemma_pos_bounds(s, start as int);
    }
    jcol = jcol + 1;
    let mut buf: Vec<char> = Vec::new();
    proof {
        match strlit_scan(s, start + 1) {
            Ok(pe) => {
                assert(buf@ + pe.0 =~= pe.0);
            },
            Err(_) => {},
        }
    }
    while j < n && cs[j] != '"'
        invariant
            start + 1 <= j <= n,
            jline == line_at(s, j as int),
            jcol == col_at(s, j as int),
            (match strlit_scan(s, start + 1) {
                Ok(pe) => (match strlit_scan(s, j as int) {
                    Ok(pe2) => pe.0 == buf@ + pe2.0 && pe.1 == pe2.1,
                    Err(_) => false,
                }),
                Err(ix) => (match strlit_scan(s, j as int) {
                    Err(ix2) => ix == ix2,
                    Ok(_) => false,
                }),
            }),
        decreases n - j,
    {
        proof {
            lemma_pos_bounds(s, j as int);
        }
        let c2 = cs[j];
        if c2 == '\\' {
            if j + 1 >= n {
                proof {
                    assert(strlit_scan(s, j as int) == Err::<(Seq<char>, int), int>(
                        j as int,
                    ));
                }
                return Err(AsmParseErr::UnexpectedEOF(Context { line: jline, column: jcol }));
            }
            proof {
                match strlit_scan(s, j + 2) {
                    Ok(pe2) => {
                        assert(buf@ + (seq![s[j + 1]] + pe2.0) =~= (buf@ + seq![s[j + 1]])
                            + pe2.0);
                        assert(buf@.push(s[j + 1]) =~= buf@ + seq![s[j + 1]]);
                    },
                    Err(_) => {},
                }
            }
            buf.push(cs[j + 1]);
            // step over the backslash, then over the escaped character
            jcol = jcol + 1;
            proof {
                lemma_pos_bounds(s, j + 1);
            }
            if cs[j + 1] == '\n' {
                jline = jline + 1;
                jcol = 1;
            } else {
                jcol = jcol + 1;
            }
            j += 2;
        } else {
            proof {
                match strlit_scan(s, j + 1) {
                    Ok(pe2) => {
                        assert(buf@ + (seq![s[j as int]] + pe2.0) =~= (buf@ + seq![
                            s[j as int],
                        ]) + pe2.0);
                        assert(buf@.push(s[j as int]) =~= buf@ + seq![s[j as int]]);
                    },
                    Err(_) => {},
                }
            }
            buf.push(c2);
            if c2 == '\n' {
                jline = jline + 1;
                jcol = 1;
            } else {
                jcol = jcol + 1;
            }
            j += 1;
        }
    }
    if j >= n {
        proof {
            lemma_pos_bounds(s, n as int);
            assert(strlit_scan(s, j as int) == Err::<(Seq<char>, int), int>(s.len() as int));
        }
        return Err(AsmParseErr::UnexpectedEOF(Context { line: jline, column: jcol }));
    }
    proof {
        lemma_pos_bounds(s, j as int);
        match strlit_scan(s, start + 1) {
            Ok(pe) => {
                assert(buf@ + Seq::<char>::empty() =~= buf@);
            },
            Err(_) => {},
        }
    }
    let text = crate::strings::string_of_chars(buf.as_slice());
    Ok((text, j + 1, jline, jcol + 1))
}

/// The lexical analyser: one pass over the characters with a single
/// token of lookahead state.
#[derive(Debug, Clone)]
pub struct Lexer {
    context: Context,
}

impl Lexer {
    pub fn new() -> Self {
        Lexer { context: Context { line: 1, column: 1 } }
    }

    /// The opcode a bare word names, if any.
    pub fn consume_opcode(&mut self, code: &str) -> (r: Option<crate::instruction::Opcode>)
        ensures
            r == crate::instruction::spec_opcode_of_word(code@),
    {
        if str_eq_str(code, "hlt") {
            Some(Opcode::Hlt)
        } else if str_eq_str(code, "mov") {
            Some(Opcode::Mov)
        } else if str_eq_str(code, "jmp") {
            Some(Opcode::Jmp)
        } else if str_eq_str(code, "jmpf") {
            Some(Opcode::Jmpf)
        } else if str_eq_str(code, "jmpb") {
            Some(Opcode::Jmpb)
        } else if str_eq_str(code, "cmp") {
            Some(Opcode::Cmp)
        } else if str_eq_str(code, "lt") {
            Some(Opcode::Lt)
        } else if str_eq_str(code, "gt") {
            Some(Opcode::Gt)
        } else if str_eq_str(code, "le") {
            Some(Opcode::Le)
        } else if str_eq_str(code, "ge") {
            Some(Opcode::Ge)
        } else if str_eq_str(code, "jeq") {
            Some(Opcode::Jeq)
        } else if str_eq_str(code, "jne") {
            Some(Opcode::Jne)
        } else if str_eq_str(code, "aloc") {
            Some(Opcode::Aloc)
        } else if str_eq_str(code, "dalc") {
            Some(Opcode::Dalc)
        } else if str_eq_str(code, "push") {
            Some(Opcode::Push)
        } else if str_eq_str(code, "pop") {
            Some(Opcode::Pop)
        } else if str_eq_str(code, "call") {
            Some(Opcode::Call)
        } else if str_eq_str(code, "ret") {
            Some(Opcode::Ret)
        } else if str_eq_str(code, "prt") {
            Some(Opcode::Prt)
        } else if str_eq_str(code, "open") {
            Some(Opcode::Open)
        } else if str_eq_str(code, "clse") {
            Some(Opcode::Clse)
        } else if str_eq_str(code, "read") {
            Some(Opcode::Read)
        } else if str_eq_str(code, "wrt") {
            Some(Opcode::Wrt)
        } else if str_eq_str(code, "inc") {
            Some(Opcode::Inc)
        } else if str_eq_str(code, "dec") {
            Some(Opcode::Dec)
        } else if str_eq_str(code, "add") {
            Some(Opcode::Add)
        } else if str_eq_str(code, "sub") {
            Some(Opcode::Sub)
        } else if str_eq_str(code, "mul") {
            Some(Opcode::Mul)
        } else if str_eq_str(code, "div") {
            Some(Opcode::Div)
        } else if str_eq_str(code, "and") {
            Some(Opcode::And)
        } else if str_eq_str(code, "not") {
            Some(Opcode::Not)
        } else if str_eq_str(code, "or") {
            Some(Opcode::Or)
        } else if str_eq_str(code, "xor") {
            Some(Opcode::Xor)
        } else if str_eq_str(code, "bsl") {
            Some(Opcode::Bsl)
        } else if str_eq_str(code, "bsr") {
            Some(Opcode::Bsr)
        } else {
            None
        }
    }

    /// Parses assembly text into a token stream.
    ///
    /// Every token's reported position points at the token's first
    /// character in the input, and the stream is exactly `spec_tokenize`
    /// of the text. A word ending in `:` declares a label wherever it
    /// stands, at the end of the input included.
    #[verifier::loop_isolation(false)]
    #[verifier::rlimit(100)]
    pub fn tokenize(&mut self, code: &str) -> (r: Result<Vec<Token>, AsmParseErr>)
        requires
            code@.len() < 0xFFFF_FFFF,
        ensures
            (r matches Ok(toks) ==> forall|k: int|
                0 <= k < toks@.len() ==> #[trigger] token_placed(code@, toks@[k])),
            (match (r, spec_tokenize(code@)) {
                (Ok(toks), Ok(ts)) => tokens_view(toks@) == ts,
                (Err(e), Err(es)) => e@ == es,
                _ => false,
            }),
    {
        let cs = crate::strings::chars_of_str(code);
        let ghost s = code@;
        let n = cs.len();
        let mut toks: Vec<Token> = Vec::new();
        proof {
            assert(tokens_view(toks@) =~= Seq::<TokenSpec>::empty());
        }
        let mut i: usize = 0;
        let mut line: u32 = 1;
        let mut col: u32 = 1;
        while i < n
            invariant
                i <= n,
                line == line_at(s, i as int),
                col == col_at(s, i as int),
                forall|k: int| 0 <= k < toks@.len() ==> #[trigger] token_placed(s, toks@[k]),
                spec_tokenize(s) == spec_lex(s, i as int, tokens_view(toks@)),
            decreases n - i,
        {
            let c = cs[i];
            proof {
                lemma_pos_bounds(s, i as int);
            }
            if char_is_space(c) {
                if c == '\n' {
                    line = line + 1;
                    col = 1;
                } else {
                    col = col + 1;
                }
                i = i + 1;
                continue;
            }
            let ctx = Context { line, column: col };
            let start = i;
            if c == '$' {
                let j = scan_nonspace(&cs, i + 1);
                proof {
                    lemma_pos_bounds(s, j as int);
                    assert forall|k: int| start <= k < j implies #[trigger] s[k] != '\n' by {
                        if k > start {
                            assert(!is_space(s[k]));
                        }
                    }
                    lemma_pos_no_newline(s, start as int, j as int);
                }
                let buf = crate::strings::copy_range(&cs, i + 1, j);
                proof {
                    assert(ctx == ctx_at(s, start as int));
                }
                let ghost pre = tokens_view(toks@);
                match crate::codec::parse_u32_chars(buf.as_slice()) {
                    Some(num) => {
                        if num > 31 {
                            return Err(AsmParseErr::InvalidRegister(num, ctx));
                        }
                        let tok = Token::Register(num as u8, ctx);
                        proof {
                            assert(token_starts_at(s, start as int, tok));
                            assert(spec_lex(s, start as int, pre) == spec_lex(
                                s,
                                j as int,
                                pre.push(tok@),
                            ));
                        }
                        toks.push(tok);
                        proof {
                            assert(tokens_view(toks@) =~= pre.push(tok@));
                        }
                    },
                    None => {
                        return Err(AsmParseErr::CouldNotParse(
                            crate::strings::string_of_chars(buf.as_slice()),
                            ctx,
                        ));
                    },
                }
                col = col + ((j - i) as u32);
                i = j;
            } else if c == '[' {
                proof {
                    assert(ctx == ctx_at(s, start as int));
                }
                let ghost pre = tokens_view(toks@);
                match scan_pointer(&cs, i, line, col) {
                    Err(e) => {
                        return Err(e);
                    },
                    Ok((text, next, l2, c2)) => {
                        let tok = Token::Pointer(text, ctx);
                        proof {
                            assert(token_starts_at(s, start as int, tok));
                            assert(text@ =~= s.subrange(start + 1, next - 1));
                            assert(spec_lex(s, start as int, pre) == spec_lex(
                                s,
                                next as int,
                                pre.push(tok@),
                            ));
                        }
                        toks.push(tok);
                        proof {
                            assert(tokens_view(toks@) =~= pre.push(tok@));
                        }
                        i = next;
                        line = l2;
                        col = c2;
                    },
                }
            } else if c == '{' {
                proof {
                    assert(ctx == ctx_at(s, start as int));
                }
                let ghost pre = tokens_view(toks@);
                let mut ok = false;
                if toks.len() > 0 {
                    match &toks[toks.len() - 1] {
                        Token::LabelDeclStart(_, _) => {
                            ok = true;
                        },
                        _ => {},
                    }
                }
                proof {
                    if toks@.len() > 0 {
                        assert(pre.last() == toks@.last()@);
                    }
                    assert(ok == (pre.len() > 0 && (pre.last()
                        matches TokenSpec::LabelDeclStart(_, _))));
                }
                if !ok {
                    return Err(AsmParseErr::UnexpectedToken(
                        <String as vstd::string::StringExecFns>::from_str("{"),
                        ctx,
                    ));
                }
                col = col + 1;
                i = i + 1;
            } else if c == '}' {
                let ghost pre = tokens_view(toks@);
                let tok = Token::LabelDeclEnd(ctx);
                proof {
                    assert(ctx == ctx_at(s, start as int));
                    assert(token_starts_at(s, start as int, tok));
                }
                toks.push(tok);
                proof {
                    assert(tokens_view(toks@) =~= pre.push(tok@));
                }
                col = col + 1;
                i = i + 1;
            } else if c == '@' {
                let j = scan_nonspace(&cs, i + 1);
                proof {
                    lemma_pos_bounds(s, j as int);
                    assert forall|k: int| start <= k < j implies #[trigger] s[k] != '\n' by {
                        if k > start {
                            assert(!is_space(s[k]));
                        }
                    }
                    lemma_pos_no_newline(s, start as int, j as int);
                }
                let buf = crate::strings::copy_range(&cs, i + 1, j);
                let name = crate::strings::string_of_chars(buf.as_slice());
                let ghost pre = tokens_view(toks@);
                let tok = Token::LabelUse(name, ctx);
                proof {
                    assert(ctx == ctx_at(s, start as int));
                    assert(token_starts_at(s, start as int, tok));
                    assert(spec_lex(s, start as int, pre) == spec_lex(
                        s,
                        j as int,
                        pre.push(tok@),
                    ));
                }
                toks.push(tok);
                proof {
                    assert(tokens_view(toks@) =~= pre.push(tok@));
                }
                col = col + ((j - i) as u32);
                i = j;
            } else if c == '"' {
                proof {
                    assert(ctx == ctx_at(s, start as int));
                }
                let ghost pre = tokens_view(toks@);
                match scan_strlit(&cs, i, line, col) {
                    Err(e) => {
                        return Err(e);
                    },
                    Ok((text, next, l2, c2)) => {
                        let tok = Token::StrLiteral(text, ctx);
                        proof {
                            assert(token_starts_at(s, start as int, tok));
                            assert(spec_lex(s, start as int, pre) == spec_lex(
                                s,
                                next as int,
                                pre.push(tok@),
                            ));
                        }
                        toks.push(tok);
                        proof {
                            assert(tokens_view(toks@) =~= pre.push(tok@));
                        }
                        i = next;
                        line = l2;
                        col = c2;
                    },
                }
            } else if c == '.' {
                let j = scan_nonspace(&cs, i + 1);
                proof {
                    lemma_pos_bounds(s, j as int);
                    assert forall|k: int| start <= k < j implies #[trigger] s[k] != '\n' by {
                        if k > start {
                            assert(!is_space(s[k]));
                        }
                    }
                    lemma_pos_no_newline(s, start as int, j as int);
                }
                let buf = crate::strings::copy_range(&cs, i + 1, j);
                let word = crate::strings::string_of_chars(buf.as_slice());
                let ghost pre = tokens_view(toks@);
                proof {
                    assert(ctx == ctx_at(s, start as int));
                }
                match Directive::try_from(word, ctx) {
                    Err(e) => {
                        return Err(e);
                    },
                    Ok(d) => {
                        let tok = Token::Directive(d, ctx);
                        proof {
                            assert(s.subrange(start + 1, j as int) == directive_word(d));
                            assert(token_starts_at(s, start as int, tok));
                            assert(spec_lex(s, start as int, pre) == spec_lex(
                                s,
                                j as int,
                                pre.push(tok@),
                            ));
                        }
                        toks.push(tok);
                        proof {
                            assert(tokens_view(toks@) =~= pre.push(tok@));
                        }
                        col = col + ((j - i) as u32);
                        i = j;
                    },
                }
            } else if c == ':' {
                let ghost pre = tokens_view(toks@);
                let tok = Token::LabelDeclStart(String::new(), ctx);
                proof {
                    assert(ctx == ctx_at(s, start as int));
                    assert(s.subrange(start as int, start as int) =~= Seq::<
                        char,
                    >::empty());
                    assert(token_starts_at(s, start as int, tok));
                }
                toks.push(tok);
                proof {
                    assert(tokens_view(toks@) =~= pre.push(tok@));
                }
                col = col + 1;
                i = i + 1;
            } else {
                let j = scan_word(&cs, i);
                proof {
                    lemma_pos_bounds(s, j as int);
                    assert forall|k: int| start <= k < j implies #[trigger] s[k] != '\n' by {
                        assert(!is_space(s[k]));
                    }
                    lemma_pos_no_newline(s, start as int, j as int);
                }
                assert(j > i);
                let buf = crate::strings::copy_range(&cs, i, j);
                let ghost pre = tokens_view(toks@);
                proof {
                    assert(ctx == ctx_at(s, start as int));
                }
                if j < n && cs[j] == ':' {
                    let name = crate::strings::string_of_chars(buf.as_slice());
                    let tok = Token::LabelDeclStart(name, ctx);
                    proof {
                        assert(token_starts_at(s, start as int, tok));
                        assert(spec_lex(s, start as int, pre) == spec_lex(
                            s,
                            j + 1,
                            pre.push(tok@),
                        ));
                    }
                    toks.push(tok);
                    proof {
                        assert(tokens_view(toks@) =~= pre.push(tok@));
                    }
                    col = col + ((j + 1 - i) as u32);
                    i = j + 1;
                } else {
                    match crate::codec::parse_i32_chars(buf.as_slice()) {
                        Some(num) => {
                            let tok = Token::NumLiteral(num, ctx);
                            proof {
                                assert(crate::codec::spec_parse_i32(
                                    s.subrange(start as int, j as int),
                                ) == Some(num));
                                assert(token_starts_at(s, start as int, tok));
                                assert(spec_lex(s, start as int, pre) == spec_lex(
                                    s,
                                    j as int,
                                    pre.push(tok@),
                                ));
                            }
                            toks.push(tok);
                            proof {
                                assert(tokens_view(toks@) =~= pre.push(tok@));
                            }
                        },
                        None => {
                            let word = crate::strings::string_of_chars(buf.as_slice());
                            match self.consume_opcode(word.as_str()) {
                                Some(op) => {
                                    let tok = Token::Opcode(op, ctx);
                                    proof {
                                        crate::instruction::lemma_opcode_word_mnemonic(
                                            word@,
                                        );
                                        assert(token_starts_at(s, start as int, tok));
                                        assert(spec_lex(s, start as int, pre)
                                            == spec_lex(s, j as int, pre.push(tok@)));
                                    }
                                    toks.push(tok);
                                    proof {
                                        assert(tokens_view(toks@) =~= pre.push(tok@));
                                    }
                                },
                                None => {
                                    return Err(AsmParseErr::UnexpectedToken(word, ctx));
                                },
                            }
                        },
                    }
                    col = col + ((j - i) as u32);
                    i = j;
                }
            }
        }
        proof {
            assert(spec_lex(s, n as int, tokens_view(toks@)) == Ok::<
                Seq<TokenSpec>,
                AsmParseErrSpec,
            >(tokens_view(toks@)));
        }
        Ok(toks)
    }
}

} // verus!
