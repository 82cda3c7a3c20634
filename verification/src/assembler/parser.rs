//! The parser: tokens in, instructions and errors out; and the encoder, which
//! turns instructions into bytecode.

use vstd::prelude::*;
use vstd::string::{StringExecFns, StringSliceAdditionalSpecFns};
use crate::assembler::lexer::{tokens_from, Lexed, Lexeme, Lexer, Token};
use crate::bytecode::OpCode;
use crate::data::{low16, Int, Reg};

verus! {

/// Why a line of source text is no instruction. Each error but the last holds
/// the token that was found in place of what was expected.
#[derive(Copy, Clone, Debug, PartialEq, Eq)]
pub enum Error {
    /// A token stands where none was expected.
    Unexpected(Token),
    /// A label was expected.
    ExpectedLabel(Token),
    /// An opcode was expected.
    ExpectedOpCode(Token),
    /// A register or an integer was expected.
    ExpectedOperand(Token),
    /// An integer was expected.
    ExpectedInteger(Token),
    /// A register was expected.
    ExpectedRegister(Token),
    /// The text ended where a token was expected.
    UnexpectedEof,
}

/// The message that says what was expected and what was found.
pub open spec fn found_instead(expected: Seq<char>, token: Token) -> Seq<char> {
    "expected "@ + expected + " token, but found `"@ + token.lexeme.text() + "` instead"@
}

/// Writes the message that says what was expected and what was found.
fn expected_but_found(expected: &str, token: &Token) -> (s: String)
    ensures
        s@ == found_instead(expected@, *token),
{
    let mut s = String::from_str("expected ");
    s.append(expected);
    s.append(" token, but found `");
    let shown = token.to_string();
    s.append(shown.as_str());
    s.append("` instead");
    assert(s@ =~= found_instead(expected@, *token));
    s
}

impl Error {
    /// The message of the error.
    pub open spec fn message(self) -> Seq<char> {
        match self {
            Error::Unexpected(t) => "unexpected token `"@ + t.lexeme.text() + "` found"@,
            Error::ExpectedLabel(t) => found_instead("a label"@, t),
            Error::ExpectedOpCode(t) => found_instead("an opcode"@, t),
            Error::ExpectedOperand(t) => found_instead(
                "either a register token or integer"@,
                t,
            ),
            Error::ExpectedInteger(t) => found_instead("an integer"@, t),
            Error::ExpectedRegister(t) => found_instead("a register"@, t),
            Error::UnexpectedEof => "unexpected end of input"@,
        }
    }

    /// The message of the error: what was expected, and the token that was
    /// found in its place.
    pub fn to_string(&self) -> (s: String)
        ensures
            s@ == self.message(),
    {
        match self {
            Error::Unexpected(t) => {
                let mut s = String::from_str("unexpected token `");
                let shown = t.to_string();
                s.append(shown.as_str());
                s.append("` found");
                assert(s@ =~= self.message());
                s
            },
            Error::ExpectedLabel(t) => expected_but_found("a label", t),
            Error::ExpectedOpCode(t) => expected_but_found("an opcode", t),
            Error::ExpectedOperand(t) => expected_but_found(
                "either a register token or integer",
                t,
            ),
            Error::ExpectedInteger(t) => expected_but_found("an integer", t),
            Error::ExpectedRegister(t) => expected_but_found("a register", t),
            Error::UnexpectedEof => String::from_str("unexpected end of input"),
        }
    }
}

/// An operand of an instruction.
#[derive(Copy, Clone, Debug, PartialEq, Eq, Structural)]
pub enum Operand {
    /// An integer literal.
    Int(Int),
    /// A register reference.
    Reg(Reg),
}

impl Operand {
    /// The bytes that encode this operand: one byte for a register, its
    /// index; two bytes for an integer, the low sixteen bits of its value,
    /// high byte first.
    pub open spec fn encoding(self) -> Seq<u8> {
        match self {
            Operand::Int(n) => seq![(low16(n.0) / 256) as u8, (low16(n.0) % 256) as u8],
            Operand::Reg(r) => seq![r.0],
        }
    }

    /// The bytes that encode this operand.
    pub fn bytes(&self) -> (b: Vec<u8>)
        ensures
            b@ == self.encoding(),
    {
        match self {
            Operand::Int(n) => {
                let pair = n.bytes();
                let b = vec![pair[0], pair[1]];
                assert(b@ =~= self.encoding());
                b
            },
            Operand::Reg(r) => {
                let b = vec![r.byte()];
                assert(b@ =~= self.encoding());
                b
            },
        }
    }
}

/// The bytes that encode an operand slot: nothing for an empty one.
pub open spec fn slot_encoding(slot: Option<Operand>) -> Seq<u8> {
    match slot {
        Some(operand) => operand.encoding(),
        None => Seq::empty(),
    }
}

/// The bytes that follow the operands of an instruction: one zero byte after
/// a comparison, which brings it to the width of four bytes that the engine
/// reads; nothing after any other instruction.
pub open spec fn padding(op: OpCode) -> Seq<u8> {
    if op.is_comparison() {
        seq![0u8]
    } else {
        Seq::empty()
    }
}

/// One instruction of a program.
#[derive(Copy, Clone, Debug, PartialEq, Eq)]
pub struct Instruction {
    /// The line of the source text on which the instruction stands, counted
    /// from one.
    pub line: usize,
    /// The label of the instruction, if it has one.
    pub label: Option<Token>,
    /// The operation.
    pub opcode: OpCode,
    /// The operands, in the order in which they were written. The slots
    /// after the last operand are empty.
    pub operands: [Option<Operand>; 3],
}

impl Instruction {
    /// Whether the instruction has exactly as many operands as its opcode
    /// takes, in the first slots.
    pub open spec fn wf(self) -> bool {
        forall|k: int| 0 <= k < 3 ==> (#[trigger] self.operands[k] is Some <==> k < self.opcode.spec_arity().0)
    }

    /// The bytes that encode this instruction: the code of the opcode, then
    /// the operands in order, then the padding.
    pub open spec fn encoding(self) -> Seq<u8> {
        seq![self.opcode.spec_code()] + slot_encoding(self.operands[0]) + slot_encoding(
            self.operands[1],
        ) + slot_encoding(self.operands[2]) + padding(self.opcode)
    }

    /// The bytes that encode this instruction.
    pub fn bytes(&self) -> (b: Vec<u8>)
        ensures
            b@ == self.encoding(),
    {
        let mut bytes: Vec<u8> = Vec::new();
        bytes.push(self.opcode.code());
        let mut i: usize = 0;
        while i < 3
            invariant
                i <= 3,
                i == 0 ==> bytes@ == seq![self.opcode.spec_code()],
                i == 1 ==> bytes@ == seq![self.opcode.spec_code()] + slot_encoding(
                    self.operands[0],
                ),
                i == 2 ==> bytes@ == seq![self.opcode.spec_code()] + slot_encoding(
                    self.operands[0],
                ) + slot_encoding(self.operands[1]),
                i == 3 ==> bytes@ == seq![self.opcode.spec_code()] + slot_encoding(
                    self.operands[0],
                ) + slot_encoding(self.operands[1]) + slot_encoding(self.operands[2]),
            decreases 3 - i,
        {
            let ghost before = bytes@;
            if let Some(arg) = self.operands[i] {
                let mut more = arg.bytes();
                bytes.append(&mut more);
            }
            assert(bytes@ =~= before + slot_encoding(self.operands[i as int]));
            i += 1;
        }
        let ghost before = bytes@;
        match self.opcode {
            OpCode::Eq
            | OpCode::NotEq
            | OpCode::Greater
            | OpCode::Less
            | OpCode::GreaterEq
            | OpCode::LessEq => {
                bytes.push(0);
            },
            _ => {},
        }
        assert(bytes@ =~= before + padding(self.opcode));
        bytes
    }
}

/// The bytes that encode a sequence of instructions: the encodings of the
/// instructions one after the other, with nothing between them.
pub open spec fn encode_all(instrs: Seq<Instruction>) -> Seq<u8>
    decreases instrs.len(),
{
    if instrs.len() == 0 {
        Seq::empty()
    } else {
        encode_all(instrs.drop_last()) + instrs.last().encoding()
    }
}

/// What the assembler makes of a source text: the instructions of the lines
/// that are well formed and the errors of those that are not, each in the
/// order of the lines.
#[derive(Clone, Debug, PartialEq, Eq)]
pub struct Program {
    /// The instructions.
    pub instrs: Vec<Instruction>,
    /// The errors.
    pub errors: Vec<Error>,
}

impl Program {
    /// The bytecode of the program: the encodings of its instructions one
    /// after the other.
    pub fn bytes(&self) -> (b: Vec<u8>)
        ensures
            b@ == encode_all(self.instrs@),
    {
        let mut bytes: Vec<u8> = Vec::new();
        let mut i: usize = 0;
        while i < self.instrs.len()
            invariant
                i <= self.instrs.len(),
                bytes@ == encode_all(self.instrs@.take(i as int)),
            decreases self.instrs.len() - i,
        {
            let mut more = self.instrs[i].bytes();
            bytes.append(&mut more);
            assert(self.instrs@.take(i + 1).drop_last() =~= self.instrs@.take(i as int));
            i += 1;
        }
        assert(self.instrs@.take(i as int) =~= self.instrs@);
        bytes
    }
}

/// The operand that a token is, if it is one.
pub open spec fn operand_of(lexeme: Lexeme) -> Option<Operand> {
    match lexeme {
        Lexeme::Int(n) => Some(Operand::Int(n)),
        Lexeme::Reg(r) => Some(Operand::Reg(r)),
        _ => None,
    }
}

/// How many of the `n` tokens from `ts[from]` on are operands, counted up to
/// the first that is not or is missing.
pub open spec fn operands_ahead(ts: Seq<Lexed>, from: int, n: nat) -> nat
    decreases n,
{
    if n == 0 || from < 0 || from >= ts.len() || operand_of(ts[from].token.lexeme) is None {
        0
    } else {
        1 + operands_ahead(ts, from + 1, (n - 1) as nat)
    }
}

/// The `k`-th operand slot of an instruction with `n` operands that starts
/// at `ts[0]`.
pub open spec fn slot(ts: Seq<Lexed>, n: nat, k: int) -> Option<Operand> {
    if k < n {
        operand_of(ts[1 + k].token.lexeme)
    } else {
        None
    }
}

/// The instruction that starts at the first token of `ts`: an opcode and
/// then as many operands, registers or integers, as the opcode takes.
///
/// Where the text ends before the instruction is complete the error is
/// `UnexpectedEof`; where another token stands in place of the opcode or of
/// an operand, the error holds that token.
pub open spec fn parse_instruction(ts: Seq<Lexed>) -> Result<Instruction, Error> {
    if ts.len() == 0 {
        Err(Error::UnexpectedEof)
    } else {
        match ts[0].token.lexeme {
            Lexeme::Op(op) => {
                let n = op.spec_arity().0 as nat;
                let k = operands_ahead(ts, 1, n);
                if k == n {
                    Ok(
                        Instruction {
                            line: ts[0].line as usize,
                            label: None,
                            opcode: op,
                            operands: [slot(ts, n, 0), slot(ts, n, 1), slot(ts, n, 2)],
                        },
                    )
                } else if 1 + k >= ts.len() {
                    Err(Error::UnexpectedEof)
                } else {
                    Err(Error::ExpectedOperand(ts[1 + k as int].token))
                }
            },
            _ => Err(Error::ExpectedOpCode(ts[0].token)),
        }
    }
}

/// The tokens that are left when the first token of `ts` has been found
/// wanting: it is passed over, unless it ends the line.
pub open spec fn rejected(ts: Seq<Lexed>) -> Seq<Lexed> {
    if ts.len() == 0 || ts[0].token.lexeme is Newline {
        ts
    } else {
        ts.drop_first()
    }
}

/// The number of tokens that reading the instruction at the start of `ts`
/// consumes: those of the instruction, or those up to the offending token
/// and that token too, unless it ends the line.
pub open spec fn instruction_span(ts: Seq<Lexed>) -> nat {
    if ts.len() == 0 {
        0
    } else {
        match ts[0].token.lexeme {
            Lexeme::Op(op) => {
                let k = operands_ahead(ts, 1, op.spec_arity().0 as nat);
                if k == op.spec_arity().0 || 1 + k >= ts.len() || ts[1 + k as int].token.lexeme
                    is Newline {
                    1 + k
                } else {
                    2 + k
                }
            },
            Lexeme::Newline => 0,
            _ => 1,
        }
    }
}

/// The number of tokens at the start of `ts` that stand before the first
/// `Newline`.
pub open spec fn line_len(ts: Seq<Lexed>) -> nat
    decreases ts.len(),
{
    if ts.len() == 0 || ts[0].token.lexeme is Newline {
        0
    } else {
        1 + line_len(ts.drop_first())
    }
}

/// What the line at the start of `ts` is: the instruction that it holds and
/// nothing else, or an error. A token between the instruction and the end of
/// the line is unexpected.
pub open spec fn parse_line(ts: Seq<Lexed>) -> Result<Instruction, Error> {
    match parse_instruction(ts) {
        Ok(instr) => {
            let end = instruction_span(ts) as int;
            if end < ts.len() && !(ts[end].token.lexeme is Newline) {
                Err(Error::Unexpected(ts[end].token))
            } else {
                Ok(instr)
            }
        },
        Err(e) => Err(e),
    }
}

/// What the program made of the tokens `ts` is: line by line, the
/// instruction of each line that holds one and the error of each line that
/// is malformed. Empty lines count for nothing.
pub open spec fn parse_program(ts: Seq<Lexed>) -> (Seq<Instruction>, Seq<Error>)
    decreases ts.len(),
{
    if ts.len() == 0 {
        (Seq::empty(), Seq::empty())
    } else if ts[0].token.lexeme is Newline {
        parse_program(ts.drop_first())
    } else {
        proof {
            lemma_line_len_bounds(ts);
        }
        let rest = parse_program(ts.skip(line_len(ts) as int));
        match parse_line(ts) {
            Ok(instr) => (seq![instr] + rest.0, rest.1),
            Err(e) => (rest.0, seq![e] + rest.1),
        }
    }
}

/// A line holds at most the tokens that are there.
pub proof fn lemma_line_len_bounds(ts: Seq<Lexed>)
    ensures
        line_len(ts) <= ts.len(),
        line_len(ts) < ts.len() ==> ts[line_len(ts) as int].token.lexeme is Newline,
        forall|i: int| 0 <= i < line_len(ts) ==> !(#[trigger] ts[i].token.lexeme is Newline),
    decreases ts.len(),
{
    if ts.len() == 0 || ts[0].token.lexeme is Newline {
    } else {
        lemma_line_len_bounds(ts.drop_first());
        assert forall|i: int| 0 <= i < line_len(ts) implies !(#[trigger] ts[i].token.lexeme
            is Newline) by {
            if i > 0 {
                assert(ts[i] == ts.drop_first()[i - 1]);
            }
        }
    }
}

/// The line at the start of `ts` is as long as the run of tokens before the
/// first `Newline`.
pub proof fn lemma_line_len_is(ts: Seq<Lexed>, n: int)
    requires
        0 <= n <= ts.len(),
        forall|i: int| 0 <= i < n ==> !(#[trigger] ts[i].token.lexeme is Newline),
        n < ts.len() ==> ts[n].token.lexeme is Newline,
    ensures
        line_len(ts) == n,
    decreases ts.len(),
{
    if n > 0 {
        assert(!(ts[0].token.lexeme is Newline));
        assert forall|i: int| 0 <= i < n - 1 implies !(#[trigger] ts.drop_first()[i].token.lexeme
            is Newline) by {
            assert(ts.drop_first()[i] == ts[i + 1]);
        }
        lemma_line_len_is(ts.drop_first(), n - 1);
    }
}

/// The operands that were counted are operands.
pub proof fn lemma_operands_ahead(ts: Seq<Lexed>, from: int, n: nat)
    requires
        0 <= from,
    ensures
        operands_ahead(ts, from, n) <= n,
        from + operands_ahead(ts, from, n) <= ts.len() || operands_ahead(ts, from, n) == 0,
        forall|i: int|
            from <= i < from + operands_ahead(ts, from, n) ==> operand_of(
                #[trigger] ts[i].token.lexeme,
            ) is Some,
        operands_ahead(ts, from, n) < n && from + operands_ahead(ts, from, n) < ts.len()
            ==> operand_of(ts[from + operands_ahead(ts, from, n)].token.lexeme) is None,
    decreases n,
{
    if n == 0 || from >= ts.len() || operand_of(ts[from].token.lexeme) is None {
    } else {
        lemma_operands_ahead(ts, from + 1, (n - 1) as nat);
    }
}

/// Reading an instruction never consumes the `Newline` that ends its line.
pub proof fn lemma_span_within_line(ts: Seq<Lexed>)
    ensures
        instruction_span(ts) <= line_len(ts),
{
    lemma_line_len_bounds(ts);
    if ts.len() > 0 {
        match ts[0].token.lexeme {
            Lexeme::Op(op) => {
                let n = op.spec_arity().0 as nat;
                lemma_operands_ahead(ts, 1, n);
                let span = instruction_span(ts) as int;
                assert forall|i: int| 0 <= i < span implies !(#[trigger] ts[i].token.lexeme
                    is Newline) by {
                    if 1 <= i < 1 + operands_ahead(ts, 1, n) {
                        assert(operand_of(ts[i].token.lexeme) is Some);
                    }
                }
                if line_len(ts) < span {
                    assert(ts[line_len(ts) as int].token.lexeme is Newline);
                }
            },
            _ => {},
        }
    }
}

/// The end of a line does not depend on where in the line one starts.
pub proof fn lemma_line_len_skip(ts: Seq<Lexed>, n: int)
    requires
        0 <= n <= line_len(ts),
    ensures
        ts.skip(n).skip(line_len(ts.skip(n)) as int) == ts.skip(line_len(ts) as int),
        line_len(ts.skip(n)) == line_len(ts) - n,
{
    lemma_line_len_bounds(ts);
    let rest = ts.skip(n);
    let m = line_len(ts) - n;
    assert forall|i: int| 0 <= i < m implies !(#[trigger] rest[i].token.lexeme is Newline) by {
        assert(rest[i] == ts[i + n]);
    }
    lemma_line_len_is(rest, m);
    assert(rest.skip(m) =~= ts.skip(line_len(ts) as int));
}

/// The `Newline` tokens at the start of `ts` change nothing in the program.
pub proof fn lemma_leading_newlines(ts: Seq<Lexed>, n: int)
    requires
        0 <= n <= ts.len(),
        forall|i: int| 0 <= i < n ==> #[trigger] ts[i].token.lexeme is Newline,
    ensures
        parse_program(ts.skip(n)) == parse_program(ts),
    decreases n,
{
    if n == 0 {
        assert(ts.skip(0) =~= ts);
    } else {
        assert(ts[0].token.lexeme is Newline);
        assert forall|i: int| 0 <= i < n - 1 implies #[trigger] ts.drop_first()[i].token.lexeme
            is Newline by {
            assert(ts.drop_first()[i] == ts[i + 1]);
        }
        lemma_leading_newlines(ts.drop_first(), n - 1);
        assert(ts.drop_first().skip(n - 1) =~= ts.skip(n));
    }
}

/// Whether a token is no `Newline`.
pub fn within_line(lexeme: &Lexeme) -> (b: bool)
    ensures
        b == !(*lexeme is Newline),
{
    !lexeme.is_newline()
}

/// A parser over one source text.
#[derive(Clone, Debug)]
pub struct Parser<'t> {
    lexer: Lexer<'t>,
}

impl<'t> Parser<'t> {
    /// The invariant of the parser.
    pub closed spec fn wf(&self) -> bool {
        self.lexer.wf()
    }

    /// The bytes of the source text.
    pub closed spec fn text(&self) -> Seq<u8> {
        self.lexer.text()
    }

    /// The tokens that have not been taken yet, each with the line on which
    /// it ends.
    pub closed spec fn pending(&self) -> Seq<Lexed> {
        self.lexer.pending()
    }

    /// The line on which the lexer stands: after a token has been taken, the
    /// line on which that token ends.
    pub closed spec fn line(&self) -> u32 {
        self.lexer.position().0
    }

    /// A parser at the start of `src`.
    pub fn new(src: &'t str) -> (parser: Parser<'t>)
        ensures
            parser.wf(),
            parser.text() == src.spec_bytes(),
            parser.pending() == tokens_from(src.spec_bytes(), 0),
    {
        Parser { lexer: Lexer::new(src) }
    }

    /// Looks at the next token without taking it. `None` stands for the end
    /// of the text.
    pub fn peek(&mut self) -> (t: Option<Token>)
        requires
            old(self).wf(),
        ensures
            final(self).wf(),
            final(self).text() == old(self).text(),
            final(self).pending() == old(self).pending(),
            t == (if old(self).pending().len() > 0 {
                Some(old(self).pending()[0].token)
            } else {
                None
            }),
    {
        self.lexer.peek_tok()
    }

    /// Takes the next token. At the end of the text the token is `Eof`.
    pub fn bump(&mut self) -> (t: Token)
        requires
            old(self).wf(),
        ensures
            final(self).wf(),
            final(self).text() == old(self).text(),
            old(self).pending().len() == 0 ==> t.lexeme is Eof && final(self).pending() == old(
                self,
            ).pending(),
            old(self).pending().len() > 0 ==> {
                &&& t == old(self).pending()[0].token
                &&& final(self).pending() == old(self).pending().drop_first()
                &&& final(self).line() == old(self).pending()[0].line
            },
    {
        match self.lexer.next() {
            Some(token) => token,
            None => Token { lexeme: Lexeme::Eof },
        }
    }

    /// Whether every token has been taken.
    pub fn is_done(&mut self) -> (b: bool)
        requires
            old(self).wf(),
        ensures
            final(self).wf(),
            final(self).text() == old(self).text(),
            final(self).pending() == old(self).pending(),
            b == (old(self).pending().len() == 0),
    {
        match self.peek() {
            Some(_) => false,
            None => true,
        }
    }

    /// Passes over the next token, unless it ends the line.
    fn pass_over(&mut self)
        requires
            old(self).wf(),
        ensures
            final(self).wf(),
            final(self).text() == old(self).text(),
            final(self).pending() == rejected(old(self).pending()),
    {
        match self.peek() {
            Some(token) => {
                if !token.lexeme.is_newline() {
                    self.bump();
                }
            },
            None => {},
        }
    }

    /// Takes the next token. If `f` accepts it, it is returned; otherwise it
    /// is unexpected. Either way the token is taken, whatever it is.
    pub fn eat(&mut self, f: impl Fn(&Lexeme) -> bool) -> (r: Result<Token, Error>)
        requires
            old(self).wf(),
            forall|l: Lexeme| #[trigger] f.requires((&l,)),
        ensures
            final(self).wf(),
            final(self).text() == old(self).text(),
            old(self).pending().len() == 0 ==> r == Err::<Token, Error>(Error::UnexpectedEof)
                && final(self).pending() == old(self).pending(),
            old(self).pending().len() > 0 ==> match r {
                Ok(token) => {
                    &&& token == old(self).pending()[0].token
                    &&& f.ensures((&token.lexeme,), true)
                    &&& final(self).pending() == old(self).pending().drop_first()
                },
                Err(e) => {
                    &&& e == Error::Unexpected(old(self).pending()[0].token)
                    &&& f.ensures((&old(self).pending()[0].token.lexeme,), false)
                    &&& final(self).pending() == old(self).pending().drop_first()
                },
            },
    {
        match self.peek() {
            Some(token) => {
                if f(&token.lexeme) {
                    Ok(self.bump())
                } else {
                    Err(Error::Unexpected(self.bump()))
                }
            },
            None => Err(Error::UnexpectedEof),
        }
    }

    /// Takes the opcode that stands next. Another token is an error and is
    /// passed over, unless it is the `Newline` that ends the line: that one
    /// stays, so that the next line is not lost with this one.
    pub fn expect_opcode(&mut self) -> (r: Result<OpCode, Error>)
        requires
            old(self).wf(),
        ensures
            final(self).wf(),
            final(self).text() == old(self).text(),
            old(self).pending().len() == 0 ==> r == Err::<OpCode, Error>(Error::UnexpectedEof)
                && final(self).pending() == old(self).pending(),
            old(self).pending().len() > 0 ==> match old(self).pending()[0].token.lexeme {
                Lexeme::Op(op) => {
                    &&& r == Ok::<OpCode, Error>(op)
                    &&& final(self).pending() == old(self).pending().drop_first()
                    &&& final(self).line() == old(self).pending()[0].line
                },
                _ => {
                    &&& r == Err::<OpCode, Error>(
                        Error::ExpectedOpCode(old(self).pending()[0].token),
                    )
                    &&& final(self).pending() == rejected(old(self).pending())
                },
            },
    {
        match self.peek() {
            Some(token) => match token.lexeme {
                Lexeme::Op(op) => {
                    self.bump();
                    Ok(op)
                },
                _ => {
                    self.pass_over();
                    Err(Error::ExpectedOpCode(token))
                },
            },
            None => Err(Error::UnexpectedEof),
        }
    }

    /// Takes tokens as long as `f` accepts the next one, and returns them.
    pub fn many_while(&mut self, f: impl Fn(&Lexeme) -> bool) -> (taken: Vec<Token>)
        requires
            old(self).wf(),
            forall|l: Lexeme| #[trigger] f.requires((&l,)),
        ensures
            final(self).wf(),
            final(self).text() == old(self).text(),
            taken.len() <= old(self).pending().len(),
            final(self).pending() == old(self).pending().skip(taken.len() as int),
            forall|i: int|
                0 <= i < taken.len() ==> taken[i] == (#[trigger] old(self).pending()[i]).token
                    && f.ensures((&old(self).pending()[i].token.lexeme,), true),
            taken.len() < old(self).pending().len() ==> f.ensures(
                (&old(self).pending()[taken.len() as int].token.lexeme,),
                false,
            ),
    {
        let mut nodes: Vec<Token> = Vec::new();
        let mut more = true;
        assert(self.pending().skip(0) =~= self.pending());
        while more
            invariant
                self.wf(),
                self.text() == old(self).text(),
                forall|l: Lexeme| #[trigger] f.requires((&l,)),
                nodes.len() <= old(self).pending().len(),
                self.pending() == old(self).pending().skip(nodes.len() as int),
                forall|i: int|
                    0 <= i < nodes.len() ==> nodes[i] == (#[trigger] old(self).pending()[i]).token
                        && f.ensures((&old(self).pending()[i].token.lexeme,), true),
                !more && nodes.len() < old(self).pending().len() ==> f.ensures(
                    (&old(self).pending()[nodes.len() as int].token.lexeme,),
                    false,
                ),
            decreases self.pending().len() + (if more { 1int } else { 0int }),
        {
            let ghost before = self.pending();
            match self.peek() {
                Some(token) => {
                    if f(&token.lexeme) {
                        let taken = self.bump();
                        nodes.push(taken);
                        assert(self.pending() =~= old(self).pending().skip(nodes.len() as int));
                    } else {
                        more = false;
                    }
                },
                None => {
                    more = false;
                },
            }
        }
        nodes
    }

    /// Takes the `Newline` tokens that stand next.
    fn skip_newlines(&mut self)
        requires
            old(self).wf(),
        ensures
            final(self).wf(),
            final(self).text() == old(self).text(),
            parse_program(final(self).pending()) == parse_program(old(self).pending()),
            final(self).pending().len() <= old(self).pending().len(),
            final(self).pending().len() > 0 ==> !(final(self).pending()[0].token.lexeme
                is Newline),
    {
        let taken = self.many_while(Lexeme::is_newline);
        proof {
            lemma_leading_newlines(old(self).pending(), taken.len() as int);
        }
    }

    /// Takes the tokens that stand before the end of the line.
    fn skip_line(&mut self)
        requires
            old(self).wf(),
        ensures
            final(self).wf(),
            final(self).text() == old(self).text(),
            final(self).pending() == old(self).pending().skip(
                line_len(old(self).pending()) as int,
            ),
    {
        let taken = self.many_while(within_line);
        proof {
            lemma_line_len_is(old(self).pending(), taken.len() as int);
        }
    }

    /// Takes the operand that stands next: a register or an integer. Another
    /// token is an error and is passed over, unless it is the `Newline` that
    /// ends the line: that one stays, so that the next line is not lost with
    /// this one.
    pub fn operand(&mut self) -> (r: Result<Operand, Error>)
        requires
            old(self).wf(),
        ensures
            final(self).wf(),
            final(self).text() == old(self).text(),
            old(self).pending().len() == 0 ==> r == Err::<Operand, Error>(Error::UnexpectedEof)
                && final(self).pending() == old(self).pending(),
            old(self).pending().len() > 0 ==> match operand_of(
                old(self).pending()[0].token.lexeme,
            ) {
                Some(operand) => {
                    &&& r == Ok::<Operand, Error>(operand)
                    &&& final(self).pending() == old(self).pending().drop_first()
                },
                None => {
                    &&& r == Err::<Operand, Error>(
                        Error::ExpectedOperand(old(self).pending()[0].token),
                    )
                    &&& final(self).pending() == rejected(old(self).pending())
                },
            },
    {
        match self.peek() {
            Some(token) => match token.lexeme {
                Lexeme::Int(n) => {
                    self.bump();
                    Ok(Operand::Int(n))
                },
                Lexeme::Reg(r) => {
                    self.bump();
                    Ok(Operand::Reg(r))
                },
                _ => {
                    self.pass_over();
                    Err(Error::ExpectedOperand(token))
                },
            },
            None => Err(Error::UnexpectedEof),
        }
    }

    /// Takes the next token, which must be a register. A token that is none
    /// is taken all the same, whatever it is.
    pub fn register(&mut self) -> (r: Result<Reg, Error>)
        requires
            old(self).wf(),
        ensures
            final(self).wf(),
            final(self).text() == old(self).text(),
            old(self).pending().len() == 0 ==> r == Err::<Reg, Error>(Error::UnexpectedEof)
                && final(self).pending() == old(self).pending(),
            old(self).pending().len() > 0 ==> match old(self).pending()[0].token.lexeme {
                Lexeme::Reg(reg) => {
                    &&& r == Ok::<Reg, Error>(reg)
                    &&& final(self).pending() == old(self).pending().drop_first()
                },
                _ => {
                    &&& r == Err::<Reg, Error>(
                        Error::ExpectedRegister(old(self).pending()[0].token),
                    )
                    &&& final(self).pending() == old(self).pending().drop_first()
                },
            },
    {
        match self.peek() {
            Some(token) => match token.lexeme {
                Lexeme::Reg(r) => {
                    self.bump();
                    Ok(r)
                },
                _ => Err(Error::ExpectedRegister(self.bump())),
            },
            None => Err(Error::UnexpectedEof),
        }
    }

    /// Takes the next token, which must be an integer. A token that is none
    /// is taken all the same, whatever it is.
    pub fn integer(&mut self) -> (r: Result<Int, Error>)
        requires
            old(self).wf(),
        ensures
            final(self).wf(),
            final(self).text() == old(self).text(),
            old(self).pending().len() == 0 ==> r == Err::<Int, Error>(Error::UnexpectedEof)
                && final(self).pending() == old(self).pending(),
            old(self).pending().len() > 0 ==> match old(self).pending()[0].token.lexeme {
                Lexeme::Int(n) => {
                    &&& r == Ok::<Int, Error>(n)
                    &&& final(self).pending() == old(self).pending().drop_first()
                },
                _ => {
                    &&& r == Err::<Int, Error>(
                        Error::ExpectedInteger(old(self).pending()[0].token),
                    )
                    &&& final(self).pending() == old(self).pending().drop_first()
                },
            },
    {
        match self.peek() {
            Some(token) => match token.lexeme {
                Lexeme::Int(n) => {
                    self.bump();
                    Ok(n)
                },
                _ => Err(Error::ExpectedInteger(self.bump())),
            },
            None => Err(Error::UnexpectedEof),
        }
    }

    /// Takes the next token, which must be a label. A token that is none is
    /// taken all the same, whatever it is.
    pub fn label(&mut self) -> (r: Result<Token, Error>)
        requires
            old(self).wf(),
        ensures
            final(self).wf(),
            final(self).text() == old(self).text(),
            old(self).pending().len() == 0 ==> r == Err::<Token, Error>(Error::UnexpectedEof)
                && final(self).pending() == old(self).pending(),
            old(self).pending().len() > 0 ==> match old(self).pending()[0].token.lexeme {
                Lexeme::Label(_) => {
                    &&& r == Ok::<Token, Error>(old(self).pending()[0].token)
                    &&& final(self).pending() == old(self).pending().drop_first()
                },
                _ => {
                    &&& r == Err::<Token, Error>(
                        Error::ExpectedLabel(old(self).pending()[0].token),
                    )
                    &&& final(self).pending() == old(self).pending().drop_first()
                },
            },
    {
        match self.peek() {
            Some(token) => match token.lexeme {
                Lexeme::Label(_) => Ok(self.bump()),
                _ => Err(Error::ExpectedLabel(self.bump())),
            },
            None => Err(Error::UnexpectedEof),
        }
    }
}

/// The operands counted from `from` on are those counted one token later and
/// the one at `from`.
proof fn lemma_operands_ahead_step(ts: Seq<Lexed>, from: int, n: nat)
    requires
        0 <= from < ts.len(),
        n > 0,
        operand_of(ts[from].token.lexeme) is Some,
    ensures
        operands_ahead(ts, from, n) == 1 + operands_ahead(ts, from + 1, (n - 1) as nat),
{
}

impl<'t> Parser<'t> {
    /// Takes the instruction that stands next: an opcode and then as many
    /// operands as the opcode takes.
    ///
    /// On an error the offending token is passed over, unless it ends the
    /// line.
    pub fn instruction(&mut self) -> (r: Result<Instruction, Error>)
        requires
            old(self).wf(),
        ensures
            final(self).wf(),
            final(self).text() == old(self).text(),
            r == parse_instruction(old(self).pending()),
            r is Ok ==> r->Ok_0.wf(),
            final(self).pending() == old(self).pending().skip(
                instruction_span(old(self).pending()) as int,
            ),
    {
        let ghost ts = self.pending();
        proof {
            assert(ts.skip(0) =~= ts);
            if ts.len() > 0 {
                assert(ts.skip(1) =~= ts.drop_first());
            }
        }
        let opcode = match self.expect_opcode() {
            Ok(op) => op,
            Err(e) => {
                return Err(e);
            },
        };
        let line = self.lexer.coord().0 as usize;
        let mut instr = Instruction { line, label: None, opcode, operands: [None, None, None] };
        let n = opcode.arity().as_usize();
        let mut i: usize = 0;
        while i < n
            invariant
                self.wf(),
                self.text() == old(self).text(),
                ts == old(self).pending(),
                ts.len() > 0,
                ts[0].token.lexeme == Lexeme::Op(opcode),
                n == opcode.spec_arity().0,
                i <= n <= 3,
                1 + i <= ts.len(),
                self.pending() == ts.skip(1 + i),
                operands_ahead(ts, 1, n as nat) == i + operands_ahead(
                    ts,
                    1 + i,
                    (n - i) as nat,
                ),
                instr.line == ts[0].line as usize,
                instr.label is None,
                instr.opcode == opcode,
                forall|k: int|
                    0 <= k < 3 ==> #[trigger] instr.operands[k] == slot(ts, i as nat, k),
            decreases n - i,
        {
            let ghost rest = self.pending();
            match self.operand() {
                Ok(operand) => {
                    instr.operands[i] = Some(operand);
                    proof {
                        assert(rest[0] == ts[1 + i]);
                        lemma_operands_ahead_step(ts, 1 + i, (n - i) as nat);
                        assert(rest.drop_first() =~= ts.skip(2 + i));
                    }
                },
                Err(e) => {
                    proof {
                        if rest.len() > 0 {
                            assert(rest[0] == ts[1 + i]);
                            assert(rest.drop_first() =~= ts.skip(2 + i));
                        }
                    }
                    return Err(e);
                },
            }
            i += 1;
        }
        proof {
            let wanted = parse_instruction(ts)->Ok_0;
            assert(instr.operands =~= wanted.operands);
            lemma_parsed_is_wf(ts);
        }
        Ok(instr)
    }

    /// Parses the whole text: the instruction of every line that holds one,
    /// and the error of every line that is malformed.
    ///
    /// A malformed line never stops the parser: its error is recorded, the
    /// rest of the line is passed over and the next line is parsed. The
    /// result is always `Ok`.
    pub fn program(&mut self) -> (r: Result<Program, Error>)
        requires
            old(self).wf(),
        ensures
            final(self).wf(),
            final(self).text() == old(self).text(),
            final(self).pending().len() == 0,
            r is Ok,
            r->Ok_0.instrs@ == parse_program(old(self).pending()).0,
            r->Ok_0.errors@ == parse_program(old(self).pending()).1,
            forall|i: int| 0 <= i < r->Ok_0.instrs@.len() ==> (#[trigger] r->Ok_0.instrs@[i]).wf(),
    {
        proof {
            lemma_program_is_wf(self.pending());
        }
        self.skip_newlines();
        let mut program = Program { instrs: Vec::new(), errors: Vec::new() };
        while !self.is_done()
            invariant
                self.wf(),
                self.text() == old(self).text(),
                self.pending().len() > 0 ==> !(self.pending()[0].token.lexeme is Newline),
                parse_program(old(self).pending()).0 == program.instrs@ + parse_program(
                    self.pending(),
                ).0,
                parse_program(old(self).pending()).1 == program.errors@ + parse_program(
                    self.pending(),
                ).1,
            decreases self.pending().len(),
        {
            let ghost ts = self.pending();
            let ghost instrs = program.instrs@;
            let ghost errors = program.errors@;
            let ghost rest = parse_program(ts.skip(line_len(ts) as int));
            proof {
                lemma_span_within_line(ts);
                lemma_line_len_bounds(ts);
                lemma_line_len_skip(ts, instruction_span(ts) as int);
            }
            let parsed = match self.instruction() {
                Ok(instr) => match self.peek() {
                    Some(token) => {
                        if token.lexeme.is_newline() {
                            Ok(instr)
                        } else {
                            Err(Error::Unexpected(token))
                        }
                    },
                    None => Ok(instr),
                },
                Err(e) => Err(e),
            };
            assert(parsed == parse_line(ts));
            match parsed {
                Ok(instr) => {
                    program.instrs.push(instr);
                    proof {
                        assert(line_len(self.pending()) == 0);
                        assert(self.pending().skip(0) =~= self.pending());
                        assert(program.instrs@ + rest.0 =~= instrs + (seq![instr] + rest.0));
                    }
                },
                Err(e) => {
                    program.errors.push(e);
                    self.skip_line();
                    proof {
                        assert(program.errors@ + rest.1 =~= errors + (seq![e] + rest.1));
                    }
                },
            }
            assert(self.pending() == ts.skip(line_len(ts) as int));
            self.skip_newlines();
        }
        proof {
            assert(program.instrs@ + Seq::<Instruction>::empty() =~= program.instrs@);
            assert(program.errors@ + Seq::<Error>::empty() =~= program.errors@);
        }
        Ok(program)
    }
}

/// An instruction that was parsed has exactly as many operands as its opcode
/// takes: the operand tokens that follow the opcode, in their order.
pub proof fn lemma_parsed_is_wf(ts: Seq<Lexed>)
    requires
        parse_instruction(ts) is Ok,
    ensures
        parse_instruction(ts)->Ok_0.wf(),
        parse_instruction(ts)->Ok_0.opcode == ts[0].token.lexeme->Op_0,
        forall|k: int|
            0 <= k < parse_instruction(ts)->Ok_0.opcode.spec_arity().0 ==> parse_instruction(
                ts,
            )->Ok_0.operands[k] == operand_of(ts[1 + k].token.lexeme),
        parse_line(ts) is Ok ==> parse_line(ts) == parse_instruction(ts),
{
    let op = ts[0].token.lexeme->Op_0;
    lemma_operands_ahead(ts, 1, op.spec_arity().0 as nat);
}

/// Every instruction of a program has exactly as many operands as its opcode
/// takes.
pub proof fn lemma_program_is_wf(ts: Seq<Lexed>)
    ensures
        forall|i: int|
            0 <= i < parse_program(ts).0.len() ==> (#[trigger] parse_program(ts).0[i]).wf(),
    decreases ts.len(),
{
    let all = parse_program(ts).0;
    if ts.len() == 0 {
    } else if ts[0].token.lexeme is Newline {
        lemma_program_is_wf(ts.drop_first());
        assert(all == parse_program(ts.drop_first()).0);
    } else {
        lemma_line_len_bounds(ts);
        let rest = parse_program(ts.skip(line_len(ts) as int)).0;
        lemma_program_is_wf(ts.skip(line_len(ts) as int));
        match parse_line(ts) {
            Ok(instr) => {
                lemma_parsed_is_wf(ts);
                assert(all == seq![instr] + rest);
                assert forall|i: int| 0 <= i < all.len() implies (#[trigger] all[i]).wf() by {
                    if i > 0 {
                        assert(all[i] == rest[i - 1]);
                    }
                }
            },
            Err(_) => {
                assert(all == rest);
            },
        }
    }
}

/// A line that holds a mnemonic and exactly as many operands as its opcode
/// takes yields one instruction and no error: the instruction has that
/// opcode and those operands, in the order in which they stand.
pub proof fn lemma_complete_line(ts: Seq<Lexed>, op: OpCode)
    requires
        ts.len() > 0,
        ts[0].token.lexeme == Lexeme::Op(op),
        line_len(ts) == 1 + op.spec_arity().0,
        forall|k: int|
            1 <= k <= op.spec_arity().0 ==> operand_of(#[trigger] ts[k].token.lexeme) is Some,
    ensures
        parse_line(ts) is Ok,
        parse_line(ts)->Ok_0.opcode == op,
        parse_line(ts)->Ok_0.line == ts[0].line,
        parse_line(ts)->Ok_0.wf(),
        forall|k: int|
            0 <= k < op.spec_arity().0 ==> parse_line(ts)->Ok_0.operands[k] == operand_of(
                ts[1 + k].token.lexeme,
            ),
        parse_program(ts).0 == seq![parse_line(ts)->Ok_0] + parse_program(
            ts.skip(line_len(ts) as int),
        ).0,
        parse_program(ts).1 == parse_program(ts.skip(line_len(ts) as int)).1,
{
    let n = op.spec_arity().0 as nat;
    lemma_line_len_bounds(ts);
    lemma_all_operands_ahead(ts, 1, n);
    lemma_parsed_is_wf(ts);
}

/// A line that holds a mnemonic and fewer operands than its opcode takes
/// yields one error and no instruction.
pub proof fn lemma_short_line(ts: Seq<Lexed>, op: OpCode, given: nat)
    requires
        ts.len() > 0,
        ts[0].token.lexeme == Lexeme::Op(op),
        given < op.spec_arity().0,
        line_len(ts) == 1 + given,
        forall|k: int| 1 <= k <= given ==> operand_of(#[trigger] ts[k].token.lexeme) is Some,
    ensures
        parse_line(ts) == Err::<Instruction, Error>(
            if ts.len() == 1 + given {
                Error::UnexpectedEof
            } else {
                Error::ExpectedOperand(ts[1 + given as int].token)
            },
        ),
        parse_program(ts).0 == parse_program(ts.skip(line_len(ts) as int)).0,
        parse_program(ts).1 == seq![parse_line(ts)->Err_0] + parse_program(
            ts.skip(line_len(ts) as int),
        ).1,
{
    let n = op.spec_arity().0 as nat;
    lemma_line_len_bounds(ts);
    lemma_operands_ahead_stops(ts, 1, n, given);
}

/// Where `n` operands stand from `ts[from]` on, `n` are counted.
pub proof fn lemma_all_operands_ahead(ts: Seq<Lexed>, from: int, n: nat)
    requires
        0 <= from,
        from + n <= ts.len(),
        forall|k: int| from <= k < from + n ==> operand_of(#[trigger] ts[k].token.lexeme) is Some,
    ensures
        operands_ahead(ts, from, n) == n,
    decreases n,
{
    if n > 0 {
        lemma_all_operands_ahead(ts, from + 1, (n - 1) as nat);
    }
}

/// Where `given` operands stand from `ts[from]` on and then the text ends or
/// a token follows that is no operand, `given` are counted.
pub proof fn lemma_operands_ahead_stops(ts: Seq<Lexed>, from: int, n: nat, given: nat)
    requires
        0 <= from,
        given < n,
        from + given <= ts.len(),
        forall|k: int|
            from <= k < from + given ==> operand_of(#[trigger] ts[k].token.lexeme) is Some,
        from + given < ts.len() ==> operand_of(ts[from + given].token.lexeme) is None,
    ensures
        operands_ahead(ts, from, n) == given,
    decreases given,
{
    if given > 0 {
        lemma_operands_ahead_stops(ts, from + 1, (n - 1) as nat, (given - 1) as nat);
    }
}

} // verus!
