//! The lexer: source text in, tokens out, one at a time.
//!
//! The lexer works on the bytes of the text. Source text is ASCII; a byte
//! outside ASCII is part of a character that belongs to no token.

use vstd::prelude::*;
use vstd::slice::slice_subrange;
use vstd::string::{StringExecFns, StringSliceAdditionalSpecFns};
use crate::bytecode::{
    ascii_bytes, lemma_mnemonic_is_lower_case, lemma_resolve_mnemonic, upper_case, OpCode,
};
use crate::data::{Int, Reg};
use crate::text::{decimal, push_decimal, signed_decimal};

verus! {

/// The line feed, which ends a line.
pub const LINE_FEED: u8 = 10;

/// The semicolon, which starts a comment.
pub const SEMICOLON: u8 = 59;

/// The dollar sign, which starts a register.
pub const DOLLAR: u8 = 36;

/// The hash sign, which starts an integer.
pub const HASH: u8 = 35;

/// A set of bytes that a run of input can be made of.
#[derive(Copy, Clone, Debug, PartialEq, Eq, Structural)]
pub enum Class {
    /// Blanks: the space, the tab, the line feed, the vertical tab, the form
    /// feed and the carriage return.
    Space,
    /// The decimal digits.
    Digit,
    /// The hexadecimal digits, in either case.
    HexDigit,
    /// The ASCII letters.
    Letter,
    /// Every byte but the line feed.
    NotLineFeed,
    /// The bytes that continue a character of more than one byte.
    Continuation,
}

impl Class {
    /// Whether `b` belongs to this class.
    pub open spec fn holds(self, b: u8) -> bool {
        match self {
            Class::Space => b == 32 || 9 <= b <= 13,
            Class::Digit => 48 <= b <= 57,
            Class::HexDigit => 48 <= b <= 57 || 97 <= b <= 102 || 65 <= b <= 70,
            Class::Letter => 97 <= b <= 122 || 65 <= b <= 90,
            Class::NotLineFeed => b != LINE_FEED,
            Class::Continuation => 128 <= b < 192,
        }
    }

    /// Whether `b` belongs to this class.
    pub fn has(&self, b: u8) -> (r: bool)
        ensures
            r == self.holds(b),
    {
        match self {
            Class::Space => b == 32 || (9 <= b && b <= 13),
            Class::Digit => 48 <= b && b <= 57,
            Class::HexDigit => (48 <= b && b <= 57) || (97 <= b && b <= 102) || (65 <= b && b
                <= 70),
            Class::Letter => (97 <= b && b <= 122) || (65 <= b && b <= 90),
            Class::NotLineFeed => b != LINE_FEED,
            Class::Continuation => 128 <= b && b < 192,
        }
    }
}

/// Where the run of bytes of `class` that starts at `from` ends: the offset
/// of the first byte at or after `from` that is not of the class, or the end
/// of the text.
pub open spec fn run_end(src: Seq<u8>, from: int, class: Class) -> int
    decreases src.len() - from,
{
    if 0 <= from < src.len() && class.holds(src[from]) {
        run_end(src, from + 1, class)
    } else {
        from
    }
}

/// The number of line feeds among the first `pos` bytes.
pub open spec fn lines_before(src: Seq<u8>, pos: int) -> int
    decreases pos,
{
    if pos <= 0 {
        0
    } else {
        lines_before(src, pos - 1) + if src[pos - 1] == LINE_FEED {
            1int
        } else {
            0int
        }
    }
}

/// The number of characters between the start of the line that holds offset
/// `pos` and that offset.
pub open spec fn column(src: Seq<u8>, pos: int) -> int
    decreases pos,
{
    if pos <= 0 || src[pos - 1] == LINE_FEED {
        0
    } else {
        column(src, pos - 1) + if Class::Continuation.holds(src[pos - 1]) {
            0int
        } else {
            1int
        }
    }
}

/// A count as a coordinate can hold it: counts past the largest `u32` stay
/// there.
pub open spec fn clip(n: int) -> u32 {
    if n > u32::MAX {
        u32::MAX
    } else {
        n as u32
    }
}

/// The line and column of offset `pos`. Lines are counted from one, columns
/// from zero.
pub open spec fn coord_at(src: Seq<u8>, pos: int) -> (u32, u32) {
    (clip(1 + lines_before(src, pos)), clip(column(src, pos)))
}

/// The value of one digit, decimal or hexadecimal.
pub open spec fn digit_value(b: u8) -> int {
    if 48 <= b <= 57 {
        b - 48
    } else if 97 <= b <= 102 {
        b - 87
    } else {
        b - 55
    }
}

/// The number that a run of digits writes in base `radix`.
pub open spec fn digits_value(digits: Seq<u8>, radix: int) -> int
    decreases digits.len(),
{
    if digits.len() == 0 {
        0
    } else {
        digits_value(digits.drop_last(), radix) * radix + digit_value(digits.last())
    }
}

/// One lexical unit. The three markers of a lexical error hold the span of
/// the offending bytes: the offset of its first byte and the offset after its
/// last.
#[derive(Copy, Clone, Debug, PartialEq, Eq)]
pub enum Lexeme {
    /// One or more line boundaries.
    Newline,
    /// The mnemonic of an opcode.
    Op(OpCode),
    /// A register: `$` and digits.
    Reg(Reg),
    /// An integer: `#` and digits.
    Int(Int),
    /// A label.
    Label(&'static str),
    /// A `#` that no valid integer follows.
    InvalidInt(usize, usize),
    /// A `$` and digits that write no valid register.
    InvalidReg(usize, usize),
    /// Bytes that form no token.
    Unknown(usize, usize),
    /// The end of the text.
    Eof,
}

impl Lexeme {
    /// Whether this is the line boundary.
    pub fn is_newline(&self) -> (b: bool)
        ensures
            b == (*self is Newline),
    {
        matches!(self, Lexeme::Newline)
    }

    /// Whether this is the end of the text.
    pub fn is_eof(&self) -> (b: bool)
        ensures
            b == (*self is Eof),
    {
        matches!(self, Lexeme::Eof)
    }
}

/// The text of a marker of a lexical error: its name and its span.
pub open spec fn marker_text(name: Seq<char>, from: usize, to: usize) -> Seq<char> {
    seq!['<'] + name + seq!['@'] + decimal(from as nat) + seq![':'] + decimal(to as nat)
        + seq!['>']
}

/// Writes a marker of a lexical error.
fn marker(name: &str, from: usize, to: usize) -> (s: String)
    ensures
        s@ == marker_text(name@, from, to),
{
    proof {
        reveal_strlit("<");
        reveal_strlit("@");
        reveal_strlit(":");
        reveal_strlit(">");
    }
    let mut s = String::from_str("<");
    s.append(name);
    s.append("@");
    push_decimal(&mut s, from as u64);
    s.append(":");
    push_decimal(&mut s, to as u64);
    s.append(">");
    assert(s@ =~= marker_text(name@, from, to));
    s
}

impl Lexeme {
    /// How the lexeme is shown in messages.
    pub open spec fn text(self) -> Seq<char> {
        match self {
            Lexeme::Newline => "\n"@,
            Lexeme::Op(op) => op.mnemonic(),
            Lexeme::Reg(r) => decimal(r.0 as nat),
            Lexeme::Int(n) => signed_decimal(n.0 as int),
            Lexeme::Label(name) => name@,
            Lexeme::InvalidInt(from, to) => marker_text("INVALID_INT"@, from, to),
            Lexeme::InvalidReg(from, to) => marker_text("INVALID_REG"@, from, to),
            Lexeme::Unknown(from, to) => marker_text("UNKNOWN_TOK"@, from, to),
            Lexeme::Eof => "EOF"@,
        }
    }

    /// How the lexeme is shown in messages: an opcode by its mnemonic, a
    /// register and an integer by their digits, a marker of an error by its
    /// name and span.
    pub fn to_string(&self) -> (s: String)
        ensures
            s@ == self.text(),
    {
        match self {
            Lexeme::Newline => String::from_str("\n"),
            Lexeme::Op(op) => String::from_str(op.as_str()),
            Lexeme::Reg(r) => r.to_string(),
            Lexeme::Int(n) => n.to_string(),
            Lexeme::Label(name) => String::from_str(name),
            Lexeme::InvalidInt(from, to) => marker("INVALID_INT", *from, *to),
            Lexeme::InvalidReg(from, to) => marker("INVALID_REG", *from, *to),
            Lexeme::Unknown(from, to) => marker("UNKNOWN_TOK", *from, *to),
            Lexeme::Eof => String::from_str("EOF"),
        }
    }
}

/// A token of the source text.
#[derive(Copy, Clone, Debug, PartialEq, Eq)]
pub struct Token {
    /// What the token is.
    pub lexeme: Lexeme,
}

impl Token {
    /// How the token is shown in messages: as its lexeme is.
    pub fn to_string(&self) -> (s: String)
        ensures
            s@ == self.lexeme.text(),
    {
        self.lexeme.to_string()
    }
}

/// A run ends at or after its start, and inside the text when it starts
/// there.
pub proof fn lemma_run_end_bounds(src: Seq<u8>, from: int, class: Class)
    ensures
        from <= run_end(src, from, class),
        from <= src.len() ==> run_end(src, from, class) <= src.len(),
    decreases src.len() - from,
{
    if 0 <= from < src.len() && class.holds(src[from]) {
        lemma_run_end_bounds(src, from + 1, class);
    }
}

/// Every byte of a run is of its class, and the byte after it, if there is
/// one, is not.
pub proof fn lemma_run_end_holds(src: Seq<u8>, from: int, class: Class)
    requires
        0 <= from,
    ensures
        forall|i: int| from <= i < run_end(src, from, class) ==> class.holds(#[trigger] src[i]),
        run_end(src, from, class) < src.len() ==> !class.holds(src[run_end(src, from, class)]),
    decreases src.len() - from,
{
    if from < src.len() && class.holds(src[from]) {
        lemma_run_end_holds(src, from + 1, class);
    }
}

/// What the digits of a number must not exceed, and what is reported when
/// no valid number stands at `from`: the span of the digits found there.
pub open spec fn read_number(src: Seq<u8>, from: int, hex: bool, limit: int) -> Result<
    int,
    (usize, usize),
> {
    let class = if hex {
        Class::HexDigit
    } else {
        Class::Digit
    };
    let radix = if hex {
        16int
    } else {
        10int
    };
    let end = run_end(src, from, class);
    let value = digits_value(src.subrange(from, end), radix);
    if end > from && value <= limit {
        Ok(value)
    } else {
        Err((from as usize, end as usize))
    }
}

/// The token that starts at offset `p`, which holds neither a blank nor the
/// start of a comment, and the offset after the token.
///
/// A `$` followed by a hexadecimal digit starts a register: its digits are
/// read as an unsigned 32-bit number in base sixteen, of which the register
/// keeps the low eight bits; digits that write a larger number are an invalid
/// register. A `#` starts an integer: the decimal digits after it are read as
/// a signed 32-bit number; no digits, or digits that write a larger number,
/// are an invalid integer. A letter starts a word of letters, which is the
/// mnemonic of an opcode or else unknown. Any other character is unknown by
/// itself.
pub open spec fn scan(src: Seq<u8>, p: int) -> (Lexeme, int) {
    let b = src[p];
    if b == DOLLAR && p + 1 < src.len() && Class::HexDigit.holds(src[p + 1]) {
        let end = run_end(src, p + 1, Class::HexDigit);
        match read_number(src, p + 1, true, u32::MAX as int) {
            Ok(value) => (Lexeme::Reg(Reg((value % 256) as u8)), end),
            Err(span) => (Lexeme::InvalidReg(span.0, span.1), end),
        }
    } else if b == HASH {
        let end = run_end(src, p + 1, Class::Digit);
        match read_number(src, p + 1, false, i32::MAX as int) {
            Ok(value) => (Lexeme::Int(Int(value as i32)), end),
            Err(span) => (Lexeme::InvalidInt(span.0, span.1), end),
        }
    } else if Class::Letter.holds(b) {
        let end = run_end(src, p, Class::Letter);
        match OpCode::resolve(src.subrange(p, end)) {
            Some(op) => (Lexeme::Op(op), end),
            None => (Lexeme::Unknown(p as usize, end as usize), end),
        }
    } else {
        let end = run_end(src, p + 1, Class::Continuation);
        (Lexeme::Unknown(p as usize, end as usize), end)
    }
}

/// The next token at or after offset `pos`, and the offset after it.
///
/// Blanks are skipped first. If a line boundary was among them, the token is
/// a `Newline` and nothing more is consumed. At the end of the text the token
/// is `Eof`. A `;` starts a comment that runs up to the end of the line; the
/// token is the one after the comment.
pub open spec fn lex(src: Seq<u8>, pos: int) -> (Lexeme, int)
    decreases src.len() - pos,
    when 0 <= pos
{
    let p = run_end(src, pos, Class::Space);
    if lines_before(src, p) > lines_before(src, pos) {
        (Lexeme::Newline, p)
    } else if p >= src.len() {
        (Lexeme::Eof, p)
    } else if src[p] == SEMICOLON {
        proof {
            lemma_run_end_bounds(src, pos, Class::Space);
            lemma_run_end_bounds(src, p + 1, Class::NotLineFeed);
        }
        lex(src, run_end(src, p + 1, Class::NotLineFeed))
    } else {
        scan(src, p)
    }
}

/// A token together with the line on which it ends.
pub struct Lexed {
    /// The token.
    pub token: Token,
    /// The line, counted from one.
    pub line: u32,
}

/// The tokens at or after offset `pos`, up to the end of the text. The `Eof`
/// is not among them.
pub open spec fn tokens_from(src: Seq<u8>, pos: int) -> Seq<Lexed>
    decreases src.len() - pos,
    when 0 <= pos <= src.len()
{
    let (lexeme, end) = lex(src, pos);
    if lexeme is Eof {
        Seq::empty()
    } else {
        proof {
            lemma_lex_advances(src, pos);
        }
        seq![Lexed { token: Token { lexeme }, line: coord_at(src, end).0 }] + tokens_from(
            src,
            end,
        )
    }
}

/// The lexer never leaves the text, and every token but `Eof` consumes at
/// least one byte.
pub proof fn lemma_lex_advances(src: Seq<u8>, pos: int)
    requires
        0 <= pos <= src.len(),
    ensures
        pos <= lex(src, pos).1 <= src.len(),
        !(lex(src, pos).0 is Eof) ==> pos < lex(src, pos).1,
    decreases src.len() - pos,
{
    let p = run_end(src, pos, Class::Space);
    lemma_run_end_bounds(src, pos, Class::Space);
    if lines_before(src, p) > lines_before(src, pos) {
    } else if p >= src.len() {
    } else if src[p] == SEMICOLON {
        lemma_run_end_bounds(src, p + 1, Class::NotLineFeed);
        lemma_lex_advances(src, run_end(src, p + 1, Class::NotLineFeed));
    } else {
        lemma_run_end_bounds(src, p + 1, Class::HexDigit);
        lemma_run_end_bounds(src, p + 1, Class::Digit);
        lemma_run_end_bounds(src, p + 1, Class::Letter);
        lemma_run_end_bounds(src, p + 1, Class::Continuation);
        if Class::Letter.holds(src[p]) {
            assert(run_end(src, p, Class::Letter) == run_end(src, p + 1, Class::Letter));
        }
    }
}

/// Once the lexer has reported the end of the text, it reports it again from
/// where it stopped, and stays there.
pub proof fn lemma_eof_is_stable(src: Seq<u8>, pos: int)
    requires
        0 <= pos <= src.len(),
        lex(src, pos).0 is Eof,
    ensures
        lex(src, lex(src, pos).1) == lex(src, pos),
        tokens_from(src, lex(src, pos).1) == Seq::<Lexed>::empty(),
    decreases src.len() - pos,
{
    let p = run_end(src, pos, Class::Space);
    lemma_run_end_bounds(src, pos, Class::Space);
    lemma_lex_advances(src, pos);
    if lines_before(src, p) > lines_before(src, pos) {
    } else if p >= src.len() {
        assert(run_end(src, p, Class::Space) == p);
    } else if src[p] == SEMICOLON {
        lemma_run_end_bounds(src, p + 1, Class::NotLineFeed);
        lemma_eof_is_stable(src, run_end(src, p + 1, Class::NotLineFeed));
    } else {
        lemma_run_end_bounds(src, p + 1, Class::HexDigit);
        lemma_run_end_bounds(src, p + 1, Class::Digit);
        lemma_run_end_bounds(src, p + 1, Class::Letter);
        lemma_run_end_bounds(src, p + 1, Class::Continuation);
        if Class::Letter.holds(src[p]) {
            assert(run_end(src, p, Class::Letter) == run_end(src, p + 1, Class::Letter));
        }
    }
}

/// Counts of lines and columns are never negative, and the count of lines
/// never falls as the offset grows.
pub proof fn lemma_counts(src: Seq<u8>, pos: int)
    ensures
        0 <= lines_before(src, pos),
        0 <= column(src, pos),
        lines_before(src, pos) <= lines_before(src, pos + 1),
    decreases pos,
{
    if pos > 0 {
        lemma_counts(src, pos - 1);
    }
}

/// A run of digits writes no negative number.
pub proof fn lemma_digits_value_bounds(digits: Seq<u8>, radix: int)
    requires
        radix >= 1,
        forall|i: int| 0 <= i < digits.len() ==> Class::HexDigit.holds(#[trigger] digits[i]),
    ensures
        0 <= digits_value(digits, radix),
    decreases digits.len(),
{
    if digits.len() > 0 {
        lemma_digits_value_bounds(digits.drop_last(), radix);
        lemma_more_digits_is_more(
            digits_value(digits.drop_last(), radix),
            radix,
            digit_value(digits.last()),
        );
    }
}

/// The number that the first `n + 1` digits of a run write, from the number
/// that the first `n` write.
proof fn lemma_digits_value_step(src: Seq<u8>, from: int, to: int, radix: int)
    requires
        0 <= from <= to < src.len(),
    ensures
        digits_value(src.subrange(from, to + 1), radix) == digits_value(
            src.subrange(from, to),
            radix,
        ) * radix + digit_value(src[to]),
{
    assert(src.subrange(from, to + 1).drop_last() =~= src.subrange(from, to));
}

/// A number does not shrink when a digit is appended to it.
proof fn lemma_more_digits_is_more(value: int, radix: int, digit: int)
    by (nonlinear_arith)
    requires
        value >= 0,
        radix >= 1,
        digit >= 0,
    ensures
        value * radix + digit >= value,
{
}

/// The number that the digits in `src[from..to]` write in base sixteen or
/// ten, if it does not exceed `limit`.
fn digits_to_number(src: &[u8], from: usize, to: usize, hex: bool, limit: u64) -> (r: Option<u64>)
    requires
        from <= to <= src.len(),
        limit <= u32::MAX,
        forall|i: int| from <= i < to ==> Class::HexDigit.holds(#[trigger] src@[i]),
    ensures
        r == (if digits_value(
            src@.subrange(from as int, to as int),
            if hex {
                16int
            } else {
                10int
            },
        ) <= limit {
            Some(
                digits_value(
                    src@.subrange(from as int, to as int),
                    if hex {
                        16int
                    } else {
                        10int
                    },
                ) as u64,
            )
        } else {
            None
        }),
{
    let radix: u64 = if hex {
        16
    } else {
        10
    };
    let mut value: u64 = 0;
    let mut fits = true;
    let mut i: usize = from;
    assert(src@.subrange(from as int, from as int) =~= Seq::<u8>::empty());
    while i < to
        invariant
            from <= i <= to <= src.len(),
            limit <= u32::MAX,
            radix == (if hex {
                16int
            } else {
                10int
            }),
            forall|i: int| from <= i < to ==> Class::HexDigit.holds(#[trigger] src@[i]),
            0 <= digits_value(src@.subrange(from as int, i as int), radix as int),
            fits ==> value == digits_value(src@.subrange(from as int, i as int), radix as int)
                && value <= limit,
            !fits ==> digits_value(src@.subrange(from as int, i as int), radix as int) > limit,
        decreases to - i,
    {
        let b = src[i];
        let digit: u64 = if 48 <= b && b <= 57 {
            (b - 48) as u64
        } else if 97 <= b && b <= 102 {
            (b - 87) as u64
        } else {
            (b - 55) as u64
        };
        proof {
            lemma_digits_value_step(src@, from as int, i as int, radix as int);
            lemma_more_digits_is_more(
                digits_value(src@.subrange(from as int, i as int), radix as int),
                radix as int,
                digit as int,
            );
        }
        if fits {
            assert(value * radix + digit <= 0xffff_ffff * 16 + 15) by (nonlinear_arith)
                requires
                    value <= 0xffff_ffff,
                    radix <= 16,
                    digit <= 15,
            ;
            value = value * radix + digit;
            if value > limit {
                fits = false;
            }
        }
        i += 1;
    }
    if fits {
        Some(value)
    } else {
        None
    }
}

/// A lexer over one source text.
///
/// The lexer hands out the tokens of the text one by one and can hold one
/// token that was looked at but not yet taken.
#[derive(Clone, Debug)]
pub struct Lexer<'t> {
    input: &'t str,
    src: &'t [u8],
    current: Option<Token>,
    ln: u32,
    col: u32,
    byte: usize,
    eol: bool,
}

impl<'t> Lexer<'t> {
    /// The bytes of the source text.
    pub closed spec fn text(&self) -> Seq<u8> {
        self.src@
    }

    /// The offset of the first byte that has not been consumed.
    pub closed spec fn offset(&self) -> int {
        self.byte as int
    }

    /// The token that was looked at but not yet taken, if any.
    pub closed spec fn peeked(&self) -> Option<Token> {
        self.current
    }

    /// The line and column of the offset.
    pub closed spec fn position(&self) -> (u32, u32) {
        (self.ln, self.col)
    }

    /// Whether a line feed was consumed since blanks were last skipped.
    pub closed spec fn crossed(&self) -> bool {
        self.eol
    }

    /// The invariant of the lexer: the offset lies in the text and the
    /// position is that of the offset.
    pub closed spec fn wf(&self) -> bool {
        &&& self.src@ == self.input.spec_bytes()
        &&& self.byte <= self.src@.len()
        &&& (self.ln, self.col) == coord_at(self.src@, self.byte as int)
    }

    /// The tokens that the lexer has yet to hand out, each with the line on
    /// which it ends: the token that was looked at, if any, and then those
    /// of the text that has not been consumed.
    pub open spec fn pending(&self) -> Seq<Lexed> {
        match self.peeked() {
            Some(token) => seq![Lexed { token, line: self.position().0 }] + tokens_from(
                self.text(),
                self.offset(),
            ),
            None => tokens_from(self.text(), self.offset()),
        }
    }

    /// What the invariant says, for those who cannot see the fields.
    pub proof fn lemma_wf(&self)
        requires
            self.wf(),
        ensures
            0 <= self.offset() <= self.text().len(),
            self.position() == coord_at(self.text(), self.offset()),
    {
    }

    /// A lexer at the start of `s`.
    pub fn new(s: &'t str) -> (lexer: Lexer<'t>)
        ensures
            lexer.wf(),
            lexer.text() == s.spec_bytes(),
            lexer.offset() == 0,
            lexer.peeked() is None,
    {
        let src = s.as_bytes();
        Lexer {
            input: s,
            src,
            current: None,
            ln: 1,
            col: 0,
            byte: 0,
            eol: src.len() > 0 && src[0] == LINE_FEED,
        }
    }

    /// The source text.
    pub fn source(&self) -> (s: &str)
        requires
            self.wf(),
        ensures
            s.spec_bytes() == self.text(),
    {
        self.input
    }

    /// The line and column of the first byte that has not been consumed.
    /// Lines are counted from one, columns from zero.
    pub fn coord(&self) -> (c: (u32, u32))
        requires
            self.wf(),
        ensures
            c == coord_at(self.text(), self.offset()),
            c == self.position(),
    {
        (self.ln, self.col)
    }

    /// The first byte that has not been consumed, if any. It stays where it
    /// is.
    pub fn peek_char(&self) -> (c: Option<u8>)
        requires
            self.wf(),
        ensures
            c == (if self.offset() < self.text().len() {
                Some(self.text()[self.offset()])
            } else {
                None
            }),
    {
        if self.byte < self.src.len() {
            Some(self.src[self.byte])
        } else {
            None
        }
    }

    /// Consumes one byte, if any is left, and returns it.
    pub fn next_char(&mut self) -> (c: Option<u8>)
        requires
            old(self).wf(),
        ensures
            final(self).wf(),
            final(self).text() == old(self).text(),
            final(self).peeked() == old(self).peeked(),
            old(self).offset() < old(self).text().len() ==> {
                &&& c == Some(old(self).text()[old(self).offset()])
                &&& final(self).offset() == old(self).offset() + 1
                &&& final(self).crossed() == (old(self).crossed() || c == Some(LINE_FEED))
            },
            old(self).offset() >= old(self).text().len() ==> {
                &&& c is None
                &&& final(self).offset() == old(self).offset()
                &&& final(self).crossed() == old(self).crossed()
            },
    {
        if self.byte >= self.src.len() {
            return None;
        }
        let c = self.src[self.byte];
        proof {
            lemma_counts(self.src@, self.byte as int);
        }
        self.byte += 1;
        if c == LINE_FEED {
            if self.ln < u32::MAX {
                self.ln += 1;
            }
            self.col = 0;
            self.eol = true;
        } else if !Class::Continuation.has(c) {
            if self.col < u32::MAX {
                self.col += 1;
            }
        }
        Some(c)
    }

    /// Consumes the run of bytes of `class` that starts at the offset, and
    /// returns its span.
    pub fn eat_while(&mut self, class: Class) -> (span: (usize, usize))
        requires
            old(self).wf(),
        ensures
            final(self).wf(),
            final(self).text() == old(self).text(),
            final(self).peeked() == old(self).peeked(),
            span.0 == old(self).offset(),
            span.1 == run_end(old(self).text(), old(self).offset(), class),
            final(self).offset() == span.1,
            final(self).crossed() == (old(self).crossed() || lines_before(
                old(self).text(),
                span.1 as int,
            ) > lines_before(old(self).text(), span.0 as int)),
    {
        let start = self.byte;
        while self.byte < self.src.len() && class.has(self.src[self.byte])
            invariant
                self.wf(),
                self.text() == old(self).text(),
                self.peeked() == old(self).peeked(),
                start == old(self).offset(),
                start <= self.byte,
                run_end(self.src@, start as int, class) == run_end(
                    self.src@,
                    self.byte as int,
                    class,
                ),
                self.eol == (old(self).crossed() || lines_before(self.src@, self.byte as int)
                    > lines_before(self.src@, start as int)),
                lines_before(self.src@, self.byte as int) >= lines_before(
                    self.src@,
                    start as int,
                ),
            decreases self.src.len() - self.byte,
        {
            proof {
                lemma_counts(self.src@, self.byte as int);
            }
            self.next_char();
        }
        (start, self.byte)
    }

    /// Consumes the blanks at the offset and returns their span. Afterwards
    /// the lexer knows whether a line boundary was among them.
    pub fn eat_whitespace(&mut self) -> (span: (usize, usize))
        requires
            old(self).wf(),
        ensures
            final(self).wf(),
            final(self).text() == old(self).text(),
            final(self).peeked() == old(self).peeked(),
            span.0 == old(self).offset(),
            span.1 == run_end(old(self).text(), old(self).offset(), Class::Space),
            final(self).offset() == span.1,
            final(self).crossed() == (lines_before(old(self).text(), span.1 as int)
                > lines_before(old(self).text(), span.0 as int)),
    {
        self.eol = false;
        self.eat_while(Class::Space)
    }
}

impl<'t> Lexer<'t> {
    /// Consumes the digits at the offset, hexadecimal or decimal, and returns
    /// the number they write, or their span if there are none or the number
    /// exceeds `limit`.
    fn number(&mut self, hex: bool, limit: u64) -> (r: Result<u64, (usize, usize)>)
        requires
            old(self).wf(),
            limit <= u32::MAX,
        ensures
            final(self).wf(),
            final(self).text() == old(self).text(),
            final(self).peeked() == old(self).peeked(),
            final(self).offset() == run_end(
                old(self).text(),
                old(self).offset(),
                if hex {
                    Class::HexDigit
                } else {
                    Class::Digit
                },
            ),
            r is Ok ==> read_number(old(self).text(), old(self).offset(), hex, limit as int)
                == Ok::<int, (usize, usize)>(r->Ok_0 as int),
            r is Err ==> read_number(old(self).text(), old(self).offset(), hex, limit as int)
                == Err::<int, (usize, usize)>(r->Err_0),
    {
        let class = if hex {
            Class::HexDigit
        } else {
            Class::Digit
        };
        let (start, end) = self.eat_while(class);
        proof {
            lemma_run_end_bounds(self.src@, start as int, class);
            lemma_run_end_holds(self.src@, start as int, class);
            lemma_digits_value_bounds(
                self.src@.subrange(start as int, end as int),
                if hex {
                    16
                } else {
                    10
                },
            );
        }
        if start == end {
            return Err((start, end));
        }
        match digits_to_number(self.src, start, end, hex, limit) {
            Some(value) => Ok(value),
            None => Err((start, end)),
        }
    }

    /// Consumes the word of letters at the offset and returns the opcode it
    /// names, or else the unknown token that it is.
    fn ident(&mut self) -> (t: Token)
        requires
            old(self).wf(),
        ensures
            final(self).wf(),
            final(self).text() == old(self).text(),
            final(self).peeked() == old(self).peeked(),
            final(self).offset() == run_end(old(self).text(), old(self).offset(), Class::Letter),
            t.lexeme == (match OpCode::resolve(
                old(self).text().subrange(old(self).offset(), final(self).offset()),
            ) {
                Some(op) => Lexeme::Op(op),
                None => Lexeme::Unknown(old(self).offset() as usize, final(self).offset() as usize),
            }),
    {
        let (start, end) = self.eat_while(Class::Letter);
        proof {
            lemma_run_end_bounds(self.src@, start as int, Class::Letter);
        }
        match OpCode::from_bytes(slice_subrange(self.src, start, end)) {
            Some(op) => Token { lexeme: Lexeme::Op(op) },
            None => Token { lexeme: Lexeme::Unknown(start, end) },
        }
    }

    /// Consumes the token that starts at the offset, which holds neither a
    /// blank nor the start of a comment.
    fn scan(&mut self) -> (t: Token)
        requires
            old(self).wf(),
            old(self).offset() < old(self).text().len(),
        ensures
            final(self).wf(),
            final(self).text() == old(self).text(),
            final(self).peeked() == old(self).peeked(),
            (t.lexeme, final(self).offset()) == scan(old(self).text(), old(self).offset()),
    {
        let start = self.byte;
        let c = self.src[start];
        if c == HASH {
            self.next_char();
            return match self.number(false, 0x7fff_ffff) {
                Ok(value) => Token { lexeme: Lexeme::Int(Int(value as i32)) },
                Err(span) => Token { lexeme: Lexeme::InvalidInt(span.0, span.1) },
            };
        }
        if Class::Letter.has(c) {
            return self.ident();
        }
        self.next_char();
        if c == DOLLAR {
            let digit = match self.peek_char() {
                Some(d) => Class::HexDigit.has(d),
                None => false,
            };
            if digit {
                return match self.number(true, 0xffff_ffff) {
                    Ok(value) => Token { lexeme: Lexeme::Reg(Reg((value % 256) as u8)) },
                    Err(span) => Token { lexeme: Lexeme::InvalidReg(span.0, span.1) },
                };
            }
        }
        let (_, end) = self.eat_while(Class::Continuation);
        Token { lexeme: Lexeme::Unknown(start, end) }
    }

    /// Consumes the next token of the text and returns it. A token that was
    /// looked at and not yet taken stays where it is.
    ///
    /// At the end of the text the token is `Eof`, and it is `Eof` again on
    /// every later call.
    pub fn token(&mut self) -> (t: Token)
        requires
            old(self).wf(),
        ensures
            final(self).wf(),
            final(self).text() == old(self).text(),
            final(self).peeked() == old(self).peeked(),
            t.lexeme == lex(old(self).text(), old(self).offset()).0,
            final(self).offset() == lex(old(self).text(), old(self).offset()).1,
            t.lexeme is Eof ==> lex(final(self).text(), final(self).offset()) == (
                Lexeme::Eof,
                final(self).offset(),
            ),
    {
        proof {
            if lex(self.src@, self.byte as int).0 is Eof {
                lemma_eof_is_stable(self.src@, self.byte as int);
            }
        }
        loop
            invariant
                self.wf(),
                self.text() == old(self).text(),
                self.peeked() == old(self).peeked(),
                lex(self.text(), self.offset()) == lex(old(self).text(), old(self).offset()),
            decreases self.src.len() - self.byte,
        {
            let ghost before = self.byte as int;
            proof {
                lemma_run_end_bounds(self.src@, before, Class::Space);
            }
            self.eat_whitespace();
            if self.eol {
                self.eol = false;
                return Token { lexeme: Lexeme::Newline };
            }
            match self.peek_char() {
                None => {
                    return Token { lexeme: Lexeme::Eof };
                },
                Some(c) => {
                    if c != SEMICOLON {
                        return self.scan();
                    }
                    proof {
                        lemma_run_end_bounds(self.src@, self.byte + 1, Class::NotLineFeed);
                    }
                    self.eat_while(Class::NotLineFeed);
                },
            }
        }
    }

    /// Looks at the next token without taking it. `None` stands for the end
    /// of the text.
    pub fn peek_tok(&mut self) -> (t: Option<Token>)
        requires
            old(self).wf(),
        ensures
            final(self).wf(),
            final(self).text() == old(self).text(),
            final(self).pending() == old(self).pending(),
            old(self).pending().len() == 0 ==> t is None && final(self).peeked() is None,
            old(self).pending().len() > 0 ==> {
                &&& t == Some(old(self).pending()[0].token)
                &&& final(self).peeked() == t
                &&& final(self).position().0 == old(self).pending()[0].line
            },
    {
        match self.current {
            Some(token) => Some(token),
            None => {
                proof {
                    lemma_lex_advances(self.src@, self.byte as int);
                    if lex(self.src@, self.byte as int).0 is Eof {
                        lemma_eof_is_stable(self.src@, self.byte as int);
                    }
                }
                let token = self.token();
                if token.lexeme.is_eof() {
                    None
                } else {
                    self.current = Some(token);
                    Some(token)
                }
            },
        }
    }

    /// Takes the next token. `None` stands for the end of the text, and is
    /// returned again on every later call.
    pub fn next(&mut self) -> (t: Option<Token>)
        requires
            old(self).wf(),
        ensures
            final(self).wf(),
            final(self).text() == old(self).text(),
            final(self).peeked() is None,
            old(self).pending().len() == 0 ==> t is None && final(self).pending() == old(
                self,
            ).pending(),
            old(self).pending().len() > 0 ==> {
                &&& t == Some(old(self).pending()[0].token)
                &&& final(self).pending() == old(self).pending().drop_first()
                &&& final(self).position().0 == old(self).pending()[0].line
            },
    {
        match self.current {
            Some(token) => {
                self.current = None;
                assert(self.pending() =~= old(self).pending().drop_first());
                Some(token)
            },
            None => {
                proof {
                    lemma_lex_advances(self.src@, self.byte as int);
                    if lex(self.src@, self.byte as int).0 is Eof {
                        lemma_eof_is_stable(self.src@, self.byte as int);
                    }
                }
                let token = self.token();
                if token.lexeme.is_eof() {
                    None
                } else {
                    assert(self.pending() =~= old(self).pending().drop_first());
                    Some(token)
                }
            },
        }
    }
}

/// A run ends where the bytes of its class end.
pub proof fn lemma_run_end_is(src: Seq<u8>, from: int, to: int, class: Class)
    requires
        0 <= from <= to <= src.len(),
        forall|i: int| from <= i < to ==> class.holds(#[trigger] src[i]),
        to < src.len() ==> !class.holds(src[to]),
    ensures
        run_end(src, from, class) == to,
    decreases to - from,
{
    if from < to {
        lemma_run_end_is(src, from + 1, to, class);
    }
}

/// A mnemonic in either spelling, with no letter after it, is the token of
/// its opcode.
pub proof fn lemma_scan_mnemonic(src: Seq<u8>, p: int, op: OpCode, upper: bool)
    requires
        0 <= p,
        p + op.mnemonic().len() <= src.len(),
        src.subrange(p, p + op.mnemonic().len()) == ascii_bytes(
            if upper {
                upper_case(op.mnemonic())
            } else {
                op.mnemonic()
            },
        ),
        p + op.mnemonic().len() < src.len() ==> !Class::Letter.holds(
            src[p + op.mnemonic().len()],
        ),
    ensures
        scan(src, p) == (Lexeme::Op(op), p + op.mnemonic().len()),
{
    let end = p + op.mnemonic().len();
    let word = src.subrange(p, end);
    lemma_mnemonic_is_lower_case(op);
    lemma_resolve_mnemonic(op);
    assert forall|i: int| p <= i < end implies Class::Letter.holds(#[trigger] src[i]) by {
        assert(src[i] == word[i - p]);
        assert('a' <= op.mnemonic()[i - p] <= 'z');
    }
    lemma_run_end_is(src, p, end, Class::Letter);
    assert(Class::Letter.holds(src[p]));
    assert(src[p] != DOLLAR && src[p] != HASH);
}

} // verus!
