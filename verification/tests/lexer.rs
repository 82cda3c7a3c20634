use toy_vm::assembler::lexer::{Class, Lexeme, Lexer, Token};
use toy_vm::bytecode::OpCode;
use toy_vm::data::{Int, Reg};

fn lexemes(src: &str) -> Vec<Lexeme> {
    let mut lexer = Lexer::new(src);
    let mut out = vec![];
    while let Some(token) = lexer.next() {
        out.push(token.lexeme);
    }
    out
}

#[test]
fn test_registers() {
    let mut lexer = Lexer::new(" $1 $2");
    let mut i = 0;
    while let Some(tok) = lexer.next() {
        assert_eq!(
            Token {
                lexeme: Lexeme::Reg(Reg((i + 1) as u8)),
            },
            tok
        );
        i += 1;
    }
    assert_eq!(i, 2);
}

#[test]
fn empty_text_is_eof() {
    let mut lexer = Lexer::new("");
    assert_eq!(lexer.token().lexeme, Lexeme::Eof);
    assert_eq!(lexer.next(), None);
    assert_eq!(lexer.peek_tok(), None);
}

#[test]
fn eof_is_returned_again_and_again() {
    let mut lexer = Lexer::new("halt  ; done\t ");
    assert_eq!(lexer.token().lexeme, Lexeme::Op(OpCode::Halt));
    for _ in 0..5 {
        assert_eq!(lexer.token().lexeme, Lexeme::Eof);
        assert!(lexer.token().lexeme.is_eof());
    }
    assert_eq!(lexer.next(), None);
    assert_eq!(lexer.next(), None);
    assert_eq!(lexer.peek_tok(), None);
    assert_eq!(lexer.peek_char(), None);
    assert_eq!(lexer.next_char(), None);
}

#[test]
fn a_line_of_assembly() {
    assert_eq!(
        lexemes("load $0 #500"),
        vec![
            Lexeme::Op(OpCode::Load),
            Lexeme::Reg(Reg(0)),
            Lexeme::Int(Int(500)),
        ]
    );
    assert_eq!(
        lexemes("ADD $0 $1 $2"),
        vec![
            Lexeme::Op(OpCode::Add),
            Lexeme::Reg(Reg(0)),
            Lexeme::Reg(Reg(1)),
            Lexeme::Reg(Reg(2)),
        ]
    );
}

#[test]
fn every_mnemonic_lexes_in_both_cases() {
    for op in OpCode::VARIANTS {
        assert_eq!(lexemes(op.as_str()), vec![Lexeme::Op(op)]);
        assert_eq!(lexemes(&op.as_str().to_uppercase()), vec![Lexeme::Op(op)]);
    }
}

#[test]
fn one_newline_for_a_run_of_blank_lines() {
    assert_eq!(
        lexemes("halt\n\n \n\t\nhalt"),
        vec![
            Lexeme::Op(OpCode::Halt),
            Lexeme::Newline,
            Lexeme::Op(OpCode::Halt),
        ]
    );
    assert_eq!(lexemes("\nhalt\n"), vec![Lexeme::Newline, Lexeme::Op(OpCode::Halt), Lexeme::Newline]);
    assert_eq!(lexemes("halt \r\n"), vec![Lexeme::Op(OpCode::Halt), Lexeme::Newline]);
    assert_eq!(lexemes("  \t "), vec![]);
}

#[test]
fn is_newline_and_is_eof() {
    assert!(Lexeme::Newline.is_newline());
    assert!(!Lexeme::Eof.is_newline());
    assert!(Lexeme::Eof.is_eof());
    assert!(!Lexeme::Newline.is_eof());
    assert!(!Lexeme::Op(OpCode::Halt).is_eof());
    assert!(!Lexeme::Label("x").is_newline());
}

#[test]
fn comments_are_invisible() {
    assert_eq!(
        lexemes("load $0 #1 ; set up\nhalt ; stop"),
        vec![
            Lexeme::Op(OpCode::Load),
            Lexeme::Reg(Reg(0)),
            Lexeme::Int(Int(1)),
            Lexeme::Newline,
            Lexeme::Op(OpCode::Halt),
        ]
    );
    assert_eq!(lexemes("; only a comment"), vec![]);
    assert_eq!(lexemes(";a\n;b\nhalt"), vec![Lexeme::Newline, Lexeme::Newline, Lexeme::Op(OpCode::Halt)]);
}

#[test]
fn registers_are_hexadecimal_and_keep_eight_bits() {
    assert_eq!(lexemes("$0"), vec![Lexeme::Reg(Reg(0))]);
    assert_eq!(lexemes("$1f"), vec![Lexeme::Reg(Reg(31))]);
    assert_eq!(lexemes("$1F"), vec![Lexeme::Reg(Reg(31))]);
    assert_eq!(lexemes("$10"), vec![Lexeme::Reg(Reg(16))]);
    assert_eq!(lexemes("$ff"), vec![Lexeme::Reg(Reg(255))]);
    assert_eq!(lexemes("$100"), vec![Lexeme::Reg(Reg(0))]);
    assert_eq!(lexemes("$1234"), vec![Lexeme::Reg(Reg(0x34))]);
    assert_eq!(lexemes("$ffffffff"), vec![Lexeme::Reg(Reg(255))]);
    assert_eq!(lexemes("$00000000000a"), vec![Lexeme::Reg(Reg(10))]);
}

#[test]
fn register_too_large_is_invalid() {
    assert_eq!(lexemes("$100000000"), vec![Lexeme::InvalidReg(1, 10)]);
    assert_eq!(lexemes("  $fffffffff0 $1"), vec![Lexeme::InvalidReg(3, 13), Lexeme::Reg(Reg(1))]);
}

#[test]
fn dollar_without_digit_is_unknown() {
    assert_eq!(lexemes("$"), vec![Lexeme::Unknown(0, 1)]);
    assert_eq!(lexemes("$ 1"), vec![Lexeme::Unknown(0, 1), Lexeme::Unknown(2, 3)]);
    assert_eq!(lexemes("$g"), vec![Lexeme::Unknown(0, 1), Lexeme::Unknown(1, 2)]);
}

#[test]
fn integers_are_decimal_and_signed_32_bit() {
    assert_eq!(lexemes("#0"), vec![Lexeme::Int(Int(0))]);
    assert_eq!(lexemes("#500"), vec![Lexeme::Int(Int(500))]);
    assert_eq!(lexemes("#007"), vec![Lexeme::Int(Int(7))]);
    assert_eq!(lexemes("#2147483647"), vec![Lexeme::Int(Int(i32::MAX))]);
}

#[test]
fn integer_too_large_or_missing_is_invalid() {
    assert_eq!(lexemes("#2147483648"), vec![Lexeme::InvalidInt(1, 11)]);
    assert_eq!(lexemes("#99999999999999999999999"), vec![Lexeme::InvalidInt(1, 24)]);
    assert_eq!(lexemes("#"), vec![Lexeme::InvalidInt(1, 1)]);
    assert_eq!(lexemes("# 5"), vec![Lexeme::InvalidInt(1, 1), Lexeme::Unknown(2, 3)]);
    assert_eq!(
        lexemes("#12ab"),
        vec![Lexeme::Int(Int(12)), Lexeme::Unknown(3, 5)]
    );
}

#[test]
fn words_that_are_no_mnemonic_are_unknown() {
    assert_eq!(lexemes("nop"), vec![Lexeme::Unknown(0, 3)]);
    assert_eq!(lexemes(" Load"), vec![Lexeme::Unknown(1, 5)]);
    assert_eq!(lexemes("loadx $1"), vec![Lexeme::Unknown(0, 5), Lexeme::Reg(Reg(1))]);
}

#[test]
fn other_characters_are_unknown_one_by_one() {
    assert_eq!(lexemes("@"), vec![Lexeme::Unknown(0, 1)]);
    assert_eq!(lexemes("+-"), vec![Lexeme::Unknown(0, 1), Lexeme::Unknown(1, 2)]);
    assert_eq!(lexemes("7"), vec![Lexeme::Unknown(0, 1)]);
    assert_eq!(
        lexemes("halt, halt"),
        vec![Lexeme::Op(OpCode::Halt), Lexeme::Unknown(4, 5), Lexeme::Op(OpCode::Halt)]
    );
}

#[test]
fn a_character_of_several_bytes_is_one_unknown_token() {
    assert_eq!(lexemes("é"), vec![Lexeme::Unknown(0, 2)]);
    assert_eq!(lexemes("€$1"), vec![Lexeme::Unknown(0, 3), Lexeme::Reg(Reg(1))]);
    assert_eq!(lexemes("a😀b"), vec![Lexeme::Unknown(0, 1), Lexeme::Unknown(1, 5), Lexeme::Unknown(5, 6)]);
}

#[test]
fn peeking_does_not_take() {
    let mut lexer = Lexer::new("halt $1");
    let first = Token { lexeme: Lexeme::Op(OpCode::Halt) };
    assert_eq!(lexer.peek_tok(), Some(first));
    assert_eq!(lexer.peek_tok(), Some(first));
    assert_eq!(lexer.next(), Some(first));
    assert_eq!(lexer.next(), Some(Token { lexeme: Lexeme::Reg(Reg(1)) }));
    assert_eq!(lexer.peek_tok(), None);
    assert_eq!(lexer.next(), None);
}

#[test]
fn token_leaves_a_peeked_token_alone() {
    let mut lexer = Lexer::new("halt $1 $2");
    let first = Token { lexeme: Lexeme::Op(OpCode::Halt) };
    assert_eq!(lexer.peek_tok(), Some(first));
    assert_eq!(lexer.token().lexeme, Lexeme::Reg(Reg(1)));
    assert_eq!(lexer.next(), Some(first));
    assert_eq!(lexer.next(), Some(Token { lexeme: Lexeme::Reg(Reg(2)) }));
}

#[test]
fn characters_and_coordinates() {
    let mut lexer = Lexer::new("ab\ncé\n");
    assert_eq!(lexer.source(), "ab\ncé\n");
    assert_eq!(lexer.coord(), (1, 0));
    assert_eq!(lexer.peek_char(), Some(0x61));
    assert_eq!(lexer.next_char(), Some(0x61));
    assert_eq!(lexer.coord(), (1, 1));
    assert_eq!(lexer.next_char(), Some(0x62));
    assert_eq!(lexer.coord(), (1, 2));
    assert_eq!(lexer.next_char(), Some(10));
    assert_eq!(lexer.coord(), (2, 0));
    assert_eq!(lexer.next_char(), Some(0x63));
    assert_eq!(lexer.next_char(), Some(0xc3));
    assert_eq!(lexer.coord(), (2, 2));
    assert_eq!(lexer.next_char(), Some(0xa9));
    assert_eq!(lexer.coord(), (2, 2));
    assert_eq!(lexer.next_char(), Some(10));
    assert_eq!(lexer.coord(), (3, 0));
    assert_eq!(lexer.next_char(), None);
    assert_eq!(lexer.coord(), (3, 0));
}

#[test]
fn eating_runs() {
    let mut lexer = Lexer::new("  \n 12ab zz");
    assert_eq!(lexer.eat_whitespace(), (0, 4));
    assert_eq!(lexer.eat_whitespace(), (4, 4));
    assert_eq!(lexer.eat_while(Class::Digit), (4, 6));
    assert_eq!(lexer.eat_while(Class::HexDigit), (6, 8));
    assert_eq!(lexer.eat_while(Class::Letter), (8, 8));
    assert_eq!(lexer.eat_while(Class::NotLineFeed), (8, 11));
    assert_eq!(lexer.eat_while(Class::NotLineFeed), (11, 11));
}

#[test]
fn classes() {
    for b in 0..=255u8 {
        let c = b as char;
        assert_eq!(Class::Space.has(b), b.is_ascii() && c.is_whitespace());
        assert_eq!(Class::Digit.has(b), c.is_ascii_digit());
        assert_eq!(Class::HexDigit.has(b), c.is_ascii_hexdigit());
        assert_eq!(Class::Letter.has(b), c.is_ascii_alphabetic());
        assert_eq!(Class::NotLineFeed.has(b), b != b'\n');
        assert_eq!(Class::Continuation.has(b), b & 0xc0 == 0x80);
    }
}
