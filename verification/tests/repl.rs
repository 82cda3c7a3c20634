use std::num::IntErrorKind;

use toy_vm::assembler::lexer::{Lexeme, Token};
use toy_vm::assembler::parser::Error;
use toy_vm::bytecode::OpCode;
use toy_vm::data::{Int, Reg};
use toy_vm::repl::{parse_hex, Cmd, HexError, Reply, Repl};
use toy_vm::text::{push_decimal, push_signed_decimal, str_eq};
use toy_vm::vm::{Fault, FaultKind, Status};

#[test]
fn commands_resolve() {
    for name in [":quit", ":q", ":Q"] {
        assert_eq!(Cmd::from_str(name), Some(Cmd::Quit));
    }
    for name in [":history", ":h", ":hist"] {
        assert_eq!(Cmd::from_str(name), Some(Cmd::History));
    }
    for name in [":program", ":prog"] {
        assert_eq!(Cmd::from_str(name), Some(Cmd::Program));
    }
    for name in [":registers", ":r"] {
        assert_eq!(Cmd::from_str(name), Some(Cmd::Registers));
    }
    for name in ["", ":", "quit", ":QUIT", ":q ", ":R", ":regs", "00 01"] {
        assert_eq!(Cmd::from_str(name), None);
    }
    for cmd in [Cmd::Quit, Cmd::History, Cmd::Program, Cmd::Registers] {
        assert_eq!(Cmd::from_str(cmd.as_str()), Some(cmd));
    }
    assert_eq!(Cmd::Quit.as_str(), ":quit");
    assert_eq!(Cmd::History.as_str(), ":history");
    assert_eq!(Cmd::Program.as_str(), ":program");
    assert_eq!(Cmd::Registers.as_str(), ":registers");
}

#[test]
fn hex_lines_parse() {
    assert_eq!(parse_hex("00 00 01 f4"), Ok(vec![0, 0, 1, 244]));
    assert_eq!(parse_hex("FE"), Ok(vec![254]));
    assert_eq!(parse_hex("a B 0c 00ff +7"), Ok(vec![10, 11, 12, 255, 7]));
    assert_eq!(parse_hex("0"), Ok(vec![0]));
}

#[test]
fn hex_errors() {
    assert_eq!(parse_hex(""), Err(HexError::Empty));
    assert_eq!(parse_hex("00  01"), Err(HexError::Empty));
    assert_eq!(parse_hex(" 00"), Err(HexError::Empty));
    assert_eq!(parse_hex("00 "), Err(HexError::Empty));
    assert_eq!(parse_hex("0x10"), Err(HexError::InvalidDigit));
    assert_eq!(parse_hex("zz"), Err(HexError::InvalidDigit));
    assert_eq!(parse_hex("+"), Err(HexError::InvalidDigit));
    assert_eq!(parse_hex("-1"), Err(HexError::InvalidDigit));
    assert_eq!(parse_hex("++1"), Err(HexError::InvalidDigit));
    assert_eq!(parse_hex("1\t2"), Err(HexError::InvalidDigit));
    assert_eq!(parse_hex("é"), Err(HexError::InvalidDigit));
    assert_eq!(parse_hex("100"), Err(HexError::TooLarge));
    assert_eq!(parse_hex("fff"), Err(HexError::TooLarge));
    assert_eq!(parse_hex("fffz"), Err(HexError::TooLarge));
    assert_eq!(parse_hex("0000z"), Err(HexError::InvalidDigit));
    assert_eq!(parse_hex("01 zz 100"), Err(HexError::InvalidDigit));
    assert_eq!(parse_hex("01 100 zz"), Err(HexError::TooLarge));
}

#[test]
fn hex_errors_are_of_the_kind_that_from_str_radix_gives() {
    for chunk in [
        "", "+", "-", "-1", "g", "0g", "fg", "ffz", "fffz", "zfff", "100", "fff", "0100", "+100",
        "+g", "1 ", "0x1", "00000000z",
    ] {
        let expected = match u8::from_str_radix(chunk, 16).unwrap_err().kind() {
            IntErrorKind::Empty => HexError::Empty,
            IntErrorKind::InvalidDigit => HexError::InvalidDigit,
            IntErrorKind::PosOverflow => HexError::TooLarge,
            other => panic!("{:?}", other),
        };
        if !chunk.contains(' ') {
            assert_eq!(parse_hex(chunk), Err(expected));
        }
    }
    assert_eq!(parse_hex("ffz"), Err(HexError::InvalidDigit));
}

#[test]
fn hex_agrees_with_from_str_radix() {
    for chunk in ["", "0", "7f", "ff", "100", "+1", "+", "-", "g", "0g", "fg", "fffg", "0001"] {
        assert_eq!(parse_hex(chunk).is_ok(), u8::from_str_radix(chunk, 16).is_ok());
        if let Ok(byte) = u8::from_str_radix(chunk, 16) {
            assert_eq!(parse_hex(chunk), Ok(vec![byte]));
        }
    }
}

#[test]
fn input_is_saved_once() {
    let mut repl = Repl::new();
    assert!(repl.history().is_empty());
    repl.save_input(String::from("00 01"));
    repl.save_input(String::from("fe"));
    repl.save_input(String::from("00 01"));
    assert_eq!(repl.history(), &vec![String::from("00 01"), String::from("fe")]);
}

#[test]
fn feeding_a_command_changes_nothing() {
    let mut repl = Repl::new();
    assert_eq!(repl.feed(":q"), Reply::Command(Cmd::Quit));
    assert_eq!(repl.feed(":hist"), Reply::Command(Cmd::History));
    assert_eq!(repl.feed(":prog"), Reply::Command(Cmd::Program));
    assert_eq!(repl.feed(":r"), Reply::Command(Cmd::Registers));
    assert!(repl.history().is_empty());
    assert!(repl.vm().instructions().is_empty());
    assert_eq!(repl.vm().pc, 0);
}

#[test]
fn feeding_bad_hex_changes_nothing() {
    let mut repl = Repl::new();
    assert_eq!(repl.feed("load $0 #1"), Reply::InvalidHex(HexError::InvalidDigit));
    assert_eq!(repl.feed(""), Reply::InvalidHex(HexError::Empty));
    assert_eq!(repl.feed("00 1ff"), Reply::InvalidHex(HexError::TooLarge));
    assert!(repl.history().is_empty());
    assert!(repl.vm().instructions().is_empty());
}

#[test]
fn feeding_hex_loads_and_ticks() {
    let mut repl = Repl::new();
    assert_eq!(repl.feed("00 00 01 f4"), Reply::Ticked(Status::Finished));
    assert_eq!(repl.vm().registers()[0], 500);
    assert_eq!(repl.feed("00 01 01 f4"), Reply::Ticked(Status::Finished));
    assert_eq!(repl.feed("01 00 01 02"), Reply::Ticked(Status::Finished));
    assert_eq!(repl.vm().registers()[2], 1000);
    assert_eq!(repl.feed("00 00 01 f4"), Reply::Ticked(Status::Finished));
    assert_eq!(
        repl.history(),
        &vec![
            String::from("00 00 01 f4"),
            String::from("00 01 01 f4"),
            String::from("01 00 01 02"),
        ]
    );
    assert_eq!(repl.vm().instructions().len(), 16);
    assert_eq!(repl.feed("fe 00"), Reply::Ticked(Status::Halted));
    assert_eq!(repl.vm().pc, 17);
    // the byte after the halt is a `Load`, and this line brings its operands
    assert_eq!(repl.feed("05 00 07"), Reply::Ticked(Status::Finished));
    assert_eq!(repl.vm().registers()[5], 7);
    assert_eq!(
        repl.feed("c8"),
        Reply::Ticked(Status::Faulted(Fault {
            kind: FaultKind::InvalidOpcode(200),
            pc: 21,
            opcode: OpCode::Bad,
        }))
    );
}

#[test]
fn strings_compare_by_characters() {
    assert!(str_eq("", ""));
    assert!(str_eq("abc", "abc"));
    assert!(!str_eq("abc", "abd"));
    assert!(!str_eq("abc", "ab"));
    assert!(!str_eq("", "a"));
    assert!(str_eq("é€", "é€"));
    assert!(!str_eq("é", "e"));
}

#[test]
fn numbers_in_decimal() {
    let mut s = String::from("n=");
    push_decimal(&mut s, 0);
    s.push(',');
    push_decimal(&mut s, 7);
    s.push(',');
    push_decimal(&mut s, 10);
    s.push(',');
    push_decimal(&mut s, 1234567890);
    s.push(',');
    push_decimal(&mut s, u64::MAX);
    assert_eq!(s, "n=0,7,10,1234567890,18446744073709551615");
    let mut s = String::new();
    push_signed_decimal(&mut s, -1);
    s.push(' ');
    push_signed_decimal(&mut s, i32::MIN);
    s.push(' ');
    push_signed_decimal(&mut s, i32::MAX);
    s.push(' ');
    push_signed_decimal(&mut s, 0);
    assert_eq!(s, "-1 -2147483648 2147483647 0");
}

#[test]
fn operand_values_as_text() {
    assert_eq!(Reg(0).to_string(), "0");
    assert_eq!(Reg(255).to_string(), "255");
    assert_eq!(Int(-40).to_string(), "-40");
    assert_eq!(Int(500).to_string(), "500");
}

#[test]
fn lexemes_as_text() {
    assert_eq!(Lexeme::Newline.to_string(), "\n");
    assert_eq!(Lexeme::Op(OpCode::JumpNeq).to_string(), "jmpne");
    assert_eq!(Lexeme::Reg(Reg(31)).to_string(), "31");
    assert_eq!(Lexeme::Int(Int(-5)).to_string(), "-5");
    assert_eq!(Lexeme::Label("start").to_string(), "start");
    assert_eq!(Lexeme::InvalidInt(1, 11).to_string(), "<INVALID_INT@1:11>");
    assert_eq!(Lexeme::InvalidReg(0, 3).to_string(), "<INVALID_REG@0:3>");
    assert_eq!(Lexeme::Unknown(12, 13).to_string(), "<UNKNOWN_TOK@12:13>");
    assert_eq!(Lexeme::Eof.to_string(), "EOF");
    assert_eq!(Token { lexeme: Lexeme::Eof }.to_string(), "EOF");
}

#[test]
fn errors_as_text() {
    let t = Token { lexeme: Lexeme::Reg(Reg(4)) };
    assert_eq!(Error::Unexpected(t).to_string(), "unexpected token `4` found");
    assert_eq!(
        Error::ExpectedLabel(t).to_string(),
        "expected a label token, but found `4` instead"
    );
    assert_eq!(
        Error::ExpectedOpCode(t).to_string(),
        "expected an opcode token, but found `4` instead"
    );
    assert_eq!(
        Error::ExpectedOperand(t).to_string(),
        "expected either a register token or integer token, but found `4` instead"
    );
    assert_eq!(
        Error::ExpectedInteger(t).to_string(),
        "expected an integer token, but found `4` instead"
    );
    assert_eq!(
        Error::ExpectedRegister(t).to_string(),
        "expected a register token, but found `4` instead"
    );
    assert_eq!(Error::UnexpectedEof.to_string(), "unexpected end of input");
}
