use toy_vm::assembler::lexer::{Lexeme, Token};
use toy_vm::assembler::parser::{within_line, Error, Instruction, Operand, Parser, Program};
use toy_vm::bytecode::OpCode;
use toy_vm::data::{Int, Reg};
use toy_vm::vm::{Status, Vm};

fn tok(lexeme: Lexeme) -> Token {
    Token { lexeme }
}

fn assemble(src: &str) -> Program {
    Parser::new(src).program().unwrap()
}

fn instr(line: usize, opcode: OpCode, operands: [Option<Operand>; 3]) -> Instruction {
    Instruction { line, label: None, opcode, operands }
}

fn reg(n: u8) -> Option<Operand> {
    Some(Operand::Reg(Reg(n)))
}

fn imm(n: i32) -> Option<Operand> {
    Some(Operand::Int(Int(n)))
}

#[test]
fn test_load_instr() {
    let expected = Program {
        errors: vec![],
        instrs: vec![Instruction {
            line: 1,
            label: None,
            opcode: OpCode::Load,
            operands: [
                Some(Operand::Reg(Reg(0))),
                Some(Operand::Int(Int(100))),
                None,
            ],
        }],
    };
    let program = Parser::new("load $0 #100").program();
    assert_eq!(program.as_ref().map(|prog| prog.bytes().len()), Ok(4));
    assert_eq!(program, Ok(expected))
}

#[test]
fn load_500_encodes_big_endian() {
    let program = assemble("Load $0 #500");
    assert_eq!(program.instrs.len(), 0);
    let program = assemble("LOAD $0 #500");
    assert_eq!(program.bytes(), vec![0x00, 0x00, 0x01, 0xf4]);
    let mut vm = Vm::new();
    vm.code = program.bytes();
    vm.tick();
    assert_eq!(vm.regs[0], 500);
}

#[test]
fn assembled_sum_runs() {
    let program = assemble("load $0 #500\nload $1 #500\nadd $0 $1 $2\n");
    assert!(program.errors.is_empty());
    assert_eq!(program.bytes(), vec![0, 0, 1, 244, 0, 1, 1, 244, 1, 0, 1, 2]);
    let mut vm = Vm::new();
    vm.code = program.bytes();
    assert_eq!(vm.run(100), Status::Finished);
    assert_eq!(vm.regs[2], 1000);
}

#[test]
fn every_opcode_parses_with_its_arity() {
    for op in OpCode::VARIANTS {
        let n = op.arity().as_usize();
        let mut src = String::from(op.as_str());
        for k in 0..n {
            src.push_str(&format!(" ${:x}", k + 1));
        }
        let program = assemble(&src);
        assert!(program.errors.is_empty());
        assert_eq!(program.instrs.len(), 1);
        let got = program.instrs[0];
        assert_eq!(got.opcode, op);
        assert_eq!(got.line, 1);
        assert_eq!(got.label, None);
        for k in 0..3 {
            if k < n {
                assert_eq!(got.operands[k], reg(k as u8 + 1));
            } else {
                assert_eq!(got.operands[k], None);
            }
        }
    }
}

#[test]
fn every_opcode_fails_with_fewer_operands() {
    for op in OpCode::VARIANTS {
        let n = op.arity().as_usize();
        for given in 0..n {
            let mut src = String::from(op.as_str());
            for k in 0..given {
                src.push_str(&format!(" #{}", k));
            }
            let program = assemble(&src);
            assert!(program.instrs.is_empty());
            assert_eq!(program.errors, vec![Error::UnexpectedEof]);
            src.push_str("\nhalt");
            let program = assemble(&src);
            assert_eq!(program.errors, vec![Error::ExpectedOperand(tok(Lexeme::Newline))]);
            assert_eq!(program.instrs, vec![instr(2, OpCode::Halt, [None, None, None])]);
        }
    }
}

#[test]
fn malformed_line_then_good_line() {
    let program = assemble("load $0\nadd $0 $1 $2");
    assert_eq!(program.errors.len(), 1);
    assert_eq!(program.instrs.len(), 1);
    assert_eq!(program.instrs[0], instr(2, OpCode::Add, [reg(0), reg(1), reg(2)]));

    let program = assemble("frob $0 #1\nhalt");
    assert_eq!(program.errors, vec![Error::ExpectedOpCode(tok(Lexeme::Unknown(0, 4)))]);
    assert_eq!(program.instrs, vec![instr(2, OpCode::Halt, [None, None, None])]);
}

#[test]
fn errors_are_collected_line_by_line() {
    let program = assemble("$1\nhalt\nload $0 halt\n\nadd $1 $2 $3 $4\njmp $5\n#");
    assert_eq!(
        program.errors,
        vec![
            Error::ExpectedOpCode(tok(Lexeme::Reg(Reg(1)))),
            Error::ExpectedOperand(tok(Lexeme::Op(OpCode::Halt))),
            Error::Unexpected(tok(Lexeme::Reg(Reg(4)))),
            Error::ExpectedOpCode(tok(Lexeme::InvalidInt(46, 46))),
        ]
    );
    assert_eq!(
        program.instrs,
        vec![
            instr(2, OpCode::Halt, [None, None, None]),
            instr(6, OpCode::Jump, [reg(5), None, None]),
        ]
    );
}

#[test]
fn two_instructions_on_one_line_are_an_error() {
    let program = assemble("halt halt\nhalt");
    assert_eq!(program.errors, vec![Error::Unexpected(tok(Lexeme::Op(OpCode::Halt)))]);
    assert_eq!(program.instrs, vec![instr(2, OpCode::Halt, [None, None, None])]);
}

#[test]
fn empty_and_blank_programs() {
    assert_eq!(assemble(""), Program { instrs: vec![], errors: vec![] });
    assert_eq!(assemble("\n\n  \n"), Program { instrs: vec![], errors: vec![] });
    assert_eq!(assemble("; nothing here\n"), Program { instrs: vec![], errors: vec![] });
    assert_eq!(assemble("").bytes(), Vec::<u8>::new());
}

#[test]
fn operands_may_be_of_either_kind() {
    let program = assemble("load #1 #2\nadd #1 $2 #3");
    assert!(program.errors.is_empty());
    assert_eq!(
        program.instrs,
        vec![
            instr(1, OpCode::Load, [imm(1), imm(2), None]),
            instr(2, OpCode::Add, [imm(1), reg(2), imm(3)]),
        ]
    );
    assert_eq!(program.bytes(), vec![0, 0, 1, 0, 2, 1, 0, 1, 2, 0, 3]);
}

#[test]
fn operand_bytes() {
    assert_eq!(Operand::Reg(Reg(7)).bytes(), vec![7]);
    assert_eq!(Operand::Int(Int(500)).bytes(), vec![1, 244]);
    assert_eq!(Operand::Int(Int(-2)).bytes(), vec![0xff, 0xfe]);
    assert_eq!(Operand::Int(Int(0x12345)).bytes(), vec![0x23, 0x45]);
}

#[test]
fn instruction_bytes() {
    assert_eq!(instr(1, OpCode::Halt, [None, None, None]).bytes(), vec![254]);
    assert_eq!(instr(1, OpCode::Bad, [reg(3), None, None]).bytes(), vec![255, 3]);
    assert_eq!(instr(1, OpCode::Jump, [reg(9), None, None]).bytes(), vec![5, 9]);
    assert_eq!(instr(1, OpCode::Div, [reg(1), reg(2), reg(3)]).bytes(), vec![4, 1, 2, 3]);
    assert_eq!(instr(1, OpCode::Load, [reg(1), imm(65535), None]).bytes(), vec![0, 1, 255, 255]);
}

#[test]
fn comparison_is_padded_to_four_bytes() {
    for (op, code) in [
        (OpCode::Eq, 8u8),
        (OpCode::NotEq, 9),
        (OpCode::Greater, 10),
        (OpCode::Less, 11),
        (OpCode::GreaterEq, 12),
        (OpCode::LessEq, 13),
    ] {
        assert_eq!(instr(1, op, [reg(0), reg(1), None]).bytes(), vec![code, 0, 1, 0]);
    }
}

#[test]
fn assembled_program_runs_as_written() {
    let src = "load $0 #10\nload $1 #10\neq $0 $1\nload $2 #23\njmpe $2\nload $3 #1\nhalt\nload $3 #2\nhalt";
    let program = assemble(src);
    assert!(program.errors.is_empty());
    assert_eq!(program.instrs.len(), 9);
    let code = program.bytes();
    assert_eq!(code.len(), 4 + 4 + 4 + 4 + 2 + 4 + 1 + 4 + 1);
    let mut vm = Vm::new();
    vm.code = code;
    assert_eq!(vm.run(100), Status::Halted);
    assert!(vm.compare);
    assert_eq!(vm.regs[3], 2);
    assert_eq!(vm.pc, 28);
}

#[test]
fn widths_of_assembled_instructions() {
    for op in OpCode::VARIANTS {
        let n = op.arity().as_usize();
        let mut src = String::from(op.as_str());
        for k in 0..n {
            if op == OpCode::Load && k == 1 {
                src.push_str(" #7");
            } else {
                src.push_str(" $7");
            }
        }
        let bytes = assemble(&src).bytes();
        assert_eq!(bytes.len(), op.width());
        assert_eq!(OpCode::from(bytes[0]), op);
    }
}

#[test]
fn token_level_functions() {
    let mut p = Parser::new("halt $1 #2 x\n$3");
    assert!(!p.is_done());
    assert_eq!(p.peek(), Some(tok(Lexeme::Op(OpCode::Halt))));
    assert_eq!(p.expect_opcode(), Ok(OpCode::Halt));
    assert_eq!(p.register(), Ok(Reg(1)));
    assert_eq!(p.integer(), Ok(Int(2)));
    assert_eq!(p.label(), Err(Error::ExpectedLabel(tok(Lexeme::Unknown(11, 12)))));
    assert_eq!(p.peek(), Some(tok(Lexeme::Newline)));
    assert_eq!(p.register(), Err(Error::ExpectedRegister(tok(Lexeme::Newline))));
    assert_eq!(p.peek(), Some(tok(Lexeme::Reg(Reg(3)))));
    assert_eq!(p.integer(), Err(Error::ExpectedInteger(tok(Lexeme::Reg(Reg(3))))));
    assert!(p.is_done());
    assert_eq!(p.bump(), tok(Lexeme::Eof));
    assert_eq!(p.peek(), None);
    assert_eq!(p.operand(), Err(Error::UnexpectedEof));
    assert_eq!(p.register(), Err(Error::UnexpectedEof));
    assert_eq!(p.integer(), Err(Error::UnexpectedEof));
    assert_eq!(p.label(), Err(Error::UnexpectedEof));
    assert_eq!(p.expect_opcode(), Err(Error::UnexpectedEof));
    assert_eq!(p.instruction(), Err(Error::UnexpectedEof));
    assert_eq!(p.eat(within_line), Err(Error::UnexpectedEof));
}

#[test]
fn register_integer_and_label_take_the_token_they_reject() {
    let mut p = Parser::new("\n$1");
    assert_eq!(p.register(), Err(Error::ExpectedRegister(tok(Lexeme::Newline))));
    assert_eq!(p.register(), Ok(Reg(1)));
    let mut p = Parser::new("\n#1");
    assert_eq!(p.integer(), Err(Error::ExpectedInteger(tok(Lexeme::Newline))));
    assert_eq!(p.integer(), Ok(Int(1)));
    let mut p = Parser::new("\nhalt");
    assert_eq!(p.label(), Err(Error::ExpectedLabel(tok(Lexeme::Newline))));
    assert_eq!(p.label(), Err(Error::ExpectedLabel(tok(Lexeme::Op(OpCode::Halt)))));
    assert!(p.is_done());
    let mut p = Parser::new("halt #1");
    assert_eq!(p.register(), Err(Error::ExpectedRegister(tok(Lexeme::Op(OpCode::Halt)))));
    assert_eq!(p.register(), Err(Error::ExpectedRegister(tok(Lexeme::Int(Int(1))))));
    assert_eq!(p.register(), Err(Error::UnexpectedEof));
}

#[test]
fn operand_and_opcode_leave_the_end_of_the_line() {
    let mut p = Parser::new("\nhalt");
    assert_eq!(p.operand(), Err(Error::ExpectedOperand(tok(Lexeme::Newline))));
    assert_eq!(p.expect_opcode(), Err(Error::ExpectedOpCode(tok(Lexeme::Newline))));
    assert_eq!(p.peek(), Some(tok(Lexeme::Newline)));
    assert_eq!(p.bump(), tok(Lexeme::Newline));
    assert_eq!(p.operand(), Err(Error::ExpectedOperand(tok(Lexeme::Op(OpCode::Halt)))));
    assert!(p.is_done());
    let mut p = Parser::new("$1 halt");
    assert_eq!(p.expect_opcode(), Err(Error::ExpectedOpCode(tok(Lexeme::Reg(Reg(1))))));
    assert_eq!(p.expect_opcode(), Ok(OpCode::Halt));
}

#[test]
fn eat_and_many_while() {
    let mut p = Parser::new("halt $1\n\n$2");
    assert_eq!(p.eat(Lexeme::is_newline), Err(Error::Unexpected(tok(Lexeme::Op(OpCode::Halt)))));
    assert_eq!(p.eat(within_line), Ok(tok(Lexeme::Reg(Reg(1)))));
    assert_eq!(p.many_while(within_line), vec![]);
    assert_eq!(p.many_while(Lexeme::is_newline), vec![tok(Lexeme::Newline)]);
    assert_eq!(p.many_while(|l: &Lexeme| !l.is_eof()), vec![tok(Lexeme::Reg(Reg(2)))]);
    assert!(p.is_done());
}

#[test]
fn eat_takes_the_token_it_rejects() {
    let mut p = Parser::new("$1\n$2 $3");
    assert_eq!(p.eat(Lexeme::is_newline), Err(Error::Unexpected(tok(Lexeme::Reg(Reg(1))))));
    assert_eq!(p.eat(within_line), Err(Error::Unexpected(tok(Lexeme::Newline))));
    assert_eq!(p.peek(), Some(tok(Lexeme::Reg(Reg(2)))));
    assert_eq!(p.eat(Lexeme::is_eof), Err(Error::Unexpected(tok(Lexeme::Reg(Reg(2))))));
    assert_eq!(p.eat(within_line), Ok(tok(Lexeme::Reg(Reg(3)))));
    assert_eq!(p.eat(within_line), Err(Error::UnexpectedEof));
    assert_eq!(p.eat(Lexeme::is_eof), Err(Error::UnexpectedEof));
}

#[test]
fn instruction_stops_after_its_operands() {
    let mut p = Parser::new("jmp $1 $2");
    assert_eq!(p.instruction(), Ok(instr(1, OpCode::Jump, [reg(1), None, None])));
    assert_eq!(p.peek(), Some(tok(Lexeme::Reg(Reg(2)))));
    let mut p = Parser::new("$1 halt");
    assert_eq!(p.instruction(), Err(Error::ExpectedOpCode(tok(Lexeme::Reg(Reg(1))))));
    assert_eq!(p.instruction(), Ok(instr(1, OpCode::Halt, [None, None, None])));
}
