//! The encoder and the engine agree: what the assembler writes, the engine
//! reads back instruction by instruction.

use vstd::prelude::*;
use crate::assembler::parser::{encode_all, padding, slot_encoding, Instruction, Operand};
use crate::bytecode::OpCode;
use crate::data::low16;
use crate::vm::Machine;

verus! {

/// Whether the operands of an instruction are of the kinds that the engine
/// reads for its opcode: a register and then an integer for `Load`,
/// registers and nothing else for every other opcode.
///
/// The parser accepts a register or an integer in every place, so it also
/// yields instructions that do not fit, such as `load #1 #2`.
pub open spec fn fits_engine(instr: Instruction) -> bool {
    &&& instr.wf()
    &&& forall|k: int|
        0 <= k < instr.opcode.spec_arity().0 ==> (#[trigger] instr.operands[k] matches Some(
            Operand::Int(_),
        )) == (instr.opcode == OpCode::Load && k == 1)
}

/// The offset in the bytecode of `instrs` at which its `k`-th instruction
/// starts.
pub open spec fn offset_of(instrs: Seq<Instruction>, k: int) -> int {
    encode_all(instrs.take(k)).len() as int
}

/// The opcodes of a sequence of instructions.
pub open spec fn opcodes(instrs: Seq<Instruction>) -> Seq<OpCode> {
    Seq::new(instrs.len(), |i: int| instrs[i].opcode)
}

/// The opcodes that are met when bytecode is read from offset `pc` to its
/// end, one instruction after the other, each as wide as its opcode says. An
/// instruction that the end of the bytecode cuts short is the last.
pub open spec fn dispatches(code: Seq<u8>, pc: int) -> Seq<OpCode>
    decreases code.len() - pc,
{
    if pc < 0 || pc >= code.len() {
        Seq::empty()
    } else if pc + OpCode::decode(code[pc]).spec_width() > code.len() {
        seq![OpCode::decode(code[pc])]
    } else {
        proof {
            lemma_width_bounds(OpCode::decode(code[pc]));
        }
        seq![OpCode::decode(code[pc])] + dispatches(
            code,
            pc + OpCode::decode(code[pc]).spec_width(),
        )
    }
}

/// Every instruction occupies at least its opcode byte and at most four
/// bytes.
pub proof fn lemma_width_bounds(op: OpCode)
    ensures
        1 <= op.spec_width() <= 4,
{
}

/// Decoding the code of an opcode gives the opcode back.
pub proof fn lemma_decode_code(op: OpCode)
    ensures
        OpCode::decode(op.spec_code()) == op,
{
}

/// The code of a decoded byte is the byte, for every byte that is assigned
/// to an opcode; every other byte decodes to `Bad`.
pub proof fn lemma_code_decode(byte: u8)
    ensures
        byte < 16 || byte == 254 || byte == 255 ==> OpCode::decode(byte).spec_code() == byte,
        16 <= byte && byte != 254 ==> OpCode::decode(byte) == OpCode::Bad,
        OpCode::decode(254) == OpCode::Halt,
{
}

/// An instruction that fits the engine is encoded in as many bytes as the
/// engine reads for its opcode, and its first byte is the code of the opcode.
pub proof fn lemma_encoding_width(instr: Instruction)
    requires
        fits_engine(instr),
    ensures
        instr.encoding().len() == instr.opcode.spec_width(),
        instr.encoding()[0] == instr.opcode.spec_code(),
{
    let a = instr.operands[0];
    let b = instr.operands[1];
    let c = instr.operands[2];
    assert(slot_encoding(a).len() == (if a is None {
        0nat
    } else if a matches Some(Operand::Int(_)) {
        2nat
    } else {
        1nat
    }));
    assert(slot_encoding(b).len() == (if b is None {
        0nat
    } else if b matches Some(Operand::Int(_)) {
        2nat
    } else {
        1nat
    }));
    assert(slot_encoding(c).len() == (if c is None {
        0nat
    } else if c matches Some(Operand::Int(_)) {
        2nat
    } else {
        1nat
    }));
    assert(padding(instr.opcode).len() == (if instr.opcode.is_comparison() {
        1nat
    } else {
        0nat
    }));
}

/// The bytecode of the first `k` instructions is the start of the bytecode
/// of all of them.
pub proof fn lemma_encode_prefix(instrs: Seq<Instruction>, k: int)
    requires
        0 <= k <= instrs.len(),
    ensures
        offset_of(instrs, k) <= encode_all(instrs).len(),
        encode_all(instrs).subrange(0, offset_of(instrs, k)) == encode_all(instrs.take(k)),
    decreases instrs.len(),
{
    if k == instrs.len() {
        assert(instrs.take(k) =~= instrs);
        assert(encode_all(instrs).subrange(0, encode_all(instrs).len() as int) =~= encode_all(
            instrs,
        ));
    } else {
        lemma_encode_prefix(instrs.drop_last(), k);
        assert(instrs.drop_last().take(k) =~= instrs.take(k));
        assert(encode_all(instrs).subrange(0, offset_of(instrs, k)) =~= encode_all(
            instrs.drop_last(),
        ).subrange(0, offset_of(instrs, k)));
    }
}

/// The `k`-th instruction is encoded from its offset up to the offset of the
/// next.
pub proof fn lemma_encode_at(instrs: Seq<Instruction>, k: int)
    requires
        0 <= k < instrs.len(),
    ensures
        offset_of(instrs, k + 1) == offset_of(instrs, k) + instrs[k].encoding().len(),
        offset_of(instrs, k + 1) <= encode_all(instrs).len(),
        encode_all(instrs).subrange(offset_of(instrs, k), offset_of(instrs, k + 1))
            == instrs[k].encoding(),
{
    lemma_encode_prefix(instrs, k);
    lemma_encode_prefix(instrs, k + 1);
    assert(instrs.take(k + 1).drop_last() =~= instrs.take(k));
    assert(instrs.take(k + 1).last() == instrs[k]);
    let code = encode_all(instrs);
    let upto = encode_all(instrs.take(k + 1));
    assert(upto == encode_all(instrs.take(k)) + instrs[k].encoding());
    assert(code.subrange(offset_of(instrs, k), offset_of(instrs, k + 1)) =~= upto.subrange(
        offset_of(instrs, k),
        offset_of(instrs, k + 1),
    ));
    assert(upto.subrange(offset_of(instrs, k), offset_of(instrs, k + 1))
        =~= instrs[k].encoding());
}

/// The engine reads back what the encoder wrote: with the program counter at
/// the offset of the `k`-th instruction of a program whose instructions fit
/// the engine, the engine finds the opcode of that instruction and all its
/// operand bytes, and the instruction ends where the next one starts.
pub proof fn lemma_engine_reads_instruction(m: Machine, instrs: Seq<Instruction>, k: int)
    requires
        0 <= k < instrs.len(),
        forall|i: int| 0 <= i < instrs.len() ==> fits_engine(#[trigger] instrs[i]),
        m.code == encode_all(instrs),
        m.pc == offset_of(instrs, k),
    ensures
        !m.done(),
        m.opcode() == instrs[k].opcode,
        m.pc + instrs[k].opcode.spec_width() == offset_of(instrs, k + 1),
        offset_of(instrs, k + 1) <= m.code.len(),
        forall|j: int|
            0 <= j < instrs[k].opcode.spec_width() - 1 ==> m.arg(j) == instrs[k].encoding()[1
                + j],
{
    lemma_encode_at(instrs, k);
    lemma_encoding_width(instrs[k]);
    let code = encode_all(instrs);
    let piece = code.subrange(offset_of(instrs, k), offset_of(instrs, k + 1));
    assert(piece[0] == code[offset_of(instrs, k)]);
    assert forall|j: int| 0 <= j < instrs[k].opcode.spec_width() - 1 implies m.arg(j)
        == instrs[k].encoding()[1 + j] by {
        assert(piece[1 + j] == code[offset_of(instrs, k) + 1 + j]);
    }
}

/// Reading the bytecode of a program from the `k`-th instruction on meets
/// the opcodes of the instructions from the `k`-th on, in their order.
pub proof fn lemma_dispatches_from(instrs: Seq<Instruction>, k: int)
    requires
        0 <= k <= instrs.len(),
        forall|i: int| 0 <= i < instrs.len() ==> fits_engine(#[trigger] instrs[i]),
    ensures
        dispatches(encode_all(instrs), offset_of(instrs, k)) == opcodes(instrs).skip(k),
    decreases instrs.len() - k,
{
    let code = encode_all(instrs);
    if k == instrs.len() {
        assert(instrs.take(k) =~= instrs);
        assert(opcodes(instrs).skip(k) =~= Seq::<OpCode>::empty());
    } else {
        let m = Machine {
            regs: Seq::empty(),
            pc: offset_of(instrs, k),
            code,
            rem: 0,
            compare: false,
        };
        lemma_engine_reads_instruction(m, instrs, k);
        lemma_dispatches_from(instrs, k + 1);
        assert(opcodes(instrs).skip(k) =~= seq![instrs[k].opcode] + opcodes(instrs).skip(k + 1));
    }
}

/// Encoding a program and decoding the bytes again gives the opcodes of the
/// program, in their order: the encoder and the engine agree on where each
/// instruction starts and on what it is.
pub proof fn lemma_round_trip(instrs: Seq<Instruction>)
    requires
        forall|i: int| 0 <= i < instrs.len() ==> fits_engine(#[trigger] instrs[i]),
    ensures
        dispatches(encode_all(instrs), 0) == opcodes(instrs),
{
    lemma_dispatches_from(instrs, 0);
    assert(instrs.take(0) =~= Seq::<Instruction>::empty());
    assert(opcodes(instrs).skip(0) =~= opcodes(instrs));
}

/// Where the engine goes from an instruction that the encoder wrote: unless
/// it halts or faults there, it goes on at the start of the next instruction,
/// or where a jump that is taken leads.
pub proof fn lemma_engine_advances(m: Machine, instrs: Seq<Instruction>, k: int)
    requires
        0 <= k < instrs.len(),
        forall|i: int| 0 <= i < instrs.len() ==> fits_engine(#[trigger] instrs[i]),
        m.code == encode_all(instrs),
        m.pc == offset_of(instrs, k),
        m.fault() is None,
        m.opcode() != OpCode::Halt,
    ensures
        m.step().0.code == m.code,
        m.step().0.pc == m.target(),
        !(m.opcode() == OpCode::Jump || m.opcode() == OpCode::JumpF || m.opcode()
            == OpCode::JumpB || (m.opcode() == OpCode::JumpEq && m.compare) || (m.opcode()
            == OpCode::JumpNeq && !m.compare)) ==> m.target() == offset_of(instrs, k + 1),
{
    lemma_engine_reads_instruction(m, instrs, k);
}

/// The engine reads the operands that the encoder wrote: each register
/// operand as the byte that holds its index, and the integer operand of a
/// `Load` as two bytes that make the low sixteen bits of the literal.
pub proof fn lemma_engine_reads_operands(m: Machine, instrs: Seq<Instruction>, k: int)
    requires
        0 <= k < instrs.len(),
        forall|i: int| 0 <= i < instrs.len() ==> fits_engine(#[trigger] instrs[i]),
        m.code == encode_all(instrs),
        m.pc == offset_of(instrs, k),
    ensures
        forall|j: int|
            0 <= j < instrs[k].opcode.spec_arity().0 ==> match #[trigger] instrs[k].operands[j] {
                Some(Operand::Reg(r)) => m.arg(j) == r.0,
                Some(Operand::Int(n)) => j == 1 && m.arg(1) * 256 + m.arg(2) == low16(n.0),
                None => false,
            },
        instrs[k].opcode.is_comparison() ==> m.arg(2) == 0,
{
    lemma_engine_reads_instruction(m, instrs, k);
    let instr = instrs[k];
    let bytes = instr.encoding();
    let a = slot_encoding(instr.operands[0]);
    let b = slot_encoding(instr.operands[1]);
    let c = slot_encoding(instr.operands[2]);
    assert(instr.operands[0] is Some ==> a.len() == 1);
    assert(instr.operands[1] is Some ==> b.len() == (if instr.opcode == OpCode::Load {
        2nat
    } else {
        1nat
    }));
    assert(instr.operands[2] is Some ==> c.len() == 1);
    assert forall|j: int| 0 <= j < instr.opcode.spec_arity().0 implies match #[trigger] instr.operands[j] {
        Some(Operand::Reg(r)) => m.arg(j) == r.0,
        Some(Operand::Int(n)) => j == 1 && m.arg(1) * 256 + m.arg(2) == low16(n.0),
        None => false,
    } by {
        if j == 0 {
            assert(bytes[1] == a[0]);
        } else if j == 1 {
            assert(bytes[2] == b[0]);
            if instr.opcode == OpCode::Load {
                assert(bytes[3] == b[1]);
                let n = instr.operands[1]->0->Int_0;
                assert(0 <= low16(n.0) < 0x1_0000);
            }
        } else {
            assert(bytes[3] == c[0]);
        }
    }
    if instr.opcode.is_comparison() {
        assert(bytes[3] == padding(instr.opcode)[0]);
    }
}

} // verus!
