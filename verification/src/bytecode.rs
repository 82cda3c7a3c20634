//! The instruction set: opcodes, their mnemonics, their operand counts and
//! their numeric codes.

use vstd::prelude::*;
use vstd::string::StringSliceAdditionalSpecFns;

verus! {

/// The number of operands that an opcode takes in source text.
#[derive(Copy, Clone, PartialEq, Eq, PartialOrd, Ord, Hash, Structural)]
pub struct Arity(pub usize);

impl Arity {
    /// No opcode takes more operands than this.
    pub const MAX: usize = 3;

    /// The operand count as a plain number.
    pub fn as_usize(&self) -> (n: usize)
        ensures
            n == self.0,
    {
        self.0
    }
}

/// The operations of the machine.
///
/// Each opcode has a declaration index (its place in this list), a numeric
/// code (the byte that stands for it in bytecode), a mnemonic with a
/// lower-case and an upper-case spelling, and a fixed arity.
#[derive(Copy, Clone, Debug, PartialEq, Eq, PartialOrd, Ord, Hash, Structural)]
pub enum OpCode {
    /// Load a sixteen-bit value into a register: `load $r #v`.
    Load,
    /// Add two registers into a third: `add $a $b $c`.
    Add,
    /// Subtract the second register from the first into a third: `sub $a $b $c`.
    Sub,
    /// Multiply two registers into a third: `mul $a $b $c`.
    Mul,
    /// Divide the first register by the second into a third, keeping the
    /// remainder in the remainder register: `div $a $b $c`.
    Div,
    /// Continue at the byte offset held in a register: `jmp $r`.
    Jump,
    /// Move forward by the number of bytes held in a register: `jmpf $r`.
    JumpF,
    /// Move backward by the number of bytes held in a register: `jmpb $r`.
    JumpB,
    /// Set the compare flag if two registers are equal: `eq $a $b`.
    Eq,
    /// Set the compare flag if two registers differ: `neq $a $b`.
    NotEq,
    /// Set the compare flag if the first register is greater: `gt $a $b`.
    Greater,
    /// Set the compare flag if the first register is less: `lt $a $b`.
    Less,
    /// Set the compare flag if the first register is not less: `gte $a $b`.
    GreaterEq,
    /// Set the compare flag if the first register is not greater: `lte $a $b`.
    LessEq,
    /// Continue at the offset held in a register if the compare flag is set:
    /// `jmpe $r`.
    JumpEq,
    /// Continue at the offset held in a register if the compare flag is clear:
    /// `jmpne $r`.
    JumpNeq,
    /// Stop the program: `halt`.
    Halt,
    /// The invalid opcode: the engine stops with a fault when it meets it.
    Bad,
}

/// The byte that stands for `Halt`.
pub const HALT_CODE: u8 = 254;

/// The byte that the encoder writes for `Bad`. Every byte that is assigned to
/// no other opcode decodes to `Bad`; this is the one chosen to stand for it.
pub const BAD_CODE: u8 = 255;

/// The number of opcodes whose code is their declaration index: all but
/// `Halt` and `Bad`.
pub const DENSE_CODES: u8 = 16;

/// The bytes of a text made of ASCII characters.
pub open spec fn ascii_bytes(text: Seq<char>) -> Seq<u8> {
    Seq::new(text.len(), |i: int| text[i] as u8)
}

/// The upper-case form of a lower-case ASCII word.
pub open spec fn upper_case(word: Seq<char>) -> Seq<char> {
    Seq::new(word.len(), |i: int| ((word[i] as u8 - 32) as u8) as char)
}

impl OpCode {
    /// Every opcode, in declaration order.
    pub const VARIANTS: [OpCode; 18] = [
        OpCode::Load,
        OpCode::Add,
        OpCode::Sub,
        OpCode::Mul,
        OpCode::Div,
        OpCode::Jump,
        OpCode::JumpF,
        OpCode::JumpB,
        OpCode::Eq,
        OpCode::NotEq,
        OpCode::Greater,
        OpCode::Less,
        OpCode::GreaterEq,
        OpCode::LessEq,
        OpCode::JumpEq,
        OpCode::JumpNeq,
        OpCode::Halt,
        OpCode::Bad,
    ];

    /// The number of opcodes.
    pub const COUNT: usize = 18;

    /// The place of this opcode in declaration order.
    pub open spec fn spec_index(self) -> nat {
        match self {
            OpCode::Load => 0,
            OpCode::Add => 1,
            OpCode::Sub => 2,
            OpCode::Mul => 3,
            OpCode::Div => 4,
            OpCode::Jump => 5,
            OpCode::JumpF => 6,
            OpCode::JumpB => 7,
            OpCode::Eq => 8,
            OpCode::NotEq => 9,
            OpCode::Greater => 10,
            OpCode::Less => 11,
            OpCode::GreaterEq => 12,
            OpCode::LessEq => 13,
            OpCode::JumpEq => 14,
            OpCode::JumpNeq => 15,
            OpCode::Halt => 16,
            OpCode::Bad => 17,
        }
    }

    /// The opcode at place `i` in declaration order; `Bad` for an `i` that is
    /// no place.
    pub open spec fn nth(i: int) -> OpCode {
        if i == 0 {
            OpCode::Load
        } else if i == 1 {
            OpCode::Add
        } else if i == 2 {
            OpCode::Sub
        } else if i == 3 {
            OpCode::Mul
        } else if i == 4 {
            OpCode::Div
        } else if i == 5 {
            OpCode::Jump
        } else if i == 6 {
            OpCode::JumpF
        } else if i == 7 {
            OpCode::JumpB
        } else if i == 8 {
            OpCode::Eq
        } else if i == 9 {
            OpCode::NotEq
        } else if i == 10 {
            OpCode::Greater
        } else if i == 11 {
            OpCode::Less
        } else if i == 12 {
            OpCode::GreaterEq
        } else if i == 13 {
            OpCode::LessEq
        } else if i == 14 {
            OpCode::JumpEq
        } else if i == 15 {
            OpCode::JumpNeq
        } else if i == 16 {
            OpCode::Halt
        } else {
            OpCode::Bad
        }
    }

    /// The byte that stands for this opcode in bytecode: the declaration
    /// index, except for `Halt` and `Bad`.
    pub open spec fn spec_code(self) -> u8 {
        match self {
            OpCode::Halt => HALT_CODE,
            OpCode::Bad => BAD_CODE,
            _ => self.spec_index() as u8,
        }
    }

    /// The opcode that a byte of bytecode stands for. Total: a byte that is
    /// assigned to no opcode stands for `Bad`.
    pub open spec fn decode(byte: u8) -> OpCode {
        if byte < DENSE_CODES {
            OpCode::nth(byte as int)
        } else if byte == HALT_CODE {
            OpCode::Halt
        } else {
            OpCode::Bad
        }
    }

    /// The number of operands this opcode takes in source text.
    pub open spec fn spec_arity(self) -> Arity {
        match self {
            OpCode::Load => Arity(2),
            OpCode::Add => Arity(3),
            OpCode::Sub => Arity(3),
            OpCode::Mul => Arity(3),
            OpCode::Div => Arity(3),
            OpCode::Jump => Arity(1),
            OpCode::JumpF => Arity(1),
            OpCode::JumpB => Arity(1),
            OpCode::Eq => Arity(2),
            OpCode::NotEq => Arity(2),
            OpCode::Greater => Arity(2),
            OpCode::Less => Arity(2),
            OpCode::GreaterEq => Arity(2),
            OpCode::LessEq => Arity(2),
            OpCode::JumpEq => Arity(1),
            OpCode::JumpNeq => Arity(1),
            OpCode::Halt => Arity(0),
            OpCode::Bad => Arity(1),
        }
    }

    /// The number of bytes that one instruction with this opcode occupies in
    /// bytecode, the opcode byte included.
    ///
    /// `Load` is followed by a register byte and a two-byte value; the
    /// arithmetic opcodes by three register bytes; the comparisons by two
    /// register bytes and one padding byte; the jumps and `Bad` by one
    /// register byte; `Halt` by nothing.
    pub open spec fn spec_width(self) -> nat {
        match self {
            OpCode::Load => 4,
            OpCode::Add => 4,
            OpCode::Sub => 4,
            OpCode::Mul => 4,
            OpCode::Div => 4,
            OpCode::Jump => 2,
            OpCode::JumpF => 2,
            OpCode::JumpB => 2,
            OpCode::Eq => 4,
            OpCode::NotEq => 4,
            OpCode::Greater => 4,
            OpCode::Less => 4,
            OpCode::GreaterEq => 4,
            OpCode::LessEq => 4,
            OpCode::JumpEq => 2,
            OpCode::JumpNeq => 2,
            OpCode::Halt => 1,
            OpCode::Bad => 2,
        }
    }

    /// Whether this opcode is one of the six comparisons.
    pub open spec fn is_comparison(self) -> bool {
        match self {
            OpCode::Eq
            | OpCode::NotEq
            | OpCode::Greater
            | OpCode::Less
            | OpCode::GreaterEq
            | OpCode::LessEq => true,
            _ => false,
        }
    }

    /// The lower-case spelling of the mnemonic.
    pub open spec fn mnemonic(self) -> Seq<char> {
        match self {
            OpCode::Load => seq!['l', 'o', 'a', 'd'],
            OpCode::Add => seq!['a', 'd', 'd'],
            OpCode::Sub => seq!['s', 'u', 'b'],
            OpCode::Mul => seq!['m', 'u', 'l'],
            OpCode::Div => seq!['d', 'i', 'v'],
            OpCode::Jump => seq!['j', 'm', 'p'],
            OpCode::JumpF => seq!['j', 'm', 'p', 'f'],
            OpCode::JumpB => seq!['j', 'm', 'p', 'b'],
            OpCode::Eq => seq!['e', 'q'],
            OpCode::NotEq => seq!['n', 'e', 'q'],
            OpCode::Greater => seq!['g', 't'],
            OpCode::Less => seq!['l', 't'],
            OpCode::GreaterEq => seq!['g', 't', 'e'],
            OpCode::LessEq => seq!['l', 't', 'e'],
            OpCode::JumpEq => seq!['j', 'm', 'p', 'e'],
            OpCode::JumpNeq => seq!['j', 'm', 'p', 'n', 'e'],
            OpCode::Halt => seq!['h', 'a', 'l', 't'],
            OpCode::Bad => seq!['b', 'a', 'd'],
        }
    }

    /// Whether `name` is one of the two spellings of this opcode's mnemonic:
    /// all lower case or all upper case.
    pub open spec fn spells(self, name: Seq<u8>) -> bool {
        name == ascii_bytes(self.mnemonic()) || name == ascii_bytes(upper_case(self.mnemonic()))
    }

    /// The first opcode at place `from` or later whose mnemonic `name` spells.
    pub open spec fn first_spelled(name: Seq<u8>, from: int) -> Option<OpCode>
        decreases 18 - from,
    {
        if from < 0 || from >= 18 {
            None
        } else if OpCode::nth(from).spells(name) {
            Some(OpCode::nth(from))
        } else {
            OpCode::first_spelled(name, from + 1)
        }
    }

    /// The opcode that a mnemonic names, if any. Spellings are matched
    /// exactly: `load` and `LOAD` name an opcode, `Load` does not.
    pub open spec fn resolve(name: Seq<u8>) -> Option<OpCode> {
        OpCode::first_spelled(name, 0)
    }
}

/// Every mnemonic is a short word of lower-case ASCII letters.
pub proof fn lemma_mnemonic_is_lower_case(op: OpCode)
    ensures
        1 <= op.mnemonic().len() <= 5,
        forall|i: int|
            0 <= i < op.mnemonic().len() ==> 'a' <= #[trigger] op.mnemonic()[i] <= 'z',
{
}

impl OpCode {
    /// The place of this opcode in declaration order.
    pub fn as_usize(&self) -> (i: usize)
        ensures
            i == self.spec_index(),
            i < 18,
            OpCode::nth(i as int) == *self,
    {
        match self {
            OpCode::Load => 0,
            OpCode::Add => 1,
            OpCode::Sub => 2,
            OpCode::Mul => 3,
            OpCode::Div => 4,
            OpCode::Jump => 5,
            OpCode::JumpF => 6,
            OpCode::JumpB => 7,
            OpCode::Eq => 8,
            OpCode::NotEq => 9,
            OpCode::Greater => 10,
            OpCode::Less => 11,
            OpCode::GreaterEq => 12,
            OpCode::LessEq => 13,
            OpCode::JumpEq => 14,
            OpCode::JumpNeq => 15,
            OpCode::Halt => 16,
            OpCode::Bad => 17,
        }
    }

    /// The opcode at place `i` in declaration order, if there is one.
    pub fn from_index(i: usize) -> (op: Option<OpCode>)
        ensures
            i < 18 ==> op == Some(OpCode::nth(i as int)) && OpCode::nth(i as int).spec_index() == i,
            i >= 18 ==> op is None,
    {
        match i {
            0 => Some(OpCode::Load),
            1 => Some(OpCode::Add),
            2 => Some(OpCode::Sub),
            3 => Some(OpCode::Mul),
            4 => Some(OpCode::Div),
            5 => Some(OpCode::Jump),
            6 => Some(OpCode::JumpF),
            7 => Some(OpCode::JumpB),
            8 => Some(OpCode::Eq),
            9 => Some(OpCode::NotEq),
            10 => Some(OpCode::Greater),
            11 => Some(OpCode::Less),
            12 => Some(OpCode::GreaterEq),
            13 => Some(OpCode::LessEq),
            14 => Some(OpCode::JumpEq),
            15 => Some(OpCode::JumpNeq),
            16 => Some(OpCode::Halt),
            17 => Some(OpCode::Bad),
            _ => None,
        }
    }

    /// The byte that stands for this opcode in bytecode.
    pub fn code(&self) -> (b: u8)
        ensures
            b == self.spec_code(),
            OpCode::decode(b) == *self,
    {
        match self {
            OpCode::Halt => HALT_CODE,
            OpCode::Bad => BAD_CODE,
            _ => self.as_usize() as u8,
        }
    }

    /// The number of operands this opcode takes in source text. Defined for
    /// every opcode, and never more than `Arity::MAX`.
    pub fn arity(&self) -> (a: Arity)
        ensures
            a == self.spec_arity(),
            a.0 <= Arity::MAX,
    {
        match self {
            OpCode::Load => Arity(2),
            OpCode::Add => Arity(3),
            OpCode::Sub => Arity(3),
            OpCode::Mul => Arity(3),
            OpCode::Div => Arity(3),
            OpCode::Jump => Arity(1),
            OpCode::JumpF => Arity(1),
            OpCode::JumpB => Arity(1),
            OpCode::Eq => Arity(2),
            OpCode::NotEq => Arity(2),
            OpCode::Greater => Arity(2),
            OpCode::Less => Arity(2),
            OpCode::GreaterEq => Arity(2),
            OpCode::LessEq => Arity(2),
            OpCode::JumpEq => Arity(1),
            OpCode::JumpNeq => Arity(1),
            OpCode::Halt => Arity(0),
            OpCode::Bad => Arity(1),
        }
    }

    /// The number of bytes that one instruction with this opcode occupies in
    /// bytecode, the opcode byte included.
    pub fn width(&self) -> (w: usize)
        ensures
            w == self.spec_width(),
            1 <= w <= 4,
    {
        match self {
            OpCode::Load => 4,
            OpCode::Add => 4,
            OpCode::Sub => 4,
            OpCode::Mul => 4,
            OpCode::Div => 4,
            OpCode::Jump => 2,
            OpCode::JumpF => 2,
            OpCode::JumpB => 2,
            OpCode::Eq => 4,
            OpCode::NotEq => 4,
            OpCode::Greater => 4,
            OpCode::Less => 4,
            OpCode::GreaterEq => 4,
            OpCode::LessEq => 4,
            OpCode::JumpEq => 2,
            OpCode::JumpNeq => 2,
            OpCode::Halt => 1,
            OpCode::Bad => 2,
        }
    }

    /// The lower-case spelling of the mnemonic.
    pub fn as_str(&self) -> (s: &'static str)
        ensures
            s@ == self.mnemonic(),
            s.is_ascii(),
    {
        match self {
            OpCode::Load => {
                proof {
                    reveal_strlit("load");
                    assert("load"@ =~= self.mnemonic());
                }
                "load"
            },
            OpCode::Add => {
                proof {
                    reveal_strlit("add");
                    assert("add"@ =~= self.mnemonic());
                }
                "add"
            },
            OpCode::Sub => {
                proof {
                    reveal_strlit("sub");
                    assert("sub"@ =~= self.mnemonic());
                }
                "sub"
            },
            OpCode::Mul => {
                proof {
                    reveal_strlit("mul");
                    assert("mul"@ =~= self.mnemonic());
                }
                "mul"
            },
            OpCode::Div => {
                proof {
                    reveal_strlit("div");
                    assert("div"@ =~= self.mnemonic());
                }
                "div"
            },
            OpCode::Jump => {
                proof {
                    reveal_strlit("jmp");
                    assert("jmp"@ =~= self.mnemonic());
                }
                "jmp"
            },
            OpCode::JumpF => {
                proof {
                    reveal_strlit("jmpf");
                    assert("jmpf"@ =~= self.mnemonic());
                }
                "jmpf"
            },
            OpCode::JumpB => {
                proof {
                    reveal_strlit("jmpb");
                    assert("jmpb"@ =~= self.mnemonic());
                }
                "jmpb"
            },
            OpCode::Eq => {
                proof {
                    reveal_strlit("eq");
                    assert("eq"@ =~= self.mnemonic());
                }
                "eq"
            },
            OpCode::NotEq => {
                proof {
                    reveal_strlit("neq");
                    assert("neq"@ =~= self.mnemonic());
                }
                "neq"
            },
            OpCode::Greater => {
                proof {
                    reveal_strlit("gt");
                    assert("gt"@ =~= self.mnemonic());
                }
                "gt"
            },
            OpCode::Less => {
                proof {
                    reveal_strlit("lt");
                    assert("lt"@ =~= self.mnemonic());
                }
                "lt"
            },
            OpCode::GreaterEq => {
                proof {
                    reveal_strlit("gte");
                    assert("gte"@ =~= self.mnemonic());
                }
                "gte"
            },
            OpCode::LessEq => {
                proof {
                    reveal_strlit("lte");
                    assert("lte"@ =~= self.mnemonic());
                }
                "lte"
            },
            OpCode::JumpEq => {
                proof {
                    reveal_strlit("jmpe");
                    assert("jmpe"@ =~= self.mnemonic());
                }
                "jmpe"
            },
            OpCode::JumpNeq => {
                proof {
                    reveal_strlit("jmpne");
                    assert("jmpne"@ =~= self.mnemonic());
                }
                "jmpne"
            },
            OpCode::Halt => {
                proof {
                    reveal_strlit("halt");
                    assert("halt"@ =~= self.mnemonic());
                }
                "halt"
            },
            OpCode::Bad => {
                proof {
                    reveal_strlit("bad");
                    assert("bad"@ =~= self.mnemonic());
                }
                "bad"
            },
        }
    }

    /// Whether `name` is the lower-case or the upper-case spelling of this
    /// opcode's mnemonic.
    pub fn is_spelled(&self, name: &[u8]) -> (b: bool)
        ensures
            b == self.spells(name@),
    {
        broadcast use vstd::string::is_ascii_spec_bytes;

        let word = self.as_str().as_bytes();
        proof {
            lemma_mnemonic_is_lower_case(*self);
            assert(word@ =~= ascii_bytes(self.mnemonic()));
        }
        if word.len() != name.len() {
            return false;
        }
        let mut lower = true;
        let mut upper = true;
        let mut i: usize = 0;
        while i < word.len()
            invariant
                i <= word.len() == name.len(),
                word@ == ascii_bytes(self.mnemonic()),
                forall|j: int| 0 <= j < word.len() ==> 97 <= #[trigger] word@[j] <= 122,
                lower == (forall|j: int| 0 <= j < i ==> name@[j] == word@[j]),
                upper == (forall|j: int| 0 <= j < i ==> name@[j] == word@[j] - 32),
            decreases word.len() - i,
        {
            if name[i] != word[i] {
                lower = false;
            }
            if name[i] != word[i] - 32 {
                upper = false;
            }
            i += 1;
        }
        proof {
            let low = ascii_bytes(self.mnemonic());
            let up = ascii_bytes(upper_case(self.mnemonic()));
            assert forall|j: int| 0 <= j < up.len() implies up[j] == low[j] - 32 by {
                let c = self.mnemonic()[j];
                assert(97 <= low[j] <= 122);
            }
            if lower {
                assert(name@ =~= low);
            }
            if upper {
                assert(name@ =~= up);
            }
            if name@ == low {
                assert(lower);
            }
            if name@ == up {
                assert(upper);
            }
        }
        lower || upper
    }

    /// The opcode that the mnemonic `name` names, if any.
    pub fn from_bytes(name: &[u8]) -> (op: Option<OpCode>)
        ensures
            op == OpCode::resolve(name@),
    {
        let mut i: usize = 0;
        while i < 18
            invariant
                i <= 18,
                OpCode::resolve(name@) == OpCode::first_spelled(name@, i as int),
            decreases 18 - i,
        {
            match OpCode::from_index(i) {
                Some(op) => {
                    if op.is_spelled(name) {
                        return Some(op);
                    }
                },
                None => {},
            }
            i += 1;
        }
        None
    }

    /// The opcode that the mnemonic `s` names, if any. Spellings are matched
    /// exactly: `load` and `LOAD` name an opcode, `Load` does not.
    pub fn from_str(s: &str) -> (op: Option<OpCode>)
        ensures
            op == OpCode::resolve(s.spec_bytes()),
    {
        OpCode::from_bytes(s.as_bytes())
    }
}

impl From<u8> for OpCode {
    /// The opcode that a byte of bytecode stands for.
    fn from(byte: u8) -> (op: OpCode) {
        if byte == HALT_CODE {
            OpCode::Halt
        } else {
            match OpCode::from_index(byte as usize) {
                Some(op) => match op {
                    OpCode::Halt => OpCode::Bad,
                    other => other,
                },
                None => OpCode::Bad,
            }
        }
    }
}

impl vstd::std_specs::convert::FromSpecImpl<u8> for OpCode {
    open spec fn obeys_from_spec() -> bool {
        true
    }

    open spec fn from_spec(byte: u8) -> OpCode {
        OpCode::decode(byte)
    }
}

/// What tells the mnemonics apart: the length of a word and its first,
/// second, third and last letters.
spec fn marks(word: Seq<char>) -> (nat, char, char, char, char) {
    (word.len(), word[0], word[1], word[2], word.last())
}

/// No two opcodes have the same mnemonic.
proof fn lemma_mnemonics_differ(a: OpCode, b: OpCode)
    requires
        a != b,
    ensures
        marks(a.mnemonic()) != marks(b.mnemonic()),
        a.mnemonic().len() >= 2,
{
}

/// No spelling of the mnemonic of an opcode is a spelling of the mnemonic of
/// another.
proof fn lemma_spellings_differ(a: OpCode, b: OpCode)
    requires
        a != b,
    ensures
        !b.spells(ascii_bytes(a.mnemonic())),
        !b.spells(ascii_bytes(upper_case(a.mnemonic()))),
{
    let w = a.mnemonic();
    let v = b.mnemonic();
    lemma_mnemonic_is_lower_case(a);
    lemma_mnemonic_is_lower_case(b);
    lemma_mnemonics_differ(a, b);
    let low_w = ascii_bytes(w);
    let low_v = ascii_bytes(v);
    let up_w = ascii_bytes(upper_case(w));
    let up_v = ascii_bytes(upper_case(v));
    assert(97 <= low_w[0] <= 122 && 97 <= low_v[0] <= 122);
    assert(65 <= up_w[0] <= 90 && 65 <= up_v[0] <= 90);
    if w.len() == v.len() {
        let n = w.len() as int;
        assert forall|k: int| 0 <= k < n && w[k] != v[k] implies low_w[k] != low_v[k] && up_w[k]
            != up_v[k] by {
            assert(97 <= low_w[k] <= 122 && 97 <= low_v[k] <= 122);
            assert(up_w[k] == low_w[k] - 32 && up_v[k] == low_v[k] - 32);
        }
        let k = if w[0] != v[0] {
            0
        } else if w[1] != v[1] {
            1
        } else if n > 2 && w[2] != v[2] {
            2
        } else {
            n - 1
        };
        assert(low_w[k] != low_v[k]);
        assert(up_w[k] != up_v[k]);
    } else {
        assert(low_w.len() != low_v.len());
        assert(up_w.len() != up_v.len());
    }
    assert(low_w[0] != up_v[0]);
    assert(up_w[0] != low_v[0]);
}

/// Both spellings of the mnemonic of an opcode name that opcode and no
/// other.
pub proof fn lemma_resolve_mnemonic(op: OpCode)
    ensures
        OpCode::resolve(ascii_bytes(op.mnemonic())) == Some(op),
        OpCode::resolve(ascii_bytes(upper_case(op.mnemonic()))) == Some(op),
{
    lemma_first_spelled(op, ascii_bytes(op.mnemonic()), 0);
    lemma_first_spelled(op, ascii_bytes(upper_case(op.mnemonic())), 0);
}

/// Among the opcodes from place `from` on, the first that a spelling of the
/// mnemonic of `op` spells is `op`.
proof fn lemma_first_spelled(op: OpCode, name: Seq<u8>, from: int)
    requires
        0 <= from <= op.spec_index(),
        op.spells(name),
        name == ascii_bytes(op.mnemonic()) || name == ascii_bytes(upper_case(op.mnemonic())),
    ensures
        OpCode::first_spelled(name, from) == Some(op),
    decreases 18 - from,
{
    assert(OpCode::nth(op.spec_index() as int) == op);
    if from < op.spec_index() {
        lemma_spellings_differ(op, OpCode::nth(from));
        lemma_first_spelled(op, name, from + 1);
    }
}

/// A name that resolves is a spelling of the mnemonic of the opcode that it
/// resolves to; a name that does not resolve is a spelling of none.
pub proof fn lemma_resolve_spells(name: Seq<u8>, op: OpCode)
    ensures
        OpCode::resolve(name) == Some(op) ==> op.spells(name),
        OpCode::resolve(name) is None ==> !op.spells(name),
{
    reveal_with_fuel(OpCode::first_spelled, 19);
    assert(OpCode::nth(op.spec_index() as int) == op);
}

} // verus!
