//! The decisions of the interactive shell: what a line of input means and
//! what it does to the engine. Reading lines and printing is left to the
//! program around the library.

use vstd::prelude::*;
use vstd::string::StringSliceAdditionalSpecFns;
use crate::text::str_eq;
use crate::vm::{Machine, Status, Vm};

verus! {

/// The commands of the shell.
#[derive(Copy, Clone, Debug, PartialEq, Eq, PartialOrd, Ord, Hash, Structural)]
pub enum Cmd {
    /// Leave the shell: `:quit`, `:q` or `:Q`.
    Quit,
    /// Show the lines entered so far: `:history`, `:h` or `:hist`.
    History,
    /// Show the code held by the engine: `:program` or `:prog`.
    Program,
    /// Show the registers: `:registers` or `:r`.
    Registers,
}

impl Cmd {
    /// The command that `s` names, if any.
    pub open spec fn resolve(s: Seq<char>) -> Option<Cmd> {
        if s == ":quit"@ || s == ":q"@ || s == ":Q"@ {
            Some(Cmd::Quit)
        } else if s == ":history"@ || s == ":h"@ || s == ":hist"@ {
            Some(Cmd::History)
        } else if s == ":program"@ || s == ":prog"@ {
            Some(Cmd::Program)
        } else if s == ":registers"@ || s == ":r"@ {
            Some(Cmd::Registers)
        } else {
            None
        }
    }

    /// The command that `s` names, if any.
    pub fn from_str(s: &str) -> (cmd: Option<Cmd>)
        ensures
            cmd == Cmd::resolve(s@),
    {
        if str_eq(s, ":quit") || str_eq(s, ":q") || str_eq(s, ":Q") {
            Some(Cmd::Quit)
        } else if str_eq(s, ":history") || str_eq(s, ":h") || str_eq(s, ":hist") {
            Some(Cmd::History)
        } else if str_eq(s, ":program") || str_eq(s, ":prog") {
            Some(Cmd::Program)
        } else if str_eq(s, ":registers") || str_eq(s, ":r") {
            Some(Cmd::Registers)
        } else {
            None
        }
    }

    /// The first of the names of the command.
    pub open spec fn name(self) -> Seq<char> {
        match self {
            Cmd::Quit => ":quit"@,
            Cmd::History => ":history"@,
            Cmd::Program => ":program"@,
            Cmd::Registers => ":registers"@,
        }
    }

    /// The first of the names of the command. It names the command.
    pub fn as_str(&self) -> (s: &'static str)
        ensures
            s@ == self.name(),
            Cmd::resolve(s@) == Some(*self),
    {
        proof {
            reveal_strlit(":quit");
            reveal_strlit(":q");
            reveal_strlit(":Q");
            reveal_strlit(":history");
            reveal_strlit(":h");
            reveal_strlit(":hist");
            reveal_strlit(":program");
            reveal_strlit(":prog");
            reveal_strlit(":registers");
            reveal_strlit(":r");
            assert(":history"@.len() == 8 && ":program"@.len() == 8 && ":registers"@.len() == 10);
            assert(":quit"@.len() == 5 && ":q"@.len() == 2 && ":Q"@.len() == 2);
            assert(":h"@.len() == 2 && ":hist"@.len() == 5 && ":prog"@.len() == 5);
            assert(":program"@[1] != ":history"@[1]);
        }
        match self {
            Cmd::Quit => ":quit",
            Cmd::History => ":history",
            Cmd::Program => ":program",
            Cmd::Registers => ":registers",
        }
    }
}

/// Why a line of input is no sequence of bytes in hexadecimal.
#[derive(Copy, Clone, Debug, PartialEq, Eq, Structural)]
pub enum HexError {
    /// A group is empty: the line is empty, or two blanks follow each other,
    /// or a blank stands first or last.
    Empty,
    /// A group holds a character that is no hexadecimal digit, or only a
    /// sign.
    InvalidDigit,
    /// A group writes a number that no byte holds.
    TooLarge,
}

/// The blank that separates the groups of a line.
pub const BLANK: u8 = 32;

/// The plus sign, which may stand before the digits of a group.
pub const PLUS: u8 = 43;

/// The value of a hexadecimal digit, or `None` for another byte.
pub open spec fn hex_digit(b: u8) -> Option<int> {
    if 48 <= b <= 57 {
        Some(b - 48)
    } else if 97 <= b <= 102 {
        Some(b - 87)
    } else if 65 <= b <= 70 {
        Some(b - 55)
    } else {
        None
    }
}

/// The byte that the digits from `digits[from]` on write after the digits
/// before them have written `value`. The digits are read from left to right.
/// The first byte that is no digit is an error; so is the first digit that
/// takes the number past 255.
pub open spec fn hex_digits(digits: Seq<u8>, from: int, value: int) -> Result<u8, HexError>
    decreases digits.len() - from,
{
    if from < 0 || from >= digits.len() {
        Ok(value as u8)
    } else {
        match hex_digit(digits[from]) {
            None => Err(HexError::InvalidDigit),
            Some(d) => if value * 16 + d > 255 {
                Err(HexError::TooLarge)
            } else {
                hex_digits(digits, from + 1, value * 16 + d)
            },
        }
    }
}

/// The byte that a group writes: hexadecimal digits, which a plus sign may
/// precede.
pub open spec fn hex_byte(group: Seq<u8>) -> Result<u8, HexError> {
    if group.len() == 0 {
        Err(HexError::Empty)
    } else if group[0] == PLUS {
        if group.len() == 1 {
            Err(HexError::InvalidDigit)
        } else {
            hex_digits(group, 1, 0)
        }
    } else {
        hex_digits(group, 0, 0)
    }
}

/// Where the group that starts at `from` ends: at the next blank or at the
/// end of the line.
pub open spec fn group_end(line: Seq<u8>, from: int) -> int
    decreases line.len() - from,
{
    if from < 0 || from >= line.len() || line[from] == BLANK {
        from
    } else {
        group_end(line, from + 1)
    }
}

/// The bytes that the groups of `line` from offset `from` on write. Single
/// blanks separate the groups. The first group that writes no byte decides
/// the error.
pub open spec fn hex_line(line: Seq<u8>, from: int) -> Result<Seq<u8>, HexError>
    decreases line.len() - from,
    when 0 <= from <= line.len()
{
    let end = group_end(line, from);
    match hex_byte(line.subrange(from, end)) {
        Err(e) => Err(e),
        Ok(byte) => if end >= line.len() {
            Ok(seq![byte])
        } else {
            proof {
                lemma_group_end_bounds(line, from);
            }
            match hex_line(line, end + 1) {
                Err(e) => Err(e),
                Ok(rest) => Ok(seq![byte] + rest),
            }
        },
    }
}

/// A group ends at or after its start and inside the line, at a blank if not
/// at the end, and holds no blank.
pub proof fn lemma_group_end_bounds(line: Seq<u8>, from: int)
    requires
        0 <= from <= line.len(),
    ensures
        from <= group_end(line, from) <= line.len(),
        group_end(line, from) < line.len() ==> line[group_end(line, from)] == BLANK,
        forall|i: int| from <= i < group_end(line, from) ==> #[trigger] line[i] != BLANK,
    decreases line.len() - from,
{
    if from < line.len() && line[from] != BLANK {
        lemma_group_end_bounds(line, from + 1);
    }
}

/// Reads the byte that the group `line[from..to]` writes.
fn parse_group(line: &[u8], from: usize, to: usize) -> (r: Result<u8, HexError>)
    requires
        from <= to <= line.len(),
    ensures
        r == hex_byte(line@.subrange(from as int, to as int)),
{
    let ghost group = line@.subrange(from as int, to as int);
    if from == to {
        return Err(HexError::Empty);
    }
    let mut i: usize = from;
    if line[from] == PLUS {
        if to - from == 1 {
            return Err(HexError::InvalidDigit);
        }
        i = from + 1;
    }
    let mut value: u16 = 0;
    while i < to
        invariant
            from <= i <= to <= line.len(),
            group == line@.subrange(from as int, to as int),
            value <= 255,
            hex_byte(group) == hex_digits(group, i - from, value as int),
        decreases to - i,
    {
        let b = line[i];
        assert(group[i - from] == b);
        let digit: u16 = if 48 <= b && b <= 57 {
            (b - 48) as u16
        } else if 97 <= b && b <= 102 {
            (b - 87) as u16
        } else if 65 <= b && b <= 70 {
            (b - 55) as u16
        } else {
            return Err(HexError::InvalidDigit);
        };
        if value * 16 + digit > 255 {
            return Err(HexError::TooLarge);
        }
        value = value * 16 + digit;
        i += 1;
    }
    Ok(value as u8)
}

/// Reads a line of bytes written in hexadecimal, two digits or fewer each,
/// with single blanks between them and without a `0x` before them.
pub fn parse_hex(input: &str) -> (r: Result<Vec<u8>, HexError>)
    ensures
        match hex_line(input.spec_bytes(), 0) {
            Ok(bytes) => r is Ok && r->Ok_0@ == bytes,
            Err(e) => r == Err::<Vec<u8>, HexError>(e),
        },
{
    let line = input.as_bytes();
    let mut bytes: Vec<u8> = Vec::new();
    let mut from: usize = 0;
    loop
        invariant
            from <= line.len(),
            line@ == input.spec_bytes(),
            match hex_line(line@, from as int) {
                Ok(rest) => hex_line(line@, 0) == Ok::<Seq<u8>, HexError>(bytes@ + rest),
                Err(e) => hex_line(line@, 0) == Err::<Seq<u8>, HexError>(e),
            },
        decreases line.len() - from,
    {
        let mut to: usize = from;
        while to < line.len() && line[to] != BLANK
            invariant
                from <= to <= line.len(),
                group_end(line@, from as int) == group_end(line@, to as int),
            decreases line.len() - to,
        {
            to += 1;
        }
        proof {
            lemma_group_end_bounds(line@, from as int);
        }
        match parse_group(line, from, to) {
            Ok(byte) => {
                let ghost before = bytes@;
                bytes.push(byte);
                if to >= line.len() {
                    assert(before + seq![byte] =~= bytes@);
                    return Ok(bytes);
                }
                proof {
                    let rest = hex_line(line@, to + 1);
                    if rest is Ok {
                        assert(before + (seq![byte] + rest->Ok_0) =~= bytes@ + rest->Ok_0);
                    }
                }
                from = to + 1;
            },
            Err(e) => {
                return Err(e);
            },
        }
    }
}

/// What a line of input led to.
#[derive(Copy, Clone, Debug, PartialEq, Eq, Structural)]
pub enum Reply {
    /// The line is a command, which is for the caller to carry out.
    Command(Cmd),
    /// The line is no command and no bytes in hexadecimal. Nothing changed.
    InvalidHex(HexError),
    /// The bytes of the line were added to the code and one instruction was
    /// executed. Holds what the tick reported.
    Ticked(Status),
}

/// The state of the shell as a mathematical value.
pub struct Session {
    /// The state of the engine.
    pub machine: Machine,
    /// The lines that were accepted so far, each once, in the order in which
    /// they first came.
    pub log: Seq<Seq<char>>,
}

impl Session {
    /// The log after `line` has been accepted: `line` is added at the end
    /// unless it is in the log already.
    pub open spec fn remember(self, line: Seq<char>) -> Seq<Seq<char>> {
        if self.log.contains(line) {
            self.log
        } else {
            self.log.push(line)
        }
    }

    /// The session and the reply after `line` has been fed to it.
    pub open spec fn feed(self, line: &str) -> (Session, Reply) {
        match Cmd::resolve(line@) {
            Some(cmd) => (self, Reply::Command(cmd)),
            None => match hex_line(line.spec_bytes(), 0) {
                Err(e) => (self, Reply::InvalidHex(e)),
                Ok(bytes) => {
                    let loaded = Machine { code: self.machine.code + bytes, ..self.machine };
                    (
                        Session { machine: loaded.step().0, log: self.remember(line@) },
                        Reply::Ticked(loaded.step().1),
                    )
                },
            },
        }
    }
}

/// The shell: an engine and the lines that were fed to it.
pub struct Repl {
    vm: Vm,
    log: Vec<String>,
}

impl View for Repl {
    type V = Session;

    closed spec fn view(&self) -> Session {
        Session { machine: self.vm@, log: Seq::new(self.log@.len(), |i: int| self.log@[i]@) }
    }
}

impl Repl {
    /// A shell with a new engine and an empty log.
    pub fn new() -> (repl: Repl)
        ensures
            repl@.machine == Machine::blank(),
            repl@.log == Seq::<Seq<char>>::empty(),
    {
        let repl = Repl { vm: Vm::new(), log: Vec::new() };
        assert(repl@.log =~= Seq::<Seq<char>>::empty());
        repl
    }

    /// The engine.
    pub fn vm(&self) -> (vm: &Vm)
        ensures
            vm@ == self@.machine,
    {
        &self.vm
    }

    /// The lines that were accepted so far.
    pub fn history(&self) -> (log: &Vec<String>)
        ensures
            log@.len() == self@.log.len(),
            forall|i: int| 0 <= i < log@.len() ==> (#[trigger] log@[i])@ == self@.log[i],
    {
        &self.log
    }

    /// Stores the input in the log unless it is there already.
    pub fn save_input(&mut self, input: String)
        ensures
            final(self)@.log == old(self)@.remember(input@),
            final(self)@.machine == old(self)@.machine,
    {
        let mut i: usize = 0;
        while i < self.log.len()
            invariant
                i <= self.log.len(),
                *self == *old(self),
                forall|j: int| 0 <= j < i ==> (#[trigger] self.log@[j])@ != input@,
            decreases self.log.len() - i,
        {
            if str_eq(self.log[i].as_str(), input.as_str()) {
                assert(self@.log[i as int] == input@);
                return ;
            }
            i += 1;
        }
        assert(!old(self)@.log.contains(input@));
        self.log.push(input);
        assert(self@.log =~= old(self)@.log.push(input@));
    }

    /// Takes one line of input, without the blanks around it.
    ///
    /// A command is handed back and changes nothing. Any other line must be
    /// bytes in hexadecimal: they are added to the code of the engine, the
    /// line is stored in the log and one instruction is executed.
    pub fn feed(&mut self, line: &str) -> (reply: Reply)
        ensures
            final(self)@ == old(self)@.feed(line).0,
            reply == old(self)@.feed(line).1,
    {
        match Cmd::from_str(line) {
            Some(cmd) => Reply::Command(cmd),
            None => match parse_hex(line) {
                Err(e) => Reply::InvalidHex(e),
                Ok(bytes) => {
                    self.save_input(String::from_str(line));
                    let mut i: usize = 0;
                    while i < bytes.len()
                        invariant
                            i <= bytes.len(),
                            self@.log == old(self)@.remember(line@),
                            self@.machine == (Machine {
                                code: old(self)@.machine.code + bytes@.take(i as int),
                                ..old(self)@.machine
                            }),
                        decreases bytes.len() - i,
                    {
                        self.vm.add_byte(bytes[i]);
                        assert(old(self)@.machine.code + bytes@.take(i + 1) =~= (old(
                            self,
                        )@.machine.code + bytes@.take(i as int)).push(bytes@[i as int]));
                        i += 1;
                    }
                    assert(bytes@.take(i as int) =~= bytes@);
                    Reply::Ticked(self.vm.tick())
                },
            },
        }
    }
}

} // verus!
