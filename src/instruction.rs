//! The instruction table: each mnemonic's opcode and operand layout.
use vstd::prelude::*;
use crate::utils::chars_of;

verus! {

use ArgumentType::{Hexadecimal, MemoryAddress, Register, SingleDigitHexadecimal, ZeroPadding};

/// How one operand slot is written and encoded.
#[derive(Debug, Clone, Copy, PartialEq, Eq, Structural)]
pub enum ArgumentType {
    /// `R` and a decimal number; one nibble, the number modulo 16.
    Register,
    /// `[0xHH]`; two nibbles.
    MemoryAddress,
    /// `0xHH`; two nibbles.
    Hexadecimal,
    /// `0xH`; one nibble.
    SingleDigitHexadecimal,
    /// Not written by the user; one zero nibble.
    ZeroPadding,
}

/// The operands an instruction takes.
pub struct Parameter {
    /// How many operands the user writes.
    pub argument_numbers: usize,
    /// The encoding slots, in output order.
    pub args: Vec<ArgumentType>,
}

pub struct Instruction {
    pub instruction_code: usize,
    pub parameter: Parameter,
}

/// An instruction as data: opcode, operand count and slot layout.
pub struct InstructionModel {
    pub code: nat,
    pub count: nat,
    pub schema: Seq<ArgumentType>,
}

impl View for Instruction {
    type V = InstructionModel;

    open spec fn view(&self) -> InstructionModel {
        InstructionModel {
            code: self.instruction_code as nat,
            count: self.parameter.argument_numbers as nat,
            schema: self.parameter.args@,
        }
    }
}

pub open spec fn entry(code: nat, count: nat, schema: Seq<ArgumentType>) -> Option<
    InstructionModel,
> {
    Some(InstructionModel { code, count, schema })
}

/// The table itself, keyed by the exact mnemonic.
pub open spec fn table(m: Seq<char>) -> Option<InstructionModel> {
    if m == "load"@ {
        entry(0x01, 2, seq![Register, MemoryAddress])
    } else if m == "loadi"@ {
        entry(0x02, 2, seq![Register, Hexadecimal])
    } else if m == "store"@ {
        entry(0x03, 2, seq![Register, MemoryAddress])
    } else if m == "move"@ {
        entry(0x04, 2, seq![ZeroPadding, Register, Register])
    } else if m == "add"@ {
        entry(0x05, 3, seq![Register, Register, Register])
    } else if m == "addf"@ {
        entry(0x06, 3, seq![Register, Register, Register])
    } else if m == "or"@ {
        entry(0x07, 3, seq![Register, Register, Register])
    } else if m == "and"@ {
        entry(0x08, 3, seq![Register, Register, Register])
    } else if m == "xor"@ {
        entry(0x09, 3, seq![Register, Register, Register])
    } else if m == "rotate"@ {
        entry(0x0A, 2, seq![Register, ZeroPadding, SingleDigitHexadecimal])
    } else if m == "jump"@ {
        entry(0x0B, 2, seq![Register, MemoryAddress])
    } else if m == "halt"@ {
        entry(0x0C, 0, seq![ZeroPadding, ZeroPadding, ZeroPadding])
    } else {
        None
    }
}

fn same_chars(a: &Vec<char>, w: &str) -> (r: bool)
    ensures
        r == (a@ == w@),
{
    let b = chars_of(w);
    if a.len() != b.len() {
        return false;
    }
    let mut i: usize = 0;
    while i < a.len()
        invariant
            a@.len() == b@.len(),
            b@ == w@,
            i <= a@.len(),
            forall|j: int| 0 <= j < i ==> a@[j] == b@[j],
        decreases a.len() - i,
    {
        if a[i] != b[i] {
            assert(a@[i as int] != w@[i as int]);
            return false;
        }
        i = i + 1;
    }
    assert(a@ =~= b@);
    true
}

fn make(code: usize, count: usize, args: Vec<ArgumentType>) -> (r: Instruction)
    ensures
        r@ == (InstructionModel { code: code as nat, count: count as nat, schema: args@ }),
{
    Instruction { instruction_code: code, parameter: Parameter { argument_numbers: count, args } }
}

/// Looks a mnemonic up in the table.
pub fn lookup_chars(m: &Vec<char>) -> (r: Option<Instruction>)
    ensures
        r is Some <==> table(m@) is Some,
        r is Some ==> r->0@ == table(m@)->0,
{
    if same_chars(m, "load") {
        Some(make(0x01, 2, vec![Register, MemoryAddress]))
    } else if same_chars(m, "loadi") {
        Some(make(0x02, 2, vec![Register, Hexadecimal]))
    } else if same_chars(m, "store") {
        Some(make(0x03, 2, vec![Register, MemoryAddress]))
    } else if same_chars(m, "move") {
        Some(make(0x04, 2, vec![ZeroPadding, Register, Register]))
    } else if same_chars(m, "add") {
        Some(make(0x05, 3, vec![Register, Register, Register]))
    } else if same_chars(m, "addf") {
        Some(make(0x06, 3, vec![Register, Register, Register]))
    } else if same_chars(m, "or") {
        Some(make(0x07, 3, vec![Register, Register, Register]))
    } else if same_chars(m, "and") {
        Some(make(0x08, 3, vec![Register, Register, Register]))
    } else if same_chars(m, "xor") {
        Some(make(0x09, 3, vec![Register, Register, Register]))
    } else if same_chars(m, "rotate") {
        Some(make(0x0A, 2, vec![Register, ZeroPadding, SingleDigitHexadecimal]))
    } else if same_chars(m, "jump") {
        Some(make(0x0B, 2, vec![Register, MemoryAddress]))
    } else if same_chars(m, "halt") {
        Some(make(0x0C, 0, vec![ZeroPadding, ZeroPadding, ZeroPadding]))
    } else {
        None
    }
}

/// Looks a mnemonic up in the table.
pub fn lookup(mnemonic: &str) -> (r: Option<Instruction>)
    ensures
        r is Some <==> table(mnemonic@) is Some,
        r is Some ==> r->0@ == table(mnemonic@)->0,
{
    let m = chars_of(mnemonic);
    lookup_chars(&m)
}

} // verus!
