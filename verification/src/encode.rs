//! The bit encoder: packs resolved commands into 16-bit words and
//! renders a word as its 16-character binary text.

use vstd::prelude::*;
use vstd::arithmetic::power2::{lemma2_to64, pow2};
use crate::ir::{Comp, Dest, Jump, comp_code, dest_code, jump_code};
use crate::text::chars_to_string;

verus! {

/// A resolved instruction, every symbol already replaced by its value:
/// an address command or a compute command.
#[derive(Debug, Clone, Copy, PartialEq, Eq, Structural)]
pub enum Command {
    A(u16),
    C { comp: Comp, dest: Dest, jump: Jump },
}

/// The word encoding a command.  An address command is its value, so
/// bit 15 is clear whenever the value is below 32768.  A compute
/// command holds 111 in bits 15-13, the computation code in bits 12-6,
/// the destination code in bits 5-3 and the jump code in bits 2-0;
/// multiplying by 8192, 64 and 8 places each field at its bit position.
pub open spec fn encode_spec(cmd: Command) -> u16 {
    match cmd {
        Command::A(v) => v,
        Command::C { comp, dest, jump } => ((0b111 * 0x2000 + comp_code(comp) * 0x40 + dest_code(
            dest,
        ) * 8 + jump_code(jump)) as u16),
    }
}

/// A 16-bit machine word.
#[derive(Debug, Clone, Copy, PartialEq, Eq, Structural)]
pub struct Instruction(pub u16);

impl Instruction {
    /// Encodes a resolved command as a machine word.
    pub fn from_command(cmd: &Command) -> (r: Instruction)
        ensures
            r.0 == encode_spec(*cmd),
    {
        match cmd {
            Command::A(v) => Instruction(*v),
            Command::C { comp, dest, jump } => {
                let c = comp.code();
                let d = dest.code();
                let j = jump.code();
                assert(c <= 127 && d <= 7 && j <= 7);
                let word: u16 = 0b111 * 0x2000 + c * 0x40 + d * 8 + j;
                Instruction(word)
            },
        }
    }

    /// The binary text of this word: exactly 16 characters, each `0` or
    /// `1`, most significant bit first.
    pub fn to_binary_string(&self) -> (r: String)
        ensures
            r@ == bits16(self.0),
            r@.len() == 16,
    {
        let mut out: Vec<char> = Vec::new();
        let mut i: usize = 0;
        while i < 16
            invariant
                i <= 16,
                out@.len() == i,
                forall|k: int| 0 <= k < i ==> out@[k] == bit_char(self.0, 15 - k),
            decreases 16 - i,
        {
            let p = pow2_u16(15 - i);
            let b = (self.0 / p) % 2;
            if b == 1 {
                out.push('1');
            } else {
                out.push('0');
            }
            i += 1;
        }
        proof {
            assert(out@ =~= bits16(self.0));
        }
        chars_to_string(&out)
    }
}

/// The binary digit of a word at bit position `k`.
pub open spec fn bit_char(w: u16, k: int) -> char {
    if (w as int / pow2(k as nat) as int) % 2 == 1 {
        '1'
    } else {
        '0'
    }
}

/// The 16-character binary text of a word, most significant bit first.
pub open spec fn bits16(w: u16) -> Seq<char> {
    Seq::new(16, |i: int| bit_char(w, 15 - i))
}

/// The power of two at bit position `k` of a 16-bit word.
fn pow2_u16(k: usize) -> (r: u16)
    requires
        k < 16,
    ensures
        r as nat == pow2(k as nat),
        r >= 1,
{
    proof {
        lemma2_to64();
    }
    match k {
        0 => 1,
        1 => 2,
        2 => 4,
        3 => 8,
        4 => 16,
        5 => 32,
        6 => 64,
        7 => 128,
        8 => 256,
        9 => 512,
        10 => 1024,
        11 => 2048,
        12 => 4096,
        13 => 8192,
        14 => 16384,
        _ => 32768,
    }
}

} // verus!
