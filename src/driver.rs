use vstd::prelude::*;

use crate::hex::{hex8, push_hex8};
use crate::read_instruction::Address;

verus! {

/// What the hybrid driver does next.
#[derive(Clone, Copy, Debug, PartialEq, Eq, Structural)]
pub enum Action {
    /// The CPU has trapped: execution is over.
    Stop,
    /// Call the native function of the block that starts at the current
    /// address, then commit the next program counter.
    RunBlock,
    /// Interpret one instruction, then look again at the program counter.
    Interpret,
}

/// The driver's decision at the current address: stop once the CPU has
/// trapped, run the native block where one starts there, and interpret
/// otherwise until the program counter reaches a known block.
pub fn next_action(trapped: bool, block_known: bool) -> (a: Action)
    ensures
        trapped ==> a == Action::Stop,
        !trapped && block_known ==> a == Action::RunBlock,
        !trapped && !block_known ==> a == Action::Interpret,
{
    if trapped {
        Action::Stop
    } else if block_known {
        Action::RunBlock
    } else {
        Action::Interpret
    }
}

/// The message reported when execution ends on a trap: a breakpoint is a
/// normal end; any other cause is named, with the program counter.
pub open spec fn report_text(is_breakpoint: bool, cause: Seq<char>, pc: Address) -> Seq<char> {
    if is_breakpoint {
        "Simulation terminated successfully"@
    } else {
        cause + " at 0x"@ + hex8(pc)
    }
}

/// The message reported when execution ends on a trap with cause `cause`.
pub fn termination_report(is_breakpoint: bool, cause: &str, pc: Address) -> (s: String)
    ensures
        s@ == report_text(is_breakpoint, cause@, pc),
{
    if is_breakpoint {
        String::from_str("Simulation terminated successfully")
    } else {
        let mut s = String::from_str(cause);
        s.append(" at 0x");
        push_hex8(&mut s, pc);
        s
    }
}

/// The length of the code in an image of `image_len` bytes whose last four
/// bytes are a sentinel; none where the image is shorter than the sentinel.
pub fn text_size(image_len: usize) -> (r: Option<usize>)
    ensures
        image_len >= 4 ==> r == Some((image_len - 4) as usize),
        image_len < 4 ==> r is None,
{
    if image_len >= 4 {
        Some(image_len - 4)
    } else {
        None
    }
}

} // verus!
