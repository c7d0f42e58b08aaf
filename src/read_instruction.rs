use vstd::prelude::*;

verus! {

/// A byte address in the program image.
pub type Address = u32;

/// The little-endian value of the `n` bytes of `mem` starting at `index`.
pub open spec fn le_value(mem: Seq<u8>, index: int, n: nat) -> nat
    decreases n,
{
    if n == 0 {
        0
    } else {
        mem[index] as nat + 256 * le_value(mem, index + 1, (n - 1) as nat)
    }
}

/// What reading an instruction at `addr` gives: a full word where four bytes
/// remain, a zero-extended half-word where only two or three remain, and a
/// failure carrying the address otherwise.
pub open spec fn instruction_read(mem: Seq<u8>, addr: Address) -> Result<u32, Address> {
    if addr as int + 4 <= mem.len() {
        Ok(le_value(mem, addr as int, 4) as u32)
    } else if addr as int + 2 <= mem.len() {
        Ok(le_value(mem, addr as int, 2) as u32)
    } else {
        Err(addr)
    }
}

/// Reads the instruction at `addr`; a 16-bit instruction in the last two or
/// three bytes of the image is read as a zero-extended half-word.
pub fn read_instruction(slice: &[u8], addr: Address) -> (r: Result<u32, Address>)
    ensures
        r == instruction_read(slice@, addr),
{
    let index = addr as usize;
    if index < slice.len() && slice.len() - index >= 4 {
        let b0 = slice[index] as u32;
        let b1 = slice[index + 1] as u32;
        let b2 = slice[index + 2] as u32;
        let b3 = slice[index + 3] as u32;
        proof {
            reveal_with_fuel(le_value, 5);
        }
        Ok(b0 + 256 * b1 + 65536 * b2 + 16777216 * b3)
    } else if index < slice.len() && slice.len() - index >= 2 {
        let b0 = slice[index] as u32;
        let b1 = slice[index + 1] as u32;
        proof {
            reveal_with_fuel(le_value, 3);
        }
        Ok(b0 + 256 * b1)
    } else {
        Err(addr)
    }
}

} // verus!
