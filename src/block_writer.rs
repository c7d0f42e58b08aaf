use vstd::prelude::*;
use vstd::wrapping::u32_specs;

use crate::block_finder::{fetch, width, Block};
use crate::decoded::Decoded;
use crate::emit::{emit_instruction, instruction_code, sets_next_pc};
use crate::hex::{hex4, hex8, push_hex4, push_hex8};
use crate::read_instruction::{read_instruction, Address};

verus! {

#[derive(Clone, Copy, Debug, PartialEq, Eq, Structural)]
pub enum BlockWriterError {
    ReadFailed { addr: Address },
}

/// The source text that opens the generated module: the runtime's imports and
/// the alias for the CPU state type.
pub open spec fn preamble() -> Seq<char> {
    "#![no_std]\nuse arviss::HandleRv32i;\nuse arviss::platforms::basic::*;\nuse arviss::decoding::Reg;\ntype Cpu = Rv32iCpu::<BasicMem>;\n"@
}

/// The exported name of the function generated for `b`.
pub open spec fn block_symbol(b: Block) -> Seq<char> {
    "block_"@ + hex8(b.start) + "_"@ + hex8(b.end)
}

/// The line that opens the function generated for `b`.
pub open spec fn block_header(b: Block) -> Seq<char> {
    "\n#[no_mangle]\npub extern \"C\" fn "@ + block_symbol(b) + "(cpu: &mut Cpu) {\n"@
}

/// The comment that records an instruction's address and encoding.
pub open spec fn instruction_comment(addr: Address, ins: u32) -> Seq<char> {
    if ins & 3 == 3 {
        "    // "@ + hex8(addr) + " "@ + hex8(ins) + "\n"@
    } else {
        "    // "@ + hex8(addr) + "     "@ + hex4(ins & 0xffff) + "\n"@
    }
}

/// The text for the instruction `d`, encoded as `ins`, at `addr` in a block
/// that ends at `end`: its comment and code, and, where it is the block's last
/// instruction and does not set the next program counter itself, a statement
/// that sets it to `end`.
pub open spec fn instruction_text(addr: Address, ins: u32, d: Decoded, end: Address) -> Seq<char> {
    let next = addr + width(ins);
    instruction_comment(addr, ins) + instruction_code(d, addr, u32_specs::wrapping_add(addr, width(ins))) + if next >= end
        && !sets_next_pc(d) {
        "    cpu.set_next_pc(0x"@ + hex8(end) + ");\n"@
    } else {
        Seq::empty()
    }
}

/// The text for the instructions from `addr` up to `end`, or the address at
/// which an instruction could not be read.
pub open spec fn block_lines(mem: Seq<u8>, dec: Seq<Decoded>, addr: int, end: Address) -> Result<Seq<char>, Address>
    decreases end + 4 - addr,
{
    if addr >= end || addr < 0 {
        Ok(Seq::empty())
    } else {
        match fetch(mem, dec, addr as Address) {
            Err(a) => Err(a),
            Ok((ins, d)) => match block_lines(mem, dec, addr + width(ins), end) {
                Err(a) => Err(a),
                Ok(rest) => Ok(instruction_text(addr as Address, ins, d, end) + rest),
            },
        }
    }
}

/// `acc` followed by the text of `r`, or the failure of `r`.
pub open spec fn after(acc: Seq<char>, r: Result<Seq<char>, Address>) -> Result<Seq<char>, Address> {
    match r {
        Ok(t) => Ok(acc + t),
        Err(a) => Err(a),
    }
}

/// The function generated for block `b`, or the address at which an
/// instruction could not be read.
pub open spec fn block_text(mem: Seq<u8>, dec: Seq<Decoded>, b: Block) -> Result<Seq<char>, Address> {
    match block_lines(mem, dec, b.start as int, b.end) {
        Ok(t) => Ok(block_header(b) + t + "}\n"@),
        Err(a) => Err(a),
    }
}

/// The functions generated for the blocks `bs` in order, or the address at
/// which the first failure to read an instruction happened.
pub open spec fn blocks_text(mem: Seq<u8>, dec: Seq<Decoded>, bs: Seq<Block>) -> Result<Seq<char>, Address>
    decreases bs.len(),
{
    if bs.len() == 0 {
        Ok(Seq::empty())
    } else {
        match blocks_text(mem, dec, bs.drop_last()) {
            Err(a) => Err(a),
            Ok(t) => match block_text(mem, dec, bs.last()) {
                Err(a) => Err(a),
                Ok(u) => Ok(t + u),
            },
        }
    }
}

/// Writes the source of a native function for each basic block of an image.
pub struct BlockWriter<'a> {
    mem: &'a [u8],
    decoded: &'a [Decoded],
}

impl<'a> BlockWriter<'a> {
    /// The image's bytes.
    pub closed spec fn image(&self) -> Seq<u8> {
        self.mem@
    }

    /// The decoded instruction at each address of the image.
    pub closed spec fn decodings(&self) -> Seq<Decoded> {
        self.decoded@
    }

    /// A writer over the image `mem`, where `decoded[a]` is the decoded form of
    /// the instruction at address `a`.
    pub fn new(mem: &'a [u8], decoded: &'a [Decoded]) -> (w: Self)
        ensures
            w.image() == mem@,
            w.decodings() == decoded@,
    {
        Self { mem, decoded }
    }

    /// The text that opens the generated module.
    pub fn begin(&self) -> (s: String)
        ensures
            s@ == preamble(),
    {
        String::from_str(
            "#![no_std]\nuse arviss::HandleRv32i;\nuse arviss::platforms::basic::*;\nuse arviss::decoding::Reg;\ntype Cpu = Rv32iCpu::<BasicMem>;\n",
        )
    }

    fn instruction_at(&self, addr: Address) -> (r: Result<(u32, Decoded), BlockWriterError>)
        ensures
            match fetch(self.mem@, self.decoded@, addr) {
                Ok(x) => r == Ok::<(u32, Decoded), BlockWriterError>(x),
                Err(a) => r == Err::<(u32, Decoded), BlockWriterError>(BlockWriterError::ReadFailed { addr: a }),
            },
    {
        match read_instruction(self.mem, addr) {
            Ok(ins) => if (addr as usize) < self.decoded.len() {
                Ok((ins, self.decoded[addr as usize]))
            } else {
                Err(BlockWriterError::ReadFailed { addr })
            },
            Err(a) => Err(BlockWriterError::ReadFailed { addr: a }),
        }
    }

    /// The function generated for `block`.
    pub fn write_block(&self, block: &Block) -> (r: Result<String, BlockWriterError>)
        ensures
            match block_text(self.image(), self.decodings(), *block) {
                Ok(t) => r matches Ok(s) && s@ == t,
                Err(a) => r == Err::<String, BlockWriterError>(BlockWriterError::ReadFailed { addr: a }),
            },
    {
        let ghost mem = self.mem@;
        let ghost dec = self.decoded@;
        let end = block.end;
        let mut out = String::from_str("\n#[no_mangle]\npub extern \"C\" fn ");
        out.append("block_");
        push_hex8(&mut out, block.start);
        out.append("_");
        push_hex8(&mut out, end);
        out.append("(cpu: &mut Cpu) {\n");
        let ghost header = out@;
        assert(header =~= block_header(*block));
        let ghost mut acc: Seq<char> = Seq::empty();
        let mut addr: u64 = block.start as u64;
        assert(after(Seq::empty(), block_lines(mem, dec, addr as int, end)) == block_lines(mem, dec, addr as int, end)) by {
            match block_lines(mem, dec, addr as int, end) {
                Ok(t) => assert(Seq::<char>::empty() + t =~= t),
                Err(_) => {},
            }
        }
        while addr < end as u64
            invariant
                out@ == header + acc,
                block_lines(mem, dec, block.start as int, end) == after(acc, block_lines(mem, dec, addr as int, end)),
                addr <= end as int + 4 || addr == block.start as int,
                mem == self.mem@,
                dec == self.decoded@,
                header == block_header(*block),
                end == block.end,
            decreases end as int + 4 - addr,
        {
            let (ins, d) = match self.instruction_at(addr as Address) {
                Ok(x) => x,
                Err(e) => return Err(e),
            };
            let w: u32 = if (ins & 3) == 3 { 4 } else { 2 };
            let pc = addr as Address;
            let next = addr + w as u64;
            let ghost piece = instruction_text(pc, ins, d, end);
            if (ins & 3) == 3 {
                out.append("    // ");
                push_hex8(&mut out, pc);
                out.append(" ");
                push_hex8(&mut out, ins);
                out.append("\n");
            } else {
                out.append("    // ");
                push_hex8(&mut out, pc);
                out.append("     ");
                push_hex4(&mut out, ins & 0xffff);
                out.append("\n");
            }
            let code = emit_instruction(&d, pc, pc.wrapping_add(w));
            out.append(code.as_str());
            let jumps = match d {
                Decoded::Branch(_) | Decoded::Jal(_) | Decoded::Jalr(_) => true,
                _ => false,
            };
            if next >= end as u64 && !jumps {
                out.append("    cpu.set_next_pc(0x");
                push_hex8(&mut out, end);
                out.append(");\n");
            }
            proof {
                assert(out@ =~= header + (acc + piece));
                match block_lines(mem, dec, next as int, end) {
                    Ok(t) => assert(acc + piece + t =~= acc + (piece + t)),
                    Err(_) => {},
                }
                acc = acc + piece;
            }
            addr = next;
        }
        proof {
            assert(out@ == header + acc);
            assert(block_lines(mem, dec, addr as int, end) == Ok::<Seq<char>, Address>(Seq::empty()));
            assert(acc + Seq::<char>::empty() =~= acc);
        }
        out.append("}\n");
        Ok(out)
    }

    /// The generated module: the opening text, then the function for each
    /// block in turn.
    pub fn write_blocks(&self, blocks: &Vec<Block>) -> (r: Result<String, BlockWriterError>)
        ensures
            match blocks_text(self.image(), self.decodings(), blocks@) {
                Ok(t) => r matches Ok(s) && s@ == preamble() + t,
                Err(a) => r == Err::<String, BlockWriterError>(BlockWriterError::ReadFailed { addr: a }),
            },
    {
        let ghost mem = self.mem@;
        let ghost dec = self.decoded@;
        let mut out = self.begin();
        let ghost mut acc: Seq<char> = Seq::empty();
        let mut i: usize = 0;
        proof {
            assert(blocks@.take(0) =~= Seq::<Block>::empty());
            assert(out@ =~= preamble() + acc);
        }
        while i < blocks.len()
            invariant
                i <= blocks@.len(),
                blocks_text(mem, dec, blocks@.take(i as int)) == Ok::<Seq<char>, Address>(acc),
                out@ == preamble() + acc,
                mem == self.mem@,
                dec == self.decoded@,
            decreases blocks@.len() - i,
        {
            let ghost prefix = blocks@.take(i as int + 1);
            assert(prefix.drop_last() =~= blocks@.take(i as int));
            assert(prefix.last() == blocks@[i as int]);
            let text = match self.write_block(&blocks[i]) {
                Ok(t) => t,
                Err(e) => {
                    proof {
                        lemma_blocks_text_fails(mem, dec, blocks@, i as int);
                    }
                    return Err(e);
                },
            };
            out.append(text.as_str());
            proof {
                assert(out@ =~= preamble() + (acc + text@));
                acc = acc + text@;
            }
            i = i + 1;
        }
        proof {
            assert(blocks@.take(blocks@.len() as int) =~= blocks@);
        }
        Ok(out)
    }
}

/// The text of a block's last instruction, when that instruction does not set
/// the next program counter itself, is the instruction's own code followed by
/// one statement that commits the block's end as the next program counter;
/// the text of any earlier instruction adds nothing to its code.
pub proof fn lemma_straight_line_commit(addr: Address, ins: u32, d: Decoded, end: Address)
    ensures
        addr + width(ins) >= end && !sets_next_pc(d) ==> instruction_text(addr, ins, d, end) == instruction_comment(addr, ins)
            + instruction_code(d, addr, u32_specs::wrapping_add(addr, width(ins))) + ("    cpu.set_next_pc(0x"@ + hex8(end) + ");\n"@),
        addr + width(ins) < end ==> instruction_text(addr, ins, d, end) =~= instruction_comment(addr, ins) + instruction_code(
            d,
            addr,
            u32_specs::wrapping_add(addr, width(ins)),
        ),
{
}

/// A failure in block `i` fails the text of every longer prefix, with the
/// same address, once the blocks before it succeed.
proof fn lemma_blocks_text_fails(mem: Seq<u8>, dec: Seq<Decoded>, bs: Seq<Block>, i: int)
    requires
        0 <= i < bs.len(),
        blocks_text(mem, dec, bs.take(i)) is Ok,
        block_text(mem, dec, bs[i]) is Err,
    ensures
        blocks_text(mem, dec, bs) == Err::<Seq<char>, Address>(block_text(mem, dec, bs[i])->Err_0),
    decreases bs.len() - i,
{
    let n = bs.len() as int;
    if i == n - 1 {
        assert(bs.drop_last() =~= bs.take(i));
    } else {
        assert(bs.drop_last().take(i) =~= bs.take(i));
        assert(bs.drop_last()[i] == bs[i]);
        lemma_blocks_text_fails(mem, dec, bs.drop_last(), i);
    }
}

} // verus!
