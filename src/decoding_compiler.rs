use vstd::prelude::*;
use std::collections::HashMap;

use crate::block_finder::{
    discovered, ends_block, is_start, fetch, natural_end, reachable, scan, width, Block, BlockFinder, BlockFinderError, ScanEnd,
    MAX_IMAGE_LEN,
};
use crate::decoded::Decoded;
use crate::read_instruction::{read_instruction, Address};

verus! {

broadcast use vstd::std_specs::hash::group_hash_axioms;

/// A decoded instruction, with the address of the instruction that follows it.
#[derive(Clone, Copy, Debug, PartialEq, Eq, Structural)]
pub struct Instruction {
    /// The decoded instruction.
    pub decoded: Decoded,
    /// The value of the program counter after the instruction, unless it jumps.
    pub next_pc: Address,
}

/// The instructions of the block from `addr` up to `end`, or the address at
/// which an instruction could not be read.
pub open spec fn block_instructions(mem: Seq<u8>, dec: Seq<Decoded>, addr: int, end: Address) -> Result<Seq<Instruction>, Address>
    decreases end + 4 - addr,
{
    if addr >= end || addr < 0 {
        Ok(Seq::empty())
    } else {
        match fetch(mem, dec, addr as Address) {
            Err(a) => Err(a),
            Ok((ins, d)) => match block_instructions(mem, dec, addr + width(ins), end) {
                Err(a) => Err(a),
                Ok(rest) => Ok(seq![Instruction { decoded: d, next_pc: (addr + width(ins)) as Address }] + rest),
            },
        }
    }
}

/// Decodes the instructions of block `block`.
pub fn decode_block(mem: &[u8], decoded: &[Decoded], block: &Block) -> (r: Result<Vec<Instruction>, BlockFinderError>)
    requires
        block.end <= MAX_IMAGE_LEN + 4,
    ensures
        match block_instructions(mem@, decoded@, block.start as int, block.end) {
            Ok(is) => r matches Ok(v) && v@ == is,
            Err(a) => r == Err::<Vec<Instruction>, BlockFinderError>(BlockFinderError::MemoryReadFailed { addr: a }),
        },
{
    let end = block.end;
    let mut addr = block.start;
    let mut decoded_block: Vec<Instruction> = Vec::new();
    proof {
        match block_instructions(mem@, decoded@, addr as int, end) {
            Ok(t) => assert(Seq::<Instruction>::empty() + t =~= t),
            Err(_) => {},
        }
    }
    while addr < end
        invariant
            end == block.end,
            end <= MAX_IMAGE_LEN + 4,
            block_instructions(mem@, decoded@, block.start as int, end) == match block_instructions(mem@, decoded@, addr as int, end) {
                Ok(t) => Ok(decoded_block@ + t),
                Err(a) => Err::<Seq<Instruction>, Address>(a),
            },
            addr <= end + 4 || addr == block.start,
        decreases end + 4 - addr,
    {
        let ins = match read_instruction(mem, addr) {
            Ok(ins) => ins,
            Err(a) => return Err(BlockFinderError::MemoryReadFailed { addr: a }),
        };
        if addr as usize >= decoded.len() {
            return Err(BlockFinderError::MemoryReadFailed { addr });
        }
        let d = decoded[addr as usize];
        // Compressed instructions are two bytes long, the others four.
        let next: Address = if (ins & 3) != 3 { addr + 2 } else { addr + 4 };
        let ghost before = decoded_block@;
        decoded_block.push(Instruction { decoded: d, next_pc: next });
        proof {
            match block_instructions(mem@, decoded@, next as int, end) {
                Ok(t) => assert(before + (seq![Instruction { decoded: d, next_pc: next }] + t) =~= decoded_block@ + t),
                Err(_) => {},
            }
        }
        addr = next;
    }
    proof {
        assert(decoded_block@ + Seq::<Instruction>::empty() =~= decoded_block@);
    }
    Ok(decoded_block)
}

/// Holds the decoded instructions of each discovered block, by start address.
pub struct DecodingCompiler {
    block_map: HashMap<Address, Vec<Instruction>>,
}

impl DecodingCompiler {
    /// The decoded blocks, by start address.
    pub closed spec fn blocks(&self) -> Map<Address, Seq<Instruction>> {
        self.block_map@.map_values(|v: Vec<Instruction>| v@)
    }

    pub fn new() -> (c: Self)
        ensures
            c.blocks() == Map::<Address, Seq<Instruction>>::empty(),
    {
        let c = Self { block_map: HashMap::new() };
        proof {
            assert(c.blocks() =~= Map::<Address, Seq<Instruction>>::empty());
        }
        c
    }

    /// The decoded block that starts at `addr`, if there is one.
    pub fn get(&self, addr: Address) -> (r: Option<&Vec<Instruction>>)
        ensures
            match r {
                Some(v) => self.blocks().contains_key(addr) && self.blocks()[addr] == v@,
                None => !self.blocks().contains_key(addr),
            },
    {
        self.block_map.get(&addr)
    }

    /// Discovers the blocks of `image` from address zero and decodes each one,
    /// where `decoded[a]` is the decoded form of the instruction at `a`.
    pub fn compile(&mut self, image: &[u8], decoded: &[Decoded]) -> (r: Result<(), BlockFinderError>)
        requires
            image@.len() <= MAX_IMAGE_LEN,
        ensures
            r matches Err(BlockFinderError::MemoryReadFailed { addr }) ==> exists|s: Address|
                reachable(image@, decoded@, 0, s) && #[trigger] scan(image@, decoded@, s) == (ScanEnd::Failed { addr }),
            r is Err ==> final(self).blocks() == old(self).blocks(),
            r is Ok ==> exists|bs: Seq<Block>|
                {
                    &&& #[trigger] discovered(image@, decoded@, 0, bs)
                    &&& forall|i: int|
                        0 <= i < bs.len() ==> final(self).blocks().contains_key(#[trigger] bs[i].start)
                            && block_instructions(image@, decoded@, bs[i].start as int, bs[i].end) == Ok::<Seq<Instruction>, Address>(final(self).blocks()[bs[i].start])
                    &&& final(self).blocks().dom() =~= old(self).blocks().dom().union(Set::new(|k: Address| is_start(bs, k as int)))
                    &&& forall|k: Address|
                        old(self).blocks().contains_key(k) && !is_start(bs, k as int) ==> #[trigger] final(self).blocks()[k]
                            == old(self).blocks()[k]
                },
    {
        let mut block_finder = BlockFinder::with_mem(image, decoded);
        let blocks = match block_finder.find_blocks(0) {
            Ok(bs) => bs,
            Err(e) => return Err(e),
        };
        let ghost start_map = self.blocks();
        proof {
            lemma_blocks_decode(image@, decoded@, blocks@);
            reveal(found);
            assert(self.blocks().dom() =~= start_map.dom().union(Set::new(|k: Address| is_start(blocks@.take(0), k as int))));
        }
        proof {
            crate::block_finder::lemma_discovered_invariants(image@, decoded@, 0, blocks@);
        }
        let mut i: usize = 0;
        while i < blocks.len()
            invariant
                i <= blocks@.len(),
                found(image@, decoded@, blocks@),
                forall|j: int|
                    0 <= j < blocks@.len() ==> #[trigger] blocks@[j].end <= MAX_IMAGE_LEN + 4
                        && block_instructions(image@, decoded@, blocks@[j].start as int, blocks@[j].end) is Ok,
                crate::block_finder::starts_distinct(blocks@),
                image@.len() <= MAX_IMAGE_LEN,
                forall|j: int|
                    0 <= j < i ==> self.blocks().contains_key(#[trigger] blocks@[j].start)
                        && block_instructions(image@, decoded@, blocks@[j].start as int, blocks@[j].end) == Ok::<Seq<Instruction>, Address>(self.blocks()[blocks@[j].start]),
                start_map == old(self).blocks(),
                self.blocks().dom() == start_map.dom().union(Set::new(|k: Address| is_start(blocks@.take(i as int), k as int))),
                forall|k: Address|
                    start_map.contains_key(k) && !is_start(blocks@.take(i as int), k as int) ==> #[trigger] self.blocks()[k]
                        == start_map[k],
            decreases blocks@.len() - i,
        {
            let block = blocks[i];
            let instructions = match decode_block(image, decoded, &block) {
                Ok(v) => v,
                Err(e) => return Err(e),
            };
            let ghost is = instructions@;
            let ghost before = self.blocks();
            self.block_map.insert(block.start, instructions);
            proof {
                assert(self.blocks() =~= before.insert(block.start, is));
                assert(blocks@.take(i as int + 1) =~= blocks@.take(i as int).push(block));
                lemma_insert_block(start_map, before, self.blocks(), blocks@.take(i as int), block, is);
                assert(self.blocks().contains_key(block.start));
                assert(self.blocks()[block.start] == is);
                assert forall|j: int|
                    0 <= j < i + 1 implies self.blocks().contains_key(#[trigger] blocks@[j].start)
                        && block_instructions(image@, decoded@, blocks@[j].start as int, blocks@[j].end) == Ok::<Seq<Instruction>, Address>(self.blocks()[blocks@[j].start]) by {
                    if j < i {
                        assert(blocks@[j].start != blocks@[i as int].start);
                    }
                }
            }
            i = i + 1;
        }
        proof {
            assert(blocks@.take(blocks@.len() as int) =~= blocks@);
            reveal(found);
        }
        Ok(())
    }
}

/// A discovered block ends no later than its scan does, which stays within
/// four bytes of the image.
proof fn lemma_end_bound(mem: Seq<u8>, dec: Seq<Decoded>, bs: Seq<Block>, i: int)
    requires
        mem.len() <= MAX_IMAGE_LEN,
        0 <= i < bs.len(),
        discovered(mem, dec, 0, bs),
    ensures
        bs[i].end <= MAX_IMAGE_LEN + 4,
{
    assert(crate::block_finder::ends_right(mem, dec, bs, bs[i]));
    assert(crate::block_finder::successors_started(mem, dec, bs, bs[i]));
    crate::block_finder::lemma_scan_end_bound(mem, dec, bs[i].start);
}

/// The instructions from `addr` up to `end` can be read where the scan from
/// `addr` does not fail and ends no earlier than `end`.
proof fn lemma_block_readable(mem: Seq<u8>, dec: Seq<Decoded>, addr: Address, end: Address)
    requires
        !(scan(mem, dec, addr) is Failed),
        end <= natural_end(scan(mem, dec, addr)),
    ensures
        block_instructions(mem, dec, addr as int, end) is Ok,
    decreases end + 4 - addr,
{
    if addr < end && addr < mem.len() {
        match fetch(mem, dec, addr) {
            Err(_) => {},
            Ok((ins, d)) => {
                let next = addr + width(ins);
                if !ends_block(d) && next <= u32::MAX && next < end {
                    lemma_block_readable(mem, dec, next as Address, end);
                }
            },
        }
    }
}

/// Recording the instructions of one more block keeps the map's keys the old
/// keys and the starts recorded so far, and every other old entry as it was.
proof fn lemma_insert_block(
    start_map: Map<Address, Seq<Instruction>>,
    before: Map<Address, Seq<Instruction>>,
    after: Map<Address, Seq<Instruction>>,
    pre: Seq<Block>,
    b: Block,
    v: Seq<Instruction>,
)
    requires
        after == before.insert(b.start, v),
        before.dom() == start_map.dom().union(Set::new(|k: Address| is_start(pre, k as int))),
        forall|k: Address| start_map.contains_key(k) && !is_start(pre, k as int) ==> #[trigger] before[k] == start_map[k],
    ensures
        after.dom() == start_map.dom().union(Set::new(|k: Address| is_start(pre.push(b), k as int))),
        forall|k: Address| start_map.contains_key(k) && !is_start(pre.push(b), k as int) ==> #[trigger] after[k] == start_map[k],
{
    let post = pre.push(b);
    assert forall|k: Address| is_start(post, k as int) <==> is_start(pre, k as int) || k == b.start by {
        if is_start(post, k as int) {
            let j = choose|j: int| 0 <= j < post.len() && #[trigger] post[j].start == k as int;
            if j < pre.len() {
                assert(pre[j] == post[j]);
            }
        }
        if is_start(pre, k as int) {
            let j = choose|j: int| 0 <= j < pre.len() && #[trigger] pre[j].start == k as int;
            assert(post[j] == pre[j]);
        }
        if k == b.start {
            assert(post[pre.len() as int].start == k);
        }
    }
    assert(after.dom() =~= start_map.dom().union(Set::new(|k: Address| is_start(post, k as int))));
}

/// What discovery from address zero returns, held back from the solver while
/// the blocks are decoded.
#[verifier::opaque]
spec fn found(mem: Seq<u8>, dec: Seq<Decoded>, bs: Seq<Block>) -> bool {
    discovered(mem, dec, 0, bs)
}

/// Every discovered block ends within four bytes past the image, and its
/// instructions can be read.
proof fn lemma_blocks_decode(mem: Seq<u8>, dec: Seq<Decoded>, bs: Seq<Block>)
    requires
        mem.len() <= MAX_IMAGE_LEN,
        discovered(mem, dec, 0, bs),
    ensures
        forall|j: int|
            0 <= j < bs.len() ==> #[trigger] bs[j].end <= MAX_IMAGE_LEN + 4
                && block_instructions(mem, dec, bs[j].start as int, bs[j].end) is Ok,
{
    assert forall|j: int| 0 <= j < bs.len() implies #[trigger] bs[j].end <= MAX_IMAGE_LEN + 4
        && block_instructions(mem, dec, bs[j].start as int, bs[j].end) is Ok by {
        lemma_end_bound(mem, dec, bs, j);
        assert(crate::block_finder::ends_right(mem, dec, bs, bs[j]));
        assert(crate::block_finder::successors_started(mem, dec, bs, bs[j]));
        lemma_block_readable(mem, dec, bs[j].start, bs[j].end);
    }
}

} // verus!
