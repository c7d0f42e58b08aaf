use vstd::prelude::*;
use vstd::set_lib::{lemma_int_range, lemma_len_subset, set_int_range};
use vstd::wrapping::u32_specs;

use crate::decoded::Decoded;
use crate::hex::{hex8, push_hex8};
use crate::read_instruction::{instruction_read, read_instruction, Address};

verus! {

/// A basic block: the half-open address range `[start, end)`.
#[derive(Clone, Copy, Debug, PartialEq, Eq, Structural, PartialOrd, Ord)]
pub struct Block {
    /// Address of the first instruction in the block.
    pub start: Address,
    /// Address that follows the last instruction in the block.
    pub end: Address,
}

/// The `end` of a block that has been started but not yet scanned. No scanned
/// block ends here, since every scanned block ends after its start.
pub const OPEN_BLOCK_SENTINEL: Address = 0;

/// The largest image the finder accepts: every address in it, and the address
/// after its last instruction, fit in an `Address`.
pub const MAX_IMAGE_LEN: usize = 0xffff_fff0;

impl Block {
    fn new(start: Address) -> (b: Block)
        ensures
            b == (Block { start, end: OPEN_BLOCK_SENTINEL }),
    {
        Block { start, end: OPEN_BLOCK_SENTINEL }
    }
}

#[derive(Clone, Copy, Debug, PartialEq, Eq, Structural)]
pub enum BlockFinderError {
    MemoryReadFailed { addr: Address },
}

impl BlockFinderError {
    /// The error's message.
    pub fn message(&self) -> (s: String)
        ensures
            s@ == "memory read failed at 0x"@ + hex8(self->addr),
    {
        let BlockFinderError::MemoryReadFailed { addr } = *self;
        let mut s = String::from_str("memory read failed at 0x");
        push_hex8(&mut s, addr);
        s
    }
}

// ---------------------------------------------------------------------------
// The model: what an instruction does to control flow, how a scan from an
// address ends, and which addresses are reachable from the entry.
// ---------------------------------------------------------------------------

/// The width in bytes of the instruction whose encoding (or first half-word)
/// is `ins`: four when its two low bits are set, else two.
pub open spec fn width(ins: u32) -> u32 {
    if ins & 3 == 3 {
        4
    } else {
        2
    }
}

/// The encoding and the decoded form of the instruction at `addr`, or the
/// address at which reading failed.
pub open spec fn fetch(mem: Seq<u8>, dec: Seq<Decoded>, addr: Address) -> Result<(u32, Decoded), Address> {
    match instruction_read(mem, addr) {
        Ok(ins) => if (addr as int) < dec.len() {
            Ok((ins, dec[addr as int]))
        } else {
            Err(addr)
        },
        Err(a) => Err(a),
    }
}

/// Whether the instruction ends a basic block: a branch, a jump, or a trap.
pub open spec fn ends_block(d: Decoded) -> bool {
    match d {
        Decoded::Branch(_) | Decoded::Jal(_) | Decoded::Jalr(_) | Decoded::Ecall | Decoded::Ebreak => true,
        _ => false,
    }
}

/// The addresses at which new blocks start after the instruction `d`, encoded
/// as `ins`, at `addr`: the fall-through and the target of a branch; the target
/// of a direct jump; the fall-through of an indirect jump or a trap.
pub open spec fn successors(addr: Address, ins: u32, d: Decoded) -> Seq<Address> {
    let fall = (addr + width(ins)) as Address;
    match d {
        Decoded::Branch(op) => seq![fall, u32_specs::wrapping_add(addr, op.bimm)],
        Decoded::Jal(op) => seq![u32_specs::wrapping_add(addr, op.jimm)],
        Decoded::Jalr(_) | Decoded::Ecall | Decoded::Ebreak => seq![fall],
        _ => seq![],
    }
}

/// How a scan that walks instructions from an address ends.
pub enum ScanEnd {
    /// At the block-ending instruction `decoded`, encoded as `ins`, at `addr`.
    Control { addr: Address, ins: u32, decoded: Decoded },
    /// At `at`, the first instruction boundary at or past the image's end.
    OffImage { at: int },
    /// Reading the instruction at `addr` failed.
    Failed { addr: Address },
}

/// Walks the instructions from `addr` up to the first one that ends a block.
pub open spec fn scan(mem: Seq<u8>, dec: Seq<Decoded>, addr: Address) -> ScanEnd
    decreases mem.len() + 4 - addr,
{
    if addr >= mem.len() {
        ScanEnd::OffImage { at: addr as int }
    } else {
        match fetch(mem, dec, addr) {
            Err(a) => ScanEnd::Failed { addr: a },
            Ok((ins, d)) => if ends_block(d) {
                ScanEnd::Control { addr, ins, decoded: d }
            } else if addr + width(ins) > u32::MAX {
                ScanEnd::OffImage { at: addr + width(ins) }
            } else {
                scan(mem, dec, (addr + width(ins)) as Address)
            },
        }
    }
}

/// Where a block would end if no other block started inside it: after the
/// instruction that ends the scan, or where the scan left the image.
pub open spec fn natural_end(e: ScanEnd) -> int {
    match e {
        ScanEnd::Control { addr, ins, .. } => addr + width(ins),
        ScanEnd::OffImage { at } => at,
        ScanEnd::Failed { addr } => addr as int,
    }
}

/// One step of static control flow, from the instruction at `a` to `b`.
pub open spec fn step(mem: Seq<u8>, dec: Seq<Decoded>, a: Address, b: Address) -> bool {
    &&& (a as int) < mem.len()
    &&& match fetch(mem, dec, a) {
        Ok((ins, d)) => if ends_block(d) {
            successors(a, ins, d).contains(b)
        } else {
            b == a + width(ins)
        },
        Err(_) => false,
    }
}

/// Whether `p` is a static control-flow path: each address steps to the next.
pub open spec fn is_path(mem: Seq<u8>, dec: Seq<Decoded>, p: Seq<Address>) -> bool {
    &&& p.len() > 0
    &&& forall|i: int| 0 <= i < p.len() - 1 ==> step(mem, dec, #[trigger] p[i], p[i + 1])
}

/// Whether a static control-flow path leads from `entry` to `b`.
pub open spec fn reachable(mem: Seq<u8>, dec: Seq<Decoded>, entry: Address, b: Address) -> bool {
    exists|p: Seq<Address>| #[trigger] is_path(mem, dec, p) && p[0] == entry && p.last() == b
}

proof fn lemma_reachable_step(mem: Seq<u8>, dec: Seq<Decoded>, entry: Address, a: Address, b: Address)
    requires
        reachable(mem, dec, entry, a),
        step(mem, dec, a, b),
    ensures
        reachable(mem, dec, entry, b),
{
    let p = choose|p: Seq<Address>| #[trigger] is_path(mem, dec, p) && p[0] == entry && p.last() == a;
    let q = p.push(b);
    assert forall|i: int| 0 <= i < q.len() - 1 implies step(mem, dec, #[trigger] q[i], q[i + 1]) by {
        if i < p.len() - 1 {
            assert(q[i] == p[i] && q[i + 1] == p[i + 1]);
        }
    }
    assert(is_path(mem, dec, q));
}

proof fn lemma_reachable_entry(mem: Seq<u8>, dec: Seq<Decoded>, entry: Address)
    ensures
        reachable(mem, dec, entry, entry),
{
    let p = seq![entry];
    assert(is_path(mem, dec, p));
}

// ---------------------------------------------------------------------------
// Properties of a list of blocks.
// ---------------------------------------------------------------------------

/// Whether some block starts at `a`.
pub open spec fn is_start(bs: Seq<Block>, a: int) -> bool {
    exists|i: int| 0 <= i < bs.len() && #[trigger] bs[i].start == a
}

/// No two blocks start at the same address.
pub open spec fn starts_distinct(bs: Seq<Block>) -> bool {
    forall|i: int, j: int| 0 <= i < bs.len() && 0 <= j < bs.len() && i != j ==> bs[i].start != bs[j].start
}

/// The intervals of any two blocks are disjoint.
pub open spec fn disjoint(bs: Seq<Block>) -> bool {
    forall|i: int, j: int|
        0 <= i < bs.len() && 0 <= j < bs.len() && i != j ==> bs[i].end <= bs[j].start || bs[j].end <= bs[i].start
}

/// The blocks are in ascending order of start.
pub open spec fn sorted_by_start(bs: Seq<Block>) -> bool {
    forall|i: int, j: int| 0 <= i < j < bs.len() ==> bs[i].start < bs[j].start
}

/// Every block is closed: it ends after it starts, so not at the sentinel.
pub open spec fn all_closed(bs: Seq<Block>) -> bool {
    forall|i: int| 0 <= i < bs.len() ==> bs[i].end != OPEN_BLOCK_SENTINEL && bs[i].end > bs[i].start
}

/// Block `b` ends where its scan ends, or earlier where the next block starts,
/// and no block starts strictly inside it.
pub open spec fn ends_right(mem: Seq<u8>, dec: Seq<Decoded>, bs: Seq<Block>, b: Block) -> bool {
    let e = natural_end(scan(mem, dec, b.start));
    &&& b.start < b.end
    &&& b.end <= e
    &&& (b.end == e || is_start(bs, b.end as int))
    &&& forall|j: int| 0 <= j < bs.len() ==> !(b.start < #[trigger] bs[j].start < b.end)
}

/// The scan from block `b` does not fail, and every successor inside the image
/// of the instruction that ends it starts a block.
pub open spec fn successors_started(mem: Seq<u8>, dec: Seq<Decoded>, bs: Seq<Block>, b: Block) -> bool {
    match scan(mem, dec, b.start) {
        ScanEnd::Control { addr, ins, decoded } => forall|k: int|
            0 <= k < successors(addr, ins, decoded).len() && successors(addr, ins, decoded)[k] < mem.len()
                ==> is_start(bs, #[trigger] successors(addr, ins, decoded)[k] as int),
        ScanEnd::OffImage { .. } => true,
        ScanEnd::Failed { .. } => false,
    }
}

/// Block start `a` is the entry, or a successor of the instruction that ends
/// the scan of some block.
pub open spec fn start_justified(mem: Seq<u8>, dec: Seq<Decoded>, entry: Address, bs: Seq<Block>, a: Address) -> bool {
    a == entry || exists|j: int|
        0 <= j < bs.len() && match #[trigger] scan(mem, dec, bs[j].start) {
            ScanEnd::Control { addr, ins, decoded } => successors(addr, ins, decoded).contains(a),
            _ => false,
        }
}

/// What discovery from `entry` returns on success: the blocks whose starts are
/// the entry and every successor, inside the image, of the instruction that
/// ends a block, each block ending where its scan ends or where the next
/// block starts, in ascending order of start.
pub open spec fn discovered(mem: Seq<u8>, dec: Seq<Decoded>, entry: Address, bs: Seq<Block>) -> bool {
    &&& sorted_by_start(bs)
    &&& (entry < mem.len() ==> is_start(bs, entry as int))
    &&& (entry >= mem.len() ==> bs.len() == 0)
    &&& forall|i: int| 0 <= i < bs.len() ==> #[trigger] bs[i].start < mem.len()
    &&& forall|i: int| 0 <= i < bs.len() ==> ends_right(mem, dec, bs, #[trigger] bs[i])
    &&& forall|i: int| 0 <= i < bs.len() ==> successors_started(mem, dec, bs, #[trigger] bs[i])
    &&& forall|i: int| 0 <= i < bs.len() ==> start_justified(mem, dec, entry, bs, #[trigger] bs[i].start)
    &&& forall|i: int| 0 <= i < bs.len() ==> reachable(mem, dec, entry, #[trigger] bs[i].start)
}

// ---------------------------------------------------------------------------
// Lemmas on lists of blocks.
// ---------------------------------------------------------------------------

/// Distinct starts inside an image of `len` bytes number at most `len`.
proof fn lemma_count_bound(bs: Seq<Block>, len: int)
    requires
        starts_distinct(bs),
        forall|i: int| 0 <= i < bs.len() ==> #[trigger] bs[i].start < len,
        len >= 0,
    ensures
        bs.len() <= len,
{
    let ss = bs.map_values(|b: Block| b.start as int);
    assert(ss.no_duplicates()) by {
        assert forall|i: int, j: int| 0 <= i < ss.len() && 0 <= j < ss.len() && i != j implies ss[i] != ss[j] by {
            assert(bs[i].start != bs[j].start);
        }
    }
    ss.unique_seq_to_set();
    assert forall|x: int| ss.to_set().contains(x) implies set_int_range(0, len).contains(x) by {
        let i = choose|i: int| 0 <= i < ss.len() && ss[i] == x;
        assert(bs[i].start < len);
    }
    lemma_int_range(0, len);
    lemma_len_subset(ss.to_set(), set_int_range(0, len));
}

/// Growing the list while keeping every earlier start keeps every start, every
/// justification, and every started successor.
proof fn lemma_grow(mem: Seq<u8>, dec: Seq<Decoded>, entry: Address, old_bs: Seq<Block>, new_bs: Seq<Block>)
    requires
        old_bs.len() <= new_bs.len(),
        forall|j: int| 0 <= j < old_bs.len() ==> #[trigger] new_bs[j].start == old_bs[j].start,
    ensures
        forall|a: int| is_start(old_bs, a) ==> is_start(new_bs, a),
        forall|a: Address| start_justified(mem, dec, entry, old_bs, a) ==> start_justified(mem, dec, entry, new_bs, a),
        forall|b: Block| successors_started(mem, dec, old_bs, b) ==> successors_started(mem, dec, new_bs, b),
{
    assert forall|a: int| is_start(old_bs, a) implies is_start(new_bs, a) by {
        let i = choose|i: int| 0 <= i < old_bs.len() && #[trigger] old_bs[i].start == a;
        assert(new_bs[i].start == a);
    }
    assert forall|a: Address| start_justified(mem, dec, entry, old_bs, a) implies start_justified(mem, dec, entry, new_bs, a) by {
        if a != entry {
            let j = choose|j: int|
                0 <= j < old_bs.len() && match #[trigger] scan(mem, dec, old_bs[j].start) {
                    ScanEnd::Control { addr, ins, decoded } => successors(addr, ins, decoded).contains(a),
                    _ => false,
                };
            assert(new_bs[j].start == old_bs[j].start);
            assert(match scan(mem, dec, new_bs[j].start) {
                ScanEnd::Control { addr, ins, decoded } => successors(addr, ins, decoded).contains(a),
                _ => false,
            });
        }
    }
    assert forall|b: Block| successors_started(mem, dec, old_bs, b) implies successors_started(mem, dec, new_bs, b) by {
        match scan(mem, dec, b.start) {
            ScanEnd::Control { addr, ins, decoded } => {
                assert forall|k: int|
                    0 <= k < successors(addr, ins, decoded).len() && successors(addr, ins, decoded)[k] < mem.len()
                    implies is_start(new_bs, #[trigger] successors(addr, ins, decoded)[k] as int) by {
                    assert(is_start(old_bs, successors(addr, ins, decoded)[k] as int));
                }
            },
            _ => {},
        }
    }
}

/// The finder's invariant while it works: starts distinct, inside the image,
/// reachable and justified; every closed block ends right and has its
/// successors started; every open block waits on the stack or is scanned now.
#[verifier::opaque]
spec fn finder_inv(
    mem: Seq<u8>,
    dec: Seq<Decoded>,
    entry: Address,
    bs: Seq<Block>,
    open: Seq<usize>,
    scanning: bool,
    current: usize,
) -> bool {
    &&& mem.len() <= MAX_IMAGE_LEN
    &&& bs.len() <= mem.len()
    &&& starts_distinct(bs)
    &&& forall|i: int| 0 <= i < bs.len() ==> #[trigger] bs[i].start < mem.len()
    &&& forall|i: int| 0 <= i < bs.len() ==> reachable(mem, dec, entry, #[trigger] bs[i].start)
    &&& forall|i: int| 0 <= i < bs.len() ==> start_justified(mem, dec, entry, bs, #[trigger] bs[i].start)
    &&& forall|i: int|
        0 <= i < bs.len() && #[trigger] bs[i].end != OPEN_BLOCK_SENTINEL ==> ends_right(mem, dec, bs, bs[i])
            && successors_started(mem, dec, bs, bs[i])
    &&& forall|k: int| 0 <= k < open.len() ==> #[trigger] open[k] < bs.len()
    &&& forall|i: int|
        0 <= i < bs.len() && #[trigger] bs[i].end == OPEN_BLOCK_SENTINEL ==> open.contains(i as usize) || (scanning
            && i == current)
    &&& (scanning ==> current < bs.len())
}

/// Every block truncated at `addr` where `addr` splits it.
pub open spec fn split_all(bs: Seq<Block>, addr: Address) -> Seq<Block> {
    bs.map_values(|b: Block| split_at(b, addr))
}

proof fn lemma_closed_after_split(mem: Seq<u8>, dec: Seq<Decoded>, bs0: Seq<Block>, bs2: Seq<Block>, addr: Address, i: int)
    requires
        bs2.len() == bs0.len() + 1,
        bs2[bs0.len() as int].start == addr,
        forall|j: int| 0 <= j < bs0.len() ==> #[trigger] bs2[j] == split_at(bs0[j], addr),
        0 <= i < bs0.len(),
        bs0[i].end != OPEN_BLOCK_SENTINEL,
        ends_right(mem, dec, bs0, bs0[i]),
        forall|a: int| is_start(bs0, a) ==> is_start(bs2, a),
    ensures
        ends_right(mem, dec, bs2, bs2[i]),
{
    let n = bs0.len() as int;
    assert(bs2[i] == split_at(bs0[i], addr));
    let e = natural_end(scan(mem, dec, bs0[i].start));
    assert forall|j: int| 0 <= j < bs2.len() implies !(bs2[i].start < #[trigger] bs2[j].start < bs2[i].end) by {
        if j < n {
            assert(bs2[j] == split_at(bs0[j], addr));
            assert(bs2[j].start == bs0[j].start);
            assert(!(bs0[i].start < bs0[j].start < bs0[i].end));
        }
    }
    if bs2[i].end != e {
        if bs2[i].end == addr {
            assert(is_start(bs2, addr as int)) by {
                assert(bs2[n].start == addr);
            }
        } else {
            assert(is_start(bs0, bs0[i].end as int));
        }
    }
}

/// Adding a new start keeps the invariant.
proof fn lemma_add_start(
    mem: Seq<u8>,
    dec: Seq<Decoded>,
    entry: Address,
    bs0: Seq<Block>,
    open0: Seq<usize>,
    scanning: bool,
    current: usize,
    addr: Address,
)
    requires
        finder_inv(mem, dec, entry, bs0, open0, scanning, current),
        addr < mem.len(),
        !is_start(bs0, addr as int),
        start_justified(mem, dec, entry, bs0, addr),
        reachable(mem, dec, entry, addr),
    ensures
        finder_inv(
            mem,
            dec,
            entry,
            split_all(bs0, addr).push(open_block(addr)),
            open0.push(bs0.len() as usize),
            scanning,
            current,
        ),
        is_start(split_all(bs0, addr).push(open_block(addr)), addr as int),
{
    reveal(finder_inv);
    let n = bs0.len() as int;
    let bs2 = split_all(bs0, addr).push(open_block(addr));
    let open2 = open0.push(bs0.len() as usize);
    assert(bs2.len() == n + 1);
    assert forall|j: int| 0 <= j < n implies #[trigger] bs2[j] == split_at(bs0[j], addr) by {}
    assert forall|j: int| 0 <= j < n implies #[trigger] bs2[j].start == bs0[j].start by {
        assert(bs2[j] == split_at(bs0[j], addr));
    }
    assert(bs2[n].start == addr);
    assert(is_start(bs2, addr as int));
    lemma_grow(mem, dec, entry, bs0, bs2);
    assert(starts_distinct(bs2));
    assert forall|i: int| 0 <= i < bs2.len() implies #[trigger] bs2[i].start < mem.len() by {
        if i < n {
            assert(bs2[i].start == bs0[i].start);
        }
    }
    lemma_count_bound(bs2, mem.len() as int);
    assert forall|i: int|
        0 <= i < bs2.len() && #[trigger] bs2[i].end != OPEN_BLOCK_SENTINEL implies ends_right(mem, dec, bs2, bs2[i])
            && successors_started(mem, dec, bs2, bs2[i]) by {
        assert(i < n);
        assert(bs2[i] == split_at(bs0[i], addr));
        if bs0[i].end == OPEN_BLOCK_SENTINEL {
            assert(bs2[i] == bs0[i]);
        }
        lemma_closed_after_split(mem, dec, bs0, bs2, addr, i);
        assert(successors_started(mem, dec, bs0, bs0[i]));
    }
    assert forall|i: int| 0 <= i < bs2.len() implies start_justified(mem, dec, entry, bs2, #[trigger] bs2[i].start) by {
        if i < n {
            assert(bs2[i].start == bs0[i].start);
        }
    }
    assert forall|i: int| 0 <= i < bs2.len() implies reachable(mem, dec, entry, #[trigger] bs2[i].start) by {
        if i < n {
            assert(bs2[i].start == bs0[i].start);
        }
    }
    assert forall|k: int| 0 <= k < open2.len() implies #[trigger] open2[k] < bs2.len() by {
        if k < open0.len() {
            assert(open2[k] == open0[k]);
        }
    }
    assert forall|i: int|
        0 <= i < bs2.len() && #[trigger] bs2[i].end == OPEN_BLOCK_SENTINEL implies open2.contains(i as usize) || (
        scanning && i == current) by {
        if i < n {
            assert(bs2[i] == split_at(bs0[i], addr));
            assert(bs0[i].end == OPEN_BLOCK_SENTINEL);
            if !(scanning && i == current) {
                assert(open0.contains(i as usize));
                let k = choose|k: int| 0 <= k < open0.len() && open0[k] == i as usize;
                assert(open2[k] == i as usize);
            }
        } else {
            assert(open2[open2.len() - 1] == i as usize);
        }
    }
}

/// The plain facts that the invariant holds about sizes and indices.
proof fn lemma_inv_facts(
    mem: Seq<u8>,
    dec: Seq<Decoded>,
    entry: Address,
    bs: Seq<Block>,
    open: Seq<usize>,
    scanning: bool,
    current: usize,
)
    requires
        finder_inv(mem, dec, entry, bs, open, scanning, current),
    ensures
        mem.len() <= MAX_IMAGE_LEN,
        bs.len() <= mem.len(),
        scanning ==> current < bs.len(),
        forall|k: int| 0 <= k < open.len() ==> #[trigger] open[k] < bs.len(),
        forall|i: int| 0 <= i < bs.len() ==> #[trigger] bs[i].start < mem.len(),
        forall|i: int| 0 <= i < bs.len() ==> reachable(mem, dec, entry, #[trigger] bs[i].start),
{
    reveal(finder_inv);
}

/// Closing the scanned block at `lim` keeps the invariant, and no block is
/// scanned afterwards.
proof fn lemma_close(
    mem: Seq<u8>,
    dec: Seq<Decoded>,
    entry: Address,
    bs0: Seq<Block>,
    open: Seq<usize>,
    current: usize,
    lim: Address,
)
    requires
        finder_inv(mem, dec, entry, bs0, open, true, current),
        bs0[current as int].end == OPEN_BLOCK_SENTINEL,
        bs0[current as int].start < lim <= natural_end(scan(mem, dec, bs0[current as int].start)),
        lim == natural_end(scan(mem, dec, bs0[current as int].start)) || is_start(bs0, lim as int),
        forall|j: int| 0 <= j < bs0.len() ==> !(bs0[current as int].start < #[trigger] bs0[j].start < lim),
        successors_started(mem, dec, bs0, bs0[current as int]),
    ensures
        finder_inv(
            mem,
            dec,
            entry,
            bs0.update(current as int, Block { start: bs0[current as int].start, end: lim }),
            open,
            false,
            current,
        ),
        finder_inv(
            mem,
            dec,
            entry,
            bs0.update(current as int, Block { start: bs0[current as int].start, end: lim }),
            open,
            true,
            current,
        ),
{
    reveal(finder_inv);
    let c = current as int;
    let bs1 = bs0.update(c, Block { start: bs0[c].start, end: lim });
    assert forall|j: int| 0 <= j < bs0.len() implies #[trigger] bs1[j].start == bs0[j].start by {}
    lemma_grow(mem, dec, entry, bs0, bs1);
    assert(starts_distinct(bs1));
    assert forall|i: int| 0 <= i < bs1.len() implies #[trigger] bs1[i].start < mem.len() by {
        assert(bs1[i].start == bs0[i].start);
    }
    assert forall|i: int| 0 <= i < bs1.len() implies reachable(mem, dec, entry, #[trigger] bs1[i].start) by {
        assert(bs1[i].start == bs0[i].start);
    }
    assert forall|i: int| 0 <= i < bs1.len() implies start_justified(mem, dec, entry, bs1, #[trigger] bs1[i].start) by {
        assert(bs1[i].start == bs0[i].start);
    }
    assert forall|i: int|
        0 <= i < bs1.len() && #[trigger] bs1[i].end != OPEN_BLOCK_SENTINEL implies ends_right(mem, dec, bs1, bs1[i])
            && successors_started(mem, dec, bs1, bs1[i]) by {
        if i == c {
            assert forall|j: int| 0 <= j < bs1.len() implies !(bs1[i].start < #[trigger] bs1[j].start < bs1[i].end) by {
                assert(bs1[j].start == bs0[j].start);
            }
        } else {
            assert(bs1[i] == bs0[i]);
            assert forall|j: int| 0 <= j < bs1.len() implies !(bs1[i].start < #[trigger] bs1[j].start < bs1[i].end) by {
                assert(bs1[j].start == bs0[j].start);
            }
        }
    }
    assert forall|i: int|
        0 <= i < bs1.len() && #[trigger] bs1[i].end == OPEN_BLOCK_SENTINEL implies open.contains(i as usize) by {
        assert(i != c);
        assert(bs1[i] == bs0[i]);
    }
}

/// A successor of the instruction that ends the current block's scan may start
/// a block: it is justified, and reachable where it lies inside the image.
proof fn lemma_successor(
    mem: Seq<u8>,
    dec: Seq<Decoded>,
    entry: Address,
    bs: Seq<Block>,
    c: int,
    a: Address,
    ins: u32,
    d: Decoded,
    t: Address,
)
    requires
        0 <= c < bs.len(),
        (a as int) < mem.len(),
        fetch(mem, dec, a) == Ok::<(u32, Decoded), Address>((ins, d)),
        ends_block(d),
        scan(mem, dec, bs[c].start) == scan(mem, dec, a),
        reachable(mem, dec, entry, a),
        successors(a, ins, d).contains(t),
    ensures
        start_justified(mem, dec, entry, bs, t),
        t < mem.len() ==> reachable(mem, dec, entry, t),
{
    assert(scan(mem, dec, a) == (ScanEnd::Control { addr: a, ins, decoded: d }));
    assert(step(mem, dec, a, t));
    lemma_reachable_step(mem, dec, entry, a, t);
}

/// Taking the last open block off the stack to scan it keeps the invariant.
proof fn lemma_pop(mem: Seq<u8>, dec: Seq<Decoded>, entry: Address, bs: Seq<Block>, open: Seq<usize>, current: usize)
    requires
        finder_inv(mem, dec, entry, bs, open, false, current),
        open.len() > 0,
    ensures
        finder_inv(mem, dec, entry, bs, open.drop_last(), true, open.last()),
{
    reveal(finder_inv);
    let c = open.last();
    let rest = open.drop_last();
    assert forall|i: int|
        0 <= i < bs.len() && #[trigger] bs[i].end == OPEN_BLOCK_SENTINEL implies rest.contains(i as usize) || i == c by {
        let k = choose|k: int| 0 <= k < open.len() && open[k] == i as usize;
        if k < open.len() - 1 {
            assert(rest[k] == i as usize);
        }
    }
}

/// With no open block left, the blocks found so far are what discovery
/// returns, but for their order.
proof fn lemma_finished(mem: Seq<u8>, dec: Seq<Decoded>, entry: Address, bs: Seq<Block>, current: usize)
    requires
        finder_inv(mem, dec, entry, bs, Seq::empty(), false, current),
    ensures
        starts_distinct(bs),
        forall|i: int| 0 <= i < bs.len() ==> #[trigger] bs[i].start < mem.len(),
        forall|i: int| 0 <= i < bs.len() ==> ends_right(mem, dec, bs, #[trigger] bs[i]),
        forall|i: int| 0 <= i < bs.len() ==> successors_started(mem, dec, bs, #[trigger] bs[i]),
        forall|i: int| 0 <= i < bs.len() ==> start_justified(mem, dec, entry, bs, #[trigger] bs[i].start),
        forall|i: int| 0 <= i < bs.len() ==> reachable(mem, dec, entry, #[trigger] bs[i].start),
{
    reveal(finder_inv);
    assert forall|i: int| 0 <= i < bs.len() implies #[trigger] bs[i].end != OPEN_BLOCK_SENTINEL by {
        if bs[i].end == OPEN_BLOCK_SENTINEL {
            assert(Seq::<usize>::empty().contains(i as usize));
        }
    }
    assert forall|i: int| 0 <= i < bs.len() implies ends_right(mem, dec, bs, #[trigger] bs[i]) && successors_started(mem, dec, bs, bs[i]) by {
        assert(bs[i].end != OPEN_BLOCK_SENTINEL);
    }
}

/// A scanned block that is already closed leaves nothing being scanned.
proof fn lemma_unscan(mem: Seq<u8>, dec: Seq<Decoded>, entry: Address, bs: Seq<Block>, open: Seq<usize>, current: usize)
    requires
        finder_inv(mem, dec, entry, bs, open, true, current),
        bs[current as int].end != OPEN_BLOCK_SENTINEL,
    ensures
        finder_inv(mem, dec, entry, bs, open, false, current),
{
    reveal(finder_inv);
}

/// Two lists that hold the same blocks start at the same addresses, justify
/// the same starts, and agree on how each block ends and on its successors.
proof fn lemma_same_blocks(mem: Seq<u8>, dec: Seq<Decoded>, entry: Address, v: Seq<Block>, r: Seq<Block>)
    requires
        forall|x: Block| v.contains(x) <==> r.contains(x),
    ensures
        forall|a: int| is_start(v, a) <==> is_start(r, a),
        forall|a: Address| start_justified(mem, dec, entry, v, a) <==> start_justified(mem, dec, entry, r, a),
        forall|b: Block| ends_right(mem, dec, v, b) <==> ends_right(mem, dec, r, b),
        forall|b: Block| successors_started(mem, dec, v, b) <==> successors_started(mem, dec, r, b),
{
    assert forall|a: int| is_start(v, a) implies is_start(r, a) by {
        let i = choose|i: int| 0 <= i < v.len() && #[trigger] v[i].start == a;
        assert(r.contains(v[i]));
    }
    assert forall|a: int| is_start(r, a) implies is_start(v, a) by {
        let i = choose|i: int| 0 <= i < r.len() && #[trigger] r[i].start == a;
        assert(v.contains(r[i]));
    }
    assert forall|a: Address| start_justified(mem, dec, entry, v, a) implies start_justified(mem, dec, entry, r, a) by {
        if a != entry {
            let j = choose|j: int|
                0 <= j < v.len() && match #[trigger] scan(mem, dec, v[j].start) {
                    ScanEnd::Control { addr, ins, decoded } => successors(addr, ins, decoded).contains(a),
                    _ => false,
                };
            assert(r.contains(v[j]));
            let k = choose|k: int| 0 <= k < r.len() && r[k] == v[j];
            assert(r[k].start == v[j].start);
        }
    }
    assert forall|a: Address| start_justified(mem, dec, entry, r, a) implies start_justified(mem, dec, entry, v, a) by {
        if a != entry {
            let j = choose|j: int|
                0 <= j < r.len() && match #[trigger] scan(mem, dec, r[j].start) {
                    ScanEnd::Control { addr, ins, decoded } => successors(addr, ins, decoded).contains(a),
                    _ => false,
                };
            assert(v.contains(r[j]));
            let k = choose|k: int| 0 <= k < v.len() && v[k] == r[j];
            assert(v[k].start == r[j].start);
        }
    }
    assert forall|b: Block| ends_right(mem, dec, v, b) implies ends_right(mem, dec, r, b) by {
        assert forall|j: int| 0 <= j < r.len() implies !(b.start < #[trigger] r[j].start < b.end) by {
            assert(v.contains(r[j]));
            let k = choose|k: int| 0 <= k < v.len() && v[k] == r[j];
            assert(!(b.start < v[k].start < b.end));
        }
    }
    assert forall|b: Block| ends_right(mem, dec, r, b) implies ends_right(mem, dec, v, b) by {
        assert forall|j: int| 0 <= j < v.len() implies !(b.start < #[trigger] v[j].start < b.end) by {
            assert(r.contains(v[j]));
            let k = choose|k: int| 0 <= k < r.len() && r[k] == v[j];
            assert(!(b.start < r[k].start < b.end));
        }
    }
    assert forall|b: Block| successors_started(mem, dec, v, b) <==> successors_started(mem, dec, r, b) by {
        match scan(mem, dec, b.start) {
            ScanEnd::Control { addr, ins, decoded } => {
                let succ = successors(addr, ins, decoded);
                if successors_started(mem, dec, v, b) {
                    assert forall|k: int| 0 <= k < succ.len() && succ[k] < mem.len() implies is_start(r, #[trigger] succ[k] as int) by {
                        assert(is_start(v, succ[k] as int));
                    }
                }
                if successors_started(mem, dec, r, b) {
                    assert forall|k: int| 0 <= k < succ.len() && succ[k] < mem.len() implies is_start(v, #[trigger] succ[k] as int) by {
                        assert(is_start(r, succ[k] as int));
                    }
                }
            },
            _ => {},
        }
    }
}

/// The blocks of `v`, whose starts are distinct, in ascending order of start.
fn sort_blocks(v: &Vec<Block>) -> (r: Vec<Block>)
    requires
        starts_distinct(v@),
    ensures
        sorted_by_start(r@),
        r@.len() == v@.len(),
        forall|x: Block| v@.contains(x) <==> r@.contains(x),
{
    let mut r: Vec<Block> = Vec::new();
    let mut i: usize = 0;
    while i < v.len()
        invariant
            i <= v@.len(),
            starts_distinct(v@),
            sorted_by_start(r@),
            r@.len() == i,
            forall|x: Block| r@.contains(x) <==> v@.subrange(0, i as int).contains(x),
        decreases v@.len() - i,
    {
        let b = v[i];
        let mut p: usize = 0;
        while p < r.len() && r[p].start < b.start
            invariant
                p <= r@.len(),
                i < v@.len(),
                b == v@[i as int],
                starts_distinct(v@),
                sorted_by_start(r@),
                r@.len() == i,
                forall|x: Block| r@.contains(x) <==> v@.subrange(0, i as int).contains(x),
                forall|k: int| 0 <= k < p ==> #[trigger] r@[k].start < b.start,
            decreases r@.len() - p,
        {
            p = p + 1;
        }
        proof {
            assert forall|k: int| 0 <= k < r@.len() implies #[trigger] r@[k].start != b.start by {
                assert(r@.contains(r@[k]));
                assert(v@.subrange(0, i as int).contains(r@[k]));
                let j = choose|j: int| 0 <= j < i && v@.subrange(0, i as int)[j] == r@[k];
                assert(v@[j] == r@[k]);
            }
            if p < r@.len() {
                assert forall|k: int| p <= k < r@.len() implies #[trigger] r@[k].start > b.start by {
                    if k > p {
                        assert(r@[p as int].start < r@[k].start);
                    }
                }
            }
        }
        let ghost r0 = r@;
        r.insert(p, b);
        proof {
            assert(r@ == r0.insert(p as int, b));
            assert forall|x: int, y: int| 0 <= x < y < r@.len() implies r@[x].start < r@[y].start by {
                if x < p && y < p {
                } else if x < p && y == p {
                } else if x < p && y > p {
                    assert(r@[y] == r0[y - 1]);
                } else if x == p {
                    assert(r@[y] == r0[y - 1]);
                } else {
                    assert(r@[x] == r0[x - 1] && r@[y] == r0[y - 1]);
                }
            }
            let vs = v@.subrange(0, i as int);
            let vs1 = v@.subrange(0, i + 1);
            assert(vs1 == vs.push(b));
            assert forall|x: Block| r@.contains(x) <==> vs1.contains(x) by {
                if r@.contains(x) {
                    let k = choose|k: int| 0 <= k < r@.len() && r@[k] == x;
                    if k < p {
                        assert(r0[k] == x);
                        assert(r0.contains(x));
                    } else if k > p {
                        assert(r0[k - 1] == x);
                        assert(r0.contains(x));
                    }
                    if x != b {
                        assert(vs.contains(x));
                        let j = choose|j: int| 0 <= j < vs.len() && vs[j] == x;
                        assert(vs1[j] == x);
                    } else {
                        assert(vs1[i as int] == x);
                    }
                }
                if vs1.contains(x) {
                    let j = choose|j: int| 0 <= j < vs1.len() && vs1[j] == x;
                    if j < i {
                        assert(vs[j] == x);
                        assert(r0.contains(x));
                        let k = choose|k: int| 0 <= k < r0.len() && r0[k] == x;
                        if k < p {
                            assert(r@[k] == x);
                        } else {
                            assert(r@[k + 1] == x);
                        }
                    } else {
                        assert(r@[p as int] == x);
                    }
                }
            }
        }
        i = i + 1;
    }
    proof {
        assert(v@.subrange(0, v@.len() as int) == v@);
    }
    r
}

// ---------------------------------------------------------------------------
// The finder.
// ---------------------------------------------------------------------------

/// Discovers the basic blocks of a program image by following every
/// statically known branch target from an entry address.
pub struct BlockFinder<'a> {
    addr: Address,
    mem: &'a [u8],
    decoded: &'a [Decoded],
    known_blocks: Vec<Block>,
    open_blocks: Vec<usize>,
    current_block: usize,
}

impl<'a> BlockFinder<'a> {
    /// The image's bytes.
    pub closed spec fn image(&self) -> Seq<u8> {
        self.mem@
    }

    /// The decoded instruction at each address of the image.
    pub closed spec fn decodings(&self) -> Seq<Decoded> {
        self.decoded@
    }

    /// A finder over the image `mem`, where `decoded[a]` is the decoded form of
    /// the instruction at address `a`.
    pub fn with_mem(mem: &'a [u8], decoded: &'a [Decoded]) -> (f: Self)
        ensures
            f.image() == mem@,
            f.decodings() == decoded@,
    {
        Self { addr: 0, mem, decoded, known_blocks: Vec::new(), open_blocks: Vec::new(), current_block: 0 }
    }

    spec fn inv(&self, entry: Address, scanning: bool) -> bool {
        finder_inv(
            self.mem@,
            self.decoded@,
            entry,
            self.known_blocks@,
            self.open_blocks@,
            scanning,
            self.current_block,
        )
    }

    spec fn measure(&self) -> int {
        self.open_blocks@.len() + 2 * (self.mem@.len() - self.known_blocks@.len())
    }

    /// Reads the instruction at the scan address, with its decoded form.
    fn next_instruction(&self) -> (r: Result<(u32, Decoded), BlockFinderError>)
        ensures
            match fetch(self.mem@, self.decoded@, self.addr) {
                Ok(x) => r == Ok::<(u32, Decoded), BlockFinderError>(x),
                Err(a) => r == Err::<(u32, Decoded), BlockFinderError>(BlockFinderError::MemoryReadFailed { addr: a }),
            },
    {
        match read_instruction(self.mem, self.addr) {
            Ok(ins) => if (self.addr as usize) < self.decoded.len() {
                Ok((ins, self.decoded[self.addr as usize]))
            } else {
                Err(BlockFinderError::MemoryReadFailed { addr: self.addr })
            },
            Err(addr) => Err(BlockFinderError::MemoryReadFailed { addr }),
        }
    }

    /// Starts a block at `addr`, unless it lies outside the image or a block
    /// already starts there. A block that `addr` falls strictly inside is
    /// truncated to end at `addr`; one that ends at `addr` is left alone.
    fn start_block(&mut self, addr: Address, Ghost(entry): Ghost<Address>, Ghost(scanning): Ghost<bool>)
        requires
            old(self).inv(entry, scanning),
            start_justified(old(self).mem@, old(self).decoded@, entry, old(self).known_blocks@, addr),
            addr < old(self).mem@.len() ==> reachable(old(self).mem@, old(self).decoded@, entry, addr),
        ensures
            final(self).inv(entry, scanning),
            final(self).mem == old(self).mem,
            final(self).decoded == old(self).decoded,
            final(self).addr == old(self).addr,
            final(self).current_block == old(self).current_block,
            final(self).measure() <= old(self).measure(),
            final(self).known_blocks@.len() >= old(self).known_blocks@.len(),
            forall|j: int| 0 <= j < old(self).known_blocks@.len() ==> #[trigger] final(self).known_blocks@[j].start == old(self).known_blocks@[j].start,
            addr < old(self).mem@.len() ==> is_start(final(self).known_blocks@, addr as int),
            final(self).known_blocks@ == with_start(old(self).known_blocks@, addr, old(self).mem@.len()),
            final(self).open_blocks@ == open_with_start(old(self).known_blocks@, old(self).open_blocks@, addr, old(self).mem@.len()),
            addr >= old(self).mem@.len() || is_start(old(self).known_blocks@, addr as int) ==> final(self).known_blocks@
                == old(self).known_blocks@ && final(self).open_blocks@ == old(self).open_blocks@,
            addr < old(self).mem@.len() && !is_start(old(self).known_blocks@, addr as int) ==> {
                &&& final(self).known_blocks@.len() == old(self).known_blocks@.len() + 1
                &&& final(self).known_blocks@.last() == open_block(addr)
                &&& final(self).open_blocks@ == old(self).open_blocks@.push(old(self).known_blocks@.len() as usize)
                &&& forall|j: int|
                    0 <= j < old(self).known_blocks@.len() ==> #[trigger] final(self).known_blocks@[j] == split_at(
                        old(self).known_blocks@[j],
                        addr,
                    )
            },
    {
        let ghost mem = self.mem@;
        let ghost dec = self.decoded@;
        let ghost bs0 = self.known_blocks@;
        // Ignore addresses that are outside of the image.
        if addr as usize >= self.mem.len() {
            return;
        }
        // Only add previously unknown blocks.
        let mut is_unknown = true;
        let mut i: usize = 0;
        while i < self.known_blocks.len()
            invariant
                self.known_blocks@ == bs0,
                i <= bs0.len(),
                is_unknown == forall|j: int| 0 <= j < i ==> #[trigger] bs0[j].start != addr,
            decreases bs0.len() - i,
        {
            if self.known_blocks[i].start == addr {
                is_unknown = false;
            }
            i = i + 1;
        }
        if !is_unknown {
            proof {
                let j = choose|j: int| 0 <= j < bs0.len() && !(#[trigger] bs0[j].start != addr);
                assert(is_start(bs0, addr as int));
            }
            return;
        }
        // Truncate a block that the new one splits, then start the new one.
        let n = self.known_blocks.len();
        let mut i: usize = 0;
        while i < n
            invariant
                n == bs0.len(),
                self.known_blocks@.len() == n,
                i <= n,
                forall|j: int| 0 <= j < i ==> #[trigger] self.known_blocks@[j] == split_at(bs0[j], addr),
                forall|j: int| i <= j < n ==> #[trigger] self.known_blocks@[j] == bs0[j],
                self.mem == old(self).mem,
                self.decoded == old(self).decoded,
                self.open_blocks == old(self).open_blocks,
                self.current_block == old(self).current_block,
                self.addr == old(self).addr,
                mem == self.mem@,
                dec == self.decoded@,
            decreases n - i,
        {
            let b = self.known_blocks[i];
            if b.start < addr && addr < b.end {
                self.known_blocks[i] = Block { start: b.start, end: addr };
            }
            i = i + 1;
        }
        assert(self.known_blocks@ =~= split_all(bs0, addr));
        self.known_blocks.push(Block::new(addr));
        self.open_blocks.push(n);
        proof {
            assert(finder_inv(mem, dec, entry, bs0, old(self).open_blocks@, scanning, old(self).current_block));
            lemma_add_start(mem, dec, entry, bs0, old(self).open_blocks@, scanning, self.current_block, addr);
            lemma_grow(mem, dec, entry, bs0, self.known_blocks@);
            assert(!is_start(bs0, addr as int));
            assert(self.known_blocks@ == with_start(bs0, addr, mem.len()));
        }
    }

    spec fn scanning_at(&self, entry: Address) -> bool {
        let mem = self.mem@;
        let dec = self.decoded@;
        let c = self.current_block as int;
        &&& self.inv(entry, true)
        &&& self.known_blocks@[c].end == OPEN_BLOCK_SENTINEL
        &&& (self.addr as int) < mem.len()
        &&& self.known_blocks@[c].start <= self.addr
        &&& scan(mem, dec, self.known_blocks@[c].start) == scan(mem, dec, self.addr)
        &&& reachable(mem, dec, entry, self.addr)
    }

    /// The least start inside `(start, e)`, or `e` where there is none.
    fn limit(&self, start: Address, e: Address) -> (r: Address)
        requires
            start < e,
        ensures
            start < r <= e,
            r == e || is_start(self.known_blocks@, r as int),
            forall|j: int| 0 <= j < self.known_blocks@.len() ==> !(start < #[trigger] self.known_blocks@[j].start < r),
            r == cut(self.known_blocks@, start, e),
    {
        let mut r = e;
        let mut i: usize = 0;
        while i < self.known_blocks.len()
            invariant
                i <= self.known_blocks@.len(),
                start < r <= e,
                r == e || is_start(self.known_blocks@, r as int),
                forall|j: int| 0 <= j < i ==> !(start < #[trigger] self.known_blocks@[j].start < r),
                r == cut(self.known_blocks@.take(i as int), start, e),
            decreases self.known_blocks@.len() - i,
        {
            let s = self.known_blocks[i].start;
            proof {
                assert(self.known_blocks@.take(i as int + 1).drop_last() =~= self.known_blocks@.take(i as int));
            }
            if start < s && s < r {
                r = s;
            }
            i = i + 1;
        }
        proof {
            assert(self.known_blocks@.take(i as int) =~= self.known_blocks@);
        }
        r
    }

    /// Closes the scanned block at `addr`, or earlier where another block starts.
    fn end_block(&mut self, addr: Address, Ghost(entry): Ghost<Address>)
        requires
            old(self).inv(entry, true),
            old(self).known_blocks@[old(self).current_block as int].end == OPEN_BLOCK_SENTINEL,
            old(self).known_blocks@[old(self).current_block as int].start < addr,
            addr == natural_end(scan(old(self).mem@, old(self).decoded@, old(self).known_blocks@[old(self).current_block as int].start)),
            successors_started(old(self).mem@, old(self).decoded@, old(self).known_blocks@, old(self).known_blocks@[old(self).current_block as int]),
        ensures
            final(self).inv(entry, true),
            final(self).inv(entry, false),
            final(self).mem == old(self).mem,
            final(self).decoded == old(self).decoded,
            final(self).addr == old(self).addr,
            final(self).current_block == old(self).current_block,
            final(self).open_blocks == old(self).open_blocks,
            final(self).known_blocks@.len() == old(self).known_blocks@.len(),
            forall|j: int| 0 <= j < old(self).known_blocks@.len() ==> #[trigger] final(self).known_blocks@[j].start == old(self).known_blocks@[j].start,
            final(self).known_blocks@[old(self).current_block as int].end != OPEN_BLOCK_SENTINEL,
            final(self).known_blocks@ == close_block(old(self).known_blocks@, old(self).current_block as int, addr),
    {
        let c = self.current_block;
        proof {
            lemma_inv_facts(self.mem@, self.decoded@, entry, self.known_blocks@, self.open_blocks@, true, c);
        }
        let start = self.known_blocks[c].start;
        let lim = self.limit(start, addr);
        proof {
            lemma_close(self.mem@, self.decoded@, entry, self.known_blocks@, self.open_blocks@, c, lim);
        }
        self.known_blocks[c] = Block { start, end: lim };
    }

    /// Starts blocks at both outcomes of a branch, and closes the scanned block.
    fn conditional_jump(&mut self, branch_taken: Address, branch_not_taken: Address, ins: u32, d: Decoded, Ghost(entry): Ghost<Address>)
        requires
            old(self).scanning_at(entry),
            fetch(old(self).mem@, old(self).decoded@, old(self).addr) == Ok::<(u32, Decoded), Address>((ins, d)),
            ends_block(d),
            successors(old(self).addr, ins, d) == seq![branch_not_taken, branch_taken],
            branch_not_taken == old(self).addr + width(ins),
        ensures
            final(self).inv(entry, true),
            final(self).inv(entry, false),
            final(self).mem == old(self).mem,
            final(self).decoded == old(self).decoded,
            final(self).current_block == old(self).current_block,
            final(self).addr == old(self).addr,
            final(self).measure() <= old(self).measure(),
            final(self).known_blocks@.len() >= old(self).known_blocks@.len(),
            forall|j: int| 0 <= j < old(self).known_blocks@.len() ==> #[trigger] final(self).known_blocks@[j].start == old(self).known_blocks@[j].start,
            final(self).known_blocks@[old(self).current_block as int].end != OPEN_BLOCK_SENTINEL,
            final(self).known_blocks@ == close_block(
                with_start(with_start(old(self).known_blocks@, branch_not_taken, old(self).mem@.len()), branch_taken, old(self).mem@.len()),
                old(self).current_block as int,
                branch_not_taken,
            ),
            final(self).open_blocks@ == open_with_start(
                with_start(old(self).known_blocks@, branch_not_taken, old(self).mem@.len()),
                open_with_start(old(self).known_blocks@, old(self).open_blocks@, branch_not_taken, old(self).mem@.len()),
                branch_taken,
                old(self).mem@.len(),
            ),
    {
        let ghost mem = self.mem@;
        let ghost dec = self.decoded@;
        let ghost c = self.current_block as int;
        let ghost a = self.addr;
        let ghost bs0 = self.known_blocks@;
        proof {
            lemma_inv_facts(mem, dec, entry, bs0, self.open_blocks@, true, self.current_block);
            assert(successors(a, ins, d)[0] == branch_not_taken);
            lemma_successor(mem, dec, entry, bs0, c, a, ins, d, branch_not_taken);
        }
        self.start_block(branch_not_taken, Ghost(entry), Ghost(true));
        let ghost bs1 = self.known_blocks@;
        proof {
            lemma_inv_facts(mem, dec, entry, bs1, self.open_blocks@, true, self.current_block);
            assert(successors(a, ins, d)[1] == branch_taken);
            lemma_successor(mem, dec, entry, bs1, c, a, ins, d, branch_taken);
        }
        self.start_block(branch_taken, Ghost(entry), Ghost(true));
        let ghost bs2 = self.known_blocks@;
        proof {
            lemma_grow(mem, dec, entry, bs1, bs2);
            assert(scan(mem, dec, a) == (ScanEnd::Control { addr: a, ins, decoded: d }));
            let succ = successors(a, ins, d);
            assert forall|k: int| 0 <= k < succ.len() && succ[k] < mem.len() implies is_start(bs2, #[trigger] succ[k] as int) by {
                if k == 0 {
                    assert(is_start(bs1, branch_not_taken as int));
                }
            }
            assert(bs2[c].start == bs0[c].start);
            assert(successors_started(mem, dec, bs2, bs2[c]));
        }
        self.end_block(branch_not_taken, Ghost(entry));
    }

    /// Starts a block at a jump's target, and closes the scanned block.
    fn direct_jump(&mut self, next_instruction: Address, target: Address, ins: u32, d: Decoded, Ghost(entry): Ghost<Address>)
        requires
            old(self).scanning_at(entry),
            fetch(old(self).mem@, old(self).decoded@, old(self).addr) == Ok::<(u32, Decoded), Address>((ins, d)),
            ends_block(d),
            successors(old(self).addr, ins, d) == seq![target],
            next_instruction == old(self).addr + width(ins),
        ensures
            final(self).inv(entry, true),
            final(self).inv(entry, false),
            final(self).mem == old(self).mem,
            final(self).decoded == old(self).decoded,
            final(self).current_block == old(self).current_block,
            final(self).addr == old(self).addr,
            final(self).measure() <= old(self).measure(),
            final(self).known_blocks@.len() >= old(self).known_blocks@.len(),
            forall|j: int| 0 <= j < old(self).known_blocks@.len() ==> #[trigger] final(self).known_blocks@[j].start == old(self).known_blocks@[j].start,
            final(self).known_blocks@[old(self).current_block as int].end != OPEN_BLOCK_SENTINEL,
            final(self).known_blocks@ == close_block(
                with_start(old(self).known_blocks@, target, old(self).mem@.len()),
                old(self).current_block as int,
                next_instruction,
            ),
            final(self).open_blocks@ == open_with_start(old(self).known_blocks@, old(self).open_blocks@, target, old(self).mem@.len()),
    {
        let ghost mem = self.mem@;
        let ghost dec = self.decoded@;
        let ghost c = self.current_block as int;
        let ghost a = self.addr;
        let ghost bs0 = self.known_blocks@;
        proof {
            lemma_inv_facts(mem, dec, entry, bs0, self.open_blocks@, true, self.current_block);
            assert(successors(a, ins, d)[0] == target);
            lemma_successor(mem, dec, entry, bs0, c, a, ins, d, target);
        }
        self.start_block(target, Ghost(entry), Ghost(true));
        let ghost bs1 = self.known_blocks@;
        proof {
            assert(scan(mem, dec, a) == (ScanEnd::Control { addr: a, ins, decoded: d }));
            let succ = successors(a, ins, d);
            assert forall|k: int| 0 <= k < succ.len() && succ[k] < mem.len() implies is_start(bs1, #[trigger] succ[k] as int) by {}
            assert(bs1[c].start == bs0[c].start);
            assert(successors_started(mem, dec, bs1, bs1[c]));
        }
        self.end_block(next_instruction, Ghost(entry));
    }

    /// Starts a block at the fall-through, and closes the scanned block there.
    fn new_block(&mut self, next_instruction: Address, ins: u32, d: Decoded, Ghost(entry): Ghost<Address>)
        requires
            old(self).scanning_at(entry),
            fetch(old(self).mem@, old(self).decoded@, old(self).addr) == Ok::<(u32, Decoded), Address>((ins, d)),
            ends_block(d),
            successors(old(self).addr, ins, d) == seq![next_instruction],
            next_instruction == old(self).addr + width(ins),
        ensures
            final(self).inv(entry, true),
            final(self).inv(entry, false),
            final(self).mem == old(self).mem,
            final(self).decoded == old(self).decoded,
            final(self).current_block == old(self).current_block,
            final(self).addr == old(self).addr,
            final(self).measure() <= old(self).measure(),
            final(self).known_blocks@.len() >= old(self).known_blocks@.len(),
            forall|j: int| 0 <= j < old(self).known_blocks@.len() ==> #[trigger] final(self).known_blocks@[j].start == old(self).known_blocks@[j].start,
            final(self).known_blocks@[old(self).current_block as int].end != OPEN_BLOCK_SENTINEL,
            final(self).known_blocks@ == close_block(
                with_start(old(self).known_blocks@, next_instruction, old(self).mem@.len()),
                old(self).current_block as int,
                next_instruction,
            ),
            final(self).open_blocks@ == open_with_start(old(self).known_blocks@, old(self).open_blocks@, next_instruction, old(self).mem@.len()),
    {
        let ghost mem = self.mem@;
        let ghost dec = self.decoded@;
        let ghost c = self.current_block as int;
        let ghost a = self.addr;
        let ghost bs0 = self.known_blocks@;
        proof {
            lemma_inv_facts(mem, dec, entry, bs0, self.open_blocks@, true, self.current_block);
            assert(successors(a, ins, d)[0] == next_instruction);
            lemma_successor(mem, dec, entry, bs0, c, a, ins, d, next_instruction);
        }
        self.start_block(next_instruction, Ghost(entry), Ghost(true));
        let ghost bs1 = self.known_blocks@;
        proof {
            assert(scan(mem, dec, a) == (ScanEnd::Control { addr: a, ins, decoded: d }));
            let succ = successors(a, ins, d);
            assert forall|k: int| 0 <= k < succ.len() && succ[k] < mem.len() implies is_start(bs1, #[trigger] succ[k] as int) by {}
            assert(bs1[c].start == bs0[c].start);
            assert(successors_started(mem, dec, bs1, bs1[c]));
        }
        self.end_block(next_instruction, Ghost(entry));
    }

    /// Applies the instruction `d`, encoded as `ins`, at the scan address: a
    /// branch, jump or trap starts its successors and closes the scanned block;
    /// any other instruction changes nothing.
    fn dispatch(&mut self, ins: u32, d: Decoded, Ghost(entry): Ghost<Address>)
        requires
            old(self).scanning_at(entry),
            fetch(old(self).mem@, old(self).decoded@, old(self).addr) == Ok::<(u32, Decoded), Address>((ins, d)),
        ensures
            final(self).inv(entry, true),
            final(self).mem == old(self).mem,
            final(self).decoded == old(self).decoded,
            final(self).current_block == old(self).current_block,
            final(self).addr == old(self).addr,
            final(self).measure() <= old(self).measure(),
            final(self).known_blocks@.len() >= old(self).known_blocks@.len(),
            forall|j: int| 0 <= j < old(self).known_blocks@.len() ==> #[trigger] final(self).known_blocks@[j].start == old(self).known_blocks@[j].start,
            ends_block(d) ==> final(self).known_blocks@[old(self).current_block as int].end != OPEN_BLOCK_SENTINEL
                && final(self).inv(entry, false),
            !ends_block(d) ==> *final(self) == *old(self),
            (final(self).known_blocks@, final(self).open_blocks@) == visited(
                old(self).known_blocks@,
                old(self).open_blocks@,
                old(self).current_block as int,
                old(self).addr,
                ins,
                d,
                old(self).mem@.len(),
            ),
    {
        let w: u32 = if (ins & 3) == 3 { 4 } else { 2 };
        proof {
            lemma_inv_facts(self.mem@, self.decoded@, entry, self.known_blocks@, self.open_blocks@, true, self.current_block);
        }
        let fall = self.addr + w;
        match d {
            Decoded::Branch(op) => {
                let taken = self.addr.wrapping_add(op.bimm);
                self.conditional_jump(taken, fall, ins, d, Ghost(entry));
            },
            Decoded::Jal(op) => {
                let target = self.addr.wrapping_add(op.jimm);
                self.direct_jump(fall, target, ins, d, Ghost(entry));
            },
            Decoded::Jalr(_) | Decoded::Ecall | Decoded::Ebreak => {
                self.new_block(fall, ins, d, Ghost(entry));
            },
            _ => {},
        }
    }

    /// Discovers every block reachable through static control flow from
    /// `addr`, and returns them in ascending order of start; or the address at
    /// which an instruction could not be read.
    pub fn find_blocks(&mut self, addr: Address) -> (r: Result<Vec<Block>, BlockFinderError>)
        requires
            old(self).image().len() <= MAX_IMAGE_LEN,
        ensures
            final(self).image() == old(self).image(),
            final(self).decodings() == old(self).decodings(),
            match r {
                Ok(bs) => {
                    &&& discovered(old(self).image(), old(self).decodings(), addr, bs@)
                    &&& starts_distinct(bs@)
                    &&& disjoint(bs@)
                    &&& all_closed(bs@)
                },
                Err(BlockFinderError::MemoryReadFailed { addr: a }) => exists|s: Address|
                    reachable(old(self).image(), old(self).decodings(), addr, s) && #[trigger] scan(
                        old(self).image(),
                        old(self).decodings(),
                        s,
                    ) == (ScanEnd::Failed { addr: a }),
            },
    {
        let ghost mem = self.mem@;
        let ghost dec = self.decoded@;
        let ghost entry = addr;
        self.known_blocks = Vec::new();
        self.open_blocks = Vec::new();
        proof {
            reveal(finder_inv);
            lemma_reachable_entry(mem, dec, entry);
            assert(start_justified(mem, dec, entry, self.known_blocks@, addr));
        }
        self.start_block(addr, Ghost(entry), Ghost(false));
        loop
            invariant
                self.inv(entry, false),
                self.mem@ == mem,
                self.decoded@ == dec,
                mem.len() <= MAX_IMAGE_LEN,
                entry < mem.len() ==> is_start(self.known_blocks@, entry as int),
                entry >= mem.len() ==> self.known_blocks@.len() == 0 && self.open_blocks@.len() == 0,
                self.measure() >= 0,
                mem == old(self).image(),
                dec == old(self).decodings(),
                entry == addr,
            ensures
                self.inv(entry, false),
                self.mem@ == mem,
                self.decoded@ == dec,
                entry < mem.len() ==> is_start(self.known_blocks@, entry as int),
                self.open_blocks@.len() == 0,
            decreases self.measure(),
        {
            let ghost m0 = self.measure();
            let ghost bs0 = self.known_blocks@;
            let ghost open0 = self.open_blocks@;
            let ghost cur0 = self.current_block;
            proof {
                lemma_inv_facts(mem, dec, entry, bs0, self.open_blocks@, false, self.current_block);
            }
            let current = match self.open_blocks.pop() {
                Some(c) => c,
                None => break,
            };
            proof {
                lemma_pop(mem, dec, entry, bs0, open0, cur0);
                assert(open0.drop_last() == self.open_blocks@);
            }
            self.current_block = current;
            let start = self.known_blocks[current].start;
            self.addr = start;
            proof {
                lemma_inv_facts(mem, dec, entry, bs0, self.open_blocks@, true, current);
                if bs0[current as int].end != OPEN_BLOCK_SENTINEL {
                    lemma_unscan(mem, dec, entry, bs0, self.open_blocks@, current);
                }
            }
            while (self.addr as usize) < self.mem.len() && self.known_blocks[self.current_block].end == OPEN_BLOCK_SENTINEL
                invariant
                    self.inv(entry, true),
                    self.current_block == current,
                    current < self.known_blocks@.len(),
                    mem == old(self).image(),
                    dec == old(self).decodings(),
                    entry == addr,
                    self.mem@ == mem,
                    self.decoded@ == dec,
                    mem.len() <= MAX_IMAGE_LEN,
                    self.known_blocks@.len() >= bs0.len(),
                    forall|j: int| 0 <= j < bs0.len() ==> #[trigger] self.known_blocks@[j].start == bs0[j].start,
                    self.known_blocks@[current as int].start == start,
                    self.addr <= mem.len() + 4,
                    self.known_blocks@[current as int].end == OPEN_BLOCK_SENTINEL ==> {
                        &&& start <= self.addr
                        &&& scan(mem, dec, start) == scan(mem, dec, self.addr)
                        &&& reachable(mem, dec, entry, self.addr)
                    },
                    self.known_blocks@[current as int].end != OPEN_BLOCK_SENTINEL ==> self.inv(entry, false),
                    self.measure() < m0,
                decreases mem.len() + 4 - self.addr,
            {
                let (ins, d) = match self.next_instruction() {
                    Ok(x) => x,
                    Err(e) => {
                        proof {
                            lemma_inv_facts(mem, dec, entry, self.known_blocks@, self.open_blocks@, true, current);
                            assert(reachable(mem, dec, entry, start));
                            assert(scan(mem, dec, self.addr) == (ScanEnd::Failed { addr: e->addr }));
                            assert(scan(mem, dec, start) == (ScanEnd::Failed { addr: e->addr }));
                            assert(reachable(old(self).image(), old(self).decodings(), addr, start) && scan(
                                old(self).image(),
                                old(self).decodings(),
                                start,
                            ) == (ScanEnd::Failed { addr: e->addr }));
                        }
                        return Err(e);
                    },
                };
                let ghost a = self.addr;
                self.dispatch(ins, d, Ghost(entry));
                let w: u32 = if (ins & 3) == 3 { 4 } else { 2 };
                proof {
                    if !ends_block(d) {
                        lemma_reachable_step(mem, dec, entry, a, (a + w) as Address);
                    }
                }
                self.addr = self.addr + w;
            }
            if self.known_blocks[current].end == OPEN_BLOCK_SENTINEL {
                // The scan ran off the end of the image: close the block there.
                let end = self.addr;
                self.end_block(end, Ghost(entry));
            }
            proof {
                lemma_grow(mem, dec, entry, bs0, self.known_blocks@);
                lemma_inv_facts(mem, dec, entry, self.known_blocks@, self.open_blocks@, false, current);
            }
        }
        proof {
            assert(self.open_blocks@ =~= Seq::<usize>::empty());
            lemma_finished(mem, dec, entry, self.known_blocks@, self.current_block);
        }
        let mut found: Vec<Block> = Vec::new();
        std::mem::swap(&mut found, &mut self.known_blocks);
        let sorted = sort_blocks(&found);
        proof {
            lemma_same_blocks(mem, dec, entry, found@, sorted@);
            let r = sorted@;
            assert forall|i: int| 0 <= i < r.len() implies {
                &&& #[trigger] r[i].start < mem.len()
                &&& ends_right(mem, dec, r, r[i])
                &&& successors_started(mem, dec, r, r[i])
                &&& start_justified(mem, dec, entry, r, r[i].start)
                &&& reachable(mem, dec, entry, r[i].start)
            } by {
                assert(found@.contains(r[i]));
                let k = choose|k: int| 0 <= k < found@.len() && found@[k] == r[i];
                assert(ends_right(mem, dec, found@, found@[k]));
            }
            if entry < mem.len() {
                assert(is_start(found@, entry as int));
            }
            lemma_discovered_invariants(mem, dec, entry, r);
        }
        Ok(sorted)
    }
}

/// A block that `addr` falls strictly inside, truncated to end at `addr`; any
/// other block, unchanged.
pub open spec fn split_at(b: Block, addr: Address) -> Block {
    if b.start < addr && addr < b.end {
        Block { start: b.start, end: addr }
    } else {
        b
    }
}

/// A block that starts at `start` and is still open.
pub open spec fn open_block(start: Address) -> Block {
    Block { start, end: OPEN_BLOCK_SENTINEL }
}

/// The list after starting a block at `addr` in an image of `len` bytes: an
/// address outside the image or already a start changes nothing; otherwise a
/// block that `addr` falls strictly inside is truncated there, and an open
/// block starting at `addr` is appended.
pub open spec fn with_start(bs: Seq<Block>, addr: Address, len: nat) -> Seq<Block> {
    if addr >= len || is_start(bs, addr as int) {
        bs
    } else {
        split_all(bs, addr).push(open_block(addr))
    }
}

/// The open stack after starting a block at `addr` in the list `bs`: the new
/// block's index is pushed where a block is started.
pub open spec fn open_with_start(bs: Seq<Block>, open: Seq<usize>, addr: Address, len: nat) -> Seq<usize> {
    if addr >= len || is_start(bs, addr as int) {
        open
    } else {
        open.push(bs.len() as usize)
    }
}

/// The least start of `bs` strictly between `start` and `e`, or `e` where
/// there is none.
pub open spec fn cut(bs: Seq<Block>, start: Address, e: Address) -> Address
    decreases bs.len(),
{
    if bs.len() == 0 {
        e
    } else {
        let r = cut(bs.drop_last(), start, e);
        let s = bs.last().start;
        if start < s && s < r {
            s
        } else {
            r
        }
    }
}

/// The list with block `c` closed at `e`, or earlier at the least start after
/// its own.
pub open spec fn close_block(bs: Seq<Block>, c: int, e: Address) -> Seq<Block> {
    bs.update(c, Block { start: bs[c].start, end: cut(bs, bs[c].start, e) })
}

/// The list and the open stack after the instruction `d`, encoded as `ins`, at
/// `a` is scanned as part of block `c` in an image of `len` bytes. A branch
/// starts blocks at its fall-through and then at its target; a direct jump
/// only at its target; an indirect jump or a trap only at its fall-through.
/// Each of these then closes block `c` at the fall-through. Any other
/// instruction changes nothing.
pub open spec fn visited(
    bs: Seq<Block>,
    open: Seq<usize>,
    c: int,
    a: Address,
    ins: u32,
    d: Decoded,
    len: nat,
) -> (Seq<Block>, Seq<usize>) {
    let fall = (a + width(ins)) as Address;
    match d {
        Decoded::Branch(op) => {
            let t = u32_specs::wrapping_add(a, op.bimm);
            let b1 = with_start(bs, fall, len);
            let o1 = open_with_start(bs, open, fall, len);
            (close_block(with_start(b1, t, len), c, fall), open_with_start(b1, o1, t, len))
        },
        Decoded::Jal(op) => {
            let t = u32_specs::wrapping_add(a, op.jimm);
            (close_block(with_start(bs, t, len), c, fall), open_with_start(bs, open, t, len))
        },
        Decoded::Jalr(_) | Decoded::Ecall | Decoded::Ebreak => (
            close_block(with_start(bs, fall, len), c, fall),
            open_with_start(bs, open, fall, len),
        ),
        _ => (bs, open),
    }
}

/// What discovery returns holds the invariants of a block set: the blocks are
/// sorted by start, no two share a start, their intervals are disjoint, each is
/// closed and non-empty, and each start is reachable from the entry.
pub proof fn lemma_discovered_invariants(mem: Seq<u8>, dec: Seq<Decoded>, entry: Address, bs: Seq<Block>)
    requires
        discovered(mem, dec, entry, bs),
    ensures
        sorted_by_start(bs),
        starts_distinct(bs),
        disjoint(bs),
        all_closed(bs),
        forall|i: int| 0 <= i < bs.len() ==> reachable(mem, dec, entry, #[trigger] bs[i].start),
{
    assert forall|i: int, j: int| 0 <= i < bs.len() && 0 <= j < bs.len() && i != j implies bs[i].start != bs[j].start by {
        if i < j {
            assert(bs[i].start < bs[j].start);
        } else {
            assert(bs[j].start < bs[i].start);
        }
    }
    assert forall|i: int| 0 <= i < bs.len() implies bs[i].end != OPEN_BLOCK_SENTINEL && bs[i].end > bs[i].start by {
        assert(ends_right(mem, dec, bs, bs[i]));
    }
    assert forall|i: int, j: int|
        0 <= i < bs.len() && 0 <= j < bs.len() && i != j implies bs[i].end <= bs[j].start || bs[j].end <= bs[i].start by {
        assert(ends_right(mem, dec, bs, bs[i]));
        assert(ends_right(mem, dec, bs, bs[j]));
        assert(!(bs[i].start < bs[j].start < bs[i].end));
        assert(!(bs[j].start < bs[i].start < bs[j].end));
        if i < j {
            assert(bs[i].start < bs[j].start);
        } else {
            assert(bs[j].start < bs[i].start);
        }
    }
}

/// A scan from inside the image that does not fail ends within four bytes
/// past the image.
pub(crate) proof fn lemma_scan_end_bound(mem: Seq<u8>, dec: Seq<Decoded>, addr: Address)
    requires
        (addr as int) < mem.len(),
        !(scan(mem, dec, addr) is Failed),
    ensures
        natural_end(scan(mem, dec, addr)) <= mem.len() + 4,
    decreases mem.len() + 4 - addr,
{
    match fetch(mem, dec, addr) {
        Err(_) => {},
        Ok((ins, d)) => {
            if !ends_block(d) && addr + width(ins) <= u32::MAX && addr + width(ins) < mem.len() {
                lemma_scan_end_bound(mem, dec, (addr + width(ins)) as Address);
            }
        },
    }
}

/// Every address on a path from the entry lies on the scan of some block of a
/// discovered list: its scan ends where that block's scan ends.
proof fn lemma_path_on_scans(mem: Seq<u8>, dec: Seq<Decoded>, entry: Address, bs: Seq<Block>, p: Seq<Address>, k: int)
    requires
        discovered(mem, dec, entry, bs),
        is_path(mem, dec, p),
        p[0] == entry,
        0 <= k < p.len(),
        p[k] < mem.len(),
    ensures
        exists|j: int| 0 <= j < bs.len() && scan(mem, dec, #[trigger] bs[j].start) == scan(mem, dec, p[k]),
    decreases k,
{
    if k == 0 {
        let j = choose|j: int| 0 <= j < bs.len() && #[trigger] bs[j].start == entry;
        assert(scan(mem, dec, bs[j].start) == scan(mem, dec, p[k]));
    } else {
        let a = p[k - 1];
        assert(step(mem, dec, p[k - 1], p[k]));
        lemma_path_on_scans(mem, dec, entry, bs, p, k - 1);
        let j = choose|j: int| 0 <= j < bs.len() && scan(mem, dec, #[trigger] bs[j].start) == scan(mem, dec, a);
        match fetch(mem, dec, a) {
            Ok((ins, d)) => {
                if ends_block(d) {
                    assert(scan(mem, dec, a) == (ScanEnd::Control { addr: a, ins, decoded: d }));
                    assert(successors_started(mem, dec, bs, bs[j]));
                    let succ = successors(a, ins, d);
                    let m = choose|m: int| 0 <= m < succ.len() && succ[m] == p[k];
                    assert(is_start(bs, succ[m] as int));
                    let i = choose|i: int| 0 <= i < bs.len() && #[trigger] bs[i].start == succ[m] as int;
                    assert(scan(mem, dec, bs[i].start) == scan(mem, dec, p[k]));
                } else {
                    assert(scan(mem, dec, a) == scan(mem, dec, p[k]));
                }
            },
            Err(_) => {},
        }
    }
}

/// A reachable address inside the image lies on the scan of some block.
proof fn lemma_reachable_on_scans(mem: Seq<u8>, dec: Seq<Decoded>, entry: Address, bs: Seq<Block>, x: Address)
    requires
        discovered(mem, dec, entry, bs),
        reachable(mem, dec, entry, x),
        x < mem.len(),
    ensures
        exists|j: int| 0 <= j < bs.len() && scan(mem, dec, #[trigger] bs[j].start) == scan(mem, dec, x),
{
    let p = choose|p: Seq<Address>| #[trigger] is_path(mem, dec, p) && p[0] == entry && p.last() == x;
    lemma_path_on_scans(mem, dec, entry, bs, p, p.len() - 1);
}

/// Every start of one discovered list is a start of any other.
proof fn lemma_starts_included(mem: Seq<u8>, dec: Seq<Decoded>, entry: Address, b1: Seq<Block>, b2: Seq<Block>)
    requires
        discovered(mem, dec, entry, b1),
        discovered(mem, dec, entry, b2),
    ensures
        forall|a: int| is_start(b1, a) ==> is_start(b2, a),
{
    assert forall|a: int| is_start(b1, a) implies is_start(b2, a) by {
        let i = choose|i: int| 0 <= i < b1.len() && #[trigger] b1[i].start == a;
        assert(b1[i].start < mem.len());
        assert(start_justified(mem, dec, entry, b1, b1[i].start));
        if b1[i].start != entry {
            let j = choose|j: int|
                0 <= j < b1.len() && match #[trigger] scan(mem, dec, b1[j].start) {
                    ScanEnd::Control { addr, ins, decoded } => successors(addr, ins, decoded).contains(b1[i].start),
                    _ => false,
                };
            assert(reachable(mem, dec, entry, b1[j].start));
            lemma_reachable_on_scans(mem, dec, entry, b2, b1[j].start);
            let t = choose|t: int| 0 <= t < b2.len() && scan(mem, dec, #[trigger] b2[t].start) == scan(mem, dec, b1[j].start);
            assert(successors_started(mem, dec, b2, b2[t]));
            match scan(mem, dec, b2[t].start) {
                ScanEnd::Control { addr, ins, decoded } => {
                    let succ = successors(addr, ins, decoded);
                    let m = choose|m: int| 0 <= m < succ.len() && succ[m] == b1[i].start;
                    assert(is_start(b2, succ[m] as int));
                },
                _ => {},
            }
        }
    }
}

/// Two strictly sorted lists that hold the same blocks are equal.
proof fn lemma_sorted_same_blocks(b1: Seq<Block>, b2: Seq<Block>)
    requires
        sorted_by_start(b1),
        sorted_by_start(b2),
        forall|x: Block| b1.contains(x) <==> b2.contains(x),
    ensures
        b1 == b2,
    decreases b1.len() + b2.len(),
{
    if b1.len() == 0 || b2.len() == 0 {
        if b1.len() > 0 {
            assert(b1.contains(b1[0]));
        }
        if b2.len() > 0 {
            assert(b2.contains(b2[0]));
        }
        assert(b1 =~= b2);
    } else {
        // The first blocks are the ones with the least start.
        assert(b1.contains(b1[0]));
        assert(b2.contains(b2[0]));
        let i = choose|i: int| 0 <= i < b2.len() && b2[i] == b1[0];
        let j = choose|j: int| 0 <= j < b1.len() && b1[j] == b2[0];
        if i > 0 {
            assert(b2[0].start < b2[i].start);
            assert(j > 0 ==> b1[0].start < b1[j].start);
        }
        assert(b1[0] == b2[0]);
        let t1 = b1.subrange(1, b1.len() as int);
        let t2 = b2.subrange(1, b2.len() as int);
        assert forall|x: Block| t1.contains(x) <==> t2.contains(x) by {
            if t1.contains(x) {
                let k = choose|k: int| 0 <= k < t1.len() && t1[k] == x;
                assert(b1[k + 1] == x);
                assert(b1[0].start < x.start);
                assert(b1.contains(x));
                let m = choose|m: int| 0 <= m < b2.len() && b2[m] == x;
                assert(m != 0);
                assert(t2[m - 1] == x);
            }
            if t2.contains(x) {
                let k = choose|k: int| 0 <= k < t2.len() && t2[k] == x;
                assert(b2[k + 1] == x);
                assert(b2[0].start < x.start);
                assert(b2.contains(x));
                let m = choose|m: int| 0 <= m < b1.len() && b1[m] == x;
                assert(m != 0);
                assert(t1[m - 1] == x);
            }
        }
        lemma_sorted_same_blocks(t1, t2);
        assert(b1 =~= seq![b1[0]] + t1);
        assert(b2 =~= seq![b2[0]] + t2);
    }
}

/// Discovery has one outcome: two lists that both are what discovery from
/// `entry` returns are equal. So the contract of `find_blocks` fixes its
/// result.
pub proof fn lemma_discovered_unique(mem: Seq<u8>, dec: Seq<Decoded>, entry: Address, b1: Seq<Block>, b2: Seq<Block>)
    requires
        discovered(mem, dec, entry, b1),
        discovered(mem, dec, entry, b2),
    ensures
        b1 == b2,
{
    lemma_starts_included(mem, dec, entry, b1, b2);
    lemma_starts_included(mem, dec, entry, b2, b1);
    assert forall|x: Block| b1.contains(x) implies b2.contains(x) by {
        lemma_same_start_same_block(mem, dec, entry, b1, b2, x);
    }
    assert forall|x: Block| b2.contains(x) implies b1.contains(x) by {
        lemma_same_start_same_block(mem, dec, entry, b2, b1, x);
    }
    lemma_sorted_same_blocks(b1, b2);
}

/// A block of one discovered list is a block of another with the same starts.
proof fn lemma_same_start_same_block(mem: Seq<u8>, dec: Seq<Decoded>, entry: Address, b1: Seq<Block>, b2: Seq<Block>, x: Block)
    requires
        discovered(mem, dec, entry, b1),
        discovered(mem, dec, entry, b2),
        forall|a: int| is_start(b1, a) ==> is_start(b2, a),
        forall|a: int| is_start(b2, a) ==> is_start(b1, a),
        b1.contains(x),
    ensures
        b2.contains(x),
{
    let i = choose|i: int| 0 <= i < b1.len() && b1[i] == x;
    assert(is_start(b1, x.start as int));
    let j = choose|j: int| 0 <= j < b2.len() && #[trigger] b2[j].start == x.start;
    let y = b2[j];
    assert(ends_right(mem, dec, b1, b1[i]));
    assert(ends_right(mem, dec, b2, b2[j]));
    let e = natural_end(scan(mem, dec, x.start));
    if x.end < y.end {
        if x.end != e {
            assert(is_start(b1, x.end as int));
            assert(is_start(b2, x.end as int));
            let k = choose|k: int| 0 <= k < b2.len() && #[trigger] b2[k].start == x.end as int;
            assert(!(y.start < b2[k].start < y.end));
        }
    } else if y.end < x.end {
        if y.end != e {
            assert(is_start(b2, y.end as int));
            assert(is_start(b1, y.end as int));
            let k = choose|k: int| 0 <= k < b1.len() && #[trigger] b1[k].start == y.end as int;
            assert(!(x.start < b1[k].start < x.end));
        }
    }
    assert(x == y);
}

/// Where discovery succeeds, no instruction on a static control-flow path from
/// the entry fails to be read: the scan from every reachable address inside the
/// image ends without a failure.
pub proof fn lemma_discovered_reads_all_reachable(mem: Seq<u8>, dec: Seq<Decoded>, entry: Address, bs: Seq<Block>, x: Address)
    requires
        discovered(mem, dec, entry, bs),
        reachable(mem, dec, entry, x),
        x < mem.len(),
    ensures
        !(scan(mem, dec, x) is Failed),
{
    lemma_reachable_on_scans(mem, dec, entry, bs, x);
    let j = choose|j: int| 0 <= j < bs.len() && scan(mem, dec, #[trigger] bs[j].start) == scan(mem, dec, x);
    assert(successors_started(mem, dec, bs, bs[j]));
}

} // verus!
