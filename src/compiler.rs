use vstd::prelude::*;
use std::collections::HashMap;

use crate::block_finder::Block;
use crate::block_writer::block_symbol;
use crate::hex::push_hex8;
use crate::read_instruction::Address;

verus! {

broadcast use vstd::std_specs::hash::group_hash_axioms;

/// The exported name of the function generated for `block`.
pub fn symbol_name(block: &Block) -> (s: String)
    ensures
        s@ == block_symbol(*block),
{
    let mut s = String::from_str("block_");
    push_hex8(&mut s, block.start);
    s.append("_");
    push_hex8(&mut s, block.end);
    s
}

/// The start address and the exported name of the function generated for
/// each block, in order.
pub fn block_symbols(blocks: &Vec<Block>) -> (r: Vec<(Address, String)>)
    ensures
        r@.len() == blocks@.len(),
        forall|i: int|
            0 <= i < r@.len() ==> #[trigger] r@[i].0 == blocks@[i].start && r@[i].1@ == block_symbol(blocks@[i]),
{
    let mut r: Vec<(Address, String)> = Vec::new();
    let mut i: usize = 0;
    while i < blocks.len()
        invariant
            i <= blocks@.len(),
            r@.len() == i,
            forall|j: int|
                0 <= j < i ==> #[trigger] r@[j].0 == blocks@[j].start && r@[j].1@ == block_symbol(blocks@[j]),
        decreases blocks@.len() - i,
    {
        let name = symbol_name(&blocks[i]);
        r.push((blocks[i].start, name));
        i = i + 1;
    }
    r
}

/// The arguments that make the compiler build `source` into a shared library
/// in the current directory: optimised, with symbols stripped, and linked
/// against the runtime library at `runtime`, which defines the CPU state.
pub fn compiler_args(source: &str, runtime: &str) -> (r: Vec<String>)
    ensures
        r@.len() == 10,
        r@[0]@ == "--edition=2021"@,
        r@[1]@ == "--crate-type"@,
        r@[2]@ == "cdylib"@,
        r@[3]@ == "--extern"@,
        r@[4]@ == "arviss="@ + runtime@,
        r@[5]@ == "-C"@,
        r@[6]@ == "opt-level=2"@,
        r@[7]@ == "-C"@,
        r@[8]@ == "strip=symbols"@,
        r@[9]@ == source@,
{
    let mut r: Vec<String> = Vec::new();
    r.push(String::from_str("--edition=2021"));
    r.push(String::from_str("--crate-type"));
    r.push(String::from_str("cdylib"));
    r.push(String::from_str("--extern"));
    let mut dep = String::from_str("arviss=");
    dep.append(runtime);
    r.push(dep);
    r.push(String::from_str("-C"));
    r.push(String::from_str("opt-level=2"));
    r.push(String::from_str("-C"));
    r.push(String::from_str("strip=symbols"));
    r.push(String::from_str(source));
    r
}

/// Maps the start address of each compiled block to its native entry point.
pub struct BlockMap<F> {
    map: HashMap<Address, F>,
}

impl<F> BlockMap<F> {
    /// The entry point of each block, by start address.
    pub closed spec fn entries(&self) -> Map<Address, F> {
        self.map@
    }

    pub fn new() -> (m: Self)
        ensures
            m.entries() == Map::<Address, F>::empty(),
    {
        Self { map: HashMap::new() }
    }

    /// Records `f` as the entry point of the block that starts at `addr`.
    pub fn insert(&mut self, addr: Address, f: F)
        ensures
            final(self).entries() == old(self).entries().insert(addr, f),
    {
        self.map.insert(addr, f);
    }

    /// The entry point of the block that starts at `addr`, if there is one.
    pub fn get(&self, addr: Address) -> (r: Option<&F>)
        ensures
            match r {
                Some(f) => self.entries().contains_key(addr) && self.entries()[addr] == *f,
                None => !self.entries().contains_key(addr),
            },
    {
        self.map.get(&addr)
    }
}

} // verus!
