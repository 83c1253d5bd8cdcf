//! A chain of blocks, each naming the one before it.

use vstd::prelude::*;
use crate::text::{append_chars, chars_of, decimal, literal, push_decimal, string_of};

verus! {

/// A block: its place in the chain, its payload, and the hash of its
/// predecessor.
#[derive(Debug)]
pub struct Block {
    pub index: usize,
    pub payload: String,
    pub previous_hash: String,
}

impl Block {
    pub fn new(index: usize, payload: &str, previous_hash: &str) -> (b: Block)
        ensures
            b.index == index,
            b.payload@ == payload@,
            b.previous_hash@ == previous_hash@,
    {
        Block { index, payload: literal(payload), previous_hash: literal(previous_hash) }
    }
}

/// The hash that a block records of the block before it: the predecessor's
/// index and payload joined by a colon.
pub open spec fn link_hash(b: Block) -> Seq<char> {
    decimal(b.index as nat) + seq![':'] + b.payload@
}

/// Every block sits at its own index; the first records the hash `0` and
/// every other one the link hash of its predecessor.
pub open spec fn is_linked(blocks: Seq<Block>) -> bool {
    forall|i: int|
        0 <= i < blocks.len() ==> {
            &&& (#[trigger] blocks[i]).index == i
            &&& i == 0 ==> blocks[i].previous_hash@ == seq!['0']
            &&& i > 0 ==> blocks[i].previous_hash@ == link_hash(blocks[i - 1])
        }
}

/// A list of blocks; `new` starts it with a genesis block.
#[derive(Debug)]
pub struct Blockchain {
    blocks: Vec<Block>,
}

impl View for Blockchain {
    type V = Seq<Block>;

    closed spec fn view(&self) -> Seq<Block> {
        self.blocks@
    }
}

impl Default for Blockchain {
    /// An empty chain, without a genesis block.
    fn default() -> (c: Blockchain)
        ensures
            c@.len() == 0,
    {
        Blockchain { blocks: Vec::new() }
    }
}

impl Blockchain {
    /// A chain holding the genesis block: index 0, payload `genesis`,
    /// previous hash `0`.
    pub fn new() -> (c: Blockchain)
        ensures
            c@.len() == 1,
            c@[0].index == 0,
            c@[0].payload@ == "genesis"@,
            c@[0].previous_hash@ == "0"@,
            is_linked(c@),
    {
        let genesis = Block::new(0, "genesis", "0");
        let mut blocks = Vec::new();
        blocks.push(genesis);
        proof {
            reveal_strlit("0");
        }
        assert(blocks@[0].previous_hash@ =~= seq!['0']);
        Blockchain { blocks }
    }

    pub fn len(&self) -> (n: usize)
        ensures
            n == self@.len(),
    {
        self.blocks.len()
    }

    pub fn is_empty(&self) -> (b: bool)
        ensures
            b == (self@.len() == 0),
    {
        self.blocks.len() == 0
    }

    /// The last block, if any.
    pub fn latest(&self) -> (b: Option<&Block>)
        ensures
            self@.len() == 0 ==> b is None,
            self@.len() > 0 ==> b == Some(&self@[self@.len() - 1]),
    {
        if self.blocks.len() == 0 {
            None
        } else {
            Some(&self.blocks[self.blocks.len() - 1])
        }
    }

    /// Appends a block with the next index and the given payload, recording
    /// the link hash of the previous last block (or `0` on an empty chain),
    /// and returns the new block. A linked chain stays linked.
    pub fn add_block(&mut self, payload: &str) -> (b: &Block)
        requires
            old(self)@.len() < usize::MAX,
        ensures
            final(self)@.len() == old(self)@.len() + 1,
            forall|i: int| 0 <= i < old(self)@.len() ==> final(self)@[i] == old(self)@[i],
            *b == final(self)@[old(self)@.len() as int],
            b.index == old(self)@.len(),
            b.payload@ == payload@,
            old(self)@.len() == 0 ==> b.previous_hash@ == seq!['0'],
            old(self)@.len() > 0 ==> b.previous_hash@ == link_hash(old(self)@[old(self)@.len() - 1]),
            is_linked(old(self)@) ==> is_linked(final(self)@),
    {
        let mut hash: Vec<char> = Vec::new();
        let n = self.blocks.len();
        if n == 0 {
            hash.push('0');
        } else {
            let last = &self.blocks[n - 1];
            push_decimal(&mut hash, last.index as u64);
            hash.push(':');
            let payload_chars = chars_of(last.payload.as_str());
            append_chars(&mut hash, &payload_chars);
        }
        assert(n == 0 ==> hash@ =~= seq!['0']);
        assert(n > 0 ==> hash@ =~= link_hash(self@[n - 1]));
        let block = Block { index: n, payload: literal(payload), previous_hash: string_of(&hash) };
        self.blocks.push(block);
        &self.blocks[n]
    }

    /// The blocks from the first to the last.
    pub fn iter(&self) -> (s: &[Block])
        ensures
            s@ == self@,
    {
        self.blocks.as_slice()
    }
}

} // verus!
