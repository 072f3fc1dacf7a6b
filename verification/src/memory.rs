use vstd::prelude::*;

verus! {

/// Identifies one block of a `FixedBlockAllocator` by its position.
#[derive(Clone, Copy, Debug, PartialEq, Eq, Structural)]
pub struct BlockPtr(pub usize);

/// The plain values a block allocator holds: which blocks are handed out
/// and each block's bytes.
pub struct AllocatorView {
    pub used: Seq<bool>,
    pub blocks: Seq<Seq<u8>>,
}

/// Number of blocks of `used` not handed out.
pub open spec fn free_count(used: Seq<bool>) -> nat
    decreases used.len(),
{
    if used.len() == 0 {
        0
    } else {
        free_count(used.drop_last()) + if used.last() { 0nat } else { 1nat }
    }
}

/// `i` is the lowest block not handed out.
pub open spec fn is_first_free(used: Seq<bool>, i: int) -> bool {
    &&& 0 <= i < used.len()
    &&& !used[i]
    &&& forall|j: int| 0 <= j < i ==> used[j]
}

/// Handing out a free block lowers the free count by one; taking one back
/// raises it by one.
pub proof fn lemma_free_count_update(used: Seq<bool>, i: int, b: bool)
    requires
        0 <= i < used.len(),
    ensures
        free_count(used.update(i, b)) + (if used[i] { 0int } else { 1int }) == free_count(used) + (if b { 0int } else { 1int }),
    decreases used.len(),
{
    let u = used.update(i, b);
    if i == used.len() - 1 {
        assert(u.drop_last() =~= used.drop_last());
    } else {
        lemma_free_count_update(used.drop_last(), i, b);
        assert(u.drop_last() =~= used.drop_last().update(i, b));
    }
}

/// A block is handed out once until it is freed: after `alloc_block` hands
/// out block `i` no later pick is `i`; freeing `i` restores the flags, and
/// the next pick is `i` again.
pub proof fn lemma_alloc_free_roundtrip(used: Seq<bool>, i: int)
    requires
        is_first_free(used, i),
    ensures
        forall|j: int| #[trigger] is_first_free(used.update(i, true), j) ==> j != i,
        used.update(i, true).update(i, false) == used,
        is_first_free(used.update(i, true).update(i, false), i),
        free_count(used.update(i, true).update(i, false)) == free_count(used),
{
    assert(used.update(i, true).update(i, false) =~= used);
}

/// The free count never exceeds the number of blocks.
pub proof fn lemma_free_count_bounded(used: Seq<bool>)
    ensures
        free_count(used) <= used.len(),
    decreases used.len(),
{
    if used.len() > 0 {
        lemma_free_count_bounded(used.drop_last());
    }
}

/// A block of `n` zero bytes.
pub open spec fn zero_block(n: nat) -> Seq<u8> {
    Seq::new(n, |j: int| 0u8)
}

/// Every block that is not handed out holds only zero bytes.
pub open spec fn free_blocks_zeroed(v: AllocatorView) -> bool {
    forall|i: int| 0 <= i < v.used.len() && !v.used[i] ==> #[trigger] v.blocks[i] == zero_block(v.blocks[i].len())
}

/// `BLOCK_COUNT` blocks of `BLOCK_SIZE` bytes handed out one at a time,
/// lowest free block first, with deterministic time and no heap.
pub struct FixedBlockAllocator<const BLOCK_SIZE: usize, const BLOCK_COUNT: usize> {
    blocks: [[u8; BLOCK_SIZE]; BLOCK_COUNT],
    used: [bool; BLOCK_COUNT],
}

impl<const BLOCK_SIZE: usize, const BLOCK_COUNT: usize> View for FixedBlockAllocator<BLOCK_SIZE, BLOCK_COUNT> {
    type V = AllocatorView;

    closed spec fn view(&self) -> AllocatorView {
        AllocatorView { used: self.used@, blocks: Seq::new(BLOCK_COUNT as nat, |i: int| self.blocks@[i]@) }
    }
}

impl<const BLOCK_SIZE: usize, const BLOCK_COUNT: usize> FixedBlockAllocator<BLOCK_SIZE, BLOCK_COUNT> {
    /// There is one flag and one block of `BLOCK_SIZE` bytes per block.
    pub proof fn lemma_shape(&self)
        ensures
            self@.used.len() == BLOCK_COUNT,
            self@.blocks.len() == BLOCK_COUNT,
            forall|i: int| 0 <= i < BLOCK_COUNT ==> (#[trigger] self@.blocks[i]).len() == BLOCK_SIZE,
    {
    }

    /// The allocator's invariant: blocks not in use are zero (a block is
    /// zeroed when it is freed, and only blocks in use are written).
    pub open spec fn wf(&self) -> bool {
        free_blocks_zeroed(self@)
    }

    /// Every block free and zeroed.
    pub fn new() -> (r: Self)
        ensures
            r.wf(),
            r@.used == Seq::new(BLOCK_COUNT as nat, |i: int| false),
            r@.blocks == Seq::new(BLOCK_COUNT as nat, |i: int| Seq::new(BLOCK_SIZE as nat, |j: int| 0u8)),
    {
        let r = FixedBlockAllocator { blocks: [[0u8; BLOCK_SIZE]; BLOCK_COUNT], used: [false; BLOCK_COUNT] };
        assert(r@.used =~= Seq::new(BLOCK_COUNT as nat, |i: int| false));
        assert forall|i: int| 0 <= i < BLOCK_COUNT implies #[trigger] r@.blocks[i] =~= Seq::new(BLOCK_SIZE as nat, |j: int| 0u8) by {}
        assert(r@.blocks =~= Seq::new(BLOCK_COUNT as nat, |i: int| Seq::new(BLOCK_SIZE as nat, |j: int| 0u8)));
        r
    }

    /// Bytes per block.
    pub fn block_size(&self) -> (r: usize)
        ensures
            r == BLOCK_SIZE,
    {
        BLOCK_SIZE
    }

    /// Number of blocks.
    pub fn block_capacity(&self) -> (r: usize)
        ensures
            r == BLOCK_COUNT,
    {
        BLOCK_COUNT
    }

    /// Number of blocks not handed out.
    pub fn available_blocks(&self) -> (r: usize)
        ensures
            r == free_count(self@.used),
    {
        let mut count: usize = 0;
        let mut index: usize = 0;
        while index < BLOCK_COUNT
            invariant
                index <= BLOCK_COUNT,
                self@.used.len() == BLOCK_COUNT,
                count == free_count(self@.used.take(index as int)),
                count <= index,
            decreases BLOCK_COUNT - index,
        {
            assert(self@.used.take(index as int + 1).drop_last() =~= self@.used.take(index as int));
            if !self.used[index] {
                count = count + 1;
            }
            index = index + 1;
        }
        assert(self@.used.take(BLOCK_COUNT as int) =~= self@.used);
        count
    }

    /// Hands out the lowest free block; none when every block is in use.
    /// The block handed out holds only zero bytes.
    pub fn alloc_block(&mut self) -> (r: Option<BlockPtr>)
        requires
            old(self).wf(),
        ensures
            final(self).wf(),
            final(self)@.blocks == old(self)@.blocks,
            r matches Some(p) ==> final(self)@.blocks[p.0 as int] == zero_block(BLOCK_SIZE as nat),
            (forall|i: int| 0 <= i < BLOCK_COUNT ==> old(self)@.used[i]) ==> r is None && final(self)@ == old(self)@,
            r matches Some(p) ==> is_first_free(old(self)@.used, p.0 as int) && final(self)@.used == old(self)@.used.update(
                p.0 as int,
                true,
            ),
            r is Some ==> free_count(final(self)@.used) + 1 == free_count(old(self)@.used),
            r is None ==> forall|i: int| 0 <= i < BLOCK_COUNT ==> old(self)@.used[i],
    {
        let mut index: usize = 0;
        while index < BLOCK_COUNT
            invariant
                index <= BLOCK_COUNT,
                self@ == old(self)@,
                free_blocks_zeroed(old(self)@),
                self@.used.len() == BLOCK_COUNT,
                forall|j: int| 0 <= j < index ==> self@.used[j],
            decreases BLOCK_COUNT - index,
        {
            if !self.used[index] {
                self.used[index] = true;
                proof {
                    lemma_free_count_update(old(self)@.used, index as int, true);
                    assert(self@.blocks =~= old(self)@.blocks);
                    assert(!old(self)@.used[index as int]);
                    assert(old(self)@.blocks[index as int] == zero_block(old(self)@.blocks[index as int].len()));
                    assert(old(self)@.blocks[index as int].len() == BLOCK_SIZE);
                    assert forall|i: int| 0 <= i < self@.used.len() && !self@.used[i] implies #[trigger] self@.blocks[i] == zero_block(self@.blocks[i].len()) by {
                        assert(!old(self)@.used[i]);
                    }
                }
                return Some(BlockPtr(index));
            }
            index = index + 1;
        }
        None
    }

    /// Takes back the block `ptr`, zeroing it; false, changing nothing, when
    /// `ptr` is not a block of this allocator or the block is not in use.
    pub fn free(&mut self, ptr: BlockPtr) -> (r: bool)
        requires
            old(self).wf(),
        ensures
            final(self).wf(),
            r == (ptr.0 < BLOCK_COUNT && old(self)@.used[ptr.0 as int]),
            r ==> final(self)@.used == old(self)@.used.update(ptr.0 as int, false) && final(self)@.blocks == old(
                self,
            )@.blocks.update(ptr.0 as int, Seq::new(BLOCK_SIZE as nat, |j: int| 0u8)),
            r ==> free_count(final(self)@.used) == free_count(old(self)@.used) + 1,
            !r ==> final(self)@ == old(self)@,
    {
        let index = ptr.0;
        if index >= BLOCK_COUNT {
            return false;
        }
        if !self.used[index] {
            return false;
        }
        self.used[index] = false;
        self.blocks[index] = [0u8; BLOCK_SIZE];
        proof {
            lemma_free_count_update(old(self)@.used, index as int, false);
            assert(self.blocks@[index as int]@ =~= Seq::new(BLOCK_SIZE as nat, |j: int| 0u8));
            assert(self@.blocks =~= old(self)@.blocks.update(index as int, Seq::new(BLOCK_SIZE as nat, |j: int| 0u8)));
        }
        true
    }

    /// The position of block `ptr`; none when it is not a block of this allocator.
    pub fn block_index(&self, ptr: BlockPtr) -> (r: Option<usize>)
        ensures
            r == if ptr.0 < BLOCK_COUNT { Some(ptr.0) } else { None::<usize> },
    {
        if ptr.0 < BLOCK_COUNT {
            Some(ptr.0)
        } else {
            None
        }
    }

    /// The bytes of block `ptr`.
    pub fn block_data(&self, ptr: BlockPtr) -> (r: &[u8; BLOCK_SIZE])
        requires
            ptr.0 < BLOCK_COUNT,
        ensures
            r@ == self@.blocks[ptr.0 as int],
    {
        &self.blocks[ptr.0]
    }

    /// Writes `value` at `offset` in block `ptr`, which must be in use.
    pub fn write_byte(&mut self, ptr: BlockPtr, offset: usize, value: u8)
        requires
            old(self).wf(),
            ptr.0 < BLOCK_COUNT,
            old(self)@.used[ptr.0 as int],
            offset < BLOCK_SIZE,
        ensures
            final(self).wf(),
            final(self)@.used == old(self)@.used,
            final(self)@.blocks == old(self)@.blocks.update(
                ptr.0 as int,
                old(self)@.blocks[ptr.0 as int].update(offset as int, value),
            ),
    {
        self.blocks[ptr.0][offset] = value;
        proof {
            assert(self@.blocks =~= old(self)@.blocks.update(
                ptr.0 as int,
                old(self)@.blocks[ptr.0 as int].update(offset as int, value),
            ));
        }
    }
}

} // verus!
