//! Where allocations are placed while a program runs: with the driver, or inside a
//! capture arena. Memory that is given back is parked until the stream has drained.

use vstd::prelude::*;

use crate::error::{check, AclError};

verus! {

/// Alignment of the allocations inside an arena.
pub const ARENA_ALIGN: usize = 512;

/// An address: a driver allocation and a byte offset into it.
#[derive(Debug, Clone, Copy, PartialEq, Eq, Structural)]
pub struct Place {
    pub owner: usize,
    pub offset: usize,
}

/// An allocation that has been placed.
#[derive(Debug, Clone, Copy, PartialEq, Eq, Structural)]
pub struct Block {
    pub place: Place,
    pub len: usize,
    /// Whether giving the block back frees the driver allocation. A block inside
    /// an arena is a slice of memory that the arena's holder frees.
    pub owned: bool,
}

/// An active capture arena: allocations are cut from one driver allocation, front
/// to back, so that their addresses stay valid for as long as it does.
#[derive(Debug, Clone, Copy, PartialEq, Eq, Structural)]
pub struct Arena {
    pub owner: usize,
    pub cap: usize,
    pub off: usize,
}

/// The first multiple of the arena alignment that is not below `off`.
pub open spec fn aligned(off: int) -> int {
    (off + ARENA_ALIGN - 1) / (ARENA_ALIGN as int) * ARENA_ALIGN
}

pub proof fn lemma_aligned(off: int)
    requires
        off >= 0,
    ensures
        off <= aligned(off) < off + ARENA_ALIGN,
        aligned(off) % 512 == 0,
        aligned(off) % (ARENA_ALIGN as int) == 0,
{
}

/// The block that an arena grants next for `len` bytes, where it is not exhausted.
pub open spec fn granted(arena: Arena, len: usize) -> Option<Block> {
    let start = aligned(arena.off as int);
    if start + len <= arena.cap {
        Some(
            Block {
                place: Place { owner: arena.owner, offset: start as usize },
                len,
                owned: false,
            },
        )
    } else {
        None
    }
}

/// A request is refused only where no aligned place behind what was granted before has
/// room for it, and else is granted the first such place.
pub proof fn lemma_first_fit(arena: Arena, len: usize, at: int)
    requires
        arena.wf(),
        arena.off <= at,
        at % (ARENA_ALIGN as int) == 0,
        at + len <= arena.cap,
    ensures
        granted(arena, len) matches Some(b) && b.len == len && b.place.offset <= at,
{
    lemma_aligned(arena.off as int);
    assert(aligned(arena.off as int) <= at) by {
        let q = at / (ARENA_ALIGN as int);
        let p = aligned(arena.off as int) / (ARENA_ALIGN as int);
        assert(at == q * ARENA_ALIGN);
    }
}

/// The arena after granting a block.
pub open spec fn advanced(arena: Arena, block: Block) -> Arena {
    Arena { off: (block.place.offset + block.len) as usize, ..arena }
}

impl Arena {
    /// What has been granted lies inside the arena, and offsets can be rounded up.
    pub open spec fn wf(self) -> bool {
        self.off <= self.cap && self.cap + ARENA_ALIGN <= usize::MAX
    }

    /// Grant `len` bytes.
    pub fn grant(&mut self, len: usize) -> (block: Option<Block>)
        requires
            old(self).wf(),
        ensures
            final(self).wf(),
            block == granted(*old(self), len),
            match block {
                Some(b) => *final(self) == advanced(*old(self), b),
                None => *final(self) == *old(self),
            },
    {
        proof {
            lemma_aligned(self.off as int);
        }
        let start: usize = (self.off + ARENA_ALIGN - 1) / ARENA_ALIGN * ARENA_ALIGN;
        let end: usize = match start.checked_add(len) {
            Some(end) => end,
            None => {
                return None;
            },
        };
        if end > self.cap {
            return None;
        }
        self.off = end;
        Some(Block { place: Place { owner: self.owner, offset: start }, len, owned: false })
    }
}

/// The error of an allocation that an arena has no room for.
pub open spec fn exhausted() -> AclError {
    AclError { code: (-1) as i32, op: "capture arena exhausted (grow enter_arena size)" }
}

/// What a request for memory comes to.
#[derive(Debug, Clone, Copy)]
pub enum Grant {
    /// Granted from the arena.
    Arena(Block),
    /// To be asked of the driver.
    Driver,
    Refused(AclError),
}

/// The arena, where one is active, and the driver allocations that have been given
/// back but not freed.
#[derive(Debug)]
pub struct Heap {
    pub arena: Option<Arena>,
    pub pending: Vec<usize>,
}

impl Heap {
    pub open spec fn wf(&self) -> bool {
        self.arena matches Some(a) ==> a.wf()
    }

    /// No arena, nothing given back.
    pub fn new() -> (heap: Heap)
        ensures
            heap.wf(),
            heap.arena is None,
            heap.pending@ == Seq::<usize>::empty(),
    {
        Heap { arena: None, pending: Vec::new() }
    }

    /// Ask for `len` bytes: from the arena while one is active, else from the
    /// driver.
    pub fn malloc(&mut self, len: usize) -> (grant: Grant)
        requires
            old(self).wf(),
        ensures
            final(self).wf(),
            final(self).pending@ == old(self).pending@,
            match old(self).arena {
                None => grant == Grant::Driver && final(self).arena is None,
                Some(a) => match granted(a, len) {
                    Some(b) => grant == Grant::Arena(b) && final(self).arena == Some(
                        advanced(a, b),
                    ),
                    None => grant == Grant::Refused(exhausted()) && final(self).arena == Some(a),
                },
            },
    {
        match self.arena {
            None => Grant::Driver,
            Some(a) => {
                let mut arena = a;
                match arena.grant(len) {
                    Some(b) => {
                        self.arena = Some(arena);
                        Grant::Arena(b)
                    },
                    None => Grant::Refused(
                        AclError {
                            code: -1,
                            op: "capture arena exhausted (grow enter_arena size)",
                        },
                    ),
                }
            },
        }
    }

    /// Start cutting allocations from one driver allocation of `bytes` bytes, whose
    /// code and address the driver gave. The caller keeps the block that is handed
    /// back: everything that is granted until the arena is left is a slice of it.
    pub fn enter_arena(&mut self, bytes: usize, code: i32, address: usize) -> (r: Result<
        Block,
        AclError,
    >)
        requires
            old(self).wf(),
            bytes + ARENA_ALIGN <= usize::MAX,
        ensures
            final(self).wf(),
            final(self).pending@ == old(self).pending@,
            r == driver_block(bytes, code, address),
            match r {
                Ok(b) => final(self).arena == Some(Arena { owner: address, cap: bytes, off: 0 }),
                Err(e) => final(self).arena == old(self).arena,
            },
    {
        match check(code, "aclrtMalloc") {
            Ok(_) => {
                self.arena = Some(Arena { owner: address, cap: bytes, off: 0 });
                Ok(Block { place: Place { owner: address, offset: 0 }, len: bytes, owned: true })
            },
            Err(e) => Err(e),
        }
    }

    /// Leave the arena, and say how many of its bytes are in use. The driver is asked
    /// for memory again from now on.
    pub fn exit_arena(&mut self) -> (used: usize)
        ensures
            final(self).wf(),
            final(self).arena is None,
            final(self).pending@ == old(self).pending@,
            used == consumed(old(self).arena),
    {
        let used: usize = match self.arena {
            Some(a) => a.off,
            None => 0,
        };
        self.clear_arena();
        used
    }

    /// Drop the arena without asking what it came to.
    pub fn clear_arena(&mut self)
        ensures
            final(self).wf(),
            final(self).arena is None,
            final(self).pending@ == old(self).pending@,
    {
        self.arena = None;
    }

    /// Give a block back. The driver allocation of an owned block is parked; freeing
    /// it has to wait until the stream has drained, because kernels that are still
    /// queued may touch it.
    pub fn release(&mut self, block: Block)
        requires
            old(self).wf(),
        ensures
            final(self).wf(),
            final(self).arena == old(self).arena,
            final(self).pending@ == parked(old(self).pending@, block),
    {
        if block.owned && block.place.owner != 0 {
            self.pending.push(block.place.owner);
        }
    }

    /// Everything that has been given back, to be freed now that the stream has
    /// drained.
    pub fn flush_pending_frees(&mut self) -> (addresses: Vec<usize>)
        requires
            old(self).wf(),
        ensures
            final(self).wf(),
            final(self).arena == old(self).arena,
            addresses@ == old(self).pending@,
            final(self).pending@ == Seq::<usize>::empty(),
    {
        let mut addresses: Vec<usize> = Vec::new();
        addresses.append(&mut self.pending);
        assert(addresses@ =~= old(self).pending@);
        addresses
    }
}

/// How many bytes of the arena are in use, where one is active.
pub open spec fn consumed(arena: Option<Arena>) -> usize {
    match arena {
        Some(a) => a.off,
        None => 0,
    }
}

/// The driver allocations that wait to be freed after giving `block` back.
pub open spec fn parked(pending: Seq<usize>, block: Block) -> Seq<usize> {
    if block.owned && block.place.owner != 0 {
        pending.push(block.place.owner)
    } else {
        pending
    }
}

/// What the driver's answer to a request for `len` bytes comes to.
pub open spec fn driver_block(len: usize, code: i32, address: usize) -> Result<Block, AclError> {
    if code == 0 {
        Ok(Block { place: Place { owner: address, offset: 0 }, len, owned: true })
    } else {
        Err(AclError { code, op: "aclrtMalloc" })
    }
}

/// Take the driver's answer to a request for `len` bytes.
pub fn place_block(len: usize, code: i32, address: usize) -> (r: Result<Block, AclError>)
    ensures
        r == driver_block(len, code, address),
{
    match check(code, "aclrtMalloc") {
        Ok(_) => Ok(Block { place: Place { owner: address, offset: 0 }, len, owned: true }),
        Err(e) => Err(e),
    }
}

/// The arena after granting blocks of these sizes in turn, and the blocks. Sizes
/// that it has no room for are passed over.
pub open spec fn bump(arena: Arena, lens: Seq<usize>) -> (Arena, Seq<Block>)
    decreases lens.len(),
{
    if lens.len() == 0 {
        (arena, seq![])
    } else {
        let (before, blocks) = bump(arena, lens.drop_last());
        match granted(before, lens.last()) {
            Some(b) => (advanced(before, b), blocks.push(b)),
            None => (before, blocks),
        }
    }
}

/// Two blocks share no byte.
pub open spec fn disjoint(a: Block, b: Block) -> bool {
    ||| a.place.owner != b.place.owner
    ||| a.place.offset + a.len <= b.place.offset
    ||| b.place.offset + b.len <= a.place.offset
}

/// Whatever is asked of an arena, the blocks that it grants are aligned, lie inside
/// it, behind what was granted before, and share no byte.
pub proof fn lemma_arena(arena: Arena, lens: Seq<usize>)
    requires
        arena.wf(),
    ensures
        ({
            let (after, blocks) = bump(arena, lens);
            &&& after.wf()
            &&& after.owner == arena.owner
            &&& after.cap == arena.cap
            &&& arena.off <= after.off
            &&& forall|i: int|
                0 <= i < blocks.len() ==> {
                    let b = #[trigger] blocks[i];
                    &&& b.place.owner == arena.owner
                    &&& b.place.offset % ARENA_ALIGN == 0
                    &&& arena.off <= b.place.offset
                    &&& b.place.offset + b.len <= after.off <= arena.cap
                    &&& !b.owned
                }
            &&& forall|i: int, j: int|
                0 <= i < j < blocks.len() ==> disjoint(#[trigger] blocks[i], #[trigger] blocks[j])
        }),
    decreases lens.len(),
{
    if lens.len() > 0 {
        lemma_arena(arena, lens.drop_last());
        let (before, blocks) = bump(arena, lens.drop_last());
        lemma_aligned(before.off as int);
    }
}

} // verus!
