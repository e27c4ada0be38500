//! The size-class strategy: small requests are served from lists of blocks
//! of a few fixed sizes, large ones by the free-list strategy.

use stored::{
    block_bytes, lemma_blocks_apart_from_regions, lemma_lists_block, lemma_lists_empty,
    lemma_lists_heads, lemma_lists_kept, lemma_lists_pop, lemma_lists_push, lists_stored,
};
use super::align::lemma_pow2_is_pow2;
use super::chain::{
    alloc_spec as chain_alloc_spec, dealloc_spec as chain_dealloc_spec, free_bytes, is_free,
    lemma_alloc_frees_nothing, lemma_allocated_block_leaves_chain, lemma_dealloc_frees_the_block,
    lemma_not_free_is_disjoint, lemma_size_align, not_free_in, regions_valid, size_align_spec,
    FreeRegion,
};
use super::heap::{HeapMemory, WORD_SIZE};
use super::{Allocator, Layout, NODE_ALIGN, NODE_SIZE};
use super::linked_list::LinkListAllocator;
use super::linked_list::stored::lemma_chain_regions;
use vstd::prelude::*;

pub mod stored;

verus! {

/// How many size classes there are.
pub const BLOCK_CLASSES: usize = 9;

/// The block sizes of the size classes, smallest first. Each is a power of
/// two, and a block is aligned to its own size.
pub const BLOCK_SIZES: [usize; BLOCK_CLASSES] = [8, 16, 32, 64, 128, 256, 512, 1024, 2048];

/// The block size of size class `index`.
pub fn block_size(index: usize) -> (size: usize)
    requires
        index < BLOCK_CLASSES,
    ensures
        size == BLOCK_SIZES[index as int],
{
    BLOCK_SIZES[index]
}

/// What a block must offer to serve `layout`: the larger of its size and
/// its alignment.
pub open spec fn required_block_size(layout: Layout) -> usize {
    if layout.size > layout.align {
        layout.size
    } else {
        layout.align
    }
}

/// The size class that serves `layout`: the first whose blocks offer what
/// the request needs. `None` if the request is larger than the largest
/// block.
pub open spec fn list_index_spec(layout: Layout) -> Option<int> {
    if required_block_size(layout) > BLOCK_SIZES[BLOCK_CLASSES - 1] {
        None
    } else {
        Some(
            choose|i: int|
                0 <= i < BLOCK_CLASSES && #[trigger] BLOCK_SIZES[i] >= required_block_size(layout)
                    && (i == 0 || BLOCK_SIZES[i - 1] < required_block_size(layout)),
        )
    }
}

/// The size class that serves `layout`, if there is one.
pub fn list_index(layout: &Layout) -> (index: Option<usize>)
    ensures
        match index {
            Some(i) => list_index_spec(*layout) == Some(i as int) && i < BLOCK_CLASSES,
            None => list_index_spec(*layout) is None,
        },
{
    let required = if layout.size() > layout.align() {
        layout.size()
    } else {
        layout.align()
    };
    let mut index: usize = 0;
    while index < BLOCK_CLASSES
        invariant
            index <= BLOCK_CLASSES,
            forall|j: int| 0 <= j < index ==> #[trigger] BLOCK_SIZES[j] < required,
            required == required_block_size(*layout),
        decreases BLOCK_CLASSES - index,
    {
        if block_size(index) >= required {
            proof {
                let found = index as int;
                let chosen = choose|i: int|
                    0 <= i < BLOCK_CLASSES && #[trigger] BLOCK_SIZES[i] >= required && (i == 0
                        || BLOCK_SIZES[i - 1] < required);
                assert(BLOCK_SIZES[found] >= required && (found == 0 || BLOCK_SIZES[found - 1]
                    < required));
                if chosen < found {
                    assert(BLOCK_SIZES[chosen] < required);
                }
                if chosen > found {
                    lemma_block_sizes_increase(found, chosen - 1);
                }
            }
            return Some(index);
        }
        index += 1;
    }
    None
}

/// Larger size classes have larger blocks.
proof fn lemma_block_sizes_increase(i: int, j: int)
    requires
        0 <= i <= j < BLOCK_CLASSES,
    ensures
        BLOCK_SIZES[i] <= BLOCK_SIZES[j],
{
}

/// The state of a size-class allocator.
pub struct BlockLists {
    /// For each size class the addresses of its free blocks. The last one
    /// is the next to be handed out.
    pub lists: Seq<Seq<usize>>,
    /// The free regions of the free-list strategy behind the size classes.
    pub fallback: Seq<FreeRegion>,
}

impl BlockLists {
    /// Whether the byte at `addr` is free: it belongs to a free block of
    /// a size class or to a free region behind them.
    pub open spec fn is_free(self, addr: int) -> bool {
        is_free(self.fallback, addr) || block_bytes(self.lists).contains(addr)
    }
}

/// The layout of one block of size class `index`.
pub open spec fn block_layout(index: int) -> Layout {
    Layout { size: BLOCK_SIZES[index], align: BLOCK_SIZES[index] }
}

/// The state after a request for `layout`, and the address of the block.
///
/// A request that a size class serves takes the free block that came back
/// last, or, if the class has none, has a block of the class's size and
/// alignment cut from the regions behind. Any other request goes to the
/// regions behind as it is.
pub open spec fn alloc_spec(state: BlockLists, layout: Layout) -> (BlockLists, Option<usize>) {
    match list_index_spec(layout) {
        Some(i) => {
            if state.lists[i].len() > 0 {
                (
                    BlockLists {
                        lists: state.lists.update(i, state.lists[i].drop_last()),
                        ..state
                    },
                    Some(state.lists[i].last()),
                )
            } else {
                let (fallback, addr) = chain_alloc_spec(state.fallback, block_layout(i));
                (BlockLists { fallback, ..state }, addr)
            }
        },
        None => {
            let (fallback, addr) = chain_alloc_spec(state.fallback, layout);
            (BlockLists { fallback, ..state }, addr)
        },
    }
}

/// The state after the block of `layout` at `addr` was returned: the
/// block joins the list of its size class, or, if no class serves
/// `layout`, the regions behind.
pub open spec fn dealloc_spec(state: BlockLists, addr: usize, layout: Layout) -> BlockLists {
    match list_index_spec(layout) {
        Some(i) => BlockLists { lists: state.lists.update(i, state.lists[i].push(addr)), ..state },
        None => BlockLists {
            fallback: chain_dealloc_spec(state.fallback, addr, layout),
            ..state
        },
    }
}

/// The size-class heap strategy.
///
/// The free blocks of each size class form a list of their own: the first
/// word of a free block holds the address of the next. Like the chain of
/// free regions behind them, the lists need no memory besides the heap.
pub struct FixedSizeBlockAllocator<'a> {
    list_heads: [usize; BLOCK_CLASSES],
    fallback_allocator: LinkListAllocator<'a>,
    lists: Ghost<Seq<Seq<usize>>>,
}

impl<'a> View for FixedSizeBlockAllocator<'a> {
    type V = BlockLists;

    closed spec fn view(&self) -> BlockLists {
        BlockLists { lists: self.lists@, fallback: self.fallback_allocator.free_regions() }
    }
}

impl<'a> FixedSizeBlockAllocator<'a> {
    /// The free-list strategy behind the size classes.
    pub closed spec fn fallback(&self) -> &LinkListAllocator<'a> {
        &self.fallback_allocator
    }

    /// The memory of the heap.
    pub open spec fn memory(&self) -> &HeapMemory<'a> {
        self.fallback().memory()
    }

    /// For each size class the address of the block that is handed out
    /// next, or zero.
    pub closed spec fn heads(&self) -> Seq<usize> {
        self.list_heads@
    }

    /// The memory of the heap holds the chain of the free regions and the
    /// lists of the free blocks.
    pub open spec fn wf(&self) -> bool {
        &&& self.fallback().wf()
        &&& self.fallback().free_regions() == self@.fallback
        &&& lists_stored(self.memory(), self.heads(), self@.lists, self@.fallback)
    }

    /// The block of `layout` at `addr` can be returned: it lies in the
    /// heap, is aligned as a block of its kind is, and none of its bytes
    /// is free.
    pub open spec fn accepts(&self, addr: usize, layout: Layout) -> bool {
        &&& addr != 0
        &&& forall|byte: int|
            addr <= byte < addr + reserved_size(layout) ==> !#[trigger] self@.is_free(byte)
        &&& self.memory().start() <= addr
        &&& addr + reserved_size(layout) <= self.memory().end()
        &&& match list_index_spec(layout) {
            Some(i) => addr as int % BLOCK_SIZES[i] as int == 0,
            None => addr as int % NODE_ALIGN as int == 0,
        }
    }

    /// An allocator without heap and without any free block or region.
    pub fn new() -> (allocator: Self)
        ensures
            allocator.wf(),
            allocator@.fallback == Seq::<FreeRegion>::empty(),
            allocator@.lists == Seq::new(BLOCK_CLASSES as nat, |class: int| Seq::<usize>::empty()),
    {
        let allocator = FixedSizeBlockAllocator {
            list_heads: [0; BLOCK_CLASSES],
            fallback_allocator: LinkListAllocator::new(),
            lists: Ghost(Seq::new(BLOCK_CLASSES as nat, |class: int| Seq::<usize>::empty())),
        };
        proof {
            lemma_lists_empty(allocator.memory(), allocator@.fallback);
            assert(allocator.heads() =~= Seq::new(BLOCK_CLASSES as nat, |class: int| 0usize));
        }
        allocator
    }

    /// Hands the heap to the allocator: the memory `heap`, whose first
    /// word has the address `heap_start`. All of it is one free region
    /// behind the size classes.
    pub fn init(&mut self, heap_start: usize, heap: &'a mut [u64])
        requires
            old(self).wf(),
            old(self)@.fallback.len() == 0,
            forall|class: int|
                0 <= class < BLOCK_CLASSES ==> (#[trigger] old(self)@.lists[class]).len() == 0,
            heap_start != 0,
            heap_start as int % NODE_ALIGN as int == 0,
            heap_start + WORD_SIZE * old(heap)@.len() <= usize::MAX,
            WORD_SIZE * old(heap)@.len() >= NODE_SIZE,
        ensures
            final(self).wf(),
            final(self).memory().start() == heap_start,
            final(self).memory().words().len() == old(heap)@.len(),
            final(self)@ == (BlockLists {
                fallback: seq![
                    FreeRegion { start: heap_start, size: (WORD_SIZE * old(heap)@.len()) as usize },
                ],
                ..old(self)@
            }),
    {
        proof {
            lemma_lists_heads(
                old(self).memory(),
                old(self).heads(),
                old(self)@.lists,
                old(self)@.fallback,
            );
        }
        self.fallback_allocator.init(heap_start, heap);
        proof {
            assert forall|class: int| 0 <= class < BLOCK_CLASSES implies #[trigger] self@.lists[class]
                == Seq::<usize>::empty() by {
                assert(self@.lists[class] =~= Seq::<usize>::empty());
            }
            assert(self@.lists =~= Seq::new(
                BLOCK_CLASSES as nat,
                |class: int| Seq::<usize>::empty(),
            ));
            assert(self.heads() =~= Seq::new(BLOCK_CLASSES as nat, |class: int| 0usize));
            lemma_lists_empty(self.memory(), self@.fallback);
        }
    }

    /// Allocates a block for `layout` and returns its address, or `None`
    /// if neither a size class nor the regions behind can serve it. A block
    /// that a size class serves is aligned to the block size of the class.
    /// Memory that was not free is left as it is, and the block can be
    /// returned.
    pub fn allocate(&mut self, layout: Layout) -> (addr: Option<usize>)
        requires
            old(self).wf(),
            layout.fits_node(),
        ensures
            final(self).wf(),
            (final(self)@, addr) == alloc_spec(old(self)@, layout),
            match (list_index_spec(layout), addr) {
                (Some(i), Some(a)) => a as int % BLOCK_SIZES[i] as int == 0,
                _ => true,
            },
            final(self).memory().same_but(old(self).memory(), free_bytes(old(self)@.fallback)),
            addr matches Some(block) ==> final(self).accepts(block, layout),
    {
        proof {
            lemma_lists_heads(self.memory(), self.heads(), self@.lists, self@.fallback);
            lemma_chain_regions(
                self.memory(),
                self.fallback().first(),
                self.fallback().free_regions(),
            );
            lemma_blocks_apart_from_regions(
                self.memory(),
                self.heads(),
                self@.lists,
                self@.fallback,
            );
            if list_index_spec(layout) is Some {
                lemma_list_index(layout);
            }
        }
        match list_index(&layout) {
            Some(index) => {
                let head = self.list_heads[index];
                if head != 0 {
                    proof {
                        let list = self@.lists[index as int];
                        lemma_lists_block(
                            self.memory(),
                            self.heads(),
                            self@.lists,
                            self@.fallback,
                            index as int,
                            list.len() - 1,
                        );
                        lemma_lists_pop(
                            self.memory(),
                            self.heads(),
                            self@.lists,
                            self@.fallback,
                            index as int,
                        );
                    }
                    let next = self.fallback_allocator.read(head) as usize;
                    self.list_heads[index] = next;
                    self.lists = Ghost(
                        self.lists@.update(index as int, self.lists@[index as int].drop_last()),
                    );
                    Some(head)
                } else {
                    // No free block of this class: cut a new one.
                    let size = block_size(index);
                    proof {
                        lemma_block_layout(index as int);
                    }
                    let block = Layout { size, align: size };
                    let addr = self.fallback_allocator.allocate(block);
                    proof {
                        lemma_alloc_frees_nothing(old(self)@.fallback, block);
                        lemma_lists_kept(
                            old(self).memory(),
                            self.memory(),
                            self.heads(),
                            self@.lists,
                            old(self)@.fallback,
                            self@.fallback,
                            free_bytes(old(self)@.fallback),
                        );
                        if addr is Some {
                            lemma_cut_block_is_acceptable(
                                old(self)@,
                                self@,
                                block,
                                addr->0,
                                size as int,
                            );
                        }
                    }
                    addr
                }
            },
            None => {
                let addr = self.fallback_allocator.allocate(layout);
                proof {
                    lemma_alloc_frees_nothing(old(self)@.fallback, layout);
                    lemma_lists_kept(
                        old(self).memory(),
                        self.memory(),
                        self.heads(),
                        self@.lists,
                        old(self)@.fallback,
                        self@.fallback,
                        free_bytes(old(self)@.fallback),
                    );
                    if addr is Some {
                        lemma_size_align(layout);
                        lemma_cut_block_is_acceptable(
                            old(self)@,
                            self@,
                            layout,
                            addr->0,
                            size_align_spec(layout).0 as int,
                        );
                    }
                }
                addr
            },
        }
    }

    /// Takes back the block of `layout` at `addr`. Memory outside the
    /// block is left as it is.
    pub fn deallocate(&mut self, addr: usize, layout: Layout)
        requires
            old(self).wf(),
            layout.fits_node(),
            old(self).accepts(addr, layout),
        ensures
            final(self).wf(),
            final(self)@ == dealloc_spec(old(self)@, addr, layout),
            final(self).memory().same_but(
                old(self).memory(),
                set![addr as int, addr + WORD_SIZE],
            ),
    {
        proof {
            lemma_lists_heads(self.memory(), self.heads(), self@.lists, self@.fallback);
            lemma_chain_regions(
                self.memory(),
                self.fallback().first(),
                self.fallback().free_regions(),
            );
            lemma_blocks_apart_from_regions(
                self.memory(),
                self.heads(),
                self@.lists,
                self@.fallback,
            );
            lemma_reserved_size(layout);
            lemma_block_is_not_free(old(self)@, addr, reserved_size(layout) as int);
        }
        match list_index(&layout) {
            Some(index) => {
                let head = self.list_heads[index];
                proof {
                    lemma_block_is_word_aligned(addr as int, index as int);
                }
                self.fallback_allocator.write(addr, head as u64);
                proof {
                    lemma_lists_push(
                        old(self).memory(),
                        self.memory(),
                        self.heads(),
                        self@.lists,
                        self@.fallback,
                        index as int,
                        addr,
                    );
                }
                self.list_heads[index] = addr;
                self.lists = Ghost(
                    self.lists@.update(index as int, self.lists@[index as int].push(addr)),
                );
            },
            None => {
                let ghost region = FreeRegion { start: addr, size: size_align_spec(layout).0 };
                proof {
                    lemma_size_align(layout);
                    lemma_not_free_is_disjoint(region, old(self)@.fallback);
                }
                self.fallback_allocator.deallocate(addr, layout);
                proof {
                    assert forall|byte: int| #[trigger]
                        free_bytes(self@.fallback).contains(byte) implies !block_bytes(
                        self@.lists,
                    ).contains(byte) by {
                        lemma_dealloc_frees_the_block(old(self)@.fallback, addr, layout);
                    }
                    lemma_lists_kept(
                        old(self).memory(),
                        self.memory(),
                        self.heads(),
                        self@.lists,
                        old(self)@.fallback,
                        self@.fallback,
                        set![addr as int, addr + WORD_SIZE],
                    );
                }
            },
        }
    }

    /// Whether the `size` bytes from `addr` on all lie in the heap.
    pub fn owns(&self, addr: usize, size: usize) -> (inside: bool)
        requires
            self.wf(),
        ensures
            inside == (self.memory().start() <= addr && addr + size <= self.memory().end()),
    {
        self.fallback_allocator.owns(addr, size)
    }

    /// Reads the word at `addr` of the heap.
    pub fn read(&self, addr: usize) -> (word: u64)
        requires
            self.wf(),
            self.memory().holds(addr as int),
        ensures
            word == self.memory().word(addr as int),
    {
        self.fallback_allocator.read(addr)
    }

    /// Writes `value` to the word at `addr` of the heap, which must not
    /// be free. The lists, the chain and every other word stay.
    pub fn write(&mut self, addr: usize, value: u64)
        requires
            old(self).wf(),
            old(self).memory().holds(addr as int),
            !old(self)@.is_free(addr as int),
        ensures
            final(self).wf(),
            final(self)@ == old(self)@,
            final(self).memory().word(addr as int) == value,
            final(self).memory().same_but(old(self).memory(), set![addr as int]),
    {
        proof {
            lemma_blocks_apart_from_regions(
                self.memory(),
                self.heads(),
                self@.lists,
                self@.fallback,
            );
        }
        self.fallback_allocator.write(addr, value);
        proof {
            lemma_lists_kept(
                old(self).memory(),
                self.memory(),
                self.heads(),
                self@.lists,
                old(self)@.fallback,
                self@.fallback,
                set![addr as int],
            );
        }
    }
}

/// How many bytes are reserved for a block of `layout`: the block size of
/// its size class, or, if none serves it, what the free-list strategy
/// reserves.
pub open spec fn reserved_size(layout: Layout) -> usize {
    match list_index_spec(layout) {
        Some(i) => BLOCK_SIZES[i],
        None => size_align_spec(layout).0,
    }
}

/// How many bytes are reserved for a block of `layout`.
pub fn reserved(layout: &Layout) -> (size: usize)
    requires
        layout.fits_node(),
    ensures
        size == reserved_size(*layout),
{
    match list_index(layout) {
        Some(index) => block_size(index),
        None => LinkListAllocator::size_align(*layout).0,
    }
}

/// What is reserved for a block is at least a word.
pub proof fn lemma_reserved_size(layout: Layout)
    requires
        layout.fits_node(),
    ensures
        reserved_size(layout) >= WORD_SIZE,
        list_index_spec(layout) matches Some(i) ==> 0 <= i < BLOCK_CLASSES,
{
    lemma_size_align(layout);
    if list_index_spec(layout) is Some {
        lemma_list_index(layout);
    }
}

/// The size class that serves a request is one of the classes, and the
/// first whose blocks are large enough.
pub proof fn lemma_list_index(layout: Layout)
    requires
        list_index_spec(layout) is Some,
    ensures
        ({
            let i = list_index_spec(layout)->0;
            &&& 0 <= i < BLOCK_CLASSES
            &&& BLOCK_SIZES[i] >= required_block_size(layout)
            &&& i == 0 || BLOCK_SIZES[i - 1] < required_block_size(layout)
        }),
{
    let required = required_block_size(layout);
    let witness = if required <= 8 {
        0int
    } else if required <= 16 {
        1int
    } else if required <= 32 {
        2int
    } else if required <= 64 {
        3int
    } else if required <= 128 {
        4int
    } else if required <= 256 {
        5int
    } else if required <= 512 {
        6int
    } else if required <= 1024 {
        7int
    } else {
        8int
    };
    assert(BLOCK_SIZES[witness] >= required && (witness == 0 || BLOCK_SIZES[witness - 1]
        < required));
}

/// An address that is aligned to the block size of a size class is the
/// address of a word.
pub proof fn lemma_block_is_word_aligned(addr: int, class: int)
    requires
        0 <= class < BLOCK_CLASSES,
        addr % BLOCK_SIZES[class] as int == 0,
    ensures
        addr % WORD_SIZE as int == 0,
{
    lemma_block_layout(class);
    super::chain::lemma_multiple_of_node_align(addr, BLOCK_SIZES[class]);
}

/// Of a block of which no byte is free, none is free behind the size
/// classes and none belongs to a free block.
proof fn lemma_block_is_not_free(state: BlockLists, addr: usize, size: int)
    requires
        forall|byte: int| addr <= byte < addr + size ==> !#[trigger] state.is_free(byte),
    ensures
        not_free_in(state.fallback, addr as int, size),
        forall|byte: int|
            addr <= byte < addr + size ==> !#[trigger] block_bytes(state.lists).contains(byte),
{
    assert forall|byte: int| addr <= byte < addr + size implies !#[trigger] is_free(
        state.fallback,
        byte,
    ) by {
        assert(!state.is_free(byte));
    }
    assert forall|byte: int| addr <= byte < addr + size implies !#[trigger] block_bytes(
        state.lists,
    ).contains(byte) by {
        assert(!state.is_free(byte));
    }
}

/// A block that was cut from the regions behind the size classes holds no
/// byte that is free afterwards, and lies where the regions lay.
proof fn lemma_cut_block_is_acceptable(
    before: BlockLists,
    after: BlockLists,
    layout: Layout,
    addr: usize,
    size: int,
)
    requires
        regions_valid(before.fallback),
        layout.fits_node(),
        chain_alloc_spec(before.fallback, layout) == (after.fallback, Some(addr)),
        after.lists == before.lists,
        free_bytes(before.fallback).disjoint(block_bytes(before.lists)),
        super::chain::disjoint_from_all(
            FreeRegion { start: addr, size: size_align_spec(layout).0 },
            after.fallback,
        ),
        0 <= size <= size_align_spec(layout).0,
    ensures
        forall|byte: int| addr <= byte < addr + size ==> !#[trigger] after.is_free(byte),
        addr as int % size_align_spec(layout).1 as int == 0,
{
    lemma_allocated_block_leaves_chain(before.fallback, layout);
    let block = FreeRegion { start: addr, size: size_align_spec(layout).0 };
    super::chain::lemma_disjoint_is_not_free(block, after.fallback);
    let i = choose|i: int|
        0 <= i < before.fallback.len() && (#[trigger] before.fallback[i]).start <= block.start
            && block.end() <= before.fallback[i].end();
    assert forall|byte: int| addr <= byte < addr + size implies !#[trigger] after.is_free(byte) by {
        assert(!is_free(after.fallback, byte));
        assert(before.fallback[i].start <= byte < before.fallback[i].end());
        assert(free_bytes(before.fallback).contains(byte));
    }
}

/// A request frees no byte: what is free afterwards was free before.
pub proof fn lemma_allocate_frees_nothing(state: BlockLists, layout: Layout)
    requires
        state.lists.len() == BLOCK_CLASSES,
        regions_valid(state.fallback),
        layout.fits_node(),
    ensures
        forall|byte: int| #[trigger] alloc_spec(state, layout).0.is_free(byte) ==> state.is_free(byte),
{
    let after = alloc_spec(state, layout).0;
    match list_index_spec(layout) {
        Some(i) => {
            lemma_list_index(layout);
            lemma_block_layout(i);
            if state.lists[i].len() > 0 {
                assert forall|byte: int| #[trigger] after.is_free(byte) implies state.is_free(
                    byte,
                ) by {
                    if block_bytes(after.lists).contains(byte) {
                        let (class, k) = choose|class: int, k: int|
                            0 <= class < BLOCK_CLASSES && 0 <= class < after.lists.len() && 0 <= k
                                < after.lists[class].len() && (#[trigger] after.lists[class][k])
                                <= byte < after.lists[class][k] + BLOCK_SIZES[class];
                        assert(after.lists[class][k] == state.lists[class][k]);
                        assert(state.lists[class][k] <= byte < state.lists[class][k]
                            + BLOCK_SIZES[class]);
                    }
                }
            } else {
                lemma_alloc_frees_nothing(state.fallback, block_layout(i));
                assert forall|byte: int| #[trigger] after.is_free(byte) implies state.is_free(
                    byte,
                ) by {
                    if is_free(after.fallback, byte) {
                        assert(free_bytes(after.fallback).contains(byte));
                        assert(free_bytes(state.fallback).contains(byte));
                    }
                }
            }
        },
        None => {
            lemma_alloc_frees_nothing(state.fallback, layout);
            assert forall|byte: int| #[trigger] after.is_free(byte) implies state.is_free(byte) by {
                if is_free(after.fallback, byte) {
                    assert(free_bytes(after.fallback).contains(byte));
                    assert(free_bytes(state.fallback).contains(byte));
                }
            }
        },
    }
}

/// A block that comes back frees its own bytes and no others.
pub proof fn lemma_deallocate_frees_the_block(state: BlockLists, addr: usize, layout: Layout)
    requires
        state.lists.len() == BLOCK_CLASSES,
        layout.fits_node(),
    ensures
        forall|byte: int| #[trigger]
            dealloc_spec(state, addr, layout).is_free(byte) <==> state.is_free(byte) || addr <= byte
                < addr + reserved_size(layout),
{
    let after = dealloc_spec(state, addr, layout);
    match list_index_spec(layout) {
        Some(i) => {
            lemma_list_index(layout);
            let last = state.lists[i].len() as int;
            assert(after.lists[i][last] == addr);
            assert forall|byte: int| #[trigger]
                after.is_free(byte) <==> state.is_free(byte) || addr <= byte < addr + reserved_size(
                    layout,
                ) by {
                if block_bytes(after.lists).contains(byte) {
                    let (class, k) = choose|class: int, k: int|
                        0 <= class < BLOCK_CLASSES && 0 <= class < after.lists.len() && 0 <= k
                            < after.lists[class].len() && (#[trigger] after.lists[class][k]) <= byte
                            < after.lists[class][k] + BLOCK_SIZES[class];
                    if class == i && k == last {
                    } else {
                        assert(after.lists[class][k] == state.lists[class][k]);
                        assert(state.lists[class][k] <= byte < state.lists[class][k]
                            + BLOCK_SIZES[class]);
                    }
                }
                if block_bytes(state.lists).contains(byte) {
                    let (class, k) = choose|class: int, k: int|
                        0 <= class < BLOCK_CLASSES && 0 <= class < state.lists.len() && 0 <= k
                            < state.lists[class].len() && (#[trigger] state.lists[class][k]) <= byte
                            < state.lists[class][k] + BLOCK_SIZES[class];
                    assert(after.lists[class][k] == state.lists[class][k]);
                    assert(after.lists[class][k] <= byte < after.lists[class][k]
                        + BLOCK_SIZES[class]);
                }
                if addr <= byte < addr + reserved_size(layout) {
                    assert(after.lists[i][last] <= byte < after.lists[i][last] + BLOCK_SIZES[i]);
                }
            }
        },
        None => {
            lemma_dealloc_frees_the_block(state.fallback, addr, layout);
        },
    }
}

/// The layout of a block of any size class is valid, can carry a header,
/// and is reserved with the block's own alignment and at least its size.
pub proof fn lemma_block_layout(index: int)
    requires
        0 <= index < BLOCK_CLASSES,
    ensures
        block_layout(index).fits_node(),
        size_align_spec(block_layout(index)).1 == BLOCK_SIZES[index],
        size_align_spec(block_layout(index)).0 >= BLOCK_SIZES[index],
{
    vstd::arithmetic::power2::lemma2_to64();
    lemma_pow2_is_pow2((index + 3) as nat);
    super::chain::lemma_node_align_is_pow2();
    lemma_size_align(block_layout(index));
}

} // verus!
