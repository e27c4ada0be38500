//! How the lists of free blocks are stored in the memory of the heap, and
//! what pushing a block and taking one out make of them.

use crate::allocator::chain::{free_bytes, is_free, not_free_in, FreeRegion};
use crate::allocator::heap::HeapMemory;
use super::{BLOCK_CLASSES, BLOCK_SIZES};
use vstd::prelude::*;

verus! {

/// The bytes of the free blocks of the size classes.
pub open spec fn block_bytes(lists: Seq<Seq<usize>>) -> Set<int> {
    Set::new(
        |addr: int|
            exists|class: int, k: int|
                0 <= class < BLOCK_CLASSES && 0 <= class < lists.len() && 0 <= k
                    < lists[class].len() && (#[trigger] lists[class][k]) <= addr < lists[class][k]
                    + BLOCK_SIZES[class],
    )
}

/// The address of the block that follows block `k` of a list, or zero if
/// it is the last to be handed out.
pub open spec fn next_block(list: Seq<usize>, k: int) -> usize {
    if k > 0 {
        list[k - 1]
    } else {
        0
    }
}

/// The block that a list hands out next, or zero if it has none.
pub open spec fn list_head(list: Seq<usize>) -> usize {
    if list.len() > 0 {
        list.last()
    } else {
        0
    }
}

/// The memory holds the lists of free blocks, which start at `heads`.
///
/// There is a list for each size class. Every free block lies in the
/// memory, is aligned to the block size of its class, and is not at
/// address zero; its first word holds the address of the block that
/// follows it in its list, or zero. No two blocks share a byte, and none
/// shares a byte with a free region behind the size classes.
#[verifier::opaque]
pub open spec fn lists_stored(
    heap: &HeapMemory,
    heads: Seq<usize>,
    lists: Seq<Seq<usize>>,
    fallback: Seq<FreeRegion>,
) -> bool {
    &&& lists.len() == BLOCK_CLASSES
    &&& heads.len() == BLOCK_CLASSES
    &&& forall|class: int|
        0 <= class < BLOCK_CLASSES ==> #[trigger] heads[class] == list_head(lists[class])
    &&& forall|class: int, k: int|
        0 <= class < BLOCK_CLASSES && 0 <= k < lists[class].len() ==> {
            &&& (#[trigger] lists[class][k]) != 0
            &&& heap.holds(lists[class][k] as int)
            &&& lists[class][k] + BLOCK_SIZES[class] <= heap.end()
            &&& lists[class][k] as int % BLOCK_SIZES[class] as int == 0
            &&& heap.word(lists[class][k] as int) == next_block(lists[class], k)
            &&& not_free_in(fallback, lists[class][k] as int, BLOCK_SIZES[class] as int)
        }
    &&& forall|class: int, k: int, other: int, l: int|
        0 <= class < BLOCK_CLASSES && 0 <= k < lists[class].len() && 0 <= other < BLOCK_CLASSES && 0
            <= l < lists[other].len() && (class != other || k != l) ==> (
        #[trigger] lists[class][k]) + BLOCK_SIZES[class] <= (#[trigger] lists[other][l])
            || lists[other][l] + BLOCK_SIZES[other] <= lists[class][k]
}

/// The addresses of all free blocks.
pub open spec fn block_starts(lists: Seq<Seq<usize>>) -> Set<int> {
    Set::new(
        |addr: int|
            exists|class: int, k: int|
                0 <= class < BLOCK_CLASSES && 0 <= class < lists.len() && 0 <= k
                    < lists[class].len() && (#[trigger] lists[class][k]) == addr,
    )
}

/// What stored lists say of block `k` of size class `class`.
pub(super) proof fn lemma_lists_block(
    heap: &HeapMemory,
    heads: Seq<usize>,
    lists: Seq<Seq<usize>>,
    fallback: Seq<FreeRegion>,
    class: int,
    k: int,
)
    requires
        lists_stored(heap, heads, lists, fallback),
        0 <= class < BLOCK_CLASSES,
        0 <= k < lists[class].len(),
    ensures
        lists[class][k] != 0,
        heap.holds(lists[class][k] as int),
        lists[class][k] + BLOCK_SIZES[class] <= heap.end(),
        lists[class][k] as int % BLOCK_SIZES[class] as int == 0,
        heap.word(lists[class][k] as int) == next_block(lists[class], k),
        not_free_in(fallback, lists[class][k] as int, BLOCK_SIZES[class] as int),
        !is_free(fallback, lists[class][k] as int),
        block_starts(lists).contains(lists[class][k] as int),
        block_bytes(lists).contains(lists[class][k] as int),
{
    reveal(lists_stored);
    assert(lists[class][k] <= lists[class][k] < lists[class][k] + BLOCK_SIZES[class]);
}

/// What stored lists say of their heads.
pub(super) proof fn lemma_lists_heads(
    heap: &HeapMemory,
    heads: Seq<usize>,
    lists: Seq<Seq<usize>>,
    fallback: Seq<FreeRegion>,
)
    requires
        lists_stored(heap, heads, lists, fallback),
    ensures
        lists.len() == BLOCK_CLASSES,
        heads.len() == BLOCK_CLASSES,
        forall|class: int|
            0 <= class < BLOCK_CLASSES ==> #[trigger] heads[class] == list_head(lists[class]),
        forall|class: int|
            0 <= class < BLOCK_CLASSES ==> (#[trigger] heads[class] == 0 <==> lists[class].len()
                == 0),
{
    reveal(lists_stored);
    assert forall|class: int| 0 <= class < BLOCK_CLASSES implies (#[trigger] heads[class] == 0
        <==> lists[class].len() == 0) by {
        if lists[class].len() > 0 {
            assert(lists[class][lists[class].len() - 1] != 0);
        }
    }
}

/// No byte of a free block of stored lists is free behind the size
/// classes.
pub(super) proof fn lemma_blocks_apart_from_regions(
    heap: &HeapMemory,
    heads: Seq<usize>,
    lists: Seq<Seq<usize>>,
    fallback: Seq<FreeRegion>,
)
    requires
        lists_stored(heap, heads, lists, fallback),
    ensures
        free_bytes(fallback).disjoint(block_bytes(lists)),
        block_starts(lists).subset_of(block_bytes(lists)),
{
    assert forall|addr: int| block_bytes(lists).contains(addr) implies !free_bytes(
        fallback,
    ).contains(addr) by {
        let (class, k) = choose|class: int, k: int|
            0 <= class < BLOCK_CLASSES && 0 <= class < lists.len() && 0 <= k < lists[class].len()
                && (#[trigger] lists[class][k]) <= addr < lists[class][k] + BLOCK_SIZES[class];
        lemma_lists_block(heap, heads, lists, fallback, class, k);
    }
    assert forall|addr: int| block_starts(lists).contains(addr) implies block_bytes(
        lists,
    ).contains(addr) by {
        let (class, k) = choose|class: int, k: int|
            0 <= class < BLOCK_CLASSES && 0 <= class < lists.len() && 0 <= k < lists[class].len()
                && (#[trigger] lists[class][k]) == addr;
        assert(lists[class][k] <= addr < lists[class][k] + BLOCK_SIZES[class]);
    }
}

/// Empty lists are stored in any memory.
pub(super) proof fn lemma_lists_empty(heap: &HeapMemory, fallback: Seq<FreeRegion>)
    ensures
        lists_stored(
            heap,
            Seq::new(BLOCK_CLASSES as nat, |class: int| 0usize),
            Seq::new(BLOCK_CLASSES as nat, |class: int| Seq::<usize>::empty()),
            fallback,
        ),
{
    reveal(lists_stored);
}

/// Lists stay stored when the memory changes outside the first words of
/// their blocks, and the regions behind still hold no byte of a block.
pub(super) proof fn lemma_lists_kept(
    old_heap: &HeapMemory,
    new_heap: &HeapMemory,
    heads: Seq<usize>,
    lists: Seq<Seq<usize>>,
    old_fallback: Seq<FreeRegion>,
    new_fallback: Seq<FreeRegion>,
    changed: Set<int>,
)
    requires
        lists_stored(old_heap, heads, lists, old_fallback),
        new_heap.same_but(old_heap, changed),
        changed.disjoint(block_starts(lists)),
        free_bytes(new_fallback).disjoint(block_bytes(lists)),
    ensures
        lists_stored(new_heap, heads, lists, new_fallback),
{
    reveal(lists_stored);
    assert forall|class: int, k: int|
        0 <= class < BLOCK_CLASSES && 0 <= k < lists[class].len() implies {
        &&& (#[trigger] lists[class][k]) != 0
        &&& new_heap.holds(lists[class][k] as int)
        &&& lists[class][k] + BLOCK_SIZES[class] <= new_heap.end()
        &&& lists[class][k] as int % BLOCK_SIZES[class] as int == 0
        &&& new_heap.word(lists[class][k] as int) == next_block(lists[class], k)
        &&& not_free_in(new_fallback, lists[class][k] as int, BLOCK_SIZES[class] as int)
    } by {
        let addr = lists[class][k] as int;
        assert(block_starts(lists).contains(addr));
        assert(!changed.contains(addr));
        assert forall|byte: int| addr <= byte < addr + BLOCK_SIZES[class] implies !#[trigger] is_free(
            new_fallback,
            byte,
        ) by {
            assert(block_bytes(lists).contains(byte));
            assert(!free_bytes(new_fallback).contains(byte));
        }
    }
}

/// The last block of a list leaves stored lists when the head of the list
/// is set to the block that follows it. None of its bytes is free then.
pub(super) proof fn lemma_lists_pop(
    heap: &HeapMemory,
    heads: Seq<usize>,
    lists: Seq<Seq<usize>>,
    fallback: Seq<FreeRegion>,
    class: int,
)
    requires
        lists_stored(heap, heads, lists, fallback),
        0 <= class < BLOCK_CLASSES,
        lists[class].len() > 0,
    ensures
        lists_stored(
            heap,
            heads.update(class, heap.word(lists[class].last() as int) as usize),
            lists.update(class, lists[class].drop_last()),
            fallback,
        ),
        forall|byte: int|
            lists[class].last() <= byte < lists[class].last() + BLOCK_SIZES[class]
                ==> !#[trigger] block_bytes(lists.update(class, lists[class].drop_last())).contains(
                byte,
            ),
{
    reveal(lists_stored);
    let after = lists.update(class, lists[class].drop_last());
    let last = lists[class].len() - 1;
    assert(heap.word(lists[class][last] as int) == next_block(lists[class], last));
    assert forall|c: int, k: int| 0 <= c < BLOCK_CLASSES && 0 <= k < after[c].len() implies (
    #[trigger] after[c][k]) == lists[c][k] && next_block(after[c], k) == next_block(
        lists[c],
        k,
    ) by {}
    assert forall|c: int, k: int, other: int, l: int|
        0 <= c < BLOCK_CLASSES && 0 <= k < after[c].len() && 0 <= other < BLOCK_CLASSES && 0 <= l
            < after[other].len() && (c != other || k != l) implies (#[trigger] after[c][k])
        + BLOCK_SIZES[c] <= (#[trigger] after[other][l]) || after[other][l]
        + BLOCK_SIZES[other] <= after[c][k] by {
        assert(after[c][k] == lists[c][k]);
        assert(after[other][l] == lists[other][l]);
    }
    assert forall|byte: int|
        lists[class].last() <= byte < lists[class].last()
            + BLOCK_SIZES[class] implies !#[trigger] block_bytes(after).contains(byte) by {
        if block_bytes(after).contains(byte) {
            let (c, k) = choose|c: int, k: int|
                0 <= c < BLOCK_CLASSES && 0 <= c < after.len() && 0 <= k < after[c].len() && (
                #[trigger] after[c][k]) <= byte < after[c][k] + BLOCK_SIZES[c];
            assert(after[c][k] == lists[c][k]);
            assert(lists[c][k] + BLOCK_SIZES[c] <= lists[class][last] || lists[class][last]
                + BLOCK_SIZES[class] <= lists[c][k]);
        }
    }
}

/// Two different free blocks of stored lists share no byte.
pub(super) proof fn lemma_lists_apart(
    heap: &HeapMemory,
    heads: Seq<usize>,
    lists: Seq<Seq<usize>>,
    fallback: Seq<FreeRegion>,
    class: int,
    k: int,
    other: int,
    l: int,
)
    requires
        lists_stored(heap, heads, lists, fallback),
        0 <= class < BLOCK_CLASSES,
        0 <= k < lists[class].len(),
        0 <= other < BLOCK_CLASSES,
        0 <= l < lists[other].len(),
        class != other || k != l,
    ensures
        lists[class][k] + BLOCK_SIZES[class] <= lists[other][l] || lists[other][l]
            + BLOCK_SIZES[other] <= lists[class][k],
{
    reveal(lists_stored);
}

/// Lists are stored where the memory holds each of their blocks and no
/// two blocks share a byte.
pub(super) proof fn lemma_lists_built(
    heap: &HeapMemory,
    heads: Seq<usize>,
    lists: Seq<Seq<usize>>,
    fallback: Seq<FreeRegion>,
)
    requires
        lists.len() == BLOCK_CLASSES,
        heads.len() == BLOCK_CLASSES,
        forall|class: int|
            0 <= class < BLOCK_CLASSES ==> #[trigger] heads[class] == list_head(lists[class]),
        forall|class: int, k: int|
            0 <= class < BLOCK_CLASSES && 0 <= k < lists[class].len() ==> {
                &&& (#[trigger] lists[class][k]) != 0
                &&& heap.holds(lists[class][k] as int)
                &&& lists[class][k] + BLOCK_SIZES[class] <= heap.end()
                &&& lists[class][k] as int % BLOCK_SIZES[class] as int == 0
                &&& heap.word(lists[class][k] as int) == next_block(lists[class], k)
                &&& not_free_in(fallback, lists[class][k] as int, BLOCK_SIZES[class] as int)
            },
        forall|class: int, k: int, other: int, l: int|
            0 <= class < BLOCK_CLASSES && 0 <= k < lists[class].len() && 0 <= other
                < BLOCK_CLASSES && 0 <= l < lists[other].len() && (class != other || k != l) ==> (
            #[trigger] lists[class][k]) + BLOCK_SIZES[class] <= (#[trigger] lists[other][l])
                || lists[other][l] + BLOCK_SIZES[other] <= lists[class][k],
    ensures
        lists_stored(heap, heads, lists, fallback),
{
    reveal(lists_stored);
}

/// A block that holds no byte of a free block lies apart from each of
/// them.
pub(super) proof fn lemma_new_block_apart(
    lists: Seq<Seq<usize>>,
    addr: usize,
    size: int,
    c: int,
    k: int,
)
    requires
        lists.len() == BLOCK_CLASSES,
        size > 0,
        forall|byte: int| addr <= byte < addr + size ==> !#[trigger] block_bytes(lists).contains(byte),
        0 <= c < BLOCK_CLASSES,
        0 <= k < lists[c].len(),
    ensures
        lists[c][k] != addr,
        lists[c][k] + BLOCK_SIZES[c] <= addr || addr + size <= lists[c][k],
{
    let start = lists[c][k];
    if !(start + BLOCK_SIZES[c] <= addr || addr + size <= start) {
        let byte = if start >= addr {
            start as int
        } else {
            addr as int
        };
        assert(lists[c][k] <= byte < lists[c][k] + BLOCK_SIZES[c]);
        assert(block_bytes(lists).contains(byte));
    }
}

/// A block whose first word holds the head of a list joins that list.
pub(super) proof fn lemma_lists_push(
    old_heap: &HeapMemory,
    new_heap: &HeapMemory,
    heads: Seq<usize>,
    lists: Seq<Seq<usize>>,
    fallback: Seq<FreeRegion>,
    class: int,
    addr: usize,
)
    requires
        lists_stored(old_heap, heads, lists, fallback),
        0 <= class < BLOCK_CLASSES,
        addr != 0,
        old_heap.holds(addr as int),
        addr + BLOCK_SIZES[class] <= old_heap.end(),
        addr as int % BLOCK_SIZES[class] as int == 0,
        not_free_in(fallback, addr as int, BLOCK_SIZES[class] as int),
        forall|byte: int|
            addr <= byte < addr + BLOCK_SIZES[class] ==> !#[trigger] block_bytes(lists).contains(
                byte,
            ),
        new_heap.same_but(old_heap, set![addr as int]),
        new_heap.word(addr as int) == heads[class],
    ensures
        lists_stored(
            new_heap,
            heads.update(class, addr),
            lists.update(class, lists[class].push(addr)),
            fallback,
        ),
{
    let after = lists.update(class, lists[class].push(addr));
    let new_heads = heads.update(class, addr);
    let size = BLOCK_SIZES[class] as int;
    lemma_lists_heads(old_heap, heads, lists, fallback);
    assert forall|c: int| 0 <= c < BLOCK_CLASSES implies #[trigger] new_heads[c] == list_head(
        after[c],
    ) by {}
    assert forall|c: int, k: int| 0 <= c < BLOCK_CLASSES && 0 <= k < after[c].len() implies {
        &&& (#[trigger] after[c][k]) != 0
        &&& new_heap.holds(after[c][k] as int)
        &&& after[c][k] + BLOCK_SIZES[c] <= new_heap.end()
        &&& after[c][k] as int % BLOCK_SIZES[c] as int == 0
        &&& new_heap.word(after[c][k] as int) == next_block(after[c], k)
        &&& not_free_in(fallback, after[c][k] as int, BLOCK_SIZES[c] as int)
    } by {
        if c == class && k == lists[class].len() {
        } else {
            assert(after[c][k] == lists[c][k]);
            lemma_lists_block(old_heap, heads, lists, fallback, c, k);
            lemma_new_block_apart(lists, addr, size, c, k);
            assert(next_block(after[c], k) == next_block(lists[c], k));
        }
    }
    assert forall|c: int, k: int, other: int, l: int|
        0 <= c < BLOCK_CLASSES && 0 <= k < after[c].len() && 0 <= other < BLOCK_CLASSES && 0 <= l
            < after[other].len() && (c != other || k != l) implies (#[trigger] after[c][k])
        + BLOCK_SIZES[c] <= (#[trigger] after[other][l]) || after[other][l]
        + BLOCK_SIZES[other] <= after[c][k] by {
        if c == class && k == lists[class].len() {
            assert(after[other][l] == lists[other][l]);
            lemma_new_block_apart(lists, addr, size, other, l);
        } else if other == class && l == lists[class].len() {
            assert(after[c][k] == lists[c][k]);
            lemma_new_block_apart(lists, addr, size, c, k);
        } else {
            assert(after[c][k] == lists[c][k]);
            assert(after[other][l] == lists[other][l]);
            lemma_lists_apart(old_heap, heads, lists, fallback, c, k, other, l);
        }
    }
    lemma_lists_built(new_heap, new_heads, after, fallback);
}

} // verus!
