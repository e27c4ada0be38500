//! How a chain of free regions is stored in the memory of the heap, and
//! what pushing a region to its front and taking one out make of it.

use crate::allocator::chain::{
    disjoint_from_all, free_bytes, is_free, regions_disjoint, regions_valid, FreeRegion,
};
use crate::allocator::heap::{HeapMemory, WORD_SIZE};
use vstd::prelude::*;

verus! {

/// The region lies in the memory, and not at address zero, which stands
/// for the end of the chain.
pub open spec fn region_in_heap(heap: &HeapMemory, region: FreeRegion) -> bool {
    &&& heap.start() <= region.start
    &&& region.end() <= heap.end()
    &&& region.start != 0
}

/// The address of the region that follows region `i` in the chain, or
/// zero if it is the last.
pub open spec fn next_start(regions: Seq<FreeRegion>, i: int) -> usize {
    if i + 1 < regions.len() {
        regions[i + 1].start
    } else {
        0
    }
}

/// The memory holds the chain of `regions`, which starts at `first`.
///
/// The regions are valid, lie in the memory, and share no byte. The first
/// two words of each hold its size and the address of the region that
/// follows it, or zero.
#[verifier::opaque]
pub open spec fn chain_stored(heap: &HeapMemory, first: usize, regions: Seq<FreeRegion>) -> bool {
    &&& regions_valid(regions)
    &&& regions_disjoint(regions)
    &&& first == if regions.len() > 0 {
        regions[0].start
    } else {
        0
    }
    &&& forall|i: int|
        0 <= i < regions.len() ==> {
            &&& region_in_heap(heap, #[trigger] regions[i])
            &&& heap.word(regions[i].start as int) == regions[i].size
        }
    &&& forall|i: int|
        0 <= i < regions.len() ==> heap.word(regions[i].start + WORD_SIZE) == #[trigger] next_start(
            regions,
            i,
        )
}

/// What a stored chain says of its regions.
pub proof fn lemma_chain_regions(heap: &HeapMemory, first: usize, regions: Seq<FreeRegion>)
    requires
        chain_stored(heap, first, regions),
    ensures
        regions_valid(regions),
        regions_disjoint(regions),
        forall|i: int| 0 <= i < regions.len() ==> region_in_heap(heap, #[trigger] regions[i]),
        first == 0 <==> regions.len() == 0,
{
    reveal(chain_stored);
}

/// What a stored chain says of region `i`: its header is in the memory and
/// holds the size of the region and the address of the next.
pub(super) proof fn lemma_chain_node(
    heap: &HeapMemory,
    first: usize,
    regions: Seq<FreeRegion>,
    i: int,
)
    requires
        heap.wf(),
        chain_stored(heap, first, regions),
        0 <= i < regions.len(),
    ensures
        regions[i].valid(),
        region_in_heap(heap, regions[i]),
        heap.holds(regions[i].start as int),
        heap.holds(regions[i].start + WORD_SIZE),
        heap.word(regions[i].start as int) == regions[i].size,
        heap.word(regions[i].start + WORD_SIZE) == next_start(regions, i),
        i == 0 ==> first == regions[0].start,
        free_bytes(regions).contains(regions[i].start as int),
        free_bytes(regions).contains(regions[i].start + WORD_SIZE),
{
    reveal(chain_stored);
    lemma_header_is_free(regions, i);
}

/// The two words of the header of a region of the chain are free.
pub(super) proof fn lemma_header_is_free(regions: Seq<FreeRegion>, i: int)
    requires
        0 <= i < regions.len(),
        regions[i].valid(),
    ensures
        free_bytes(regions).contains(regions[i].start as int),
        free_bytes(regions).contains(regions[i].start + WORD_SIZE),
{
    assert(regions[i].start <= regions[i].start + WORD_SIZE < regions[i].end());
    assert(is_free(regions, regions[i].start as int));
    assert(is_free(regions, regions[i].start + WORD_SIZE));
}

/// An empty chain is stored in any memory.
pub(super) proof fn lemma_chain_empty(heap: &HeapMemory)
    ensures
        chain_stored(heap, 0, Seq::empty()),
{
    reveal(chain_stored);
}

/// A chain stays stored when the memory changes outside its regions.
pub(super) proof fn lemma_chain_kept(
    old_heap: &HeapMemory,
    new_heap: &HeapMemory,
    first: usize,
    regions: Seq<FreeRegion>,
    changed: Set<int>,
)
    requires
        old_heap.wf(),
        chain_stored(old_heap, first, regions),
        new_heap.same_but(old_heap, changed),
        changed.disjoint(free_bytes(regions)),
    ensures
        chain_stored(new_heap, first, regions),
{
    lemma_chain_regions(old_heap, first, regions);
    if regions.len() > 0 {
        lemma_chain_node(old_heap, first, regions, 0);
    }
    assert forall|i: int| 0 <= i < regions.len() implies {
        &&& region_in_heap(new_heap, #[trigger] regions[i])
        &&& new_heap.word(regions[i].start as int) == regions[i].size
    } by {
        lemma_chain_node(old_heap, first, regions, i);
    }
    assert forall|i: int| 0 <= i < regions.len() implies new_heap.word(
        regions[i].start + WORD_SIZE,
    ) == #[trigger] next_start(regions, i) by {
        lemma_chain_node(old_heap, first, regions, i);
    }
    lemma_chain_built(new_heap, first, regions);
}

/// A region with its header written joins the front of a stored chain.
pub(super) proof fn lemma_chain_push(
    old_heap: &HeapMemory,
    new_heap: &HeapMemory,
    first: usize,
    regions: Seq<FreeRegion>,
    region: FreeRegion,
)
    requires
        old_heap.wf(),
        chain_stored(old_heap, first, regions),
        region.valid(),
        region_in_heap(old_heap, region),
        disjoint_from_all(region, regions),
        new_heap.same_but(old_heap, set![region.start as int, region.start + WORD_SIZE]),
        new_heap.word(region.start as int) == region.size,
        new_heap.word(region.start + WORD_SIZE) == first,
    ensures
        chain_stored(new_heap, region.start, seq![region] + regions),
{
    let after = seq![region] + regions;
    lemma_chain_regions(old_heap, first, regions);
    if regions.len() > 0 {
        lemma_chain_node(old_heap, first, regions, 0);
    }
    assert forall|i: int| 0 <= i < after.len() implies {
        &&& (#[trigger] after[i]).valid()
        &&& region_in_heap(new_heap, after[i])
        &&& new_heap.word(after[i].start as int) == after[i].size
    } by {
        if i > 0 {
            assert(after[i] == regions[i - 1]);
            assert(region.disjoint(regions[i - 1]));
            lemma_chain_node(old_heap, first, regions, i - 1);
        }
    }
    assert forall|i: int| 0 <= i < after.len() implies new_heap.word(after[i].start + WORD_SIZE)
        == #[trigger] next_start(after, i) by {
        if i > 0 {
            assert(after[i] == regions[i - 1]);
            assert(region.disjoint(regions[i - 1]));
            lemma_chain_node(old_heap, first, regions, i - 1);
            assert(next_start(after, i) == next_start(regions, i - 1));
        }
    }
    assert forall|i: int, j: int| 0 <= i < j < after.len() implies (#[trigger] after[i]).disjoint(
        #[trigger] after[j],
    ) by {
        assert(after[j] == regions[j - 1]);
        if i > 0 {
            assert(after[i] == regions[i - 1]);
        }
    }
    lemma_chain_built(new_heap, region.start, after);
}

/// A chain is stored where its regions are valid and share no byte, and
/// the memory holds the header of each of them.
pub(super) proof fn lemma_chain_built(heap: &HeapMemory, first: usize, regions: Seq<FreeRegion>)
    requires
        regions_valid(regions),
        regions_disjoint(regions),
        first == if regions.len() > 0 {
            regions[0].start
        } else {
            0
        },
        forall|i: int|
            0 <= i < regions.len() ==> {
                &&& region_in_heap(heap, #[trigger] regions[i])
                &&& heap.word(regions[i].start as int) == regions[i].size
            },
        forall|i: int|
            0 <= i < regions.len() ==> heap.word(regions[i].start + WORD_SIZE)
                == #[trigger] next_start(regions, i),
    ensures
        chain_stored(heap, first, regions),
{
    reveal(chain_stored);
}

/// The regions that stay when one leaves the chain are valid and share
/// no byte with each other nor with the one that left.
pub(super) proof fn lemma_rest_is_disjoint(regions: Seq<FreeRegion>, index: int)
    requires
        regions_valid(regions),
        regions_disjoint(regions),
        0 <= index < regions.len(),
    ensures
        regions_valid(regions.remove(index)),
        regions_disjoint(regions.remove(index)),
        disjoint_from_all(regions[index], regions.remove(index)),
{
    let rest = regions.remove(index);
    assert forall|a: int| 0 <= a < rest.len() implies (#[trigger] rest[a]).valid()
        && regions[index].disjoint(rest[a]) by {
        let a0 = if a < index {
            a
        } else {
            a + 1
        };
        assert(rest[a] == regions[a0]);
        if a0 < index {
            assert(regions[a0].disjoint(regions[index]));
        } else {
            assert(regions[index].disjoint(regions[a0]));
        }
    }
    assert forall|a: int, b: int| 0 <= a < b < rest.len() implies (#[trigger] rest[a]).disjoint(
        #[trigger] rest[b],
    ) by {
        let a0 = if a < index {
            a
        } else {
            a + 1
        };
        let b0 = if b < index {
            b
        } else {
            b + 1
        };
        assert(rest[a] == regions[a0] && rest[b] == regions[b0]);
        assert(regions[a0].disjoint(regions[b0]));
    }
}

/// The header of region `k` is not touched when the link of another
/// region `j` of the chain is written.
pub(super) proof fn lemma_headers_apart(
    heap: &HeapMemory,
    first: usize,
    regions: Seq<FreeRegion>,
    j: int,
    k: int,
)
    requires
        heap.wf(),
        chain_stored(heap, first, regions),
        0 <= j < regions.len(),
        0 <= k < regions.len(),
        j != k,
    ensures
        regions[k].start != regions[j].start + WORD_SIZE,
        regions[k].start + WORD_SIZE != regions[j].start + WORD_SIZE,
{
    lemma_chain_regions(heap, first, regions);
    if j < k {
        assert(regions[j].disjoint(regions[k]));
    } else {
        assert(regions[k].disjoint(regions[j]));
    }
}

/// Region `index` leaves a stored chain when the link before it is set to
/// the region behind it.
pub(super) proof fn lemma_chain_unlink(
    old_heap: &HeapMemory,
    new_heap: &HeapMemory,
    first: usize,
    new_first: usize,
    regions: Seq<FreeRegion>,
    index: int,
)
    requires
        old_heap.wf(),
        chain_stored(old_heap, first, regions),
        0 <= index < regions.len(),
        index == 0 ==> new_first == next_start(regions, 0) && new_heap == old_heap,
        index > 0 ==> new_first == first && new_heap.same_but(
            old_heap,
            set![regions[index - 1].start + WORD_SIZE],
        ) && new_heap.word(regions[index - 1].start + WORD_SIZE) == next_start(regions, index),
    ensures
        chain_stored(new_heap, new_first, regions.remove(index)),
        new_heap.same_but(old_heap, free_bytes(regions)),
{
    let after = regions.remove(index);
    lemma_chain_regions(old_heap, first, regions);
    lemma_rest_is_disjoint(regions, index);
    lemma_chain_node(old_heap, first, regions, 0);
    if index > 0 {
        lemma_chain_node(old_heap, first, regions, index - 1);
    }
    assert forall|k: int| 0 <= k < after.len() implies {
        &&& region_in_heap(new_heap, #[trigger] after[k])
        &&& new_heap.word(after[k].start as int) == after[k].size
    } by {
        let k0 = if k < index {
            k
        } else {
            k + 1
        };
        assert(after[k] == regions[k0]);
        lemma_chain_node(old_heap, first, regions, k0);
        if index > 0 && k0 != index - 1 {
            lemma_headers_apart(old_heap, first, regions, index - 1, k0);
        }
    }
    assert forall|k: int| 0 <= k < after.len() implies new_heap.word(after[k].start + WORD_SIZE)
        == #[trigger] next_start(after, k) by {
        let k0 = if k < index {
            k
        } else {
            k + 1
        };
        assert(after[k] == regions[k0]);
        lemma_chain_node(old_heap, first, regions, k0);
        if index > 0 && k0 != index - 1 {
            lemma_headers_apart(old_heap, first, regions, index - 1, k0);
        }
        if k0 != index - 1 {
            assert(next_start(after, k) == next_start(regions, k0));
        } else {
            assert(next_start(after, k) == next_start(regions, index));
        }
    }
    lemma_chain_built(new_heap, new_first, after);
}

/// What is left of a region behind a block that was cut from it shares no
/// byte with the other regions of the chain.
pub(super) proof fn lemma_tail_is_disjoint(regions: Seq<FreeRegion>, index: int, tail: FreeRegion)
    requires
        regions_disjoint(regions),
        0 <= index < regions.len(),
        regions[index].start <= tail.start,
        tail.end() <= regions[index].end(),
    ensures
        disjoint_from_all(tail, regions.remove(index)),
        free_bytes(seq![tail] + regions.remove(index)).subset_of(free_bytes(regions)),
{
    let rest = regions.remove(index);
    assert forall|j: int| 0 <= j < rest.len() implies tail.disjoint(#[trigger] rest[j]) by {
        let j0 = if j < index {
            j
        } else {
            j + 1
        };
        assert(rest[j] == regions[j0]);
        if j0 < index {
            assert(regions[j0].disjoint(regions[index]));
        } else {
            assert(regions[index].disjoint(regions[j0]));
        }
    }
    let after = seq![tail] + rest;
    assert forall|addr: int| free_bytes(after).contains(addr) implies free_bytes(regions).contains(
        addr,
    ) by {
        let k = choose|k: int| 0 <= k < after.len() && (#[trigger] after[k]).start <= addr
            < after[k].end();
        if k == 0 {
            assert(regions[index].start <= addr < regions[index].end());
        } else {
            let k0 = if k - 1 < index {
                k - 1
            } else {
                k
            };
            assert(after[k] == regions[k0]);
        }
    }
}

/// The regions that stay when one leaves the chain hold no byte that was
/// not free before.
pub(super) proof fn lemma_rest_is_free(regions: Seq<FreeRegion>, index: int)
    requires
        0 <= index < regions.len(),
    ensures
        free_bytes(regions.remove(index)).subset_of(free_bytes(regions)),
{
    let rest = regions.remove(index);
    assert forall|addr: int| free_bytes(rest).contains(addr) implies free_bytes(regions).contains(
        addr,
    ) by {
        let k = choose|k: int| 0 <= k < rest.len() && (#[trigger] rest[k]).start <= addr
            < rest[k].end();
        let k0 = if k < index {
            k
        } else {
            k + 1
        };
        assert(rest[k] == regions[k0]);
    }
}

} // verus!
