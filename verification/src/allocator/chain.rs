//! Chains of free regions: what a chain is, which region serves a request,
//! and what allocating and returning a block make of the chain.

use super::align::{
    align_up_spec, lemma_align_up_spec, lemma_pow2_bounds, lemma_pow2_exponent, lemma_pow2_is_pow2,
};
use super::{Layout, NODE_ALIGN, NODE_SIZE};
use vstd::arithmetic::div_mod::{lemma_fundamental_div_mod, lemma_mod_multiples_basic};
use vstd::arithmetic::mul::lemma_mul_is_commutative;
use vstd::arithmetic::power2::{
    is_pow2, lemma2_to64, lemma_pow2_adds, lemma_pow2_pos, lemma_pow2_strictly_increases, pow2,
};
use vstd::prelude::*;

verus! {

/// A span of free heap memory, `[start, start + size)`.
#[derive(Clone, Copy, Debug, PartialEq, Eq, Structural)]
pub struct FreeRegion {
    pub start: usize,
    pub size: usize,
}

impl FreeRegion {
    /// One past the last address of the region.
    pub open spec fn end(self) -> int {
        self.start + self.size
    }

    /// A region can be tracked when a header fits at its start: the start
    /// is aligned for the header, the size covers it, and the end is an
    /// address.
    pub open spec fn valid(self) -> bool {
        &&& self.start as int % NODE_ALIGN as int == 0
        &&& self.size >= NODE_SIZE
        &&& self.end() <= usize::MAX
    }

    /// No byte belongs to both regions.
    pub open spec fn disjoint(self, other: FreeRegion) -> bool {
        self.end() <= other.start || other.end() <= self.start
    }
}

/// Every region of the chain can be tracked.
pub open spec fn regions_valid(regions: Seq<FreeRegion>) -> bool {
    forall|i: int| 0 <= i < regions.len() ==> (#[trigger] regions[i]).valid()
}

/// No two regions of the chain share a byte.
pub open spec fn regions_disjoint(regions: Seq<FreeRegion>) -> bool {
    forall|i: int, j: int|
        0 <= i < j < regions.len() ==> (#[trigger] regions[i]).disjoint(#[trigger] regions[j])
}

/// Whether the byte at `addr` belongs to a free region.
pub open spec fn is_free(regions: Seq<FreeRegion>, addr: int) -> bool {
    exists|i: int| 0 <= i < regions.len() && (#[trigger] regions[i]).start <= addr < regions[i].end()
}

/// The bytes of the regions.
pub open spec fn free_bytes(regions: Seq<FreeRegion>) -> Set<int> {
    Set::new(|addr: int| is_free(regions, addr))
}

/// The region shares no byte with any region of the chain.
pub open spec fn disjoint_from_all(region: FreeRegion, regions: Seq<FreeRegion>) -> bool {
    forall|i: int| 0 <= i < regions.len() ==> region.disjoint(#[trigger] regions[i])
}

/// No byte of `[start, start + size)` belongs to a region of the chain.
pub open spec fn not_free_in(regions: Seq<FreeRegion>, start: int, size: int) -> bool {
    forall|byte: int| start <= byte < start + size ==> !#[trigger] is_free(regions, byte)
}

/// Where an allocation of `size` bytes at `align` starts inside `region`,
/// or `Err` if the region cannot hold it.
///
/// The allocation starts at the first aligned address of the region and
/// must end inside it. A tail left behind it must be empty or large enough
/// to carry a header of its own: a smaller one could never be tracked again.
pub open spec fn alloc_from_region_spec(region: FreeRegion, size: usize, align: usize) -> Result<
    usize,
    (),
> {
    let alloc_start = align_up_spec(region.start as int, align as int);
    let alloc_end = alloc_start + size;
    let excess = region.end() - alloc_end;
    if alloc_end > region.end() {
        Err(())
    } else if 0 < excess < NODE_SIZE {
        Err(())
    } else {
        Ok(alloc_start as usize)
    }
}

/// Index of the first region of the chain that can hold the allocation.
pub open spec fn first_fit(regions: Seq<FreeRegion>, size: usize, align: usize) -> Option<int>
    decreases regions.len(),
{
    if regions.len() == 0 {
        None
    } else if alloc_from_region_spec(regions[0], size, align) is Ok {
        Some(0)
    } else {
        match first_fit(regions.drop_first(), size, align) {
            Some(i) => Some(i + 1),
            None => None,
        }
    }
}

/// `first_fit` names a fitting region before which none fits, and names
/// none only if no region fits.
pub proof fn lemma_first_fit(regions: Seq<FreeRegion>, size: usize, align: usize)
    ensures
        match first_fit(regions, size, align) {
            Some(i) => {
                &&& 0 <= i < regions.len()
                &&& alloc_from_region_spec(regions[i], size, align) is Ok
                &&& forall|j: int|
                    0 <= j < i ==> alloc_from_region_spec(#[trigger] regions[j], size, align) is Err
            },
            None => forall|j: int|
                0 <= j < regions.len() ==> alloc_from_region_spec(
                    #[trigger] regions[j],
                    size,
                    align,
                ) is Err,
        },
    decreases regions.len(),
{
    if regions.len() > 0 && alloc_from_region_spec(regions[0], size, align) is Err {
        let rest = regions.drop_first();
        lemma_first_fit(rest, size, align);
        assert forall|j: int| 1 <= j < regions.len() implies regions[j] == rest[j - 1] by {}
        match first_fit(rest, size, align) {
            Some(i) => {
                assert forall|j: int| 0 <= j < i + 1 implies alloc_from_region_spec(
                    #[trigger] regions[j],
                    size,
                    align,
                ) is Err by {
                    if j >= 1 {
                        assert(regions[j] == rest[j - 1]);
                    }
                }
            },
            None => {
                assert forall|j: int| 0 <= j < regions.len() implies alloc_from_region_spec(
                    #[trigger] regions[j],
                    size,
                    align,
                ) is Err by {
                    if j >= 1 {
                        assert(regions[j] == rest[j - 1]);
                    }
                }
            },
        }
    }
}

/// Size and alignment that a strategy reserves for a request: the
/// alignment raised to that of a header, the size padded to the alignment
/// and raised to the size of a header. A block so sized can carry a header
/// once it is free again.
pub open spec fn size_align_spec(layout: Layout) -> (usize, usize) {
    let align = if layout.align > NODE_ALIGN {
        layout.align
    } else {
        NODE_ALIGN
    };
    let padded = align_up_spec(layout.size as int, align as int);
    let size = if padded > NODE_SIZE {
        padded
    } else {
        NODE_SIZE as int
    };
    (size as usize, align)
}

/// The alignment of a header is a power of two.
pub proof fn lemma_node_align_is_pow2()
    ensures
        is_pow2(NODE_ALIGN as int),
{
    lemma2_to64();
    lemma_pow2_is_pow2(3);
}

/// A multiple of a power of two that is at least the alignment of a header
/// is a multiple of that alignment too.
pub proof fn lemma_multiple_of_node_align(x: int, align: usize)
    requires
        is_pow2(align as int),
        align >= NODE_ALIGN,
        x % (align as int) == 0,
    ensures
        x % (NODE_ALIGN as int) == 0,
{
    let k = lemma_pow2_exponent(align);
    lemma2_to64();
    if k < 3 {
        lemma_pow2_strictly_increases(k, 3);
    }
    let rest = (k - 3) as nat;
    lemma_pow2_adds(3, rest);
    lemma_pow2_pos(rest);
    let a = align as int;
    let m = pow2(rest) as int;
    let q = x / a;
    lemma_fundamental_div_mod(x, a);
    assert(x == 8 * (m * q)) by (nonlinear_arith)
        requires
            x == a * q,
            a == 8 * m,
    ;
    lemma_mod_multiples_basic(m * q, 8);
    lemma_mul_is_commutative(m * q, 8);
}

/// What `size_align_spec` reserves: an alignment that is a power of two and
/// at least that of the request and of a header, and a size that covers the
/// request and a header and is a multiple of a header's alignment.
pub proof fn lemma_size_align(layout: Layout)
    requires
        layout.fits_node(),
    ensures
        ({
            let (size, align) = size_align_spec(layout);
            &&& is_pow2(align as int)
            &&& align >= NODE_ALIGN
            &&& align >= layout.align
            &&& size >= NODE_SIZE
            &&& size >= layout.size
            &&& size as int % NODE_ALIGN as int == 0
            &&& size <= isize::MAX + 1
            &&& size as int == if align_up_spec(layout.size as int, align as int) > NODE_SIZE {
                align_up_spec(layout.size as int, align as int)
            } else {
                NODE_SIZE as int
            }
        }),
{
    lemma_node_align_is_pow2();
    let align = if layout.align > NODE_ALIGN {
        layout.align
    } else {
        NODE_ALIGN
    };
    lemma_pow2_bounds(align);
    lemma_align_up_spec(layout.size as int, align as int);
    let padded = align_up_spec(layout.size as int, align as int);
    if padded > NODE_SIZE {
        lemma_multiple_of_node_align(padded, align);
    } else {
        assert(16int % 8 == 0);
    }
}

/// The chain after an allocation of `layout`, and the address of the
/// allocated block.
///
/// The first fitting region leaves the chain. What is left of it behind
/// the block goes back to the front of the chain as a region of its own.
pub open spec fn alloc_spec(regions: Seq<FreeRegion>, layout: Layout) -> (
    Seq<FreeRegion>,
    Option<usize>,
) {
    let (size, align) = size_align_spec(layout);
    match first_fit(regions, size, align) {
        None => (regions, None),
        Some(i) => {
            let alloc_start = align_up_spec(regions[i].start as int, align as int);
            let alloc_end = alloc_start + size;
            let excess = regions[i].end() - alloc_end;
            let rest = regions.remove(i);
            if excess > 0 {
                (
                    seq![FreeRegion { start: alloc_end as usize, size: excess as usize }] + rest,
                    Some(alloc_start as usize),
                )
            } else {
                (rest, Some(alloc_start as usize))
            }
        },
    }
}

/// The chain after the block of `layout` at `addr` was returned.
pub open spec fn dealloc_spec(regions: Seq<FreeRegion>, addr: usize, layout: Layout) -> Seq<
    FreeRegion,
> {
    seq![FreeRegion { start: addr, size: size_align_spec(layout).0 }] + regions
}

/// A block that was returned serves the very next request, if that
/// request fits it: its reserved size is that of the block, or smaller by
/// at least a header, and the block's address suits its alignment.
pub proof fn lemma_freed_block_is_reused(
    regions: Seq<FreeRegion>,
    addr: usize,
    freed: Layout,
    request: Layout,
)
    requires
        freed.fits_node(),
        request.fits_node(),
        addr + size_align_spec(freed).0 <= usize::MAX,
        addr as int % size_align_spec(request).1 as int == 0,
        size_align_spec(request).0 == size_align_spec(freed).0 || size_align_spec(request).0
            + NODE_SIZE <= size_align_spec(freed).0,
    ensures
        alloc_spec(dealloc_spec(regions, addr, freed), request).1 == Some(addr),
{
    let (size, align) = size_align_spec(request);
    lemma_size_align(request);
    lemma_pow2_bounds(align);
    lemma_align_up_spec(addr as int, align as int);
    let after = dealloc_spec(regions, addr, freed);
    assert(after[0] == (FreeRegion { start: addr, size: size_align_spec(freed).0 }));
    assert(alloc_from_region_spec(after[0], size, align) == Ok::<usize, ()>(addr));
}

/// An allocated block lay inside a region that was free, and shares no
/// byte with any region that is free afterwards. Regions that shared no
/// byte before share none afterwards.
pub proof fn lemma_allocated_block_leaves_chain(regions: Seq<FreeRegion>, layout: Layout)
    requires
        regions_valid(regions),
        layout.fits_node(),
        alloc_spec(regions, layout).1 is Some,
    ensures
        ({
            let (after, addr) = alloc_spec(regions, layout);
            let block = FreeRegion { start: addr->0, size: size_align_spec(layout).0 };
            &&& block.start as int % size_align_spec(layout).1 as int == 0
            &&& exists|i: int|
                0 <= i < regions.len() && (#[trigger] regions[i]).start <= block.start
                    && block.end() <= regions[i].end()
            &&& regions_disjoint(regions) ==> regions_disjoint(after)
            &&& regions_disjoint(regions) ==> forall|j: int|
                0 <= j < after.len() ==> block.disjoint(#[trigger] after[j])
        }),
{
    let (size, align) = size_align_spec(layout);
    lemma_size_align(layout);
    lemma_pow2_bounds(align);
    lemma_first_fit(regions, size, align);
    let i = first_fit(regions, size, align)->0;
    lemma_align_up_spec(regions[i].start as int, align as int);
    let (after, addr) = alloc_spec(regions, layout);
    let block = FreeRegion { start: addr->0, size };
    let rest = regions.remove(i);
    assert(regions[i].start <= block.start && block.end() <= regions[i].end());
    if regions_disjoint(regions) {
        assert forall|a: int, b: int| 0 <= a < b < rest.len() implies (#[trigger] rest[a]).disjoint(
            #[trigger] rest[b],
        ) by {
            let a0 = if a < i { a } else { a + 1 };
            let b0 = if b < i { b } else { b + 1 };
            assert(rest[a] == regions[a0] && rest[b] == regions[b0]);
            assert(regions[a0].disjoint(regions[b0]));
        }
        assert forall|a: int| 0 <= a < rest.len() implies (#[trigger] rest[a]).disjoint(
            regions[i],
        ) by {
            let a0 = if a < i { a } else { a + 1 };
            assert(rest[a] == regions[a0]);
            if a0 < i {
                assert(regions[a0].disjoint(regions[i]));
            } else {
                assert(regions[i].disjoint(regions[a0]));
            }
        }
        let excess = regions[i].end() - block.end();
        if excess > 0 {
            let tail = FreeRegion { start: block.end() as usize, size: excess as usize };
            assert(after == seq![tail] + rest);
            assert forall|a: int, b: int| 0 <= a < b < after.len() implies (
            #[trigger] after[a]).disjoint(#[trigger] after[b]) by {
                if a == 0 {
                    assert(after[b] == rest[b - 1]);
                    assert(rest[b - 1].disjoint(regions[i]));
                } else {
                    assert(after[a] == rest[a - 1] && after[b] == rest[b - 1]);
                }
            }
            assert forall|j: int| 0 <= j < after.len() implies block.disjoint(
                #[trigger] after[j],
            ) by {
                if j > 0 {
                    assert(after[j] == rest[j - 1]);
                    assert(rest[j - 1].disjoint(regions[i]));
                }
            }
        } else {
            assert(after == rest);
            assert forall|j: int| 0 <= j < after.len() implies block.disjoint(
                #[trigger] after[j],
            ) by {
                assert(rest[j].disjoint(regions[i]));
            }
        }
    }
}

/// Where the block that comes back shares no byte with any free region,
/// the regions of the chain share none with each other afterwards.
pub proof fn lemma_returned_block_joins_chain(
    regions: Seq<FreeRegion>,
    addr: usize,
    layout: Layout,
)
    requires
        regions_disjoint(regions),
        forall|j: int|
            0 <= j < regions.len() ==> (FreeRegion {
                start: addr,
                size: size_align_spec(layout).0,
            }).disjoint(#[trigger] regions[j]),
    ensures
        regions_disjoint(dealloc_spec(regions, addr, layout)),
{
    let after = dealloc_spec(regions, addr, layout);
    assert forall|a: int, b: int| 0 <= a < b < after.len() implies (#[trigger] after[a]).disjoint(
        #[trigger] after[b],
    ) by {
        assert(after[b] == regions[b - 1]);
        if a > 0 {
            assert(after[a] == regions[a - 1]);
        }
    }
}

/// An allocation frees no byte: what is free afterwards was free before.
pub proof fn lemma_alloc_frees_nothing(regions: Seq<FreeRegion>, layout: Layout)
    requires
        regions_valid(regions),
        layout.fits_node(),
    ensures
        free_bytes(alloc_spec(regions, layout).0).subset_of(free_bytes(regions)),
{
    let (size, align) = size_align_spec(layout);
    lemma_size_align(layout);
    lemma_pow2_bounds(align);
    lemma_first_fit(regions, size, align);
    let (after, addr) = alloc_spec(regions, layout);
    if addr is Some {
        let i = first_fit(regions, size, align)->0;
        lemma_align_up_spec(regions[i].start as int, align as int);
        let rest = regions.remove(i);
        assert forall|byte: int| free_bytes(after).contains(byte) implies free_bytes(
            regions,
        ).contains(byte) by {
            let k = choose|k: int|
                0 <= k < after.len() && (#[trigger] after[k]).start <= byte < after[k].end();
            if after.len() == rest.len() {
                let k0 = if k < i {
                    k
                } else {
                    k + 1
                };
                assert(after[k] == regions[k0]);
            } else if k == 0 {
                assert(regions[i].start <= byte < regions[i].end());
            } else {
                let k0 = if k - 1 < i {
                    k - 1
                } else {
                    k
                };
                assert(after[k] == regions[k0]);
            }
        }
    }
}

/// A block that comes back frees its own bytes and no others.
pub proof fn lemma_dealloc_frees_the_block(regions: Seq<FreeRegion>, addr: usize, layout: Layout)
    ensures
        forall|byte: int| #[trigger]
            is_free(dealloc_spec(regions, addr, layout), byte) <==> is_free(regions, byte) || addr
                <= byte < addr + size_align_spec(layout).0,
{
    let after = dealloc_spec(regions, addr, layout);
    assert forall|byte: int| #[trigger]
        is_free(after, byte) <==> is_free(regions, byte) || addr <= byte < addr + size_align_spec(
            layout,
        ).0 by {
        if is_free(after, byte) {
            let k = choose|k: int| 0 <= k < after.len() && (#[trigger] after[k]).start <= byte
                < after[k].end();
            if k > 0 {
                assert(after[k] == regions[k - 1]);
            }
        }
        if is_free(regions, byte) {
            let k = choose|k: int| 0 <= k < regions.len() && (#[trigger] regions[k]).start <= byte
                < regions[k].end();
            assert(after[k + 1] == regions[k]);
        }
        if addr <= byte < addr + size_align_spec(layout).0 {
            assert(after[0].start <= byte < after[0].end());
        }
    }
}

/// No byte of a region that shares none with the regions of the chain
/// is free.
pub proof fn lemma_disjoint_is_not_free(region: FreeRegion, regions: Seq<FreeRegion>)
    requires
        disjoint_from_all(region, regions),
    ensures
        not_free_in(regions, region.start as int, region.size as int),
{
    assert forall|byte: int| region.start <= byte < region.start + region.size implies !#[trigger] is_free(
        regions,
        byte,
    ) by {
        if is_free(regions, byte) {
            let i = choose|i: int|
                0 <= i < regions.len() && (#[trigger] regions[i]).start <= byte < regions[i].end();
            assert(region.disjoint(regions[i]));
        }
    }
}

/// A valid region of which no byte is free shares no byte with any region
/// of the chain.
pub proof fn lemma_not_free_is_disjoint(region: FreeRegion, regions: Seq<FreeRegion>)
    requires
        region.valid(),
        regions_valid(regions),
        not_free_in(regions, region.start as int, region.size as int),
    ensures
        disjoint_from_all(region, regions),
{
    assert forall|i: int| 0 <= i < regions.len() implies region.disjoint(#[trigger] regions[i]) by {
        if !region.disjoint(regions[i]) {
            let addr = if region.start >= regions[i].start {
                region.start as int
            } else {
                regions[i].start as int
            };
            assert(regions[i].start <= addr < regions[i].end());
            assert(is_free(regions, addr));
        }
    }
}

} // verus!
