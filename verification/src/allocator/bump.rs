//! The bump strategy: a cursor that only moves forward until every
//! allocation has been returned.

use super::align::{align_up_spec, lemma_align_up_overflow, lemma_align_up_spec, lemma_pow2_bounds};
use super::{align_up, Layout};
use vstd::prelude::*;

verus! {

/// The bump heap strategy.
///
/// The heap is `[heap_start, heap_end)`. Blocks are cut off at the cursor
/// `next`, which moves towards `heap_end`. Nothing is reused until the last
/// outstanding block has come back: then the cursor returns to `heap_start`.
pub struct BumpAllocator {
    heap_start: usize,
    heap_end: usize,
    next: usize,
    allocations: usize,
}

/// The state of a bump allocator.
pub struct BumpState {
    pub heap_start: usize,
    pub heap_end: usize,
    /// The cursor: the first address that was not handed out.
    pub next: usize,
    /// How many blocks are outstanding.
    pub allocations: usize,
}

impl BumpState {
    /// While no block is outstanding the cursor is at the start of the
    /// heap.
    pub open spec fn wf(self) -> bool {
        self.allocations == 0 ==> self.next == self.heap_start
    }
}

/// The state after a request for `layout`, and the address of the block.
///
/// The block starts at the cursor, rounded up to the alignment. The request
/// fails, and changes nothing, if the block would end behind the heap or if
/// the count of outstanding blocks is at its maximum.
pub open spec fn alloc_spec(state: BumpState, layout: Layout) -> (BumpState, Option<usize>) {
    let alloc_start = align_up_spec(state.next as int, layout.align as int);
    let alloc_end = alloc_start + layout.size;
    if alloc_end > state.heap_end || state.allocations == usize::MAX {
        (state, None)
    } else {
        (
            BumpState {
                next: alloc_end as usize,
                allocations: (state.allocations + 1) as usize,
                ..state
            },
            Some(alloc_start as usize),
        )
    }
}

/// The state after one block came back: one block less is outstanding, and
/// with the last one the cursor returns to the start of the heap.
pub open spec fn dealloc_spec(state: BumpState) -> BumpState {
    let allocations = (state.allocations - 1) as usize;
    BumpState {
        allocations,
        next: if allocations == 0 {
            state.heap_start
        } else {
            state.next
        },
        ..state
    }
}

impl View for BumpAllocator {
    type V = BumpState;

    closed spec fn view(&self) -> BumpState {
        BumpState {
            heap_start: self.heap_start,
            heap_end: self.heap_end,
            next: self.next,
            allocations: self.allocations,
        }
    }
}

impl BumpAllocator {
    /// An allocator over an empty heap.
    pub fn new() -> (allocator: Self)
        ensures
            allocator@ == (BumpState { heap_start: 0, heap_end: 0, next: 0, allocations: 0 }),
            allocator@.wf(),
    {
        BumpAllocator { heap_start: 0, heap_end: 0, next: 0, allocations: 0 }
    }

    /// Sets the heap to `[heap_start, heap_start + heap_size)` and the
    /// cursor to its start.
    pub fn init(&mut self, heap_start: usize, heap_size: usize)
        requires
            heap_start + heap_size <= usize::MAX,
        ensures
            final(self)@ == (BumpState {
                heap_start,
                heap_end: (heap_start + heap_size) as usize,
                next: heap_start,
                allocations: old(self)@.allocations,
            }),
            final(self)@.wf(),
    {
        self.heap_start = heap_start;
        self.heap_end = heap_start + heap_size;
        self.next = heap_start;
    }

    /// Allocates a block for `layout` at the cursor and returns its
    /// address, or `None` if the heap has no room left for it.
    pub fn allocate(&mut self, layout: Layout) -> (addr: Option<usize>)
        requires
            layout.wf(),
        ensures
            (final(self)@, addr) == alloc_spec(old(self)@, layout),
            old(self)@.wf() ==> final(self)@.wf(),
    {
        let align = layout.align();
        proof {
            lemma_pow2_bounds(align);
            lemma_align_up_overflow(self.next, align);
            lemma_align_up_spec(self.next as int, align as int);
        }
        if self.next > usize::MAX - (align - 1) {
            return None;
        }
        let alloc_start = align_up(self.next, align);
        let alloc_end = match alloc_start.checked_add(layout.size()) {
            Some(end) => end,
            None => {
                return None;
            },
        };
        if alloc_end > self.heap_end || self.allocations == usize::MAX {
            None
        } else {
            self.next = alloc_end;
            self.allocations += 1;
            Some(alloc_start)
        }
    }

    /// How many blocks are outstanding.
    pub fn allocations(&self) -> (count: usize)
        ensures
            count == self@.allocations,
    {
        self.allocations
    }

    /// Takes one block back. The block itself is not looked at: only the
    /// count of outstanding blocks changes, and with it, at zero, the cursor.
    pub fn deallocate(&mut self, _addr: usize, _layout: Layout)
        requires
            old(self)@.allocations > 0,
        ensures
            final(self)@ == dealloc_spec(old(self)@),
            final(self)@.wf(),
    {
        self.allocations -= 1;
        if self.allocations == 0 {
            self.next = self.heap_start;
        }
    }
}

/// One call on a bump allocator.
pub enum BumpOp {
    Allocate(Layout),
    Deallocate,
}

/// The state after one call.
pub open spec fn step(state: BumpState, op: BumpOp) -> BumpState {
    match op {
        BumpOp::Allocate(layout) => alloc_spec(state, layout).0,
        BumpOp::Deallocate => dealloc_spec(state),
    }
}

/// The state after a sequence of calls, first to last.
pub open spec fn run(state: BumpState, ops: Seq<BumpOp>) -> BumpState
    decreases ops.len(),
{
    if ops.len() == 0 {
        state
    } else {
        step(run(state, ops.drop_last()), ops.last())
    }
}

/// The calls are ones that a caller may make: every request has a valid
/// layout, and a block comes back only while one is outstanding.
pub open spec fn permitted(state: BumpState, ops: Seq<BumpOp>) -> bool {
    forall|i: int|
        0 <= i < ops.len() ==> match #[trigger] ops[i] {
            BumpOp::Allocate(layout) => layout.wf(),
            BumpOp::Deallocate => run(state, ops.take(i)).allocations > 0,
        }
}

/// Whenever no block is outstanding after a sequence of calls, the cursor
/// is back at the start of the heap: so it is after any number of
/// allocations that were all returned, in whatever order.
pub proof fn lemma_cursor_returns(state: BumpState, ops: Seq<BumpOp>)
    requires
        state.wf(),
    ensures
        run(state, ops).wf(),
        run(state, ops).heap_start == state.heap_start,
        run(state, ops).allocations == 0 ==> run(state, ops).next == state.heap_start,
{
    lemma_run_keeps_wf(state, ops, ops.len() as int);
    assert(ops.take(ops.len() as int) =~= ops);
}

/// After any number of the calls the state is valid, and the heap starts
/// where it did.
proof fn lemma_run_keeps_wf(state: BumpState, ops: Seq<BumpOp>, n: int)
    requires
        state.wf(),
        0 <= n <= ops.len(),
    ensures
        run(state, ops.take(n)).wf(),
        run(state, ops.take(n)).heap_start == state.heap_start,
    decreases n,
{
    if n > 0 {
        lemma_run_keeps_wf(state, ops, n - 1);
        lemma_run_step(state, ops, n - 1);
    } else {
        assert(ops.take(0) =~= Seq::<BumpOp>::empty());
    }
}

/// The state after the first `n + 1` calls is the state after the first
/// `n`, and then call `n`.
pub proof fn lemma_run_step(state: BumpState, ops: Seq<BumpOp>, n: int)
    requires
        0 <= n < ops.len(),
    ensures
        run(state, ops.take(n + 1)) == step(run(state, ops.take(n)), ops[n]),
{
    assert(ops.take(n + 1).drop_last() =~= ops.take(n));
    assert(ops.take(n + 1).last() == ops[n]);
}

/// A call that leaves a block outstanding does not move the cursor back.
pub proof fn lemma_step_monotonic(state: BumpState, op: BumpOp)
    requires
        op matches BumpOp::Allocate(layout) ==> layout.wf(),
        op is Deallocate ==> state.allocations > 0,
        step(state, op).allocations > 0,
    ensures
        state.next <= step(state, op).next,
{
    match op {
        BumpOp::Allocate(layout) => {
            lemma_pow2_bounds(layout.align);
            lemma_align_up_spec(state.next as int, layout.align as int);
        },
        BumpOp::Deallocate => {},
    }
}

/// Between call `i` and call `j` the cursor does not move back, if a block
/// is outstanding after each call between them.
proof fn lemma_cursor_between(state: BumpState, ops: Seq<BumpOp>, i: int, j: int)
    requires
        permitted(state, ops),
        0 <= i <= j <= ops.len(),
        forall|n: int| i < n <= j ==> (#[trigger] run(state, ops.take(n))).allocations > 0,
    ensures
        run(state, ops.take(i)).next <= run(state, ops.take(j)).next,
    decreases j - i,
{
    if i < j {
        lemma_cursor_between(state, ops, i, j - 1);
        lemma_run_step(state, ops, j - 1);
        let before = run(state, ops.take(j - 1));
        assert(run(state, ops.take(j)).allocations > 0);
        assert(ops[j - 1] is Deallocate ==> before.allocations > 0);
        assert(ops[j - 1] matches BumpOp::Allocate(layout) ==> layout.wf());
        lemma_step_monotonic(before, ops[j - 1]);
    }
}

/// While at least one block stays outstanding, the cursor never moves
/// back: after each further call it is where it was or further on.
pub proof fn lemma_cursor_monotonic(state: BumpState, ops: Seq<BumpOp>)
    requires
        permitted(state, ops),
        forall|n: int| 0 < n <= ops.len() ==> (#[trigger] run(state, ops.take(n))).allocations > 0,
    ensures
        state.next <= run(state, ops).next,
        forall|i: int, j: int|
            0 <= i <= j <= ops.len() ==> run(state, #[trigger] ops.take(i)).next <= run(
                state,
                #[trigger] ops.take(j),
            ).next,
{
    assert(ops.take(ops.len() as int) =~= ops);
    assert(ops.take(0) =~= Seq::<BumpOp>::empty());
    assert forall|i: int, j: int| 0 <= i <= j <= ops.len() implies run(
        state,
        #[trigger] ops.take(i),
    ).next <= run(state, #[trigger] ops.take(j)).next by {
        lemma_cursor_between(state, ops, i, j);
    }
    lemma_cursor_between(state, ops, 0, ops.len() as int);
}

} // verus!
