//! The memory of the heap, as the strategies see it: a run of 8-byte words
//! that are read and written by their addresses.

use vstd::prelude::*;

verus! {

/// Size in bytes of a word of heap memory.
pub const WORD_SIZE: usize = 8;

/// The memory of a heap: the words from address `start` on.
pub struct HeapMemory<'a> {
    start: usize,
    words: &'a mut [u64],
}

impl<'a> HeapMemory<'a> {
    /// The address of the first word.
    pub closed spec fn start(&self) -> usize {
        self.start
    }

    /// What the words hold, from the first on.
    pub closed spec fn words(&self) -> Seq<u64> {
        self.words@
    }

    /// One past the address of the last byte.
    pub open spec fn end(&self) -> int {
        self.start() + WORD_SIZE * self.words().len()
    }

    /// The memory starts on a word boundary and ends inside the address
    /// space.
    pub open spec fn wf(&self) -> bool {
        &&& self.start() as int % WORD_SIZE as int == 0
        &&& self.end() <= usize::MAX
    }

    /// `addr` is the address of a word of this memory.
    pub open spec fn holds(&self, addr: int) -> bool {
        &&& self.start() <= addr
        &&& addr + WORD_SIZE <= self.end()
        &&& addr % WORD_SIZE as int == 0
    }

    /// What the word at `addr` holds.
    pub closed spec fn word(&self, addr: int) -> u64 {
        self.words()[(addr - self.start()) / WORD_SIZE as int]
    }

    /// The same memory with other contents: every word of the one is a
    /// word of the other.
    pub open spec fn same_extent(&self, other: &HeapMemory) -> bool {
        self.start() == other.start() && self.words().len() == other.words().len()
    }

    /// The two memories hold the same in every word but those of
    /// `changed`.
    pub open spec fn same_but(&self, other: &HeapMemory, changed: Set<int>) -> bool {
        &&& self.same_extent(other)
        &&& forall|addr: int|
            other.holds(addr) && !changed.contains(addr) ==> #[trigger] self.word(addr)
                == other.word(addr)
    }

    /// Memory without any word.
    pub fn empty() -> (memory: Self)
        ensures
            memory.wf(),
            memory.start() == 0,
            memory.words().len() == 0,
    {
        HeapMemory { start: 0, words: &mut [] }
    }

    /// The memory whose words, from the address `start` on, are `words`.
    pub fn new(start: usize, words: &'a mut [u64]) -> (memory: Self)
        requires
            start as int % WORD_SIZE as int == 0,
            start + WORD_SIZE * old(words)@.len() <= usize::MAX,
        ensures
            memory.wf(),
            memory.start() == start,
            memory.words() == old(words)@,
    {
        HeapMemory { start, words }
    }

    /// The address of the first word.
    pub fn start_addr(&self) -> (start: usize)
        ensures
            start == self.start(),
    {
        self.start
    }

    /// How many bytes the memory has.
    pub fn size(&self) -> (size: usize)
        requires
            self.wf(),
        ensures
            size == WORD_SIZE * self.words().len(),
    {
        self.words.len() * WORD_SIZE
    }

    /// Whether `addr` is the address of a word of this memory.
    pub fn contains(&self, addr: usize) -> (held: bool)
        requires
            self.wf(),
        ensures
            held == self.holds(addr as int),
    {
        addr >= self.start && addr % WORD_SIZE == 0 && (addr - self.start) / WORD_SIZE
            < self.words.len()
    }

    /// Whether the `size` bytes from `addr` on all lie in this memory.
    pub fn spans(&self, addr: usize, size: usize) -> (inside: bool)
        requires
            self.wf(),
        ensures
            inside == (self.start() <= addr && addr + size <= self.end()),
    {
        addr >= self.start && size <= self.words.len() * WORD_SIZE && addr - self.start
            <= self.words.len() * WORD_SIZE - size
    }

    /// Reads the word at `addr`.
    pub fn read(&self, addr: usize) -> (word: u64)
        requires
            self.wf(),
            self.holds(addr as int),
        ensures
            word == self.word(addr as int),
    {
        self.words[(addr - self.start) / WORD_SIZE]
    }

    /// Writes `value` to the word at `addr`. Every other word stays.
    pub fn write(&mut self, addr: usize, value: u64)
        requires
            old(self).wf(),
            old(self).holds(addr as int),
        ensures
            final(self).wf(),
            final(self).same_extent(old(self)),
            final(self).word(addr as int) == value,
            final(self).same_but(old(self), set![addr as int]),
    {
        let index = (addr - self.start) / WORD_SIZE;
        self.words[index] = value;
        assert forall|other: int| old(self).holds(other) && other != addr implies #[trigger] self.word(
            other,
        ) == old(self).word(other) by {
            let j = (other - self.start) / WORD_SIZE as int;
            assert(j != index);
        }
    }
}

} // verus!
