use vstd::prelude::*;

verus! {

/// Size in bytes of one physical page frame.
pub const PAGE_SIZE: usize = 4096;

/// A physical memory address.
pub type PhysicalAddress = usize;

/// A contiguous run of physical memory.
#[derive(Clone, Copy, Debug, PartialEq, Eq, Structural)]
pub struct MemoryArea {
    pub start: PhysicalAddress,
    pub size: usize,
}

/// The area lies within the address space.
pub open spec fn area_fits(a: MemoryArea) -> bool {
    a.start + a.size <= usize::MAX
}

/// The address `offset` bytes into the areas taken one after another, if the
/// areas reach that far.
pub open spec fn spec_bump(areas: Seq<MemoryArea>, offset: int) -> Option<int>
    decreases areas.len(),
{
    if areas.len() == 0 {
        None
    } else if offset < areas[0].size {
        Some(areas[0].start + offset)
    } else {
        spec_bump(areas.drop_first(), offset - areas[0].size)
    }
}

/// Hands out page frames from a list of memory areas in order, never taking
/// one back.
pub struct BumpAllocator {
    pub areas: &'static [MemoryArea],
    pub offset: usize,
}

impl BumpAllocator {
    /// An allocator over `areas` whose next frame lies `offset` bytes in.
    pub fn new(areas: &'static [MemoryArea], offset: usize) -> (r: Self)
        ensures
            r.areas@ == areas@,
            r.offset == offset,
    {
        Self { areas, offset }
    }

    /// Returns the frame at the current offset and moves the offset one page
    /// on; returns `None`, leaving the offset, when the areas end before it.
    pub fn allocate(&mut self) -> (r: Option<PhysicalAddress>)
        requires
            forall|i: int| 0 <= i < old(self).areas@.len() ==> area_fits(#[trigger] old(self).areas@[i]),
            old(self).offset + PAGE_SIZE <= usize::MAX,
        ensures
            final(self).areas == old(self).areas,
            match spec_bump(old(self).areas@, old(self).offset as int) {
                Some(a) => r == Some(a as usize) && final(self).offset == old(self).offset + PAGE_SIZE,
                None => r is None && final(self).offset == old(self).offset,
            },
    {
        let mut offset = self.offset;
        let n = self.areas.len();
        let mut i: usize = 0;
        assert(self.areas@.subrange(0, n as int) =~= self.areas@);
        while i < n
            invariant
                n == self.areas@.len(),
                *self == *old(self),
                self.offset + PAGE_SIZE <= usize::MAX,
                0 <= i <= n,
                forall|k: int| 0 <= k < n ==> area_fits(#[trigger] self.areas@[k]),
                spec_bump(self.areas@, self.offset as int) == spec_bump(
                    self.areas@.subrange(i as int, n as int),
                    offset as int,
                ),
            decreases n - i,
        {
            let area = self.areas[i];
            let ghost rest = self.areas@.subrange(i as int, n as int);
            assert(rest[0] == area);
            assert(rest.drop_first() =~= self.areas@.subrange(i + 1, n as int));
            if offset < area.size {
                self.offset = self.offset + PAGE_SIZE;
                return Some(area.start + offset);
            }
            offset = offset - area.size;
            i = i + 1;
        }
        assert(self.areas@.subrange(n as int, n as int).len() == 0);
        None
    }
}

} // verus!
