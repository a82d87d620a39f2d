//! The free-space list: unallocated byte ranges of the device.
use vstd::prelude::*;
use crate::error::StoreError;

verus! {

/// A contiguous unallocated range `[offset, offset + size)`.
#[derive(Debug, Clone, Copy, PartialEq, Eq, Structural)]
pub struct FreeSlot {
    pub offset: u64,
    pub size: u64,
}

impl FreeSlot {
    pub open spec fn end(self) -> int {
        self.offset + self.size
    }
}

/// The free ranges, in insertion order.
#[derive(Debug)]
pub struct FreeList {
    slots: Vec<FreeSlot>,
}

/// Each range lies within the 64-bit address space.
pub open spec fn slots_wf(s: Seq<FreeSlot>) -> bool {
    forall|i: int| 0 <= i < s.len() ==> #[trigger] s[i].end() <= u64::MAX
}

/// `i` is the first slot of `s` that can hold `size` bytes.
pub open spec fn is_first_fit(s: Seq<FreeSlot>, size: u64, i: int) -> bool {
    0 <= i < s.len() && s[i].size >= size && forall|j: int| 0 <= j < i ==> #[trigger] s[j].size < size
}

/// The slots after `size` bytes were taken from the front of slot `i`.
pub open spec fn take_from(s: Seq<FreeSlot>, i: int, size: u64) -> Seq<FreeSlot> {
    if s[i].size == size {
        s.remove(i)
    } else {
        s.update(i, FreeSlot { offset: (s[i].offset + size) as u64, size: (s[i].size - size) as u64 })
    }
}

/// `i` is the first slot of `s` that ends exactly at `p`.
pub open spec fn is_first_ending_at(s: Seq<FreeSlot>, p: int, i: int) -> bool {
    0 <= i < s.len() && s[i].end() == p && forall|j: int| 0 <= j < i ==> #[trigger] s[j].end() != p
}

/// `i` is the first slot of `s` that starts exactly at `p`.
pub open spec fn is_first_starting_at(s: Seq<FreeSlot>, p: int, i: int) -> bool {
    0 <= i < s.len() && s[i].offset == p && forall|j: int| 0 <= j < i ==> #[trigger] s[j].offset != p
}

/// The first slot of `s` that ends exactly at `p`, or -1.
pub open spec fn first_ending_at(s: Seq<FreeSlot>, p: int) -> int {
    if exists|i: int| is_first_ending_at(s, p, i) {
        choose|i: int| is_first_ending_at(s, p, i)
    } else {
        -1
    }
}

/// The first slot of `s` that starts exactly at `p`, or -1.
pub open spec fn first_starting_at(s: Seq<FreeSlot>, p: int) -> int {
    if exists|i: int| is_first_starting_at(s, p, i) {
        choose|i: int| is_first_starting_at(s, p, i)
    } else {
        -1
    }
}

/// The slots after `[offset, offset + size)` was given back, where `l` is the
/// first slot ending at `offset` (or -1), and `r` the first slot starting at
/// `offset + size` (or -1).
pub open spec fn give_back(s: Seq<FreeSlot>, offset: u64, size: u64, l: int, r: int) -> Seq<FreeSlot> {
    if l >= 0 && r >= 0 && l != r {
        s.update(l, FreeSlot { offset: s[l].offset, size: (s[l].size + size + s[r].size) as u64 }).remove(r)
    } else if l >= 0 {
        s.update(l, FreeSlot { offset: s[l].offset, size: (s[l].size + size) as u64 })
    } else if r >= 0 {
        s.update(r, FreeSlot { offset, size: (s[r].size + size) as u64 })
    } else {
        s.push(FreeSlot { offset, size })
    }
}

impl FreeList {
    pub closed spec fn view(&self) -> Seq<FreeSlot> {
        self.slots@
    }

    pub open spec fn wf(&self) -> bool {
        slots_wf(self@)
    }

    /// The list of a freshly formatted device: one slot from the end of the
    /// superblock up to the start of the header reservation's share.
    pub fn new(diskheadersize: u64, disksize: u64, headerspace: u64) -> (r: FreeList)
        requires
            diskheadersize + headerspace <= disksize,
        ensures
            r.wf(),
            r@ == seq![FreeSlot { offset: diskheadersize, size: (disksize - diskheadersize - headerspace) as u64 }],
    {
        let mut slots = Vec::new();
        let offset = diskheadersize;
        let size = disksize - diskheadersize - headerspace;
        slots.push(FreeSlot { offset, size });
        let r = FreeList { slots };
        assert(r@ =~= seq![FreeSlot { offset: diskheadersize, size: (disksize - diskheadersize - headerspace) as u64 }]);
        r
    }

    /// A list holding the given slots, in order; fails with
    /// `HeaderDecodingFailure` where a slot runs past the 64-bit range.
    pub fn from_slots(slots: Vec<FreeSlot>) -> (r: Result<FreeList, StoreError>)
        ensures
            slots_wf(slots@) <==> r is Ok,
            r matches Err(e) ==> e == StoreError::HeaderDecodingFailure,
            r matches Ok(l) ==> l@ == slots@ && l.wf(),
    {
        let mut i: usize = 0;
        while i < slots.len()
            invariant
                i <= slots@.len(),
                forall|j: int| 0 <= j < i ==> #[trigger] slots@[j].end() <= u64::MAX,
            decreases slots@.len() - i,
        {
            if slots[i].offset > u64::MAX - slots[i].size {
                assert(slots@[i as int].end() > u64::MAX);
                return Err(StoreError::HeaderDecodingFailure);
            }
            i += 1;
        }
        Ok(FreeList { slots })
    }

    /// The slots, in order.
    pub fn slots(&self) -> (r: &Vec<FreeSlot>)
        ensures
            r@ == self@,
    {
        &self.slots
    }

    /// Takes `size` bytes from the first slot large enough (first fit over
    /// insertion order) and returns their offset; the slot shrinks from its
    /// front, or goes when it is used up.
    pub fn allocate(&mut self, size: u64) -> (r: Result<u64, StoreError>)
        requires
            old(self).wf(),
        ensures
            final(self).wf(),
            (forall|j: int| 0 <= j < old(self)@.len() ==> #[trigger] old(self)@[j].size < size)
                <==> r == Err::<u64, StoreError>(StoreError::OutOfSpace),
            r is Err ==> final(self)@ == old(self)@,
            forall|i: int| is_first_fit(old(self)@, size, i) ==> r == Ok::<u64, StoreError>(old(self)@[i].offset)
                && final(self)@ == take_from(old(self)@, i, size),
    {
        let ghost s = self@;
        let mut i: usize = 0;
        while i < self.slots.len()
            invariant
                self@ == s,
                s == old(self)@,
                slots_wf(s),
                i <= s.len(),
                forall|j: int| 0 <= j < i ==> #[trigger] s[j].size < size,
            decreases s.len() - i,
        {
            if self.slots[i].size >= size {
                let slot = self.slots[i];
                assert(is_first_fit(s, size, i as int));
                assert(s[i as int].size >= size);
                assert forall|k: int| is_first_fit(s, size, k) implies k == i by {
                    if k < i {
                    } else if k > i {
                        assert(s[i as int].size < size);
                    }
                };
                assert(s[i as int].end() <= u64::MAX);
                if slot.size == size {
                    self.slots.remove(i);
                } else {
                    self.slots.set(i, FreeSlot { offset: slot.offset + size, size: slot.size - size });
                }
                assert(self@ =~= take_from(s, i as int, size));
                assert forall|j: int| 0 <= j < self@.len() implies #[trigger] self@[j].end() <= u64::MAX by {
                    if slot.size == size {
                        if j >= i { assert(self@[j] == s[j + 1]); }
                    }
                };
                return Ok(slot.offset);
            }
            i += 1;
        }
        Err(StoreError::OutOfSpace)
    }

    /// Returns `[offset, offset + size)` to the list, merged with the slot
    /// that ends where it starts and with the slot that starts where it ends.
    pub fn free(&mut self, offset: u64, size: u64)
        requires
            old(self).wf(),
            offset + size <= u64::MAX,
        ensures
            final(self).wf(),
            final(self)@ == give_back(old(self)@, offset, size, first_ending_at(old(self)@, offset as int),
                first_starting_at(old(self)@, offset + size)),
    {
        let ghost s = self@;
        let mut l: usize = 0;
        while l < self.slots.len() && self.slots[l].offset as u128 + self.slots[l].size as u128 != offset as u128
            invariant
                self@ == s,
                l <= s.len(),
                slots_wf(s),
                forall|j: int| 0 <= j < l ==> #[trigger] s[j].end() != offset,
            decreases s.len() - l,
        {
            l += 1;
        }
        let mut r: usize = 0;
        while r < self.slots.len() && self.slots[r].offset != offset + size
            invariant
                self@ == s,
                offset + size <= u64::MAX,
                r <= s.len(),
                forall|j: int| 0 <= j < r ==> #[trigger] s[j].offset != offset + size,
            decreases s.len() - r,
        {
            r += 1;
        }
        let n = self.slots.len();
        let ghost gl: int = if l < n { l as int } else { -1 };
        let ghost gr: int = if r < n { r as int } else { -1 };
        if l < n {
            assert(is_first_ending_at(s, offset as int, l as int));
            assert forall|k: int| is_first_ending_at(s, offset as int, k) implies k == l by {
                if k > l { assert(s[l as int].end() == offset); }
            };
        } else {
            assert forall|k: int| !is_first_ending_at(s, offset as int, k) by {};
        }
        let ghost e: int = offset + size;
        if r < n {
            assert(is_first_starting_at(s, e, r as int));
            assert forall|k: int| is_first_starting_at(s, e, k) implies k == r by {
                if k > r { assert(s[r as int].offset == offset + size); }
            };
        } else {
            assert forall|k: int| !is_first_starting_at(s, e, k) by {};
        }
        assert(first_ending_at(s, offset as int) == gl);
        assert(first_starting_at(s, e) == gr);
        if l < n && r < n && l != r {
            let a = self.slots[l];
            let b = self.slots[r];
            assert(b.end() <= u64::MAX);
            self.slots.set(l, FreeSlot { offset: a.offset, size: a.size + size + b.size });
            self.slots.remove(r);
        } else if l < n {
            let a = self.slots[l];
            self.slots.set(l, FreeSlot { offset: a.offset, size: a.size + size });
        } else if r < n {
            let b = self.slots[r];
            assert(b.end() <= u64::MAX);
            self.slots.set(r, FreeSlot { offset, size: b.size + size });
        } else {
            self.slots.push(FreeSlot { offset, size });
        }
        assert(self@ =~= give_back(s, offset, size, gl, gr));
        assert forall|j: int| 0 <= j < self@.len() implies #[trigger] self@[j].end() <= u64::MAX by {
            if l < n && r < n && l != r {
                if j >= r { assert(self@[j] == s.update(l as int, FreeSlot { offset: s[l as int].offset, size: (s[l as int].size + size + s[r as int].size) as u64 })[j + 1]); }
            }
        };
    }
}

} // verus!
