//! The graph-object catalog: persisted vertices, edges and properties.
use vstd::prelude::*;
use crate::error::StoreError;

verus! {

/// What a graph object is.
#[derive(Debug, Clone, Copy, PartialEq, Eq, Structural)]
pub enum GOBtype {
    Vertex,
    Edge,
    Property,
}

/// A graph object and the extent that holds it on the device.
#[derive(Debug, Clone, Copy, PartialEq, Eq, Structural)]
pub struct GOB {
    pub id: u64,
    pub gobtype: GOBtype,
    pub offset: u64,
    pub size: u64,
}

/// The catalog of graph objects, with the next identifier to hand out.
#[derive(Debug)]
pub struct GOBList {
    goblist: Vec<GOB>,
    next_id: u64,
}

/// Identifiers are unique and all below `next`.
pub open spec fn gobs_wf(s: Seq<GOB>, next: u64) -> bool {
    &&& forall|i: int| 0 <= i < s.len() ==> #[trigger] s[i].id < next
    &&& forall|i: int, j: int| 0 <= i < s.len() && 0 <= j < s.len() && i != j ==> #[trigger] s[i].id != #[trigger] s[j].id
}

/// `s` holds an entry with identifier `id`.
pub open spec fn has_id(s: Seq<GOB>, id: u64) -> bool {
    exists|i: int| 0 <= i < s.len() && #[trigger] s[i].id == id
}

impl GOBList {
    pub closed spec fn view(&self) -> Seq<GOB> {
        self.goblist@
    }

    pub closed spec fn next_id(&self) -> u64 {
        self.next_id
    }

    pub open spec fn wf(&self) -> bool {
        gobs_wf(self@, self.next_id())
    }

    /// An empty catalog.
    pub fn new() -> (r: GOBList)
        ensures
            r.wf(),
            r@ == Seq::<GOB>::empty(),
            r.next_id() == 0,
    {
        let goblist = Vec::new();
        GOBList { goblist, next_id: 0 }
    }

    /// A catalog holding the given entries, handing out identifiers from
    /// `next_id` on; fails with `HeaderDecodingFailure` where two entries
    /// share an identifier or one is not below `next_id`.
    pub fn from_parts(goblist: Vec<GOB>, next_id: u64) -> (r: Result<GOBList, StoreError>)
        ensures
            gobs_wf(goblist@, next_id) <==> r is Ok,
            r matches Err(e) ==> e == StoreError::HeaderDecodingFailure,
            r matches Ok(l) ==> l@ == goblist@ && l.next_id() == next_id && l.wf(),
    {
        let ghost s = goblist@;
        let mut i: usize = 0;
        while i < goblist.len()
            invariant
                i <= s.len(),
                s == goblist@,
                forall|j: int| 0 <= j < i ==> #[trigger] s[j].id < next_id,
                forall|a: int, b: int| 0 <= a < i && 0 <= b < i && a != b ==> #[trigger] s[a].id != #[trigger] s[b].id,
            decreases s.len() - i,
        {
            if goblist[i].id >= next_id {
                return Err(StoreError::HeaderDecodingFailure);
            }
            let mut a: usize = 0;
            while a < i
                invariant
                    a <= i < s.len(),
                    s == goblist@,
                    forall|b: int| 0 <= b < a ==> #[trigger] s[b].id != s[i as int].id,
                decreases i - a,
            {
                if goblist[a].id == goblist[i].id {
                    assert(s[a as int].id == s[i as int].id);
                    return Err(StoreError::HeaderDecodingFailure);
                }
                a += 1;
            }
            i += 1;
        }
        Ok(GOBList { goblist, next_id })
    }

    /// A catalog holding the given entries that hands out identifiers after
    /// the largest one in use (from 0 where there is none); fails with
    /// `HeaderDecodingFailure` where two entries share an identifier or the
    /// largest is `u64::MAX`.
    pub fn from_entries(goblist: Vec<GOB>) -> (r: Result<GOBList, StoreError>)
        ensures
            r matches Ok(l) ==> l@ == goblist@ && l.wf()
                && (forall|i: int| 0 <= i < goblist@.len() ==> #[trigger] goblist@[i].id < l.next_id())
                && (l.next_id() == 0 || has_id(goblist@, (l.next_id() - 1) as u64)),
            r is Err <==> has_id(goblist@, u64::MAX) || !(forall|a: int, b: int|
                0 <= a < goblist@.len() && 0 <= b < goblist@.len() && a != b
                ==> #[trigger] goblist@[a].id != #[trigger] goblist@[b].id),
            r matches Err(e) ==> e == StoreError::HeaderDecodingFailure,
    {
        let mut next: u64 = 0;
        let mut i: usize = 0;
        while i < goblist.len()
            invariant
                i <= goblist@.len(),
                forall|j: int| 0 <= j < i ==> #[trigger] goblist@[j].id < next,
                forall|j: int| 0 <= j < i ==> #[trigger] goblist@[j].id != u64::MAX,
                next == 0 || exists|j: int| 0 <= j < i && #[trigger] goblist@[j].id == next - 1,
            decreases goblist@.len() - i,
        {
            let id = goblist[i].id;
            if id == u64::MAX {
                return Err(StoreError::HeaderDecodingFailure);
            }
            if id >= next {
                next = id + 1;
                assert(goblist@[i as int].id == next - 1);
            }
            i += 1;
        }
        assert(!has_id(goblist@, u64::MAX));
        GOBList::from_parts(goblist, next)
    }

    /// The entries, in order of registration.
    pub fn gobs(&self) -> (r: &Vec<GOB>)
        ensures
            r@ == self@,
    {
        &self.goblist
    }

    /// The identifier the next registration will get.
    pub fn get_next_id(&self) -> (r: u64)
        ensures
            r == self.next_id(),
    {
        self.next_id
    }

    /// Stores a new entry under a fresh identifier and returns it; fails
    /// with `OutOfSpace` once every identifier has been handed out.
    pub fn register(&mut self, gobtype: GOBtype, offset: u64, size: u64) -> (r: Result<u64, StoreError>)
        requires
            old(self).wf(),
        ensures
            final(self).wf(),
            old(self).next_id() == u64::MAX ==> r == Err::<u64, StoreError>(StoreError::OutOfSpace)
                && final(self)@ == old(self)@ && final(self).next_id() == old(self).next_id(),
            old(self).next_id() < u64::MAX ==> r == Ok::<u64, StoreError>(old(self).next_id())
                && final(self)@ == old(self)@.push(GOB { id: old(self).next_id(), gobtype, offset, size })
                && final(self).next_id() == old(self).next_id() + 1,
    {
        if self.next_id == u64::MAX {
            return Err(StoreError::OutOfSpace);
        }
        let id = self.next_id;
        self.goblist.push(GOB { id, gobtype, offset, size });
        self.next_id = id + 1;
        Ok(id)
    }

    fn find(&self, id: u64) -> (r: Option<usize>)
        ensures
            r is None ==> !has_id(self@, id),
            r matches Some(i) ==> i < self@.len() && self@[i as int].id == id,
    {
        let mut i: usize = 0;
        while i < self.goblist.len()
            invariant
                i <= self@.len(),
                forall|j: int| 0 <= j < i ==> #[trigger] self@[j].id != id,
            decreases self@.len() - i,
        {
            if self.goblist[i].id == id {
                return Some(i);
            }
            i += 1;
        }
        None
    }

    /// The entry with identifier `id`.
    pub fn lookup(&self, id: u64) -> (r: Result<GOB, StoreError>)
        requires
            self.wf(),
        ensures
            !has_id(self@, id) <==> r == Err::<GOB, StoreError>(StoreError::NotFound),
            has_id(self@, id) ==> r is Ok,
            r matches Ok(g) ==> g.id == id && self@.contains(g),
    {
        match self.find(id) {
            Some(i) => Ok(self.goblist[i]),
            None => Err(StoreError::NotFound),
        }
    }

    /// Deletes the entry with identifier `id` and returns it; its extent is
    /// the caller's to give back to the free-space list.
    pub fn remove(&mut self, id: u64) -> (r: Result<GOB, StoreError>)
        requires
            old(self).wf(),
        ensures
            final(self).wf(),
            final(self).next_id() == old(self).next_id(),
            !has_id(old(self)@, id) <==> r == Err::<GOB, StoreError>(StoreError::NotFound),
            r is Err ==> final(self)@ == old(self)@,
            r matches Ok(g) ==> g.id == id && exists|i: int| 0 <= i < old(self)@.len()
                && old(self)@[i] == g && final(self)@ == old(self)@.remove(i),
            !has_id(final(self)@, id),
    {
        match self.find(id) {
            Some(i) => {
                let ghost s = self@;
                let g = self.goblist.remove(i);
                assert(self@ =~= s.remove(i as int));
                assert forall|j: int| 0 <= j < self@.len() implies #[trigger] self@[j].id != id by {
                    if j < i { assert(s[j].id != s[i as int].id); }
                    else { assert(s[j + 1].id != s[i as int].id); }
                };
                assert forall|a: int, b: int| 0 <= a < self@.len() && 0 <= b < self@.len() && a != b
                    implies #[trigger] self@[a].id != #[trigger] self@[b].id by {
                    let a2 = if a < i { a } else { a + 1 };
                    let b2 = if b < i { b } else { b + 1 };
                    assert(s[a2].id != s[b2].id);
                };
                assert forall|j: int| 0 <= j < self@.len() implies #[trigger] self@[j].id < self.next_id by {
                    if j >= i { assert(self@[j] == s[j + 1]); }
                };
                Ok(g)
            },
            None => Err(StoreError::NotFound),
        }
    }
}

} // verus!
