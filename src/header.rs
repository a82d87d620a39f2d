//! The header record: the three catalogs that the device's header region holds.
use vstd::prelude::*;
use crate::error::StoreError;
use crate::freelist::{FreeList, FreeSlot, is_first_fit, take_from};
use crate::goblist::GOBList;
use crate::graphlist::{Graph, GraphList, graph_view, has_name, names_unique};

verus! {

/// The free-space list, the graph catalog and the graph-object catalog.
#[derive(Debug)]
pub struct Header {
    freelist: FreeList,
    graphlist: GraphList,
    goblist: GOBList,
}

impl Header {
    pub open spec fn free_view(&self) -> Seq<FreeSlot> {
        self.free_list()@
    }

    pub open spec fn graph_view(&self) -> Seq<(Seq<char>, u64, u64)> {
        self.graph_list()@
    }

    pub closed spec fn graph_list(&self) -> GraphList {
        self.graphlist
    }

    pub closed spec fn gob_list(&self) -> GOBList {
        self.goblist
    }

    pub closed spec fn free_list(&self) -> FreeList {
        self.freelist
    }

    pub open spec fn wf(&self) -> bool {
        &&& self.free_list().wf()
        &&& names_unique(self.graph_view())
        &&& self.gob_list().wf()
    }

    /// The header of a freshly formatted device of `disksize` bytes, whose
    /// superblock takes `diskheadersize` bytes and whose header region
    /// reserves `headerspace`: one free slot from the end of the superblock,
    /// of `disksize - diskheadersize - headerspace` bytes, and two empty
    /// catalogs.
    pub fn new(diskheadersize: u64, disksize: u64, headerspace: u64) -> (r: Header)
        requires
            diskheadersize + headerspace <= disksize,
        ensures
            r.wf(),
            r.free_view() == seq![FreeSlot { offset: diskheadersize, size: (disksize - diskheadersize - headerspace) as u64 }],
            r.graph_view() == Seq::<(Seq<char>, u64, u64)>::empty(),
            r.gob_list()@ == Seq::<crate::goblist::GOB>::empty(),
            r.gob_list().next_id() == 0,
    {
        let freelist = FreeList::new(diskheadersize, disksize, headerspace);
        let graphlist = GraphList::new();
        let goblist = GOBList::new();
        Header { freelist, graphlist, goblist }
    }

    /// A header made of the given catalogs.
    pub fn from_parts(freelist: FreeList, graphlist: GraphList, goblist: GOBList) -> (r: Header)
        ensures
            r.free_list() == freelist,
            r.graph_view() == graphlist@,
            r.gob_list() == goblist,
            freelist.wf() && graphlist.wf() && goblist.wf() ==> r.wf(),
    {
        Header { freelist, graphlist, goblist }
    }

    /// The free-space list.
    pub fn freelist(&self) -> (r: &FreeList)
        ensures
            *r == self.free_list(),
    {
        &self.freelist
    }

    /// The graph catalog.
    pub fn graphlist(&self) -> (r: &GraphList)
        ensures
            r@ == self.graph_view(),
    {
        &self.graphlist
    }

    /// The graph-object catalog.
    pub fn goblist(&self) -> (r: &GOBList)
        ensures
            *r == self.gob_list(),
    {
        &self.goblist
    }

    /// Adds a graph named `name` to the graph catalog; see
    /// `GraphList::create_graph`.
    pub fn create_graph(&mut self, name: String) -> (r: Result<Graph, StoreError>)
        requires
            old(self).wf(),
        ensures
            final(self).wf(),
            final(self).free_list() == old(self).free_list(),
            final(self).gob_list() == old(self).gob_list(),
            has_name(old(self).graph_view(), name@) ==> r == Err::<Graph, StoreError>(StoreError::DuplicateName)
                && final(self).graph_view() == old(self).graph_view(),
            !has_name(old(self).graph_view(), name@) ==> r is Ok && graph_view(r->Ok_0) == (name@, 0u64, 0u64)
                && final(self).graph_view() == old(self).graph_view().push((name@, 0u64, 0u64)),
    {
        self.graphlist.create_graph(name)
    }

    /// Adds a graph named `name` with a root extent of `size` bytes taken
    /// from the free-space list (first fit), and returns it. Both catalogs
    /// change or neither does: fails with `DuplicateName` where the name is
    /// taken, leaving the free list as it was, and with `OutOfSpace` where
    /// no free slot is large enough, leaving the graph catalog as it was.
    pub fn create_graph_with_extent(&mut self, name: String, size: u64) -> (r: Result<Graph, StoreError>)
        requires
            old(self).wf(),
        ensures
            final(self).wf(),
            final(self).gob_list() == old(self).gob_list(),
            has_name(old(self).graph_view(), name@) ==> r == Err::<Graph, StoreError>(StoreError::DuplicateName),
            r is Err ==> final(self).graph_view() == old(self).graph_view()
                && final(self).free_view() == old(self).free_view(),
            !has_name(old(self).graph_view(), name@) && (forall|j: int| 0 <= j < old(self).free_view().len()
                ==> #[trigger] old(self).free_view()[j].size < size) ==> r == Err::<Graph, StoreError>(StoreError::OutOfSpace),
            forall|i: int| !has_name(old(self).graph_view(), name@) && is_first_fit(old(self).free_view(), size, i) ==> {
                &&& r is Ok
                &&& graph_view(r->Ok_0) == (name@, old(self).free_view()[i].offset, size)
                &&& final(self).graph_view() == old(self).graph_view().push((name@, old(self).free_view()[i].offset, size))
                &&& final(self).free_view() == take_from(old(self).free_view(), i, size)
            },
    {
        if self.graphlist.contains(&name) {
            return Err(StoreError::DuplicateName);
        }
        let offset = match self.freelist.allocate(size) {
            Ok(o) => o,
            Err(e) => return Err(e),
        };
        self.graphlist.create_graph_at(name, offset, size)
    }

    /// The graph named `name`; see `GraphList::lookup`.
    pub fn lookup_graph(&self, name: &String) -> (r: Result<&Graph, StoreError>)
        requires
            self.wf(),
        ensures
            !has_name(self.graph_view(), name@) <==> r == Err::<&Graph, StoreError>(StoreError::NotFound),
            has_name(self.graph_view(), name@) ==> r is Ok,
            r matches Ok(g) ==> graph_view(*g).0 == name@ && self.graph_view().contains(graph_view(*g)),
    {
        self.graphlist.lookup(name)
    }
}

/// A graph just created is found under its name, and creating it a second
/// time fails as a duplicate: after a successful creation the catalog holds
/// the name, and names stay unique.
pub proof fn lemma_create_then_lookup(before: Seq<(Seq<char>, u64, u64)>, name: Seq<char>)
    requires
        names_unique(before),
        !has_name(before, name),
    ensures
        has_name(before.push((name, 0u64, 0u64)), name),
        names_unique(before.push((name, 0u64, 0u64))),
        before.push((name, 0u64, 0u64)).contains((name, 0u64, 0u64)),
{
    let after = before.push((name, 0u64, 0u64));
    assert(after[before.len() as int].0 == name);
    assert(after[before.len() as int] == (name, 0u64, 0u64));
    assert forall|i: int, j: int| 0 <= i < after.len() && 0 <= j < after.len() && i != j
        implies #[trigger] after[i].0 != #[trigger] after[j].0 by {
        if i < before.len() && j < before.len() { assert(before[i].0 != before[j].0); }
        else if i < before.len() { assert(after[i] == before[i]); }
        else { assert(after[j] == before[j]); }
    };
}

} // verus!
