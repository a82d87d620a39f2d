//! The graph catalog: named graphs and where their roots lie.
use vstd::prelude::*;
use crate::error::StoreError;

verus! {

/// A named graph and the extent of its root structure.
#[derive(Debug)]
pub struct Graph {
    pub name: String,
    pub offset: u64,
    pub size: u64,
}

/// The catalog of graphs, each name at most once.
#[derive(Debug)]
pub struct GraphList {
    graphs: Vec<Graph>,
}

/// A graph as the contracts see it: its name as characters.
pub open spec fn graph_view(g: Graph) -> (Seq<char>, u64, u64) {
    (g.name@, g.offset, g.size)
}

/// Names are unique.
pub open spec fn names_unique(s: Seq<(Seq<char>, u64, u64)>) -> bool {
    forall|i: int, j: int| 0 <= i < s.len() && 0 <= j < s.len() && i != j ==> #[trigger] s[i].0 != #[trigger] s[j].0
}

/// `s` holds a graph named `name`.
pub open spec fn has_name(s: Seq<(Seq<char>, u64, u64)>, name: Seq<char>) -> bool {
    exists|i: int| 0 <= i < s.len() && #[trigger] s[i].0 == name
}

impl Graph {
    /// The graph's name.
    pub fn name(&self) -> (r: &String)
        ensures
            r@ == self.name@,
    {
        &self.name
    }

    /// A copy of the graph.
    pub fn duplicate(&self) -> (r: Graph)
        ensures
            graph_view(r) == graph_view(*self),
    {
        Graph { name: self.name.clone(), offset: self.offset, size: self.size }
    }
}

impl GraphList {
    pub closed spec fn view(&self) -> Seq<(Seq<char>, u64, u64)> {
        self.graphs@.map_values(|g: Graph| graph_view(g))
    }

    pub open spec fn wf(&self) -> bool {
        names_unique(self@)
    }

    /// An empty catalog.
    pub fn new() -> (r: GraphList)
        ensures
            r.wf(),
            r@ == Seq::<(Seq<char>, u64, u64)>::empty(),
    {
        let graphs = Vec::new();
        let r = GraphList { graphs };
        assert(r@ =~= Seq::<(Seq<char>, u64, u64)>::empty());
        r
    }

    /// A catalog holding the given graphs, in order; fails with
    /// `HeaderDecodingFailure` where two graphs share a name.
    pub fn from_graphs(graphs: Vec<Graph>) -> (r: Result<GraphList, StoreError>)
        ensures
            names_unique(graphs@.map_values(|g: Graph| graph_view(g))) <==> r is Ok,
            r matches Err(e) ==> e == StoreError::HeaderDecodingFailure,
            r matches Ok(l) ==> l@ == graphs@.map_values(|g: Graph| graph_view(g)) && l.wf(),
    {
        let ghost s = graphs@.map_values(|g: Graph| graph_view(g));
        let mut i: usize = 0;
        while i < graphs.len()
            invariant
                i <= s.len() == graphs@.len(),
                s == graphs@.map_values(|g: Graph| graph_view(g)),
                forall|a: int, b: int| 0 <= a < i && 0 <= b < i && a != b ==> #[trigger] s[a].0 != #[trigger] s[b].0,
            decreases s.len() - i,
        {
            let mut a: usize = 0;
            while a < i
                invariant
                    a <= i < s.len() == graphs@.len(),
                    s == graphs@.map_values(|g: Graph| graph_view(g)),
                    forall|b: int| 0 <= b < a ==> #[trigger] s[b].0 != s[i as int].0,
                decreases i - a,
            {
                if graphs[a].name == graphs[i].name {
                    assert(s[a as int].0 == s[i as int].0);
                    return Err(StoreError::HeaderDecodingFailure);
                }
                a += 1;
            }
            i += 1;
        }
        let r = GraphList { graphs };
        assert(r@ == s);
        Ok(r)
    }

    /// The graphs, in order of creation.
    pub fn graphs(&self) -> (r: &Vec<Graph>)
        ensures
            r@.map_values(|g: Graph| graph_view(g)) == self@,
    {
        &self.graphs
    }

    fn find(&self, name: &String) -> (r: Option<usize>)
        ensures
            r is None ==> !has_name(self@, name@),
            r matches Some(i) ==> i < self@.len() && self@[i as int].0 == name@,
    {
        let mut i: usize = 0;
        while i < self.graphs.len()
            invariant
                i <= self@.len(),
                forall|j: int| 0 <= j < i ==> #[trigger] self@[j].0 != name@,
            decreases self@.len() - i,
        {
            if self.graphs[i].name == *name {
                return Some(i);
            }
            i += 1;
        }
        None
    }

    /// Adds a graph named `name` and returns a copy of it; its extent is
    /// empty (offset and size 0) until storage is allocated for it. Fails
    /// with `DuplicateName` where the name is taken.
    pub fn create_graph(&mut self, name: String) -> (r: Result<Graph, StoreError>)
        requires
            old(self).wf(),
        ensures
            final(self).wf(),
            has_name(old(self)@, name@) ==> r == Err::<Graph, StoreError>(StoreError::DuplicateName)
                && final(self)@ == old(self)@,
            !has_name(old(self)@, name@) ==> r is Ok && graph_view(r->Ok_0) == (name@, 0u64, 0u64)
                && final(self)@ == old(self)@.push((name@, 0u64, 0u64)),
    {
        self.create_graph_at(name, 0, 0)
    }

    /// Adds a graph named `name` whose root lies at `[offset, offset + size)`
    /// and returns a copy of it. Fails with `DuplicateName` where the name
    /// is taken.
    pub fn create_graph_at(&mut self, name: String, offset: u64, size: u64) -> (r: Result<Graph, StoreError>)
        requires
            old(self).wf(),
        ensures
            final(self).wf(),
            has_name(old(self)@, name@) ==> r == Err::<Graph, StoreError>(StoreError::DuplicateName)
                && final(self)@ == old(self)@,
            !has_name(old(self)@, name@) ==> r is Ok && graph_view(r->Ok_0) == (name@, offset, size)
                && final(self)@ == old(self)@.push((name@, offset, size)),
    {
        if let Some(_) = self.find(&name) {
            return Err(StoreError::DuplicateName);
        }
        let ghost s = self@;
        let g = Graph { name: name.clone(), offset, size };
        self.graphs.push(Graph { name, offset, size });
        assert(self@ =~= s.push((g.name@, offset, size)));
        assert forall|i: int, j: int| 0 <= i < self@.len() && 0 <= j < self@.len() && i != j
            implies #[trigger] self@[i].0 != #[trigger] self@[j].0 by {
            if i < s.len() && j < s.len() { assert(s[i].0 != s[j].0); }
            else if i < s.len() { assert(s[i].0 != name@); }
            else { assert(s[j].0 != name@); }
        };
        Ok(g)
    }

    /// Whether a graph is named `name`.
    pub fn contains(&self, name: &String) -> (r: bool)
        ensures
            r == has_name(self@, name@),
    {
        self.find(name).is_some()
    }

    /// The graph named `name`.
    pub fn lookup(&self, name: &String) -> (r: Result<&Graph, StoreError>)
        requires
            self.wf(),
        ensures
            !has_name(self@, name@) <==> r == Err::<&Graph, StoreError>(StoreError::NotFound),
            has_name(self@, name@) ==> r is Ok,
            r matches Ok(g) ==> graph_view(*g).0 == name@ && self@.contains(graph_view(*g)),
    {
        match self.find(name) {
            Some(i) => {
                assert(self@[i as int] == graph_view(self.graphs@[i as int]));
                Ok(&self.graphs[i])
            },
            None => Err(StoreError::NotFound),
        }
    }

    /// Deletes the graph named `name` and returns it.
    pub fn remove(&mut self, name: &String) -> (r: Result<Graph, StoreError>)
        requires
            old(self).wf(),
        ensures
            final(self).wf(),
            !has_name(old(self)@, name@) <==> r == Err::<Graph, StoreError>(StoreError::NotFound),
            r is Err ==> final(self)@ == old(self)@,
            r matches Ok(g) ==> graph_view(g).0 == name@ && exists|i: int| 0 <= i < old(self)@.len()
                && old(self)@[i] == graph_view(g) && final(self)@ == old(self)@.remove(i),
            !has_name(final(self)@, name@),
    {
        match self.find(name) {
            Some(i) => {
                let ghost s = self@;
                let ghost gs = self.graphs@;
                let g = self.graphs.remove(i);
                assert(gs[i as int] == g);
                assert(self@ =~= s.remove(i as int));
                assert forall|j: int| 0 <= j < self@.len() implies #[trigger] self@[j].0 != name@ by {
                    if j < i { assert(s[j].0 != s[i as int].0); }
                    else { assert(s[j + 1].0 != s[i as int].0); }
                };
                assert forall|a: int, b: int| 0 <= a < self@.len() && 0 <= b < self@.len() && a != b
                    implies #[trigger] self@[a].0 != #[trigger] self@[b].0 by {
                    let a2 = if a < i { a } else { a + 1 };
                    let b2 = if b < i { b } else { b + 1 };
                    assert(s[a2].0 != s[b2].0);
                };
                Ok(g)
            },
            None => Err(StoreError::NotFound),
        }
    }
}

} // verus!
