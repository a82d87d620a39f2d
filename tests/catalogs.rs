use dove::error::StoreError;
use dove::freelist::{FreeList, FreeSlot};
use dove::goblist::{GOBList, GOBtype, GOB};
use dove::graphlist::GraphList;
use dove::header::Header;

fn slot(offset: u64, size: u64) -> FreeSlot {
    FreeSlot { offset, size }
}

#[test]
fn freelist_new_has_one_slot() {
    let f = FreeList::new(48, 1048576, 4096);
    assert_eq!(f.slots().clone(), vec![slot(48, 1044432)]);
}

#[test]
fn allocate_first_fit_splits_slot() {
    let mut f = FreeList::from_slots(vec![slot(100, 10), slot(200, 50), slot(300, 100)]).unwrap();
    assert_eq!(f.allocate(20), Ok(200));
    assert_eq!(f.slots().clone(), vec![slot(100, 10), slot(220, 30), slot(300, 100)]);
}

#[test]
fn allocate_exact_removes_slot() {
    let mut f = FreeList::from_slots(vec![slot(100, 10), slot(200, 50)]).unwrap();
    assert_eq!(f.allocate(10), Ok(100));
    assert_eq!(f.slots().clone(), vec![slot(200, 50)]);
}

#[test]
fn allocate_out_of_space() {
    let mut f = FreeList::from_slots(vec![slot(100, 10), slot(200, 50)]).unwrap();
    assert_eq!(f.allocate(51), Err(StoreError::OutOfSpace));
    assert_eq!(f.slots().clone(), vec![slot(100, 10), slot(200, 50)]);
    let mut e = FreeList::from_slots(vec![]).unwrap();
    assert_eq!(e.allocate(1), Err(StoreError::OutOfSpace));
}

#[test]
fn free_without_neighbours_appends() {
    let mut f = FreeList::from_slots(vec![slot(100, 10)]).unwrap();
    f.free(500, 20);
    assert_eq!(f.slots().clone(), vec![slot(100, 10), slot(500, 20)]);
}

#[test]
fn free_merges_with_left_neighbour() {
    let mut f = FreeList::from_slots(vec![slot(100, 10)]).unwrap();
    f.free(110, 5);
    assert_eq!(f.slots().clone(), vec![slot(100, 15)]);
}

#[test]
fn free_merges_with_right_neighbour() {
    let mut f = FreeList::from_slots(vec![slot(100, 10)]).unwrap();
    f.free(90, 10);
    assert_eq!(f.slots().clone(), vec![slot(90, 20)]);
}

#[test]
fn free_merges_both_neighbours() {
    let mut f = FreeList::from_slots(vec![slot(200, 50), slot(100, 10), slot(400, 1)]).unwrap();
    f.free(110, 90);
    assert_eq!(f.slots().clone(), vec![slot(100, 150), slot(400, 1)]);
}

#[test]
fn allocate_then_free_restores_slot() {
    let mut f = FreeList::new(48, 1048576, 4096);
    let off = f.allocate(1000).unwrap();
    assert_eq!(off, 48);
    f.free(off, 1000);
    assert_eq!(f.slots().clone(), vec![slot(48, 1044432)]);
}

#[test]
fn goblist_register_lookup_remove() {
    let mut g = GOBList::new();
    assert_eq!(g.register(GOBtype::Vertex, 48, 16), Ok(0));
    assert_eq!(g.register(GOBtype::Edge, 64, 8), Ok(1));
    assert_eq!(g.lookup(1), Ok(GOB { id: 1, gobtype: GOBtype::Edge, offset: 64, size: 8 }));
    assert_eq!(g.lookup(7), Err(StoreError::NotFound));
    assert_eq!(g.remove(0), Ok(GOB { id: 0, gobtype: GOBtype::Vertex, offset: 48, size: 16 }));
    assert_eq!(g.lookup(0), Err(StoreError::NotFound));
    assert_eq!(g.remove(0), Err(StoreError::NotFound));
    assert_eq!(g.register(GOBtype::Property, 72, 4), Ok(2));
    assert_eq!(g.gobs().len(), 2);
    assert_eq!(g.get_next_id(), 3);
}

#[test]
fn goblist_ids_exhausted() {
    let mut g = GOBList::from_parts(vec![], u64::MAX).unwrap();
    assert_eq!(g.register(GOBtype::Vertex, 0, 1), Err(StoreError::OutOfSpace));
    assert!(g.gobs().is_empty());
}

#[test]
fn create_graph_then_lookup() {
    let mut l = GraphList::new();
    let g = l.create_graph("g".to_string()).unwrap();
    assert_eq!(g.name(), "g");
    assert_eq!((g.offset, g.size), (0, 0));
    let found = l.lookup(&"g".to_string()).unwrap();
    assert_eq!(found.name(), "g");
    assert!(matches!(l.create_graph("g".to_string()), Err(StoreError::DuplicateName)));
    assert_eq!(l.graphs().len(), 1);
}

#[test]
fn graph_lookup_and_remove_missing() {
    let mut l = GraphList::new();
    l.create_graph("a".to_string()).unwrap();
    l.create_graph("b".to_string()).unwrap();
    assert!(matches!(l.lookup(&"c".to_string()), Err(StoreError::NotFound)));
    let removed = l.remove(&"a".to_string()).unwrap();
    assert_eq!(removed.name(), "a");
    assert!(matches!(l.lookup(&"a".to_string()), Err(StoreError::NotFound)));
    assert!(matches!(l.remove(&"a".to_string()), Err(StoreError::NotFound)));
    assert_eq!(l.lookup(&"b".to_string()).unwrap().name(), "b");
}

#[test]
fn header_new_is_empty_but_for_one_slot() {
    let h = Header::new(48, 1048576, 4096);
    assert_eq!(h.freelist().slots().clone(), vec![slot(48, 1044432)]);
    assert!(h.graphlist().graphs().is_empty());
    assert!(h.goblist().gobs().is_empty());
}

#[test]
fn header_create_graph_duplicate() {
    let mut h = Header::new(48, 10000, 100);
    let g = h.create_graph("g".to_string()).unwrap();
    assert_eq!(g.name(), "g");
    assert_eq!(h.lookup_graph(&"g".to_string()).unwrap().name(), "g");
    assert!(matches!(h.create_graph("g".to_string()), Err(StoreError::DuplicateName)));
    assert!(matches!(h.lookup_graph(&"h".to_string()), Err(StoreError::NotFound)));
}

#[test]
fn decoded_catalogs_are_checked() {
    assert_eq!(FreeList::from_slots(vec![slot(u64::MAX, 1)]).err(), Some(StoreError::HeaderDecodingFailure));
    let dup = vec![
        GOB { id: 1, gobtype: GOBtype::Vertex, offset: 0, size: 1 },
        GOB { id: 1, gobtype: GOBtype::Edge, offset: 1, size: 1 },
    ];
    assert_eq!(GOBList::from_parts(dup, 5).err(), Some(StoreError::HeaderDecodingFailure));
    let high = vec![GOB { id: 5, gobtype: GOBtype::Vertex, offset: 0, size: 1 }];
    assert_eq!(GOBList::from_parts(high, 5).err(), Some(StoreError::HeaderDecodingFailure));
    let ok = vec![GOB { id: 4, gobtype: GOBtype::Vertex, offset: 0, size: 1 }];
    assert_eq!(GOBList::from_parts(ok, 5).unwrap().get_next_id(), 5);
    let g = |n: &str| dove::graphlist::Graph { name: n.to_string(), offset: 0, size: 0 };
    assert_eq!(GraphList::from_graphs(vec![g("a"), g("b"), g("a")]).err(), Some(StoreError::HeaderDecodingFailure));
    assert_eq!(GraphList::from_graphs(vec![g("a"), g("b")]).unwrap().graphs().len(), 2);
}

#[test]
fn gob_counter_continues_after_largest_id() {
    let gobs = vec![
        GOB { id: 7, gobtype: GOBtype::Vertex, offset: 0, size: 1 },
        GOB { id: 2, gobtype: GOBtype::Edge, offset: 1, size: 1 },
    ];
    let mut l = GOBList::from_entries(gobs).unwrap();
    assert_eq!(l.get_next_id(), 8);
    assert_eq!(l.register(GOBtype::Property, 2, 1), Ok(8));
    assert_eq!(GOBList::from_entries(vec![]).unwrap().get_next_id(), 0);
    let top = vec![GOB { id: u64::MAX, gobtype: GOBtype::Vertex, offset: 0, size: 1 }];
    assert_eq!(GOBList::from_entries(top).err(), Some(StoreError::HeaderDecodingFailure));
}

#[test]
fn graph_with_extent_takes_free_space() {
    let mut h = Header::new(48, 10048, 0);
    let g = h.create_graph_with_extent("g".to_string(), 1000).unwrap();
    assert_eq!((g.offset, g.size), (48, 1000));
    assert_eq!(h.freelist().slots().clone(), vec![slot(1048, 9000)]);
    assert!(matches!(h.create_graph_with_extent("g".to_string(), 10), Err(StoreError::DuplicateName)));
    assert_eq!(h.freelist().slots().clone(), vec![slot(1048, 9000)]);
    assert!(matches!(h.create_graph_with_extent("big".to_string(), 9001), Err(StoreError::OutOfSpace)));
    assert!(matches!(h.lookup_graph(&"big".to_string()), Err(StoreError::NotFound)));
    let found = h.lookup_graph(&"g".to_string()).unwrap();
    assert_eq!((found.offset, found.size), (48, 1000));
}
