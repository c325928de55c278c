use id_arena::Arena;
use id_arena::ArenaBehavior;
use id_arena::DefaultArenaBehavior;
use id_arena::Id;

fn assert_send_sync<T: Send + Sync>() {}

struct Foo;

#[test]
fn ids_are_send_sync() {
    assert_send_sync::<Id<Foo>>();
}

#[test]
fn round_trip() {
    let mut arena = Arena::<u32>::new();
    let id = arena.allocate(42);
    assert_eq!(arena.get(id), Some(&42));
    let id2 = arena.allocate(7);
    assert_eq!(arena.get(id2), Some(&7));
    assert_eq!(arena.get(id), Some(&42));
}

#[test]
fn cross_arena_isolation() {
    let mut a = Arena::<u32>::new();
    let mut b = Arena::<u32>::new();
    let id_a = a.allocate(1);
    let _id_b = b.allocate(1);
    assert_eq!(a.len(), b.len());
    assert_eq!(a.get(id_a), Some(&1));
    assert_eq!(b.get(id_a), None);
}

#[test]
fn monotonic_indices() {
    let mut arena = Arena::<u32>::new();
    for n in 0..10u32 {
        let before = arena.len();
        let id = arena.allocate(n * n);
        assert_eq!(id.index(), before);
        assert_eq!(id.index(), n as usize);
        assert_eq!(arena.len(), before + 1);
    }
}

#[test]
fn no_shrinkage() {
    let mut arena = Arena::<u32>::new();
    let early = arena.allocate(5);
    let mut last_len = arena.len();
    for n in 0..100u32 {
        arena.allocate(n);
        assert!(arena.len() >= last_len);
        last_len = arena.len();
        assert_eq!(arena.get(early), Some(&5));
    }
    if let Some(v) = arena.get_mut(early) {
        *v = 55;
    }
    assert_eq!(arena.len(), last_len);
    assert_eq!(arena.get(early), Some(&55));
}

#[test]
fn strict_soft_symmetry() {
    let mut arena = Arena::<u32>::new();
    let id = arena.allocate(9);
    // Soft lookup present: strict indexing returns the identical value.
    assert_eq!(arena.get(id), Some(arena.index(id)));
    arena.index_set(id, 10);
    assert_eq!(arena.get(id), Some(&10));
    assert_eq!(*arena.index(id), 10);
    // Soft lookup absent (foreign tag): the strict companion's precondition
    // fails for exactly these ids, so only the soft path is callable.
    let other = Arena::<u32>::new();
    assert_eq!(other.get(id), None);
}

#[test]
fn scenario_three_values() {
    let mut x = Arena::<u32>::new();
    x.allocate(10);
    let id_of_20 = x.allocate(20);
    x.allocate(30);
    assert_eq!(x.len(), 3);
    assert_eq!(x.get(id_of_20), Some(&20));
    let y = Arena::<u32>::new();
    assert_eq!(y.get(id_of_20), None);
}

#[test]
fn soft_miss_out_of_range() {
    let mut arena = Arena::<u32>::new();
    let id = arena.allocate(3);
    let tag = arena.arena_id();
    assert_eq!(DefaultArenaBehavior::arena_id(id), tag);
    // An id under this arena's own tag whose index was never filled.
    let beyond: Id<u32> = DefaultArenaBehavior::new_id(17, tag);
    assert_eq!(DefaultArenaBehavior::index(beyond), 17);
    assert_eq!(arena.get(beyond), None);
    let mut arena = arena;
    assert!(arena.get_mut(beyond).is_none());
}

#[test]
fn id_equality() {
    let tag_a = 1usize;
    let tag_b = 2usize;
    let a0: Id<u8> = DefaultArenaBehavior::new_id(0, tag_a);
    let a0_again: Id<u8> = DefaultArenaBehavior::new_id(0, tag_a);
    let a1: Id<u8> = DefaultArenaBehavior::new_id(1, tag_a);
    let b0: Id<u8> = DefaultArenaBehavior::new_id(0, tag_b);
    assert_eq!(a0, a0_again);
    assert_ne!(a0, a1);
    assert_ne!(a0, b0);
    let copy = a0;
    assert_eq!(copy, a0.clone());
}

#[test]
fn get_mut_changes_only_the_target() {
    let mut arena = Arena::<String>::new();
    let a = arena.allocate(String::from("Albert"));
    let b = arena.allocate(String::from("Beate"));
    if let Some(v) = arena.get_mut(a) {
        *v = String::from("Alice");
    }
    assert_eq!(arena.get(a).map(String::as_str), Some("Alice"));
    assert_eq!(arena.get(b).map(String::as_str), Some("Beate"));
}

#[test]
fn default_is_empty() {
    let arena: Arena<u32> = Default::default();
    assert_eq!(arena.len(), 0);
}

#[test]
fn iter_in_allocation_order() {
    let mut arena = Arena::<&str>::new();
    arena.allocate("hello");
    arena.allocate("hi");
    arena.allocate("yo");
    let mut it = arena.iter();
    let mut seen: Vec<(usize, &str)> = Vec::new();
    while let Some((id, s)) = it.next() {
        assert_eq!(arena.get(id), Some(s));
        seen.push((id.index(), *s));
    }
    assert_eq!(seen, vec![(0, "hello"), (1, "hi"), (2, "yo")]);
}

#[test]
fn index_mut_changes_only_the_target() {
    let mut arena = Arena::<&str>::new();
    let a = arena.allocate("Albert");
    let b = arena.allocate("Berta");
    assert_eq!(*arena.index(a), "Albert");
    *arena.index_mut(a) = "Alice";
    assert_eq!(*arena.index(a), "Alice");
    assert_eq!(*arena.index(b), "Berta");
}

struct Node {
    value: u32,
    prev: Option<Id<Node>>,
}

#[test]
fn nodes_hold_ids_of_other_nodes() {
    let mut arena = Arena::<Node>::new();
    let first = arena.allocate(Node { value: 1, prev: None });
    let second = arena.allocate(Node { value: 2, prev: Some(first) });
    let third = arena.allocate(Node { value: 3, prev: Some(second) });
    // Walk the chain backwards through the stored ids.
    let mut cur = Some(third);
    let mut values = Vec::new();
    while let Some(id) = cur {
        let node = arena.index(id);
        values.push(node.value);
        cur = node.prev;
    }
    assert_eq!(values, vec![3, 2, 1]);
}
