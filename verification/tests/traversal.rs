use id_arena::Arena;
use id_arena::DefaultArenaBehavior;
use id_arena::Id;
use id_arena::IdFolder;
use id_arena::IntoParIter;
use id_arena::ParIter;

type Behavior = DefaultArenaBehavior<u64>;

/// Process a splittable traversal on a real fork/join pool: split in half
/// while a range is longer than `chunk`, hand the halves to rayon workers,
/// and merge the partial results in order.
fn par_collect<'a>(p: ParIter<'a, u64, Behavior>, chunk: usize) -> Vec<(Id<u64>, &'a u64)> {
    let n = p.len();
    if n > chunk && n >= 2 {
        let (l, r) = p.split_at(n / 2);
        let (mut lv, mut rv) = rayon::join(|| par_collect(l, chunk), || par_collect(r, chunk));
        lv.append(&mut rv);
        lv
    } else {
        p.into_vec()
    }
}

fn par_collect_owned(p: IntoParIter<u64, Behavior>, chunk: usize) -> Vec<(Id<u64>, u64)> {
    let n = p.len();
    if n > chunk && n >= 2 {
        let (l, r) = p.split_at(n / 2);
        let (mut lv, mut rv) = rayon::join(
            || par_collect_owned(l, chunk),
            || par_collect_owned(r, chunk),
        );
        lv.append(&mut rv);
        lv
    } else {
        p.into_vec()
    }
}

fn filled_arena(n: u64) -> Arena<u64> {
    let mut arena = Arena::<u64>::new();
    for v in 0..n {
        arena.allocate(v * 3 + 1);
    }
    arena
}

fn sequential_pairs(arena: &Arena<u64>) -> Vec<(Id<u64>, u64)> {
    let mut out = Vec::new();
    let mut it = arena.iter();
    while let Some((id, v)) = it.next() {
        out.push((id, *v));
    }
    out
}

#[test]
fn traversal_equivalence_empty() {
    let arena = filled_arena(0);
    let seq = sequential_pairs(&arena);
    let par: Vec<(Id<u64>, u64)> =
        par_collect(arena.par_iter(), 4).into_iter().map(|(id, v)| (id, *v)).collect();
    assert_eq!(seq, par);
    assert!(par.is_empty());
}

#[test]
fn traversal_equivalence_single() {
    let arena = filled_arena(1);
    let seq = sequential_pairs(&arena);
    let par: Vec<(Id<u64>, u64)> =
        par_collect(arena.par_iter(), 4).into_iter().map(|(id, v)| (id, *v)).collect();
    assert_eq!(seq, par);
}

#[test]
fn traversal_equivalence_large() {
    let arena = filled_arena(1000);
    let seq = sequential_pairs(&arena);
    let par: Vec<(Id<u64>, u64)> =
        par_collect(arena.par_iter(), 16).into_iter().map(|(id, v)| (id, *v)).collect();
    assert_eq!(seq, par);
}

#[test]
fn traversal_equivalence_consuming() {
    let arena = filled_arena(500);
    let seq = sequential_pairs(&arena);
    let par = par_collect_owned(arena.into_par_iter(), 16);
    assert_eq!(seq, par);
}

#[test]
fn parallel_sum_and_index_coverage() {
    let n: u64 = 100000;
    let mut arena = Arena::<u64>::new();
    let mut sequential_sum: u64 = 0;
    for v in 0..n {
        arena.allocate(v * 2 + 1);
        sequential_sum += v * 2 + 1;
    }
    let pairs = par_collect(arena.par_iter(), 1024);
    let parallel_sum: u64 = pairs.iter().map(|(_, v)| **v).sum();
    assert_eq!(parallel_sum, sequential_sum);
    // Every yielded id's index is unique and covers 0..n exactly once, and
    // each id resolves in the arena to the value it was yielded with.
    let mut seen = vec![false; n as usize];
    for (id, v) in &pairs {
        assert!(!seen[id.index()]);
        seen[id.index()] = true;
        assert_eq!(arena.get(*id), Some(*v));
    }
    assert!(seen.iter().all(|&s| s));
}

#[test]
fn split_keeps_tag_and_positions() {
    let arena = filled_arena(10);
    let (l, r) = arena.par_iter().split_at(4);
    let lv = l.into_vec();
    let rv = r.into_vec();
    assert_eq!(lv.len(), 4);
    assert_eq!(rv.len(), 6);
    for (k, (id, v)) in lv.iter().enumerate() {
        assert_eq!(id.index(), k);
        assert_eq!(arena.get(*id), Some(*v));
    }
    for (k, (id, v)) in rv.iter().enumerate() {
        assert_eq!(id.index(), 4 + k);
        assert_eq!(arena.get(*id), Some(*v));
    }
}

#[test]
fn folder_decorates_each_element() {
    let mut arena = Arena::<u64>::new();
    arena.allocate(11);
    arena.allocate(22);
    let tag = arena.arena_id();
    let mut folder: IdFolder<Behavior, u64> = IdFolder::new(tag);
    folder.consume(0, 11);
    folder.consume(1, 22);
    let out = folder.complete();
    assert_eq!(out.len(), 2);
    assert_eq!(out[0].0.index(), 0);
    assert_eq!(out[1].0.index(), 1);
    assert_eq!(arena.get(out[0].0), Some(&11));
    assert_eq!(arena.get(out[1].0), Some(&22));
    assert_eq!(out[0].1, 11);
    assert_eq!(out[1].1, 22);
}

#[test]
fn drive_matches_into_vec() {
    let arena = filled_arena(33);
    let direct = arena.par_iter().into_vec();
    let driven = arena.par_iter().drive(5);
    assert_eq!(direct, driven);
    let driven_owned = arena.into_par_iter().drive(5);
    assert_eq!(driven_owned.len(), 33);
    for (k, (id, v)) in driven_owned.iter().enumerate() {
        assert_eq!(id.index(), k);
        assert_eq!(*v, (k as u64) * 3 + 1);
    }
}

#[test]
fn lazy_iterator_both_ends() {
    let arena = filled_arena(4);
    let mut it = arena.par_iter().into_iter();
    assert_eq!(it.len(), 4);
    let (front, fv) = it.next().unwrap();
    assert_eq!(front.index(), 0);
    assert_eq!(*fv, 1);
    let (back, bv) = it.next_back().unwrap();
    assert_eq!(back.index(), 3);
    assert_eq!(*bv, 10);
    assert_eq!(it.len(), 2);
    assert_eq!(it.next().unwrap().0.index(), 1);
    assert_eq!(it.next_back().unwrap().0.index(), 2);
    assert!(it.next().is_none());
    assert!(it.next_back().is_none());
    // Ids from the lazy iterator resolve in the arena.
    assert_eq!(arena.get(front), Some(&1));
    assert_eq!(arena.get(back), Some(&10));
}

#[test]
fn par_update_rewrites_under_ids() {
    let mut arena = filled_arena(100);
    arena.par_update(8, &|id: Id<u64>, v: &u64| *v * 10 + id.index() as u64);
    let mut it = arena.iter();
    let mut count = 0usize;
    while let Some((id, v)) = it.next() {
        let k = id.index() as u64;
        assert_eq!(*v, (k * 3 + 1) * 10 + k);
        count += 1;
    }
    assert_eq!(count, 100);
}
