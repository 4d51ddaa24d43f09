use chess_lib::tt::{
    always_replace, never_replace, AlwaysReplace, NeverReplace, PolicyResult, TTNode,
    TranspositionTable,
};
use chess_lib::types::ZobristHash;
use rand::Rng;
use rand::SeedableRng;
use rand_chacha::ChaCha8Rng;

fn index(size: usize, zh: ZobristHash) -> usize {
    (zh.0 >> (64 - size.trailing_zeros())) as usize
}

fn generate_collision(size: usize, zh: ZobristHash) -> ZobristHash {
    let mut rng = ChaCha8Rng::seed_from_u64(12345);
    loop {
        let collision = ZobristHash(rng.gen());
        if index(size, collision) == index(size, zh) && collision != zh {
            return collision;
        }
    }
}

#[test]
fn test_size() {
    let tt = TranspositionTable::<ZobristHash, AlwaysReplace>::new(1 << 16, AlwaysReplace);
    assert_eq!(tt.stats().size * std::mem::size_of::<TTNode<ZobristHash>>(), 65536);
}

#[test]
fn test_get_and_retrieve() {
    let mut rng = ChaCha8Rng::seed_from_u64(12345);
    let mut tt = TranspositionTable::<u64, AlwaysReplace>::new(1 << 16, AlwaysReplace);

    // With always_replace policy we should be able to loop get/retrieve forever.
    for _ in 0..100_000 {
        let zh = ZobristHash(rng.gen());
        tt.insert(zh, zh.0);
        assert_eq!(tt.get(zh), Some(zh.0));
    }
}

#[test]
fn test_no_replace() {
    let mut rng = ChaCha8Rng::seed_from_u64(12345);
    let mut tt = TranspositionTable::<u64, NeverReplace>::new(1 << 8, NeverReplace);

    let zh = ZobristHash(rng.gen());
    let collision = generate_collision(tt.stats().size, zh);

    tt.insert(zh, 42);

    // Inserting with colliding zh won't replace due to policy.
    tt.insert(collision, 0);
    assert_eq!(tt.get(zh), Some(42));
    assert_eq!(tt.get(collision), None);

    // Inserting with same zh stores the new data: the policy is asked only
    // about an entry for another key.
    tt.insert(zh, 0);
    assert_eq!(tt.get(zh), Some(0));
}

#[test]
fn test_get_or_compute_no_replace() {
    let mut rng = ChaCha8Rng::seed_from_u64(12345);
    let mut tt = TranspositionTable::<u64, NeverReplace>::new(1 << 8, NeverReplace);

    let zh = ZobristHash(rng.gen());
    let collision = generate_collision(tt.stats().size, zh);

    assert_eq!(tt.get_or_compute(zh, || 42), 42);

    // Never replace.
    assert_eq!(tt.get_or_compute(zh, || panic!("Should never be called")), 42);

    // In case of index collision, the new result will be computed but not stored!
    assert_eq!(tt.get_or_compute(collision, || 0), 0);
    assert_eq!(tt.get(zh), Some(42));
}

#[test]
fn test_get_or_compute_replace() {
    let mut rng = ChaCha8Rng::seed_from_u64(12345);
    let mut tt = TranspositionTable::<u64, AlwaysReplace>::new(1 << 8, AlwaysReplace);

    let zh = ZobristHash(rng.gen());
    let collision = generate_collision(tt.stats().size, zh);

    assert_eq!(tt.get_or_compute(zh, || 42), 42);

    // On hash collision we don't recompute.
    assert_eq!(tt.get_or_compute(zh, || panic!("Should never be called")), 42);

    // On index collision we do.
    assert_eq!(tt.get_or_compute(collision, || 0), 0);

    // The first key is now not present.
    assert_eq!(tt.get(zh), None);
}

#[test]
fn always_replace_returns_the_most_recent_value() {
    let mut rng = ChaCha8Rng::seed_from_u64(99);
    let mut tt = TranspositionTable::<u64, AlwaysReplace>::new(1 << 10, AlwaysReplace);
    for round in 0..100_000u64 {
        let zh = ZobristHash(rng.gen::<u64>() & 0xFFFF_0000_0000_0000);
        tt.insert(zh, round);
        assert_eq!(tt.get(zh), Some(round));
    }
}

#[test]
fn never_replace_keeps_the_first_key_of_a_place() {
    let mut rng = ChaCha8Rng::seed_from_u64(99);
    let mut tt = TranspositionTable::<u64, NeverReplace>::new(1 << 8, NeverReplace);
    let size = tt.stats().size;
    let mut first: Vec<Option<ZobristHash>> = vec![None; size];
    for _ in 0..100_000 {
        let zh = ZobristHash(rng.gen());
        let ix = index(size, zh);
        tt.insert(zh, zh.0);
        if first[ix].is_none() {
            first[ix] = Some(zh);
        }
        let holder = first[ix].unwrap();
        assert_eq!(tt.get(holder), Some(holder.0));
    }
    assert_eq!(tt.stats().filled, size);
}

#[test]
fn statistics_count_probes() {
    let mut tt = TranspositionTable::<u64, AlwaysReplace>::new(1 << 8, AlwaysReplace);
    let size = tt.stats().size;
    assert_eq!(size, 16);
    let zh = ZobristHash(0xF000_0000_0000_0001);
    let other = ZobristHash(0xF000_0000_0000_0002);
    assert_eq!(index(size, zh), 15);
    assert_eq!(tt.get(zh), None);
    tt.insert(zh, 1);
    assert_eq!(tt.get(zh), Some(1));
    assert_eq!(tt.get(other), None);
    let stats = *tt.stats();
    assert_eq!(stats.total, 3);
    assert_eq!(stats.hits, 1);
    assert_eq!(stats.collisions, 1);
    assert_eq!(stats.filled, 1);
    tt.insert(other, 2);
    assert_eq!(tt.stats().filled, 1);
    assert_eq!(tt.get(other), Some(2));
}

#[test]
fn policies_decide_as_named() {
    assert_eq!(always_replace(1, 2), PolicyResult::Replace);
    assert_eq!(never_replace(1, 2), PolicyResult::Keep);
    let node = TTNode::new(ZobristHash(5), 6u8);
    assert_eq!(node.zh, ZobristHash(5));
    assert_eq!(node.data, 6);
}

#[test]
fn capacity_is_rounded_down_to_a_power_of_two() {
    let entry = std::mem::size_of::<TTNode<u64>>();
    let exact = TranspositionTable::<u64, AlwaysReplace>::new(4 * entry, AlwaysReplace);
    assert_eq!(exact.stats().size, 4);
    let more = TranspositionTable::<u64, AlwaysReplace>::new(7 * entry + 3, AlwaysReplace);
    assert_eq!(more.stats().size, 4);
    let one = TranspositionTable::<u64, AlwaysReplace>::new(entry, AlwaysReplace);
    assert_eq!(one.stats().size, 1);
    let mut one = one;
    one.insert(ZobristHash(77), 5);
    assert_eq!(one.get(ZobristHash(77)), Some(5));
    assert_eq!(one.get_or_compute(ZobristHash(78), || 6), 6);
    assert_eq!(one.stats().total, 2);
    assert_eq!(one.stats().hits, 1);
    assert_eq!(one.stats().collisions, 1);
}
