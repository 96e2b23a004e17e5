use chess::ChessMove;
use chess::Square;
use chess_engine::ttable::{TEntry, TTable, ValueInfo};

fn mv() -> ChessMove {
    ChessMove::new(Square::E2, Square::E4, None)
}

fn entry(hash: u64, depth: i32, score: i32) -> TEntry {
    TEntry { hash, depth, value: ValueInfo::Exact(score), best_move: mv() }
}

#[test]
fn round_trip_put_fetch() {
    let mut tt = TTable::new(1 << 20);
    tt.put(entry(0xdead_beef, 4, 17));
    let got = tt.fetch(0xdead_beef).expect("entry just put must be found");
    assert_eq!(got.hash, 0xdead_beef);
    assert_eq!(got.depth, 4);
    assert_eq!(got.value.as_approximation(), 17);
}

#[test]
fn fetch_missing_is_none() {
    let tt = TTable::new(1 << 20);
    assert!(tt.fetch(12345).is_none());
}

#[test]
fn collision_always_replaces() {
    // A table with a single bucket: every hash collides.
    let mut tt = TTable::new(std::mem::size_of::<TEntry>());
    tt.put(entry(1, 9, 100));
    tt.put(entry(2, 0, 200));
    assert!(tt.fetch(1).is_none(), "colliding entry must evict the old one");
    let got = tt.fetch(2).expect("new entry must be installed");
    assert_eq!(got.hash, 2);
    assert_eq!(got.depth, 0);
}

#[test]
fn same_hash_prefers_deeper() {
    let mut tt = TTable::new(std::mem::size_of::<TEntry>());
    tt.put(entry(7, 5, 100));
    tt.put(entry(7, 3, 200));
    let got = tt.fetch(7).unwrap();
    assert_eq!(got.depth, 5, "a shallower entry must not replace a deeper one");
    assert_eq!(got.value.as_approximation(), 100);
    tt.put(entry(7, 5, 300));
    let got = tt.fetch(7).unwrap();
    assert_eq!(got.value.as_approximation(), 300, "an equal depth replaces");
    tt.put(entry(7, 8, 400));
    let got = tt.fetch(7).unwrap();
    assert_eq!(got.depth, 8);
}

#[test]
fn random_puts_always_validate() {
    // A linear congruential generator keeps the run deterministic.
    let mut tt = TTable::new(1 << 16);
    let mut x: u64 = 0x1234_5678;
    let mut hashes = Vec::new();
    for i in 0..1000u64 {
        x = x.wrapping_mul(6364136223846793005).wrapping_add(1442695040888963407);
        tt.put(entry(x, (i % 11) as i32, (x % 1000) as i32));
        hashes.push(x);
        let probe = hashes[(x % (i + 1)) as usize];
        if let Some(e) = tt.fetch(probe) {
            assert_eq!(e.hash, probe, "a fetch must never hand back a foreign hash");
        }
    }
}

#[test]
fn zero_capacity_table_stores_nothing() {
    let mut tt = TTable::new(0);
    tt.put(entry(5, 1, 1));
    assert!(tt.fetch(5).is_none());
}

#[test]
fn value_info_negation() {
    assert!(matches!(ValueInfo::Exact(5).neg(), ValueInfo::Exact(-5)));
    assert!(matches!(ValueInfo::LowerBound(9).neg(), ValueInfo::UpperBound(-9)));
    assert!(matches!(ValueInfo::UpperBound(-3).neg(), ValueInfo::LowerBound(3)));
}

#[test]
fn value_info_approximation_drops_tag() {
    assert_eq!(ValueInfo::Exact(1).as_approximation(), 1);
    assert_eq!(ValueInfo::LowerBound(2).as_approximation(), 2);
    assert_eq!(ValueInfo::UpperBound(3).as_approximation(), 3);
}
