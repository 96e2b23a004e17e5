//! The transposition table: a fixed-capacity map from position hash to the
//! best-known search result for that position.
//!
//! Addressing is `hash mod N` over `N` buckets, each holding at most one
//! entry.  A put on an occupied bucket replaces the occupant when the
//! hashes differ (always-replace on collision) and otherwise only when the
//! new entry is at least as deep (depth-preferred on the same hash).  The
//! table is a hint store: readers must check `entry.hash` against their
//! query, and `fetch` returns an entry only on a hash match.
//!
//! The buckets are a plain vector written through `&mut self` rather than
//! shared interior-mutable cells: a cell mutated through `&self` under
//! concurrent writers admits no contract relating its content before and
//! after an operation, so the round-trip and collision-safety laws below
//! could not even be stated of it.  A caller that shares the table across
//! threads guards it with a lock of its own, which keeps the per-bucket
//! semantics proved here.

use vstd::prelude::*;
use crate::eval::Score;
use crate::eval::MIN_SCORE;
use crate::eval::MAX_SCORE;
use chess::ChessMove;

verus! {

/// A score bounded or pinned by a search: an exact value, a lower bound
/// (the search failed high), or an upper bound (the search failed low).
#[derive(Debug, Clone, Copy, PartialEq, Eq, Structural)]
pub enum ValueInfo {
    Exact(Score),
    LowerBound(Score),
    UpperBound(Score),
}

impl ValueInfo {
    /// The raw score with the bound tag dropped.
    pub open spec fn approx_spec(self) -> Score {
        match self {
            ValueInfo::Exact(s) => s,
            ValueInfo::LowerBound(s) => s,
            ValueInfo::UpperBound(s) => s,
        }
    }

    /// Drop the bound tag and return the raw score.
    pub fn as_approximation(self) -> (r: Score)
        ensures
            r == self.approx_spec(),
    {
        match self {
            ValueInfo::Exact(s) => s,
            ValueInfo::LowerBound(s) => s,
            ValueInfo::UpperBound(s) => s,
        }
    }

    /// Negamax sign flip: an exact score stays exact, a lower bound on the
    /// opponent's score is an upper bound on ours, and the other way round.
    pub fn neg(self) -> (r: ValueInfo)
        requires
            MIN_SCORE <= self.approx_spec() <= MAX_SCORE,
        ensures
            r.approx_spec() == -(self.approx_spec() as int),
            self matches ValueInfo::Exact(_) ==> r matches ValueInfo::Exact(_),
            self matches ValueInfo::LowerBound(_) ==> r matches ValueInfo::UpperBound(_),
            self matches ValueInfo::UpperBound(_) ==> r matches ValueInfo::LowerBound(_),
    {
        match self {
            ValueInfo::Exact(s) => ValueInfo::Exact(-s),
            ValueInfo::LowerBound(s) => ValueInfo::UpperBound(-s),
            ValueInfo::UpperBound(s) => ValueInfo::LowerBound(-s),
        }
    }
}

/// One transposition-table record: at residual depth `depth`, the score of
/// the position hashing to `hash` is described by `value`, and `best_move`
/// achieved it.
#[derive(Clone, Copy)]
pub struct TEntry {
    pub hash: u64,
    pub depth: i32,
    pub value: ValueInfo,
    pub best_move: ChessMove,
}

/// An entry whose score a search may safely negate and compare.
pub open spec fn valid_entry(e: TEntry) -> bool {
    MIN_SCORE <= e.value.approx_spec() <= MAX_SCORE
}

/// What a put leaves in the table: on an empty or foreign-hash bucket the
/// new entry; on a same-hash bucket the deeper of the two (ties to the new).
pub open spec fn put_model(s: Seq<Option<TEntry>>, e: TEntry) -> Seq<Option<TEntry>> {
    if s.len() == 0 {
        s
    } else {
        let i = e.hash as int % s.len() as int;
        match s[i] {
            None => s.update(i, Some(e)),
            Some(cur) => if cur.hash != e.hash || e.depth >= cur.depth {
                s.update(i, Some(e))
            } else {
                s
            },
        }
    }
}

/// What a fetch returns: the occupant of bucket `hash mod N`, and only if
/// its recorded hash matches the query.
pub open spec fn fetch_model(s: Seq<Option<TEntry>>, h: u64) -> Option<TEntry> {
    if s.len() == 0 {
        None
    } else {
        let i = h as int % s.len() as int;
        match s[i] {
            Some(e) => if e.hash == h {
                Some(e)
            } else {
                None
            },
            None => None,
        }
    }
}

/// The transposition table.  The view is the sequence of buckets.
pub struct TTable {
    table: Vec<Option<TEntry>>,
}

impl View for TTable {
    type V = Seq<Option<TEntry>>;

    closed spec fn view(&self) -> Seq<Option<TEntry>> {
        self.table@
    }
}

impl TTable {
    /// Every occupant sits in the bucket its hash addresses and carries a
    /// score a search may negate without overflow.
    pub open spec fn wf(self) -> bool {
        forall|i: int|
            0 <= i < self@.len() ==> ((#[trigger] self@[i]) matches Some(e) ==> valid_entry(e)
                && e.hash as int % self@.len() as int == i)
    }

    /// Build a table of `capacity / sizeof(TEntry)` empty buckets.
    pub fn new(capacity: usize) -> (r: TTable)
        ensures
            r.wf(),
            vstd::layout::size_of::<TEntry>() > 0 ==> r@.len()
                == capacity as int / vstd::layout::size_of::<TEntry>() as int,
            capacity == 0 ==> r@.len() == 0,
            forall|i: int| 0 <= i < r@.len() ==> r@[i] is None,
    {
        let entry_size = core::mem::size_of::<TEntry>();
        let entry_size = if entry_size == 0 { 1 } else { entry_size };
        let num = capacity / entry_size;
        let table = vec![None; num];
        TTable { table }
    }

    /// Install an entry in its bucket, preferring the deeper entry when the
    /// occupant records the same hash and always replacing a colliding one.
    pub fn put(&mut self, entry: TEntry)
        requires
            old(self).wf(),
            valid_entry(entry),
        ensures
            final(self).wf(),
            final(self)@ == put_model(old(self)@, entry),
            final(self)@.len() == old(self)@.len(),
    {
        let len = self.table.len();
        if len == 0 {
            return;
        }
        let index = (entry.hash % (len as u64)) as usize;
        let replace = match &self.table[index] {
            None => true,
            Some(cur) => cur.hash != entry.hash || entry.depth >= cur.depth,
        };
        if replace {
            self.table.set(index, Some(entry));
        }
        proof {
            assert(self@ =~= put_model(old(self)@, entry));
        }
    }

    /// Read the bucket the hash addresses; return its occupant only when
    /// the recorded hash matches the query.
    pub fn fetch(&self, hash: u64) -> (r: Option<TEntry>)
        ensures
            r == fetch_model(self@, hash),
            self.wf() ==> (r matches Some(e) ==> valid_entry(e)),
    {
        let len = self.table.len();
        if len == 0 {
            return None;
        }
        let index = (hash % (len as u64)) as usize;
        match &self.table[index] {
            Some(entry) => if entry.hash == hash {
                Some(*entry)
            } else {
                None
            },
            None => None,
        }
    }
}

} // verus!
