//! The transposition table: fixed capacity, two buckets per index,
//! depth-preferred replacement and mate-score normalisation.
use vstd::prelude::*;
use crate::chess_move::Move;
use crate::parameters::SearchParameters;

verus! {

/// Bound on the magnitude of a score handed to the table.
pub const SCORE_BOUND: i32 = 1_100_000_000;

/// Bound on the ply at which the table is read or written.
pub const PLY_BOUND: i32 = 1000;

/// A score as stored: mate scores moved away from the root by `ply`.
pub open spec fn stored_score(score: int, ply: int) -> int {
    if score > SearchParameters::Checkmate {
        score + ply
    } else if score < -SearchParameters::Checkmate {
        score - ply
    } else {
        score
    }
}

/// A stored score as read back at `ply`.
pub open spec fn read_score(stored: int, ply: int) -> int {
    let s1 = if stored > SearchParameters::Checkmate { stored - ply } else { stored };
    if s1 < -SearchParameters::Checkmate { s1 + ply } else { s1 }
}

/// The model of a table entry.
pub struct EntryView {
    pub hash: u64,
    pub depth: int,
    pub score: int,
    pub best: Option<Move>,
    pub flag: i8,
}

impl EntryView {
    /// What `get` returns: the stored move for a matching hash, and the score
    /// with whether it may cut the search off.
    pub open spec fn lookup(self, hash: u64, ply: int, depth: int, alpha: int, beta: int) -> (Option<Move>, int, bool) {
        if self.hash != hash {
            (None, 0, false)
        } else if self.depth < depth {
            (self.best, self.score, false)
        } else {
            let s = read_score(self.score, ply);
            if self.flag == SearchParameters::BetaFlag && s >= beta {
                (self.best, s, true)
            } else if self.flag == SearchParameters::AlphaFlag && s <= alpha {
                (self.best, alpha, true)
            } else if self.flag == SearchParameters::ExactFlag {
                (self.best, s, true)
            } else {
                (self.best, self.score, false)
            }
        }
    }

    pub open spec fn wf(self) -> bool {
        -(SCORE_BOUND + PLY_BOUND) <= self.score <= SCORE_BOUND + PLY_BOUND
    }
}

/// One slot of the table.
#[derive(Clone, Copy)]
pub struct TTEntry {
    pub hash: u64,
    depth: i32,
    score: i32,
    best: Option<Move>,
    pub flag: i8,
}

impl View for TTEntry {
    type V = EntryView;

    closed spec fn view(&self) -> EntryView {
        EntryView {
            hash: self.hash,
            depth: self.depth as int,
            score: self.score as int,
            best: self.best,
            flag: self.flag,
        }
    }
}

impl TTEntry {
    /// An empty slot.
    pub fn new() -> (r: Self)
        ensures
            r@ == (EntryView { hash: 0, depth: 0, score: 0, best: None, flag: 0 }),
    {
        Self { depth: 0, hash: 0, score: 0, best: None, flag: 0 }
    }

    pub fn stored_hash(&self) -> (r: u64)
        ensures
            r == self@.hash,
    {
        self.hash
    }

    /// Reads the slot for position `hash` at `ply`, asking for `depth` within
    /// the window (`alpha`, `beta`).
    pub fn get(&self, hash: u64, ply: i32, depth: i32, alpha: i32, beta: i32) -> (r: (Option<Move>, i32, bool))
        requires
            self@.wf(),
            0 <= ply <= PLY_BOUND,
        ensures
            (r.0, r.1 as int, r.2) == self@.lookup(hash, ply as int, depth as int, alpha as int, beta as int),
    {
        let mut adjusted: i32 = 0;
        let mut should_use = false;
        let mut best: Option<Move> = None;
        if self.hash == hash {
            best = self.best;
            adjusted = self.score;
            if self.depth >= depth {
                let mut score = self.score;
                if score > SearchParameters::Checkmate {
                    score = score - ply;
                }
                if score < -SearchParameters::Checkmate {
                    score = score + ply;
                }
                if self.flag == SearchParameters::ExactFlag {
                    adjusted = score;
                    should_use = true;
                }
                if self.flag == SearchParameters::AlphaFlag && score <= alpha {
                    adjusted = alpha;
                    should_use = true;
                }
                if self.flag == SearchParameters::BetaFlag && score >= beta {
                    adjusted = score;
                    should_use = true;
                }
            }
        }
        (best, adjusted, should_use)
    }

    /// Writes the slot: position `hash` searched to `depth` with `score` at
    /// `ply`, best move `best`, bound kind `flag`.
    pub fn set(&mut self, hash: u64, score: i32, best: &Move, ply: i32, depth: i32, flag: i8)
        requires
            -SCORE_BOUND <= score <= SCORE_BOUND,
            0 <= ply <= PLY_BOUND,
        ensures
            final(self)@ == (EntryView {
                hash,
                depth: depth as int,
                score: stored_score(score as int, ply as int),
                best: Some(*best),
                flag,
            }),
            final(self)@.wf(),
    {
        self.hash = hash;
        self.depth = depth;
        self.best = Some(*best);
        self.flag = flag;
        let mut s = score;
        if s > SearchParameters::Checkmate {
            s = s + ply;
        }
        if s < -SearchParameters::Checkmate {
            s = s - ply;
        }
        self.score = s;
    }

    pub fn get_flag(&self) -> (r: i8)
        ensures
            r == self@.flag,
    {
        self.flag
    }
}

/// A direct-addressed table of entries.
pub struct TT {
    size: u64,
    entries: Vec<TTEntry>,
}

impl TT {
    pub closed spec fn spec_size(&self) -> nat {
        self.size as nat
    }

    pub closed spec fn entries(&self) -> Seq<EntryView> {
        self.entries@.map_values(|e: TTEntry| e@)
    }

    pub closed spec fn wf(&self) -> bool {
        &&& self.size >= 1
        &&& self.entries@.len() == self.size
        &&& forall|i: int| 0 <= i < self.entries@.len() ==> (#[trigger] self.entries@[i])@.wf()
    }

    /// The slot that `probe(hash)` reads: the primary index, unless its hash
    /// differs and a secondary exists.
    pub open spec fn probe_slot(&self, hash: u64) -> int {
        let i = (hash % (self.spec_size() as u64)) as int;
        if i + 1 == self.spec_size() || self.entries()[i].hash == hash { i } else { i + 1 }
    }

    /// The slot that `store(hash, depth, ..)` writes: the primary index if its
    /// stored depth is at most `depth`, else the secondary (when one exists).
    pub open spec fn store_slot(&self, hash: u64, depth: int) -> int {
        let i = (hash % (self.spec_size() as u64)) as int;
        if i + 1 == self.spec_size() || self.entries()[i].depth <= depth { i } else { i + 1 }
    }

    /// The standard table of `SearchParameters::Size` mebi-slots.
    pub fn new() -> (r: Self)
        ensures
            r.wf(),
            r.spec_size() == SearchParameters::Size * 1024 * 1024,
            forall|i: int| 0 <= i < r.spec_size() ==> #[trigger] r.entries()[i] == (EntryView { hash: 0, depth: 0, score: 0, best: None, flag: 0 }),
    {
        Self::with_size(SearchParameters::Size * 1024 * 1024)
    }

    /// A table of `size` empty slots.
    pub fn with_size(size: u64) -> (r: Self)
        requires
            size >= 1,
        ensures
            r.wf(),
            r.spec_size() == size,
            forall|i: int| 0 <= i < size ==> #[trigger] r.entries()[i] == (EntryView { hash: 0, depth: 0, score: 0, best: None, flag: 0 }),
    {
        let mut entries: Vec<TTEntry> = Vec::new();
        let mut i: u64 = 0;
        while i < size
            invariant
                i <= size,
                entries@.len() == i,
                forall|j: int| 0 <= j < i ==> (#[trigger] entries@[j])@ == (EntryView { hash: 0, depth: 0, score: 0, best: None, flag: 0 }),
            decreases size - i,
        {
            entries.push(TTEntry::new());
            i = i + 1;
        }
        let r = Self { size, entries };
        assert forall|i: int| 0 <= i < size implies #[trigger] r.entries()[i] == (EntryView { hash: 0, depth: 0, score: 0, best: None, flag: 0 }) by {
            assert(r.entries()[i] == r.entries@[i]@);
        }
        r
    }

    /// The entry to consult for position `hash`.
    pub fn probe(&self, hash: u64) -> (r: &TTEntry)
        requires
            self.wf(),
        ensures
            r@ == self.entries()[self.probe_slot(hash)],
            r@.wf(),
    {
        let n = self.entries.len();
        let index = hash % self.size;
        assert(index < n);
        assert(self.entries()[index as int] == self.entries@[index as int]@);
        assert(index + 1 < self.size ==> self.entries()[index + 1] == self.entries@[index + 1]@);
        if index + 1 == self.size {
            return &self.entries[index as usize];
        }
        if self.entries[index as usize].hash == hash {
            return &self.entries[index as usize];
        }
        &self.entries[(index + 1) as usize]
    }

    /// Records a search result for position `hash` in the slot that the
    /// replacement policy picks.
    pub fn store(&mut self, hash: u64, depth: i32, score: i32, best: &Move, ply: i32, flag: i8)
        requires
            old(self).wf(),
            -SCORE_BOUND <= score <= SCORE_BOUND,
            0 <= ply <= PLY_BOUND,
        ensures
            final(self).wf(),
            final(self).spec_size() == old(self).spec_size(),
            final(self).entries() == old(self).entries().update(
                old(self).store_slot(hash, depth as int),
                EntryView {
                    hash,
                    depth: depth as int,
                    score: stored_score(score as int, ply as int),
                    best: Some(*best),
                    flag,
                },
            ),
    {
        let n = self.entries.len();
        let index = hash % self.size;
        assert(index < n);
        assert(self.entries()[index as int] == self.entries@[index as int]@);
        let slot = if index + 1 == self.size {
            index
        } else if self.entries[index as usize].depth <= depth {
            index
        } else {
            index + 1
        };
        assert(slot == self.store_slot(hash, depth as int));
        let mut e = self.entries[slot as usize];
        e.set(hash, score, best, ply, depth, flag);
        self.entries.set(slot as usize, e);
        assert forall|i: int| 0 <= i < self.entries@.len() implies (#[trigger] self.entries@[i])@.wf() by {
            if i != slot {
                assert(self.entries@[i] == old(self).entries@[i]);
            }
        }
        assert(self.entries() =~= old(self).entries().update(
            old(self).store_slot(hash, depth as int),
            e@,
        ));
    }
}

impl TT {
    /// A well-formed table has one entry per slot, and at least one slot.
    pub proof fn lemma_wf(&self)
        requires
            self.wf(),
        ensures
            self.entries().len() == self.spec_size(),
            self.spec_size() >= 1,
    {
    }
}

/// After a store of entry `e` for `hash`, probing `hash` finds `e`, unless the
/// primary slot already held a deeper entry for the same hash.
pub proof fn lemma_store_then_probe(t: TT, t2: TT, hash: u64, depth: int, e: EntryView)
    requires
        t.wf(),
        t2.spec_size() == t.spec_size(),
        e.hash == hash,
        t2.entries() == t.entries().update(t.store_slot(hash, depth), e),
        ({
            let i = (hash % (t.spec_size() as u64)) as int;
            !(t.entries()[i].hash == hash && t.entries()[i].depth > depth)
        }),
    ensures
        t2.entries()[t2.probe_slot(hash)] == e,
{
    t.lemma_wf();
}

/// Storing an exact result and reading it back at the same ply, for any depth
/// up to the stored one, gives the stored score back.
pub proof fn lemma_exact_round_trip(score: int, ply: int, alpha: int, beta: int, e: EntryView, hash: u64, depth: int, query: int)
    requires
        -SCORE_BOUND <= score <= SCORE_BOUND,
        0 <= ply <= PLY_BOUND,
        query <= depth,
        e == (EntryView { hash, depth, score: stored_score(score, ply), best: e.best, flag: SearchParameters::ExactFlag }),
    ensures
        e.lookup(hash, ply, query, alpha, beta) == (e.best, score, true),
{
}

} // verus!
