//! The searcher: iterative deepening over an aspiration-window alpha-beta
//! with quiescence, pruning, reductions and extensions.
use vstd::prelude::*;
use vstd::seq_lib::group_to_multiset_ensures;
use crate::board::{Board, BoardView};
use crate::chess_move::Move;
use crate::condition::{Condition, opponent};
use crate::eval::{Eval, EVAL_BOUND};
use crate::parameters::SearchParameters;
use crate::tt::{EntryView, TT};

verus! {

broadcast use group_to_multiset_ensures;

/// The score that stands for an unbounded window edge.
pub const INF: i32 = 1_000_000_000;

/// Bound on the magnitude of any score the searcher returns.
pub const RETURN_BOUND: i32 = 1_000_000_200;

/// Bound on the history scores.
pub const HISTORY_BOUND: i32 = 2_000_000;

/// Slots per side in the history and counter-move tables: start square times
/// 90 plus end square.
pub const PAIRS: usize = 8100;

/// The index of move `m` of side `side` in the history and counter tables.
pub open spec fn pair_index(side: Condition, m: Move) -> int {
    (if side == Condition::RED { 0int } else { 8100int }) + m.from_sq() * 90 + m.to_sq()
}

/// Base value of a captured piece, by kind.
pub open spec fn capture_value(k: int) -> int {
    seq![0int, 20, 50, 100, 20, 10, 35, 10][k]
}

/// A principal variation that can be played out from `v`, move after move.
pub open spec fn line_ok(v: BoardView, pv: Seq<Move>) -> bool
    decreases pv.len(),
{
    pv.len() == 0 || {
        &&& v.legal(pv[0])
        &&& !v.exceeded
        &&& v.ply < i32::MAX
        &&& line_ok(v.make(pv[0]), pv.drop_first())
    }
}

/// The variation is playable from `v`, unless it was left as it was given.
pub open spec fn pv_ok(v: BoardView, old_pv: Seq<Move>, pv: Seq<Move>) -> bool {
    line_ok(v, pv) || pv == old_pv
}

proof fn lemma_line_cons(v: BoardView, m: Move, child: Seq<Move>)
    requires
        v.legal(m),
        !v.exceeded,
        v.ply < i32::MAX,
        line_ok(v.make(m), child),
    ensures
        line_ok(v, seq![m] + child),
{
    let l = seq![m] + child;
    assert(l[0] == m);
    assert(l.drop_first() =~= child);
}

/// A window edge at `ply`: the root's edges are at most `INF` in magnitude,
/// and each ply down may shift them by one.
pub open spec fn in_window(x: int, ply: int) -> bool {
    -(INF + ply) <= x <= INF + ply
}

/// The searcher and its move-ordering state.
pub struct Engine {
    tt: TT,
    history: Vec<i32>,
    killers: Vec<Move>,
    counter: Vec<Move>,
    eval: Eval,
    pub maxpositions: i32,
    pub searches: i32,
}

impl Engine {
    const SCORES: [i32; 8] = [0, 20, 50, 100, 20, 10, 35, 10];

    pub closed spec fn wf(&self) -> bool {
        &&& self.tt.wf()
        &&& self.history@.len() == 16200
        &&& forall|i: int| 0 <= i < 16200 ==> 0 <= #[trigger] self.history@[i] <= HISTORY_BOUND
        &&& self.killers@.len() == 200
        &&& self.counter@.len() == 16200
        &&& self.eval.wf()
    }

    /// Nodes visited by the current search.
    pub closed spec fn spent(&self) -> int {
        self.searches as int
    }

    /// The node budget of the current search.
    pub closed spec fn budget(&self) -> int {
        self.maxpositions as int
    }

    /// The transposition table.
    pub closed spec fn table(&self) -> TT {
        self.tt
    }

    /// The history score of each (side, start, end) slot.
    pub closed spec fn history_table(&self) -> Seq<i32> {
        self.history@
    }

    /// The killer moves, two per ply.
    pub closed spec fn killer_table(&self) -> Seq<Move> {
        self.killers@
    }

    /// The counter-move of each (side, previous start, previous end) slot.
    pub closed spec fn counter_table(&self) -> Seq<Move> {
        self.counter@
    }

    /// The ordering rank of move `m` for side `side` at `ply`.
    pub open spec fn rank(&self, side: Condition, m: Move, ply: int, pv: Move, prev: Move) -> int {
        let offset = SearchParameters::MvvLvaOffset as int;
        if m.same_move(pv) {
            offset + 5 * capture_value(3) + SearchParameters::PVMoveScore
        } else if m.captured != 0 {
            offset + 5 * capture_value(crate::rules::kind(m.captured))
        } else if m.same_move(self.killer_table()[ply * 2]) {
            offset - SearchParameters::FirstKillerMoveScore
        } else if m.same_move(self.killer_table()[ply * 2 + 1]) {
            offset - SearchParameters::SecondKillerMoveScore
        } else {
            self.history_table()[pair_index(side, m)] + if !prev.spec_is_null() && m.same_move(
                self.counter_table()[pair_index(side, prev)],
            ) {
                SearchParameters::CounterMoveBonus as int
            } else {
                0
            }
        }
    }

    /// A searcher with the standard transposition table and empty ordering
    /// tables.
    pub fn new() -> (r: Self)
        ensures
            r.wf(),
            r.spent() == 0,
            r.budget() == 0,
            r.table().spec_size() == SearchParameters::Size * 1024 * 1024,
            forall|i: int| 0 <= i < r.table().spec_size() ==> #[trigger] r.table().entries()[i] == (EntryView { hash: 0, depth: 0, score: 0, best: None, flag: 0 }),
            forall|i: int| 0 <= i < 16200 ==> #[trigger] r.history_table()[i] == 0,
            forall|i: int| 0 <= i < 200 ==> (#[trigger] r.killer_table()[i]).spec_is_null(),
            forall|i: int| 0 <= i < 16200 ==> (#[trigger] r.counter_table()[i]).spec_is_null(),
    {
        let r = Self::with_tt(TT::new());
        r
    }

    /// A searcher with a transposition table of `slots` entries and empty
    /// ordering tables.
    pub fn with_tt_size(slots: u64) -> (r: Self)
        requires
            slots >= 1,
        ensures
            r.wf(),
            r.spent() == 0,
            r.budget() == 0,
            r.table().spec_size() == slots,
            forall|i: int| 0 <= i < slots ==> #[trigger] r.table().entries()[i] == (EntryView { hash: 0, depth: 0, score: 0, best: None, flag: 0 }),
            forall|i: int| 0 <= i < 16200 ==> #[trigger] r.history_table()[i] == 0,
            forall|i: int| 0 <= i < 200 ==> (#[trigger] r.killer_table()[i]).spec_is_null(),
            forall|i: int| 0 <= i < 16200 ==> (#[trigger] r.counter_table()[i]).spec_is_null(),
    {
        Self::with_tt(TT::with_size(slots))
    }

    fn with_tt(tt: TT) -> (r: Self)
        requires
            tt.wf(),
        ensures
            r.wf(),
            r.maxpositions == 0,
            r.searches == 0,
            r.tt == tt,
            forall|i: int| 0 <= i < 16200 ==> #[trigger] r.history_table()[i] == 0,
            forall|i: int| 0 <= i < 200 ==> (#[trigger] r.killer_table()[i]).spec_is_null(),
            forall|i: int| 0 <= i < 16200 ==> (#[trigger] r.counter_table()[i]).spec_is_null(),
    {
        let mut history: Vec<i32> = Vec::new();
        let mut counter: Vec<Move> = Vec::new();
        let mut i: usize = 0;
        while i < 16200
            invariant
                i <= 16200,
                history@.len() == i,
                counter@.len() == i,
                forall|j: int| 0 <= j < i ==> #[trigger] history@[j] == 0,
                forall|j: int| 0 <= j < i ==> (#[trigger] counter@[j]).spec_is_null(),
            decreases 16200 - i,
        {
            history.push(0);
            counter.push(Move::null());
            i = i + 1;
        }
        let mut killers: Vec<Move> = Vec::new();
        let mut k: usize = 0;
        while k < 200
            invariant
                k <= 200,
                killers@.len() == k,
                forall|j: int| 0 <= j < k ==> (#[trigger] killers@[j]).spec_is_null(),
            decreases 200 - k,
        {
            killers.push(Move::null());
            k = k + 1;
        }
        Self { tt, history, killers, counter, eval: Eval::new(), maxpositions: 0, searches: 0 }
    }

    fn pair(side: Condition, m: &Move) -> (r: usize)
        requires
            m.on_board(),
        ensures
            r == pair_index(side, *m),
            r < 16200,
    {
        (if side == Condition::RED { 0 } else { PAIRS }) + m.start_sq() * 90 + m.end_sq()
    }

    fn get_history(&self, game: &Board, mov: &Move) -> (r: i32)
        requires
            self.wf(),
            game.inv(),
            mov.on_board(),
        ensures
            r == self.history_table()[pair_index(game@.player, *mov)],
            0 <= r <= HISTORY_BOUND,
    {
        self.history[Self::pair(game.player(), mov)]
    }

    /// Rewards a move that raised alpha or cut off by `depth` squared,
    /// halving the mover's table once a score reaches the watermark.
    fn increment_history(&mut self, game: &Board, mov: &Move, depth: i32)
        requires
            old(self).wf(),
            game.inv(),
            mov.on_board(),
            0 <= depth <= 1200,
        ensures
            final(self).wf(),
            ({
                let i = pair_index(game@.player, *mov);
                let raised = old(self).history_table()[i] + depth * depth;
                raised < SearchParameters::MaxHistoryScore ==> final(self).history_table()
                    == old(self).history_table().update(i, raised as i32)
            }),
            final(self).killer_table() == old(self).killer_table(),
            final(self).counter_table() == old(self).counter_table(),
            final(self).tt == old(self).tt,
            final(self).eval == old(self).eval,
            final(self).searches == old(self).searches,
            final(self).maxpositions == old(self).maxpositions,
    {
        let idx = Self::pair(game.player(), mov);
        let h = self.history[idx];
        assert(depth * depth <= 1_440_000) by (nonlinear_arith)
            requires
                0 <= depth <= 1200,
        ;
        self.history.set(idx, h + depth * depth);
        proof {
            game.lemma_inv();
            assert forall|i: int| 0 <= i < 16200 && #[trigger] self.history@[i] > HISTORY_BOUND
                implies if game@.player == Condition::RED { i < 8100 } else { i >= 8100 } by {
                assert(i == idx);
            }
        }
        if self.history[idx] >= SearchParameters::MaxHistoryScore {
            self.age_history(game);
        }
    }

    /// Halves every history score of the side to move.
    fn age_history(&mut self, game: &Board)
        requires
            old(self).history@.len() == 16200,
            forall|i: int| 0 <= i < 16200 ==> 0 <= #[trigger] old(self).history@[i] <= 2 * HISTORY_BOUND,
            game.inv(),
            forall|i: int| 0 <= i < 16200 && #[trigger] old(self).history@[i] > HISTORY_BOUND
                ==> if game@.player == Condition::RED { i < 8100 } else { i >= 8100 },
        ensures
            final(self).history@.len() == 16200,
            forall|i: int| 0 <= i < 16200 ==> 0 <= #[trigger] final(self).history@[i] <= HISTORY_BOUND,
            final(self).killers == old(self).killers,
            final(self).counter == old(self).counter,
            final(self).tt == old(self).tt,
            final(self).eval == old(self).eval,
            final(self).searches == old(self).searches,
            final(self).maxpositions == old(self).maxpositions,
    {
        let base: usize = if game.player() == Condition::RED { 0 } else { PAIRS };
        proof {
            game.lemma_inv();
        }
        let mut i: usize = 0;
        while i < 16200
            invariant
                i <= 16200,
                base == 0 || base == 8100,
                base == 0 <==> game@.player == Condition::RED,
                game.inv(),
                forall|j: int| 0 <= j < 16200 && #[trigger] old(self).history@[j] > HISTORY_BOUND
                    ==> if game@.player == Condition::RED { j < 8100 } else { j >= 8100 },
                forall|j: int| i <= j < 16200 ==> self.history@[j] == #[trigger] old(self).history@[j],
                self.history@.len() == 16200,
                forall|j: int| 0 <= j < i ==> 0 <= #[trigger] self.history@[j] <= HISTORY_BOUND,
                forall|j: int| i <= j < 16200 ==> 0 <= #[trigger] self.history@[j] <= 2 * HISTORY_BOUND,
                forall|j: int| i <= j < 16200 && (j < base || j >= base + 8100) ==> #[trigger] self.history@[j] <= HISTORY_BOUND,
                self.killers == old(self).killers,
                self.counter == old(self).counter,
                self.tt == old(self).tt,
                self.eval == old(self).eval,
                self.searches == old(self).searches,
                self.maxpositions == old(self).maxpositions,
            decreases 16200 - i,
        {
            if base <= i && i < base + PAIRS {
                let h = self.history[i];
                self.history.set(i, h / 2);
            }
            i = i + 1;
        }
    }

    /// Lowers by one the history score of a move that failed to raise
    /// alpha, not below zero.
    fn decrement_history(&mut self, game: &Board, mov: &Move)
        requires
            old(self).wf(),
            game.inv(),
            mov.on_board(),
        ensures
            final(self).wf(),
            final(self).killer_table() == old(self).killer_table(),
            final(self).counter_table() == old(self).counter_table(),
            final(self).tt == old(self).tt,
            final(self).eval == old(self).eval,
            final(self).searches == old(self).searches,
            final(self).maxpositions == old(self).maxpositions,
            final(self).history_table() == if old(self).history_table()[pair_index(game@.player, *mov)] > 0 {
                old(self).history_table().update(pair_index(game@.player, *mov), (old(self).history_table()[pair_index(game@.player, *mov)] - 1) as i32)
            } else {
                old(self).history_table()
            },
    {
        if self.get_history(game, mov) > 0 {
            let idx = Self::pair(game.player(), mov);
            let h = self.history[idx];
            self.history.set(idx, h - 1);
        }
    }

    /// Records a quiet cutoff move as the first killer at `ply`, the old first
    /// killer becoming the second, unless it is already the first.
    fn store_killer(&mut self, ply: i32, mov: &Move)
        requires
            old(self).wf(),
            0 <= ply < 100,
        ensures
            final(self).wf(),
            final(self).history_table() == old(self).history_table(),
            final(self).counter_table() == old(self).counter_table(),
            final(self).tt == old(self).tt,
            final(self).eval == old(self).eval,
            final(self).searches == old(self).searches,
            final(self).maxpositions == old(self).maxpositions,
            final(self).killer_table() == if mov.captured == 0 && !mov.same_move(old(self).killer_table()[ply * 2]) {
                old(self).killer_table().update(ply * 2 + 1, old(self).killer_table()[ply * 2]).update(ply * 2, *mov)
            } else {
                old(self).killer_table()
            },
    {
        let p = (ply as usize) * 2;
        if mov.is_quiet() {
            if !mov.equals(&self.killers[p]) {
                let first = self.killers[p];
                self.killers.set(p + 1, first);
                self.killers.set(p, *mov);
            }
        }
    }

    /// Records a quiet cutoff move as the counter to the previous move.
    fn store_counter(&mut self, game: &Board, prev_move: &Move, curr_move: &Move)
        requires
            old(self).wf(),
            game.inv(),
            prev_move.spec_is_null() || prev_move.on_board(),
        ensures
            final(self).wf(),
            final(self).history_table() == old(self).history_table(),
            final(self).killer_table() == old(self).killer_table(),
            final(self).tt == old(self).tt,
            final(self).eval == old(self).eval,
            final(self).searches == old(self).searches,
            final(self).maxpositions == old(self).maxpositions,
            final(self).counter_table() == if curr_move.captured == 0 && !prev_move.spec_is_null() {
                old(self).counter_table().update(pair_index(game@.player, *prev_move), *curr_move)
            } else {
                old(self).counter_table()
            },
    {
        if curr_move.is_quiet() && !prev_move.is_null() {
            let idx = Self::pair(game.player(), prev_move);
            self.counter.set(idx, *curr_move);
        }
    }

    fn rank_exec(&self, side: Condition, m: &Move, ply: i32, pv_move: &Move, prev_move: &Move) -> (r: i64)
        requires
            self.wf(),
            m.on_board(),
            -7 <= m.captured <= 7,
            0 <= ply < 100,
            prev_move.spec_is_null() || prev_move.on_board(),
        ensures
            r == self.rank(side, *m, ply as int, *pv_move, *prev_move),
    {
        let offset = SearchParameters::MvvLvaOffset as i64;
        let p = (ply as usize) * 2;
        if m.equals(pv_move) {
            offset + 500 + SearchParameters::PVMoveScore as i64
        } else if m.captured != 0 {
            let k: usize = if m.captured < 0 { (-m.captured) as usize } else { m.captured as usize };
            let scores = Self::SCORES;
            assert(scores@ =~= seq![0i32, 20, 50, 100, 20, 10, 35, 10]);
            offset + 5 * scores[k] as i64
        } else if m.equals(&self.killers[p]) {
            offset - SearchParameters::FirstKillerMoveScore as i64
        } else if m.equals(&self.killers[p + 1]) {
            offset - SearchParameters::SecondKillerMoveScore as i64
        } else {
            let h = self.history[Self::pair(side, m)] as i64;
            if !prev_move.is_null() && m.equals(&self.counter[Self::pair(side, prev_move)]) {
                h + SearchParameters::CounterMoveBonus as i64
            } else {
                h
            }
        }
    }

    /// Orders `moves` by decreasing rank: principal-variation move, captures
    /// by victim value, killers, then counter-move bonus and history.
    fn score_moves(&self, game: &Board, moves: &mut Vec<Move>, ply: i32, pv_move: &Move, prev_move: &Move)
        requires
            self.wf(),
            game.inv(),
            0 <= ply < 100,
            prev_move.spec_is_null() || prev_move.on_board(),
            forall|i: int| 0 <= i < old(moves)@.len() ==> (#[trigger] old(moves)@[i]).on_board() && -7 <= old(moves)@[i].captured <= 7,
        ensures
            final(moves)@.to_multiset() == old(moves)@.to_multiset(),
            final(moves)@.len() == old(moves)@.len(),
            forall|m: Move| final(moves)@.contains(m) <==> old(moves)@.contains(m),
            forall|i: int, j: int| 0 <= i < j < final(moves)@.len() ==> self.rank(game@.player, final(moves)@[i], ply as int, *pv_move, *prev_move)
                >= self.rank(game@.player, final(moves)@[j], ply as int, *pv_move, *prev_move),
    {
        let side = game.player();
        let n = moves.len();
        let mut keys: Vec<i64> = Vec::new();
        let mut t: usize = 0;
        while t < n
            invariant
                t <= n,
                n == moves@.len(),
                moves@ == old(moves)@,
                keys@.len() == t,
                self.wf(),
                0 <= ply < 100,
                prev_move.spec_is_null() || prev_move.on_board(),
                forall|i: int| 0 <= i < moves@.len() ==> (#[trigger] moves@[i]).on_board() && -7 <= moves@[i].captured <= 7,
                forall|k: int| 0 <= k < t ==> #[trigger] keys@[k] == self.rank(side, moves@[k], ply as int, *pv_move, *prev_move),
            decreases n - t,
        {
            let key = self.rank_exec(side, &moves[t], ply, pv_move, prev_move);
            keys.push(key);
            t = t + 1;
        }
        let mut i: usize = 0;
        while i < n
            invariant
                i <= n,
                n == moves@.len(),
                keys@.len() == n,
                moves@.to_multiset() == old(moves)@.to_multiset(),
                forall|k: int| 0 <= k < n ==> #[trigger] keys@[k] == self.rank(side, moves@[k], ply as int, *pv_move, *prev_move),
                forall|a: int, b: int| 0 <= a < b < i ==> keys@[a] >= keys@[b],
                forall|a: int, b: int| 0 <= a < i <= b < n ==> keys@[a] >= keys@[b],
            decreases n - i,
        {
            let mut best = i;
            let mut j = i + 1;
            while j < n
                invariant
                    i < n,
                    i <= best < j,
                    j <= n,
                    keys@.len() == n,
                    forall|k: int| i <= k < j ==> keys@[best as int] >= #[trigger] keys@[k],
                decreases n - j,
            {
                if keys[j] > keys[best] {
                    best = j;
                }
                j = j + 1;
            }
            let ghost before = moves@;
            let a = moves[i];
            let b = moves[best];
            moves.set(i, b);
            moves.set(best, a);
            let ka = keys[i];
            let kb = keys[best];
            keys.set(i, kb);
            keys.set(best, ka);
            proof {
                lemma_swap_multiset(before, i as int, best as int);
            }
            i = i + 1;
        }
        proof {
            assert forall|a: int, b: int| 0 <= a < b < moves@.len() implies self.rank(side, moves@[a], ply as int, *pv_move, *prev_move)
                >= self.rank(side, moves@[b], ply as int, *pv_move, *prev_move) by {
                assert(keys@[a] == self.rank(side, moves@[a], ply as int, *pv_move, *prev_move));
                assert(keys@[b] == self.rank(side, moves@[b], ply as int, *pv_move, *prev_move));
            }
            assert forall|m: Move| moves@.contains(m) <==> old(moves)@.contains(m) by {
                assert(moves@.to_multiset().count(m) == old(moves)@.to_multiset().count(m));
            }
        }
    }
}

/// The static score of position `v` at `ply`: the decided outcome when the
/// game is over, else the evaluation.
pub open spec fn static_score(e: Eval, v: BoardView, ply: int) -> int {
    let c = v.outcome();
    if c == v.player {
        SearchParameters::Win - ply
    } else if c == opponent(v.player) {
        -SearchParameters::Win + ply
    } else if c == Condition::DRAW {
        0
    } else {
        crate::eval::evaluation(e, v)
    }
}

/// Replaces `pv` by `m` followed by `child`.
fn set_pv(pv: &mut Vec<Move>, m: Move, child: &Vec<Move>)
    ensures
        final(pv)@ == seq![m] + child@,
{
    let mut out: Vec<Move> = Vec::new();
    out.push(m);
    let mut i: usize = 0;
    while i < child.len()
        invariant
            i <= child@.len(),
            out@ == seq![m] + child@.subrange(0, i as int),
        decreases child.len() - i,
    {
        out.push(child[i]);
        i = i + 1;
        assert(out@ =~= seq![m] + child@.subrange(0, i as int));
    }
    assert(child@.subrange(0, child@.len() as int) =~= child@);
    *pv = out;
}

/// The moves of `moves` are all legal in `v`.
pub open spec fn all_legal(v: BoardView, moves: Seq<Move>) -> bool {
    forall|k: int| 0 <= k < moves.len() ==> v.legal(#[trigger] moves[k])
}

proof fn lemma_legal_list(v: BoardView, captures: bool)
    requires
        v.wf(),
    ensures
        all_legal(v, v.legal_moves(captures)),
{
    crate::board::lemma_filter_legal(v, crate::rules::pseudo_list(v.grid, v.player, 90), captures);
    assert forall|k: int| 0 <= k < v.legal_moves(captures).len() implies v.legal(#[trigger] v.legal_moves(captures)[k]) by {
        assert(v.keeps(v.legal_moves(captures)[k], captures));
    }
}

proof fn lemma_legal_can_make(v: BoardView, m: Move)
    requires
        v.wf(),
        v.legal(m),
        !v.exceeded,
        v.ply < i32::MAX,
    ensures
        v.can_make(m),
        !m.spec_is_null(),
        m.on_board(),
        -7 <= m.captured <= 7,
{
}

impl Engine {
    /// The evaluator the searcher scores positions with.
    pub closed spec fn evaluator(&self) -> Eval {
        self.eval
    }

    fn bump(&mut self)
        ensures
            final(self).searches == if old(self).searches < i32::MAX { old(self).searches + 1 } else { old(self).searches as int },
            final(self).tt == old(self).tt,
            final(self).history == old(self).history,
            final(self).killers == old(self).killers,
            final(self).counter == old(self).counter,
            final(self).eval == old(self).eval,
            final(self).maxpositions == old(self).maxpositions,
    {
        if self.searches < i32::MAX {
            self.searches = self.searches + 1;
        }
    }

    /// The score of `game` at `ply`: decided outcomes as win or loss scores
    /// that prefer shorter mates, a draw as zero, else the evaluation.
    pub fn evaluate(&self, game: &mut Board, ply: i32) -> (r: i32)
        requires
            self.wf(),
            old(game).inv(),
            0 <= ply <= 1000,
        ensures
            final(game).inv(),
            final(game)@ == old(game)@,
            r == static_score(self.evaluator(), old(game)@, ply as int),
            -EVAL_BOUND <= r <= EVAL_BOUND,
    {
        let cond = game.condition();
        let side = game.player();
        if cond == side {
            return SearchParameters::Win - ply;
        } else if cond == side.inverse() {
            return -SearchParameters::Win + ply;
        } else if cond == Condition::DRAW {
            return 0;
        }
        self.eval.evaluate(game)
    }

    /// Quiescence search: stand pat on the static score, then try captures
    /// (every move when in check near the root) until the position is quiet.
    pub fn qsearch(
        &mut self,
        game: &mut Board,
        alpha: i32,
        beta: i32,
        pv_line: &mut Vec<Move>,
        ply: i32,
        maxply: i32,
    ) -> (r: i32)
        requires
            old(self).wf(),
            old(game).inv(),
            0 <= ply <= 200,
            0 <= maxply,
            in_window(alpha as int, ply as int),
            in_window(beta as int, ply as int),
            old(game)@.ply + 200 - ply <= i32::MAX,
        ensures
            final(self).wf(),
            final(game).inv(),
            final(game)@ == old(game)@,
            -RETURN_BOUND <= r <= RETURN_BOUND,
            pv_ok(old(game)@, old(pv_line)@, final(pv_line)@),
            final(self).evaluator() == old(self).evaluator(),
            final(self).budget() == old(self).budget(),
            old(game)@.outcome() != Condition::NONE ==> r == static_score(old(self).evaluator(), old(game)@, ply as int),
            old(self).spent() < old(self).budget() ==> r >= static_score(old(self).evaluator(), old(game)@, ply as int),
            ({
                let st = static_score(old(self).evaluator(), old(game)@, ply as int);
                old(self).spent() < old(self).budget() && old(game)@.outcome() == Condition::NONE
                    && maxply + ply < SearchParameters::MaxDepth && !(ply <= 2 && old(game)@.in_check())
                    && st >= beta ==> r == st
            }),
        decreases SearchParameters::MaxDepth - ply - maxply,
    {
        let ghost v = game@;
        proof {
            game.lemma_inv();
        }
        self.bump();
        let cond = game.condition();
        let side = game.player();
        if cond == side {
            return SearchParameters::Win - ply;
        } else if cond == side.inverse() {
            return -SearchParameters::Win + ply;
        } else if cond == Condition::DRAW {
            return 0;
        }
        if self.searches > self.maxpositions {
            return 0;
        }
        if maxply >= SearchParameters::MaxDepth - ply {
            return self.evaluate(game, ply);
        }
        let mut best_score = self.evaluate(game, ply);
        let ghost stand = best_score;
        let in_check = ply <= 2 && game.is_check();
        if !in_check && best_score >= beta {
            return best_score;
        }
        let mut alpha = alpha;
        if best_score > alpha {
            alpha = best_score;
        }
        let mut moves = game.get_moves(!in_check);
        proof {
            lemma_legal_list(v, !in_check);
        }
        self.score_moves(game, &mut moves, maxply, &Move::null(), &Move::null());
        proof {
            assert forall|k: int| 0 <= k < moves@.len() implies v.legal(#[trigger] moves@[k]) by {
                assert(moves@.contains(moves@[k]));
                let lm = v.legal_moves(!in_check);
                assert(lm.contains(moves@[k]));
                let j = choose|j: int| 0 <= j < lm.len() && #[trigger] lm[j] == moves@[k];
                assert(v.legal(lm[j]));
            }
        }
        let mut i: usize = 0;
        while i < moves.len()
            invariant
                self.wf(),
                game.inv(),
                game@ == v,
                v.wf(),
                !v.is_draw(),
                v.ply + 200 - ply <= i32::MAX,
                0 <= ply < 100,
                0 <= maxply,
                maxply + ply < 100,
                i <= moves@.len(),
                all_legal(v, moves@),
                in_window(alpha as int, ply as int),
                in_window(beta as int, ply as int),
                -RETURN_BOUND <= best_score <= RETURN_BOUND,
                pv_ok(v, old(pv_line)@, pv_line@),
                best_score >= stand,
                self.evaluator() == old(self).evaluator(),
                self.budget() == old(self).budget(),
            decreases moves.len() - i,
        {
            let m = moves[i];
            proof {
                lemma_legal_can_make(v, m);
                crate::board::lemma_make_wf(v, m);
                crate::board::lemma_make_unmake(v, m);
            }
            let mut child_pv_line: Vec<Move> = Vec::new();
            let mut mm = m;
            game.mov(&mut mm);
            let s = self.qsearch(game, -beta, -alpha, &mut child_pv_line, ply + 1, maxply);
            proof {
                assert(line_ok(v.make(m), child_pv_line@));
                lemma_line_cons(v, m, child_pv_line@);
            }
            game.unmov(&mut mm);
            let score = -s;
            if score > best_score {
                best_score = score;
            }
            if score >= beta {
                break;
            }
            if score > alpha {
                alpha = score;
                set_pv(pv_line, m, &child_pv_line);
            }
            i = i + 1;
        }
        best_score
    }
}

impl Engine {
    /// Alpha-beta (negamax) search of `game` to `depth` at `ply`, within the
    /// window (`alpha`, `beta`), with the move `skip_move` left out.
    #[verifier::rlimit(40)]
    fn negamax(
        &mut self,
        game: &mut Board,
        depth: i32,
        ply: i32,
        alpha: i32,
        beta: i32,
        pv_line: &mut Vec<Move>,
        do_null: bool,
        prev_move: &Move,
        skip_move: &Move,
        is_extended: bool,
    ) -> (r: i32)
        requires
            old(self).wf(),
            old(game).inv(),
            0 <= ply <= 100,
            -1_000_000 <= depth <= 1000 + 2 * ply,
            in_window(alpha as int, ply as int),
            in_window(beta as int, ply as int),
            old(game)@.ply + 200 - ply <= i32::MAX,
            prev_move.spec_is_null() || prev_move.on_board(),
        ensures
            final(self).wf(),
            final(game).inv(),
            final(game)@ == old(game)@,
            -RETURN_BOUND <= r <= RETURN_BOUND,
            pv_ok(old(game)@, old(pv_line)@, final(pv_line)@),
            final(self).evaluator() == old(self).evaluator(),
            final(self).budget() == old(self).budget(),
            ply >= SearchParameters::MaxDepth || old(game)@.outcome() != Condition::NONE
                ==> r == static_score(old(self).evaluator(), old(game)@, ply as int),
        decreases SearchParameters::MaxDepth - ply,
    {
        let ghost v = game@;
        proof {
            game.lemma_inv();
        }
        self.bump();
        if ply >= SearchParameters::MaxDepth {
            return self.evaluate(game, ply);
        }
        let cond = game.condition();
        let side = game.player();
        if cond == side {
            return SearchParameters::Win - ply;
        } else if cond == side.inverse() {
            return -SearchParameters::Win + ply;
        } else if cond == Condition::DRAW {
            return 0;
        }
        if self.searches > self.maxpositions {
            return 0;
        }
        let in_check = game.is_check();
        let is_root = ply == 0;
        let is_pv_node = beta - alpha != 1;
        let mut can_futility_prune = false;
        let mut depth = depth;
        if in_check {
            depth = depth + 1;
        }
        if depth <= 0 {
            return self.qsearch(game, alpha, beta, pv_line, ply, ply);
        }

        // transposition table
        let mut tt_move = Move::null();
        let hash = game.get_hash();
        let entry = *self.tt.probe(hash);
        let (found, tt_score, should_use) = entry.get(hash, ply, depth, alpha, beta);
        if let Some(x) = found {
            tt_move = x;
        }
        let tt_hit = entry.stored_hash() == hash;
        let flag = entry.get_flag();
        let can_sve = flag == SearchParameters::ExactFlag || flag == SearchParameters::BetaFlag;
        let caniid = flag == SearchParameters::BetaFlag;
        if should_use && !is_root && !skip_move.equals(&tt_move) && -INF <= tt_score && tt_score <= INF {
            return tt_score;
        }

        // static null move pruning
        if !in_check && !is_pv_node && -SearchParameters::Checkmate < beta && beta < SearchParameters::Checkmate {
            let stat = self.evaluate(game, ply);
            let margin = SearchParameters::StaticNullMovePruningBaseMargin * depth;
            if stat - margin >= beta {
                return stat - margin;
            }
        }

        // null move pruning
        if do_null && !in_check && !is_pv_node && depth >= SearchParameters::NMRDepthLimit {
            let mut child_pv_line: Vec<Move> = Vec::new();
            let mut null = Move::null();
            proof {
                crate::board::lemma_make_wf(v, null);
                crate::board::lemma_make_unmake(v, null);
            }
            game.mov(&mut null);
            let reduction = 1 + depth / 6;
            let s = self.negamax(game, depth - 1 - reduction, ply + 1, -beta, -beta + 1, &mut child_pv_line, false, &Move::null(), &Move::null(), is_extended);
            game.unmov(&mut null);
            let score = -s;
            if score >= beta && -SearchParameters::Checkmate < score && score < SearchParameters::Checkmate {
                return beta;
            }
        }

        // razoring
        if depth <= 2 && !is_pv_node && !in_check {
            let static_score = self.evaluate(game, ply);
            let margins = SearchParameters::FutilityMargins;
            if static_score + margins[depth as usize] * 3 < alpha {
                let mut scratch_pv: Vec<Move> = Vec::new();
                let score = self.qsearch(game, alpha, beta, &mut scratch_pv, ply, 0);
                if score < alpha {
                    return alpha;
                }
            }
        }

        // futility pruning
        if depth <= SearchParameters::FutilityPruningDepthLimit && !is_pv_node && !in_check
            && alpha < SearchParameters::Checkmate && beta < SearchParameters::Checkmate {
            let static_score = self.evaluate(game, ply);
            let margins = SearchParameters::FutilityMargins;
            can_futility_prune = static_score + margins[depth as usize] <= alpha;
        }

        // internal iterative deepening
        if depth >= SearchParameters::IIDDepthLimit && (is_pv_node || caniid) && tt_move.equals(&Move::null()) {
            let mut child_pv_line: Vec<Move> = Vec::new();
            self.negamax(game, depth - SearchParameters::IIDDepthReduction - 1, ply + 1, -beta, -alpha, &mut child_pv_line, true, &Move::null(), &Move::null(), is_extended);
            if child_pv_line.len() > 0 {
                tt_move = child_pv_line[0];
            }
        }

        let mut moves = game.get_moves(false);
        proof {
            lemma_legal_list(v, false);
        }
        self.score_moves(game, &mut moves, ply, &tt_move, prev_move);
        proof {
            assert forall|k: int| 0 <= k < moves@.len() implies v.legal(#[trigger] moves@[k]) by {
                let lm = v.legal_moves(false);
                assert(moves@.contains(moves@[k]));
                assert(lm.contains(moves@[k]));
                let j = choose|j: int| 0 <= j < lm.len() && #[trigger] lm[j] == moves@[k];
                assert(v.legal(lm[j]));
            }
        }
        self.search_moves(game, &moves, depth, ply, alpha, beta, pv_line, prev_move, skip_move, is_extended,
            in_check, is_pv_node, can_futility_prune, tt_move, tt_score, tt_hit && can_sve, hash, Ghost(v))
    }

    /// The move loop of `negamax`: searches `moves` in order, updates the
    /// ordering tables and records the result in the transposition table.
    #[verifier::rlimit(40)]
    fn search_moves(
        &mut self,
        game: &mut Board,
        moves: &Vec<Move>,
        depth: i32,
        ply: i32,
        alpha: i32,
        beta: i32,
        pv_line: &mut Vec<Move>,
        prev_move: &Move,
        skip_move: &Move,
        is_extended: bool,
        in_check: bool,
        is_pv_node: bool,
        can_futility_prune: bool,
        tt_move: Move,
        tt_score: i32,
        can_sve: bool,
        hash: u64,
        Ghost(v): Ghost<BoardView>,
    ) -> (r: i32)
        requires
            old(self).wf(),
            old(game).inv(),
            old(game)@ == v,
            v.wf(),
            !v.is_draw(),
            0 <= ply < 100,
            1 <= depth <= 1001 + 2 * ply,
            in_window(alpha as int, ply as int),
            in_window(beta as int, ply as int),
            v.ply + 200 - ply <= i32::MAX,
            prev_move.spec_is_null() || prev_move.on_board(),
            all_legal(v, moves@),
            moves@.len() <= 8100,
        ensures
            final(self).wf(),
            final(game).inv(),
            final(game)@ == old(game)@,
            -RETURN_BOUND <= r <= RETURN_BOUND,
            pv_ok(old(game)@, old(pv_line)@, final(pv_line)@),
            final(self).evaluator() == old(self).evaluator(),
            final(self).budget() == old(self).budget(),
        decreases SearchParameters::MaxDepth - ply, 0int,
    {
        let mut alpha = alpha;
        let mut legal_moves: i32 = 0;
        let mut tt_flag = SearchParameters::AlphaFlag;
        let mut best_score: i32 = -INF;
        let mut best_move = Move::null();
        let mut i: usize = 0;
        while i < moves.len()
            invariant
                self.wf(),
                game.inv(),
                game@ == v,
                v.wf(),
                !v.is_draw(),
                0 <= ply < 100,
                1 <= depth <= 1001 + 2 * ply,
                v.ply + 200 - ply <= i32::MAX,
                prev_move.spec_is_null() || prev_move.on_board(),
                i <= moves@.len(),
                moves@.len() <= 8100,
                0 <= legal_moves <= i,
                all_legal(v, moves@),
                in_window(alpha as int, ply as int),
                in_window(beta as int, ply as int),
                -INF <= best_score <= RETURN_BOUND,
                pv_ok(v, old(pv_line)@, pv_line@),
                self.evaluator() == old(self).evaluator(),
                self.budget() == old(self).budget(),
            decreases moves.len() - i,
        {
            let m = moves[i];
            i = i + 1;
            if m.equals(skip_move) {
                continue;
            }
            proof {
                lemma_legal_can_make(v, m);
                crate::board::lemma_make_wf(v, m);
                crate::board::lemma_make_unmake(v, m);
            }
            let mut child_pv_line: Vec<Move> = Vec::new();
            let mut mm = m;
            game.mov(&mut mm);
            legal_moves = legal_moves + 1;

            // late move pruning
            let lmp = SearchParameters::LateMovePruningMargins;
            if depth <= 5 && !is_pv_node && !in_check && legal_moves > lmp[depth as usize] {
                let tactical = game.is_check() || !m.is_quiet();
                if !tactical {
                    game.unmov(&mut mm);
                    continue;
                }
            }

            // futility pruning
            if can_futility_prune && legal_moves > 1 && !game.is_check() && m.is_quiet() {
                game.unmov(&mut mm);
                continue;
            }

            let mut score: i32;
            if legal_moves == 1 {
                let mut next_depth = depth - 1;
                // singular extension
                if !is_extended && depth >= SearchParameters::SingularExtensionDepthLimit && tt_move.equals(&m)
                    && is_pv_node && can_sve && -(INF - 200) <= tt_score && tt_score <= INF - 200 {
                    game.unmov(&mut mm);
                    let score_to_beat = tt_score - SearchParameters::SingularMoveMargin;
                    let reduction = 1 + depth / 6;
                    let mut scratch_pv: Vec<Move> = Vec::new();
                    let next_best_score = self.negamax(game, depth - 1 - reduction, ply + 1, score_to_beat, score_to_beat + 1, &mut scratch_pv, true, prev_move, &m, true);
                    if next_best_score <= score_to_beat {
                        next_depth = next_depth + SearchParameters::SingularMoveExtension;
                    }
                    mm = m;
                    game.mov(&mut mm);
                }
                let s = self.negamax(game, next_depth, ply + 1, -beta, -alpha, &mut child_pv_line, true, &m, &Move::null(), is_extended);
                score = -s;
            } else {
                // late move reduction
                let tactical = in_check && m.captured != 0;
                let mut reduction: i32 = 0;
                if !is_pv_node && legal_moves >= SearchParameters::LMRLegalMovesLimit && depth >= SearchParameters::LMRDepthLimit && !tactical {
                    reduction = SearchParameters::LMR(depth, legal_moves);
                }
                let s = self.negamax(game, depth - 1 - reduction, ply + 1, -(alpha + 1), -alpha, &mut child_pv_line, true, &m, &Move::null(), is_extended);
                score = -s;
                if score > alpha && reduction > 0 {
                    let s2 = self.negamax(game, depth - 1, ply + 1, -(alpha + 1), -alpha, &mut child_pv_line, true, &m, &Move::null(), is_extended);
                    score = -s2;
                    if score > alpha {
                        let s3 = self.negamax(game, depth - 1, ply + 1, -beta, -alpha, &mut child_pv_line, true, &m, &Move::null(), is_extended);
                        score = -s3;
                    }
                } else if alpha < score && score < beta {
                    let s2 = self.negamax(game, depth - 1, ply + 1, -beta, -alpha, &mut child_pv_line, true, &m, &Move::null(), is_extended);
                    score = -s2;
                }
            }
            game.unmov(&mut mm);

            if score > best_score {
                best_score = score;
                best_move = m;
            }
            if score >= beta {
                tt_flag = SearchParameters::BetaFlag;
                self.increment_history(game, &m, depth);
                self.store_killer(ply, &m);
                self.store_counter(game, prev_move, &m);
                break;
            } else {
                self.decrement_history(game, &m);
            }
            if score > alpha {
                alpha = score;
                tt_flag = SearchParameters::ExactFlag;
                proof {
                    assert(line_ok(v.make(m), child_pv_line@));
                    lemma_line_cons(v, m, child_pv_line@);
                }
                set_pv(pv_line, m, &child_pv_line);
                self.increment_history(game, &m, depth);
            } else {
                self.decrement_history(game, &m);
            }
        }
        self.tt.store(hash, depth, best_score, &best_move, ply, tt_flag);
        best_score
    }

    /// Iterative deepening from depth 1 to `maxdepth` under a budget of
    /// `maxpositions` nodes; returns the best move of the deepest completed
    /// iteration and that iteration's score (0 when none completed). When no
    /// iteration produced a move, the first move of an aborted first iteration
    /// stands in, else the first legal move; the null move only when the game
    /// is over.
    pub fn search(&mut self, game: &mut Board, maxdepth: i32, maxpositions: i32) -> (r: (Move, i32))
        requires
            old(self).wf(),
            old(game).inv(),
            maxdepth <= 1000,
            old(game)@.ply + 200 <= i32::MAX,
        ensures
            final(self).wf(),
            final(game).inv(),
            final(game)@ == old(game)@,
            r.0.spec_is_null() || old(game)@.legal(r.0),
            old(game)@.outcome() == Condition::NONE ==> !r.0.spec_is_null() && old(game)@.legal(r.0),
            -RETURN_BOUND <= r.1 <= RETURN_BOUND,
    {
        let ghost v = game@;
        self.searches = 0;
        self.maxpositions = maxpositions;
        let mut best_move = Move::null();
        let mut alpha: i32 = -INF;
        let mut beta: i32 = -INF;
        let mut score: i32 = 0;
        let mut completed: i32 = 0;
        let mut level: i32 = 1;
        let mut restarted = false;
        while level <= maxdepth
            invariant
                self.wf(),
                game.inv(),
                game@ == v,
                v.ply + 200 <= i32::MAX,
                maxdepth <= 1000,
                1 <= level,
                in_window(alpha as int, 0),
                in_window(beta as int, 0),
                best_move.spec_is_null() || v.legal(best_move),
                -RETURN_BOUND <= score <= RETURN_BOUND,
                -RETURN_BOUND <= completed <= RETURN_BOUND,
            decreases maxdepth + 1 - level, if restarted { 0int } else { 1int },
        {
            let mut pv_line: Vec<Move> = Vec::new();
            score = self.negamax(game, level, 0, alpha, beta, &mut pv_line, true, &Move::null(), &Move::null(), false);
            if self.searches > self.maxpositions {
                if best_move.is_null() && level == 1 && pv_line.len() > 0 {
                    best_move = pv_line[0];
                }
                break;
            }
            // outside the window: search this depth again with a full one
            if (score <= alpha || score >= beta) && !restarted {
                alpha = -INF;
                beta = INF;
                restarted = true;
                continue;
            }
            restarted = false;
            completed = score;
            if pv_line.len() > 0 {
                best_move = pv_line[0];
            }
            if self.searches > maxpositions || score > SearchParameters::Checkmate - 100 || score < -(SearchParameters::Checkmate - 100) {
                break;
            }
            alpha = score - SearchParameters::Window;
            beta = score + SearchParameters::Window;
            level = level + 1;
        }
        if best_move.is_null() {
            // nothing came back: answer with the first legal move, if any
            let moves = game.get_moves(false);
            proof {
                game.lemma_inv();
                lemma_legal_list(v, false);
            }
            if moves.len() > 0 {
                best_move = moves[0];
            }
            proof {
                if v.outcome() == Condition::NONE {
                    assert(moves@.len() > 0);
                }
            }
        }
        (best_move, completed)
    }
}

proof fn lemma_swap_multiset<A>(s: Seq<A>, i: int, j: int)
    requires
        0 <= i < s.len(),
        0 <= j < s.len(),
    ensures
        s.update(i, s[j]).update(j, s[i]).to_multiset() == s.to_multiset(),
{
    broadcast use vstd::seq_lib::to_multiset_update;
    broadcast use vstd::multiset::group_multiset_axioms;
    let s1 = s.update(i, s[j]);
    if i == j {
        assert(s1 =~= s);
        assert(s1.update(j, s[i]) =~= s);
    } else {
        assert(s1[j] == s[j]);
        assert(s1.update(j, s[i]).to_multiset() =~= s.to_multiset());
    }
}

} // verus!
