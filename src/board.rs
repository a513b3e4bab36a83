//! The position: grid, side to move, incremental hash and evaluation
//! accumulators, repetition history, make and unmake.
use vstd::prelude::*;
use fnv::FnvHashMap;
use crate::chess_move::Move;
use crate::condition::{Condition, opponent};
use crate::eval::nested_table_ok;
use crate::rules::{
    attacked, attacked_from, candidates, could_reach, facing, facing_exec, grid_ok, kind,
    lemma_pseudo_list, owner, piece_moves, pseudo_list, reach_list, reaches, reaches_exec,
    side_moves, side_of_code, heading, piece_moves_toward, soldier_list, soldier_moves_at,
};

verus! {

/// Bound on the magnitude of a piece-square value, so that the accumulators
/// (a sum over at most 90 pieces) fit in `i32`.
pub const PST_BOUND: i32 = 100_000;

/// Entries of a flattened piece-square table: 7 kinds of 90 squares each.
pub const PST_LEN: usize = 630;

/// Zobrist keys: 14 (piece, side) pairs of 90 squares each.
pub const KEYS_LEN: usize = 1260;

/// The ply distance since the last capture at which the game is drawn.
pub const QUIET_PLY_LIMIT: i32 = 60;

/// std's BuildHasherDefault, the hasher builder of fnv's map type; held opaque.
#[verifier::external_type_specification]
#[verifier::external_body]
#[verifier::reject_recursive_types(H)]
pub struct ExBuildHasherDefault<H>(std::hash::BuildHasherDefault<H>);

/// fnv's FnvHasher, the hasher of the repetition map; held opaque.
#[verifier::external_type_specification]
#[verifier::external_body]
pub struct ExFnvHasher(fnv::FnvHasher);

/// Relies on rand::random: a freshly drawn `u64`; nothing is known of its value.
#[verifier::external_body]
fn random_key() -> (r: u64) {
    rand::random::<u64>()
}

/// Relies on HashMap::get over fnv's FnvHasher: a deterministic hasher, so the
/// map behaves as a map of its contents.
#[verifier::external_body]
fn rep_get(m: &FnvHashMap<u64, i32>, k: u64) -> (r: Option<i32>)
    ensures
        r == (if m@.contains_key(k) { Some(m@[k]) } else { None::<i32> }),
{
    m.get(&k).copied()
}

/// Relies on HashMap::insert over fnv's FnvHasher: afterwards `k` maps to `v`.
#[verifier::external_body]
fn rep_insert(m: &mut FnvHashMap<u64, i32>, k: u64, v: i32)
    ensures
        final(m)@ == old(m)@.insert(k, v),
{
    m.insert(k, v);
}

/// Relies on HashMap::remove over fnv's FnvHasher: afterwards `k` is absent.
#[verifier::external_body]
fn rep_remove(m: &mut FnvHashMap<u64, i32>, k: u64)
    ensures
        final(m)@ == old(m)@.remove(k),
{
    m.remove(&k);
}

/// The Zobrist key of code `v` on square `sq` (zero for an empty cell).
pub open spec fn cell_key(keys: Seq<u64>, v: i8, sq: int) -> u64 {
    if v == 0 {
        0u64
    } else if v > 0 {
        keys[(v - 1) * 90 + sq]
    } else {
        keys[(-v - 1 + 7) * 90 + sq]
    }
}

/// XOR of the keys of the cells below `n`.
pub open spec fn zobrist(g: Seq<i8>, keys: Seq<u64>, n: int) -> u64
    decreases n,
{
    if n <= 0 {
        0u64
    } else {
        zobrist(g, keys, n - 1) ^ cell_key(keys, g[n - 1], n - 1)
    }
}

/// Square `sq` as side `side` reads its tables: Black reads them flipped.
pub open spec fn oriented(sq: int, side: Condition) -> int {
    if side == Condition::BLACK { 89 - sq } else { sq }
}

/// The piece-square value that code `v` on `sq` adds to side `side`.
pub open spec fn pst_value(table: Seq<i32>, v: i8, sq: int, side: Condition) -> int {
    if v != 0 && owner(v) == side {
        table[(kind(v) - 1) * 90 + oriented(sq, side)] as int
    } else {
        0
    }
}

/// The sum of side `side`'s piece-square values over the cells below `n`.
pub open spec fn accumulated(table: Seq<i32>, g: Seq<i8>, side: Condition, n: int) -> int
    decreases n,
{
    if n <= 0 {
        0
    } else {
        accumulated(table, g, side, n - 1) + pst_value(table, g[n - 1], n - 1, side)
    }
}

pub open spec fn table_ok(t: Seq<i32>) -> bool {
    &&& t.len() == 630
    &&& forall|i: int| 0 <= i < 630 ==> -PST_BOUND <= #[trigger] t[i] <= PST_BOUND
}

/// The grid after the piece on `from` moves to `to`.
pub open spec fn after_move(g: Seq<i8>, from: int, to: int) -> Seq<i8> {
    g.update(from, 0).update(to, g[from])
}

/// The grid after undoing such a move, the end square getting back `captured`.
pub open spec fn before_move(g: Seq<i8>, from: int, to: int, captured: i8) -> Seq<i8> {
    g.update(from, g[to]).update(to, captured)
}

/// The mathematical model of a position.
pub struct BoardView {
    pub grid: Seq<i8>,
    pub player: Condition,
    pub red_general: int,
    pub black_general: int,
    pub mg_red: int,
    pub mg_black: int,
    pub eg_red: int,
    pub eg_black: int,
    /// The Zobrist hash of the grid alone.
    pub hash: u64,
    pub ply: int,
    pub last_capture: int,
    /// How often each grid hash has been reached.
    pub history: Map<u64, i32>,
    /// The three-fold repetition latch.
    pub exceeded: bool,
    pub keys: Seq<u64>,
    pub key_black: u64,
    pub mg_table: Seq<i32>,
    pub eg_table: Seq<i32>,
}

impl BoardView {
    pub open spec fn general_of(self, side: Condition) -> int {
        if side == Condition::RED { self.red_general } else { self.black_general }
    }

    /// The position key: the grid hash, with the Black key mixed in when Black moves.
    pub open spec fn full_hash(self) -> u64 {
        if self.player == Condition::BLACK { self.hash ^ self.key_black } else { self.hash }
    }

    pub open spec fn wf(self) -> bool {
        &&& grid_ok(self.grid)
        &&& self.player == Condition::RED || self.player == Condition::BLACK
        &&& 0 <= self.red_general < 90
        &&& 0 <= self.black_general < 90
        &&& forall|i: int| 0 <= i < 90 ==> (#[trigger] self.grid[i] == 5 <==> i == self.red_general)
        &&& forall|i: int| 0 <= i < 90 ==> (#[trigger] self.grid[i] == -5 <==> i == self.black_general)
        &&& self.keys.len() == 1260
        &&& table_ok(self.mg_table)
        &&& table_ok(self.eg_table)
        &&& self.mg_red == accumulated(self.mg_table, self.grid, Condition::RED, 90)
        &&& self.mg_black == accumulated(self.mg_table, self.grid, Condition::BLACK, 90)
        &&& self.eg_red == accumulated(self.eg_table, self.grid, Condition::RED, 90)
        &&& self.eg_black == accumulated(self.eg_table, self.grid, Condition::BLACK, 90)
        &&& self.hash == zobrist(self.grid, self.keys, 90)
        &&& 0 <= self.ply <= i32::MAX
        &&& 0 <= self.last_capture <= i32::MAX
        &&& forall|k: u64| #[trigger] self.history.contains_key(k) ==> 1 <= self.history[k] <= 3
        &&& forall|k: u64| #[trigger] self.history.contains_key(k) && self.history[k] == 3
            ==> self.exceeded && k == self.full_hash()
    }

    /// The draw rules: sixty plies without a capture, or the repetition latch.
    pub open spec fn is_draw(self) -> bool {
        self.ply - self.last_capture >= 60 || self.exceeded
    }

    /// What `mov` needs of a move: the null move, or one of the mover's pieces
    /// going to a square not its own, with the end square's code recorded, no
    /// general taken, and the game not latched drawn.
    pub open spec fn can_make(self, m: Move) -> bool {
        &&& !self.exceeded
        &&& self.ply < i32::MAX
        &&& m.spec_is_null() || {
            &&& m.on_board()
            &&& m.from_sq() != m.to_sq()
            &&& self.grid[m.from_sq()] != 0
            &&& owner(self.grid[m.from_sq()]) == self.player
            &&& owner(self.grid[m.to_sq()]) != self.player
            &&& kind(self.grid[m.to_sq()]) != 5
            &&& m.captured == self.grid[m.to_sq()]
        }
    }

    /// How often the grid hash `h` has been reached so far.
    pub open spec fn seen(self, h: u64) -> int {
        if self.history.contains_key(h) { self.history[h] as int } else { 0 }
    }

    /// The position after `mov(m)`, stated by reference computation: the
    /// accumulators and the hash are those of the new grid.
    pub open spec fn make(self, m: Move) -> BoardView {
        if m.spec_is_null() {
            BoardView { player: opponent(self.player), ply: self.ply + 1, ..self }
        } else {
            let from = m.from_sq();
            let to = m.to_sq();
            let g = after_move(self.grid, from, to);
            let h = zobrist(g, self.keys, 90);
            let key = if opponent(self.player) == Condition::BLACK { h ^ self.key_black } else { h };
            let count = self.seen(key) + 1;
            BoardView {
                grid: g,
                player: opponent(self.player),
                red_general: if self.grid[from] == 5 { to } else { self.red_general },
                black_general: if self.grid[from] == -5 { to } else { self.black_general },
                mg_red: accumulated(self.mg_table, g, Condition::RED, 90),
                mg_black: accumulated(self.mg_table, g, Condition::BLACK, 90),
                eg_red: accumulated(self.eg_table, g, Condition::RED, 90),
                eg_black: accumulated(self.eg_table, g, Condition::BLACK, 90),
                hash: h,
                ply: self.ply + 1,
                last_capture: if self.grid[to] != 0 { self.ply } else { self.last_capture },
                history: self.history.insert(key, count as i32),
                exceeded: count >= 3,
                ..self
            }
        }
    }

    /// The descriptor as `mov` leaves it: stamped with the last capture ply.
    pub open spec fn stamped(self, m: Move) -> Move {
        if m.spec_is_null() {
            m
        } else {
            Move { last_capture: self.last_capture as i32, ..m }
        }
    }

    /// What `unmov` needs of a move: the null move, or the squares of a move
    /// that the side not to move has just made.
    pub open spec fn can_unmake(self, m: Move) -> bool {
        &&& self.ply >= 1
        &&& m.spec_is_null() ==> !self.exceeded
        &&& m.spec_is_null() || {
            &&& m.on_board()
            &&& m.from_sq() != m.to_sq()
            &&& self.grid[m.from_sq()] == 0
            &&& self.grid[m.to_sq()] != 0
            &&& owner(self.grid[m.to_sq()]) == opponent(self.player)
            &&& m.captured == 0 || owner(m.captured) == self.player
            &&& -7 <= m.captured <= 7
            &&& kind(m.captured) != 5
            &&& m.captured != 0 ==> m.last_capture >= 0
        }
    }

    /// The position after `unmov(m)`.
    pub open spec fn unmake(self, m: Move) -> BoardView {
        if m.spec_is_null() {
            BoardView { player: opponent(self.player), ply: self.ply - 1, ..self }
        } else {
            let from = m.from_sq();
            let to = m.to_sq();
            let g = before_move(self.grid, from, to, m.captured);
            let c = self.seen(self.full_hash());
            BoardView {
                grid: g,
                player: opponent(self.player),
                red_general: if self.grid[to] == 5 { from } else { self.red_general },
                black_general: if self.grid[to] == -5 { from } else { self.black_general },
                mg_red: accumulated(self.mg_table, g, Condition::RED, 90),
                mg_black: accumulated(self.mg_table, g, Condition::BLACK, 90),
                eg_red: accumulated(self.eg_table, g, Condition::RED, 90),
                eg_black: accumulated(self.eg_table, g, Condition::BLACK, 90),
                hash: zobrist(g, self.keys, 90),
                ply: self.ply - 1,
                last_capture: if m.captured != 0 { m.last_capture as int } else { self.last_capture },
                history: if c > 1 {
                    self.history.insert(self.full_hash(), (c - 1) as i32)
                } else {
                    self.history.remove(self.full_hash())
                },
                exceeded: false,
                ..self
            }
        }
    }

    /// Side `side`'s general is exposed on grid `g` with its general on `mine`:
    /// attacked, or facing the other general.
    pub open spec fn exposed(self, g: Seq<i8>, mine: int, side: Condition) -> bool {
        facing(g, mine, self.general_of(opponent(side))) || attacked(g, mine, opponent(side))
    }

    /// A legal move of the side to move: pseudo-legal, no general taken, and
    /// its own general not exposed afterwards.
    pub open spec fn legal(self, m: Move) -> bool {
        let from = m.from_sq();
        let to = m.to_sq();
        let mine = self.general_of(self.player);
        let mine2 = if from == mine { to } else { mine };
        &&& m.on_board()
        &&& owner(self.grid[from]) == self.player
        &&& reaches(self.grid, from, to)
        &&& kind(self.grid[to]) != 5
        &&& m.captured == self.grid[to]
        &&& !self.exposed(after_move(self.grid, from, to), mine2, self.player)
    }

    /// Whether `legal_moves(captures)` keeps move `m`.
    pub open spec fn keeps(self, m: Move, captures: bool) -> bool {
        self.legal(m) && (!captures || m.captured != 0)
    }

    /// The moves of `s` that `legal_moves(captures)` keeps, in order.
    pub open spec fn filter_legal(self, s: Seq<Move>, captures: bool) -> Seq<Move>
        decreases s.len(),
    {
        if s.len() == 0 {
            s
        } else {
            let prev = self.filter_legal(s.drop_last(), captures);
            if self.keeps(s.last(), captures) {
                prev.push(s.last())
            } else {
                prev
            }
        }
    }

    /// The legal moves, in generation order.
    pub open spec fn legal_moves(self, captures: bool) -> Seq<Move> {
        self.filter_legal(pseudo_list(self.grid, self.player, 90), captures)
    }

    /// The side to move is in check.
    pub open spec fn in_check(self) -> bool {
        attacked(self.grid, self.general_of(self.player), opponent(self.player))
    }

    /// The outcome: a draw, a win for the side that just moved when the side
    /// to move has no legal move, or none.
    pub open spec fn outcome(self) -> Condition {
        if self.is_draw() {
            Condition::DRAW
        } else if self.legal_moves(false).len() == 0 {
            opponent(self.player)
        } else {
            Condition::NONE
        }
    }
}

/// A Xiangqi position, mutated through paired `mov` and `unmov`.
pub struct Board {
    state: Vec<i8>,
    player: Condition,
    /// Piece-square tables from Red's side, `[kind - 1][square]` flattened.
    mg_table: Vec<i32>,
    eg_table: Vec<i32>,
    red_general: usize,
    black_general: usize,
    mg_red: i32,
    mg_black: i32,
    eg_red: i32,
    eg_black: i32,
    keys: Vec<u64>,
    key_black: u64,
    hh: u64,
    cache_moves: Vec<Move>,
    cache_ok: bool,
    ply: i32,
    last_capture: i32,
    history: FnvHashMap<u64, i32>,
    exceeded: bool,
}

impl View for Board {
    type V = BoardView;

    closed spec fn view(&self) -> BoardView {
        BoardView {
            grid: self.state@,
            player: self.player,
            red_general: self.red_general as int,
            black_general: self.black_general as int,
            mg_red: self.mg_red as int,
            mg_black: self.mg_black as int,
            eg_red: self.eg_red as int,
            eg_black: self.eg_black as int,
            hash: self.hh,
            ply: self.ply as int,
            last_capture: self.last_capture as int,
            history: self.history@,
            exceeded: self.exceeded,
            keys: self.keys@,
            key_black: self.key_black,
            mg_table: self.mg_table@,
            eg_table: self.eg_table@,
        }
    }
}

/// The standard opening, Red at the bottom (rows 7 to 9).
pub open spec fn opening_grid() -> Seq<i8> {
    seq![
        -3i8, -6i8, -4i8, -1i8, -5i8, -1i8, -4i8, -6i8, -3i8,
        0i8, 0i8, 0i8, 0i8, 0i8, 0i8, 0i8, 0i8, 0i8,
        0i8, -2i8, 0i8, 0i8, 0i8, 0i8, 0i8, -2i8, 0i8,
        -7i8, 0i8, -7i8, 0i8, -7i8, 0i8, -7i8, 0i8, -7i8,
        0i8, 0i8, 0i8, 0i8, 0i8, 0i8, 0i8, 0i8, 0i8,
        0i8, 0i8, 0i8, 0i8, 0i8, 0i8, 0i8, 0i8, 0i8,
        7i8, 0i8, 7i8, 0i8, 7i8, 0i8, 7i8, 0i8, 7i8,
        0i8, 2i8, 0i8, 0i8, 0i8, 0i8, 0i8, 2i8, 0i8,
        0i8, 0i8, 0i8, 0i8, 0i8, 0i8, 0i8, 0i8, 0i8,
        3i8, 6i8, 4i8, 1i8, 5i8, 1i8, 4i8, 6i8, 3i8,
    ]
}

impl Board {
    pub const ROWS: usize = 10;
    pub const COLS: usize = 9;

    /// The board's invariant: a well-formed model, and a move cache that,
    /// when marked valid, holds the legal moves.
    pub closed spec fn inv(&self) -> bool {
        &&& self@.wf()
        &&& self.cache_ok ==> self.cache_moves@ == self@.legal_moves(false)
    }

    /// The invariant gives a well-formed model.
    pub proof fn lemma_inv(&self)
        requires
            self.inv(),
        ensures
            self@.wf(),
    {
    }

    /// A copy of the grid, 90 codes row by row.
    pub fn grid_copy(&self) -> (r: Vec<i8>)
        requires
            self.inv(),
        ensures
            r@ == self@.grid,
    {
        copy_grid(&self.state)
    }

    /// The code on square `sq`.
    pub fn cell(&self, sq: usize) -> (r: i8)
        requires
            self.inv(),
            sq < 90,
        ensures
            r == self@.grid[sq as int],
    {
        self.state[sq]
    }

    /// The side to move.
    pub fn player(&self) -> (r: Condition)
        requires
            self.inv(),
        ensures
            r == self@.player,
    {
        self.player
    }

    /// Side `side`'s middlegame accumulator.
    pub fn score_mg(&self, side: Condition) -> (r: i32)
        requires
            self.inv(),
        ensures
            r == if side == Condition::RED { self@.mg_red } else { self@.mg_black },
    {
        if side == Condition::RED { self.mg_red } else { self.mg_black }
    }

    /// Side `side`'s endgame accumulator.
    pub fn score_eg(&self, side: Condition) -> (r: i32)
        requires
            self.inv(),
        ensures
            r == if side == Condition::RED { self@.eg_red } else { self@.eg_black },
    {
        if side == Condition::RED { self.eg_red } else { self.eg_black }
    }

    /// The square of side `side`'s general.
    pub fn general_square(&self, side: Condition) -> (r: usize)
        requires
            self.inv(),
        ensures
            r == self@.general_of(side),
    {
        if side == Condition::RED { self.red_general } else { self.black_general }
    }

    /// The halfmove counter.
    pub fn ply(&self) -> (r: i32)
        requires
            self.inv(),
        ensures
            r == self@.ply,
    {
        self.ply
    }

    /// The ply of the last capture.
    pub fn last_capture(&self) -> (r: i32)
        requires
            self.inv(),
        ensures
            r == self@.last_capture,
    {
        self.last_capture
    }

    /// The position key: Zobrist hash of the grid and the side to move.
    pub fn get_hash(&self) -> (r: u64)
        requires
            self.inv(),
        ensures
            r == self@.full_hash(),
    {
        if self.player == Condition::BLACK {
            self.hh ^ self.key_black
        } else {
            self.hh
        }
    }

    fn hash_cell(&self, sq: usize) -> (r: u64)
        requires
            grid_ok(self.state@),
            self.keys@.len() == 1260,
            sq < 90,
        ensures
            r == cell_key(self.keys@, self.state@[sq as int], sq as int),
    {
        let v = self.state[sq];
        if v == 0 {
            0
        } else if v > 0 {
            self.keys[(v as usize - 1) * 90 + sq]
        } else {
            self.keys[((-v) as usize - 1 + 7) * 90 + sq]
        }
    }

    /// Piece-square value of code `v` on `sq` for side `side`, read from `table`.
    fn table_value(table: &Vec<i32>, v: i8, sq: usize, side: Condition) -> (r: i32)
        requires
            table_ok(table@),
            -7 <= v <= 7,
            v != 0,
            sq < 90,
            side == Condition::RED || side == Condition::BLACK,
        ensures
            owner(v) == side ==> r == pst_value(table@, v, sq as int, side),
            -PST_BOUND <= r <= PST_BOUND,
    {
        let k: usize = if v < 0 { (-v) as usize } else { v as usize };
        let o = if side == Condition::BLACK { 89 - sq } else { sq };
        table[(k - 1) * 90 + o]
    }
}

impl Board {
    /// Makes move `m` (the null move passes the turn), stamping on it the ply of
    /// the last capture so that `unmov` can restore it.
    #[verifier::rlimit(50)]
    pub fn mov(&mut self, m: &mut Move)
        requires
            old(self).inv(),
            old(self)@.can_make(*old(m)),
        ensures
            final(self).inv(),
            final(self)@ == old(self)@.make(*old(m)),
            *final(m) == old(self)@.stamped(*old(m)),
    {
        proof {
            lemma_make_wf(self@, *m);
        }
        if m.is_null() {
            self.player = self.player.inverse();
            self.cache_ok = false;
            self.ply = self.ply + 1;
            return;
        }
        let ghost v = self@;
        let from = m.start_sq();
        let to = m.end_sq();
        let piece = self.state[from];
        let target = self.state[to];
        let k_to = self.hash_cell(to);
        let k_from = self.hash_cell(from);
        self.hh = self.hh ^ k_to ^ k_from;
        m.last_capture = self.last_capture;
        if target != 0 {
            self.last_capture = self.ply;
        }
        let side = self.player;
        let other = side.inverse();
        let a = Self::table_value(&self.mg_table, piece, from, side);
        let b = Self::table_value(&self.mg_table, piece, to, side);
        let c = Self::table_value(&self.eg_table, piece, from, side);
        let d = Self::table_value(&self.eg_table, piece, to, side);
        proof {
            lemma_accumulated_bound(v.mg_table, v.grid, Condition::RED, 90);
            lemma_accumulated_bound(v.mg_table, v.grid, Condition::BLACK, 90);
            lemma_accumulated_bound(v.eg_table, v.grid, Condition::RED, 90);
            lemma_accumulated_bound(v.eg_table, v.grid, Condition::BLACK, 90);
        }
        if side == Condition::RED {
            self.mg_red = self.mg_red - a + b;
            self.eg_red = self.eg_red - c + d;
        } else {
            self.mg_black = self.mg_black - a + b;
            self.eg_black = self.eg_black - c + d;
        }
        if target != 0 {
            let e = Self::table_value(&self.mg_table, target, to, other);
            let f = Self::table_value(&self.eg_table, target, to, other);
            if other == Condition::RED {
                self.mg_red = self.mg_red - e;
                self.eg_red = self.eg_red - f;
            } else {
                self.mg_black = self.mg_black - e;
                self.eg_black = self.eg_black - f;
            }
        }
        if piece == 5 {
            self.red_general = to;
        } else if piece == -5 {
            self.black_general = to;
        }
        self.state.set(from, 0);
        self.state.set(to, piece);
        let k_new = self.hash_cell(to);
        self.hh = self.hh ^ k_new;
        self.player = other;
        self.cache_ok = false;
        self.ply = self.ply + 1;
        proof {
            let g1 = v.grid.update(from as int, 0);
            let g2 = g1.update(to as int, piece);
            assert(self.state@ =~= g2);
            assert(g2 == after_move(v.grid, from as int, to as int));
            lemma_zobrist_update(v.grid, v.keys, from as int, 0, 90);
            lemma_zobrist_update(g1, v.keys, to as int, piece, 90);
            let z = v.hash;
            let zero = cell_key(v.keys, 0i8, from as int);
            assert(zero == 0u64);
            assert((z ^ k_to ^ k_from) ^ k_new == ((z ^ k_from ^ zero) ^ k_to) ^ k_new) by (bit_vector)
                requires zero == 0u64;
            lemma_accumulated_update(v.mg_table, v.grid, Condition::RED, from as int, 0, 90);
            lemma_accumulated_update(v.mg_table, g1, Condition::RED, to as int, piece, 90);
            lemma_accumulated_update(v.mg_table, v.grid, Condition::BLACK, from as int, 0, 90);
            lemma_accumulated_update(v.mg_table, g1, Condition::BLACK, to as int, piece, 90);
            lemma_accumulated_update(v.eg_table, v.grid, Condition::RED, from as int, 0, 90);
            lemma_accumulated_update(v.eg_table, g1, Condition::RED, to as int, piece, 90);
            lemma_accumulated_update(v.eg_table, v.grid, Condition::BLACK, from as int, 0, 90);
            lemma_accumulated_update(v.eg_table, g1, Condition::BLACK, to as int, piece, 90);
        }
        let hh = if self.player == Condition::BLACK { self.hh ^ self.key_black } else { self.hh };
        let count = match rep_get(&self.history, hh) {
            Some(n) => n,
            None => 0,
        };
        proof {
            if self.history@.contains_key(hh) {
                assert(self.history@[hh] != 3);
            }
        }
        rep_insert(&mut self.history, hh, count + 1);
        if count + 1 >= 3 {
            self.exceeded = true;
        }
        proof {
            assert(self@.history == v.make(*old(m)).history);
            assert(self@ == v.make(*old(m)));
        }
    }

    /// Undoes move `m`, which must be the descriptor that `mov` stamped.
    #[verifier::rlimit(50)]
    pub fn unmov(&mut self, m: &mut Move)
        requires
            old(self).inv(),
            old(self)@.can_unmake(*old(m)),
        ensures
            final(self).inv(),
            final(self)@ == old(self)@.unmake(*old(m)),
            *final(m) == *old(m),
    {
        proof {
            lemma_unmake_wf(self@, *m);
        }
        if m.is_null() {
            self.player = self.player.inverse();
            self.cache_ok = false;
            self.ply = self.ply - 1;
            return;
        }
        let ghost v = self@;
        let hh = if self.player == Condition::BLACK { self.hh ^ self.key_black } else { self.hh };
        match rep_get(&self.history, hh) {
            Some(n) => {
                if n > 1 {
                    rep_insert(&mut self.history, hh, n - 1);
                } else {
                    rep_remove(&mut self.history, hh);
                }
            },
            None => {
                rep_remove(&mut self.history, hh);
            },
        }
        self.exceeded = false;
        let from = m.start_sq();
        let to = m.end_sq();
        let captured = m.captured;
        let k_to = self.hash_cell(to);
        self.hh = self.hh ^ k_to;
        if captured != 0 {
            self.last_capture = m.last_capture;
        }
        let piece = self.state[to];
        let side = self.player;
        let mover = side.inverse();
        let a = Self::table_value(&self.mg_table, piece, to, mover);
        let b = Self::table_value(&self.mg_table, piece, from, mover);
        let c = Self::table_value(&self.eg_table, piece, to, mover);
        let d = Self::table_value(&self.eg_table, piece, from, mover);
        proof {
            lemma_accumulated_bound(v.mg_table, v.grid, Condition::RED, 90);
            lemma_accumulated_bound(v.mg_table, v.grid, Condition::BLACK, 90);
            lemma_accumulated_bound(v.eg_table, v.grid, Condition::RED, 90);
            lemma_accumulated_bound(v.eg_table, v.grid, Condition::BLACK, 90);
        }
        if mover == Condition::RED {
            self.mg_red = self.mg_red - a + b;
            self.eg_red = self.eg_red - c + d;
        } else {
            self.mg_black = self.mg_black - a + b;
            self.eg_black = self.eg_black - c + d;
        }
        if captured != 0 {
            let e = Self::table_value(&self.mg_table, captured, to, side);
            let f = Self::table_value(&self.eg_table, captured, to, side);
            if side == Condition::RED {
                self.mg_red = self.mg_red + e;
                self.eg_red = self.eg_red + f;
            } else {
                self.mg_black = self.mg_black + e;
                self.eg_black = self.eg_black + f;
            }
        }
        if piece == 5 {
            self.red_general = from;
        } else if piece == -5 {
            self.black_general = from;
        }
        self.state.set(from, piece);
        self.state.set(to, captured);
        let k_from = self.hash_cell(from);
        let k_cap = self.hash_cell(to);
        self.hh = self.hh ^ k_from ^ k_cap;
        self.player = mover;
        self.cache_ok = false;
        self.ply = self.ply - 1;
        proof {
            let g1 = v.grid.update(from as int, piece);
            let g2 = g1.update(to as int, captured);
            assert(self.state@ =~= g2);
            assert(g2 == before_move(v.grid, from as int, to as int, captured));
            lemma_zobrist_update(v.grid, v.keys, from as int, piece, 90);
            lemma_zobrist_update(g1, v.keys, to as int, captured, 90);
            let z = v.hash;
            let zero = cell_key(v.keys, 0i8, from as int);
            assert(zero == 0u64);
            assert((z ^ k_to) ^ k_from ^ k_cap == ((z ^ zero ^ k_from) ^ k_to) ^ k_cap) by (bit_vector)
                requires zero == 0u64;
            lemma_accumulated_update(v.mg_table, v.grid, Condition::RED, from as int, piece, 90);
            lemma_accumulated_update(v.mg_table, g1, Condition::RED, to as int, captured, 90);
            lemma_accumulated_update(v.mg_table, v.grid, Condition::BLACK, from as int, piece, 90);
            lemma_accumulated_update(v.mg_table, g1, Condition::BLACK, to as int, captured, 90);
            lemma_accumulated_update(v.eg_table, v.grid, Condition::RED, from as int, piece, 90);
            lemma_accumulated_update(v.eg_table, g1, Condition::RED, to as int, captured, 90);
            lemma_accumulated_update(v.eg_table, v.grid, Condition::BLACK, from as int, piece, 90);
            lemma_accumulated_update(v.eg_table, g1, Condition::BLACK, to as int, captured, 90);
            assert(self@.history == v.unmake(*m).history);
            assert(self@ == v.unmake(*m));
        }
    }
}

/// A grid and side to move that a position can start from: cells within the
/// piece codes and exactly one general of each side.
pub open spec fn valid_setup(g: Seq<i8>, player: Condition) -> bool {
    &&& grid_ok(g)
    &&& player == Condition::RED || player == Condition::BLACK
    &&& exists|i: int| 0 <= i < 90 && #[trigger] g[i] == 5
    &&& exists|i: int| 0 <= i < 90 && #[trigger] g[i] == -5
    &&& forall|i: int, j: int| 0 <= i < 90 && 0 <= j < 90 && g[i] == 5 && g[j] == 5 ==> i == j
    &&& forall|i: int, j: int| 0 <= i < 90 && 0 <= j < 90 && g[i] == -5 && g[j] == -5 ==> i == j
}

/// Flattens a nested piece-square table to `[kind * 90 + square]`.
fn flatten_table(t: &Vec<Vec<Vec<i32>>>) -> (r: Vec<i32>)
    requires
        nested_table_ok(t@, PST_BOUND as int),
    ensures
        table_ok(r@),
        forall|i: int| 0 <= i < 630 ==> #[trigger] r@[i] == t@[i / 90]@[(i % 90) / 9]@[(i % 90) % 9],
{
    let mut r: Vec<i32> = Vec::new();
    let mut i: usize = 0;
    while i < 630
        invariant
            i <= 630,
            nested_table_ok(t@, PST_BOUND as int),
            r@.len() == i,
            forall|j: int| 0 <= j < i ==> #[trigger] r@[j] == t@[j / 90]@[(j % 90) / 9]@[(j % 90) % 9],
            forall|j: int| 0 <= j < i ==> -PST_BOUND <= #[trigger] r@[j] <= PST_BOUND,
        decreases 630 - i,
    {
        let k = i / 90;
        let row = (i % 90) / 9;
        let col = (i % 90) % 9;
        assert(t@[k as int]@[row as int]@.len() == 9);
        let v = t[k][row][col];
        r.push(v);
        i = i + 1;
    }
    r
}

fn compute_accumulated(table: &Vec<i32>, g: &Vec<i8>, side: Condition) -> (r: i32)
    requires
        table_ok(table@),
        grid_ok(g@),
        side == Condition::RED || side == Condition::BLACK,
    ensures
        r == accumulated(table@, g@, side, 90),
{
    let mut acc: i32 = 0;
    let mut sq: usize = 0;
    while sq < 90
        invariant
            sq <= 90,
            table_ok(table@),
            grid_ok(g@),
            side == Condition::RED || side == Condition::BLACK,
            acc == accumulated(table@, g@, side, sq as int),
        decreases 90 - sq,
    {
        proof {
            lemma_accumulated_bound(table@, g@, side, sq as int);
            lemma_accumulated_bound(table@, g@, side, sq + 1);
        }
        let v = g[sq];
        if v != 0 && ((v > 0) == (side == Condition::RED)) {
            let x = Board::table_value(table, v, sq, side);
            acc = acc + x;
        }
        sq = sq + 1;
    }
    acc
}

fn compute_zobrist(g: &Vec<i8>, keys: &Vec<u64>) -> (r: u64)
    requires
        grid_ok(g@),
        keys@.len() == 1260,
    ensures
        r == zobrist(g@, keys@, 90),
{
    let mut h: u64 = 0;
    let mut sq: usize = 0;
    while sq < 90
        invariant
            sq <= 90,
            grid_ok(g@),
            keys@.len() == 1260,
            h == zobrist(g@, keys@, sq as int),
        decreases 90 - sq,
    {
        let v = g[sq];
        let k = if v == 0 {
            0
        } else if v > 0 {
            keys[(v as usize - 1) * 90 + sq]
        } else {
            keys[((-v) as usize - 1 + 7) * 90 + sq]
        };
        h = h ^ k;
        sq = sq + 1;
    }
    h
}

impl Board {
    fn build(state: Vec<i8>, player: Condition, red_general: usize, black_general: usize) -> (r: Board)
        requires
            grid_ok(state@),
            player == Condition::RED || player == Condition::BLACK,
            red_general < 90,
            black_general < 90,
            forall|i: int| 0 <= i < 90 ==> (#[trigger] state@[i] == 5 <==> i == red_general),
            forall|i: int| 0 <= i < 90 ==> (#[trigger] state@[i] == -5 <==> i == black_general),
        ensures
            r.inv(),
            r@.grid == state@,
            r@.player == player,
            r@.ply == 0,
            r@.last_capture == 0,
            r@.history == Map::<u64, i32>::empty(),
            !r@.exceeded,
    {
        let mut keys: Vec<u64> = Vec::new();
        let mut i: usize = 0;
        while i < 1260
            invariant
                i <= 1260,
                keys@.len() == i,
            decreases 1260 - i,
        {
            keys.push(random_key());
            i = i + 1;
        }
        let key_black = random_key();
        let (mg, eg) = crate::eval::Eval::create_pst();
        let mg_table = flatten_table(&mg);
        let eg_table = flatten_table(&eg);
        let hh = compute_zobrist(&state, &keys);
        let mg_red = compute_accumulated(&mg_table, &state, Condition::RED);
        let mg_black = compute_accumulated(&mg_table, &state, Condition::BLACK);
        let eg_red = compute_accumulated(&eg_table, &state, Condition::RED);
        let eg_black = compute_accumulated(&eg_table, &state, Condition::BLACK);
        Board {
            state,
            player,
            mg_table,
            eg_table,
            red_general,
            black_general,
            mg_red,
            mg_black,
            eg_red,
            eg_black,
            keys,
            key_black,
            hh,
            cache_moves: Vec::new(),
            cache_ok: false,
            ply: 0,
            last_capture: 0,
            history: FnvHashMap::default(),
            exceeded: false,
        }
    }

    /// A position from a grid of 90 codes (row-major) and the side to move, if
    /// it is one: codes within the piece codes, one general of each side.
    pub fn from_grid(grid: Vec<i8>, player: Condition) -> (r: Option<Board>)
        ensures
            match r {
                Some(b) => {
                    &&& valid_setup(grid@, player)
                    &&& b.inv()
                    &&& b@.grid == grid@
                    &&& b@.player == player
                    &&& b@.ply == 0
                    &&& b@.last_capture == 0
                    &&& b@.history == Map::<u64, i32>::empty()
                    &&& !b@.exceeded
                },
                None => !valid_setup(grid@, player),
            },
    {
        if grid.len() != 90 || !(player == Condition::RED || player == Condition::BLACK) {
            return None;
        }
        let mut red: usize = 90;
        let mut black: usize = 90;
        let mut i: usize = 0;
        while i < 90
            invariant
                grid@.len() == 90,
                i <= 90,
                forall|j: int| 0 <= j < i ==> -7 <= #[trigger] grid@[j] <= 7,
                red <= 90,
                black <= 90,
                red < 90 ==> red < i && grid@[red as int] == 5,
                black < 90 ==> black < i && grid@[black as int] == -5,
                forall|j: int| 0 <= j < i && #[trigger] grid@[j] == 5 ==> j == red,
                forall|j: int| 0 <= j < i && #[trigger] grid@[j] == -5 ==> j == black,
            decreases 90 - i,
        {
            let v = grid[i];
            if v < -7 || v > 7 {
                return None;
            }
            if v == 5 {
                if red < 90 {
                    return None;
                }
                red = i;
            }
            if v == -5 {
                if black < 90 {
                    return None;
                }
                black = i;
            }
            i = i + 1;
        }
        if red == 90 || black == 90 {
            return None;
        }
        let ghost g = grid@;
        let b = Board::build(grid, player, red, black);
        proof {
            assert(g[red as int] == 5);
            assert(g[black as int] == -5);
        }
        Some(b)
    }

    /// The standard opening position, Red to move.
    pub fn new() -> (r: Self)
        ensures
            r.inv(),
            r@.grid == opening_grid(),
            r@.player == Condition::RED,
            r@.ply == 0,
            r@.last_capture == 0,
            r@.history == Map::<u64, i32>::empty(),
            !r@.exceeded,
    {
        let state: Vec<i8> = vec![
            -3, -6, -4, -1, -5, -1, -4, -6, -3,
            0, 0, 0, 0, 0, 0, 0, 0, 0,
            0, -2, 0, 0, 0, 0, 0, -2, 0,
            -7, 0, -7, 0, -7, 0, -7, 0, -7,
            0, 0, 0, 0, 0, 0, 0, 0, 0,
            0, 0, 0, 0, 0, 0, 0, 0, 0,
            7, 0, 7, 0, 7, 0, 7, 0, 7,
            0, 2, 0, 0, 0, 0, 0, 2, 0,
            0, 0, 0, 0, 0, 0, 0, 0, 0,
            3, 6, 4, 1, 5, 1, 4, 6, 3,
        ];
        assert(state@ =~= opening_grid());
        assert forall|i: int| 0 <= i < 90 implies -7 <= #[trigger] state@[i] <= 7 && (state@[i] == 5 <==> i == 85)
            && (state@[i] == -5 <==> i == 4) by {
        }
        Board::build(state, Condition::RED, 85, 4)
    }

    /// Replaces the piece-square tables and recomputes the accumulators.
    pub fn load_pst(&mut self, mg: Vec<Vec<Vec<i32>>>, eg: Vec<Vec<Vec<i32>>>)
        requires
            old(self).inv(),
            nested_table_ok(mg@, PST_BOUND as int),
            nested_table_ok(eg@, PST_BOUND as int),
        ensures
            final(self).inv(),
            final(self)@ == (BoardView {
                mg_table: final(self)@.mg_table,
                eg_table: final(self)@.eg_table,
                mg_red: final(self)@.mg_red,
                mg_black: final(self)@.mg_black,
                eg_red: final(self)@.eg_red,
                eg_black: final(self)@.eg_black,
                ..old(self)@
            }),
            forall|i: int| 0 <= i < 630 ==> #[trigger] final(self)@.mg_table[i] == mg@[i / 90]@[(i % 90) / 9]@[(i % 90) % 9],
            forall|i: int| 0 <= i < 630 ==> #[trigger] final(self)@.eg_table[i] == eg@[i / 90]@[(i % 90) / 9]@[(i % 90) % 9],
    {
        self.mg_table = flatten_table(&mg);
        self.eg_table = flatten_table(&eg);
        self.mg_red = compute_accumulated(&self.mg_table, &self.state, Condition::RED);
        self.mg_black = compute_accumulated(&self.mg_table, &self.state, Condition::BLACK);
        self.eg_red = compute_accumulated(&self.eg_table, &self.state, Condition::RED);
        self.eg_black = compute_accumulated(&self.eg_table, &self.state, Condition::BLACK);
        self.cache_ok = false;
    }
}

/// The moves kept by the legality filter are exactly the members of the input
/// that pass it, and there are no more of them than of the input.
pub proof fn lemma_filter_legal(v: BoardView, s: Seq<Move>, captures: bool)
    ensures
        v.filter_legal(s, captures).len() <= s.len(),
        forall|i: int| 0 <= i < v.filter_legal(s, captures).len()
            ==> v.keeps(#[trigger] v.filter_legal(s, captures)[i], captures),
        forall|m: Move| s.contains(m) && v.keeps(m, captures) ==> #[trigger] v.filter_legal(s, captures).contains(m),
        forall|m: Move| #[trigger] v.filter_legal(s, captures).contains(m) ==> s.contains(m),
    decreases s.len(),
{
    if s.len() > 0 {
        let t = s.drop_last();
        lemma_filter_legal(v, t, captures);
        let prev = v.filter_legal(t, captures);
        let x = s.last();
        assert forall|m: Move| s.contains(m) && v.keeps(m, captures) implies v.filter_legal(s, captures).contains(m) by {
            let j = choose|j: int| 0 <= j < s.len() && s[j] == m;
            if j < s.len() - 1 {
                assert(t[j] == m);
                assert(t.contains(m));
                assert(prev.contains(m));
                let k = choose|k: int| 0 <= k < prev.len() && prev[k] == m;
                if v.keeps(x, captures) {
                    assert(prev.push(x)[k] == m);
                }
            } else {
                assert(prev.push(x)[prev.len() as int] == m);
            }
        }
        assert forall|m: Move| #[trigger] v.filter_legal(s, captures).contains(m) implies s.contains(m) by {
            let k = choose|k: int| 0 <= k < v.filter_legal(s, captures).len() && v.filter_legal(s, captures)[k] == m;
            if k < prev.len() {
                assert(prev[k] == m);
                assert(prev.contains(m));
                assert(t.contains(m));
                let j = choose|j: int| 0 <= j < t.len() && t[j] == m;
                assert(s[j] == m);
            } else {
                assert(s[s.len() - 1] == m);
            }
        }
    }
}

/// Filtering the legal moves for captures gives the legal captures.
pub proof fn lemma_filter_twice(v: BoardView, s: Seq<Move>)
    ensures
        v.filter_legal(v.filter_legal(s, false), true) == v.filter_legal(s, true),
    decreases s.len(),
{
    if s.len() > 0 {
        let t = s.drop_last();
        lemma_filter_twice(v, t);
        let prev = v.filter_legal(t, false);
        let x = s.last();
        if v.keeps(x, false) {
            let f = prev.push(x);
            assert(f.drop_last() =~= prev);
            assert(f.last() == x);
        }
    }
}

/// Copies a move list element by element.
fn copy_moves(s: &Vec<Move>) -> (r: Vec<Move>)
    ensures
        r@ == s@,
{
    let mut r: Vec<Move> = Vec::new();
    let mut i: usize = 0;
    while i < s.len()
        invariant
            i <= s@.len(),
            r@ == s@.subrange(0, i as int),
        decreases s.len() - i,
    {
        r.push(s[i]);
        i = i + 1;
        assert(r@ =~= s@.subrange(0, i as int));
    }
    assert(r@ =~= s@);
    r
}

/// Copies a grid cell by cell.
fn copy_grid(s: &Vec<i8>) -> (r: Vec<i8>)
    ensures
        r@ == s@,
{
    let mut r: Vec<i8> = Vec::new();
    let mut i: usize = 0;
    while i < s.len()
        invariant
            i <= s@.len(),
            r@ == s@.subrange(0, i as int),
        decreases s.len() - i,
    {
        r.push(s[i]);
        i = i + 1;
        assert(r@ =~= s@.subrange(0, i as int));
    }
    assert(r@ =~= s@);
    r
}

/// Decides whether pseudo-legal move `m` of side `side` on grid `g` (held in
/// `scratch`, which is restored) is legal, given the candidate attackers of its
/// general's square `mine`; `theirs` is the other general's square.
fn check_legal(
    scratch: &mut Vec<i8>,
    m: &Move,
    side: Condition,
    mine: usize,
    theirs: usize,
    cands: &Vec<usize>,
    Ghost(v): Ghost<BoardView>,
) -> (r: bool)
    requires
        v.wf(),
        old(scratch)@ == v.grid,
        side == v.player,
        mine == v.general_of(side),
        theirs == v.general_of(opponent(side)),
        m.on_board(),
        owner(v.grid[m.from_sq()]) == side,
        reaches(v.grid, m.from_sq(), m.to_sq()),
        m.captured == v.grid[m.to_sq()],
        forall|i: int| 0 <= i < cands@.len() ==> cands@[i] < 90,
        forall|p: int|
            0 <= p < 90 && owner(v.grid[p]) == opponent(side) && v.grid[p] != 0 && could_reach(kind(v.grid[p]), p, mine as int)
                ==> cands@.contains(p as usize),
    ensures
        final(scratch)@ == old(scratch)@,
        r == v.legal(*m),
{
    let from = m.start_sq();
    let to = m.end_sq();
    let piece = scratch[from];
    let target = scratch[to];
    if target == 5 || target == -5 {
        return false;
    }
    scratch.set(from, 0);
    scratch.set(to, piece);
    let ghost g2 = scratch@;
    assert(g2 =~= after_move(v.grid, from as int, to as int));
    assert(grid_ok(g2)) by {
        assert forall|i: int| 0 <= i < 90 implies -7 <= #[trigger] g2[i] <= 7 by {
            assert(g2[i] == v.grid[i] || g2[i] == 0 || g2[i] == piece);
        }
    }
    let mine2 = if from == mine { to } else { mine };
    let other = side.inverse();
    let bad = if facing_exec(scratch, mine2, theirs) {
        true
    } else if from == mine {
        let fresh = candidates(scratch, mine2, other);
        attacked_from(scratch, mine2, other, &fresh)
    } else {
        proof {
            assert forall|p: int|
                0 <= p < 90 && owner(g2[p]) == other && g2[p] != 0 && could_reach(kind(g2[p]), p, mine2 as int)
                    implies cands@.contains(p as usize) by {
                assert(p != from as int && p != to as int);
                assert(g2[p] == v.grid[p]);
            }
        }
        attacked_from(scratch, mine2, other, cands)
    };
    scratch.set(to, target);
    scratch.set(from, piece);
    assert(scratch@ =~= v.grid);
    !bad
}

impl Board {
    fn filter_moves(&self, buffer: &Vec<Move>, captures: bool, Ghost(src): Ghost<Seq<Move>>) -> (out: Vec<Move>)
        requires
            self.inv(),
            buffer@ == src,
            src.len() <= 8100,
            forall|j: int| 0 <= j < buffer@.len() ==> {
                let m = #[trigger] buffer@[j];
                &&& m.on_board()
                &&& owner(self@.grid[m.from_sq()]) == self@.player
                &&& reaches(self@.grid, m.from_sq(), m.to_sq())
                &&& m.captured == self@.grid[m.to_sq()]
            },
        ensures
            out@ == self@.filter_legal(src, captures),
    {
        let ghost v = self@;
        let side = self.player;
        let other = side.inverse();
        let mine = if side == Condition::RED { self.red_general } else { self.black_general };
        let theirs = if side == Condition::RED { self.black_general } else { self.red_general };
        let mut scratch = copy_grid(&self.state);
        let cands = candidates(&scratch, mine, other);
        let mut out: Vec<Move> = Vec::new();
        let mut i: usize = 0;
        while i < buffer.len()
            invariant
                v.wf(),
                scratch@ == v.grid,
                buffer@ == src,
                src.len() <= 8100,
                i <= buffer@.len(),
                side == v.player,
                other == opponent(side),
                mine == v.general_of(side),
                theirs == v.general_of(other),
                forall|j: int| 0 <= j < buffer@.len() ==> {
                    let m = #[trigger] buffer@[j];
                    &&& m.on_board()
                    &&& owner(v.grid[m.from_sq()]) == side
                    &&& reaches(v.grid, m.from_sq(), m.to_sq())
                    &&& m.captured == v.grid[m.to_sq()]
                },
                forall|j: int| 0 <= j < cands@.len() ==> cands@[j] < 90,
                forall|p: int|
                    0 <= p < 90 && owner(v.grid[p]) == other && v.grid[p] != 0 && could_reach(kind(v.grid[p]), p, mine as int)
                        ==> cands@.contains(p as usize),
                out@ == v.filter_legal(src.subrange(0, i as int), captures),
            decreases buffer.len() - i,
        {
            let m = buffer[i];
            let keep = if captures && m.captured == 0 {
                false
            } else {
                check_legal(&mut scratch, &m, side, mine, theirs, &cands, Ghost(v))
            };
            if keep {
                out.push(m);
            }
            proof {
                let t = src.subrange(0, i + 1);
                assert(t.drop_last() =~= src.subrange(0, i as int));
                assert(t.last() == m);
            }
            i = i + 1;
        }
        assert(src.subrange(0, src.len() as int) =~= src);
        out
    }

    /// All pseudo-legal moves of the side to move, square by square, each
    /// carrying the code on its end square.
    pub fn get_all_moves(&self) -> (r: Vec<Move>)
        requires
            self.inv(),
        ensures
            r@ == pseudo_list(self@.grid, self@.player, 90),
    {
        side_moves(&self.state, self.player)
    }

    /// The legal moves of the side to move, in generation order; with
    /// `captures`, only those that capture.
    pub fn get_moves(&mut self, captures: bool) -> (r: Vec<Move>)
        requires
            old(self).inv(),
        ensures
            final(self).inv(),
            final(self)@ == old(self)@,
            r@ == old(self)@.legal_moves(captures),
            r@.len() <= 8100,
    {
        let ghost v = self@;
        proof {
            lemma_pseudo_list(v.grid, v.player, 90);
            lemma_filter_legal(v, pseudo_list(v.grid, v.player, 90), false);
            lemma_filter_legal(v, pseudo_list(v.grid, v.player, 90), captures);
        }
        if !captures && self.cache_ok {
            return copy_moves(&self.cache_moves);
        }
        let from_cache = captures && self.cache_ok;
        let buffer = if from_cache {
            copy_moves(&self.cache_moves)
        } else {
            self.get_all_moves()
        };
        let ghost src = if from_cache { v.legal_moves(false) } else { pseudo_list(v.grid, v.player, 90) };
        assert(buffer@ == src);
        proof {
            if from_cache {
                lemma_filter_twice(v, pseudo_list(v.grid, v.player, 90));
                lemma_filter_legal(v, v.legal_moves(false), true);
            }
        }
        let out = self.filter_moves(&buffer, captures, Ghost(src));
        proof {
            lemma_filter_legal(v, src, captures);
        }
        if !captures {
            self.cache_moves = copy_moves(&out);
            self.cache_ok = true;
        }
        out
    }
}

impl Board {
    /// Whether the side to move's general is attacked.
    pub fn is_check(&self) -> (r: bool)
        requires
            self.inv(),
        ensures
            r == self@.in_check(),
    {
        let side = self.player;
        let mine = if side == Condition::RED { self.red_general } else { self.black_general };
        let cands = candidates(&self.state, mine, side.inverse());
        attacked_from(&self.state, mine, side.inverse(), &cands)
    }

    /// Whether the side that just moved left its own general attacked.
    pub fn last_check(&self) -> (r: bool)
        requires
            self.inv(),
        ensures
            r == attacked(self@.grid, self@.general_of(opponent(self@.player)), self@.player),
    {
        let side = self.player.inverse();
        let mine = if side == Condition::RED { self.red_general } else { self.black_general };
        let cands = candidates(&self.state, mine, self.player);
        attacked_from(&self.state, mine, self.player, &cands)
    }

    /// Whether the game is drawn: sixty plies without a capture, or the
    /// three-fold repetition latch.
    pub fn is_draw(&self) -> (r: bool)
        requires
            self.inv(),
        ensures
            r == self@.is_draw(),
    {
        self.ply - self.last_capture >= QUIET_PLY_LIMIT || self.exceeded
    }

    /// The game's state: drawn, won by one side, or going on.
    pub fn condition(&mut self) -> (r: Condition)
        requires
            old(self).inv(),
        ensures
            final(self).inv(),
            final(self)@ == old(self)@,
            r == old(self)@.outcome(),
    {
        if self.is_draw() {
            return Condition::DRAW;
        }
        let moves = self.get_moves(false);
        if moves.len() == 0 {
            return self.player.inverse();
        }
        Condition::NONE
    }

    /// The middlegame table value of the piece on (`row`, `col`), read as the
    /// side to move reads its tables.
    pub fn score_piece(&self, row: usize, col: usize) -> (r: i32)
        requires
            self.inv(),
            row < 10,
            col < 9,
            self@.grid[row * 9 + col] != 0,
        ensures
            r == self@.mg_table[(kind(self@.grid[row * 9 + col]) - 1) * 90 + oriented(row * 9 + col, self@.player)],
    {
        let v = self.state[row * 9 + col];
        let k: usize = if v < 0 { (-v) as usize } else { v as usize };
        let sq = row * 9 + col;
        let o = if self.player == Condition::BLACK { 89 - sq } else { sq };
        self.mg_table[(k - 1) * 90 + o]
    }

    /// Makes `m` if it is a legal move of the side to move in a game not yet
    /// latched drawn; returns whether it did. On success `m` carries the
    /// captured code and the stamp that `unmov` needs.
    pub fn try_move(&mut self, m: &mut Move) -> (r: bool)
        requires
            old(self).inv(),
        ensures
            final(self).inv(),
            r == ({
                let f = Move { captured: old(self)@.grid[old(m).to_sq()], ..*old(m) };
                &&& old(m).on_board()
                &&& !old(self)@.exceeded
                &&& old(self)@.ply < i32::MAX
                &&& old(self)@.legal(f)
            }),
            r ==> ({
                let f = Move { captured: old(self)@.grid[old(m).to_sq()], ..*old(m) };
                &&& final(self)@ == old(self)@.make(f)
                &&& *final(m) == old(self)@.stamped(f)
            }),
            !r ==> final(self)@ == old(self)@ && *final(m) == *old(m),
    {
        if !(0 <= m.starty && m.starty < 10 && 0 <= m.startx && m.startx < 9 && 0 <= m.endy
            && m.endy < 10 && 0 <= m.endx && m.endx < 9) {
            return false;
        }
        if self.exceeded || self.ply == i32::MAX {
            return false;
        }
        let ghost v = self@;
        let from = m.start_sq();
        let to = m.end_sq();
        let mut f = *m;
        f.captured = self.state[to];
        if !(reaches_exec(&self.state, from, to) && side_of_code(self.state[from]) == self.player) {
            return false;
        }
        let side = self.player;
        let other = side.inverse();
        let mine = if side == Condition::RED { self.red_general } else { self.black_general };
        let theirs = if side == Condition::RED { self.black_general } else { self.red_general };
        let mut scratch = copy_grid(&self.state);
        let cands = candidates(&scratch, mine, other);
        if !check_legal(&mut scratch, &f, side, mine, theirs, &cands, Ghost(v)) {
            return false;
        }
        self.mov(&mut f);
        *m = f;
        true
    }

    /// Appends the moves of the soldier on (`row`, `col`): forward, then
    /// toward column 8, then toward column 0.
    pub fn soldier_moves(&self, row: i8, col: i8, moves: &mut Vec<Move>)
        requires
            self.inv(),
            0 <= row < 10,
            0 <= col < 9,
            kind(self@.grid[row * 9 + col]) == 7,
        ensures
            final(moves)@ == old(moves)@ + soldier_list(self@.grid, row * 9 + col),
    {
        soldier_moves_at(&self.state, (row as usize) * 9 + col as usize, moves)
    }

    /// Appends the moves of the cannon on (`row`, `col`); with (`dcol`, `drow`)
    /// not (0, 0), only those heading that way.
    pub fn cannon_moves(&self, row: i8, col: i8, moves: &mut Vec<Move>, dcol: i8, drow: i8)
        requires
            self.inv(),
            0 <= row < 10,
            0 <= col < 9,
            kind(self@.grid[row * 9 + col]) == 2,
        ensures
            final(moves)@ == old(moves)@ + heading(reach_list(self@.grid, row * 9 + col, 90), drow as int, dcol as int, false),
    {
        piece_moves_toward(&self.state, (row as usize) * 9 + col as usize, moves, drow, dcol, false)
    }

    /// Appends the moves of the chariot on (`row`, `col`); with (`dcol`, `drow`)
    /// not (0, 0), only those heading that way.
    pub fn chariot_moves(&self, row: i8, col: i8, moves: &mut Vec<Move>, dcol: i8, drow: i8)
        requires
            self.inv(),
            0 <= row < 10,
            0 <= col < 9,
            kind(self@.grid[row * 9 + col]) == 3,
        ensures
            final(moves)@ == old(moves)@ + heading(reach_list(self@.grid, row * 9 + col, 90), drow as int, dcol as int, false),
    {
        piece_moves_toward(&self.state, (row as usize) * 9 + col as usize, moves, drow, dcol, false)
    }

    /// Appends the moves of the advisor on (`row`, `col`).
    pub fn advisor_moves(&self, row: i8, col: i8, moves: &mut Vec<Move>)
        requires
            self.inv(),
            0 <= row < 10,
            0 <= col < 9,
            kind(self@.grid[row * 9 + col]) == 1,
        ensures
            final(moves)@ == old(moves)@ + reach_list(self@.grid, row * 9 + col, 90),
    {
        piece_moves(&self.state, (row as usize) * 9 + col as usize, moves)
    }

    /// Appends the moves of the elephant on (`row`, `col`).
    pub fn elephant_moves(&self, row: i8, col: i8, moves: &mut Vec<Move>)
        requires
            self.inv(),
            0 <= row < 10,
            0 <= col < 9,
            kind(self@.grid[row * 9 + col]) == 4,
        ensures
            final(moves)@ == old(moves)@ + reach_list(self@.grid, row * 9 + col, 90),
    {
        piece_moves(&self.state, (row as usize) * 9 + col as usize, moves)
    }

    /// Appends the moves of the general on (`row`, `col`).
    pub fn general_moves(&self, row: i8, col: i8, moves: &mut Vec<Move>)
        requires
            self.inv(),
            0 <= row < 10,
            0 <= col < 9,
            kind(self@.grid[row * 9 + col]) == 5,
        ensures
            final(moves)@ == old(moves)@ + reach_list(self@.grid, row * 9 + col, 90),
    {
        piece_moves(&self.state, (row as usize) * 9 + col as usize, moves)
    }

    /// Appends the moves of the horse on (`row`, `col`); with (`dcol`, `drow`)
    /// not (0, 0), only those heading by that exact jump.
    pub fn horse_moves(&self, row: i8, col: i8, moves: &mut Vec<Move>, dcol: i8, drow: i8)
        requires
            self.inv(),
            0 <= row < 10,
            0 <= col < 9,
            kind(self@.grid[row * 9 + col]) == 6,
        ensures
            final(moves)@ == old(moves)@ + heading(reach_list(self@.grid, row * 9 + col, 90), drow as int, dcol as int, true),
    {
        piece_moves_toward(&self.state, (row as usize) * 9 + col as usize, moves, drow, dcol, true)
    }
}

pub proof fn lemma_zobrist_update(g: Seq<i8>, keys: Seq<u64>, i: int, v: i8, n: int)
    requires
        0 <= i < g.len(),
        0 <= n <= g.len(),
    ensures
        zobrist(g.update(i, v), keys, n) == if i < n {
            zobrist(g, keys, n) ^ cell_key(keys, g[i], i) ^ cell_key(keys, v, i)
        } else {
            zobrist(g, keys, n)
        },
    decreases n,
{
    if n > 0 {
        lemma_zobrist_update(g, keys, i, v, n - 1);
        let z = zobrist(g, keys, n - 1);
        let a = cell_key(keys, g[i], i);
        let b = cell_key(keys, v, i);
        let c = cell_key(keys, g[n - 1], n - 1);
        if n - 1 == i {
            assert(z ^ b == (z ^ a) ^ a ^ b) by (bit_vector);
        } else if i < n - 1 {
            assert((z ^ a ^ b) ^ c == (z ^ c) ^ a ^ b) by (bit_vector);
        }
    }
}

pub proof fn lemma_accumulated_update(
    t: Seq<i32>,
    g: Seq<i8>,
    side: Condition,
    i: int,
    v: i8,
    n: int,
)
    requires
        0 <= i < g.len(),
        0 <= n <= g.len(),
    ensures
        accumulated(t, g.update(i, v), side, n) == if i < n {
            accumulated(t, g, side, n) - pst_value(t, g[i], i, side) + pst_value(t, v, i, side)
        } else {
            accumulated(t, g, side, n)
        },
    decreases n,
{
    if n > 0 {
        lemma_accumulated_update(t, g, side, i, v, n - 1);
    }
}

pub proof fn lemma_pst_value_bound(t: Seq<i32>, v: i8, sq: int, side: Condition)
    requires
        table_ok(t),
        -7 <= v <= 7,
        0 <= sq < 90,
    ensures
        -PST_BOUND <= pst_value(t, v, sq, side) <= PST_BOUND,
{
    if v != 0 && owner(v) == side {
        let idx = (kind(v) - 1) * 90 + oriented(sq, side);
        assert(0 <= idx < 630);
    }
}

pub proof fn lemma_accumulated_bound(t: Seq<i32>, g: Seq<i8>, side: Condition, n: int)
    requires
        table_ok(t),
        grid_ok(g),
        0 <= n <= 90,
    ensures
        -n * PST_BOUND <= accumulated(t, g, side, n) <= n * PST_BOUND,
    decreases n,
{
    if n > 0 {
        lemma_accumulated_bound(t, g, side, n - 1);
        lemma_pst_value_bound(t, g[n - 1], n - 1, side);
    }
}

/// `mov` keeps a well-formed position well formed.
pub proof fn lemma_make_wf(v: BoardView, m: Move)
    requires
        v.wf(),
        v.can_make(m),
    ensures
        v.make(m).wf(),
{
    let w = v.make(m);
    if !m.spec_is_null() {
        let from = m.from_sq();
        let to = m.to_sq();
        let g = after_move(v.grid, from, to);
        assert forall|i: int| 0 <= i < 90 implies -7 <= #[trigger] g[i] <= 7 by {
            assert(g[i] == v.grid[i] || g[i] == 0 || g[i] == v.grid[from]);
        }
        assert forall|i: int| 0 <= i < 90 implies (#[trigger] w.grid[i] == 5 <==> i == w.red_general) by {
            if i != from && i != to {
                assert(w.grid[i] == v.grid[i]);
            }
        }
        assert forall|i: int| 0 <= i < 90 implies (#[trigger] w.grid[i] == -5 <==> i == w.black_general) by {
            if i != from && i != to {
                assert(w.grid[i] == v.grid[i]);
            }
        }
        let h = w.full_hash();
        assert forall|k: u64| #[trigger] w.history.contains_key(k) implies 1 <= w.history[k] <= 3 by {
            if k != h {
                assert(v.history.contains_key(k));
            }
        }
        assert forall|k: u64| #[trigger] w.history.contains_key(k) && w.history[k] == 3
            implies w.exceeded && k == w.full_hash() by {
            if k != h {
                assert(v.history.contains_key(k));
            }
        }
    }
}

/// `unmov` keeps a well-formed position well formed.
pub proof fn lemma_unmake_wf(v: BoardView, m: Move)
    requires
        v.wf(),
        v.can_unmake(m),
    ensures
        v.unmake(m).wf(),
{
    let w = v.unmake(m);
    if !m.spec_is_null() {
        let from = m.from_sq();
        let to = m.to_sq();
        let g = w.grid;
        assert forall|i: int| 0 <= i < 90 implies -7 <= #[trigger] g[i] <= 7 by {
            assert(g[i] == v.grid[i] || g[i] == m.captured || g[i] == v.grid[to]);
        }
        assert forall|i: int| 0 <= i < 90 implies (#[trigger] w.grid[i] == 5 <==> i == w.red_general) by {
            if i != from && i != to {
                assert(w.grid[i] == v.grid[i]);
            }
        }
        assert forall|i: int| 0 <= i < 90 implies (#[trigger] w.grid[i] == -5 <==> i == w.black_general) by {
            if i != from && i != to {
                assert(w.grid[i] == v.grid[i]);
            }
        }
        let h = v.full_hash();
        assert forall|k: u64| #[trigger] w.history.contains_key(k) implies 1 <= w.history[k] <= 2 by {
            assert(v.history.contains_key(k));
        }
    }
}

/// Making a move and unmaking it, with the descriptor that `mov` stamped,
/// gives back exactly the position it started from.
pub proof fn lemma_make_unmake(v: BoardView, m: Move)
    requires
        v.wf(),
        v.can_make(m),
    ensures
        v.make(m).can_unmake(v.stamped(m)),
        v.make(m).unmake(v.stamped(m)) == v,
{
    let w = v.make(m);
    let s = v.stamped(m);
    if !m.spec_is_null() {
        let from = m.from_sq();
        let to = m.to_sq();
        let u = w.unmake(s);
        assert(u.grid =~= v.grid);
        let h = w.full_hash();
        let c = w.seen(h);
        if v.history.contains_key(h) {
            assert(u.history =~= v.history);
        } else {
            assert(u.history =~= v.history);
        }
        assert(u.red_general == v.red_general);
        assert(u.black_general == v.black_general);
    }
}

/// Every move that `get_moves(false)` returns leaves the mover's general
/// neither attacked nor facing the other general.
pub proof fn lemma_legal_moves_safe(v: BoardView, m: Move)
    requires
        v.wf(),
        v.legal_moves(false).contains(m),
    ensures
        ({
            let from = m.from_sq();
            let to = m.to_sq();
            let mine = v.general_of(v.player);
            let mine2 = if from == mine { to } else { mine };
            let g = after_move(v.grid, from, to);
            &&& !attacked(g, mine2, opponent(v.player))
            &&& !facing(g, mine2, v.general_of(opponent(v.player)))
        }),
{
    lemma_filter_legal(v, pseudo_list(v.grid, v.player, 90), false);
    let k = choose|k: int| 0 <= k < v.legal_moves(false).len() && v.legal_moves(false)[k] == m;
    assert(v.keeps(v.legal_moves(false)[k], false));
}

/// The third arrival at a position key latches the draw, and unmaking that move
/// clears the latch.
pub proof fn lemma_threefold_latch(v: BoardView, m: Move)
    requires
        v.wf(),
        v.can_make(m),
        !m.spec_is_null(),
        v.seen(v.make(m).full_hash()) == 2,
    ensures
        v.make(m).exceeded,
        v.make(m).outcome() == Condition::DRAW,
        !v.make(m).unmake(v.stamped(m)).exceeded,
        v.make(m).unmake(v.stamped(m)).outcome() == v.outcome(),
{
    lemma_make_unmake(v, m);
}

/// The hash kept by a position is the reference computation over its grid,
/// before and after every make.
pub proof fn lemma_hash_reference(v: BoardView, m: Move)
    requires
        v.wf(),
        v.can_make(m),
    ensures
        v.hash == zobrist(v.grid, v.keys, 90),
        v.make(m).hash == zobrist(v.make(m).grid, v.make(m).keys, 90),
        v.make(m).full_hash() == if v.make(m).player == Condition::BLACK {
            zobrist(v.make(m).grid, v.keys, 90) ^ v.key_black
        } else {
            zobrist(v.make(m).grid, v.keys, 90)
        },
{
    lemma_make_wf(v, m);
}

/// The accumulators equal their reference sums after every make.
pub proof fn lemma_accumulators_reference(v: BoardView, m: Move)
    requires
        v.wf(),
        v.can_make(m),
    ensures
        ({
            let w = v.make(m);
            &&& w.mg_red == accumulated(w.mg_table, w.grid, Condition::RED, 90)
            &&& w.mg_black == accumulated(w.mg_table, w.grid, Condition::BLACK, 90)
            &&& w.eg_red == accumulated(w.eg_table, w.grid, Condition::RED, 90)
            &&& w.eg_black == accumulated(w.eg_table, w.grid, Condition::BLACK, 90)
        }),
{
    lemma_make_wf(v, m);
}

/// A move after which both generals stand on one file with nothing between
/// them is not legal.
pub proof fn lemma_flying_general_illegal(v: BoardView, m: Move)
    requires
        v.wf(),
        ({
            let mine = v.general_of(v.player);
            let mine2 = if m.from_sq() == mine { m.to_sq() } else { mine };
            facing(after_move(v.grid, m.from_sq(), m.to_sq()), mine2, v.general_of(opponent(v.player)))
        }),
    ensures
        !v.legal(m),
        !v.legal_moves(false).contains(m),
{
    lemma_filter_legal(v, pseudo_list(v.grid, v.player, 90), false);
    if v.legal_moves(false).contains(m) {
        let k = choose|k: int| 0 <= k < v.legal_moves(false).len() && v.legal_moves(false)[k] == m;
        assert(v.keeps(v.legal_moves(false)[k], false));
    }
}

} // verus!
