//! How each piece moves, stated over a grid of 90 cells (row-major, 9 per row),
//! with the executable checks and generators proved against those statements.
use vstd::prelude::*;
use crate::chess_move::Move;
use crate::condition::{Condition, opponent};

verus! {

pub open spec fn row_of(sq: int) -> int {
    sq / 9
}

pub open spec fn col_of(sq: int) -> int {
    sq % 9
}

pub open spec fn abs(x: int) -> int {
    if x < 0 { -x } else { x }
}

pub open spec fn min(a: int, b: int) -> int {
    if a < b { a } else { b }
}

pub open spec fn max(a: int, b: int) -> int {
    if a < b { b } else { a }
}

/// The side a piece code belongs to.
pub open spec fn owner(v: i8) -> Condition {
    if v > 0 {
        Condition::RED
    } else if v < 0 {
        Condition::BLACK
    } else {
        Condition::NONE
    }
}

/// The piece kind of a code (1 advisor .. 7 soldier, 0 empty).
pub open spec fn kind(v: i8) -> int {
    abs(v as int)
}

/// A grid of 90 cells, each a piece code.
pub open spec fn grid_ok(g: Seq<i8>) -> bool {
    &&& g.len() == 90
    &&& forall|i: int| 0 <= i < 90 ==> -7 <= #[trigger] g[i] <= 7
}

/// Red's soldiers have crossed the river on rows 0..=4, Black's on rows 5..=9.
pub open spec fn crossed(side: Condition, row: int) -> bool {
    (side == Condition::RED && row <= 4) || (side == Condition::BLACK && row >= 5)
}

/// The row step of a soldier's advance.
pub open spec fn forward(side: Condition) -> int {
    if side == Condition::RED { -1 } else { 1 }
}

/// The 3x3 palace of a side.
pub open spec fn in_palace(side: Condition, row: int, col: int) -> bool {
    &&& 3 <= col <= 5
    &&& if side == Condition::RED { 7 <= row <= 9 } else { 0 <= row <= 2 }
}

/// A side's own half of the board, where its elephants stay.
pub open spec fn own_half(side: Condition, row: int) -> bool {
    if side == Condition::RED { 5 <= row <= 9 } else { 0 <= row <= 4 }
}

/// Occupied cells of row `r` at the columns strictly between `lo` and `hi`.
pub open spec fn occupied_in_row(g: Seq<i8>, r: int, lo: int, hi: int) -> int
    decreases hi - lo,
{
    if hi <= lo + 1 {
        0
    } else {
        occupied_in_row(g, r, lo, hi - 1) + if g[r * 9 + hi - 1] != 0 { 1int } else { 0int }
    }
}

/// Occupied cells of column `c` at the rows strictly between `lo` and `hi`.
pub open spec fn occupied_in_col(g: Seq<i8>, c: int, lo: int, hi: int) -> int
    decreases hi - lo,
{
    if hi <= lo + 1 {
        0
    } else {
        occupied_in_col(g, c, lo, hi - 1) + if g[(hi - 1) * 9 + c] != 0 { 1int } else { 0int }
    }
}

/// Two distinct squares on one rank or one file.
pub open spec fn on_line(a: int, b: int) -> bool {
    a != b && (row_of(a) == row_of(b) || col_of(a) == col_of(b))
}

/// The occupied squares strictly between two squares of one line.
pub open spec fn between(g: Seq<i8>, a: int, b: int) -> int {
    if row_of(a) == row_of(b) {
        occupied_in_row(g, row_of(a), min(col_of(a), col_of(b)), max(col_of(a), col_of(b)))
    } else {
        occupied_in_col(g, col_of(a), min(row_of(a), row_of(b)), max(row_of(a), row_of(b)))
    }
}

/// The square next to a horse in the long direction of its jump.
pub open spec fn horse_leg(a: int, b: int) -> int {
    let dr = row_of(b) - row_of(a);
    let dc = col_of(b) - col_of(a);
    if abs(dr) == 2 {
        (row_of(a) + dr / 2) * 9 + col_of(a)
    } else {
        row_of(a) * 9 + col_of(a) + dc / 2
    }
}

/// The movement rule of the piece on `from`, toward `to`, on grid `g`.
pub open spec fn piece_rule(g: Seq<i8>, from: int, to: int) -> bool {
    let side = owner(g[from]);
    let dr = row_of(to) - row_of(from);
    let dc = col_of(to) - col_of(from);
    let k = kind(g[from]);
    if k == 7 {
        (dc == 0 && dr == forward(side)) || (dr == 0 && abs(dc) == 1 && crossed(side, row_of(from)))
    } else if k == 3 {
        on_line(from, to) && between(g, from, to) == 0
    } else if k == 2 {
        on_line(from, to) && if g[to] == 0 {
            between(g, from, to) == 0
        } else {
            between(g, from, to) == 1
        }
    } else if k == 6 {
        ((abs(dr) == 2 && abs(dc) == 1) || (abs(dr) == 1 && abs(dc) == 2)) && g[horse_leg(from, to)]
            == 0
    } else if k == 4 {
        abs(dr) == 2 && abs(dc) == 2 && own_half(side, row_of(to)) && g[(from + to) / 2] == 0
    } else if k == 1 {
        abs(dr) == 1 && abs(dc) == 1 && in_palace(side, row_of(to), col_of(to))
    } else if k == 5 {
        abs(dr) + abs(dc) == 1 && in_palace(side, row_of(to), col_of(to))
    } else {
        false
    }
}

/// The piece on `from` may move to `to`: a pseudo-legal move, before the
/// question of whether it leaves its own general exposed.
pub open spec fn reaches(g: Seq<i8>, from: int, to: int) -> bool {
    &&& 0 <= from < 90
    &&& 0 <= to < 90
    &&& g[from] != 0
    &&& owner(g[to]) != owner(g[from])
    &&& piece_rule(g, from, to)
}

/// Square `sq` is attacked by a piece of side `by`.
pub open spec fn attacked(g: Seq<i8>, sq: int, by: Condition) -> bool {
    exists|p: int| 0 <= p < 90 && owner(g[p]) == by && #[trigger] reaches(g, p, sq)
}

/// Two generals face each other: one file, nothing between.
pub open spec fn facing(g: Seq<i8>, a: int, b: int) -> bool {
    &&& col_of(a) == col_of(b)
    &&& a != b
    &&& occupied_in_col(g, col_of(a), min(row_of(a), row_of(b)), max(row_of(a), row_of(b))) == 0
}

/// A cheap test that the piece kind `k` on `p` could ever reach `sq`: the
/// candidate attackers that a legality check has to look at.
pub open spec fn could_reach(k: int, p: int, sq: int) -> bool {
    let dr = abs(row_of(sq) - row_of(p));
    let dc = abs(col_of(sq) - col_of(p));
    if k == 2 || k == 3 {
        dr == 0 || dc == 0
    } else if k == 6 {
        dr * dc == 2
    } else if k == 4 {
        dr == 2 && dc == 2
    } else if k == 1 {
        dr == 1 && dc == 1
    } else {
        dr + dc == 1
    }
}

/// The move descriptor for `from` to `to`, carrying the code on the end square.
pub open spec fn move_of(from: int, to: int, captured: i8) -> Move {
    Move {
        startx: col_of(from) as i8,
        starty: row_of(from) as i8,
        endx: col_of(to) as i8,
        endy: row_of(to) as i8,
        captured,
        last_capture: 0,
    }
}

/// The moves of the piece on `from` to the squares below `n`, in square order.
pub open spec fn reach_list(g: Seq<i8>, from: int, n: int) -> Seq<Move>
    decreases n,
{
    if n <= 0 {
        Seq::empty()
    } else {
        let prev = reach_list(g, from, n - 1);
        if reaches(g, from, n - 1) {
            prev.push(move_of(from, n - 1, g[n - 1]))
        } else {
            prev
        }
    }
}

/// The moves of the soldier on `from` in the order it tries them: forward,
/// then one file toward column 8, then one file toward column 0.
pub open spec fn soldier_list(g: Seq<i8>, from: int) -> Seq<Move> {
    let r = row_of(from);
    let c = col_of(from);
    let fr = r + forward(owner(g[from]));
    let f = fr * 9 + c;
    let a = if 0 <= fr < 10 && reaches(g, from, f) { seq![move_of(from, f, g[f])] } else { Seq::empty() };
    let b = if c + 1 < 9 && reaches(g, from, from + 1) { seq![move_of(from, from + 1, g[from + 1])] } else { Seq::empty() };
    let d = if c >= 1 && reaches(g, from, from - 1) { seq![move_of(from, from - 1, g[from - 1])] } else { Seq::empty() };
    a + b + d
}

/// The moves of the piece on `from`, in generation order: a soldier's in its
/// own order, any other piece's by end square.
pub open spec fn piece_list(g: Seq<i8>, from: int) -> Seq<Move> {
    if kind(g[from]) == 7 { soldier_list(g, from) } else { reach_list(g, from, 90) }
}

/// The pseudo-legal moves of side `side` from the squares below `n`, square by square.
pub open spec fn pseudo_list(g: Seq<i8>, side: Condition, n: int) -> Seq<Move>
    decreases n,
{
    if n <= 0 {
        Seq::empty()
    } else {
        let prev = pseudo_list(g, side, n - 1);
        if g[n - 1] != 0 && owner(g[n - 1]) == side {
            prev + piece_list(g, n - 1)
        } else {
            prev
        }
    }
}

pub proof fn lemma_reach_list(g: Seq<i8>, from: int, n: int)
    requires
        0 <= from < 90,
        0 <= n <= 90,
    ensures
        reach_list(g, from, n).len() <= n,
        forall|i: int| 0 <= i < reach_list(g, from, n).len() ==> {
            let m = #[trigger] reach_list(g, from, n)[i];
            &&& m.on_board()
            &&& m.from_sq() == from
            &&& 0 <= m.to_sq() < n
            &&& reaches(g, from, m.to_sq())
            &&& m.captured == g[m.to_sq()]
        },
        forall|to: int| 0 <= to < n && reaches(g, from, to) ==> reach_list(g, from, n).contains(
            move_of(from, to, g[to]),
        ),
    decreases n,
{
    if n > 0 {
        lemma_reach_list(g, from, n - 1);
        let prev = reach_list(g, from, n - 1);
        lemma_move_of(from, n - 1, g[n - 1]);
        if reaches(g, from, n - 1) {
            assert(reach_list(g, from, n) == prev.push(move_of(from, n - 1, g[n - 1])));
            assert forall|to: int| 0 <= to < n && reaches(g, from, to) implies reach_list(
                g,
                from,
                n,
            ).contains(move_of(from, to, g[to])) by {
                if to < n - 1 {
                    let j = choose|j: int| 0 <= j < prev.len() && prev[j] == move_of(from, to, g[to]);
                    assert(reach_list(g, from, n)[j] == move_of(from, to, g[to]));
                } else {
                    assert(reach_list(g, from, n)[prev.len() as int] == move_of(from, to, g[to]));
                }
            }
        }
    }
}

pub proof fn lemma_piece_list(g: Seq<i8>, from: int)
    requires
        0 <= from < 90,
    ensures
        piece_list(g, from).len() <= 90,
        forall|i: int| 0 <= i < piece_list(g, from).len() ==> {
            let m = #[trigger] piece_list(g, from)[i];
            &&& m.on_board()
            &&& m.from_sq() == from
            &&& 0 <= m.to_sq() < 90
            &&& reaches(g, from, m.to_sq())
            &&& m.captured == g[m.to_sq()]
        },
        forall|to: int| 0 <= to < 90 && reaches(g, from, to) ==> piece_list(g, from).contains(
            move_of(from, to, g[to]),
        ),
{
    if kind(g[from]) == 7 {
        let r = row_of(from);
        let c = col_of(from);
        let fr = r + forward(owner(g[from]));
        let f = fr * 9 + c;
        let a = if 0 <= fr < 10 && reaches(g, from, f) { seq![move_of(from, f, g[f])] } else { Seq::empty() };
        let b = if c + 1 < 9 && reaches(g, from, from + 1) { seq![move_of(from, from + 1, g[from + 1])] } else { Seq::empty() };
        let d = if c >= 1 && reaches(g, from, from - 1) { seq![move_of(from, from - 1, g[from - 1])] } else { Seq::empty() };
        let s = a + b + d;
        assert(s == soldier_list(g, from));
        if 0 <= fr < 10 {
            lemma_move_of(from, f, g[f]);
        }
        if c + 1 < 9 {
            lemma_move_of(from, from + 1, g[from + 1]);
        }
        if c >= 1 {
            lemma_move_of(from, from - 1, g[from - 1]);
        }
        assert forall|i: int| 0 <= i < s.len() implies {
            let m = #[trigger] s[i];
            &&& m.on_board()
            &&& m.from_sq() == from
            &&& 0 <= m.to_sq() < 90
            &&& reaches(g, from, m.to_sq())
            &&& m.captured == g[m.to_sq()]
        } by {
            if i < a.len() {
                assert(s[i] == a[i]);
            } else if i < a.len() + b.len() {
                assert(s[i] == b[i - a.len()]);
            } else {
                assert(s[i] == d[i - a.len() - b.len()]);
            }
        }
        assert forall|to: int| 0 <= to < 90 && reaches(g, from, to) implies s.contains(move_of(from, to, g[to])) by {
            let dr = row_of(to) - row_of(from);
            let dc = col_of(to) - col_of(from);
            if dc == 0 && dr == forward(owner(g[from])) {
                assert(to == f);
                assert(s[0] == move_of(from, to, g[to]));
            } else if dc == 1 {
                assert(to == from + 1);
                assert(s[a.len() as int] == move_of(from, to, g[to]));
            } else {
                assert(to == from - 1);
                assert(s[(a.len() + b.len()) as int] == move_of(from, to, g[to]));
            }
        }
    } else {
        lemma_reach_list(g, from, 90);
    }
}

/// Appends the moves of the soldier on `from`, in its own order.
pub fn soldier_moves_at(g: &Vec<i8>, from: usize, moves: &mut Vec<Move>)
    requires
        grid_ok(g@),
        from < 90,
    ensures
        final(moves)@ == old(moves)@ + soldier_list(g@, from as int),
{
    let ghost start = moves@;
    let r = from / 9;
    let c = from % 9;
    let red = g[from] > 0;
    let ghost fr = row_of(from as int) + forward(owner(g@[from as int]));
    let ghost f = fr * 9 + c;
    let ghost a = if 0 <= fr < 10 && reaches(g@, from as int, f) { seq![move_of(from as int, f, g@[f])] } else { Seq::<Move>::empty() };
    let ghost b = if c + 1 < 9 && reaches(g@, from as int, from + 1) { seq![move_of(from as int, from + 1, g@[from + 1])] } else { Seq::<Move>::empty() };
    let ghost d = if c >= 1 && reaches(g@, from as int, from - 1) { seq![move_of(from as int, from - 1, g@[from - 1])] } else { Seq::<Move>::empty() };
    let target: Option<usize> = if red { if r >= 1 { Some(from - 9) } else { None } } else if r <= 8 { Some(from + 9) } else { None };
    assert(target is Some <==> 0 <= fr < 10);
    if let Some(t) = target {
        assert(t == f);
        if reaches_exec(g, from, t) {
            moves.push(move_at(g, from, t));
        }
    }
    assert(moves@ =~= start + a);
    if c + 1 < 9 {
        if reaches_exec(g, from, from + 1) {
            moves.push(move_at(g, from, from + 1));
        }
    }
    assert(moves@ =~= start + a + b);
    if c >= 1 {
        if reaches_exec(g, from, from - 1) {
            moves.push(move_at(g, from, from - 1));
        }
    }
    assert(moves@ =~= start + (a + b + d));
}

fn move_at(g: &Vec<i8>, from: usize, to: usize) -> (m: Move)
    requires
        grid_ok(g@),
        from < 90,
        to < 90,
    ensures
        m == move_of(from as int, to as int, g@[to as int]),
{
    Move {
        startx: (from % 9) as i8,
        starty: (from / 9) as i8,
        endx: (to % 9) as i8,
        endy: (to / 9) as i8,
        captured: g[to],
        last_capture: 0,
    }
}

/// The moves of one piece lie on the board.
pub proof fn lemma_reach_on_board(g: Seq<i8>, from: int, n: int)
    requires
        0 <= from < 90,
        0 <= n <= 90,
    ensures
        forall|i: int| 0 <= i < reach_list(g, from, n).len() ==> (#[trigger] reach_list(g, from, n)[i]).on_board(),
    decreases n,
{
    if n > 0 {
        lemma_reach_on_board(g, from, n - 1);
        lemma_move_of(from, n - 1, g[n - 1]);
        let prev = reach_list(g, from, n - 1);
        if reaches(g, from, n - 1) {
            let next = prev.push(move_of(from, n - 1, g[n - 1]));
            assert forall|i: int| 0 <= i < next.len() implies (#[trigger] next[i]).on_board() by {
                if i < prev.len() {
                    assert(next[i] == prev[i]);
                }
            }
        }
    }
}

pub proof fn lemma_move_of(from: int, to: int, c: i8)
    requires
        0 <= from < 90,
        0 <= to < 90,
    ensures
        move_of(from, to, c).on_board(),
        move_of(from, to, c).from_sq() == from,
        move_of(from, to, c).to_sq() == to,
        move_of(from, to, c).captured == c,
        !move_of(from, to, c).spec_is_null(),
{
}

pub proof fn lemma_pseudo_list(g: Seq<i8>, side: Condition, n: int)
    requires
        0 <= n <= 90,
    ensures
        pseudo_list(g, side, n).len() <= 90 * n,
        forall|i: int| 0 <= i < pseudo_list(g, side, n).len() ==> {
            let m = #[trigger] pseudo_list(g, side, n)[i];
            &&& m.on_board()
            &&& 0 <= m.from_sq() < n
            &&& owner(g[m.from_sq()]) == side
            &&& reaches(g, m.from_sq(), m.to_sq())
            &&& m.captured == g[m.to_sq()]
        },
        forall|from: int, to: int|
            0 <= from < n && owner(g[from]) == side && #[trigger] reaches(g, from, to)
                ==> pseudo_list(g, side, n).contains(move_of(from, to, g[to])),
{
    lemma_pseudo_elements(g, side, n);
    lemma_pseudo_complete(g, side, n);
}

proof fn lemma_pseudo_elements(g: Seq<i8>, side: Condition, n: int)
    requires
        0 <= n <= 90,
    ensures
        pseudo_list(g, side, n).len() <= 90 * n,
        forall|i: int| 0 <= i < pseudo_list(g, side, n).len() ==> {
            let m = #[trigger] pseudo_list(g, side, n)[i];
            &&& m.on_board()
            &&& 0 <= m.from_sq() < n
            &&& owner(g[m.from_sq()]) == side
            &&& reaches(g, m.from_sq(), m.to_sq())
            &&& m.captured == g[m.to_sq()]
        },
    decreases n,
{
    if n > 0 {
        lemma_pseudo_elements(g, side, n - 1);
        let prev = pseudo_list(g, side, n - 1);
        if g[n - 1] != 0 && owner(g[n - 1]) == side {
            lemma_piece_list(g, n - 1);
            let r = piece_list(g, n - 1);
            let all = prev + r;
            assert(pseudo_list(g, side, n) == all);
            assert forall|i: int| 0 <= i < all.len() implies {
                let m = #[trigger] all[i];
                &&& m.on_board()
                &&& 0 <= m.from_sq() < n
                &&& owner(g[m.from_sq()]) == side
                &&& reaches(g, m.from_sq(), m.to_sq())
                &&& m.captured == g[m.to_sq()]
            } by {
                if i >= prev.len() {
                    assert(all[i] == r[i - prev.len()]);
                } else {
                    assert(all[i] == prev[i]);
                }
            }
        }
    }
}

proof fn lemma_pseudo_complete(g: Seq<i8>, side: Condition, n: int)
    requires
        0 <= n <= 90,
    ensures
        forall|from: int, to: int|
            0 <= from < n && owner(g[from]) == side && #[trigger] reaches(g, from, to)
                ==> pseudo_list(g, side, n).contains(move_of(from, to, g[to])),
    decreases n,
{
    if n > 0 {
        lemma_pseudo_complete(g, side, n - 1);
        let prev = pseudo_list(g, side, n - 1);
        if g[n - 1] != 0 && owner(g[n - 1]) == side {
            lemma_piece_list(g, n - 1);
            let r = piece_list(g, n - 1);
            let all = prev + r;
            assert(pseudo_list(g, side, n) == all);
            assert forall|from: int, to: int|
                0 <= from < n && owner(g[from]) == side && #[trigger] reaches(g, from, to)
                    implies all.contains(move_of(from, to, g[to])) by {
                if from < n - 1 {
                    assert(prev.contains(move_of(from, to, g[to])));
                    let j = choose|j: int| 0 <= j < prev.len() && prev[j] == move_of(from, to, g[to]);
                    assert(all[j] == move_of(from, to, g[to]));
                } else {
                    assert(r.contains(move_of(from, to, g[to])));
                    let j = choose|j: int| 0 <= j < r.len() && r[j] == move_of(from, to, g[to]);
                    assert(all[prev.len() + j] == move_of(from, to, g[to]));
                }
            }
        } else {
            assert forall|from: int, to: int|
                0 <= from < n && owner(g[from]) == side && #[trigger] reaches(g, from, to)
                    implies prev.contains(move_of(from, to, g[to])) by {
                if from == n - 1 {
                    assert(g[from] != 0);
                }
            }
        }
    }
}

/// Any piece that reaches a square is one of its candidate attackers.
pub proof fn lemma_reach_is_candidate(g: Seq<i8>, p: int, sq: int)
    requires
        grid_ok(g),
        reaches(g, p, sq),
    ensures
        could_reach(kind(g[p]), p, sq),
{
    let dr = row_of(sq) - row_of(p);
    let dc = col_of(sq) - col_of(p);
    if kind(g[p]) == 6 {
        assert(abs(dr) * abs(dc) == 2) by (nonlinear_arith)
            requires
                (abs(dr) == 2 && abs(dc) == 1) || (abs(dr) == 1 && abs(dc) == 2),
        ;
    }
}

/// Counts the occupied squares strictly between two squares of one line.
pub fn count_between(g: &Vec<i8>, a: usize, b: usize) -> (n: usize)
    requires
        grid_ok(g@),
        a < 90,
        b < 90,
        on_line(a as int, b as int),
    ensures
        n == between(g@, a as int, b as int),
        n <= 9,
{
    let (ra, ca, rb, cb) = (a / 9, a % 9, b / 9, b % 9);
    let mut n: usize = 0;
    if ra == rb {
        let (lo, hi) = if ca < cb { (ca, cb) } else { (cb, ca) };
        let mut c = lo + 1;
        while c < hi
            invariant
                lo < hi <= 8,
                lo + 1 <= c <= hi,
                n <= c,
                n == occupied_in_row(g@, ra as int, lo as int, c as int),
                ra < 10,
                grid_ok(g@),
            decreases hi - c,
        {
            if g[ra * 9 + c] != 0 {
                n = n + 1;
            }
            c = c + 1;
        }
    } else {
        let (lo, hi) = if ra < rb { (ra, rb) } else { (rb, ra) };
        let mut r = lo + 1;
        while r < hi
            invariant
                lo < hi <= 9,
                lo + 1 <= r <= hi,
                n <= r,
                n == occupied_in_col(g@, ca as int, lo as int, r as int),
                ca < 9,
                ca == cb,
                grid_ok(g@),
            decreases hi - r,
        {
            if g[r * 9 + ca] != 0 {
                n = n + 1;
            }
            r = r + 1;
        }
    }
    n
}

/// The side a piece code belongs to.
pub fn side_of_code(v: i8) -> (r: Condition)
    ensures
        r == owner(v),
{
    if v > 0 {
        Condition::RED
    } else if v < 0 {
        Condition::BLACK
    } else {
        Condition::NONE
    }
}

/// Decides whether the piece on `from` may move to `to` on grid `g`.
pub fn reaches_exec(g: &Vec<i8>, from: usize, to: usize) -> (r: bool)
    requires
        grid_ok(g@),
        from < 90,
        to < 90,
    ensures
        r == reaches(g@, from as int, to as int),
{
    let v = g[from];
    if v == 0 {
        return false;
    }
    let side = side_of_code(v);
    if side_of_code(g[to]) == side {
        return false;
    }
    let k: i8 = if v < 0 { -v } else { v };
    let fr = (from / 9) as i32;
    let fc = (from % 9) as i32;
    let tr = (to / 9) as i32;
    let tc = (to % 9) as i32;
    let dr = tr - fr;
    let dc = tc - fc;
    let adr = if dr < 0 { -dr } else { dr };
    let adc = if dc < 0 { -dc } else { dc };
    let red = side == Condition::RED;
    if k == 7 {
        let fwd: i32 = if red { -1 } else { 1 };
        let over = (red && fr <= 4) || (!red && fr >= 5);
        (dc == 0 && dr == fwd) || (dr == 0 && adc == 1 && over)
    } else if k == 3 || k == 2 {
        if from == to || (fr != tr && fc != tc) {
            return false;
        }
        let n = count_between(g, from, to);
        if k == 3 || g[to] == 0 {
            n == 0
        } else {
            n == 1
        }
    } else if k == 6 {
        if !((adr == 2 && adc == 1) || (adr == 1 && adc == 2)) {
            return false;
        }
        let leg = if adr == 2 {
            ((fr + dr / 2) * 9 + fc) as usize
        } else {
            (fr * 9 + fc + dc / 2) as usize
        };
        g[leg] == 0
    } else if k == 4 {
        if !(adr == 2 && adc == 2) {
            return false;
        }
        let half = if red { 5 <= tr && tr <= 9 } else { 0 <= tr && tr <= 4 };
        half && g[(from + to) / 2] == 0
    } else if k == 1 {
        adr == 1 && adc == 1 && 3 <= tc && tc <= 5 && (if red { 7 <= tr } else { tr <= 2 })
    } else {
        adr + adc == 1 && 3 <= tc && tc <= 5 && (if red { 7 <= tr } else { tr <= 2 })
    }
}

/// Appends the moves of the piece on `from`, in the order of their end squares.
pub fn piece_moves(g: &Vec<i8>, from: usize, moves: &mut Vec<Move>)
    requires
        grid_ok(g@),
        from < 90,
    ensures
        final(moves)@ == old(moves)@ + reach_list(g@, from as int, 90),
{
    let mut to: usize = 0;
    while to < 90
        invariant
            grid_ok(g@),
            from < 90,
            to <= 90,
            moves@ == old(moves)@ + reach_list(g@, from as int, to as int),
        decreases 90 - to,
    {
        if reaches_exec(g, from, to) {
            let m = Move {
                startx: (from % 9) as i8,
                starty: (from / 9) as i8,
                endx: (to % 9) as i8,
                endy: (to / 9) as i8,
                captured: g[to],
                last_capture: 0,
            };
            assert(m == move_of(from as int, to as int, g@[to as int]));
            moves.push(m);
            assert(moves@ =~= old(moves)@ + reach_list(g@, from as int, to + 1));
        } else {
            assert(reach_list(g@, from as int, to + 1) == reach_list(g@, from as int, to as int));
        }
        to = to + 1;
    }
}

/// All pseudo-legal moves of side `side`, square by square.
pub fn side_moves(g: &Vec<i8>, side: Condition) -> (r: Vec<Move>)
    requires
        grid_ok(g@),
    ensures
        r@ == pseudo_list(g@, side, 90),
{
    let mut moves: Vec<Move> = Vec::new();
    let mut sq: usize = 0;
    while sq < 90
        invariant
            grid_ok(g@),
            sq <= 90,
            moves@ == pseudo_list(g@, side, sq as int),
        decreases 90 - sq,
    {
        let v = g[sq];
        if v != 0 && side_of_code(v) == side {
            if v == 7 || v == -7 {
                soldier_moves_at(g, sq, &mut moves);
            } else {
                piece_moves(g, sq, &mut moves);
            }
        }
        sq = sq + 1;
    }
    moves
}

/// Collects the squares of side `by` whose pieces could reach `sq` by their
/// kind's geometry alone.
pub fn candidates(g: &Vec<i8>, sq: usize, by: Condition) -> (r: Vec<usize>)
    requires
        grid_ok(g@),
        sq < 90,
    ensures
        forall|i: int| 0 <= i < r@.len() ==> r@[i] < 90,
        forall|p: int|
            0 <= p < 90 && owner(g@[p]) == by && g@[p] != 0 && could_reach(kind(g@[p]), p, sq as int)
                ==> r@.contains(p as usize),
{
    let mut out: Vec<usize> = Vec::new();
    let mut p: usize = 0;
    let sr = (sq / 9) as i32;
    let sc = (sq % 9) as i32;
    while p < 90
        invariant
            grid_ok(g@),
            sq < 90,
            p <= 90,
            sr == sq as int / 9,
            sc == sq as int % 9,
            forall|i: int| 0 <= i < out@.len() ==> out@[i] < 90,
            forall|q: int|
                0 <= q < p && owner(g@[q]) == by && g@[q] != 0 && could_reach(kind(g@[q]), q, sq as int)
                    ==> out@.contains(q as usize),
        decreases 90 - p,
    {
        let v = g[p];
        if v != 0 && side_of_code(v) == by {
            let k: i8 = if v < 0 { -v } else { v };
            let dr0 = (p / 9) as i32 - sr;
            let dc0 = (p % 9) as i32 - sc;
            let dr = if dr0 < 0 { -dr0 } else { dr0 };
            let dc = if dc0 < 0 { -dc0 } else { dc0 };
            assert(0 <= dr <= 9 && 0 <= dc <= 8);
            assert(dr * dc <= 72) by (nonlinear_arith)
                requires
                    0 <= dr <= 9,
                    0 <= dc <= 8,
            ;
            let hit = if k == 2 || k == 3 {
                dr == 0 || dc == 0
            } else if k == 6 {
                dr * dc == 2
            } else if k == 4 {
                dr == 2 && dc == 2
            } else if k == 1 {
                dr == 1 && dc == 1
            } else {
                dr + dc == 1
            };
            let ghost prev = out@;
            if hit {
                out.push(p);
                assert(out@[out@.len() - 1] == p);
                assert forall|q: int| #[trigger] prev.contains(q as usize) implies out@.contains(q as usize) by {
                    let j = choose|j: int| 0 <= j < prev.len() && prev[j] == q as usize;
                    assert(out@[j] == q as usize);
                }
            }
        }
        p = p + 1;
    }
    out
}

/// Decides whether `sq` is attacked by side `by`, looking only at the given
/// candidate squares, which must hold every candidate attacker.
pub fn attacked_from(g: &Vec<i8>, sq: usize, by: Condition, cands: &Vec<usize>) -> (r: bool)
    requires
        grid_ok(g@),
        sq < 90,
        forall|i: int| 0 <= i < cands@.len() ==> cands@[i] < 90,
        forall|p: int|
            0 <= p < 90 && owner(g@[p]) == by && g@[p] != 0 && could_reach(kind(g@[p]), p, sq as int)
                ==> cands@.contains(p as usize),
    ensures
        r == attacked(g@, sq as int, by),
{
    let mut i: usize = 0;
    while i < cands.len()
        invariant
            grid_ok(g@),
            sq < 90,
            forall|j: int| 0 <= j < cands@.len() ==> cands@[j] < 90,
            forall|j: int| 0 <= j < i ==> !(owner(g@[cands@[j] as int]) == by && reaches(g@, cands@[j] as int, sq as int)),
        decreases cands.len() - i,
    {
        let p = cands[i];
        if side_of_code(g[p]) == by && reaches_exec(g, p, sq) {
            return true;
        }
        i = i + 1;
    }
    proof {
        assert forall|p: int| 0 <= p < 90 && owner(g@[p]) == by implies !reaches(g@, p, sq as int) by {
            if reaches(g@, p, sq as int) {
                lemma_reach_is_candidate(g@, p, sq as int);
                let j = choose|j: int| 0 <= j < cands@.len() && cands@[j] == p as usize;
            }
        }
    }
    false
}

/// Decides whether two generals on `a` and `b` face each other.
pub fn facing_exec(g: &Vec<i8>, a: usize, b: usize) -> (r: bool)
    requires
        grid_ok(g@),
        a < 90,
        b < 90,
    ensures
        r == facing(g@, a as int, b as int),
{
    if a % 9 != b % 9 || a == b {
        return false;
    }
    count_between(g, a, b) == 0
}

/// A soldier steps sideways exactly when it stands across the river: on rows
/// 0 to 4 for Red, 5 to 9 for Black.
pub proof fn lemma_soldier_sideways(g: Seq<i8>, from: int, to: int)
    requires
        grid_ok(g),
        0 <= from < 90,
        0 <= to < 90,
        kind(g[from]) == 7,
        row_of(to) == row_of(from),
        abs(col_of(to) - col_of(from)) == 1,
        owner(g[to]) != owner(g[from]),
    ensures
        reaches(g, from, to) <==> crossed(owner(g[from]), row_of(from)),
{
}

/// A horse whose leg square is occupied cannot jump.
pub proof fn lemma_horse_blocked(g: Seq<i8>, from: int, to: int)
    requires
        0 <= from < 90,
        kind(g[from]) == 6,
        g[horse_leg(from, to)] != 0,
    ensures
        !reaches(g, from, to),
{
}

/// An elephant whose midpoint is occupied cannot move.
pub proof fn lemma_elephant_blocked(g: Seq<i8>, from: int, to: int)
    requires
        0 <= from < 90,
        kind(g[from]) == 4,
        g[(from + to) / 2] != 0,
    ensures
        !reaches(g, from, to),
{
}

/// A cannon captures along a line exactly when one piece screens the target:
/// none, or two or more, forbid the capture.
pub proof fn lemma_cannon_capture(g: Seq<i8>, from: int, to: int)
    requires
        0 <= from < 90,
        0 <= to < 90,
        kind(g[from]) == 2,
        g[to] != 0,
        owner(g[to]) != owner(g[from]),
    ensures
        reaches(g, from, to) <==> (on_line(from, to) && between(g, from, to) == 1),
{
}

/// Move `m` heads in direction (`drow`, `dcol`): for a slider the signs of
/// its row and column steps, for a horse its exact jump; (0, 0) admits every
/// move.
pub open spec fn heads(m: Move, drow: int, dcol: int, exact: bool) -> bool {
    let dr = m.endy - m.starty;
    let dc = m.endx - m.startx;
    if drow == 0 && dcol == 0 {
        true
    } else if exact {
        dr == drow && dc == dcol
    } else {
        sign(dr) == drow && sign(dc) == dcol
    }
}

pub open spec fn sign(x: int) -> int {
    if x > 0 { 1 } else if x < 0 { -1 } else { 0 }
}

/// The moves of `s` that head in direction (`drow`, `dcol`), in order.
pub open spec fn heading(s: Seq<Move>, drow: int, dcol: int, exact: bool) -> Seq<Move>
    decreases s.len(),
{
    if s.len() == 0 {
        s
    } else {
        let prev = heading(s.drop_last(), drow, dcol, exact);
        if heads(s.last(), drow, dcol, exact) { prev.push(s.last()) } else { prev }
    }
}

/// Appends the moves of the piece on `from` that head in direction
/// (`drow`, `dcol`).
fn heads_exec(m: &Move, drow: i8, dcol: i8, exact: bool) -> (r: bool)
    requires
        m.on_board(),
    ensures
        r == heads(*m, drow as int, dcol as int, exact),
{
    let dr: i8 = m.endy - m.starty;
    let dc: i8 = m.endx - m.startx;
    let sr: i8 = if dr > 0 { 1 } else if dr < 0 { -1 } else { 0 };
    let sc: i8 = if dc > 0 { 1 } else if dc < 0 { -1 } else { 0 };
    if drow == 0 && dcol == 0 {
        true
    } else if exact {
        dr == drow && dc == dcol
    } else {
        sr == drow && sc == dcol
    }
}

pub fn piece_moves_toward(g: &Vec<i8>, from: usize, moves: &mut Vec<Move>, drow: i8, dcol: i8, exact: bool)
    requires
        grid_ok(g@),
        from < 90,
    ensures
        final(moves)@ == old(moves)@ + heading(reach_list(g@, from as int, 90), drow as int, dcol as int, exact),
{
    let mut all: Vec<Move> = Vec::new();
    piece_moves(g, from, &mut all);
    assert(all@ =~= reach_list(g@, from as int, 90));
    proof {
        lemma_reach_on_board(g@, from as int, 90);
    }
    let ghost start = moves@;
    let mut i: usize = 0;
    while i < all.len()
        invariant
            i <= all@.len(),
            all@ == reach_list(g@, from as int, 90),
            forall|q: int| 0 <= q < all@.len() ==> (#[trigger] all@[q]).on_board(),
            moves@ == start + heading(all@.subrange(0, i as int), drow as int, dcol as int, exact),
        decreases all.len() - i,
    {
        let m = all[i];
        let keep = heads_exec(&m, drow, dcol, exact);
        let ghost prev_h = heading(all@.subrange(0, i as int), drow as int, dcol as int, exact);
        proof {
            let t = all@.subrange(0, i + 1);
            assert(t.drop_last() =~= all@.subrange(0, i as int));
            assert(t.last() == m);
            assert(heading(t, drow as int, dcol as int, exact) == if keep { prev_h.push(m) } else { prev_h });
        }
        if keep {
            moves.push(m);
            assert(moves@ =~= start + prev_h.push(m));
        }
        i = i + 1;
    }
    assert(all@.subrange(0, all@.len() as int) =~= all@);
}

/// With no direction every move is kept.
pub proof fn lemma_heading_all(s: Seq<Move>)
    ensures
        heading(s, 0, 0, false) == s,
        heading(s, 0, 0, true) == s,
    decreases s.len(),
{
    if s.len() > 0 {
        lemma_heading_all(s.drop_last());
        assert(s.drop_last().push(s.last()) =~= s);
    }
}

} // verus!
