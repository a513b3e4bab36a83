//! Tapered evaluation: piece-square accumulators, mobility and tempo,
//! interpolated by a game-phase coefficient.
use vstd::prelude::*;
use vstd::string::StringExecFns;
use crate::board::{Board, BoardView};
use crate::condition::{Condition, opponent};
use crate::chess_move::Move;
use crate::rules::{kind, lemma_piece_list, owner, piece_list, reach_list};

verus! {

/// Base value of each piece kind, advisor to soldier, used to fill the
/// default piece-square tables.
pub open spec fn base_piece_score(k: int) -> i32 {
    seq![20i32, 50, 100, 20, 10, 35, 10][k]
}

/// A piece-square table in nested form, `[kind - 1][row][col]`, with values
/// within `bound`.
pub open spec fn nested_table_ok(t: Seq<Vec<Vec<i32>>>, bound: int) -> bool {
    &&& t.len() == 7
    &&& forall|k: int| 0 <= k < 7 ==> #[trigger] t[k]@.len() == 10
    &&& forall|k: int, r: int| 0 <= k < 7 && 0 <= r < 10 ==> #[trigger] t[k]@[r]@.len() == 9
    &&& forall|k: int, r: int, c: int|
        0 <= k < 7 && 0 <= r < 10 && 0 <= c < 9 ==> -bound <= #[trigger] t[k]@[r]@[c] <= bound
}

/// Phase weight of each piece code's kind: soldier 0, advisor 1, elephant 1,
/// cannon 3, horse 3, chariot 4, general 0.
pub open spec fn phase_weight(k: int) -> int {
    seq![0int, 1, 3, 4, 1, 0, 3, 0][k]
}

/// Bound on the magnitude of a mobility weight.
pub const MOBILITY_BOUND: i32 = 1000;

/// Bound on the magnitude of the tempo bonus.
pub const TEMPO_BOUND: i32 = 100_000;

/// Bound on the magnitude of an evaluation.
pub const EVAL_BOUND: i32 = 400_000_000;

/// The phase weight of a full board: four each of horses, chariots,
/// elephants, advisors and cannons.
pub const TOTAL_PHASE: i32 = 48;

/// Division rounding toward zero, as the machine divides.
pub open spec fn trunc_div(a: int, b: int) -> int {
    if a >= 0 { a / b } else { -((-a) / b) }
}

/// The kinds whose mobility counts: cannon, chariot, horse, soldier.
pub open spec fn is_mobile(k: int) -> bool {
    k == 2 || k == 3 || k == 6 || k == 7
}

/// The move count at which a kind's mobility is neutral.
pub open spec fn mobility_offset(k: int) -> int {
    if k == 7 { 0 } else if k == 6 { 2 } else { 7 }
}

/// The mobility term of the piece on `sq`, by weights `w`, for side `side`.
pub open spec fn mobility_term(w: Seq<i32>, g: Seq<i8>, side: Condition, sq: int) -> int {
    let v = g[sq];
    let k = kind(v);
    if v != 0 && is_mobile(k) {
        let t = w[k - 1] * (piece_list(g, sq).len() - mobility_offset(k));
        if owner(v) == side { t } else { -t }
    } else {
        0
    }
}

/// The sum of the mobility terms of the squares below `n`.
pub open spec fn mobility_sum(w: Seq<i32>, g: Seq<i8>, side: Condition, n: int) -> int
    decreases n,
{
    if n <= 0 { 0 } else { mobility_sum(w, g, side, n - 1) + mobility_term(w, g, side, n - 1) }
}

/// The phase weight of the pieces on the squares below `n`.
pub open spec fn material_phase(g: Seq<i8>, n: int) -> int
    decreases n,
{
    if n <= 0 { 0 } else { material_phase(g, n - 1) + phase_weight(kind(g[n - 1])) }
}

/// The game phase: 0 with all pieces on the board, 256 with none left.
pub open spec fn game_phase(g: Seq<i8>) -> int {
    trunc_div((TOTAL_PHASE - material_phase(g, 90)) * 256 + TOTAL_PHASE / 2, TOTAL_PHASE as int)
}

/// The evaluation of position `v` by evaluator `e`, from the side to move.
pub open spec fn evaluation(e: Eval, v: BoardView) -> int {
    let side = v.player;
    let red = side == Condition::RED;
    let mg = (if red { v.mg_red - v.mg_black } else { v.mg_black - v.mg_red })
        + mobility_sum(e.mobility_mg@, v.grid, side, 90) + e.tempo_score;
    let eg = (if red { v.eg_red - v.eg_black } else { v.eg_black - v.eg_red })
        + mobility_sum(e.mobility_eg@, v.grid, side, 90);
    let phase = game_phase(v.grid);
    trunc_div(mg * (256 - phase) + eg * phase, 256)
}

proof fn lemma_mobility_sum_bound(w: Seq<i32>, g: Seq<i8>, side: Condition, n: int)
    requires
        w.len() == 7,
        forall|k: int| 0 <= k < 7 ==> -MOBILITY_BOUND <= #[trigger] w[k] <= MOBILITY_BOUND,
        crate::rules::grid_ok(g),
        0 <= n <= 90,
    ensures
        -n * 90_000 <= mobility_sum(w, g, side, n) <= n * 90_000,
    decreases n,
{
    if n > 0 {
        lemma_mobility_sum_bound(w, g, side, n - 1);
        let sq = n - 1;
        let v = g[sq];
        let k = kind(v);
        if v != 0 && is_mobile(k) {
            lemma_piece_list(g, sq);
            let c = piece_list(g, sq).len() - mobility_offset(k);
            let x = w[k - 1] as int;
            assert(-7 <= c <= 90);
            assert(-90_000 <= x * c <= 90_000) by (nonlinear_arith)
                requires
                    -7 <= c <= 90,
                    -1000 <= x <= 1000,
            ;
        }
    }
}

proof fn lemma_material_phase_bound(g: Seq<i8>, n: int)
    requires
        crate::rules::grid_ok(g),
        0 <= n <= 90,
    ensures
        0 <= material_phase(g, n) <= 4 * n,
    decreases n,
{
    if n > 0 {
        lemma_material_phase_bound(g, n - 1);
    }
}

/// Bound on the magnitude of a table value that `display_pst` shows.
pub const PST_LIMIT: i32 = 1_000_000_000;

/// The evaluator's tunable terms: a tempo bonus and per-kind mobility weights.
pub struct Eval {
    pub tempo_score: i32,
    pub mobility_mg: [i32; 7],
    pub mobility_eg: [i32; 7],
}

impl Eval {
    const BASE_PIECE_SCORE: [i32; 7] = [20, 50, 100, 20, 10, 35, 10];

    /// Weights within their bounds.
    pub open spec fn wf(&self) -> bool {
        &&& -TEMPO_BOUND <= self.tempo_score <= TEMPO_BOUND
        &&& forall|k: int| 0 <= k < 7 ==> -MOBILITY_BOUND <= #[trigger] self.mobility_mg@[k] <= MOBILITY_BOUND
        &&& forall|k: int| 0 <= k < 7 ==> -MOBILITY_BOUND <= #[trigger] self.mobility_eg@[k] <= MOBILITY_BOUND
    }

    pub fn new() -> (r: Self)
        ensures
            r.wf(),
            r.tempo_score == 0,
            forall|k: int| 0 <= k < 7 ==> r.mobility_mg@[k] == 0 && r.mobility_eg@[k] == 0,
    {
        Self { tempo_score: 0, mobility_mg: [0;7], mobility_eg: [0;7] }
    }

    /// The tapered evaluation of `board` from the side to move.
    pub fn evaluate(&self, board: &Board) -> (r: i32)
        requires
            self.wf(),
            board.inv(),
        ensures
            r == evaluation(*self, board@),
            -EVAL_BOUND <= r <= EVAL_BOUND,
    {
        let ghost v = board@;
        proof {
            board.lemma_inv();
        }
        let side = board.player();
        let other = side.inverse();
        proof {
            crate::board::lemma_accumulated_bound(v.mg_table, v.grid, Condition::RED, 90);
            crate::board::lemma_accumulated_bound(v.mg_table, v.grid, Condition::BLACK, 90);
            crate::board::lemma_accumulated_bound(v.eg_table, v.grid, Condition::RED, 90);
            crate::board::lemma_accumulated_bound(v.eg_table, v.grid, Condition::BLACK, 90);
        }
        let mut mg: i64 = board.score_mg(side) as i64 - board.score_mg(other) as i64;
        let mut eg: i64 = board.score_eg(side) as i64 - board.score_eg(other) as i64;
        let ghost mg0 = mg as int;
        let ghost eg0 = eg as int;
        let mut sq: usize = 0;
        while sq < 90
            invariant
                sq <= 90,
                board.inv(),
                board@ == v,
                self.wf(),
                side == v.player,
                -18_000_000 <= mg0 <= 18_000_000,
                -18_000_000 <= eg0 <= 18_000_000,
                mg == mg0 + mobility_sum(self.mobility_mg@, v.grid, side, sq as int),
                v.wf(),
                eg == eg0 + mobility_sum(self.mobility_eg@, v.grid, side, sq as int),
            decreases 90 - sq,
        {
            proof {
                lemma_mobility_sum_bound(self.mobility_mg@, v.grid, side, sq as int);
                lemma_mobility_sum_bound(self.mobility_eg@, v.grid, side, sq as int);
                lemma_mobility_sum_bound(self.mobility_mg@, v.grid, side, sq + 1);
                lemma_mobility_sum_bound(self.mobility_eg@, v.grid, side, sq + 1);
            }
            let piece = board.cell(sq);
            let k: i8 = if piece < 0 { -piece } else { piece };
            if piece != 0 && (k == 2 || k == 3 || k == 6 || k == 7) {
                let row = (sq / 9) as i8;
                let col = (sq % 9) as i8;
                let mut moves: Vec<Move> = Vec::new();
                if k == 7 {
                    board.soldier_moves(row, col, &mut moves);
                } else if k == 2 {
                    board.cannon_moves(row, col, &mut moves, 0, 0);
                } else if k == 3 {
                    board.chariot_moves(row, col, &mut moves, 0, 0);
                } else {
                    board.horse_moves(row, col, &mut moves, 0, 0);
                }
                proof {
                    crate::rules::lemma_heading_all(reach_list(v.grid, sq as int, 90));
                }
                assert(moves@ =~= piece_list(v.grid, sq as int));
                proof {
                    lemma_piece_list(v.grid, sq as int);
                }
                let offset: i64 = if k == 7 { 0 } else if k == 6 { 2 } else { 7 };
                let count = moves.len() as i64 - offset;
                let wm = self.mobility_mg[(k - 1) as usize] as i64;
                let we = self.mobility_eg[(k - 1) as usize] as i64;
                assert(-90_000 <= wm * count <= 90_000) by (nonlinear_arith)
                    requires
                        -7 <= count <= 90,
                        -1000 <= wm <= 1000,
                ;
                assert(-90_000 <= we * count <= 90_000) by (nonlinear_arith)
                    requires
                        -7 <= count <= 90,
                        -1000 <= we <= 1000,
                ;
                if (piece > 0) == (side == Condition::RED) {
                    mg = mg + wm * count;
                    eg = eg + we * count;
                } else {
                    mg = mg - wm * count;
                    eg = eg - we * count;
                }
            }
            sq = sq + 1;
        }
        proof {
            lemma_mobility_sum_bound(self.mobility_mg@, v.grid, side, 90);
            lemma_mobility_sum_bound(self.mobility_eg@, v.grid, side, 90);
        }
        mg = mg + self.tempo_score as i64;
        let mut material: i64 = 0;
        let mut i: usize = 0;
        while i < 90
            invariant
                i <= 90,
                board.inv(),
                board@ == v,
                material == material_phase(v.grid, i as int),
                v.wf(),
            decreases 90 - i,
        {
            proof {
                lemma_material_phase_bound(v.grid, i as int);
            }
            let piece = board.cell(i);
            let k: i8 = if piece < 0 { -piece } else { piece };
            let w: i64 = if k == 1 || k == 4 { 1 } else if k == 2 || k == 6 { 3 } else if k == 3 { 4 } else { 0 };
            assert(w == phase_weight(kind(v.grid[i as int])));
            material = material + w;
            i = i + 1;
        }
        proof {
            lemma_material_phase_bound(v.grid, 90);
            lemma_mobility_sum_bound(self.mobility_mg@, v.grid, side, 90);
            lemma_mobility_sum_bound(self.mobility_eg@, v.grid, side, 90);
        }
        let total = TOTAL_PHASE as i64;
        let num = (total - material) * 256 + total / 2;
        let phase: i64 = if num >= 0 { num / total } else { -((-num) / total) };
        assert(-1664 <= phase <= 256);
        assert(-26_200_000 <= mg <= 26_200_000);
        assert(-26_200_000 <= eg <= 26_200_000);
        let a = 256 - phase;
        assert(-26_200_000 * 1920 <= mg * a <= 26_200_000 * 1920) by (nonlinear_arith)
            requires
                -26_200_000 <= mg <= 26_200_000,
                0 <= a <= 1920,
        ;
        assert(-26_200_000 * 1664 <= eg * phase <= 26_200_000 * 1664) by (nonlinear_arith)
            requires
                -26_200_000 <= eg <= 26_200_000,
                -1664 <= phase <= 256,
        ;
        let total_score = mg * a + eg * phase;
        let r: i64 = if total_score >= 0 { total_score / 256 } else { -((-total_score) / 256) };
        r as i32
    }

    /// The default middlegame and endgame tables: every square of a kind holds
    /// its base value.
    pub fn create_pst() -> (r: (Vec<Vec<Vec<i32>>>, Vec<Vec<Vec<i32>>>))
        ensures
            nested_table_ok(r.0@, 100),
            nested_table_ok(r.1@, 100),
            forall|k: int, row: int, col: int|
                0 <= k < 7 && 0 <= row < 10 && 0 <= col < 9 ==> #[trigger] r.0@[k]@[row]@[col]
                    == base_piece_score(k) && r.1@[k]@[row]@[col] == base_piece_score(k),
    {
        let mg = Self::filled_table();
        let eg = Self::filled_table();
        (mg, eg)
    }

    fn filled_table() -> (t: Vec<Vec<Vec<i32>>>)
        ensures
            nested_table_ok(t@, 100),
            forall|k: int, row: int, col: int|
                0 <= k < 7 && 0 <= row < 10 && 0 <= col < 9 ==> #[trigger] t@[k]@[row]@[col]
                    == base_piece_score(k),
    {
        let base = Self::BASE_PIECE_SCORE;
        assert(base@ =~= seq![20i32, 50, 100, 20, 10, 35, 10]);
        let mut t: Vec<Vec<Vec<i32>>> = Vec::new();
        let mut k: usize = 0;
        while k < 7
            invariant
                k <= 7,
                base@ == seq![20i32, 50, 100, 20, 10, 35, 10],
                t@.len() == k,
                forall|j: int| 0 <= j < k ==> #[trigger] t@[j]@.len() == 10,
                forall|j: int, r: int| 0 <= j < k && 0 <= r < 10 ==> #[trigger] t@[j]@[r]@.len() == 9,
                forall|j: int, r: int, c: int|
                    0 <= j < k && 0 <= r < 10 && 0 <= c < 9 ==> #[trigger] t@[j]@[r]@[c]
                        == base_piece_score(j),
            decreases 7 - k,
        {
            let val = base[k];
            let mut plane: Vec<Vec<i32>> = Vec::new();
            let mut r: usize = 0;
            while r < 10
                invariant
                    r <= 10,
                    plane@.len() == r,
                    forall|q: int| 0 <= q < r ==> #[trigger] plane@[q]@.len() == 9,
                    forall|q: int, c: int| 0 <= q < r && 0 <= c < 9 ==> #[trigger] plane@[q]@[c] == val,
                decreases 10 - r,
            {
                let mut line: Vec<i32> = Vec::new();
                let mut c: usize = 0;
                while c < 9
                    invariant
                        c <= 9,
                        line@.len() == c,
                        forall|q: int| 0 <= q < c ==> #[trigger] line@[q] == val,
                    decreases 9 - c,
                {
                    line.push(val);
                    c = c + 1;
                }
                plane.push(line);
                r = r + 1;
            }
            t.push(plane);
            k = k + 1;
        }
        t
    }
}

/// The character of a decimal digit.
pub open spec fn digit_char(d: int) -> char {
    seq!['0', '1', '2', '3', '4', '5', '6', '7', '8', '9'][d]
}

/// The decimal form of a natural number.
pub open spec fn decimal_nat(n: nat) -> Seq<char>
    decreases n,
{
    if n < 10 {
        seq![digit_char(n as int)]
    } else {
        decimal_nat(n / 10) + seq![digit_char((n % 10) as int)]
    }
}

/// The decimal form of an integer, with a minus sign when negative.
pub open spec fn decimal(i: int) -> Seq<char> {
    if i < 0 { seq!['-'] + decimal_nat((-i) as nat) } else { decimal_nat(i as nat) }
}

/// The name shown over each piece kind's table.
pub open spec fn table_title(k: int) -> Seq<char> {
    if k == 0 {
        seq!['A', 'd', 'v', 'i', 's', 'o', 'r']
    } else if k == 1 {
        seq!['C', 'a', 'n', 'n', 'o', 'n']
    } else if k == 2 {
        seq!['C', 'h', 'a', 'r', 'i', 'o', 't']
    } else if k == 3 {
        seq!['E', 'l', 'e', 'p', 'h', 'a', 'n', 't']
    } else if k == 4 {
        seq!['G', 'e', 'n', 'e', 'r', 'a', 'l']
    } else if k == 5 {
        seq!['H', 'o', 'r', 's', 'e']
    } else {
        seq!['S', 'o', 'l', 'd', 'i', 'e', 'r']
    }
}

/// Row `r` of one kind's table: each value followed by a comma.
pub open spec fn values_text(row: Seq<i32>, n: int) -> Seq<char>
    decreases n,
{
    if n <= 0 { Seq::empty() } else { values_text(row, n - 1) + decimal(row[n - 1] as int) + seq![','] }
}

/// Line `i` of kind `k`'s block: its title, then its ten rows, then nothing.
pub open spec fn block_line(t: Seq<Vec<Vec<i32>>>, k: int, i: int) -> Seq<char> {
    if i == 0 {
        table_title(k)
    } else if i <= 10 {
        values_text(t[k]@[i - 1]@, 9)
    } else {
        Seq::empty()
    }
}

/// `s` padded with blanks to at least 40 characters.
pub open spec fn padded(s: Seq<char>) -> Seq<char> {
    if s.len() >= 40 { s } else { s + Seq::new((40 - s.len()) as nat, |_i: int| ' ') }
}

/// Line `i` of the seven blocks side by side, for the kinds below `n`.
pub open spec fn side_by_side(t: Seq<Vec<Vec<i32>>>, i: int, n: int) -> Seq<char>
    decreases n,
{
    if n <= 0 { Seq::empty() } else { side_by_side(t, i, n - 1) + padded(block_line(t, n - 1, i)) }
}

/// The lines below `n` of the side-by-side picture, each ended by a newline.
pub open spec fn pst_text(t: Seq<Vec<Vec<i32>>>, n: int) -> Seq<char>
    decreases n,
{
    if n <= 0 { Seq::empty() } else { pst_text(t, n - 1) + side_by_side(t, n - 1, 7) + seq!['\n'] }
}

fn digit_str(d: u64) -> (r: &'static str)
    requires
        d < 10,
    ensures
        r@ == seq![digit_char(d as int)],
{
    let r = if d == 0 { "0" } else if d == 1 { "1" } else if d == 2 { "2" } else if d == 3 { "3" }
        else if d == 4 { "4" } else if d == 5 { "5" } else if d == 6 { "6" } else if d == 7 { "7" }
        else if d == 8 { "8" } else { "9" };
    proof {
        reveal_strlit("0"); reveal_strlit("1"); reveal_strlit("2"); reveal_strlit("3");
        reveal_strlit("4"); reveal_strlit("5"); reveal_strlit("6"); reveal_strlit("7");
        reveal_strlit("8"); reveal_strlit("9");
        assert(r@ =~= seq![digit_char(d as int)]);
    }
    r
}

fn push_decimal_nat(s: &mut String, n: u64)
    ensures
        final(s)@ == old(s)@ + decimal_nat(n as nat),
    decreases n,
{
    if n >= 10 {
        push_decimal_nat(s, n / 10);
    }
    s.append(digit_str(n % 10));
    assert(final(s)@ =~= old(s)@ + decimal_nat(n as nat));
}

fn push_decimal(s: &mut String, i: i32)
    ensures
        final(s)@ == old(s)@ + decimal(i as int),
{
    if i < 0 {
        s.append("-");
        proof {
            reveal_strlit("-");
        }
        push_decimal_nat(s, (-(i as i64)) as u64);
        assert(s@ =~= old(s)@ + decimal(i as int));
    } else {
        push_decimal_nat(s, i as u64);
    }
}

fn push_padded(s: &mut String, line: &String)
    ensures
        final(s)@ == old(s)@ + padded(line@),
{
    let ghost start = s@;
    s.append(line.as_str());
    let n = line.as_str().unicode_len();
    let mut k: usize = n;
    while k < 40
        invariant
            n == line@.len(),
            n <= k <= 40 || (n > 40 && k == n),
            s@ == start + line@ + Seq::new((k - n) as nat, |_i: int| ' '),
        decreases 40 - k,
    {
        s.append(" ");
        proof {
            reveal_strlit(" ");
        }
        k = k + 1;
        assert(s@ =~= start + line@ + Seq::new((k - n) as nat, |_i: int| ' '));
    }
    assert(s@ =~= start + padded(line@));
}

impl Eval {
    fn block_line_text(pst: &Vec<Vec<Vec<i32>>>, k: usize, i: usize) -> (r: String)
        requires
            nested_table_ok(pst@, PST_LIMIT as int),
            k < 7,
            i < 12,
        ensures
            r@ == block_line(pst@, k as int, i as int),
    {
        if i == 0 {
            let title = if k == 0 { "Advisor" } else if k == 1 { "Cannon" } else if k == 2 { "Chariot" }
                else if k == 3 { "Elephant" } else if k == 4 { "General" } else if k == 5 { "Horse" }
                else { "Soldier" };
            proof {
                reveal_strlit("Advisor"); reveal_strlit("Cannon"); reveal_strlit("Chariot");
                reveal_strlit("Elephant"); reveal_strlit("General"); reveal_strlit("Horse");
                reveal_strlit("Soldier");
                assert(title@ =~= table_title(k as int));
            }
            String::from_str(title)
        } else if i <= 10 {
            let mut out = String::new();
            let mut c: usize = 0;
            while c < 9
                invariant
                    nested_table_ok(pst@, PST_LIMIT as int),
                    k < 7,
                    1 <= i <= 10,
                    c <= 9,
                    out@ == values_text(pst@[k as int]@[i - 1]@, c as int),
                decreases 9 - c,
            {
                push_decimal(&mut out, pst[k][i - 1][c]);
                out.append(",");
                proof {
                    reveal_strlit(",");
                }
                assert(out@ =~= values_text(pst@[k as int]@[i - 1]@, c + 1));
                c = c + 1;
            }
            out
        } else {
            String::new()
        }
    }

    /// The seven tables of `pst` side by side, one 40-character column per
    /// kind: the kind's name, then its ten rows of comma-ended values.
    pub fn display_pst(pst: &Vec<Vec<Vec<i32>>>) -> (r: String)
        requires
            nested_table_ok(pst@, PST_LIMIT as int),
        ensures
            r@ == pst_text(pst@, 12),
    {
        let mut output = String::new();
        let mut i: usize = 0;
        while i < 12
            invariant
                nested_table_ok(pst@, PST_LIMIT as int),
                i <= 12,
                output@ == pst_text(pst@, i as int),
            decreases 12 - i,
        {
            let ghost start = output@;
            let mut k: usize = 0;
            while k < 7
                invariant
                    nested_table_ok(pst@, PST_LIMIT as int),
                    i < 12,
                    k <= 7,
                    output@ == start + side_by_side(pst@, i as int, k as int),
                decreases 7 - k,
            {
                let line = Self::block_line_text(pst, k, i);
                push_padded(&mut output, &line);
                assert(output@ =~= start + side_by_side(pst@, i as int, k + 1));
                k = k + 1;
            }
            output.append("\n");
            proof {
                reveal_strlit("\n");
            }
            assert(output@ =~= pst_text(pst@, i + 1));
            i = i + 1;
        }
        output
    }
}

} // verus!
