//! The Chinese move notation used by recorded games: piece, file, direction
//! and amount, counted from the mover's side, with a tandem prefix that tells
//! apart pieces sharing a file.
use vstd::prelude::*;
use vstd::string::StrSliceExecFns;
use vstd::string::StringExecFns;
use crate::chess_move::{col_char, col_name, row_char, row_name};
use crate::piece::{Piece, piece_char};
use crate::board::{Board, BoardView};
use crate::chess_move::Move;
use crate::condition::Condition;
use crate::piece::kind_of_letter;
use crate::rules::{piece_moves, reach_list};

verus! {

/// The row visited `i`-th when a side scans a file from its front: Red
/// from row 0, Black from row 9.
pub open spec fn row_at(black: bool, i: int) -> int {
    if black { 9 - i } else { i }
}

/// The squares of column `col` holding `code`, among the first `n` rows in
/// the side's scanning order, in that order.
pub open spec fn col_squares(g: Seq<i8>, code: int, col: int, black: bool, n: int) -> Seq<int>
    decreases n,
{
    if n <= 0 {
        Seq::empty()
    } else {
        let prev = col_squares(g, code, col, black, n - 1);
        let sq = row_at(black, n - 1) * 9 + col;
        if g[sq] == code { prev.push(sq) } else { prev }
    }
}

/// The squares holding `code` in the columns below `c` that hold two or more
/// of them, column by column, each column in scanning order.
pub open spec fn tandem_squares(g: Seq<i8>, code: int, black: bool, c: int) -> Seq<int>
    decreases c,
{
    if c <= 0 {
        Seq::empty()
    } else {
        let prev = tandem_squares(g, code, black, c - 1);
        let here = col_squares(g, code, c - 1, black, 10);
        if here.len() >= 2 { prev + here } else { prev }
    }
}

/// The value of a decimal digit character.
pub open spec fn digit_value(c: char) -> Option<int> {
    if '0' <= c && c <= '9' { Some(c as int - '0' as int) } else { None }
}

/// The column that file number `file` (1..=9, counted from the mover's
/// right) names.
pub open spec fn file_col(file: int, black: bool) -> Option<int> {
    if 1 <= file <= 9 {
        Some(if black { file - 1 } else { 9 - file })
    } else {
        None
    }
}

/// A move of `s` whose end column is `col` and whose row step has the sign
/// `dir`, with none such before it.
pub open spec fn is_first_match(s: Seq<Move>, col: int, dir: int, i: int) -> bool {
    &&& 0 <= i < s.len()
    &&& matches_dir(s[i], col, dir)
    &&& forall|j: int| 0 <= j < i ==> !matches_dir(#[trigger] s[j], col, dir)
}

pub open spec fn matches_dir(m: Move, col: int, dir: int) -> bool {
    m.endx == col && (if dir < 0 { m.endy < m.starty } else { m.endy > m.starty })
}

pub open spec fn first_match(s: Seq<Move>, col: int, dir: int) -> Option<Move> {
    if exists|i: int| is_first_match(s, col, dir, i) {
        Some(s[choose|i: int| is_first_match(s, col, dir, i)])
    } else {
        None
    }
}

/// The piece kind, the tandem index, the position of the file character (or
/// none when the tandem names the piece by itself), and where the direction
/// character stands.
pub open spec fn header(t: Seq<char>) -> Option<(int, int, Option<int>, int)> {
    let c0 = t[0];
    if digit_value(c0) is Some {
        let d = digit_value(c0)->0;
        if d == 0 {
            None
        } else if t.len() == 4 {
            Some((7, d - 1, None, 2))
        } else {
            Some((7, d - 1, Some(1), 3))
        }
    } else if c0 == '+' || c0 == '-' {
        let idx = if c0 == '+' { 0 } else { 1 };
        match kind_of_letter(t[1]) {
            Some(k) => if t.len() == 4 { Some((k as int, idx, None, 2)) } else { Some((k as int, idx, Some(2), 3)) },
            None => None,
        }
    } else {
        match kind_of_letter(c0) {
            Some(k) => Some((k as int, 0, Some(1), 2)),
            None => None,
        }
    }
}

/// The start square that the notation `t` names in position `v`.
pub open spec fn start_square(v: BoardView, t: Seq<char>) -> Option<int> {
    let black = v.player == Condition::BLACK;
    let mult = if black { -1int } else { 1int };
    match header(t) {
        None => None,
        Some((k, idx, file_at, _)) => {
            let code = if black { -k } else { k };
            match file_at {
                None => {
                    let s = tandem_squares(v.grid, code, black, 9);
                    if idx < s.len() { Some(s[idx]) } else { None }
                },
                Some(p) => match digit_value(t[p]) {
                    None => None,
                    Some(f) => match file_col(f, black) {
                        None => None,
                        Some(col) => {
                            let s = col_squares(v.grid, code, col, black, 10);
                            if idx < s.len() { Some(s[idx]) } else { None }
                        },
                    },
                },
            }
        },
    }
}

/// The move that notation `t` names in position `v`, if it names one.
pub open spec fn parsed(v: BoardView, t: Seq<char>) -> Option<Move> {
    let black = v.player == Condition::BLACK;
    let mult = if black { -1int } else { 1int };
    if !(4 <= t.len() <= 5) {
        None
    } else {
        match (header(t), start_square(v, t)) {
            (Some((k, _, _, dpos)), Some(start)) => {
                let towards = t[dpos];
                let srow = start / 9;
                let scol = start % 9;
                match digit_value(t[dpos + 1]) {
                    None => None,
                    Some(amount) => {
                        let to_col = file_col(amount, black);
                        if towards == '=' {
                            match to_col {
                                Some(c) => Some(Move { startx: scol as i8, starty: srow as i8, endx: c as i8, endy: srow as i8, captured: 0, last_capture: 0 }),
                                None => None,
                            }
                        } else if towards == '+' || towards == '-' {
                            let dir = if towards == '+' { -mult } else { mult };
                            if k == 2 || k == 5 || k == 7 || k == 3 {
                                let row = srow + dir * amount;
                                if 0 <= row < 10 {
                                    Some(Move { startx: scol as i8, starty: srow as i8, endx: scol as i8, endy: row as i8, captured: 0, last_capture: 0 })
                                } else {
                                    None
                                }
                            } else {
                                match to_col {
                                    Some(c) => first_match(reach_list(v.grid, start, 90), c, dir),
                                    None => None,
                                }
                            }
                        } else {
                            None
                        }
                    },
                }
            },
            _ => None,
        }
    }
}

/// The squares of `a` are those of `b`, in order.
pub open spec fn same_squares(a: Seq<usize>, b: Seq<int>) -> bool {
    &&& a.len() == b.len()
    &&& forall|i: int| 0 <= i < a.len() ==> #[trigger] a[i] as int == b[i]
}

fn digit(c: char) -> (r: Option<i32>)
    ensures
        match r {
            Some(d) => digit_value(c) == Some(d as int) && 0 <= d <= 9,
            None => digit_value(c) is None,
        },
{
    if '0' <= c && c <= '9' {
        Some((c as u32 - '0' as u32) as i32)
    } else {
        None
    }
}

fn file_column(file: i32, black: bool) -> (r: Option<usize>)
    ensures
        match r {
            Some(c) => file_col(file as int, black) == Some(c as int) && c < 9,
            None => file_col(file as int, black) is None,
        },
{
    if 1 <= file && file <= 9 {
        Some(if black { (file - 1) as usize } else { (9 - file) as usize })
    } else {
        None
    }
}

fn column_squares(g: &Vec<i8>, code: i8, col: usize, black: bool) -> (out: Vec<usize>)
    requires
        g@.len() == 90,
        col < 9,
    ensures
        same_squares(out@, col_squares(g@, code as int, col as int, black, 10)),
        forall|i: int| 0 <= i < out@.len() ==> #[trigger] out@[i] < 90,
{
    let mut out: Vec<usize> = Vec::new();
    let mut i: usize = 0;
    while i < 10
        invariant
            g@.len() == 90,
            col < 9,
            i <= 10,
            same_squares(out@, col_squares(g@, code as int, col as int, black, i as int)),
            forall|j: int| 0 <= j < out@.len() ==> #[trigger] out@[j] < 90,
        decreases 10 - i,
    {
        let row = if black { 9 - i } else { i };
        let sq = row * 9 + col;
        if g[sq] == code {
            out.push(sq);
        }
        i = i + 1;
    }
    out
}

impl Board {
    /// Reads a move in Chinese notation for the side to move, such as `C2=5`,
    /// `N2+3`, `+R-1` or `-P+1`: tandem, piece, file, direction, amount.
    /// Returns `None` when the text names no piece or no destination.
    pub fn parse_move(&self, text: String) -> (r: Option<Move>)
        requires
            self.inv(),
        ensures
            r == parsed(self@, text@),
    {
        let ghost v = self@;
        proof {
            self.lemma_inv();
        }
        let s = text.as_str();
        let n = s.unicode_len();
        if !(4 <= n && n <= 5) {
            return None;
        }
        let black = self.player() == Condition::BLACK;
        let mult: i8 = if black { -1 } else { 1 };
        let c0 = s.get_char(0);
        // piece kind, tandem index, file position, direction position
        let (k, idx, file_at, dpos): (i8, usize, Option<usize>, usize) = match digit(c0) {
            Some(d) => {
                if d == 0 {
                    return None;
                }
                if n == 4 { (7, (d - 1) as usize, None, 2) } else { (7, (d - 1) as usize, Some(1), 3) }
            },
            None => {
                if c0 == '+' || c0 == '-' {
                    let idx: usize = if c0 == '+' { 0 } else { 1 };
                    match crate::piece::Piece::from_char(s.get_char(1)) {
                        Some(k) => if n == 4 { (k, idx, None, 2) } else { (k, idx, Some(2), 3) },
                        None => {
                            return None;
                        },
                    }
                } else {
                    match crate::piece::Piece::from_char(c0) {
                        Some(k) => (k, 0, Some(1), 2),
                        None => {
                            return None;
                        },
                    }
                }
            },
        };
        assert(header(text@) == Some((k as int, idx as int, match file_at { Some(p) => Some(p as int), None => None::<int> }, dpos as int)));
        assert(0 <= k <= 7);
        let code: i8 = if black { -k } else { k };
        let grid = self.grid_copy();
        let mut squares: Vec<usize> = Vec::new();
        match file_at {
            None => {
                let mut c: usize = 0;
                while c < 9
                    invariant
                        grid@ == v.grid,
                        grid@.len() == 90,
                        c <= 9,
                        same_squares(squares@, tandem_squares(v.grid, code as int, black, c as int)),
                        forall|j: int| 0 <= j < squares@.len() ==> #[trigger] squares@[j] < 90,
                    decreases 9 - c,
                {
                    let here = column_squares(&grid, code, c, black);
                    let ghost hs = col_squares(v.grid, code as int, c as int, black, 10);
                    if here.len() >= 2 {
                        let ghost before = tandem_squares(v.grid, code as int, black, c as int);
                        let mut j: usize = 0;
                        while j < here.len()
                            invariant
                                j <= here@.len(),
                                same_squares(here@, hs),
                                same_squares(squares@, before + hs.subrange(0, j as int)),
                                forall|q: int| 0 <= q < here@.len() ==> #[trigger] here@[q] < 90,
                                forall|q: int| 0 <= q < squares@.len() ==> #[trigger] squares@[q] < 90,
                            decreases here.len() - j,
                        {
                            squares.push(here[j]);
                            j = j + 1;
                            assert((before + hs.subrange(0, j as int)) =~= (before + hs.subrange(0, j - 1)).push(hs[j - 1]));
                        }
                        assert(hs.subrange(0, hs.len() as int) =~= hs);
                    }
                    c = c + 1;
                }
            },
            Some(p) => {
                let f = match digit(s.get_char(p)) {
                    Some(f) => f,
                    None => {
                        return None;
                    },
                };
                let col = match file_column(f, black) {
                    Some(col) => col,
                    None => {
                        return None;
                    },
                };
                squares = column_squares(&grid, code, col, black);
            },
        }
        if idx >= squares.len() {
            return None;
        }
        let start = squares[idx];
        assert(start_square(v, text@) == Some(start as int));
        let srow = start / 9;
        let scol = start % 9;
        let towards = s.get_char(dpos);
        let amount = match digit(s.get_char(dpos + 1)) {
            Some(a) => a,
            None => {
                return None;
            },
        };
        let to_col = file_column(amount, black);
        if towards == '=' {
            match to_col {
                Some(c) => Some(Move { startx: scol as i8, starty: srow as i8, endx: c as i8, endy: srow as i8, captured: 0, last_capture: 0 }),
                None => None,
            }
        } else if towards == '+' || towards == '-' {
            let dir: i32 = if towards == '+' { -(mult as i32) } else { mult as i32 };
            assert(srow < 10);
            if k == 2 || k == 5 || k == 7 || k == 3 {
                let step: i32 = if dir < 0 { -amount } else { amount };
                assert(step == dir * amount) by (nonlinear_arith)
                    requires
                        dir == 1 || dir == -1,
                        dir < 0 ==> step == -amount,
                        dir >= 0 ==> step == amount,
                ;
                let row = srow as i32 + step;
                if 0 <= row && row < 10 {
                    Some(Move { startx: scol as i8, starty: srow as i8, endx: scol as i8, endy: row as i8, captured: 0, last_capture: 0 })
                } else {
                    None
                }
            } else {
                match to_col {
                    Some(c) => {
                        let mut moves: Vec<Move> = Vec::new();
                        piece_moves(&grid, start, &mut moves);
                        assert(moves@ =~= reach_list(v.grid, start as int, 90));
                        proof {
                            crate::rules::lemma_reach_list(v.grid, start as int, 90);
                        }
                        assert(parsed(v, text@) == first_match(reach_list(v.grid, start as int, 90), c as int, dir as int));
                        let mut i: usize = 0;
                        while i < moves.len()
                            invariant
                                parsed(v, text@) == first_match(moves@, c as int, dir as int),
                                v == self@,
                                i <= moves@.len(),
                                c < 9,
                                moves@ == reach_list(v.grid, start as int, 90),
                                forall|q: int| 0 <= q < moves@.len() ==> (#[trigger] moves@[q]).on_board(),
                                forall|j: int| 0 <= j < i ==> !matches_dir(#[trigger] moves@[j], c as int, dir as int),
                            decreases moves.len() - i,
                        {
                            let m = moves[i];
                            let hit = m.endx as usize == c && if dir < 0 { m.endy < m.starty } else { m.endy > m.starty };
                            if hit {
                                assert(is_first_match(moves@, c as int, dir as int, i as int));
                                proof {
                                    let w = choose|w: int| is_first_match(moves@, c as int, dir as int, w);
                                    assert(w == i) by {
                                        if w < i {
                                            assert(!matches_dir(moves@[w], c as int, dir as int));
                                        } else if w > i {
                                            assert(!matches_dir(moves@[i as int], c as int, dir as int));
                                        }
                                    }
                                    assert(first_match(moves@, c as int, dir as int) == Some(m));
                                }
                                return Some(m);
                            }
                            i = i + 1;
                        }
                        assert(!exists|w: int| is_first_match(moves@, c as int, dir as int, w));
                        None
                    },
                    None => None,
                }
            }
        } else {
            None
        }
    }
}

/// Squares of one piece are told apart by their algebraic form: two on-board
/// moves with the same text are the same move.
pub proof fn lemma_text_identifies(a: Move, b: Move)
    requires
        a.on_board(),
        b.on_board(),
        a.text() == b.text(),
    ensures
        a.same_move(b),
{
    crate::chess_move::lemma_text_round_trip(a);
    crate::chess_move::lemma_text_round_trip(b);
    assert(a.text()[0] == b.text()[0]);
    assert(a.text()[1] == b.text()[1]);
    assert(a.text()[2] == b.text()[2]);
    assert(a.text()[3] == b.text()[3]);
}

/// A move read from Chinese notation lies on the board, and reading its
/// algebraic form back (what `Move::from_string` of `display` yields) gives
/// the same move.
pub proof fn lemma_notation_round_trip(v: BoardView, t: Seq<char>)
    requires
        v.wf(),
        parsed(v, t) is Some,
    ensures
        parsed(v, t)->0.on_board(),
        forall|m: Move| m.on_board() && m.text() == parsed(v, t)->0.text() ==> m.same_move(parsed(v, t)->0),
{
    let black = v.player == Condition::BLACK;
    let (k, idx, file_at, dpos) = header(t)->0;
    let start = start_square(v, t)->0;
    let code = if black { -k } else { k };
    match file_at {
        None => {
            lemma_tandem_squares(v.grid, code, black, 9);
        },
        Some(p) => {
            let col = file_col(digit_value(t[p])->0, black)->0;
            lemma_col_squares(v.grid, code, col, black, 10);
        },
    }
    assert(0 <= start < 90);
    let towards = t[dpos];
    if (towards == '+' || towards == '-') && !(k == 2 || k == 5 || k == 7 || k == 3) {
        let amount = digit_value(t[dpos + 1])->0;
        let c = file_col(amount, black)->0;
        let mult = if black { -1int } else { 1int };
        let dir = if towards == '+' { -mult } else { mult };
        let s = reach_list(v.grid, start, 90);
        crate::rules::lemma_reach_list(v.grid, start, 90);
        let i = choose|i: int| is_first_match(s, c, dir, i);
        assert(s[i].on_board());
    }
    assert forall|m: Move| m.on_board() && m.text() == parsed(v, t)->0.text() implies m.same_move(parsed(v, t)->0) by {
        lemma_text_identifies(m, parsed(v, t)->0);
    }
}

proof fn lemma_col_squares(g: Seq<i8>, code: int, col: int, black: bool, n: int)
    requires
        0 <= col < 9,
        0 <= n <= 10,
    ensures
        forall|i: int| 0 <= i < col_squares(g, code, col, black, n).len() ==> 0 <= #[trigger] col_squares(g, code, col, black, n)[i] < 90,
    decreases n,
{
    if n > 0 {
        lemma_col_squares(g, code, col, black, n - 1);
        let prev = col_squares(g, code, col, black, n - 1);
        let sq = row_at(black, n - 1) * 9 + col;
        assert(0 <= sq < 90);
        if g[sq] == code {
            assert forall|i: int| 0 <= i < prev.push(sq).len() implies 0 <= #[trigger] prev.push(sq)[i] < 90 by {
                if i < prev.len() {
                    assert(prev.push(sq)[i] == prev[i]);
                }
            }
        }
    }
}

proof fn lemma_tandem_squares(g: Seq<i8>, code: int, black: bool, c: int)
    requires
        0 <= c <= 9,
    ensures
        forall|i: int| 0 <= i < tandem_squares(g, code, black, c).len() ==> 0 <= #[trigger] tandem_squares(g, code, black, c)[i] < 90,
    decreases c,
{
    if c > 0 {
        lemma_tandem_squares(g, code, black, c - 1);
        lemma_col_squares(g, code, c - 1, black, 10);
        let prev = tandem_squares(g, code, black, c - 1);
        let here = col_squares(g, code, c - 1, black, 10);
        if here.len() >= 2 {
            assert forall|i: int| 0 <= i < (prev + here).len() implies 0 <= #[trigger] (prev + here)[i] < 90 by {
                if i >= prev.len() {
                    assert((prev + here)[i] == here[i - prev.len()]);
                }
            }
        }
    }
}

/// The cells of row `r` below column `n`, each as ` X |`.
pub open spec fn cells_text(g: Seq<i8>, r: int, n: int) -> Seq<char>
    decreases n,
{
    if n <= 0 {
        Seq::empty()
    } else {
        cells_text(g, r, n - 1) + seq![' ', piece_char(g[r * 9 + n - 1]), ' ', '|']
    }
}

/// A board row: its rank name, then its cells.
pub open spec fn line_text(g: Seq<i8>, r: int) -> Seq<char> {
    seq![row_char(r), ' ', '|'] + cells_text(g, r, 9)
}

/// The rule drawn between rows, with `n` cells.
pub open spec fn divider_text(n: int) -> Seq<char>
    decreases n,
{
    if n <= 0 { seq![' ', ' ', '+'] } else { divider_text(n - 1) + seq!['-', '-', '-', '+'] }
}

/// The file letters below the board, for the files below `n`.
pub open spec fn footer_text(n: int) -> Seq<char>
    decreases n,
{
    if n <= 0 { seq![' ', ' '] } else { footer_text(n - 1) + seq![' ', ' ', col_char(n - 1), ' '] }
}

/// The rows below `n`, each followed by a rule, under a first rule.
pub open spec fn rows_text(g: Seq<i8>, n: int) -> Seq<char>
    decreases n,
{
    if n <= 0 {
        divider_text(9)
    } else {
        rows_text(g, n - 1) + seq!['\n'] + line_text(g, n - 1) + seq!['\n'] + divider_text(9)
    }
}

/// The text picture of a grid.
pub open spec fn board_text(g: Seq<i8>) -> Seq<char> {
    rows_text(g, 10) + seq!['\n'] + footer_text(9)
}

fn push_str(s: &mut String, t: &str)
    ensures
        final(s)@ == old(s)@ + t@,
{
    s.append(t);
}

impl Board {
    /// A text picture of the board: ranks X to 1 down the side, files A to I
    /// along the bottom, Red's pieces in upper case.
    pub fn display(&self) -> (r: String)
        requires
            self.inv(),
        ensures
            r@ == board_text(self@.grid),
    {
        let ghost v = self@;
        proof {
            self.lemma_inv();
        }
        let mut out = String::new();
        Self::push_divider(&mut out);
        let mut row: usize = 0;
        while row < 10
            invariant
                row <= 10,
                v == self@,
                v.wf(),
                self.inv(),
                out@ == rows_text(v.grid, row as int),
            decreases 10 - row,
        {
            push_str(&mut out, "\n");
            push_str(&mut out, row_name(row as i8));
            push_str(&mut out, " |");
            proof {
                reveal_strlit("\n");
                reveal_strlit(" |");
            }
            let ghost head = out@;
            let mut col: usize = 0;
            while col < 9
                invariant
                    col <= 9,
                    row < 10,
                    v == self@,
                    v.wf(),
                    self.inv(),
                    out@ == head + cells_text(v.grid, row as int, col as int),
                decreases 9 - col,
            {
                let p = Piece::display(self.cell(row * 9 + col));
                push_str(&mut out, " ");
                push_str(&mut out, p.as_str());
                push_str(&mut out, " |");
                proof {
                    reveal_strlit(" ");
                    reveal_strlit(" |");
                }
                assert(out@ =~= head + cells_text(v.grid, row as int, col + 1));
                col = col + 1;
            }
            push_str(&mut out, "\n");
            proof {
                reveal_strlit("\n");
            }
            Self::push_divider(&mut out);
            assert(out@ =~= rows_text(v.grid, row + 1));
            row = row + 1;
        }
        let ghost body = out@;
        push_str(&mut out, "\n  ");
        proof {
            reveal_strlit("\n  ");
        }
        let mut col: usize = 0;
        while col < 9
            invariant
                col <= 9,
                out@ == body + seq!['\n'] + footer_text(col as int),
            decreases 9 - col,
        {
            push_str(&mut out, "  ");
            push_str(&mut out, col_name(col as i8));
            push_str(&mut out, " ");
            proof {
                reveal_strlit("  ");
                reveal_strlit(" ");
            }
            assert(out@ =~= body + seq!['\n'] + footer_text(col + 1));
            col = col + 1;
        }
        out
    }

    fn push_divider(s: &mut String)
        ensures
            final(s)@ == old(s)@ + divider_text(9),
    {
        let ghost start = s@;
        push_str(s, "  +");
        proof {
            reveal_strlit("  +");
        }
        let mut i: usize = 0;
        while i < 9
            invariant
                i <= 9,
                s@ == start + divider_text(i as int),
            decreases 9 - i,
        {
            push_str(s, "---+");
            proof {
                reveal_strlit("---+");
            }
            assert(s@ =~= start + divider_text(i + 1));
            i = i + 1;
        }
    }
}

} // verus!
