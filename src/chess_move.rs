use vstd::prelude::*;
use vstd::string::StrSliceExecFns;
use vstd::string::StringExecFns;

verus! {

/// A move descriptor: start and end square as (row, column) pairs, plus the
/// bookkeeping that the generator and `make` stamp on it.
///
/// Rows count from Black's back rank (row 0) to Red's (row 9); columns from
/// file A (0) to file I (8).
#[derive(Copy, Clone, Debug, PartialEq, Eq, Structural)]
pub struct Move {
    pub startx: i8,
    pub starty: i8,
    pub endx: i8,
    pub endy: i8,
    /// The piece code on the end square before the move (filled by the generator).
    pub captured: i8,
    /// The ply of the last capture before this move was made (filled by `make`).
    pub last_capture: i32,
}

/// The file letters, A (column 0) to I (column 8).
pub open spec fn col_char(i: int) -> char {
    seq!['A', 'B', 'C', 'D', 'E', 'F', 'G', 'H', 'I'][i]
}

/// The rank names, X (row 0, rank ten) then 9 down to 1 (row 9).
pub open spec fn row_char(i: int) -> char {
    seq!['X', '9', '8', '7', '6', '5', '4', '3', '2', '1'][i]
}

/// Index of a file letter, if it is one.
pub open spec fn col_index(c: char) -> Option<int> {
    if exists|i: int| 0 <= i < 9 && col_char(i) == c {
        Some(choose|i: int| 0 <= i < 9 && col_char(i) == c)
    } else {
        None
    }
}

/// Index of a rank name, if it is one.
pub open spec fn row_index(c: char) -> Option<int> {
    if exists|i: int| 0 <= i < 10 && row_char(i) == c {
        Some(choose|i: int| 0 <= i < 10 && row_char(i) == c)
    } else {
        None
    }
}

impl Move {
    /// Row and column of both squares lie on the board.
    pub open spec fn on_board(self) -> bool {
        &&& 0 <= self.starty < 10
        &&& 0 <= self.startx < 9
        &&& 0 <= self.endy < 10
        &&& 0 <= self.endx < 9
    }

    pub open spec fn from_sq(self) -> int {
        self.starty * 9 + self.startx
    }

    pub open spec fn to_sq(self) -> int {
        self.endy * 9 + self.endx
    }

    pub open spec fn spec_is_null(self) -> bool {
        self.startx == -1
    }

    /// Equality of moves: both null, or the same start and end squares.
    pub open spec fn same_move(self, other: Move) -> bool {
        if self.spec_is_null() || other.spec_is_null() {
            self.spec_is_null() && other.spec_is_null()
        } else {
            self.startx == other.startx && self.starty == other.starty && self.endx == other.endx
                && self.endy == other.endy
        }
    }

    /// The four characters of the algebraic form, such as `B3E3`.
    pub open spec fn text(self) -> Seq<char> {
        seq![
            col_char(self.startx as int),
            row_char(self.starty as int),
            col_char(self.endx as int),
            row_char(self.endy as int),
        ]
    }

    /// What `compute_hash` folds the coordinates into.
    pub open spec fn hash_value(self) -> int {
        if self.spec_is_null() {
            0
        } else {
            (((self.startx + 1) * 37 + self.starty + 1) * 37 + self.endx + 1) * 37 + self.endy + 1
        }
    }

    pub fn new(starty: i8, startx: i8, endy: i8, endx: i8) -> (r: Self)
        ensures
            r == (Move { startx, starty, endx, endy, captured: 0, last_capture: 0 }),
    {
        Self { startx, starty, endx, endy, captured: 0, last_capture: 0 }
    }

    pub fn from_coords(start: (usize, usize), to: (usize, usize)) -> (r: Self)
        requires
            start.0 < 128,
            start.1 < 128,
            to.0 < 128,
            to.1 < 128,
        ensures
            r == (Move { startx: start.1 as i8, starty: start.0 as i8, endx: to.1 as i8, endy: to.0 as i8, captured: 0i8, last_capture: 0i32 }),
    {
        Move::new(start.0 as i8, start.1 as i8, to.0 as i8, to.1 as i8)
    }

    /// The null move, which passes the turn.
    pub fn null() -> (r: Self)
        ensures
            r == (Move { startx: -1i8, starty: -1i8, endx: -1i8, endy: -1i8, captured: -1i8, last_capture: -1i32 }),
            r.spec_is_null(),
    {
        Self { startx: -1, starty: -1, endx: -1, endy: -1, captured: -1, last_capture: -1 }
    }

    /// Reads the four-character algebraic form, such as `H3HX`.
    pub fn from_string(text: &str) -> (r: Option<Move>)
        ensures
            match r {
                Some(m) => {
                    &&& text@.len() == 4
                    &&& m.on_board()
                    &&& m.text() == text@
                    &&& m.captured == 0
                    &&& m.last_capture == 0
                },
                None => text@.len() != 4 || col_index(text@[0]) is None || row_index(text@[1]) is None
                    || col_index(text@[2]) is None || row_index(text@[3]) is None,
            },
    {
        if text.unicode_len() != 4 {
            return None;
        }
        let sx = col_of_char(text.get_char(0));
        let sy = row_of_char(text.get_char(1));
        let ex = col_of_char(text.get_char(2));
        let ey = row_of_char(text.get_char(3));
        match (sx, sy, ex, ey) {
            (Some(a), Some(b), Some(c), Some(d)) => {
                let m = Move::new(b, a, d, c);
                assert(m.text() =~= text@);
                Some(m)
            },
            _ => None,
        }
    }

    pub fn is_null(&self) -> (r: bool)
        ensures
            r == self.spec_is_null(),
    {
        self.startx == -1
    }

    pub fn is_quiet(&self) -> (r: bool)
        ensures
            r == (self.captured == 0),
    {
        self.captured == 0
    }

    pub fn start_sq(&self) -> (r: usize)
        requires
            self.on_board(),
        ensures
            r == self.from_sq(),
    {
        (self.starty as usize) * 9 + self.startx as usize
    }

    pub fn end_sq(&self) -> (r: usize)
        requires
            self.on_board(),
        ensures
            r == self.to_sq(),
    {
        (self.endy as usize) * 9 + self.endx as usize
    }

    /// The four-character algebraic form, such as `B3E3`.
    pub fn display(&self) -> (r: String)
        requires
            self.on_board(),
        ensures
            r@ == self.text(),
    {
        let mut s = String::from_str(col_name(self.startx));
        s.append(row_name(self.starty));
        s.append(col_name(self.endx));
        s.append(row_name(self.endy));
        s
    }

    /// Mirrors a (row, column) pair through the board's centre.
    pub fn flip_coord(coord: &(usize, usize)) -> (r: (usize, usize))
        requires
            coord.0 <= 9,
            coord.1 <= 8,
        ensures
            r.0 == 9 - coord.0,
            r.1 == 8 - coord.1,
    {
        (9 - coord.0, 8 - coord.1)
    }

    pub fn equals(&self, other: &Move) -> (r: bool)
        ensures
            r == self.same_move(*other),
    {
        if self.is_null() || other.is_null() {
            self.is_null() && other.is_null()
        } else {
            self.startx == other.startx && self.starty == other.starty && self.endx == other.endx
                && self.endy == other.endy
        }
    }

    /// A number that identifies the move's squares: 0 for the null move, else the
    /// coordinates, each plus one, read as base-37 digits.
    pub fn compute_hash(&self) -> (r: u64)
        requires
            self.spec_is_null() || (self.startx >= 0 && self.starty >= 0 && self.endx >= 0
                && self.endy >= 0),
        ensures
            r == self.hash_value(),
    {
        if self.is_null() {
            return 0;
        }
        let prime: u64 = 37;
        let mut acc: u64 = 0;
        acc = acc * prime + (self.startx as u64) + 1;
        acc = acc * prime + (self.starty as u64) + 1;
        acc = acc * prime + (self.endx as u64) + 1;
        acc = acc * prime + (self.endy as u64) + 1;
        acc
    }
}

pub(crate) fn col_name(i: i8) -> (r: &'static str)
    requires
        0 <= i < 9,
    ensures
        r@ == seq![col_char(i as int)],
{
    let r = if i == 0 { "A" } else if i == 1 { "B" } else if i == 2 { "C" } else if i == 3 { "D" }
        else if i == 4 { "E" } else if i == 5 { "F" } else if i == 6 { "G" } else if i == 7 { "H" }
        else { "I" };
    proof {
        reveal_strlit("A"); reveal_strlit("B"); reveal_strlit("C"); reveal_strlit("D");
        reveal_strlit("E"); reveal_strlit("F"); reveal_strlit("G"); reveal_strlit("H");
        reveal_strlit("I");
        assert(r@ =~= seq![col_char(i as int)]);
    }
    r
}

pub(crate) fn row_name(i: i8) -> (r: &'static str)
    requires
        0 <= i < 10,
    ensures
        r@ == seq![row_char(i as int)],
{
    let r = if i == 0 { "X" } else if i == 1 { "9" } else if i == 2 { "8" } else if i == 3 { "7" }
        else if i == 4 { "6" } else if i == 5 { "5" } else if i == 6 { "4" } else if i == 7 { "3" }
        else if i == 8 { "2" } else { "1" };
    proof {
        reveal_strlit("X"); reveal_strlit("9"); reveal_strlit("8"); reveal_strlit("7");
        reveal_strlit("6"); reveal_strlit("5"); reveal_strlit("4"); reveal_strlit("3");
        reveal_strlit("2"); reveal_strlit("1");
        assert(r@ =~= seq![row_char(i as int)]);
    }
    r
}

fn col_of_char(c: char) -> (r: Option<i8>)
    ensures
        match r {
            Some(i) => 0 <= i < 9 && col_char(i as int) == c && col_index(c) == Some(i as int),
            None => col_index(c) is None,
        },
{
    let r: Option<i8> = if c == 'A' { Some(0) } else if c == 'B' { Some(1) } else if c == 'C' { Some(2) }
        else if c == 'D' { Some(3) } else if c == 'E' { Some(4) } else if c == 'F' { Some(5) }
        else if c == 'G' { Some(6) } else if c == 'H' { Some(7) } else if c == 'I' { Some(8) }
        else { None };
    proof {
        let s = seq!['A', 'B', 'C', 'D', 'E', 'F', 'G', 'H', 'I'];
        if let Some(i) = r {
            assert(col_char(i as int) == c);
            assert forall|j: int| 0 <= j < 9 && col_char(j) == c implies j == i as int by {
                assert(s[j] == c);
            }
        } else {
            assert forall|j: int| 0 <= j < 9 implies col_char(j) != c by {
                assert(s[j] != c);
            }
        }
    }
    r
}

fn row_of_char(c: char) -> (r: Option<i8>)
    ensures
        match r {
            Some(i) => 0 <= i < 10 && row_char(i as int) == c && row_index(c) == Some(i as int),
            None => row_index(c) is None,
        },
{
    let r: Option<i8> = if c == 'X' { Some(0) } else if c == '9' { Some(1) } else if c == '8' { Some(2) }
        else if c == '7' { Some(3) } else if c == '6' { Some(4) } else if c == '5' { Some(5) }
        else if c == '4' { Some(6) } else if c == '3' { Some(7) } else if c == '2' { Some(8) }
        else if c == '1' { Some(9) } else { None };
    proof {
        let s = seq!['X', '9', '8', '7', '6', '5', '4', '3', '2', '1'];
        if let Some(i) = r {
            assert(row_char(i as int) == c);
            assert forall|j: int| 0 <= j < 10 && row_char(j) == c implies j == i as int by {
                assert(s[j] == c);
            }
        } else {
            assert forall|j: int| 0 <= j < 10 implies row_char(j) != c by {
                assert(s[j] != c);
            }
        }
    }
    r
}

/// Reading the algebraic form of an on-board move gives back its squares.
pub proof fn lemma_text_round_trip(m: Move)
    requires
        m.on_board(),
    ensures
        col_index(m.text()[0]) == Some(m.startx as int),
        row_index(m.text()[1]) == Some(m.starty as int),
        col_index(m.text()[2]) == Some(m.endx as int),
        row_index(m.text()[3]) == Some(m.endy as int),
{
    let cs = seq!['A', 'B', 'C', 'D', 'E', 'F', 'G', 'H', 'I'];
    let rs = seq!['X', '9', '8', '7', '6', '5', '4', '3', '2', '1'];
    assert forall|i: int, j: int| 0 <= i < 9 && 0 <= j < 9 && col_char(i) == col_char(j) implies i == j by {
        assert(cs[i] == cs[j]);
    }
    assert forall|i: int, j: int| 0 <= i < 10 && 0 <= j < 10 && row_char(i) == row_char(j) implies i == j by {
        assert(rs[i] == rs[j]);
    }
}

} // verus!
