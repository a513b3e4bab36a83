use vstd::prelude::*;
use vstd::string::StringExecFns;

verus! {

/// Namespace for the signed piece codes held in a board cell.
///
/// A positive code is a Red piece, a negative one Black, zero an empty cell.
pub struct Piece;

/// The display letter of a piece code: upper case for Red, lower case for Black.
pub open spec fn piece_char(piece: i8) -> char {
    if piece >= 0 {
        seq![' ', 'A', 'C', 'R', 'E', 'G', 'H', 'S'][piece as int]
    } else {
        seq![' ', 'a', 'c', 'r', 'e', 'g', 'h', 's'][-piece]
    }
}

/// The piece kind named by a notation letter (either case); the blank names the
/// empty cell.
pub open spec fn kind_of_letter(c: char) -> Option<i8> {
    if c == ' ' {
        Some(0i8)
    } else if c == 'A' || c == 'a' {
        Some(1i8)
    } else if c == 'C' || c == 'c' {
        Some(2i8)
    } else if c == 'R' || c == 'r' {
        Some(3i8)
    } else if c == 'B' || c == 'b' {
        Some(4i8)
    } else if c == 'K' || c == 'k' {
        Some(5i8)
    } else if c == 'N' || c == 'n' {
        Some(6i8)
    } else if c == 'P' || c == 'p' {
        Some(7i8)
    } else {
        None
    }
}

impl Piece {
    pub const SPACE: i8 = 0;
    pub const ADVISOR: i8 = 1;
    pub const CANNON: i8 = 2;
    pub const CHARIOT: i8 = 3;
    pub const ELEPHANT: i8 = 4;
    pub const GENERAL: i8 = 5;
    pub const HORSE: i8 = 6;
    pub const SOLDIER: i8 = 7;

    /// One letter for a piece code, lower case for Black.
    pub fn display(piece: i8) -> (r: String)
        requires
            -7 <= piece <= 7,
        ensures
            r@ == seq![piece_char(piece)],
    {
        let s = match piece {
            0 => " ",
            1 => "A",
            2 => "C",
            3 => "R",
            4 => "E",
            5 => "G",
            6 => "H",
            7 => "S",
            -1 => "a",
            -2 => "c",
            -3 => "r",
            -4 => "e",
            -5 => "g",
            -6 => "h",
            _ => "s",
        };
        proof {
            reveal_strlit(" "); reveal_strlit("A"); reveal_strlit("C"); reveal_strlit("R");
            reveal_strlit("E"); reveal_strlit("G"); reveal_strlit("H"); reveal_strlit("S");
            reveal_strlit("a"); reveal_strlit("c"); reveal_strlit("r"); reveal_strlit("e");
            reveal_strlit("g"); reveal_strlit("h"); reveal_strlit("s");
            assert(s@ =~= seq![piece_char(piece)]);
        }
        String::from_str(s)
    }

    /// The pieces whose forward and backward steps keep their file, so that a
    /// notation move in that direction names the target rank directly.
    pub fn is_horizontal(piece: i8) -> (r: bool)
        ensures
            r == (piece == Self::CANNON || piece == Self::GENERAL || piece == Self::SOLDIER
                || piece == Self::CHARIOT),
    {
        piece == Self::CANNON || piece == Self::GENERAL || piece == Self::SOLDIER || piece
            == Self::CHARIOT
    }

    /// The piece kind named by a notation letter: A, C, R, B, K, N, P in either case.
    pub fn from_char(value: char) -> (r: Option<i8>)
        ensures
            r == kind_of_letter(value),
    {
        if value == ' ' {
            Some(0)
        } else if value == 'A' || value == 'a' {
            Some(1)
        } else if value == 'C' || value == 'c' {
            Some(2)
        } else if value == 'R' || value == 'r' {
            Some(3)
        } else if value == 'B' || value == 'b' {
            Some(4)
        } else if value == 'K' || value == 'k' {
            Some(5)
        } else if value == 'N' || value == 'n' {
            Some(6)
        } else if value == 'P' || value == 'p' {
            Some(7)
        } else {
            None
        }
    }
}

} // verus!
