use vstd::prelude::*;
use vstd::string::StringExecFns;

verus! {

/// A side of the game, extended with the two outcomes that are not a side.
#[derive(Copy, Clone, Debug, PartialEq, Eq, Structural)]
pub enum Condition {
    RED,
    BLACK,
    NONE,
    DRAW,
}

/// The other side; neither side has no other.
pub open spec fn opponent(c: Condition) -> Condition {
    match c {
        Condition::RED => Condition::BLACK,
        Condition::BLACK => Condition::RED,
        _ => Condition::NONE,
    }
}

/// The code of a condition: Red 0, Black 1, none 2, draw 3.
pub open spec fn condition_code(c: Condition) -> u8 {
    match c {
        Condition::RED => 0u8,
        Condition::BLACK => 1u8,
        Condition::NONE => 2u8,
        Condition::DRAW => 3u8,
    }
}

/// The name of a condition.
pub open spec fn condition_name(c: Condition) -> Seq<char> {
    match c {
        Condition::RED => seq!['R', 'e', 'd'],
        Condition::BLACK => seq!['B', 'l', 'a', 'c', 'k'],
        Condition::NONE => seq!['N', 'o', 'n', 'e'],
        Condition::DRAW => seq!['D', 'r', 'a', 'w'],
    }
}

impl Condition {
    pub fn inverse(&self) -> (r: Self)
        ensures
            r == opponent(*self),
    {
        match self {
            Condition::RED => Condition::BLACK,
            Condition::BLACK => Condition::RED,
            _ => Condition::NONE,
        }
    }

    pub fn display(&self) -> (r: String)
        ensures
            r@ == condition_name(*self),
    {
        let s = match self {
            Condition::RED => "Red",
            Condition::BLACK => "Black",
            Condition::NONE => "None",
            Condition::DRAW => "Draw",
        };
        proof {
            reveal_strlit("Red");
            reveal_strlit("Black");
            reveal_strlit("None");
            reveal_strlit("Draw");
            assert(s@ =~= condition_name(*self));
        }
        String::from_str(s)
    }

    pub fn into(&self) -> (r: u8)
        ensures
            r == condition_code(*self),
    {
        match self {
            Condition::RED => 0,
            Condition::BLACK => 1,
            Condition::NONE => 2,
            Condition::DRAW => 3,
        }
    }
}

} // verus!
