//! Replaying recorded games: a result line and a list of moves in Chinese
//! notation, played from the opening.
use vstd::prelude::*;
use crate::board::{Board, BoardView};
use crate::chess_move::Move;
use crate::condition::Condition;
use crate::notation::parsed;

verus! {

/// A recorded game's result from Red's side; `Unknown` games are skipped.
#[derive(Copy, Clone, Debug, PartialEq, Eq, Structural)]
pub enum GameResult {
    Win,
    Draw,
    Loss,
    Unknown,
}

/// The result that a result line names.
pub open spec fn result_of(line: Seq<char>) -> Option<GameResult> {
    if line == seq!['W', 'I', 'N'] {
        Some(GameResult::Win)
    } else if line == seq!['D', 'R', 'A', 'W'] {
        Some(GameResult::Draw)
    } else if line == seq!['L', 'O', 'S', 'S'] {
        Some(GameResult::Loss)
    } else if line == seq!['?'] {
        Some(GameResult::Unknown)
    } else {
        None
    }
}

/// The side that won a game: Red for a win, Black for a loss, neither else.
pub open spec fn winner_of(r: GameResult) -> Condition {
    match r {
        GameResult::Win => Condition::RED,
        GameResult::Loss => Condition::BLACK,
        _ => Condition::NONE,
    }
}

/// The moves kept when the recorded `tokens` are played from `v`: a move
/// that cannot be read or made ends the game when the loser is to move, and
/// rejects it (`None`) when the winner is; reaching a drawn position with
/// moves left rejects it too.
pub open spec fn replay(v: BoardView, tokens: Seq<Seq<char>>, winner: Condition) -> Option<Seq<Move>>
    decreases tokens.len(),
{
    if tokens.len() == 0 {
        Some(Seq::empty())
    } else {
        match parsed(v, tokens[0]) {
            None => if v.player != winner { Some(Seq::empty()) } else { None },
            Some(m) => {
                if v.outcome() == Condition::DRAW {
                    None
                } else {
                    let f = Move { captured: v.grid[m.to_sq()], ..m };
                    if m.on_board() && !v.exceeded && v.ply < i32::MAX && v.legal(f) {
                        match replay(v.make(f), tokens.drop_first(), winner) {
                            Some(rest) => Some(seq![v.stamped(f)] + rest),
                            None => None,
                        }
                    } else if v.player != winner {
                        Some(Seq::empty())
                    } else {
                        None
                    }
                }
            },
        }
    }
}

/// The characters of each string.
pub open spec fn texts(v: Seq<String>) -> Seq<Seq<char>> {
    v.map_values(|s: String| s@)
}

pub fn parse_result(line: &str) -> (r: Option<GameResult>)
    ensures
        r == result_of(line@),
{
    let n = vstd::string::StrSliceExecFns::unicode_len(line);
    proof {
        reveal_strlit("WIN");
    }
    if n == 3 && vstd::string::StrSliceExecFns::get_char(line, 0) == 'W'
        && vstd::string::StrSliceExecFns::get_char(line, 1) == 'I'
        && vstd::string::StrSliceExecFns::get_char(line, 2) == 'N' {
        assert(line@ =~= seq!['W', 'I', 'N']);
        return Some(GameResult::Win);
    }
    if n == 4 && vstd::string::StrSliceExecFns::get_char(line, 0) == 'D'
        && vstd::string::StrSliceExecFns::get_char(line, 1) == 'R'
        && vstd::string::StrSliceExecFns::get_char(line, 2) == 'A'
        && vstd::string::StrSliceExecFns::get_char(line, 3) == 'W' {
        assert(line@ =~= seq!['D', 'R', 'A', 'W']);
        return Some(GameResult::Draw);
    }
    if n == 4 && vstd::string::StrSliceExecFns::get_char(line, 0) == 'L'
        && vstd::string::StrSliceExecFns::get_char(line, 1) == 'O'
        && vstd::string::StrSliceExecFns::get_char(line, 2) == 'S'
        && vstd::string::StrSliceExecFns::get_char(line, 3) == 'S' {
        assert(line@ =~= seq!['L', 'O', 'S', 'S']);
        return Some(GameResult::Loss);
    }
    if n == 1 && vstd::string::StrSliceExecFns::get_char(line, 0) == '?' {
        assert(line@ =~= seq!['?']);
        return Some(GameResult::Unknown);
    }
    proof {
        if line@.len() == 3 && line@ == seq!['W', 'I', 'N'] {
            assert(line@[0] == 'W' && line@[1] == 'I' && line@[2] == 'N');
        }
        if line@.len() == 4 && line@ == seq!['D', 'R', 'A', 'W'] {
            assert(line@[0] == 'D');
        }
        if line@.len() == 4 && line@ == seq!['L', 'O', 'S', 'S'] {
            assert(line@[0] == 'L');
        }
        if line@ == seq!['?'] {
            assert(line@[0] == '?');
        }
    }
    None
}

pub fn winner(r: GameResult) -> (c: Condition)
    ensures
        c == winner_of(r),
{
    match r {
        GameResult::Win => Condition::RED,
        GameResult::Loss => Condition::BLACK,
        _ => Condition::NONE,
    }
}

/// Plays the recorded moves `tokens` on `board`; returns the moves kept
/// (each as `mov` stamped it), or `None` when the game is rejected.
pub fn replay_game(board: &mut Board, tokens: &Vec<String>, winner: Condition) -> (r: Option<Vec<Move>>)
    requires
        old(board).inv(),
    ensures
        final(board).inv(),
        match r {
            Some(ms) => replay(old(board)@, texts(tokens@), winner) == Some(ms@),
            None => replay(old(board)@, texts(tokens@), winner) is None,
        },
{
    let ghost v0 = board@;
    let ghost toks = texts(tokens@);
    let mut played: Vec<Move> = Vec::new();
    let mut i: usize = 0;
    assert(toks.subrange(0, toks.len() as int) =~= toks);
    proof {
        if let Some(rest) = replay(v0, toks, winner) {
            assert(played@ + rest =~= rest);
        }
    }
    while i < tokens.len()
        invariant
            board.inv(),
            i <= tokens@.len(),
            toks == texts(tokens@),
            v0 == old(board)@,
            replay(v0, toks, winner) == match replay(board@, toks.subrange(i as int, toks.len() as int), winner) {
                Some(rest) => Some(played@ + rest),
                None => None,
            },
        decreases tokens.len() - i,
    {
        let ghost v = board@;
        let ghost rest = toks.subrange(i as int, toks.len() as int);
        assert(rest[0] == tokens@[i as int]@);
        assert(rest.drop_first() =~= toks.subrange(i + 1, toks.len() as int));
        let mv = board.parse_move(tokens[i].clone());
        assert(mv == parsed(v, rest[0]));
        match mv {
            None => {
                assert(replay(v, rest, winner) == if v.player != winner { Some(Seq::<Move>::empty()) } else { None::<Seq<Move>> });
                if board.player() != winner {
                    assert(played@ + Seq::<Move>::empty() =~= played@);
                    return Some(played);
                }
                return None;
            },
            Some(m) => {
                if board.condition() == Condition::DRAW {
                    assert(replay(v, rest, winner) is None);
                    return None;
                }
                let mut f = m;
                if !board.try_move(&mut f) {
                    assert(replay(v, rest, winner) == if v.player != winner { Some(Seq::<Move>::empty()) } else { None::<Seq<Move>> });
                    if board.player() != winner {
                        assert(played@ + Seq::<Move>::empty() =~= played@);
                        return Some(played);
                    }
                    return None;
                }
                proof {
                    let g = Move { captured: v.grid[m.to_sq()], ..m };
                    assert(f == v.stamped(g));
                    if let Some(tail) = replay(board@, rest.drop_first(), winner) {
                        assert(played@.push(f) + tail =~= played@ + (seq![f] + tail));
                    }
                }
                played.push(f);
            },
        }
        i = i + 1;
    }
    assert(toks.subrange(i as int, toks.len() as int) =~= Seq::<Seq<char>>::empty());
    assert(played@ + Seq::<Move>::empty() =~= played@);
    Some(played)
}

} // verus!
