use xiangqi::board::Board;
use xiangqi::chess_move::Move;
use xiangqi::condition::Condition;

fn empty_grid() -> Vec<i8> {
    vec![0; 90]
}

fn sq(row: usize, col: usize) -> usize {
    row * 9 + col
}

fn has_move(moves: &[Move], text: &str) -> bool {
    let m = Move::from_string(text).unwrap();
    moves.iter().any(|x| x.equals(&m))
}

fn play(board: &mut Board, moves: &str) {
    for t in moves.split(',') {
        let mut m = Move::from_string(t).unwrap();
        assert!(board.try_move(&mut m), "move {} refused", t);
    }
}

#[test]
fn opening_has_44_moves() {
    let mut board = Board::new();
    assert_eq!(board.get_moves(false).len(), 44);
    assert_eq!(board.get_moves(true).len(), 2);
    assert_eq!(board.condition(), Condition::NONE);
    assert!(!board.is_check());
}

#[test]
fn opening_hash_restored_by_every_make_unmake() {
    let mut board = Board::new();
    let h = board.get_hash();
    let mg = (board.score_mg(Condition::RED), board.score_mg(Condition::BLACK));
    let text = board.display();
    for m in board.get_moves(false) {
        let mut m = m;
        board.mov(&mut m);
        assert_ne!(board.get_hash(), h);
        assert_eq!(board.player(), Condition::BLACK);
        board.unmov(&mut m);
        assert_eq!(board.get_hash(), h);
        assert_eq!((board.score_mg(Condition::RED), board.score_mg(Condition::BLACK)), mg);
        assert_eq!(board.ply(), 0);
        assert_eq!(board.player(), Condition::RED);
        assert_eq!(board.display(), text);
    }
}

#[test]
fn capture_make_unmake_restores_state() {
    let mut board = Board::new();
    play(&mut board, "H3H4,B8B4");
    let h = board.get_hash();
    let scores = (
        board.score_mg(Condition::RED),
        board.score_mg(Condition::BLACK),
        board.score_eg(Condition::RED),
        board.score_eg(Condition::BLACK),
    );
    let last = board.last_capture();
    let captures = board.get_moves(true);
    let mut m = *captures.iter().find(|m| m.display() == "B3BX").expect("cannon capture");
    assert_eq!(m.captured, -6);
    board.mov(&mut m);
    assert_eq!(board.last_capture(), 2);
    assert_eq!(board.score_mg(Condition::BLACK), scores.1 - 35);
    board.unmov(&mut m);
    assert_eq!(board.get_hash(), h);
    assert_eq!(board.last_capture(), last);
    assert_eq!(
        (
            board.score_mg(Condition::RED),
            board.score_mg(Condition::BLACK),
            board.score_eg(Condition::RED),
            board.score_eg(Condition::BLACK),
        ),
        scores
    );
}

#[test]
fn transposed_move_orders_give_same_hash() {
    let mut a = Board::new();
    let mut b = Board::new();
    play(&mut a, "H3H4,B8B5,B3B4");
    play(&mut b, "B3B4,B8B5,H3H4");
    assert_eq!(a.display(), b.display());
    let grid_a: Vec<i8> = (0..90).map(|i| a.cell(i)).collect();
    let grid_b: Vec<i8> = (0..90).map(|i| b.cell(i)).collect();
    assert_eq!(grid_a, grid_b);
    let fresh = Board::from_grid(grid_a, Condition::BLACK).unwrap();
    assert_eq!(fresh.score_mg(Condition::RED), a.score_mg(Condition::RED));
    assert_eq!(fresh.score_mg(Condition::BLACK), a.score_mg(Condition::BLACK));
    assert_eq!(fresh.score_eg(Condition::BLACK), b.score_eg(Condition::BLACK));
}

#[test]
fn replayed_position_hash_matches() {
    let mut board = Board::new();
    let start = board.get_hash();
    play(&mut board, "B1C3,BXC8,C3B1,C8BX");
    assert_eq!(board.get_hash(), start);
    play(&mut board, "B1C3");
    assert_ne!(board.get_hash(), start);
}

#[test]
fn flying_general_move_is_excluded() {
    let mut g = empty_grid();
    g[sq(9, 4)] = 5;
    g[sq(0, 4)] = -5;
    g[sq(5, 4)] = 3;
    let mut board = Board::from_grid(g, Condition::RED).unwrap();
    let moves = board.get_moves(false);
    assert!(!has_move(&moves, "E5D5"));
    assert!(!has_move(&moves, "E5F5"));
    assert!(has_move(&moves, "E5E6"));
    assert!(has_move(&moves, "E5E4"));
    assert!(has_move(&moves, "E1D1"));
    assert!(has_move(&moves, "E1E2"));
    // the chariot may not take the general
    assert!(!has_move(&moves, "E5EX"));
}

#[test]
fn from_grid_rejects_bad_setups() {
    let mut g = empty_grid();
    g[sq(9, 4)] = 5;
    assert!(Board::from_grid(g.clone(), Condition::RED).is_none());
    g[sq(0, 4)] = -5;
    assert!(Board::from_grid(g.clone(), Condition::DRAW).is_none());
    assert!(Board::from_grid(g.clone(), Condition::RED).is_some());
    g[sq(9, 3)] = 5;
    assert!(Board::from_grid(g.clone(), Condition::RED).is_none());
    g[sq(9, 3)] = 9;
    assert!(Board::from_grid(g.clone(), Condition::RED).is_none());
    assert!(Board::from_grid(vec![0; 89], Condition::RED).is_none());
}

#[test]
fn soldier_gains_sideways_moves_after_river() {
    let mut g = empty_grid();
    g[sq(9, 3)] = 5;
    g[sq(0, 5)] = -5;
    g[sq(5, 0)] = 7; // red soldier before the river
    g[sq(4, 8)] = 7; // red soldier across the river
    g[sq(4, 2)] = -7; // black soldier before its river
    g[sq(5, 6)] = -7; // black soldier across
    let board = Board::from_grid(g.clone(), Condition::RED).unwrap();
    let mut before = vec![];
    board.soldier_moves(5, 0, &mut before);
    assert_eq!(before.len(), 1);
    assert_eq!(before[0].display(), "A5A6");
    let mut after = vec![];
    board.soldier_moves(4, 8, &mut after);
    let texts: Vec<String> = after.iter().map(|m| m.display()).collect();
    assert_eq!(texts, vec!["I6I7", "I6H6"]);
    let mut g2 = empty_grid();
    g2[sq(9, 3)] = 5;
    g2[sq(0, 5)] = -5;
    g2[sq(4, 4)] = 7;
    g2[sq(5, 4)] = -7;
    let red = Board::from_grid(g2.clone(), Condition::RED).unwrap();
    let mut order = vec![];
    red.soldier_moves(4, 4, &mut order);
    let texts: Vec<String> = order.iter().map(|m| m.display()).collect();
    assert_eq!(texts, vec!["E6E7", "E6F6", "E6D6"]);
    let blk = Board::from_grid(g2, Condition::BLACK).unwrap();
    let mut order = vec![];
    blk.soldier_moves(5, 4, &mut order);
    let texts: Vec<String> = order.iter().map(|m| m.display()).collect();
    assert_eq!(texts, vec!["E5E4", "E5F5", "E5D5"]);
    let black = Board::from_grid(g, Condition::BLACK).unwrap();
    let mut b1 = vec![];
    black.soldier_moves(4, 2, &mut b1);
    assert_eq!(b1.len(), 1);
    assert_eq!(b1[0].display(), "C6C5");
    let mut b2 = vec![];
    black.soldier_moves(5, 6, &mut b2);
    assert_eq!(b2.len(), 3);
}

#[test]
fn horse_and_elephant_blocks() {
    let board = Board::new();
    let mut horse = vec![];
    board.horse_moves(9, 1, &mut horse, 0, 0);
    let texts: Vec<String> = horse.iter().map(|m| m.display()).collect();
    assert_eq!(texts, vec!["B1A3", "B1C3"]);
    let mut elephant = vec![];
    board.elephant_moves(9, 2, &mut elephant);
    assert_eq!(elephant.len(), 2);

    let mut g = empty_grid();
    g[sq(9, 4)] = 5;
    g[sq(0, 4)] = -5;
    g[sq(9, 2)] = 4;
    g[sq(8, 3)] = -7; // elephant midpoint toward e3
    g[sq(5, 5)] = 6;
    g[sq(4, 5)] = 1; // hobbling leg toward row 3
    let board = Board::from_grid(g, Condition::RED).unwrap();
    let mut el = vec![];
    board.elephant_moves(9, 2, &mut el);
    let texts: Vec<String> = el.iter().map(|m| m.display()).collect();
    assert_eq!(texts, vec!["C1A3"]);
    let mut ho = vec![];
    board.horse_moves(5, 5, &mut ho, 0, 0);
    let texts: Vec<String> = ho.iter().map(|m| m.display()).collect();
    assert!(!texts.contains(&"F5E7".to_string()));
    assert!(!texts.contains(&"F5G7".to_string()));
    assert!(texts.contains(&"F5D6".to_string()));
    assert!(texts.contains(&"F5E3".to_string()));
    assert_eq!(texts.len(), 6);
}

#[test]
fn cannon_needs_exactly_one_screen() {
    let mut g = empty_grid();
    g[sq(9, 3)] = 5;
    g[sq(0, 5)] = -5;
    g[sq(7, 0)] = 2;
    g[sq(5, 0)] = -3; // no screen: no capture
    let board = Board::from_grid(g.clone(), Condition::RED).unwrap();
    let mut m = vec![];
    board.cannon_moves(7, 0, &mut m, 0, 0);
    assert!(m.iter().all(|x| x.captured == 0));
    assert!(m.iter().any(|x| x.display() == "A3A4"));
    assert!(!m.iter().any(|x| x.display() == "A3A5"));

    g[sq(6, 0)] = 7; // one screen
    let board = Board::from_grid(g.clone(), Condition::RED).unwrap();
    let mut m = vec![];
    board.cannon_moves(7, 0, &mut m, 0, 0);
    let caps: Vec<String> = m.iter().filter(|x| x.captured != 0).map(|x| x.display()).collect();
    assert_eq!(caps, vec!["A3A5"]);

    g[sq(6, 0)] = 7;
    g[sq(5, 0)] = -7;
    g[sq(4, 0)] = -3; // two screens before the chariot
    let board = Board::from_grid(g, Condition::RED).unwrap();
    let mut m = vec![];
    board.cannon_moves(7, 0, &mut m, 0, 0);
    let caps: Vec<String> = m.iter().filter(|x| x.captured != 0).map(|x| x.display()).collect();
    assert_eq!(caps, vec!["A3A5"]);
}

#[test]
fn repetition_latches_draw_and_unmake_clears_it() {
    let mut board = Board::new();
    let cycle = ["A1A2", "AXA9", "A2A1", "A9AX"];
    let mut last = Move::null();
    let mut refused = false;
    for _ in 0..3 {
        for t in cycle.iter() {
            let mut m = Move::from_string(t).unwrap();
            if board.try_move(&mut m) {
                last = m;
            } else {
                refused = true;
            }
        }
    }
    assert!(refused);
    assert!(board.is_draw());
    assert_eq!(board.condition(), Condition::DRAW);
    board.unmov(&mut last);
    assert!(!board.is_draw());
    assert_eq!(board.condition(), Condition::NONE);
}

#[test]
fn try_move_rejects_illegal_moves() {
    let mut board = Board::new();
    let h = board.get_hash();
    for t in ["A1A5", "B3B9", "E1E3", "AXA9", "B1D2", "E4D4"] {
        let mut m = Move::from_string(t).unwrap();
        assert!(!board.try_move(&mut m), "{} accepted", t);
        assert_eq!(board.get_hash(), h);
    }
    let mut m = Move::new(9, 0, 12, 0);
    assert!(!board.try_move(&mut m));
    let mut ok = Move::from_string("A1A3").unwrap();
    assert!(board.try_move(&mut ok));
    assert_eq!(board.player(), Condition::BLACK);
}

#[test]
fn check_detection() {
    let mut g = empty_grid();
    g[sq(9, 4)] = 5;
    g[sq(0, 3)] = -5;
    g[sq(2, 4)] = -3;
    let mut board = Board::from_grid(g, Condition::RED).unwrap();
    assert!(board.is_check());
    let moves = board.get_moves(false);
    let texts: Vec<String> = moves.iter().map(|m| m.display()).collect();
    assert_eq!(texts, vec!["E1F1"]);
    assert!(!board.last_check());
}

#[test]
fn checkmate_outcome() {
    let mut g = empty_grid();
    g[sq(9, 4)] = 5;
    g[sq(0, 3)] = -5;
    g[sq(2, 4)] = -3;
    g[sq(2, 5)] = -3;
    g[sq(1, 3)] = -3;
    let mut board = Board::from_grid(g, Condition::RED).unwrap();
    assert_eq!(board.get_moves(false).len(), 0);
    assert_eq!(board.condition(), Condition::BLACK);
}

#[test]
fn null_move_only_flips_side() {
    let mut board = Board::new();
    let h = board.get_hash();
    let mut n = Move::null();
    board.mov(&mut n);
    assert_eq!(board.player(), Condition::BLACK);
    assert_eq!(board.ply(), 1);
    assert_ne!(board.get_hash(), h);
    board.unmov(&mut n);
    assert_eq!(board.get_hash(), h);
    assert_eq!(board.ply(), 0);
}

#[test]
fn score_piece_reads_oriented_table() {
    let board = Board::new();
    assert_eq!(board.score_piece(9, 0), 100);
    assert_eq!(board.score_piece(0, 4), 10);
    let mut g = empty_grid();
    g[sq(9, 4)] = 5;
    g[sq(0, 4)] = -5;
    g[sq(7, 1)] = 2;
    let mut mg = vec![vec![vec![0; 9]; 10]; 7];
    mg[1][7][1] = 11;
    mg[1][2][7] = 22;
    let eg = mg.clone();
    let mut b = Board::from_grid(g.clone(), Condition::RED).unwrap();
    b.load_pst(mg.clone(), eg.clone());
    assert_eq!(b.score_piece(7, 1), 11);
    assert_eq!(b.score_mg(Condition::RED), 11);
    let mut bb = Board::from_grid(g, Condition::BLACK).unwrap();
    bb.load_pst(mg, eg);
    assert_eq!(bb.score_piece(7, 1), 22);
}

#[test]
fn draw_after_sixty_quiet_plies() {
    let mut board = Board::new();
    let cycle = ["B1C3", "BXC8", "C3B1", "C8BX", "H1G3", "HXG8", "G3H1", "G8HX", "A1A2", "IXI9", "A2A1", "I9IX"];
    let mut count = 0;
    for _ in 0..10 {
        for t in cycle.iter() {
            if board.is_draw() {
                break;
            }
            let mut m = Move::from_string(t).unwrap();
            if board.try_move(&mut m) {
                count += 1;
            }
        }
    }
    assert!(board.is_draw());
    assert!(count <= 60);
}

#[test]
fn board_display_shape() {
    let board = Board::new();
    let text = board.display();
    let lines: Vec<&str> = text.split('\n').collect();
    assert_eq!(lines.len(), 22);
    assert_eq!(lines[0], "  +---+---+---+---+---+---+---+---+---+");
    assert_eq!(lines[1], "X | r | h | e | a | g | a | e | h | r |");
    assert_eq!(lines[19], "1 | R | H | E | A | G | A | E | H | R |");
    assert_eq!(lines[21], "    A   B   C   D   E   F   G   H   I ");
}
