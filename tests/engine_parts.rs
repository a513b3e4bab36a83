use xiangqi::board::Board;
use xiangqi::chess_move::Move;
use xiangqi::condition::Condition;
use xiangqi::eval::Eval;
use xiangqi::parameters::SearchParameters;
use xiangqi::piece::Piece;
use xiangqi::search::Engine;
use xiangqi::tt::{TTEntry, TT};

fn play(board: &mut Board, moves: &str) {
    for t in moves.split(',') {
        let mut m = Move::from_string(t).unwrap();
        assert!(board.try_move(&mut m), "move {} refused", t);
    }
}

#[test]
fn move_text_round_trip() {
    let m = Move::from_string("H3HX").unwrap();
    assert_eq!((m.starty, m.startx, m.endy, m.endx), (7, 7, 0, 7));
    assert_eq!(m.display(), "H3HX");
    assert_eq!(Move::from_string(&m.display()).unwrap(), m);
    assert!(Move::from_string("J1A1").is_none());
    assert!(Move::from_string("A0A1").is_none());
    assert!(Move::from_string("A1A").is_none());
    assert!(Move::from_string("A1A2B").is_none());
    assert_eq!(Move::from_string("I1AX").unwrap().display(), "I1AX");
}

#[test]
fn move_helpers() {
    let m = Move::new(7, 1, 0, 1);
    assert_eq!(m.start_sq(), 64);
    assert_eq!(m.end_sq(), 1);
    assert_eq!(m.compute_hash(), (((2 * 37 + 8) * 37 + 2) * 37) + 1);
    assert_eq!(Move::null().compute_hash(), 0);
    assert!(Move::null().is_null());
    assert!(!m.is_null());
    assert!(m.is_quiet());
    let mut c = m;
    c.captured = -6;
    assert!(!c.is_quiet());
    assert!(m.equals(&c));
    assert!(!m.equals(&Move::new(7, 1, 1, 1)));
    assert!(Move::null().equals(&Move::null()));
    assert!(!m.equals(&Move::null()));
    assert_eq!(Move::flip_coord(&(2, 3)), (7, 5));
    assert_eq!(Move::from_coords((7, 1), (0, 1)), m);
}

#[test]
fn piece_and_condition_helpers() {
    assert_eq!(Piece::display(3), "R");
    assert_eq!(Piece::display(-6), "h");
    assert_eq!(Piece::display(0), " ");
    assert_eq!(Piece::from_char('N'), Some(6));
    assert_eq!(Piece::from_char('p'), Some(7));
    assert_eq!(Piece::from_char('K'), Some(5));
    assert_eq!(Piece::from_char('x'), None);
    assert!(Piece::is_horizontal(Piece::CHARIOT));
    assert!(!Piece::is_horizontal(Piece::HORSE));
    assert_eq!(Condition::RED.inverse(), Condition::BLACK);
    assert_eq!(Condition::DRAW.inverse(), Condition::NONE);
    assert_eq!(Condition::BLACK.display(), "Black");
    assert_eq!(Condition::into(&Condition::DRAW), 3u8);
    assert_eq!(SearchParameters::LMR(3, 4), 2);
    assert_eq!(SearchParameters::LMR(16, 25), 6);
}

#[test]
fn notation_parses_and_round_trips() {
    let mut board = Board::new();
    let m = board.parse_move("C2=5".to_string()).unwrap();
    assert_eq!(m.display(), "H3E3");
    let again = Move::from_string(&m.display()).unwrap();
    assert!(again.equals(&m));
    let n = board.parse_move("N2+3".to_string()).unwrap();
    assert_eq!(n.display(), "H1G3");
    let r = board.parse_move("R1+2".to_string()).unwrap();
    assert_eq!(r.display(), "I1I3");
    assert!(board.parse_move("X2+3".to_string()).is_none());
    assert!(board.parse_move("C2".to_string()).is_none());
    assert!(board.parse_move("C0=5".to_string()).is_none());
    assert!(board.parse_move("N2+9".to_string()).is_none());
    let mut mv = m;
    assert!(board.try_move(&mut mv));
    // Black counts files from its own right
    let b = board.parse_move("n8+7".to_string()).unwrap();
    assert_eq!(b.display(), "HXG8");
    let c = board.parse_move("c2=5".to_string()).unwrap();
    assert_eq!(c.display(), "B8E8");
}

#[test]
fn notation_tandem_prefix() {
    let mut g = vec![0i8; 90];
    g[85] = 5;
    g[4] = -5;
    g[3 * 9 + 2] = 3; // chariot C7
    g[6 * 9 + 2] = 3; // chariot C4
    let board = Board::from_grid(g, Condition::RED).unwrap();
    let front = board.parse_move("+R+1".to_string()).unwrap();
    assert_eq!(front.display(), "C7C8");
    let back = board.parse_move("-R=1".to_string()).unwrap();
    assert_eq!(back.display(), "C4I4");
}

#[test]
fn transposition_entry_round_trip() {
    let mut e = TTEntry::new();
    let best = Move::new(7, 1, 0, 1);
    e.set(42, 9500, &best, 7, 5, SearchParameters::ExactFlag);
    assert_eq!(e.get(42, 7, 3, -100, 100), (Some(best), 9500, true));
    assert_eq!(e.get(42, 7, 6, -100, 100), (Some(best), 9507, false));
    assert_eq!(e.get(43, 7, 3, -100, 100), (None, 0, false));
    e.set(42, -9500, &best, 7, 5, SearchParameters::ExactFlag);
    assert_eq!(e.get(42, 7, 5, -100, 100).1, -9500);
    e.set(42, 30, &best, 7, 5, SearchParameters::BetaFlag);
    assert_eq!(e.get(42, 0, 5, -100, 20), (Some(best), 30, true));
    assert_eq!(e.get(42, 0, 5, -100, 40).2, false);
    e.set(42, 30, &best, 7, 5, SearchParameters::AlphaFlag);
    assert_eq!(e.get(42, 0, 5, 40, 100), (Some(best), 40, true));
    assert_eq!(e.get_flag(), SearchParameters::AlphaFlag);
}

#[test]
fn transposition_table_buckets() {
    let mut tt = TT::with_size(8);
    let best = Move::new(7, 1, 0, 1);
    tt.store(3, 5, 11, &best, 0, SearchParameters::ExactFlag);
    assert_eq!(tt.probe(3).get(3, 0, 5, -1, 1).1, 11);
    // shallower result for the same index goes to the second bucket
    tt.store(11, 2, 22, &best, 0, SearchParameters::ExactFlag);
    assert_eq!(tt.probe(11).get(11, 0, 2, -1, 1).1, 22);
    assert_eq!(tt.probe(3).get(3, 0, 5, -1, 1).1, 11);
    // the last index has no second bucket
    tt.store(7, 1, 33, &best, 0, SearchParameters::ExactFlag);
    assert_eq!(tt.probe(7).get(7, 0, 1, -1, 1).1, 33);
}

#[test]
fn evaluation_of_opening_is_symmetric() {
    let board = Board::new();
    let e = Eval::new();
    assert_eq!(e.evaluate(&board), 0);
    let mut mobile = Eval::new();
    mobile.mobility_mg = [0, 1, 1, 0, 0, 1, 1];
    mobile.mobility_eg = [0, 1, 1, 0, 0, 1, 1];
    mobile.tempo_score = 10;
    assert_eq!(mobile.evaluate(&board), 10);
}

#[test]
fn evaluation_counts_material() {
    let mut board = Board::new();
    play(&mut board, "H3H4,B8B4,B3BX");
    let e = Eval::new();
    // Black to move, a horse (35) down; the phase moved a little toward the endgame
    assert_eq!(e.evaluate(&board), -35);
}

#[test]
fn pst_tables_and_display() {
    let (mg, eg) = Eval::create_pst();
    assert_eq!(mg.len(), 7);
    assert_eq!(mg[2][3][4], 100);
    assert_eq!(eg[5][0][0], 35);
    let text = Eval::display_pst(&mg);
    let lines: Vec<&str> = text.split('\n').collect();
    assert_eq!(lines.len(), 13);
    assert!(lines[0].starts_with("Advisor                                 Cannon"));
    assert!(lines[1].starts_with("20,20,20,20,20,20,20,20,20,             50,"));
    assert_eq!(lines[11].len(), 280);
}

#[test]
fn search_scenario_returns_legal_move() {
    let mut board = Board::new();
    play(&mut board, "B3E3,H8H4,H3HX,IXHX,H1G3,HXH5,A1A3,B8E8,I1I3,BXC8,B1C3,AXBX,G4G5,H5G5,I3H3,H4C4,G1I3,C4C1,D1E2,G5G4,E2F3,BXB2,H3HX,B2C2,C3D5");
    assert_eq!(board.condition(), Condition::NONE);
    let h = board.get_hash();
    let mut engine = Engine::with_tt_size(1 << 16);
    let (best, _score) = engine.search(&mut board, 6, 200_000);
    assert_eq!(board.get_hash(), h);
    assert!(!best.is_null());
    let legal = board.get_moves(false);
    assert!(legal.iter().any(|m| m.equals(&best)));
}

#[test]
fn search_without_budget_still_answers() {
    let mut board = Board::new();
    let mut engine = Engine::with_tt_size(1 << 10);
    let (best, _) = engine.search(&mut board, 6, 0);
    assert!(!best.is_null());
    assert!(board.get_moves(false).iter().any(|m| m.equals(&best)));
    let (none_depth, _) = engine.search(&mut board, 0, 1000);
    assert!(!none_depth.is_null());
}

#[test]
fn search_finds_mate_in_one() {
    let mut g = vec![0i8; 90];
    g[85] = 5;
    g[3] = -5;
    g[2 * 9 + 4] = 3;
    g[1 * 9 + 8] = 3;
    g[9 * 9] = 3;
    let mut board = Board::from_grid(g, Condition::RED).unwrap();
    let mut engine = Engine::with_tt_size(1 << 12);
    let (best, score) = engine.search(&mut board, 3, 20000);
    assert!(score > SearchParameters::Checkmate);
    let mut m = best;
    assert!(board.try_move(&mut m));
    assert_eq!(board.condition(), Condition::RED);
}

#[test]
fn qsearch_and_evaluate_leave_board() {
    let mut board = Board::new();
    play(&mut board, "H3H4,B8B4");
    let h = board.get_hash();
    let mut engine = Engine::with_tt_size(1 << 10);
    engine.maxpositions = 100000;
    let mut pv = vec![];
    let s = engine.qsearch(&mut board, -1000, 1000, &mut pv, 0, 0);
    assert_eq!(board.get_hash(), h);
    assert!(s >= engine.evaluate(&mut board, 0));
    if !pv.is_empty() {
        assert!(board.get_moves(false).iter().any(|m| m.equals(&pv[0])));
    }
}
