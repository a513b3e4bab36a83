use xiangqi::board::Board;
use xiangqi::condition::Condition;
use xiangqi::ingest::{parse_result, replay_game, winner, GameResult};
use xiangqi::pst_file::parse_pst;

fn table_text(base: i32) -> String {
    let mut lines = vec!["middlegame".to_string()];
    for r in 0..10 {
        let vals: Vec<String> = (0..63).map(|i| format!(" {} ", base + r * 100 + i)).collect();
        lines.push(vals.join(","));
    }
    lines.push(String::new());
    lines.push(String::new());
    lines.push("endgame".to_string());
    for r in 0..10 {
        let vals: Vec<String> = (0..63).map(|i| format!("{}", -(base + r * 100 + i))).collect();
        lines.push(vals.join(",") + ",");
    }
    lines.join("\n")
}

#[test]
fn pst_file_is_read_by_kind_row_and_file() {
    let text = table_text(1);
    let (mg, eg) = parse_pst(&text).unwrap();
    assert_eq!(mg.len(), 7);
    assert_eq!(mg[0][0][0], 1);
    assert_eq!(mg[1][0][0], 10);
    assert_eq!(mg[6][9][8], 1 + 900 + 62);
    assert_eq!(eg[2][3][4], -(1 + 300 + 22));
    let mut board = Board::new();
    board.load_pst(mg, eg);
    assert_eq!(board.score_piece(9, 0), 1 + 900 + 18);
}

#[test]
fn pst_file_rejects_malformed_text() {
    let text = table_text(1);
    assert!(parse_pst(&text.replace(" 5 ", " x ")).is_none());
    let short: Vec<&str> = text.split('\n').take(20).collect();
    assert!(parse_pst(&short.join("\n")).is_none());
    assert!(parse_pst(&text.replace(" 7 ", " 7000000 ")).is_none());
    assert!(parse_pst(&text.replace(" 7 ", " +7 ")).is_some());
    assert!(parse_pst(&text.replace(" 7 ", " - ")).is_none());
    assert!(parse_pst("").is_none());
}

#[test]
fn game_results() {
    assert_eq!(parse_result("WIN"), Some(GameResult::Win));
    assert_eq!(parse_result("DRAW"), Some(GameResult::Draw));
    assert_eq!(parse_result("LOSS"), Some(GameResult::Loss));
    assert_eq!(parse_result("?"), Some(GameResult::Unknown));
    assert_eq!(parse_result("win"), None);
    assert_eq!(winner(GameResult::Win), Condition::RED);
    assert_eq!(winner(GameResult::Loss), Condition::BLACK);
    assert_eq!(winner(GameResult::Draw), Condition::NONE);
}

fn tokens(s: &str) -> Vec<String> {
    s.split(',').map(|t| t.to_string()).collect()
}

#[test]
fn replay_keeps_legal_games() {
    let mut board = Board::new();
    let moves = replay_game(&mut board, &tokens("C2=5,n8+7,N2+3,r9=8"), Condition::RED).unwrap();
    let texts: Vec<String> = moves.iter().map(|m| m.display()).collect();
    assert_eq!(texts, vec!["H3E3", "HXG8", "H1G3", "IXHX"]);
    assert_eq!(board.player(), Condition::RED);
}

#[test]
fn replay_truncates_at_losers_bad_move() {
    let mut board = Board::new();
    let moves = replay_game(&mut board, &tokens("C2=5,zz,N2+3"), Condition::RED).unwrap();
    assert_eq!(moves.len(), 1);
    let mut board = Board::new();
    // black's illegal move: the chariot cannot take its own horse
    let moves = replay_game(&mut board, &tokens("C2=5,r1=2"), Condition::RED).unwrap();
    assert_eq!(moves.len(), 1);
}

#[test]
fn replay_rejects_winners_bad_move() {
    let mut board = Board::new();
    assert!(replay_game(&mut board, &tokens("zz"), Condition::RED).is_none());
    let mut board = Board::new();
    assert!(replay_game(&mut board, &tokens("C2=5,n8+7,R1+5"), Condition::RED).is_none());
    let mut board = Board::new();
    assert!(replay_game(&mut board, &tokens("C2=5,zz"), Condition::NONE).unwrap().len() == 1);
}
