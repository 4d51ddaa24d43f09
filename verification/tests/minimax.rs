use chess_lib::chess::Chess;
use chess_lib::eval::{count_material, count_piece, evaluate};
use chess_lib::fen::{load_fen, STARTING_POSITION};
use chess_lib::magic::MagicBitBoards;
use chess_lib::minimax::{
    advance, alpha_beta, order_moves, prefer_higher, AlphaBeta, CacheData, Game, Window, HIGH, LOW,
};
use chess_lib::tt::PolicyResult;
use chess_lib::types::{BitBoard, BitCoord, Move, Piece};
use chess_lib::zobrist::ZobristHasher;

#[test]
fn search_reports_a_legal_move_and_the_score_of_a_search_without_table() {
    let hasher = ZobristHasher::default();
    let mbb = MagicBitBoards::default().unwrap();
    let state = load_fen(STARTING_POSITION, &hasher).unwrap();
    let chess = Chess::new(state, &mbb, &hasher);
    for depth in 1..=4 {
        let mut search = AlphaBeta::new(evaluate, 1 << 24);
        let (best, score) = search.evaluate(&chess, depth).unwrap();
        assert!(Game::legal_moves(&chess).contains(&best));
        assert_eq!(score, alpha_beta(&chess, &evaluate, depth, LOW, HIGH));
    }
}

#[test]
fn search_takes_a_hanging_queen() {
    let hasher = ZobristHasher::default();
    let mbb = MagicBitBoards::default().unwrap();
    let state = load_fen("4k3/8/8/3q4/4P3/8/8/4K3 w - -", &hasher).unwrap();
    let chess = Chess::new(state, &mbb, &hasher);
    let mut search = AlphaBeta::new(evaluate, 1 << 20);
    let (best, score) = search.evaluate(&chess, 1).unwrap();
    assert_eq!(
        best,
        Move::Normal(Piece::Pawn, BitCoord::from_file_rank(4, 3), BitCoord::from_file_rank(3, 4))
    );
    assert_eq!(score, 100);
    assert_eq!(alpha_beta(&chess, &evaluate, 0, LOW, HIGH), -800);
    assert!(search.tt_stats().filled >= 1);
}

#[test]
fn value_is_the_negated_value_of_the_best_reply() {
    let hasher = ZobristHasher::default();
    let mbb = MagicBitBoards::default().unwrap();
    let state = load_fen("4k3/8/8/3q4/4P3/8/8/4K3 w - -", &hasher).unwrap();
    let chess = Chess::new(state, &mbb, &hasher);
    for depth in 1..=3 {
        let root = alpha_beta(&chess, &evaluate, depth, LOW, HIGH);
        let replies: Vec<i64> = Game::legal_moves(&chess)
            .into_iter()
            .map(|m| {
                let mut next = chess;
                Game::make_move(&mut next, m);
                -alpha_beta(&next, &evaluate, depth - 1, LOW, HIGH)
            })
            .collect();
        assert_eq!(root, *replies.iter().max().unwrap());
    }
}

#[test]
fn search_without_a_move_reports_nothing() {
    let hasher = ZobristHasher::default();
    let mbb = MagicBitBoards::default().unwrap();
    let state = load_fen("7k/5Q2/6K1/8/8/8/8/8 b - -", &hasher).unwrap();
    let chess = Chess::new(state, &mbb, &hasher);
    let mut search = AlphaBeta::new(evaluate, 1 << 20);
    assert_eq!(search.evaluate(&chess, 2), None);
    assert_eq!(search.evaluate(&chess, 0), None);
    assert_eq!(alpha_beta(&chess, &evaluate, 2, LOW, HIGH), LOW);
    assert_eq!(alpha_beta(&chess, &evaluate, 2, -5, 5), -5);
}

#[test]
fn window_follows_the_replies() {
    let w = Window { alpha: -10, score: -10, best_move: None, cut: false };
    let kept = advance(w, 50, 'a', 20);
    assert_eq!((kept.alpha, kept.score, kept.best_move, kept.cut), (-10, -10, None, false));
    let raised = advance(w, 50, 'b', -30);
    assert_eq!((raised.alpha, raised.score, raised.best_move, raised.cut), (30, 30, Some('b'), false));
    let cut = advance(raised, 50, 'c', -50);
    assert_eq!((cut.alpha, cut.score, cut.best_move, cut.cut), (30, 50, Some('c'), true));
    assert_eq!(LOW, i64::MIN + 1);
    assert_eq!(HIGH, i64::MAX - 1);
}

#[test]
fn stored_best_move_is_tried_first() {
    let a = Move::Castle;
    let b = Move::LongCastle;
    let c = Move::Normal(Piece::King, BitCoord(8), BitCoord(16));
    assert_eq!(order_moves::<Chess>(vec![a, b, c], Some(c)), vec![c, a, b]);
    assert_eq!(order_moves::<Chess>(vec![a, b, c], Some(a)), vec![a, b, c]);
    assert_eq!(order_moves::<Chess>(vec![a, b], Some(c)), vec![a, b]);
    assert_eq!(order_moves::<Chess>(vec![a, b], None), vec![a, b]);
}

#[test]
fn deeper_search_takes_the_place() {
    let shallow = CacheData { depth: 1, score: 0, best_move: None::<Move> };
    let deep = CacheData { depth: 2, score: 0, best_move: None::<Move> };
    assert_eq!(prefer_higher(shallow, deep), PolicyResult::Replace);
    assert_eq!(prefer_higher(deep, shallow), PolicyResult::Keep);
    assert_eq!(prefer_higher(deep, deep), PolicyResult::Keep);
}

#[test]
fn material_counts_centipawns() {
    let hasher = ZobristHasher::default();
    let mbb = MagicBitBoards::default().unwrap();
    let state = load_fen(STARTING_POSITION, &hasher).unwrap();
    assert_eq!(count_material(&state.white.pieces), 900 + 1000 + 600 + 600 + 800);
    assert_eq!(count_piece(BitBoard(0b1011), 300), 900);
    assert_eq!(evaluate(&Chess::new(state, &mbb, &hasher)), 0);
    let up = load_fen("4k3/8/8/8/8/8/8/R3K3 b - -", &hasher).unwrap();
    assert_eq!(evaluate(&Chess::new(up, &mbb, &hasher)), -500);
}

#[test]
fn search_of_depth_one_reports_the_value_of_the_position() {
    let hasher = ZobristHasher::default();
    let mbb = MagicBitBoards::default().unwrap();
    for fen in [
        "4k3/8/8/3q4/4P3/8/8/4K3 w - -",
        "r3k2r/p1ppqpb1/bn2pnp1/3PN3/1p2P3/2N2Q1p/PPPBBPPP/R3K2R w KQkq -",
        "8/2p5/3p4/KP5r/1R3p1k/8/4P1P1/8 w - -",
    ] {
        let chess = Chess::new(load_fen(fen, &hasher).unwrap(), &mbb, &hasher);
        let mut search = AlphaBeta::new(evaluate, 1 << 16);
        let (_, score) = search.evaluate(&chess, 1).unwrap();
        let best = Game::legal_moves(&chess)
            .into_iter()
            .map(|m| {
                let mut next = chess;
                Game::make_move(&mut next, m);
                -evaluate(&next)
            })
            .max()
            .unwrap();
        assert_eq!(score, best);
        assert_eq!(search.eval_recursive(&chess, 1, -50, 50), score);
    }
}

#[test]
fn search_fails_hard_at_the_ends_of_the_window() {
    let hasher = ZobristHasher::default();
    let mbb = MagicBitBoards::default().unwrap();
    // White to move takes the queen and is 100 ahead at depth 1.
    let chess = Chess::new(load_fen("4k3/8/8/3q4/4P3/8/8/4K3 w - -", &hasher).unwrap(), &mbb, &hasher);
    let mut low = AlphaBeta::new(evaluate, 1 << 16);
    assert_eq!(low.eval_recursive(&chess, 1, 200, 300), 200);
    let mut high = AlphaBeta::new(evaluate, 1 << 16);
    assert_eq!(high.eval_recursive(&chess, 1, -300, 50), 50);
    // Without a legal move the search reports alpha.
    let mated = Chess::new(load_fen("7k/5Q2/6K1/8/8/8/8/8 b - -", &hasher).unwrap(), &mbb, &hasher);
    let mut stuck = AlphaBeta::new(evaluate, 1 << 16);
    assert_eq!(stuck.eval_recursive(&mated, 3, -7, 9), -7);
}

#[test]
fn table_search_value_is_the_negated_value_of_the_best_reply() {
    let hasher = ZobristHasher::default();
    let mbb = MagicBitBoards::default().unwrap();
    let state = load_fen("4k3/8/8/3q4/4P3/8/8/4K3 w - -", &hasher).unwrap();
    let chess = Chess::new(state, &mbb, &hasher);
    for depth in 1..=3 {
        let mut search = AlphaBeta::new(evaluate, 1 << 20);
        let root = search.eval_recursive(&chess, depth, LOW, HIGH);
        let replies: Vec<i64> = Game::legal_moves(&chess)
            .into_iter()
            .map(|m| {
                let mut next = chess;
                Game::make_move(&mut next, m);
                let mut below = AlphaBeta::new(evaluate, 1 << 20);
                -below.eval_recursive(&next, depth - 1, LOW, HIGH)
            })
            .collect();
        assert_eq!(root, *replies.iter().max().unwrap());
        assert_eq!(root, alpha_beta(&chess, &evaluate, depth, LOW, HIGH));
    }
}
