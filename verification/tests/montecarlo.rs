use chess_lib::chess::Chess;
use chess_lib::fen::{load_fen, STARTING_POSITION};
use chess_lib::magic::MagicBitBoards;
use chess_lib::montecarlo::{settle, Game, GameResult, GameState, Node, Player, MCTS};
use chess_lib::types::{BitCoord, Move, Piece};
use chess_lib::zobrist::ZobristHasher;

#[test]
fn results_reverse() {
    assert_eq!(GameResult::reverse(GameResult::Win), GameResult::Loss);
    assert_eq!(GameResult::reverse(GameResult::Loss), GameResult::Win);
    assert_eq!(GameResult::reverse(GameResult::Draw), GameResult::Draw);
    assert_eq!(settle(Player::One, Player::One, GameResult::Loss), GameResult::Win);
    assert_eq!(settle(Player::One, Player::Two, GameResult::Loss), GameResult::Loss);
}

#[test]
fn back_propagation_flips_the_result_at_each_node() {
    let hasher = ZobristHasher::default();
    let mbb = MagicBitBoards::default().unwrap();
    let state = load_fen(STARTING_POSITION, &hasher).unwrap();
    let chess = Chess::new(state, &mbb, &hasher);
    let mut tree: MCTS<Move, Chess> = MCTS::new(chess);
    let e4 = Move::Normal(Piece::Pawn, BitCoord::from_file_rank(4, 1), BitCoord::from_file_rank(4, 3));
    let d4 = Move::Normal(Piece::Pawn, BitCoord::from_file_rank(3, 1), BitCoord::from_file_rank(3, 3));
    let e5 = Move::Normal(Piece::Pawn, BitCoord::from_file_rank(4, 6), BitCoord::from_file_rank(4, 4));
    assert!(tree.node(0).children.is_empty());
    let first = tree.expand(0, e4);
    let second = tree.expand(0, d4);
    let below = tree.expand(first, e5);
    assert_eq!((first, second, below), (1, 2, 3));
    assert_eq!(tree.size(), 4);
    assert_eq!(tree.node(below).parent, Some(first));
    assert_eq!(tree.node(below).mv, Some(e5));
    assert_eq!(tree.node(0).children, vec![1, 2]);

    tree.back_propagate(below, GameResult::Win);
    assert_eq!((tree.node(below).wins, tree.node(below).simulations), (2, 1));
    assert_eq!((tree.node(first).wins, tree.node(first).simulations), (0, 1));
    assert_eq!((tree.node(0).wins, tree.node(0).simulations), (2, 1));
    assert_eq!((tree.node(second).wins, tree.node(second).simulations), (0, 0));

    tree.back_propagate(second, GameResult::Draw);
    assert_eq!((tree.node(second).wins, tree.node(second).simulations), (1, 1));
    assert_eq!((tree.node(0).wins, tree.node(0).simulations), (3, 2));

    // Both moves have one simulation: the first tried is the best.
    assert_eq!(tree.best_move(), e4);
    assert_eq!(tree.playouts(), 2);
    tree.back_propagate(second, GameResult::Loss);
    assert_eq!(tree.best_move(), d4);
    assert_eq!(tree.playouts(), 3);
    assert_eq!(tree.move_scores(), vec![(e4, 0, 1), (d4, 1, 2)]);

    let legal = Game::legal_moves(tree.initial_state());
    let fresh = tree.unexplored_moves(0, &legal);
    assert_eq!(fresh.len(), 18);
    assert!(!fresh.contains(&e4));
    assert!(!fresh.contains(&d4));
    assert_eq!(tree.unexplored_moves(second, &vec![e5]), vec![e5]);
    assert_eq!(tree.unexplored_moves(first, &vec![e5]), Vec::<Move>::new());
}

#[test]
fn fresh_nodes_have_no_counts() {
    let root: Node<Move> = Node::root();
    assert_eq!((root.wins, root.simulations, root.parent, root.mv), (0, 0, None, None));
    let child = Node::child_of(0, Move::Castle);
    assert_eq!((child.wins, child.simulations), (0, 0));
    assert_eq!(child.parent, Some(0));
    assert_eq!(child.mv, Some(Move::Castle));
    assert!(child.children.is_empty());
}

#[test]
fn chess_ends_by_mate_stalemate_and_the_fifty_move_clock() {
    let hasher = ZobristHasher::default();
    let mbb = MagicBitBoards::default().unwrap();
    let game = |fen: &str| Chess::new(load_fen(fen, &hasher).unwrap(), &mbb, &hasher);
    assert_eq!(Game::game_state(&game(STARTING_POSITION)), GameState::Ongoing);
    assert_eq!(
        Game::game_state(&game("R5k1/5ppp/8/8/8/8/8/6K1 b - -")),
        GameState::Finished(GameResult::Loss)
    );
    assert_eq!(
        Game::game_state(&game("7k/5Q2/6K1/8/8/8/8/8 b - -")),
        GameState::Finished(GameResult::Draw)
    );
    let mut late = game(STARTING_POSITION);
    late.state.fifty_move_clock = 50;
    assert_eq!(Game::game_state(&late), GameState::Finished(GameResult::Draw));
    assert_eq!(Game::active_player(&late), Player::One);
    assert!(Game::has_budget(&late));
    late.state.fifty_move_clock = 255;
    assert!(!Game::has_budget(&late));
    assert_eq!(Game::active_player(&game("8/8/8/8/8/8/8/8 b - -")), Player::Two);
}
