use chess_lib::fen::{load_fen, STARTING_POSITION};
use chess_lib::magic::MagicBitBoards;
use chess_lib::perft::{divide, divide_checked, perft, perft_checked};
use chess_lib::zobrist::ZobristHasher;

fn count(position: &str, depth: u8) -> u64 {
    let hasher = ZobristHasher::default();
    let state = load_fen(position, &hasher).unwrap();
    let mbb = MagicBitBoards::default().unwrap();
    perft(&state, depth, &mbb, &hasher)
}

const POSITION_2: &str = "r3k2r/p1ppqpb1/bn2pnp1/3PN3/1p2P3/2N2Q1p/PPPBBPPP/R3K2R w KQkq - ";
const POSITION_3: &str = "8/2p5/3p4/KP5r/1R3p1k/8/4P1P1/8 w - - ";
const POSITION_4: &str = "r3k2r/Pppp1ppp/1b3nbN/nP6/BBP1P3/q4N2/Pp1P2PP/R2Q1RK1 w kq - 0 1";
const POSITION_5: &str = "rnbq1k1r/pp1Pbppp/2p5/8/2B5/8/PPP1NnPP/RNBQK2R w KQ - 1 8";
const POSITION_6: &str = "r4rk1/1pp1qppp/p1np1n2/2b1p1B1/2B1P1b1/P1NP1N2/1PP1QPPP/R4RK1 w - - 0 10 ";
const PROMOTIONS: &str = "n1n5/PPPk4/8/8/8/8/4Kppp/5N1N b - - 0 1";

#[test]
fn starting_0() {
    assert_eq!(count(STARTING_POSITION, 0), 1);
}

#[test]
fn starting_1() {
    assert_eq!(count(STARTING_POSITION, 1), 20);
}

#[test]
fn starting_2() {
    assert_eq!(count(STARTING_POSITION, 2), 400);
}

#[test]
fn starting_3() {
    assert_eq!(count(STARTING_POSITION, 3), 8902);
}

#[test]
fn starting_4() {
    assert_eq!(count(STARTING_POSITION, 4), 197_281);
}

#[test]
fn starting_5() {
    assert_eq!(count(STARTING_POSITION, 5), 4_865_609);
}

#[test]
fn position_2_1() {
    assert_eq!(count(POSITION_2, 1), 48);
}

#[test]
fn position_2_2() {
    assert_eq!(count(POSITION_2, 2), 2_039);
}

#[test]
fn position_2_3() {
    assert_eq!(count(POSITION_2, 3), 97_862);
}

#[test]
fn position_3_1() {
    assert_eq!(count(POSITION_3, 1), 14);
}

#[test]
fn position_3_2() {
    assert_eq!(count(POSITION_3, 2), 191);
}

#[test]
fn position_3_3() {
    assert_eq!(count(POSITION_3, 3), 2_812);
}

#[test]
fn position_3_4() {
    assert_eq!(count(POSITION_3, 4), 43_238);
}

#[test]
fn position_3_5() {
    assert_eq!(count(POSITION_3, 5), 674_624);
}

#[test]
fn position_4_1() {
    assert_eq!(count(POSITION_4, 1), 6);
}

#[test]
fn position_4_2() {
    assert_eq!(count(POSITION_4, 2), 264);
}

#[test]
fn position_4_3() {
    assert_eq!(count(POSITION_4, 3), 9_467);
}

#[test]
fn position_4_4() {
    assert_eq!(count(POSITION_4, 4), 422_333);
}

#[test]
fn position_5_1() {
    assert_eq!(count(POSITION_5, 1), 44);
}

#[test]
fn position_5_2() {
    assert_eq!(count(POSITION_5, 2), 1_486);
}

#[test]
fn position_5_3() {
    assert_eq!(count(POSITION_5, 3), 62_379);
}

#[test]
fn position_6_1() {
    assert_eq!(count(POSITION_6, 1), 46);
}

#[test]
fn position_6_2() {
    assert_eq!(count(POSITION_6, 2), 2_079);
}

#[test]
fn position_6_3() {
    assert_eq!(count(POSITION_6, 3), 89_890);
}

#[test]
fn promotions_1() {
    assert_eq!(count(PROMOTIONS, 1), 24);
}

#[test]
fn promotions_2() {
    assert_eq!(count(PROMOTIONS, 2), 496);
}

#[test]
fn promotions_3() {
    assert_eq!(count(PROMOTIONS, 3), 9_483);
}

#[test]
fn divide_lists_every_root_move() {
    let hasher = ZobristHasher::default();
    let state = load_fen(STARTING_POSITION, &hasher).unwrap();
    let mbb = MagicBitBoards::default().unwrap();
    let counts = divide(&state, 2, &mbb, &hasher);
    assert_eq!(counts.len(), 20);
    assert!(counts.iter().all(|(_, n)| *n == 20));
    assert!(counts.iter().any(|(m, _)| m == "e2e4"));
    assert!(counts.iter().any(|(m, _)| m == "g1f3"));
    assert_eq!(counts.iter().map(|(_, n)| *n).sum::<u64>(), 400);
}

#[test]
fn checked_counts_agree_where_they_fit() {
    let hasher = ZobristHasher::default();
    let state = load_fen(POSITION_2, &hasher).unwrap();
    let mbb = MagicBitBoards::default().unwrap();
    assert_eq!(perft_checked(&state, 0, &mbb, &hasher), Some(1));
    assert_eq!(perft_checked(&state, 2, &mbb, &hasher), Some(2_039));
    assert_eq!(perft_checked(&state, 3, &mbb, &hasher), Some(perft(&state, 3, &mbb, &hasher)));
    let checked = divide_checked(&state, 2, &mbb, &hasher).unwrap();
    assert_eq!(checked, divide(&state, 2, &mbb, &hasher));
    assert_eq!(checked.len(), 48);
    assert_eq!(checked.iter().map(|(_, n)| *n).sum::<u64>(), 2_039);
}
