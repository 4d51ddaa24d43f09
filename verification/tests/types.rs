use chess_lib::types::{BitBoard, BitCoord, Colour, Piece, Pieces};

#[test]
fn lib_it_works() {
    assert_eq!(2 + 2, 4);
}

#[test]
fn test_put_piece() {
    let mut pieces = Pieces::empty();
    pieces.put_piece(Piece::Knight, BitCoord(27));
    assert_eq!(pieces.get_piece(BitCoord(27)), Some(Piece::Knight));
}

#[test]
fn pieces_remove_and_clear() {
    let mut pieces = Pieces::empty();
    pieces.put_piece(Piece::Rook, BitCoord(0x80));
    pieces.put_piece(Piece::Pawn, BitCoord(0x0100));
    assert_eq!(pieces.all(), BitBoard(0x0180));
    pieces.remove_piece(Piece::Rook, BitCoord(0x80));
    assert_eq!(pieces.get_piece(BitCoord(0x80)), None);
    pieces.move_piece(BitCoord(0x0100), BitCoord(0x010000));
    assert_eq!(pieces.pawns, BitBoard(0x010000));
    pieces.clear_square(BitCoord(0x010000));
    assert_eq!(pieces.all(), BitBoard(0));
}

#[test]
fn coordinates_of_corners() {
    assert_eq!(BitCoord::from_file_rank(0, 0), BitCoord(0x0000_0000_0000_0080));
    assert_eq!(BitCoord::from_file_rank(7, 7), BitCoord(0x0100_0000_0000_0000));
    assert_eq!(BitCoord(0x0000_0000_0000_0008).file(), 4);
    assert_eq!(BitCoord(0x0000_0000_0000_0008).rank(), 0);
    assert_eq!(BitCoord(0x0100_0000_0000_0000).file(), 7);
    assert_eq!(BitCoord(0x0100_0000_0000_0000).rank(), 7);
}

#[test]
fn bitboard_iteration_lowest_first() {
    let mut it = BitBoard(0b1010_0001).iter();
    assert_eq!(it.next(), Some(BitCoord(0b1)));
    assert_eq!(it.next(), Some(BitCoord(0b10_0000)));
    assert_eq!(it.next(), Some(BitCoord(0b1000_0000)));
    assert_eq!(it.next(), None);
    assert_eq!(
        BitBoard(0b1010_0001).squares(),
        vec![BitCoord(0b1), BitCoord(0b10_0000), BitCoord(0b1000_0000)]
    );
    assert_eq!(BitBoard(0b1010_0001).count(), 3);
}

#[test]
fn move_if_present_moves_only_present() {
    let bb = BitBoard(0b0110);
    assert_eq!(bb.move_if_present(BitCoord(0b0010), BitCoord(0b1000)), BitBoard(0b1100));
    assert_eq!(bb.move_if_present(BitCoord(0b0001), BitCoord(0b1000)), BitBoard(0b0110));
}

#[test]
fn colour_other_flips() {
    assert_eq!(Colour::other(Colour::White), Colour::Black);
    assert_eq!(Colour::other(Colour::Black), Colour::White);
}

#[test]
fn it_works() {
    assert_eq!(2 + 2, 4);
}

#[test]
fn bitboard_text_starts_on_a8() {
    let text = BitBoard(0x8000_0000_0000_0001).to_string();
    let lines: Vec<&str> = text.split('\n').collect();
    assert_eq!(lines.len(), 9);
    assert_eq!(lines[0], "");
    assert_eq!(lines[1], "o.......");
    assert_eq!(lines[8], ".......o");
    assert!(lines[2..8].iter().all(|l| *l == "........"));
}
