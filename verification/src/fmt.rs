use vstd::prelude::*;
use crate::bits::lemma_low_index;
use crate::types::{BitCoord, Move, Piece};

verus! {

/// `String::push` of the standard library: the text afterwards is the
/// text before it with the character at its end.
pub assume_specification[ String::push ](s: &mut String, c: char)
    ensures
        final(s)@ == old(s)@.push(c),
;

/// The letter of a kind of piece.
pub open spec fn piece_letter(piece: Piece) -> char {
    match piece {
        Piece::King => 'K',
        Piece::Queen => 'Q',
        Piece::Rook => 'R',
        Piece::Bishop => 'B',
        Piece::Knight => 'N',
        Piece::Pawn => 'P',
    }
}

/// The letter of a file, `a` for file 0.
pub open spec fn file_letter(file: int) -> char {
    if file == 0 {
        'a'
    } else if file == 1 {
        'b'
    } else if file == 2 {
        'c'
    } else if file == 3 {
        'd'
    } else if file == 4 {
        'e'
    } else if file == 5 {
        'f'
    } else if file == 6 {
        'g'
    } else {
        'h'
    }
}

/// The digit of a rank, `1` for rank 0.
pub open spec fn rank_digit(rank: int) -> char {
    if rank == 0 {
        '1'
    } else if rank == 1 {
        '2'
    } else if rank == 2 {
        '3'
    } else if rank == 3 {
        '4'
    } else if rank == 4 {
        '5'
    } else if rank == 5 {
        '6'
    } else if rank == 6 {
        '7'
    } else if rank == 7 {
        '8'
    } else {
        '9'
    }
}

/// The text of a square: the letter of its file and the digit of its
/// rank.
pub open spec fn coord_text(coord: BitCoord) -> Seq<char> {
    seq![file_letter(coord.file_spec()), rank_digit(coord.rank_spec())]
}

/// The text of a move: source and destination, followed for a promotion
/// by the letter of the new piece; `O-O` and `O-O-O` for castling.
pub open spec fn move_text(m: Move) -> Seq<char> {
    match m {
        Move::Normal(_, src, tgt) => coord_text(src) + coord_text(tgt),
        Move::Promotion(src, tgt, pc) => coord_text(src) + coord_text(tgt) + seq![piece_letter(pc)],
        Move::Castle => seq!['O', '-', 'O'],
        Move::LongCastle => seq!['O', '-', 'O', '-', 'O'],
    }
}

/// The letter of a kind of piece.
pub fn format_piece(piece: Piece) -> (c: char)
    ensures
        c == piece_letter(piece),
{
    match piece {
        Piece::King => 'K',
        Piece::Queen => 'Q',
        Piece::Rook => 'R',
        Piece::Bishop => 'B',
        Piece::Knight => 'N',
        Piece::Pawn => 'P',
    }
}

/// The text of a move.
pub fn format_move(m: Move) -> (s: String)
    requires
        m matches Move::Normal(_, src, tgt) ==> src.0 != 0 && tgt.0 != 0,
        m matches Move::Promotion(src, tgt, _) ==> src.0 != 0 && tgt.0 != 0,
    ensures
        s@ == move_text(m),
{
    let mut s = String::new();
    match m {
        Move::Normal(_, src, tgt) => {
            push_coord(&mut s, src);
            push_coord(&mut s, tgt);
        },
        Move::Promotion(src, tgt, pc) => {
            push_coord(&mut s, src);
            push_coord(&mut s, tgt);
            s.push(format_piece(pc));
        },
        Move::Castle => {
            s.push('O');
            s.push('-');
            s.push('O');
        },
        Move::LongCastle => {
            s.push('O');
            s.push('-');
            s.push('O');
            s.push('-');
            s.push('O');
        },
    }
    assert(s@ =~= move_text(m));
    s
}

/// Appends the text of a square.
fn push_coord(s: &mut String, coord: BitCoord)
    requires
        coord.0 != 0,
    ensures
        final(s)@ == old(s)@ + coord_text(coord),
{
    proof {
        lemma_low_index(coord.0);
    }
    s.push(format_file(coord.file()));
    s.push(format_rank(coord.rank()));
    assert(s@ =~= old(s)@ + coord_text(coord));
}

/// The text of a square.
pub fn format_coord(coord: BitCoord) -> (s: String)
    requires
        coord.0 != 0,
    ensures
        s@ == coord_text(coord),
{
    let mut s = String::new();
    push_coord(&mut s, coord);
    assert(s@ =~= coord_text(coord));
    s
}

/// The letter of a file.
pub fn format_file(file: u32) -> (c: char)
    requires
        file < 8,
    ensures
        c == file_letter(file as int),
{
    if file == 0 {
        'a'
    } else if file == 1 {
        'b'
    } else if file == 2 {
        'c'
    } else if file == 3 {
        'd'
    } else if file == 4 {
        'e'
    } else if file == 5 {
        'f'
    } else if file == 6 {
        'g'
    } else {
        'h'
    }
}

/// The digit of a rank.
pub fn format_rank(rank: u32) -> (c: char)
    requires
        rank <= 8,
    ensures
        c == rank_digit(rank as int),
{
    if rank == 0 {
        '1'
    } else if rank == 1 {
        '2'
    } else if rank == 2 {
        '3'
    } else if rank == 3 {
        '4'
    } else if rank == 4 {
        '5'
    } else if rank == 5 {
        '6'
    } else if rank == 6 {
        '7'
    } else if rank == 7 {
        '8'
    } else {
        '9'
    }
}

/// Whether the text names a square: a letter from `a` to `h` and a digit
/// from `1` to `8`.
pub open spec fn names_square(text: Seq<char>) -> bool {
    &&& text.len() == 2
    &&& 'a' <= text[0] <= 'h'
    &&& '1' <= text[1] <= '8'
}

/// The number of a file letter, 0 for `a`.
pub open spec fn file_number(c: char) -> int {
    c as u32 - 'a' as u32
}

/// The number of a rank digit, 0 for `1`.
pub open spec fn rank_number(c: char) -> int {
    c as u32 - '1' as u32
}

/// The square that a text names.
pub fn parse_coord(coord: &str) -> (c: BitCoord)
    requires
        names_square(coord@),
    ensures
        c.wf(),
        c.file_spec() == file_number(coord@[0]),
        c.rank_spec() == rank_number(coord@[1]),
{
    let file = parse_file(coord.get_char(0));
    let rank = parse_rank(coord.get_char(1));
    BitCoord::from_file_rank(file, rank)
}

/// The number of a file letter.
pub fn parse_file(c: char) -> (file: u32)
    requires
        'a' <= c <= 'h',
    ensures
        file == file_number(c),
        file < 8,
{
    c as u32 - 'a' as u32
}

/// The number of a rank digit.
pub fn parse_rank(c: char) -> (rank: u32)
    requires
        '1' <= c <= '9',
    ensures
        rank == rank_number(c),
        rank <= 8,
{
    c as u32 - '1' as u32
}

} // verus!
