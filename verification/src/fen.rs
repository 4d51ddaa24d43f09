use vstd::prelude::*;
use vstd::string::StrSliceExecFns;
use crate::fmt::{file_number, names_square, parse_file, parse_rank, rank_number};
use crate::types::{BitBoard, BitCoord, Colour, GameState, Piece, Pieces, SideState};
use crate::zobrist::ZobristHasher;

verus! {

/// The position from which a game starts.
pub const STARTING_POSITION: &'static str = "rnbqkbnr/pppppppp/8/8/8/8/PPPPPPPP/RNBQKBNR w KQkq - 0 1";

/// Whether a character separates fields: the characters that Unicode
/// calls white space.
pub open spec fn is_space(c: char) -> bool {
    let n = c as u32;
    ||| 0x09 <= n <= 0x0D
    ||| n == 0x20
    ||| n == 0x85
    ||| n == 0xA0
    ||| n == 0x1680
    ||| 0x2000 <= n <= 0x200A
    ||| n == 0x2028
    ||| n == 0x2029
    ||| n == 0x202F
    ||| n == 0x205F
    ||| n == 0x3000
}

/// The index of the first character from `from` on that does not separate
/// fields, or the length of the text.
pub open spec fn field_start(s: Seq<char>, from: int) -> int
    decreases s.len() - from,
{
    if from < 0 || from >= s.len() || !is_space(s[from]) {
        from
    } else {
        field_start(s, from + 1)
    }
}

/// The index of the first character from `from` on that separates fields,
/// or the length of the text.
pub open spec fn field_end(s: Seq<char>, from: int) -> int
    decreases s.len() - from,
{
    if from < 0 || from >= s.len() || is_space(s[from]) {
        from
    } else {
        field_end(s, from + 1)
    }
}

/// Where the field with number `k` begins and ends; it begins at the
/// length of the text if there is no such field.
pub open spec fn field_bounds(s: Seq<char>, k: nat) -> (int, int)
    decreases k,
{
    let from = if k == 0 {
        0
    } else {
        field_bounds(s, (k - 1) as nat).1
    };
    (field_start(s, from), field_end(s, field_start(s, from)))
}

/// The field with number `k`, if the text has that many fields.
pub open spec fn field(s: Seq<char>, k: nat) -> Option<Seq<char>> {
    let (a, b) = field_bounds(s, k);
    if 0 <= a < s.len() {
        Some(s.subrange(a, b))
    } else {
        None
    }
}

/// The colour and kind of piece that a letter of the placement stands
/// for: upper case for white, lower case for black.
pub open spec fn piece_of(c: char) -> Option<(Colour, Piece)> {
    if c == 'Q' {
        Some((Colour::White, Piece::Queen))
    } else if c == 'K' {
        Some((Colour::White, Piece::King))
    } else if c == 'R' {
        Some((Colour::White, Piece::Rook))
    } else if c == 'B' {
        Some((Colour::White, Piece::Bishop))
    } else if c == 'N' {
        Some((Colour::White, Piece::Knight))
    } else if c == 'P' {
        Some((Colour::White, Piece::Pawn))
    } else if c == 'q' {
        Some((Colour::Black, Piece::Queen))
    } else if c == 'k' {
        Some((Colour::Black, Piece::King))
    } else if c == 'r' {
        Some((Colour::Black, Piece::Rook))
    } else if c == 'b' {
        Some((Colour::Black, Piece::Bishop))
    } else if c == 'n' {
        Some((Colour::Black, Piece::Knight))
    } else if c == 'p' {
        Some((Colour::Black, Piece::Pawn))
    } else {
        None
    }
}

/// A side without pieces.
pub open spec fn no_pieces() -> Pieces {
    Pieces {
        king: BitBoard(0),
        queens: BitBoard(0),
        rooks: BitBoard(0),
        bishops: BitBoard(0),
        knights: BitBoard(0),
        pawns: BitBoard(0),
    }
}

/// The pieces of white and of black and the square to fill next after
/// the first `n` characters of the placement: filling starts on a8 and
/// goes by files and then down the ranks; a letter puts a piece and moves
/// on by one square, a digit from 1 to 8 moves on by that many squares,
/// and a slash changes nothing. Any other character spoils the placement.
pub open spec fn placed(text: Seq<char>, n: int) -> Option<(Pieces, Pieces, u64)>
    decreases n,
{
    if n <= 0 {
        Some((no_pieces(), no_pieces(), 0x8000_0000_0000_0000u64))
    } else {
        match placed(text, n - 1) {
            None => None,
            Some((white, black, coord)) => {
                let c = text[n - 1];
                if c == '/' {
                    Some((white, black, coord))
                } else if '1' <= c <= '8' {
                    Some((white, black, coord >> ((c as u32 - '0' as u32) as u32)))
                } else {
                    match piece_of(c) {
                        Some((Colour::White, piece)) => Some(
                            (white.with_piece(piece, BitCoord(coord)), black, coord >> 1),
                        ),
                        Some((Colour::Black, piece)) => Some(
                            (white, black.with_piece(piece, BitCoord(coord)), coord >> 1),
                        ),
                        None => None,
                    }
                }
            },
        }
    }
}

/// The colour that the second field names: `w` or `b`.
pub open spec fn colour_of(text: Seq<char>) -> Option<Colour> {
    if text =~= seq!['w'] {
        Some(Colour::White)
    } else if text =~= seq!['b'] {
        Some(Colour::Black)
    } else {
        None
    }
}

/// The castling rights that the first `n` characters of the third field
/// grant, as white's kingside and queenside and black's kingside and
/// queenside: `K`, `Q`, `k` and `q` grant one each and `-` grants none.
/// Any other character spoils the field.
pub open spec fn rights_of(text: Seq<char>, n: int) -> Option<(bool, bool, bool, bool)>
    decreases n,
{
    if n <= 0 {
        Some((false, false, false, false))
    } else {
        match rights_of(text, n - 1) {
            None => None,
            Some((wk, wq, bk, bq)) => {
                let c = text[n - 1];
                if c == 'K' {
                    Some((true, wq, bk, bq))
                } else if c == 'Q' {
                    Some((wk, true, bk, bq))
                } else if c == 'k' {
                    Some((wk, wq, true, bq))
                } else if c == 'q' {
                    Some((wk, wq, bk, true))
                } else if c == '-' {
                    Some((wk, wq, bk, bq))
                } else {
                    None
                }
            },
        }
    }
}

/// What a text in Forsyth-Edwards notation says: the colour to move, the
/// sides of white and of black, and the file and rank of the en-passant
/// target if there is one. The text needs four fields: the placement, the
/// colour, the castling rights, and `-` or the en-passant target. Further
/// fields are not read.
pub open spec fn parse_fen(s: Seq<char>) -> Option<(Colour, SideState, SideState, Option<(int, int)>)> {
    match (field(s, 0), field(s, 1), field(s, 2), field(s, 3)) {
        (Some(placement), Some(colour), Some(rights), Some(target)) => {
            match (
                placed(placement, placement.len() as int),
                colour_of(colour),
                rights_of(rights, rights.len() as int),
            ) {
                (Some((white, black, _)), Some(active), Some((wk, wq, bk, bq))) => {
                    if target =~= seq!['-'] {
                        Some(
                            (
                                active,
                                SideState {
                                    pieces: white,
                                    can_castle_kingside: wk,
                                    can_castle_queenside: wq,
                                },
                                SideState {
                                    pieces: black,
                                    can_castle_kingside: bk,
                                    can_castle_queenside: bq,
                                },
                                None,
                            ),
                        )
                    } else if names_square(target) {
                        Some(
                            (
                                active,
                                SideState {
                                    pieces: white,
                                    can_castle_kingside: wk,
                                    can_castle_queenside: wq,
                                },
                                SideState {
                                    pieces: black,
                                    can_castle_kingside: bk,
                                    can_castle_queenside: bq,
                                },
                                Some((file_number(target[0]), rank_number(target[1]))),
                            ),
                        )
                    } else {
                        None
                    }
                },
                _ => None,
            }
        },
        _ => None,
    }
}

/// Whether a character separates fields.
fn separates(c: char) -> (r: bool)
    ensures
        r == is_space(c),
{
    let n = c as u32;
    (0x09 <= n && n <= 0x0D) || n == 0x20 || n == 0x85 || n == 0xA0 || n == 0x1680 || (0x2000 <= n
        && n <= 0x200A) || n == 0x2028 || n == 0x2029 || n == 0x202F || n == 0x205F || n == 0x3000
}

/// Where the next field from `from` on begins and ends.
fn next_field(chars: &Vec<char>, from: usize) -> (r: (usize, usize))
    requires
        from <= chars@.len(),
    ensures
        r.0 == field_start(chars@, from as int),
        r.1 == field_end(chars@, r.0 as int),
        from <= r.0 <= r.1 <= chars@.len(),
{
    let mut a = from;
    while a < chars.len() && separates(chars[a])
        invariant
            from <= a <= chars@.len(),
            field_start(chars@, a as int) == field_start(chars@, from as int),
        decreases chars@.len() - a,
    {
        a = a + 1;
    }
    let mut b = a;
    while b < chars.len() && !separates(chars[b])
        invariant
            a <= b <= chars@.len(),
            field_end(chars@, b as int) == field_end(chars@, a as int),
        decreases chars@.len() - b,
    {
        b = b + 1;
    }
    (a, b)
}

/// The characters of a text.
fn characters(text: &str) -> (chars: Vec<char>)
    ensures
        chars@ == text@,
{
    let len = text.unicode_len();
    let mut chars: Vec<char> = Vec::new();
    let mut i: usize = 0;
    while i < len
        invariant
            i <= len,
            len == text@.len(),
            chars@ == text@.subrange(0, i as int),
        decreases len - i,
    {
        chars.push(text.get_char(i));
        assert(chars@ =~= text@.subrange(0, i + 1));
        i = i + 1;
    }
    assert(text@.subrange(0, len as int) =~= text@);
    chars
}

/// The colour and kind of piece that a letter of the placement stands
/// for.
fn letter_piece(c: char) -> (r: Option<(Colour, Piece)>)
    ensures
        r == piece_of(c),
{
    if c == 'Q' {
        Some((Colour::White, Piece::Queen))
    } else if c == 'K' {
        Some((Colour::White, Piece::King))
    } else if c == 'R' {
        Some((Colour::White, Piece::Rook))
    } else if c == 'B' {
        Some((Colour::White, Piece::Bishop))
    } else if c == 'N' {
        Some((Colour::White, Piece::Knight))
    } else if c == 'P' {
        Some((Colour::White, Piece::Pawn))
    } else if c == 'q' {
        Some((Colour::Black, Piece::Queen))
    } else if c == 'k' {
        Some((Colour::Black, Piece::King))
    } else if c == 'r' {
        Some((Colour::Black, Piece::Rook))
    } else if c == 'b' {
        Some((Colour::Black, Piece::Bishop))
    } else if c == 'n' {
        Some((Colour::Black, Piece::Knight))
    } else if c == 'p' {
        Some((Colour::Black, Piece::Pawn))
    } else {
        None
    }
}

/// The pieces that the placement between `a` and `b` puts on the board.
fn load_placement(chars: &Vec<char>, a: usize, b: usize) -> (r: Option<(Pieces, Pieces)>)
    requires
        a <= b <= chars@.len(),
    ensures
        match placed(chars@.subrange(a as int, b as int), b - a) {
            Some((white, black, _)) => r == Some((white, black)),
            None => r is None,
        },
{
    let ghost text = chars@.subrange(a as int, b as int);
    let mut w_pieces = Pieces::empty();
    let mut b_pieces = Pieces::empty();
    let mut coord: u64 = 0x8000_0000_0000_0000;
    let mut i = a;
    while i < b
        invariant
            a <= i <= b <= chars@.len(),
            text == chars@.subrange(a as int, b as int),
            placed(text, i - a) == Some((w_pieces, b_pieces, coord)),
        decreases b - i,
    {
        let c = chars[i];
        assert(text[i - a] == c);
        if c == '/' {
        } else if '1' <= c && c <= '8' {
            coord = coord >> (c as u32 - '0' as u32);
        } else {
            match letter_piece(c) {
                Some((Colour::White, piece)) => {
                    w_pieces.put_piece(piece, BitCoord(coord));
                    coord = coord >> 1;
                },
                Some((Colour::Black, piece)) => {
                    b_pieces.put_piece(piece, BitCoord(coord));
                    coord = coord >> 1;
                },
                None => {
                    assert(placed(text, i + 1 - a) is None);
                    proof {
                        lemma_placed_stays_spoiled(text, i + 1 - a, b - a);
                    }
                    return None;
                },
            }
        }
        i = i + 1;
    }
    Some((w_pieces, b_pieces))
}

/// A placement that is spoiled after some characters stays spoiled.
proof fn lemma_placed_stays_spoiled(text: Seq<char>, n: int, m: int)
    requires
        0 <= n <= m,
        placed(text, n) is None,
    ensures
        placed(text, m) is None,
    decreases m - n,
{
    if n < m {
        lemma_placed_stays_spoiled(text, n, m - 1);
    }
}

/// A rights field that is spoiled after some characters stays spoiled.
proof fn lemma_rights_stay_spoiled(text: Seq<char>, n: int, m: int)
    requires
        0 <= n <= m,
        rights_of(text, n) is None,
    ensures
        rights_of(text, m) is None,
    decreases m - n,
{
    if n < m {
        lemma_rights_stay_spoiled(text, n, m - 1);
    }
}

/// The castling rights that the field between `a` and `b` grants.
fn load_rights(chars: &Vec<char>, a: usize, b: usize) -> (r: Option<(bool, bool, bool, bool)>)
    requires
        a <= b <= chars@.len(),
    ensures
        r == rights_of(chars@.subrange(a as int, b as int), b - a),
{
    let ghost text = chars@.subrange(a as int, b as int);
    let mut wk = false;
    let mut wq = false;
    let mut bk = false;
    let mut bq = false;
    let mut i = a;
    while i < b
        invariant
            a <= i <= b <= chars@.len(),
            text == chars@.subrange(a as int, b as int),
            rights_of(text, i - a) == Some((wk, wq, bk, bq)),
        decreases b - i,
    {
        let c = chars[i];
        assert(text[i - a] == c);
        if c == 'K' {
            wk = true;
        } else if c == 'Q' {
            wq = true;
        } else if c == 'k' {
            bk = true;
        } else if c == 'q' {
            bq = true;
        } else if c == '-' {
        } else {
            assert(rights_of(text, i + 1 - a) is None);
            proof {
                lemma_rights_stay_spoiled(text, i + 1 - a, b - a);
            }
            return None;
        }
        i = i + 1;
    }
    Some((wk, wq, bk, bq))
}

/// The position that a text in Forsyth-Edwards notation describes, with
/// the clock at zero; `None` where the text lacks one of its first four
/// fields or one of them is spoiled.
pub fn load_fen(fen: &str, hasher: &ZobristHasher) -> (r: Option<GameState>)
    ensures
        match parse_fen(fen@) {
            Some((active, white, black, target)) => match r {
                Some(state) => {
                    &&& state.active_colour == active
                    &&& state.white == white
                    &&& state.black == black
                    &&& state.fifty_move_clock == 0
                    &&& state.hash_ok(hasher)
                    &&& match target {
                        Some((file, rank)) => state.en_passant matches Some(ep) && ep.wf()
                            && ep.file_spec() == file && ep.rank_spec() == rank,
                        None => state.en_passant is None,
                    }
                },
                None => false,
            },
            None => r is None,
        },
{
    let chars = characters(fen);
    let (a0, b0) = next_field(&chars, 0);
    let (a1, b1) = next_field(&chars, b0);
    let (a2, b2) = next_field(&chars, b1);
    let (a3, b3) = next_field(&chars, b2);
    assert(field_bounds(chars@, 0) == (a0 as int, b0 as int));
    assert(field_bounds(chars@, 1) == (a1 as int, b1 as int));
    assert(field_bounds(chars@, 2) == (a2 as int, b2 as int));
    assert(field_bounds(chars@, 3) == (a3 as int, b3 as int));
    if a0 >= chars.len() || a1 >= chars.len() || a2 >= chars.len() || a3 >= chars.len() {
        return None;
    }
    let (w_pieces, b_pieces) = match load_placement(&chars, a0, b0) {
        Some(p) => p,
        None => {
            return None;
        },
    };
    let ghost colour_text = chars@.subrange(a1 as int, b1 as int);
    let first = chars[a1];
    proof {
        if b1 - a1 == 1 {
            assert(colour_text =~= seq![first]);
            assert(seq!['w'][0] == 'w');
            assert(seq!['b'][0] == 'b');
        } else {
            assert(colour_text.len() != seq!['w'].len());
            assert(colour_text.len() != seq!['b'].len());
        }
    }
    let active_colour = if b1 - a1 == 1 && first == 'w' {
        Colour::White
    } else if b1 - a1 == 1 && first == 'b' {
        Colour::Black
    } else {
        return None;
    };
    let (wk, wq, bk, bq) = match load_rights(&chars, a2, b2) {
        Some(rights) => rights,
        None => {
            return None;
        },
    };
    let ghost target = chars@.subrange(a3 as int, b3 as int);
    let mark = chars[a3];
    proof {
        assert(target.len() == b3 - a3);
        if b3 - a3 == 1 {
            assert(target =~= seq![mark]);
            assert(seq!['-'][0] == '-');
        } else {
            assert(target.len() != seq!['-'].len());
        }
        if b3 - a3 == 2 {
            assert(target[0] == chars@[a3 as int]);
            assert(target[1] == chars@[a3 + 1]);
        }
    }
    let en_passant = if b3 - a3 == 1 && mark == '-' {
        None
    } else if b3 - a3 == 2 && 'a' <= mark && mark <= 'h' && '1' <= chars[a3 + 1] && chars[a3 + 1]
        <= '8' {
        let ep = BitCoord::from_file_rank(parse_file(mark), parse_rank(chars[a3 + 1]));
        proof {
            crate::bits::lemma_single(ep.0);
        }
        Some(ep)
    } else {
        return None;
    };
    let white = SideState { pieces: w_pieces, can_castle_kingside: wk, can_castle_queenside: wq };
    let black = SideState { pieces: b_pieces, can_castle_kingside: bk, can_castle_queenside: bq };
    Some(GameState::new(active_colour, white, black, en_passant, 0, hasher))
}

} // verus!
