use vstd::prelude::*;
use crate::bits::{
    bit, bit_set, low_index, single, lemma_has_ops, lemma_low_index, lemma_low_index_of_bit,
    lemma_single,
};

verus! {

/// A Zobrist position key.
#[derive(Clone, Copy, Debug, Hash, PartialEq, Eq, Structural)]
pub struct ZobristHash(pub u64);

/// A set of board squares, one bit per square. Bit `n` is the square of
/// rank `n / 8` and file `(63 - n) % 8`, so within a rank the files run
/// from h up to a: h1 is bit 0, a1 is bit 7 and h8 is bit 56.
#[derive(Clone, Copy, Debug, Hash, PartialEq, Eq, Structural)]
pub struct BitBoard(pub u64);

/// A single square as a 64-bit value with exactly one bit set.
///
/// The operations keep the raw value, so a shifted or complemented
/// coordinate may hold no bit or many; `wf` says when it names a square.
#[derive(Clone, Copy, Debug, Hash, PartialEq, Eq, Structural)]
pub struct BitCoord(pub u64);

impl BitCoord {
    /// Exactly one bit is set.
    pub open spec fn wf(self) -> bool {
        single(self.0)
    }

    /// The index 0..63 of the square.
    pub open spec fn index(self) -> int {
        low_index(self.0)
    }

    /// The rank of the square, 0 for the first rank.
    pub open spec fn rank_spec(self) -> int {
        self.index() / 8
    }

    /// The file of the square, 0 for the a-file.
    pub open spec fn file_spec(self) -> int {
        (63 - self.index()) % 8
    }

    /// The coordinate of the square with the given index.
    pub fn from_index(index: u32) -> (c: BitCoord)
        requires
            index < 64,
        ensures
            c.wf(),
            c.index() == index,
            c.0 == bit(index as int),
    {
        proof {
            lemma_low_index_of_bit(index as int);
        }
        BitCoord(1u64 << (index as u64))
    }

    /// The coordinate of the square on the given file (0 is the a-file) and
    /// rank (0 is the first rank).
    pub fn from_file_rank(file: u32, rank: u32) -> (c: BitCoord)
        requires
            file < 8,
            rank < 8,
        ensures
            c.wf(),
            c.index() == rank * 8 + 7 - file,
            c.file_spec() == file,
            c.rank_spec() == rank,
    {
        Self::from_index(rank * 8 + 7 - file)
    }

    /// The index of the square, the number of zero bits below its bit.
    pub fn square_index(self) -> (i: u32)
        requires
            self.wf(),
        ensures
            i < 64,
            i == self.index(),
            self.0 == bit(i as int),
    {
        proof {
            lemma_single(self.0);
        }
        self.0.trailing_zeros()
    }

    /// The rank of the square, 0 for the first rank.
    pub fn rank(self) -> (r: u32)
        ensures
            r == self.rank_spec(),
            self.wf() ==> r < 8,
    {
        proof {
            lemma_low_index(self.0);
            if self.wf() {
                lemma_single(self.0);
            }
        }
        self.0.trailing_zeros() / 8
    }

    /// The file of the square, 0 for the a-file.
    ///
    /// A coordinate without any bit has no file.
    pub fn file(self) -> (f: u32)
        requires
            self.0 != 0,
        ensures
            f == self.file_spec(),
            f < 8,
    {
        proof {
            lemma_low_index(self.0);
        }
        (63 - self.0.trailing_zeros()) % 8
    }

    /// The coordinate shifted towards higher ranks by `n` bit positions.
    pub fn shl(self, n: u32) -> (c: BitCoord)
        requires
            n < 64,
        ensures
            c.0 == self.0 << n,
    {
        BitCoord(self.0 << n)
    }

    /// The coordinate shifted towards lower ranks by `n` bit positions.
    pub fn shr(self, n: u32) -> (c: BitCoord)
        requires
            n < 64,
        ensures
            c.0 == self.0 >> n,
    {
        BitCoord(self.0 >> n)
    }
}

impl BitBoard {
    /// The set without any square.
    pub fn empty() -> (r: BitBoard)
        ensures
            r.0 == 0,
    {
        BitBoard(0)
    }

    /// Whether the square with index `i` is in the set.
    pub open spec fn contains(self, i: int) -> bool {
        0 <= i < 64 && bit_set(self.0, i)
    }

    /// The squares of the set, by index.
    pub open spec fn view(self) -> Set<int> {
        Set::new(|i: int| self.contains(i))
    }

    /// The squares that are in either set.
    pub fn or(self, rhs: BitBoard) -> (r: BitBoard)
        ensures
            r.0 == self.0 | rhs.0,
            forall|i: int| r.contains(i) == (self.contains(i) || rhs.contains(i)),
    {
        proof {
            assert forall|i: int| BitBoard(self.0 | rhs.0).contains(i) == (self.contains(i)
                || rhs.contains(i)) by {
                if 0 <= i < 64 {
                    lemma_has_ops(self.0, rhs.0, i);
                }
            }
        }
        BitBoard(self.0 | rhs.0)
    }

    /// The squares that are in both sets.
    pub fn and(self, rhs: BitBoard) -> (r: BitBoard)
        ensures
            r.0 == self.0 & rhs.0,
            forall|i: int| r.contains(i) == (self.contains(i) && rhs.contains(i)),
    {
        proof {
            assert forall|i: int| BitBoard(self.0 & rhs.0).contains(i) == (self.contains(i)
                && rhs.contains(i)) by {
                if 0 <= i < 64 {
                    lemma_has_ops(self.0, rhs.0, i);
                }
            }
        }
        BitBoard(self.0 & rhs.0)
    }

    /// The squares that are not in the set.
    pub fn not(self) -> (r: BitBoard)
        ensures
            r.0 == !self.0,
            forall|i: int| 0 <= i < 64 ==> r.contains(i) == !self.contains(i),
    {
        proof {
            assert forall|i: int| 0 <= i < 64 implies BitBoard(!self.0).contains(i)
                == !self.contains(i) by {
                lemma_has_ops(self.0, 0, i);
            }
        }
        BitBoard(!self.0)
    }

    /// The set moved down by `n` bit positions; squares pushed below bit 0
    /// are lost.
    pub fn shr(self, n: u32) -> (r: BitBoard)
        requires
            n < 64,
        ensures
            r.0 == self.0 >> n,
    {
        BitBoard(self.0 >> n)
    }

    /// The set moved up by `n` bit positions; squares pushed above bit 63
    /// are lost.
    pub fn shl(self, n: u32) -> (r: BitBoard)
        requires
            n < 64,
        ensures
            r.0 == self.0 << n,
    {
        BitBoard(self.0 << n)
    }

    /// Whether the set holds no square.
    pub fn is_empty(self) -> (b: bool)
        ensures
            b == (self.0 == 0),
    {
        self.0 == 0
    }

    /// Whether the set and the given raw square set meet.
    pub fn holds(self, coord: BitCoord) -> (b: bool)
        ensures
            b == (self.0 & coord.0 != 0),
            coord.wf() ==> b == self.contains(coord.index()),
    {
        proof {
            if coord.wf() {
                lemma_single(coord.0);
            }
        }
        self.0 & coord.0 != 0
    }

    /// The set with `from` replaced by `to` when `from` is in it, and the
    /// set itself otherwise.
    pub fn move_if_present(self, from: BitCoord, to: BitCoord) -> (r: BitBoard)
        ensures
            r.0 == if self.0 & from.0 != 0 {
                self.0 & !from.0 | to.0
            } else {
                self.0
            },
    {
        if self.0 & from.0 != 0 {
            BitBoard(self.0 & !from.0 | to.0)
        } else {
            self
        }
    }

    /// The set as text: eight lines of eight characters from the eighth
    /// rank down and from the a-file to the h-file, each line led by a
    /// line break, with `o` for a square of the set and `.` for any other.
    pub fn to_string(self) -> (text: String)
        ensures
            text@ == board_text(self.0, 64),
    {
        let mut text = String::new();
        let mut c: u32 = 0;
        while c < 64
            invariant
                c <= 64,
                text@ == board_text(self.0, c as int),
            decreases 64 - c,
        {
            if c % 8 == 0 {
                text.push('\n');
            }
            if self.0 & (1u64 << ((63 - c) as u64)) == 0 {
                text.push('.');
            } else {
                text.push('o');
            }
            c = c + 1;
        }
        text
    }

    /// A cursor over the squares of the set, lowest bit first.
    pub fn iter(self) -> (it: BitBoardIter)
        ensures
            it.remaining() == self,
    {
        BitBoardIter { bb: self }
    }

    /// The squares of the set, lowest bit first.
    pub fn squares(self) -> (v: Vec<BitCoord>)
        ensures
            v@ == squares_from(self.0, 0),
    {
        let mut v: Vec<BitCoord> = Vec::new();
        let mut i: u32 = 64;
        while i > 0
            invariant
                i <= 64,
                v@ == squares_from(self.0, i as int),
            decreases i,
        {
            i = i - 1;
            if self.0 & (1u64 << (i as u64)) != 0 {
                v.insert(0, BitCoord(1u64 << (i as u64)));
                assert(v@ =~= seq![BitCoord(bit(i as int))] + squares_from(self.0, i + 1));
            }
        }
        v
    }

    /// The number of squares in the set.
    pub fn count(self) -> (n: u32)
        ensures
            n == population(self.0, 64),
            n <= 64,
    {
        let mut n: u32 = 0;
        let mut i: u32 = 0;
        while i < 64
            invariant
                i <= 64,
                n == population(self.0, i as int),
                n <= i,
            decreases 64 - i,
        {
            if self.0 & (1u64 << (i as u64)) != 0 {
                n = n + 1;
            }
            i = i + 1;
        }
        n
    }
}

/// The coordinates of the set bits of `x` from index `from` up, in
/// ascending order.
pub open spec fn squares_from(x: u64, from: int) -> Seq<BitCoord>
    decreases 64 - from,
{
    if from >= 64 || from < 0 {
        Seq::empty()
    } else if bit_set(x, from) {
        seq![BitCoord(bit(from))] + squares_from(x, from + 1)
    } else {
        squares_from(x, from + 1)
    }
}

/// The first `n` squares of a set as text, from a8 along the ranks: a
/// line break before each rank, `o` for a square of the set and `.` for
/// any other.
pub open spec fn board_text(x: u64, n: int) -> Seq<char>
    decreases n,
{
    if n <= 0 {
        Seq::empty()
    } else {
        let before = if (n - 1) % 8 == 0 {
            board_text(x, n - 1).push('\n')
        } else {
            board_text(x, n - 1)
        };
        if bit_set(x, 64 - n) {
            before.push('o')
        } else {
            before.push('.')
        }
    }
}

/// The number of set bits of `x` below index `upto`.
pub open spec fn population(x: u64, upto: int) -> nat
    decreases upto,
{
    if upto <= 0 {
        0
    } else {
        population(x, upto - 1) + if bit_set(x, upto - 1) {
            1nat
        } else {
            0nat
        }
    }
}

/// A cursor that hands out the squares of a set, lowest bit first.
pub struct BitBoardIter {
    bb: BitBoard,
}

impl BitBoardIter {
    /// The squares not handed out yet.
    pub closed spec fn remaining(self) -> BitBoard {
        self.bb
    }

    /// The lowest square left, which leaves the cursor; `None` once no
    /// square is left.
    pub fn next(&mut self) -> (r: Option<BitCoord>)
        ensures
            old(self).remaining().0 == 0 ==> r is None && final(self).remaining().0 == 0,
            old(self).remaining().0 != 0 ==> r == Some(
                BitCoord(bit(low_index(old(self).remaining().0))),
            ),
            r matches Some(c) ==> c.wf() && final(self).remaining().0 == old(self).remaining().0
                & !c.0,
    {
        if self.bb.0 == 0 {
            None
        } else {
            proof {
                lemma_low_index(self.bb.0);
            }
            let zeros = self.bb.0.trailing_zeros();
            let c = 1u64 << (zeros as u64);
            self.bb = BitBoard(self.bb.0 & !c);
            Some(BitCoord(c))
        }
    }
}

/// The six piece sets of one side.
#[derive(Clone, Copy, Debug, PartialEq, Eq, Structural)]
pub struct Pieces {
    pub king: BitBoard,
    pub queens: BitBoard,
    pub rooks: BitBoard,
    pub bishops: BitBoard,
    pub knights: BitBoard,
    pub pawns: BitBoard,
}

impl Pieces {
    /// The set of the given kind of piece.
    pub open spec fn board(self, piece: Piece) -> BitBoard {
        match piece {
            Piece::King => self.king,
            Piece::Queen => self.queens,
            Piece::Rook => self.rooks,
            Piece::Bishop => self.bishops,
            Piece::Knight => self.knights,
            Piece::Pawn => self.pawns,
        }
    }

    /// The pieces with the set of the given kind replaced.
    pub open spec fn with_board(self, piece: Piece, bb: BitBoard) -> Pieces {
        match piece {
            Piece::King => Pieces { king: bb, ..self },
            Piece::Queen => Pieces { queens: bb, ..self },
            Piece::Rook => Pieces { rooks: bb, ..self },
            Piece::Bishop => Pieces { bishops: bb, ..self },
            Piece::Knight => Pieces { knights: bb, ..self },
            Piece::Pawn => Pieces { pawns: bb, ..self },
        }
    }

    /// Every square that holds a piece of the side.
    pub open spec fn occupancy(self) -> u64 {
        self.king.0 | self.queens.0 | self.rooks.0 | self.bishops.0 | self.knights.0
            | self.pawns.0
    }

    /// No square holds two pieces, and there is at most one king.
    pub open spec fn wf(self) -> bool {
        &&& self.king.0 & self.queens.0 == 0
        &&& self.king.0 & self.rooks.0 == 0
        &&& self.king.0 & self.bishops.0 == 0
        &&& self.king.0 & self.knights.0 == 0
        &&& self.king.0 & self.pawns.0 == 0
        &&& self.queens.0 & self.rooks.0 == 0
        &&& self.queens.0 & self.bishops.0 == 0
        &&& self.queens.0 & self.knights.0 == 0
        &&& self.queens.0 & self.pawns.0 == 0
        &&& self.rooks.0 & self.bishops.0 == 0
        &&& self.rooks.0 & self.knights.0 == 0
        &&& self.rooks.0 & self.pawns.0 == 0
        &&& self.bishops.0 & self.knights.0 == 0
        &&& self.bishops.0 & self.pawns.0 == 0
        &&& self.knights.0 & self.pawns.0 == 0
        &&& (self.king.0 == 0 || single(self.king.0))
    }

    /// The kind of the first set, in the order king, queen, rook, bishop,
    /// knight, pawn, that meets the given squares.
    pub open spec fn piece_at(self, coord: BitCoord) -> Option<Piece> {
        if self.king.0 & coord.0 != 0 {
            Some(Piece::King)
        } else if self.queens.0 & coord.0 != 0 {
            Some(Piece::Queen)
        } else if self.rooks.0 & coord.0 != 0 {
            Some(Piece::Rook)
        } else if self.bishops.0 & coord.0 != 0 {
            Some(Piece::Bishop)
        } else if self.knights.0 & coord.0 != 0 {
            Some(Piece::Knight)
        } else if self.pawns.0 & coord.0 != 0 {
            Some(Piece::Pawn)
        } else {
            None
        }
    }

    /// The pieces with a piece of the given kind added on `coord`.
    pub open spec fn with_piece(self, piece: Piece, coord: BitCoord) -> Pieces {
        self.with_board(piece, BitBoard(self.board(piece).0 | coord.0))
    }

    /// The pieces with the piece of the given kind taken off `coord`.
    pub open spec fn without_piece(self, piece: Piece, coord: BitCoord) -> Pieces {
        self.with_board(piece, BitBoard(self.board(piece).0 & !coord.0))
    }

    /// The pieces with `coord` emptied.
    pub open spec fn cleared(self, coord: BitCoord) -> Pieces {
        Pieces {
            king: BitBoard(self.king.0 & !coord.0),
            queens: BitBoard(self.queens.0 & !coord.0),
            rooks: BitBoard(self.rooks.0 & !coord.0),
            bishops: BitBoard(self.bishops.0 & !coord.0),
            knights: BitBoard(self.knights.0 & !coord.0),
            pawns: BitBoard(self.pawns.0 & !coord.0),
        }
    }

    /// Whether the sets are disjoint and there is at most one king.
    pub fn is_well_formed(&self) -> (r: bool)
        ensures
            r == self.wf(),
    {
        proof {
            lemma_low_index(self.king.0);
            if self.king.0 != 0 {
                if single(self.king.0) {
                    lemma_single(self.king.0);
                }
                if self.king.0 == bit(low_index(self.king.0)) {
                    assert(single(self.king.0));
                }
            }
        }
        let k = self.king.0;
        let q = self.queens.0;
        let r = self.rooks.0;
        let b = self.bishops.0;
        let n = self.knights.0;
        let p = self.pawns.0;
        k & q == 0 && k & r == 0 && k & b == 0 && k & n == 0 && k & p == 0 && q & r == 0 && q & b
            == 0 && q & n == 0 && q & p == 0 && r & b == 0 && r & n == 0 && r & p == 0 && b & n == 0
            && b & p == 0 && n & p == 0 && (k == 0 || k == 1u64 << (k.trailing_zeros() as u64))
    }

    /// A side without pieces.
    pub fn empty() -> (p: Pieces)
        ensures
            p.king.0 == 0,
            p.queens.0 == 0,
            p.rooks.0 == 0,
            p.bishops.0 == 0,
            p.knights.0 == 0,
            p.pawns.0 == 0,
    {
        Pieces {
            king: BitBoard(0),
            queens: BitBoard(0),
            rooks: BitBoard(0),
            bishops: BitBoard(0),
            knights: BitBoard(0),
            pawns: BitBoard(0),
        }
    }

    /// Every square that holds a piece of the side.
    pub fn all(&self) -> (r: BitBoard)
        ensures
            r.0 == self.occupancy(),
    {
        BitBoard(
            self.king.0 | self.queens.0 | self.rooks.0 | self.bishops.0 | self.knights.0
                | self.pawns.0,
        )
    }

    /// Adds a piece of the given kind on `coord`.
    pub fn put_piece(&mut self, piece: Piece, coord: BitCoord)
        ensures
            *final(self) == old(self).with_piece(piece, coord),
    {
        let bb: &mut BitBoard = self.piece_bb(piece);
        *bb = BitBoard(bb.0 | coord.0);
    }

    /// Takes the piece of the given kind off `coord`.
    pub fn remove_piece(&mut self, piece: Piece, coord: BitCoord)
        ensures
            *final(self) == old(self).without_piece(piece, coord),
    {
        let bb: &mut BitBoard = self.piece_bb(piece);
        *bb = BitBoard(bb.0 & !coord.0);
    }

    /// Empties `coord`, whatever stands on it.
    pub fn clear_square(&mut self, coord: BitCoord)
        ensures
            *final(self) == old(self).cleared(coord),
    {
        let mask = !coord.0;
        self.king = BitBoard(self.king.0 & mask);
        self.queens = BitBoard(self.queens.0 & mask);
        self.rooks = BitBoard(self.rooks.0 & mask);
        self.bishops = BitBoard(self.bishops.0 & mask);
        self.knights = BitBoard(self.knights.0 & mask);
        self.pawns = BitBoard(self.pawns.0 & mask);
    }

    /// The kind of piece on `coord`, if any.
    pub fn get_piece(&self, coord: BitCoord) -> (r: Option<Piece>)
        ensures
            r == self.piece_at(coord),
    {
        if self.king.0 & coord.0 != 0 {
            Some(Piece::King)
        } else if self.queens.0 & coord.0 != 0 {
            Some(Piece::Queen)
        } else if self.rooks.0 & coord.0 != 0 {
            Some(Piece::Rook)
        } else if self.bishops.0 & coord.0 != 0 {
            Some(Piece::Bishop)
        } else if self.knights.0 & coord.0 != 0 {
            Some(Piece::Knight)
        } else if self.pawns.0 & coord.0 != 0 {
            Some(Piece::Pawn)
        } else {
            None
        }
    }

    /// Moves the piece on `from` to `to`.
    pub fn move_piece(&mut self, from: BitCoord, to: BitCoord)
        requires
            old(self).piece_at(from) is Some,
        ensures
            *final(self) == old(self).without_piece(old(self).piece_at(from)->0, from).with_piece(
                old(self).piece_at(from)->0,
                to,
            ),
    {
        let pc = self.get_piece(from).unwrap();
        self.remove_piece(pc, from);
        self.put_piece(pc, to);
    }

    /// The set of the given kind of piece, to read or to change.
    pub fn piece_bb(&mut self, piece: Piece) -> (bb: &mut BitBoard)
        ensures
            *bb == old(self).board(piece),
            *final(self) == old(self).with_board(piece, *final(bb)),
    {
        match piece {
            Piece::King => &mut self.king,
            Piece::Queen => &mut self.queens,
            Piece::Rook => &mut self.rooks,
            Piece::Bishop => &mut self.bishops,
            Piece::Knight => &mut self.knights,
            Piece::Pawn => &mut self.pawns,
        }
    }
}

/// One side's pieces and castling rights.
#[derive(Clone, Copy, Debug, PartialEq, Eq, Structural)]
pub struct SideState {
    pub pieces: Pieces,
    pub can_castle_kingside: bool,
    pub can_castle_queenside: bool,
}

/// A position: who is to move, both sides, the en-passant target, the
/// fifty-move clock and the Zobrist key of all of that.
#[derive(Clone, Copy, Debug, PartialEq, Eq, Structural)]
pub struct GameState {
    pub active_colour: Colour,
    pub white: SideState,
    pub black: SideState,
    pub en_passant: Option<BitCoord>,
    pub fifty_move_clock: u8,
    pub zh: ZobristHash,
}

/// A side of the game.
#[derive(Clone, Copy, Debug, PartialEq, Eq, Structural)]
pub enum Colour {
    White,
    Black,
}

impl Colour {
    /// The opposing colour.
    pub open spec fn other_spec(c: Colour) -> Colour {
        match c {
            Colour::White => Colour::Black,
            Colour::Black => Colour::White,
        }
    }

    /// The opposing colour.
    pub fn other(c: Colour) -> (r: Colour)
        ensures
            r == Colour::other_spec(c),
            r != c,
    {
        match c {
            Colour::White => Colour::Black,
            Colour::Black => Colour::White,
        }
    }
}

/// A kind of piece.
#[derive(Clone, Copy, Debug, Hash, PartialEq, Eq, Structural)]
pub enum Piece {
    King,
    Queen,
    Rook,
    Knight,
    Pawn,
    Bishop,
}

/// What stands on a square of a mailbox board.
#[derive(Clone, Copy, Debug, PartialEq, Eq, Structural)]
pub enum Square {
    Empty,
    Occupied(Colour, Piece),
}

/// A square of the 16-column mailbox board: file in the high nibble, rank
/// in the low one.
pub type Coordinate = u8;

/// A mailbox board. The largest coordinate on the board is 0x77, so 120
/// slots are held and only 64 of them are ever filled.
pub type Board = [Square; 120];

/// A move of the side to move.
#[derive(Clone, Copy, Debug, Hash, PartialEq, Eq, Structural)]
pub enum Move {
    /// The piece that moves, its square and its destination.
    Normal(Piece, BitCoord, BitCoord),
    /// A pawn's square, its destination on the last rank and the piece it
    /// becomes.
    Promotion(BitCoord, BitCoord, Piece),
    Castle,
    LongCastle,
}

} // verus!
