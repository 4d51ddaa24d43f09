use vstd::prelude::*;
use rand::Rng;
use rand::SeedableRng;
use rand_chacha::ChaCha8Rng;
use crate::bits::bit_set;
use crate::types::{BitCoord, Colour, GameState, Piece, Pieces, ZobristHash};

verus! {

/// The number of keys: one per colour, kind of piece and square, one for
/// black to move, four for the castling rights and eight for the files of
/// the en-passant target.
pub const KEY_COUNT: usize = 781;

/// Index of the key for black to move.
pub const BLACK_TO_MOVE: usize = 768;

/// Index of the key for white's right to castle kingside.
pub const WHITE_KINGSIDE: usize = 769;

/// Index of the key for white's right to castle queenside.
pub const WHITE_QUEENSIDE: usize = 770;

/// Index of the key for black's right to castle kingside.
pub const BLACK_KINGSIDE: usize = 771;

/// Index of the key for black's right to castle queenside.
pub const BLACK_QUEENSIDE: usize = 772;

/// Index of the key for an en-passant target on the a-file; the other
/// files follow.
pub const EN_PASSANT: usize = 773;

/// The seed of the hasher that `ZobristHasher::default` builds.
pub const DEFAULT_SEED: u64 = 26355;

/// The first `count` 64-bit values that a ChaCha generator with 8 rounds
/// hands out after it was seeded with `seed`.
pub uninterp spec fn chacha8_stream(seed: u64, count: nat) -> Seq<u64>;

/// Seeds a `rand_chacha::ChaCha8Rng` with `SeedableRng::seed_from_u64` and
/// draws `count` values of type `u64` from it with `Rng::gen`, in order.
///
/// Trusted: the generator is deterministic, so the values are a function
/// of the seed and the count, named `chacha8_stream`; there are `count` of
/// them.
#[verifier::external_body]
fn chacha8_numbers(seed: u64, count: usize) -> (numbers: Vec<u64>)
    ensures
        numbers@ == chacha8_stream(seed, count as nat),
        numbers@.len() == count,
{
    let mut rng = ChaCha8Rng::seed_from_u64(seed);
    let mut numbers: Vec<u64> = Vec::with_capacity(count);
    for _ in 0..count {
        numbers.push(rng.gen::<u64>());
    }
    numbers
}

/// The position of a kind of piece within a colour's block of keys.
pub open spec fn kind_index(piece: Piece) -> int {
    match piece {
        Piece::King => 0,
        Piece::Queen => 1,
        Piece::Rook => 2,
        Piece::Bishop => 3,
        Piece::Knight => 4,
        Piece::Pawn => 5,
    }
}

/// The kind of piece at a position within a colour's block of keys.
pub open spec fn kind_at(k: int) -> Piece {
    if k == 0 {
        Piece::King
    } else if k == 1 {
        Piece::Queen
    } else if k == 2 {
        Piece::Rook
    } else if k == 3 {
        Piece::Bishop
    } else if k == 4 {
        Piece::Knight
    } else {
        Piece::Pawn
    }
}

/// Index of the key for a piece of the given colour and kind on the square
/// with index `square`.
pub open spec fn piece_key(colour: Colour, piece: Piece, square: int) -> int {
    (if colour == Colour::White {
        0
    } else {
        384int
    }) + kind_index(piece) * 64 + square
}

/// The pieces of the given colour.
pub open spec fn side_pieces(state: GameState, colour: Colour) -> Pieces {
    match colour {
        Colour::White => state.white.pieces,
        Colour::Black => state.black.pieces,
    }
}

/// Whether the key with index `ix` takes part in the hash of `state`.
pub open spec fn feature(state: GameState, ix: int) -> bool {
    if 0 <= ix < 768 {
        let colour = if ix < 384 {
            Colour::White
        } else {
            Colour::Black
        };
        bit_set(side_pieces(state, colour).board(kind_at((ix % 384) / 64)).0, ix % 64)
    } else if ix == BLACK_TO_MOVE {
        state.active_colour == Colour::Black
    } else if ix == WHITE_KINGSIDE {
        state.white.can_castle_kingside
    } else if ix == WHITE_QUEENSIDE {
        state.white.can_castle_queenside
    } else if ix == BLACK_KINGSIDE {
        state.black.can_castle_kingside
    } else if ix == BLACK_QUEENSIDE {
        state.black.can_castle_queenside
    } else if EN_PASSANT <= ix < KEY_COUNT {
        state.en_passant matches Some(ep) && ep.file_spec() == ix - EN_PASSANT
    } else {
        false
    }
}

/// The XOR of the keys below index `upto` that take part in the hash of
/// `state`.
pub open spec fn xor_keys(keys: Seq<u64>, state: GameState, upto: int) -> u64
    decreases upto,
{
    if upto <= 0 {
        0
    } else {
        xor_keys(keys, state, upto - 1) ^ (if feature(state, upto - 1) {
            keys[upto - 1]
        } else {
            0
        })
    }
}

/// The Zobrist key of a position: the XOR of every key whose feature the
/// position has. The `zh` field of the position takes no part.
pub open spec fn hash_of(keys: Seq<u64>, state: GameState) -> u64 {
    xor_keys(keys, state, KEY_COUNT as int)
}

proof fn bv_xor(a: u64, b: u64, k: u64)
    by (bit_vector)
    ensures
        (a ^ k) ^ b == (a ^ b) ^ k,
        a ^ 0 == a,
        (a ^ k) ^ k == a,
        a ^ b == b ^ a,
{
}

proof fn lemma_xor_keys_same(keys: Seq<u64>, s1: GameState, s2: GameState, upto: int)
    requires
        forall|i: int| 0 <= i < upto ==> feature(s1, i) == feature(s2, i),
    ensures
        xor_keys(keys, s1, upto) == xor_keys(keys, s2, upto),
    decreases upto,
{
    if upto > 0 {
        lemma_xor_keys_same(keys, s1, s2, upto - 1);
    }
}

proof fn lemma_xor_keys_toggle(keys: Seq<u64>, s1: GameState, s2: GameState, j: int, upto: int)
    requires
        0 <= j < upto,
        forall|i: int| 0 <= i < upto && i != j ==> feature(s1, i) == feature(s2, i),
        feature(s1, j) != feature(s2, j),
    ensures
        xor_keys(keys, s2, upto) == xor_keys(keys, s1, upto) ^ keys[j],
    decreases upto,
{
    let x1 = xor_keys(keys, s1, upto - 1);
    let x2 = xor_keys(keys, s2, upto - 1);
    if upto - 1 == j {
        lemma_xor_keys_same(keys, s1, s2, upto - 1);
        bv_xor(x1, 0, keys[j]);
    } else {
        lemma_xor_keys_toggle(keys, s1, s2, j, upto - 1);
        let t = if feature(s1, upto - 1) {
            keys[upto - 1]
        } else {
            0
        };
        bv_xor(x1, t, keys[j]);
    }
}

/// Two positions with the same features have the same key.
pub proof fn lemma_hash_same(keys: Seq<u64>, s1: GameState, s2: GameState)
    requires
        forall|i: int| 0 <= i < KEY_COUNT ==> feature(s1, i) == feature(s2, i),
    ensures
        hash_of(keys, s1) == hash_of(keys, s2),
{
    lemma_xor_keys_same(keys, s1, s2, KEY_COUNT as int);
}

/// Two positions that differ in the feature with index `j` and in no
/// other have keys that differ by the key with index `j`.
pub proof fn lemma_hash_toggle(keys: Seq<u64>, s1: GameState, s2: GameState, j: int)
    requires
        0 <= j < KEY_COUNT,
        forall|i: int| 0 <= i < KEY_COUNT && i != j ==> feature(s1, i) == feature(s2, i),
        feature(s1, j) != feature(s2, j),
    ensures
        hash_of(keys, s2) == hash_of(keys, s1) ^ keys[j],
{
    lemma_xor_keys_toggle(keys, s1, s2, j, KEY_COUNT as int);
}

/// The keys of the Zobrist hash, drawn once from a seeded generator.
#[derive(Debug)]
pub struct ZobristHasher {
    numbers: Vec<u64>,
}

impl ZobristHasher {
    #[verifier::type_invariant]
    spec fn inv(self) -> bool {
        self.numbers@.len() == KEY_COUNT
    }

    /// The keys, by index.
    pub closed spec fn keys(self) -> Seq<u64> {
        self.numbers@
    }

    /// The hasher with the default seed.
    pub fn default() -> (hasher: ZobristHasher)
        ensures
            hasher.keys() == chacha8_stream(DEFAULT_SEED, KEY_COUNT as nat),
            hasher.keys().len() == KEY_COUNT,
    {
        Self::from_seed(DEFAULT_SEED)
    }

    /// The hasher whose keys are the first 781 values of the generator
    /// seeded with `seed`.
    pub fn from_seed(seed: u64) -> (hasher: ZobristHasher)
        ensures
            hasher.keys() == chacha8_stream(seed, KEY_COUNT as nat),
            hasher.keys().len() == KEY_COUNT,
    {
        ZobristHasher { numbers: chacha8_numbers(seed, KEY_COUNT) }
    }

    /// The lowest index of a key that equals the difference of the two
    /// hashes, if there is one.
    pub fn identify_diff(&self, lhs: ZobristHash, rhs: ZobristHash) -> (r: Option<usize>)
        ensures
            match r {
                Some(ix) => ix < KEY_COUNT && self.keys()[ix as int] == lhs.0 ^ rhs.0 && forall|
                    j: int,
                | 0 <= j < ix ==> self.keys()[j] != lhs.0 ^ rhs.0,
                None => forall|j: int| 0 <= j < KEY_COUNT ==> self.keys()[j] != lhs.0 ^ rhs.0,
            },
    {
        proof {
            use_type_invariant(self);
        }
        let diff = lhs.0 ^ rhs.0;
        let mut ix: usize = 0;
        while ix < KEY_COUNT
            invariant
                ix <= KEY_COUNT,
                self.numbers@.len() == KEY_COUNT,
                diff == lhs.0 ^ rhs.0,
                forall|j: int| 0 <= j < ix ==> self.numbers@[j] != diff,
            decreases KEY_COUNT - ix,
        {
            if diff == self.numbers[ix] {
                return Some(ix);
            }
            ix = ix + 1;
        }
        None
    }

    /// The Zobrist key of the position, computed from scratch.
    pub fn hash(&self, state: &GameState) -> (zh: ZobristHash)
        requires
            state.en_passant matches Some(ep) ==> ep.0 != 0,
        ensures
            zh.0 == hash_of(self.keys(), *state),
    {
        proof {
            use_type_invariant(self);
        }
        let mut zh: u64 = 0;
        let mut ix: usize = 0;
        while ix < KEY_COUNT
            invariant
                ix <= KEY_COUNT,
                self.numbers@.len() == KEY_COUNT,
                state.en_passant matches Some(ep) ==> ep.0 != 0,
                zh == xor_keys(self.numbers@, *state, ix as int),
            decreases KEY_COUNT - ix,
        {
            let on = has_feature(state, ix);
            let t: u64 = if on {
                self.numbers[ix]
            } else {
                0
            };
            zh = zh ^ t;
            ix = ix + 1;
        }
        ZobristHash(zh)
    }

    /// The hash with the key for black to move switched.
    pub fn toggle_active_colour(&self, zh: ZobristHash) -> (r: ZobristHash)
        ensures
            r.0 == zh.0 ^ self.keys()[BLACK_TO_MOVE as int],
    {
        proof {
            use_type_invariant(self);
        }
        ZobristHash(zh.0 ^ self.numbers[BLACK_TO_MOVE])
    }

    /// The hash with the key of one piece on one square switched.
    pub fn toggle_piece(&self, zh: ZobristHash, colour: Colour, piece: Piece, coord: BitCoord) -> (r:
        ZobristHash)
        requires
            coord.wf(),
        ensures
            r.0 == zh.0 ^ self.keys()[piece_key(colour, piece, coord.index())],
    {
        proof {
            use_type_invariant(self);
        }
        ZobristHash(zh.0 ^ self.numbers[Self::piece_index(colour, piece, coord)])
    }

    /// The hash with the key of the file of an en-passant target switched.
    pub fn toggle_en_passant(&self, zh: ZobristHash, en_passant: BitCoord) -> (r: ZobristHash)
        requires
            en_passant.0 != 0,
        ensures
            r.0 == zh.0 ^ self.keys()[EN_PASSANT + en_passant.file_spec()],
    {
        proof {
            use_type_invariant(self);
        }
        let ep_file = en_passant.file() as usize;
        let ep_file_ix = EN_PASSANT + ep_file;
        ZobristHash(zh.0 ^ self.numbers[ep_file_ix])
    }

    /// The hash with the key of white's queenside castling right switched.
    pub fn toggle_white_queenside(&self, zh: ZobristHash) -> (r: ZobristHash)
        ensures
            r.0 == zh.0 ^ self.keys()[WHITE_QUEENSIDE as int],
    {
        proof {
            use_type_invariant(self);
        }
        ZobristHash(zh.0 ^ self.numbers[WHITE_QUEENSIDE])
    }

    /// The hash with the key of white's kingside castling right switched.
    pub fn toggle_white_kingside(&self, zh: ZobristHash) -> (r: ZobristHash)
        ensures
            r.0 == zh.0 ^ self.keys()[WHITE_KINGSIDE as int],
    {
        proof {
            use_type_invariant(self);
        }
        ZobristHash(zh.0 ^ self.numbers[WHITE_KINGSIDE])
    }

    /// The hash with the key of black's queenside castling right switched.
    pub fn toggle_black_queenside(&self, zh: ZobristHash) -> (r: ZobristHash)
        ensures
            r.0 == zh.0 ^ self.keys()[BLACK_QUEENSIDE as int],
    {
        proof {
            use_type_invariant(self);
        }
        ZobristHash(zh.0 ^ self.numbers[BLACK_QUEENSIDE])
    }

    /// The hash with the key of black's kingside castling right switched.
    pub fn toggle_black_kingside(&self, zh: ZobristHash) -> (r: ZobristHash)
        ensures
            r.0 == zh.0 ^ self.keys()[BLACK_KINGSIDE as int],
    {
        proof {
            use_type_invariant(self);
        }
        ZobristHash(zh.0 ^ self.numbers[BLACK_KINGSIDE])
    }

    /// Index of the key for a piece of the given colour and kind on the
    /// given square.
    pub fn piece_index(colour: Colour, piece: Piece, coord: BitCoord) -> (ix: usize)
        requires
            coord.wf(),
        ensures
            ix == piece_key(colour, piece, coord.index()),
            ix < 768,
    {
        let coord_ix: usize = coord.square_index() as usize;
        let piece_ix: usize = match piece {
            Piece::King => 0,
            Piece::Queen => 64,
            Piece::Rook => 128,
            Piece::Bishop => 192,
            Piece::Knight => 256,
            Piece::Pawn => 320,
        };
        let colour_ix: usize = match colour {
            Colour::White => 0,
            Colour::Black => 384,
        };
        colour_ix + piece_ix + coord_ix
    }
}

/// Whether the key with index `ix` takes part in the hash of the position.
fn has_feature(state: &GameState, ix: usize) -> (on: bool)
    requires
        ix < KEY_COUNT,
        state.en_passant matches Some(ep) ==> ep.0 != 0,
    ensures
        on == feature(*state, ix as int),
{
    if ix < 768 {
        let pieces = if ix < 384 {
            &state.white.pieces
        } else {
            &state.black.pieces
        };
        let k = (ix % 384) / 64;
        let bb = if k == 0 {
            pieces.king
        } else if k == 1 {
            pieces.queens
        } else if k == 2 {
            pieces.rooks
        } else if k == 3 {
            pieces.bishops
        } else if k == 4 {
            pieces.knights
        } else {
            pieces.pawns
        };
        bb.0 & (1u64 << ((ix % 64) as u64)) != 0
    } else if ix == BLACK_TO_MOVE {
        state.active_colour == Colour::Black
    } else if ix == WHITE_KINGSIDE {
        state.white.can_castle_kingside
    } else if ix == WHITE_QUEENSIDE {
        state.white.can_castle_queenside
    } else if ix == BLACK_KINGSIDE {
        state.black.can_castle_kingside
    } else if ix == BLACK_QUEENSIDE {
        state.black.can_castle_queenside
    } else {
        match state.en_passant {
            Some(ep) => ep.file() as usize == ix - EN_PASSANT,
            None => false,
        }
    }
}

} // verus!
