use vstd::prelude::*;
use crate::bits::{
    bit, bit_set, low_index, single, lemma_bit_distinct, lemma_has_ops, lemma_low_index_of_bit,
    lemma_single,
};
use crate::magics::{BISHOP_MAGIC, ROOK_MAGIC};
use crate::types::{BitBoard, BitCoord};

verus! {

/// The distance between two numbers.
pub open spec fn distance(x: int, y: int) -> int {
    if x > y {
        x - y
    } else {
        y - x
    }
}

/// Whether the square `shift` bit positions away from the square `from`
/// is on the board and no more than two files and two ranks away, so that
/// the step did not wrap around an edge.
pub open spec fn step_ok(from: int, shift: int) -> bool {
    let to = from + shift;
    &&& 0 <= from < 64
    &&& 0 <= to < 64
    &&& distance(from % 8, to % 8) <= 2
    &&& distance(from / 8, to / 8) <= 2
}

/// Whether the square `t` is reached from `from` by one or more steps of
/// `shift`, none of which leaves the board.
pub open spec fn on_ray(from: int, shift: int, t: int) -> bool
    decreases
        (if shift > 0 {
            64 - from
        } else {
            from + 1
        }),
{
    if shift == 0 || !step_ok(from, shift) {
        false
    } else {
        t == from + shift || on_ray(from + shift, shift, t)
    }
}

/// `acc` with the squares that a slider on `from` reaches by steps of
/// `shift`: every square up to and including the first one in `occ`, or
/// up to the edge of the board.
pub open spec fn ray_from(acc: u64, from: int, shift: int, occ: u64) -> u64
    decreases
        (if shift > 0 {
            64 - from
        } else {
            from + 1
        }),
{
    if shift == 0 || !step_ok(from, shift) {
        acc
    } else if bit_set(occ, from + shift) {
        acc | bit(from + shift)
    } else {
        ray_from(acc | bit(from + shift), from + shift, shift, occ)
    }
}

/// `acc` with the squares on the ray from `from` by steps of `shift`
/// after which the ray goes on: the squares of the ray but its last.
pub open spec fn line_from(acc: u64, from: int, shift: int) -> u64
    decreases
        (if shift > 0 {
            64 - from
        } else {
            from + 1
        }),
{
    if shift == 0 || !step_ok(from, shift) {
        acc
    } else if step_ok(from + shift, shift) {
        line_from(acc | bit(from + shift), from + shift, shift)
    } else {
        acc
    }
}

/// `acc` with the square one step of `shift` away from `from`, if that
/// step stays on the board.
pub open spec fn with_step(acc: u64, from: int, shift: int) -> u64 {
    if step_ok(from, shift) {
        acc | bit(from + shift)
    } else {
        acc
    }
}

/// The squares that a rook on `from` attacks when `occ` is occupied.
pub open spec fn rook_attacks(from: int, occ: u64) -> u64 {
    ray_from(ray_from(ray_from(ray_from(0, from, 1, occ), from, 8, occ), from, -1, occ), from, -8, occ)
}

/// The squares that a bishop on `from` attacks when `occ` is occupied.
pub open spec fn bishop_attacks(from: int, occ: u64) -> u64 {
    ray_from(ray_from(ray_from(ray_from(0, from, 7, occ), from, 9, occ), from, -7, occ), from, -9, occ)
}

/// The squares whose occupancy matters to a rook on `from`: its four rays
/// without their last squares.
pub open spec fn rook_relevant(from: int) -> u64 {
    line_from(0, from, 1) | line_from(0, from, -1) | line_from(0, from, 8) | line_from(0, from, -8)
}

/// The squares whose occupancy matters to a bishop on `from`: its four
/// rays without their last squares.
pub open spec fn bishop_relevant(from: int) -> u64 {
    line_from(0, from, 9) | line_from(0, from, -9) | line_from(0, from, 7) | line_from(0, from, -7)
}

/// The squares next to `from`.
pub open spec fn king_attacks(from: int) -> u64 {
    with_step(
        with_step(
            with_step(
                with_step(
                    with_step(with_step(with_step(with_step(0, from, 1), from, -1), from, 8), from, -8),
                    from,
                    9,
                ),
                from,
                -9,
            ),
            from,
            7,
        ),
        from,
        -7,
    )
}

/// The squares a knight's jump away from `from`.
pub open spec fn knight_attacks(from: int) -> u64 {
    with_step(
        with_step(
            with_step(
                with_step(
                    with_step(
                        with_step(with_step(with_step(0, from, 17), from, -17), from, 15),
                        from,
                        -15,
                    ),
                    from,
                    10,
                ),
                from,
                -10,
            ),
            from,
            6,
        ),
        from,
        -6,
    )
}

proof fn bv_shift(i: u64, s: u64)
    by (bit_vector)
    requires
        i < 64,
        s < 64,
    ensures
        (1u64 << i) << s == (if i + s < 64 {
            1u64 << ((i + s) as u64)
        } else {
            0
        }),
        (1u64 << i) >> s == (if s <= i {
            1u64 << ((i - s) as u64)
        } else {
            0
        }),
{
}

/// A single square moved by `s` bit positions is the square with the
/// moved index, or nothing where that index is off the board.
pub proof fn lemma_shift(i: int, s: int)
    requires
        0 <= i < 64,
        0 <= s < 64,
    ensures
        bit(i) << (s as u64) == (if i + s < 64 {
            bit(i + s)
        } else {
            0
        }),
        bit(i) >> (s as u64) == (if s <= i {
            bit(i - s)
        } else {
            0
        }),
{
    bv_shift(i as u64, s as u64);
}

/// The squares on a line from a start, by steps of a fixed shift.
pub struct Line {
    coord: u64,
    shift: i32,
}

impl Line {
    /// The line stands on a single square and its shift stays within a
    /// 64-bit value.
    pub closed spec fn wf(self) -> bool {
        single(self.coord) && -64 < self.shift < 64
    }

    /// The index of the square on which the line stands.
    pub closed spec fn position(self) -> int {
        low_index(self.coord)
    }

    /// The number of bit positions of one step.
    pub closed spec fn step(self) -> int {
        self.shift as int
    }

    /// The line that starts beyond `start` and goes by steps of `shift`.
    pub fn new(start: BitCoord, shift: i32) -> (line: Line)
        ensures
            line.position() == start.index(),
            line.step() == shift,
            line.wf() == (start.wf() && -64 < shift < 64),
    {
        Line { coord: start.0, shift }
    }

    /// The next square of the line, on which the line then stands; `None`
    /// where the step would leave the board, and the line stays.
    pub fn next(&mut self) -> (r: Option<BitCoord>)
        requires
            old(self).wf(),
        ensures
            final(self).wf(),
            final(self).step() == old(self).step(),
            match r {
                Some(c) => {
                    &&& step_ok(old(self).position(), old(self).step())
                    &&& c.wf()
                    &&& c.index() == old(self).position() + old(self).step()
                    &&& c.0 == bit(c.index())
                    &&& final(self).position() == c.index()
                },
                None => {
                    &&& !step_ok(old(self).position(), old(self).step())
                    &&& final(self).position() == old(self).position()
                },
            },
    {
        let prev = self.coord;
        proof {
            lemma_single(prev);
            let i = low_index(prev);
            if self.shift > 0 {
                lemma_shift(i, self.shift as int);
                if i + self.shift < 64 {
                    lemma_low_index_of_bit(i + self.shift);
                }
            } else {
                lemma_shift(i, -self.shift as int);
                if -self.shift <= i {
                    lemma_low_index_of_bit(i + self.shift);
                }
            }
        }
        let next = if self.shift > 0 {
            prev << (self.shift as u64)
        } else {
            prev >> ((-self.shift) as u64)
        };
        if next == 0 {
            return None;
        }
        let dx = diff(prev.trailing_zeros() % 8, next.trailing_zeros() % 8);
        let dy = diff(prev.trailing_zeros() / 8, next.trailing_zeros() / 8);
        if dx > 2 || dy > 2 {
            return None;
        }
        self.coord = next;
        Some(BitCoord(next))
    }
}

/// The distance between two numbers.
pub fn diff(x: u32, y: u32) -> (d: u32)
    ensures
        d == distance(x as int, y as int),
{
    if x > y {
        x - y
    } else {
        y - x
    }
}

/// `moves` with the squares that a slider on `start` reaches by steps of
/// `shift` when `occupancy` is occupied.
fn ray_moves(moves: u64, start: BitCoord, shift: i32, occupancy: u64) -> (r: u64)
    requires
        start.wf(),
        -64 < shift < 64,
        shift != 0,
    ensures
        r == ray_from(moves, start.index(), shift as int, occupancy),
{
    let mut line = Line::new(start, shift);
    let mut acc = moves;
    proof {
        lemma_single(start.0);
    }
    loop
        invariant_except_break
            ray_from(acc, line.position(), shift as int, occupancy) == ray_from(
                moves,
                start.index(),
                shift as int,
                occupancy,
            ),
        invariant
            line.wf(),
            line.step() == shift,
            shift != 0,
            0 <= line.position() < 64,
        ensures
            acc == ray_from(moves, start.index(), shift as int, occupancy),
        decreases
            (if shift > 0 {
                64 - line.position()
            } else {
                line.position() + 1
            }),
    {
        match line.next() {
            Some(coord) => {
                acc = acc | coord.0;
                if occupancy & coord.0 != 0 {
                    break ;
                }
            },
            None => {
                break ;
            },
        }
    }
    acc
}

/// The squares that a rook on `start` attacks when `occupancy` is
/// occupied, found by walking its four rays.
pub fn rook_moves(start: BitCoord, occupancy: BitBoard) -> (moves: BitBoard)
    requires
        start.wf(),
    ensures
        moves.0 == rook_attacks(start.index(), occupancy.0),
{
    let a = ray_moves(0, start, 1, occupancy.0);
    let b = ray_moves(a, start, 8, occupancy.0);
    let c = ray_moves(b, start, -1, occupancy.0);
    BitBoard(ray_moves(c, start, -8, occupancy.0))
}

/// The squares that a bishop on `start` attacks when `occupancy` is
/// occupied, found by walking its four rays.
pub fn bishop_moves(start: BitCoord, occupancy: BitBoard) -> (moves: BitBoard)
    requires
        start.wf(),
    ensures
        moves.0 == bishop_attacks(start.index(), occupancy.0),
{
    let a = ray_moves(0, start, 7, occupancy.0);
    let b = ray_moves(a, start, 9, occupancy.0);
    let c = ray_moves(b, start, -7, occupancy.0);
    BitBoard(ray_moves(c, start, -9, occupancy.0))
}

/// `moves` with the square one step of `shift` away from `start`, if the
/// step stays on the board.
pub(crate) fn step_move(moves: u64, start: BitCoord, shift: i32) -> (r: u64)
    requires
        start.wf(),
        -64 < shift < 64,
    ensures
        r == with_step(moves, start.index(), shift as int),
{
    let mut line = Line::new(start, shift);
    match line.next() {
        Some(coord) => moves | coord.0,
        None => moves,
    }
}

/// The squares next to `start`.
pub fn king_moves(start: BitCoord) -> (moves: BitBoard)
    requires
        start.wf(),
    ensures
        moves.0 == king_attacks(start.index()),
{
    let mut moves: u64 = 0;
    moves = step_move(moves, start, 1);
    moves = step_move(moves, start, -1);
    moves = step_move(moves, start, 8);
    moves = step_move(moves, start, -8);
    moves = step_move(moves, start, 9);
    moves = step_move(moves, start, -9);
    moves = step_move(moves, start, 7);
    moves = step_move(moves, start, -7);
    BitBoard(moves)
}

/// The squares a knight's jump away from `start`.
pub fn knight_moves(start: BitCoord) -> (moves: BitBoard)
    requires
        start.wf(),
    ensures
        moves.0 == knight_attacks(start.index()),
{
    let mut moves: u64 = 0;
    moves = step_move(moves, start, 17);
    moves = step_move(moves, start, -17);
    moves = step_move(moves, start, 15);
    moves = step_move(moves, start, -15);
    moves = step_move(moves, start, 10);
    moves = step_move(moves, start, -10);
    moves = step_move(moves, start, 6);
    moves = step_move(moves, start, -6);
    BitBoard(moves)
}

/// `mask` with the squares on the ray from `start` by steps of `shift`,
/// but for the last.
fn line_mask(mask: u64, start: BitCoord, shift: i32) -> (r: u64)
    requires
        start.wf(),
        -64 < shift < 64,
        shift != 0,
    ensures
        r == line_from(mask, start.index(), shift as int),
{
    let mut line = Line::new(start, shift);
    let mut acc = mask;
    proof {
        lemma_single(start.0);
    }
    let mut pending: Option<BitCoord> = line.next();
    loop
        invariant
            line.wf(),
            line.step() == shift,
            shift != 0,
            0 <= line.position() < 64,
            match pending {
                Some(c) => {
                    &&& c.0 == bit(line.position())
                    &&& step_ok(line.position() - shift, shift as int)
                    &&& line_from(acc, line.position() - shift, shift as int) == line_from(
                        mask,
                        start.index(),
                        shift as int,
                    )
                },
                None => acc == line_from(mask, start.index(), shift as int),
            },
        ensures
            acc == line_from(mask, start.index(), shift as int),
        decreases
            (if pending is Some {
                1int
            } else {
                0int
            }) + (if shift > 0 {
                64 - line.position()
            } else {
                line.position() + 1
            }),
    {
        match pending {
            Some(coord) => {
                let following = line.next();
                if following.is_some() {
                    acc = acc | coord.0;
                }
                pending = following;
            },
            None => {
                break ;
            },
        }
    }
    acc
}

/// The squares whose occupancy matters to a rook on `coord`.
pub fn rook_mask(coord: BitCoord) -> (mask: BitBoard)
    requires
        coord.wf(),
    ensures
        mask.0 == rook_relevant(coord.index()),
{
    BitBoard(
        line_mask(0, coord, 1) | line_mask(0, coord, -1) | line_mask(0, coord, 8) | line_mask(
            0,
            coord,
            -8,
        ),
    )
}

/// The squares whose occupancy matters to a bishop on `coord`.
pub fn bishop_mask(coord: BitCoord) -> (mask: BitBoard)
    requires
        coord.wf(),
    ensures
        mask.0 == bishop_relevant(coord.index()),
{
    BitBoard(
        line_mask(0, coord, 9) | line_mask(0, coord, -9) | line_mask(0, coord, 7) | line_mask(
            0,
            coord,
            -7,
        ),
    )
}

/// The subsets of the bits of `mask` below index `upto`: the empty set
/// first, and for each bit of the mask in turn the sets found so far,
/// followed by each of them with that bit added.
pub open spec fn subsets(mask: u64, upto: int) -> Seq<BitBoard>
    decreases upto,
{
    if upto <= 0 {
        seq![BitBoard(0)]
    } else if bit_set(mask, upto - 1) {
        subsets(mask, upto - 1) + subsets(mask, upto - 1).map_values(
            |b: BitBoard| BitBoard(b.0 | bit(upto - 1)),
        )
    } else {
        subsets(mask, upto - 1)
    }
}

/// The value with every bit below index `upto` set.
pub open spec fn low_mask(upto: int) -> u64 {
    if upto >= 64 {
        0xFFFF_FFFF_FFFF_FFFF
    } else {
        ((1u64 << (upto as u64)) - 1) as u64
    }
}

proof fn bv_low(v: u64, x: u64)
    by (bit_vector)
    requires
        x < 64,
    ensures
        v & (((1u64 << 0u64) - 1) as u64) == 0,
        x < 63 ==> v & (((1u64 << ((x + 1) as u64)) - 1) as u64) == (v & (((1u64 << x) - 1) as u64))
            | (v & (1u64 << x)),
        x == 63 ==> v & 0xFFFF_FFFF_FFFF_FFFF == (v & (((1u64 << x) - 1) as u64)) | (v & (1u64
            << x)),
        v & (1u64 << x) == 0 || v & (1u64 << x) == (1u64 << x),
        v | 0 == v,
        v & 0xFFFF_FFFF_FFFF_FFFF == v,
{
}

/// Every subset of the mask is listed: the part of `v` that lies in the
/// mask and below index `upto` stands at the returned place.
pub proof fn lemma_subsets_complete(mask: u64, v: u64, upto: int) -> (ix: int)
    requires
        0 <= upto <= 64,
    ensures
        0 <= ix < subsets(mask, upto).len(),
        subsets(mask, upto)[ix].0 == (v & mask) & low_mask(upto),
    decreases upto,
{
    let w = v & mask;
    if upto == 0 {
        bv_low(w, 0);
        0
    } else {
        let x = upto - 1;
        let prev = lemma_subsets_complete(mask, v, x);
        let s = subsets(mask, x);
        bv_low(w, x as u64);
        bv_low(w & low_mask(x), x as u64);
        lemma_has_ops(v, mask, x);
        if bit_set(mask, x) {
            if bit_set(w, x) {
                prev + s.len()
            } else {
                prev
            }
        } else {
            prev
        }
    }
}

/// The place in a table of the masked occupancy `bb & mask` under the
/// multiplier `magic`: the top bits of their product.
pub open spec fn slot(bb: u64, mask: u64, magic: u64, shift: u32) -> int {
    ((bb & mask).wrapping_mul(magic) >> shift) as int
}

/// Whether the multiplier hashes the subsets of the mask perfectly with
/// the given shift: two subsets with the same place have the same moves.
pub open spec fn fits(magic: u64, mask: u64, all_moves: Seq<BitBoard>, shift: u32) -> bool {
    forall|i: int, j: int|
        0 <= i < all_moves.len() && 0 <= j < all_moves.len() && slot(
            #[trigger] subsets(mask, 64)[i].0,
            mask,
            magic,
            shift,
        ) == slot(#[trigger] subsets(mask, 64)[j].0, mask, magic, shift) ==> all_moves[i]
            == all_moves[j]
}

proof fn bv_slot(x: u64, s: u32, m: u64, w1: u64, w2: u64)
    by (bit_vector)
    requires
        1 <= s <= 60,
    ensures
        (x >> s) < (1u64 << ((64 - s) as u64)),
        (x & m) & m == x & m,
        w1 <= w2 < 64 ==> (1u64 << w1) <= (1u64 << w2),
{
}

/// The subsets of the squares of `mask`.
pub fn boards_for_mask(mask: BitBoard) -> (boards: Vec<BitBoard>)
    ensures
        boards@ == subsets(mask.0, 64),
{
    let mut boards: Vec<BitBoard> = Vec::new();
    boards.push(BitBoard(0));
    assert(boards@ =~= subsets(mask.0, 0));
    let mut x: u32 = 0;
    while x < 64
        invariant
            x <= 64,
            boards@ == subsets(mask.0, x as int),
        decreases 64 - x,
    {
        let coord = 1u64 << (x as u64);
        if mask.0 & coord != 0 {
            let n = boards.len();
            let ghost prev = boards@;
            let mut ix: usize = 0;
            while ix < n
                invariant
                    ix <= n,
                    n == prev.len(),
                    coord == bit(x as int),
                    boards@ == prev + prev.subrange(0, ix as int).map_values(
                        |b: BitBoard| BitBoard(b.0 | bit(x as int)),
                    ),
                decreases n - ix,
            {
                let b = boards[ix];
                boards.push(BitBoard(b.0 | coord));
                ix = ix + 1;
                assert(boards@ =~= prev + prev.subrange(0, ix as int).map_values(
                    |b: BitBoard| BitBoard(b.0 | bit(x as int)),
                ));
            }
            assert(prev.subrange(0, n as int) =~= prev);
        } else {
            assert(boards@ =~= boards@ + Seq::<BitBoard>::empty());
        }
        x = x + 1;
    }
    boards
}

/// The moves of a piece on `coord` for every subset of `mask`, in the
/// order of `boards_for_mask`.
pub fn generate_moves<F: Fn(BitCoord, BitBoard) -> BitBoard>(
    coord: BitCoord,
    mask: BitBoard,
    movegen: F,
) -> (moves: Vec<BitBoard>)
    requires
        forall|o: BitBoard| call_requires(movegen, (coord, o)),
    ensures
        moves@.len() == subsets(mask.0, 64).len(),
        forall|i: int|
            0 <= i < moves@.len() ==> call_ensures(
                movegen,
                (coord, subsets(mask.0, 64)[i]),
                #[trigger] moves@[i],
            ),
{
    let boards = boards_for_mask(mask);
    let mut moves: Vec<BitBoard> = Vec::new();
    let mut ix: usize = 0;
    while ix < boards.len()
        invariant
            ix <= boards.len(),
            boards@ == subsets(mask.0, 64),
            moves@.len() == ix,
            forall|o: BitBoard| call_requires(movegen, (coord, o)),
            forall|i: int|
                0 <= i < ix ==> call_ensures(movegen, (coord, boards@[i]), #[trigger] moves@[i]),
        decreases boards.len() - ix,
    {
        moves.push(movegen(coord, boards[ix]));
        ix = ix + 1;
    }
    moves
}

/// A perfect-hash table of a slider's moves from one square.
#[derive(Clone)]
pub struct Magic {
    table: Vec<BitBoard>,
    mask: BitBoard,
    magic: u64,
    shift: u32,
}

impl Magic {
    /// The table, by place.
    pub closed spec fn table(self) -> Seq<BitBoard> {
        self.table@
    }

    /// The squares whose occupancy the table looks at.
    pub closed spec fn relevant(self) -> BitBoard {
        self.mask
    }

    /// The multiplier.
    pub closed spec fn multiplier(self) -> u64 {
        self.magic
    }

    /// The number of bits that the product is shifted down by.
    pub closed spec fn shift_by(self) -> u32 {
        self.shift
    }

    /// The table has a place for every value of the top `64 - shift` bits.
    pub open spec fn wf(self) -> bool {
        &&& 1 <= self.shift_by() <= 60
        &&& self.table().len() == (1u64 << ((64 - self.shift_by()) as u64))
    }

    /// What the table holds for the occupancy `bb`.
    pub open spec fn lookup_spec(self, bb: BitBoard) -> BitBoard {
        self.table()[slot(bb.0, self.relevant().0, self.multiplier(), self.shift_by())]
    }

    /// A table without any place, which answers no lookup.
    pub fn dummy() -> (m: Magic)
        ensures
            m.table().len() == 0,
            m.relevant().0 == 0,
            m.multiplier() == 0,
            m.shift_by() == 0,
            !m.wf(),
    {
        Magic { table: Vec::new(), mask: BitBoard(0), magic: 0, shift: 0 }
    }

    /// The multiplier.
    pub fn magic(&self) -> (r: u64)
        ensures
            r == self.multiplier(),
    {
        self.magic
    }

    /// The number of bits that the product is shifted down by.
    pub fn shift(&self) -> (r: u32)
        ensures
            r == self.shift_by(),
    {
        self.shift
    }

    /// The number of places of the table.
    pub fn size(&self) -> (r: usize)
        ensures
            r == self.table().len(),
    {
        self.table.len()
    }

    /// The moves stored for the occupancy `bb`.
    pub fn lookup(&self, bb: BitBoard) -> (r: BitBoard)
        requires
            self.wf(),
        ensures
            r == self.lookup_spec(bb),
    {
        let size = self.table.len();
        self.table[Magic::index(bb, self.mask, self.magic, self.shift)]
    }

    /// The table of the least width from 4 bits up, of at most `max_size`
    /// places, in which `magic` hashes the subsets of `mask` perfectly,
    /// where `all_moves` holds the moves for each subset in the order of
    /// `boards_for_mask`; `None` where no such width fits.
    pub fn generate(magic: u64, mask: BitBoard, all_moves: &Vec<BitBoard>, max_size: usize) -> (r:
        Option<Magic>)
        requires
            all_moves@.len() == subsets(mask.0, 64).len(),
        ensures
            match r {
                Some(m) => {
                    &&& m.wf()
                    &&& m.relevant() == mask
                    &&& m.multiplier() == magic
                    &&& 4 <= 64 - m.shift_by()
                    &&& m.table().len() <= max_size
                    &&& fits(magic, mask.0, all_moves@, m.shift_by())
                    &&& forall|s: u32|
                        m.shift_by() < s <= 60 ==> !fits(magic, mask.0, all_moves@, s)
                    &&& forall|i: int|
                        0 <= i < all_moves@.len() ==> m.lookup_spec(
                            #[trigger] subsets(mask.0, 64)[i],
                        ) == all_moves@[i]
                },
                None => forall|s: u32|
                    1 <= s <= 60 && (1u64 << ((64 - s) as u64)) <= max_size ==> !fits(
                        magic,
                        mask.0,
                        all_moves@,
                        s,
                    ),
            },
    {
        let occupancies = boards_for_mask(mask);
        let mut width: u32 = 4;
        while width < 64
            invariant
                4 <= width <= 64,
                occupancies@ == subsets(mask.0, 64),
                all_moves@.len() == occupancies@.len(),
                forall|s: u32| 64 - width < s <= 60 ==> !fits(magic, mask.0, all_moves@, s),
            decreases 64 - width,
        {
            let shift = 64 - width;
            let size: u64 = 1u64 << (width as u64);
            if size > max_size as u64 {
                proof {
                    assert forall|s: u32|
                        1 <= s <= 60 && (1u64 << ((64 - s) as u64)) <= max_size implies !fits(
                        magic,
                        mask.0,
                        all_moves@,
                        s,
                    ) by {
                        bv_slot(0, 1, 0, width as u64, (64 - s) as u64);
                    }
                }
                return None;
            }
            match Self::fill_table(magic, mask, &occupancies, all_moves, shift) {
                Some(table) => {
                    return Some(Magic { table, mask, magic, shift });
                },
                None => {},
            }
            width = width + 1;
        }
        None
    }

    /// The table for the given shift, if `magic` hashes the occupancies
    /// perfectly into it.
    fn fill_table(
        magic: u64,
        mask: BitBoard,
        occupancies: &Vec<BitBoard>,
        all_moves: &Vec<BitBoard>,
        shift: u32,
    ) -> (r: Option<Vec<BitBoard>>)
        requires
            1 <= shift <= 60,
            occupancies@ == subsets(mask.0, 64),
            all_moves@.len() == occupancies@.len(),
            (1u64 << ((64 - shift) as u64)) <= usize::MAX,
        ensures
            r is Some == fits(magic, mask.0, all_moves@, shift),
            match r {
                Some(table) => {
                    &&& table@.len() == (1u64 << ((64 - shift) as u64))
                    &&& forall|i: int|
                        0 <= i < all_moves@.len() ==> table@[slot(
                            #[trigger] occupancies@[i].0,
                            mask.0,
                            magic,
                            shift,
                        )] == all_moves@[i]
                },
                None => true,
            },
    {
        let size: usize = (1u64 << ((64 - shift) as u64)) as usize;
        let mut table: Vec<BitBoard> = Vec::new();
        let mut filled: Vec<bool> = Vec::new();
        let mut k: usize = 0;
        while k < size
            invariant
                k <= size,
                table@.len() == k,
                filled@.len() == k,
                forall|s: int| 0 <= s < k ==> !#[trigger] filled@[s],
            decreases size - k,
        {
            table.push(BitBoard(0));
            filled.push(false);
            k = k + 1;
        }
        proof {
            assert forall|j: int| 0 <= j < occupancies@.len() implies 0 <= slot(
                #[trigger] occupancies@[j].0,
                mask.0,
                magic,
                shift,
            ) < size by {
                bv_slot((occupancies@[j].0 & mask.0).wrapping_mul(magic), shift, 0, 0, 0);
            }
        }
        let mut i: usize = 0;
        while i < occupancies.len()
            invariant
                i <= occupancies.len(),
                1 <= shift <= 60,
                size == (1u64 << ((64 - shift) as u64)),
                forall|j: int|
                    0 <= j < occupancies@.len() ==> 0 <= slot(
                        #[trigger] occupancies@[j].0,
                        mask.0,
                        magic,
                        shift,
                    ) < size,
                occupancies@ == subsets(mask.0, 64),
                all_moves@.len() == occupancies@.len(),
                table@.len() == size,
                filled@.len() == size,
                forall|j: int|
                    0 <= j < i ==> filled@[slot(#[trigger] occupancies@[j].0, mask.0, magic, shift)]
                        && table@[slot(occupancies@[j].0, mask.0, magic, shift)] == all_moves@[j],
                forall|s: int|
                    0 <= s < size && #[trigger] filled@[s] ==> exists|j: int|
                        0 <= j < i && slot(#[trigger] occupancies@[j].0, mask.0, magic, shift) == s,
            decreases occupancies.len() - i,
        {
            let o = occupancies[i];
            let index = Magic::index(o, mask, magic, shift);
            let moves = all_moves[i];
            if filled[index] && table[index].0 != moves.0 {
                proof {
                    let j = choose|j: int|
                        0 <= j < i && slot(#[trigger] occupancies@[j].0, mask.0, magic, shift)
                            == index;
                    assert(slot(subsets(mask.0, 64)[j].0, mask.0, magic, shift) == slot(
                        subsets(mask.0, 64)[i as int].0,
                        mask.0,
                        magic,
                        shift,
                    ));
                    assert(all_moves@[j] != all_moves@[i as int]);
                }
                return None;
            }
            table.set(index, moves);
            filled.set(index, true);
            proof {
                assert forall|s: int| 0 <= s < size && #[trigger] filled@[s] implies exists|j: int|
                    0 <= j < i + 1 && slot(#[trigger] occupancies@[j].0, mask.0, magic, shift)
                        == s by {
                    if s == index {
                        assert(slot(occupancies@[i as int].0, mask.0, magic, shift) == s);
                    } else {
                        let j = choose|j: int|
                            0 <= j < i && slot(#[trigger] occupancies@[j].0, mask.0, magic, shift)
                                == s;
                        assert(slot(occupancies@[j].0, mask.0, magic, shift) == s);
                    }
                }
            }
            i = i + 1;
        }
        Some(table)
    }

    /// The place in a table of the occupancy `bb`.
    fn index(bb: BitBoard, mask: BitBoard, magic: u64, shift: u32) -> (ix: usize)
        requires
            1 <= shift <= 60,
            (1u64 << ((64 - shift) as u64)) <= usize::MAX,
        ensures
            ix == slot(bb.0, mask.0, magic, shift),
            ix < (1u64 << ((64 - shift) as u64)),
    {
        proof {
            bv_slot((bb.0 & mask.0).wrapping_mul(magic), shift, 0, 0, 0);
        }
        ((bb.0 & mask.0).wrapping_mul(magic) >> shift) as usize
    }
}

/// A square reached from the next square of a ray is reached from this
/// one too.
proof fn lemma_on_ray_step(from: int, shift: int, t: int)
    requires
        shift != 0,
        step_ok(from, shift),
        on_ray(from + shift, shift, t),
    ensures
        on_ray(from, shift, t),
{
}

/// The squares that a ray reaches do not depend on what stands off the
/// squares in `m`, as long as `m` holds every square of the ray after
/// which the ray goes on.
proof fn lemma_ray_relevant(acc: u64, from: int, shift: int, occ: u64, m: u64)
    requires
        shift != 0,
        0 <= from < 64,
        forall|t: int| on_ray(from, shift, t) && step_ok(t, shift) ==> bit_set(m, t),
    ensures
        ray_from(acc, from, shift, occ) == ray_from(acc, from, shift, occ & m),
    decreases
        (if shift > 0 {
            64 - from
        } else {
            from + 1
        }),
{
    if step_ok(from, shift) {
        let to = from + shift;
        lemma_has_ops(occ, m, to);
        assert(on_ray(from, shift, to));
        if step_ok(to, shift) {
            assert forall|t: int| on_ray(to, shift, t) && step_ok(t, shift) implies bit_set(
                m,
                t,
            ) by {
                lemma_on_ray_step(from, shift, t);
            }
            lemma_ray_relevant(acc | bit(to), to, shift, occ, m);
        } else {
            assert(ray_from(acc | bit(to), to, shift, occ) == acc | bit(to));
            assert(ray_from(acc | bit(to), to, shift, occ & m) == acc | bit(to));
        }
    }
}

/// A line holds what it started with and every square of its ray after
/// which the ray goes on.
proof fn lemma_line_members(acc: u64, from: int, shift: int, t: int)
    requires
        shift != 0,
        0 <= from < 64,
        0 <= t < 64,
        bit_set(acc, t) || (on_ray(from, shift, t) && step_ok(t, shift)),
    ensures
        bit_set(line_from(acc, from, shift), t),
    decreases
        (if shift > 0 {
            64 - from
        } else {
            from + 1
        }),
{
    if step_ok(from, shift) {
        let to = from + shift;
        if step_ok(to, shift) {
            lemma_has_ops(acc, bit(to), t);
            lemma_bit_distinct(to, t);
            lemma_line_members(acc | bit(to), to, shift, t);
        } else {
            assert(!on_ray(to, shift, t));
        }
    }
}

/// A ray from `from` sees the same with `occ` as with the part of `occ`
/// inside any union of four sets of which one is the line of that ray.
proof fn lemma_ray_in_union(
    acc: u64,
    from: int,
    shift: int,
    occ: u64,
    a: u64,
    b: u64,
    c: u64,
    d: u64,
)
    requires
        shift != 0,
        0 <= from < 64,
        a == line_from(0, from, shift) || b == line_from(0, from, shift) || c == line_from(
            0,
            from,
            shift,
        ) || d == line_from(0, from, shift),
    ensures
        ray_from(acc, from, shift, occ) == ray_from(acc, from, shift, occ & (a | b | c | d)),
{
    let m = a | b | c | d;
    assert forall|t: int| on_ray(from, shift, t) && step_ok(t, shift) implies bit_set(m, t) by {
        lemma_line_members(0, from, shift, t);
        lemma_has_ops(a, b, t);
        lemma_has_ops(a | b, c, t);
        lemma_has_ops(a | b | c, d, t);
    }
    lemma_ray_relevant(acc, from, shift, occ, m);
}

/// A rook's moves depend only on the occupancy of its relevant squares.
pub proof fn lemma_rook_relevant(from: int, occ: u64)
    requires
        0 <= from < 64,
    ensures
        rook_attacks(from, occ) == rook_attacks(from, occ & rook_relevant(from)),
{
    let a = line_from(0, from, 1);
    let b = line_from(0, from, -1);
    let c = line_from(0, from, 8);
    let d = line_from(0, from, -8);
    let r1 = ray_from(0, from, 1, occ);
    let r2 = ray_from(r1, from, 8, occ);
    let r3 = ray_from(r2, from, -1, occ);
    lemma_ray_in_union(0, from, 1, occ, a, b, c, d);
    lemma_ray_in_union(r1, from, 8, occ, a, b, c, d);
    lemma_ray_in_union(r2, from, -1, occ, a, b, c, d);
    lemma_ray_in_union(r3, from, -8, occ, a, b, c, d);
}

/// A bishop's moves depend only on the occupancy of its relevant squares.
pub proof fn lemma_bishop_relevant(from: int, occ: u64)
    requires
        0 <= from < 64,
    ensures
        bishop_attacks(from, occ) == bishop_attacks(from, occ & bishop_relevant(from)),
{
    let a = line_from(0, from, 9);
    let b = line_from(0, from, -9);
    let c = line_from(0, from, 7);
    let d = line_from(0, from, -7);
    let r1 = ray_from(0, from, 7, occ);
    let r2 = ray_from(r1, from, 9, occ);
    let r3 = ray_from(r2, from, -7, occ);
    lemma_ray_in_union(0, from, 7, occ, a, b, c, d);
    lemma_ray_in_union(r1, from, 9, occ, a, b, c, d);
    lemma_ray_in_union(r2, from, -7, occ, a, b, c, d);
    lemma_ray_in_union(r3, from, -9, occ, a, b, c, d);
}

/// A table that holds, for every subset of the mask, what `attacks` gives
/// for it answers every occupancy as `attacks` does, where `attacks`
/// depends only on the occupancy of the mask.
proof fn lemma_table_sound(m: Magic, all_moves: Seq<BitBoard>, occ: u64) -> (ix: int)
    requires
        all_moves.len() == subsets(m.relevant().0, 64).len(),
        forall|i: int|
            0 <= i < all_moves.len() ==> m.lookup_spec(
                #[trigger] subsets(m.relevant().0, 64)[i],
            ) == all_moves[i],
    ensures
        0 <= ix < all_moves.len(),
        subsets(m.relevant().0, 64)[ix].0 == occ & m.relevant().0,
        m.lookup_spec(BitBoard(occ)) == all_moves[ix],
{
    let mask = m.relevant().0;
    let ix = lemma_subsets_complete(mask, occ, 64);
    bv_low(occ & mask, 0);
    bv_slot(occ, 1, mask, 0, 0);
    assert(subsets(mask, 64)[ix].0 == occ & mask);
    assert(slot(occ, mask, m.multiplier(), m.shift_by()) == slot(
        occ & mask,
        mask,
        m.multiplier(),
        m.shift_by(),
    ));
    ix
}

/// The moves of a rook on `sq` for every subset of its relevant squares,
/// in the order of `subsets`.
pub open spec fn rook_table(sq: int) -> Seq<BitBoard> {
    subsets(rook_relevant(sq), 64).map_values(|o: BitBoard| BitBoard(rook_attacks(sq, o.0)))
}

/// The moves of a bishop on `sq` for every subset of its relevant
/// squares, in the order of `subsets`.
pub open spec fn bishop_table(sq: int) -> Seq<BitBoard> {
    subsets(bishop_relevant(sq), 64).map_values(|o: BitBoard| BitBoard(bishop_attacks(sq, o.0)))
}

/// Whether a multiplier with its number of table bits can be used: the
/// number of bits is below 32, and with some width from 4 bits up to that
/// number the multiplier hashes the subsets of the mask perfectly.
pub open spec fn perfect(entry: (u64, u32), mask: u64, moves: Seq<BitBoard>) -> bool {
    &&& entry.1 < 32
    &&& exists|s: u32|
        1 <= s <= 60 && (1u64 << ((64 - s) as u64)) <= (1usize << entry.1) && #[trigger] fits(
            entry.0,
            mask,
            moves,
            s,
        )
}

/// The attack tables of all squares: perfect-hash tables for rooks and
/// bishops, and the moves of kings and knights.
pub struct MagicBitBoards {
    rooks: Vec<Magic>,
    bishops: Vec<Magic>,
    kings: Vec<BitBoard>,
    knights: Vec<BitBoard>,
}

impl MagicBitBoards {
    /// Every square has its tables, and each table answers every
    /// occupancy with the moves that walking the rays finds.
    #[verifier::type_invariant]
    pub closed spec fn sound(self) -> bool {
        &&& self.rooks@.len() == 64
        &&& self.bishops@.len() == 64
        &&& self.kings@.len() == 64
        &&& self.knights@.len() == 64
        &&& forall|sq: int|
            0 <= sq < 64 ==> (#[trigger] self.rooks@[sq]).wf() && forall|occ: u64|
                (#[trigger] self.rooks@[sq].lookup_spec(BitBoard(occ))).0 == rook_attacks(sq, occ)
        &&& forall|sq: int|
            0 <= sq < 64 ==> (#[trigger] self.bishops@[sq]).wf() && forall|occ: u64|
                (#[trigger] self.bishops@[sq].lookup_spec(BitBoard(occ))).0 == bishop_attacks(
                    sq,
                    occ,
                )
        &&& forall|sq: int| 0 <= sq < 64 ==> (#[trigger] self.kings@[sq]).0 == king_attacks(sq)
        &&& forall|sq: int| 0 <= sq < 64 ==> (#[trigger] self.knights@[sq]).0 == knight_attacks(sq)
    }

    /// The tables built from the multipliers that the library carries.
    pub fn default() -> (r: Option<MagicBitBoards>)
        ensures
            r is Some <==> forall|sq: int|
                0 <= sq < 64 ==> perfect(
                    #[trigger] ROOK_MAGIC[sq],
                    rook_relevant(sq),
                    rook_table(sq),
                ) && perfect(BISHOP_MAGIC[sq], bishop_relevant(sq), bishop_table(sq)),
    {
        Self::generate(ROOK_MAGIC, BISHOP_MAGIC)
    }

    /// The tables built from a multiplier and a number of table bits for
    /// each square and kind of slider; `None` where one of them cannot be
    /// used.
    pub fn generate(rook_magics: [(u64, u32); 64], bishop_magics: [(u64, u32); 64]) -> (r: Option<
        MagicBitBoards,
    >)
        ensures
            r is Some <==> forall|sq: int|
                0 <= sq < 64 ==> perfect(
                    #[trigger] rook_magics[sq],
                    rook_relevant(sq),
                    rook_table(sq),
                ) && perfect(bishop_magics[sq], bishop_relevant(sq), bishop_table(sq)),
    {
        let mut rooks: Vec<Magic> = Vec::new();
        let mut bishops: Vec<Magic> = Vec::new();
        let mut kings: Vec<BitBoard> = Vec::new();
        let mut knights: Vec<BitBoard> = Vec::new();
        let mut c: u32 = 0;
        while c < 64
            invariant
                c <= 64,
                rooks@.len() == c,
                bishops@.len() == c,
                kings@.len() == c,
                knights@.len() == c,
                forall|sq: int|
                    0 <= sq < c ==> perfect(
                        #[trigger] rook_magics[sq],
                        rook_relevant(sq),
                        rook_table(sq),
                    ) && perfect(bishop_magics[sq], bishop_relevant(sq), bishop_table(sq)),
                forall|sq: int|
                    0 <= sq < c ==> (#[trigger] rooks@[sq]).wf() && forall|occ: u64|
                        (#[trigger] rooks@[sq].lookup_spec(BitBoard(occ))).0 == rook_attacks(sq, occ),
                forall|sq: int|
                    0 <= sq < c ==> (#[trigger] bishops@[sq]).wf() && forall|occ: u64|
                        (#[trigger] bishops@[sq].lookup_spec(BitBoard(occ))).0 == bishop_attacks(
                            sq,
                            occ,
                        ),
                forall|sq: int| 0 <= sq < c ==> (#[trigger] kings@[sq]).0 == king_attacks(sq),
                forall|sq: int| 0 <= sq < c ==> (#[trigger] knights@[sq]).0 == knight_attacks(sq),
            decreases 64 - c,
        {
            let coord = BitCoord::from_index(c);
            let rook = match Self::slider(
                rook_magics[c as usize],
                coord,
                rook_mask(coord),
                rook_moves,
                Ghost(rook_table(c as int)),
            ) {
                Some(m) => m,
                None => {
                    return None;
                },
            };
            let bishop = match Self::slider(
                bishop_magics[c as usize],
                coord,
                bishop_mask(coord),
                bishop_moves,
                Ghost(bishop_table(c as int)),
            ) {
                Some(m) => m,
                None => {
                    return None;
                },
            };
            proof {
                assert forall|occ: u64|
                    (#[trigger] rook.lookup_spec(BitBoard(occ))).0 == rook_attacks(
                        c as int,
                        occ,
                    ) by {
                    let ix = lemma_table_sound(rook, rook_table(c as int), occ);
                    lemma_rook_relevant(c as int, occ);
                }
                assert forall|occ: u64|
                    (#[trigger] bishop.lookup_spec(BitBoard(occ))).0 == bishop_attacks(
                        c as int,
                        occ,
                    ) by {
                    let ix = lemma_table_sound(bishop, bishop_table(c as int), occ);
                    lemma_bishop_relevant(c as int, occ);
                }
            }
            rooks.push(rook);
            bishops.push(bishop);
            kings.push(king_moves(coord));
            knights.push(knight_moves(coord));
            c = c + 1;
        }
        Some(MagicBitBoards { rooks, bishops, kings, knights })
    }

    /// The table of one slider on one square, built from its multiplier
    /// and number of table bits, if they can be used.
    fn slider<F: Fn(BitCoord, BitBoard) -> BitBoard>(
        entry: (u64, u32),
        coord: BitCoord,
        mask: BitBoard,
        movegen: F,
        Ghost(moves): Ghost<Seq<BitBoard>>,
    ) -> (r: Option<Magic>)
        requires
            forall|o: BitBoard| call_requires(movegen, (coord, o)),
            moves.len() == subsets(mask.0, 64).len(),
            forall|i: int, r: BitBoard|
                0 <= i < moves.len() && #[trigger] call_ensures(
                    movegen,
                    (coord, subsets(mask.0, 64)[i]),
                    r,
                ) ==> r == moves[i],
        ensures
            r is Some <==> perfect(entry, mask.0, moves),
            match r {
                Some(m) => {
                    &&& m.wf()
                    &&& m.relevant() == mask
                    &&& forall|i: int|
                        0 <= i < moves.len() ==> m.lookup_spec(#[trigger] subsets(mask.0, 64)[i])
                            == moves[i]
                },
                None => true,
            },
    {
        let (magic, bits) = entry;
        if bits >= 32 {
            return None;
        }
        let all_moves = generate_moves(coord, mask, movegen);
        assert(all_moves@ =~= moves);
        Magic::generate(magic, mask, &all_moves, 1usize << bits)
    }

    /// The table of the rook on `coord`: it answers every occupancy with
    /// the squares that the rook attacks.
    pub fn rook(&self, coord: BitCoord) -> (m: &Magic)
        requires
            coord.wf(),
        ensures
            m.wf(),
            forall|occ: u64|
                (#[trigger] m.lookup_spec(BitBoard(occ))).0 == rook_attacks(coord.index(), occ),
    {
        proof {
            use_type_invariant(self);
        }
        &self.rooks[coord.square_index() as usize]
    }

    /// The table of the bishop on `coord`: it answers every occupancy with
    /// the squares that the bishop attacks.
    pub fn bishop(&self, coord: BitCoord) -> (m: &Magic)
        requires
            coord.wf(),
        ensures
            m.wf(),
            forall|occ: u64|
                (#[trigger] m.lookup_spec(BitBoard(occ))).0 == bishop_attacks(coord.index(), occ),
    {
        proof {
            use_type_invariant(self);
        }
        &self.bishops[coord.square_index() as usize]
    }

    /// The squares next to `coord`.
    pub fn king(&self, coord: BitCoord) -> (moves: BitBoard)
        requires
            coord.wf(),
        ensures
            moves.0 == king_attacks(coord.index()),
    {
        proof {
            use_type_invariant(self);
        }
        self.kings[coord.square_index() as usize]
    }

    /// The squares a knight's jump away from `coord`.
    pub fn knight(&self, coord: BitCoord) -> (moves: BitBoard)
        requires
            coord.wf(),
        ensures
            moves.0 == knight_attacks(coord.index()),
    {
        proof {
            use_type_invariant(self);
        }
        self.knights[coord.square_index() as usize]
    }
}

} // verus!
