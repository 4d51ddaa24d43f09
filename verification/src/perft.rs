use vstd::prelude::*;
use crate::fmt::{format_move, move_text};
use crate::magic::MagicBitBoards;
use crate::moves::{legal_moves, legal_moves_spec};
use crate::types::GameState;
use crate::zobrist::ZobristHasher;

verus! {

/// The number of lines of play of `depth` moves from the position: one
/// at depth 0, and otherwise the sum over the legal moves of the number
/// from the position after the move, at one move less.
pub open spec fn perft_spec(state: GameState, depth: nat, hasher: &ZobristHasher) -> nat
    decreases depth, 0int,
{
    if depth == 0 {
        1
    } else {
        perft_sum(
            state,
            legal_moves_spec(state).len() as int,
            (depth - 1) as nat,
            hasher,
        )
    }
}

/// The sum, over the first `n` legal moves of the position, of the number
/// of lines of play of `depth` moves from the position after the move.
pub open spec fn perft_sum(state: GameState, n: int, depth: nat, hasher: &ZobristHasher) -> nat
    decreases depth, n,
{
    if n <= 0 {
        0
    } else {
        perft_sum(state, n - 1, depth, hasher) + perft_spec(
            state.after(legal_moves_spec(state)[n - 1], hasher),
            depth,
            hasher,
        )
    }
}

/// The sum over fewer moves is no more than the sum over more.
pub proof fn lemma_perft_sum_grows(state: GameState, i: int, n: int, depth: nat, hasher: &ZobristHasher)
    requires
        0 <= i <= n,
    ensures
        perft_sum(state, i, depth, hasher) <= perft_sum(state, n, depth, hasher),
    decreases n - i,
{
    if i < n {
        lemma_perft_sum_grows(state, i, n - 1, depth, hasher);
    }
}

/// The number of lines of play of `depth` moves from the position.
pub fn perft(state: &GameState, depth: u8, mbb: &MagicBitBoards, hasher: &ZobristHasher) -> (nodes:
    u64)
    requires
        state.wf(),
        state.hash_ok(hasher),
        state.fifty_move_clock + depth <= u8::MAX,
        perft_spec(*state, depth as nat, hasher) <= u64::MAX,
    ensures
        nodes == perft_spec(*state, depth as nat, hasher),
    decreases depth,
{
    if depth == 0 {
        return 1;
    }
    let moves = legal_moves(state, mbb);
    let mut nodes: u64 = 0;
    let mut i: usize = 0;
    while i < moves.len()
        invariant
            i <= moves.len(),
            depth > 0,
            state.wf(),
            state.hash_ok(hasher),
            state.fifty_move_clock + depth <= u8::MAX,
            moves@ == legal_moves_spec(*state),
            forall|k: int| 0 <= k < moves@.len() ==> state.admits(#[trigger] moves@[k]),
            perft_sum(*state, moves@.len() as int, (depth - 1) as nat, hasher) <= u64::MAX,
            nodes == perft_sum(*state, i as int, (depth - 1) as nat, hasher),
        decreases moves.len() - i,
    {
        let mut new_state = *state;
        new_state.make_move(moves[i], hasher);
        proof {
            lemma_perft_sum_grows(
                *state,
                i + 1,
                moves@.len() as int,
                (depth - 1) as nat,
                hasher,
            );
        }
        nodes = nodes + perft(&new_state, depth - 1, mbb, hasher);
        i = i + 1;
    }
    nodes
}

/// For each legal move, its text and the number of lines of play of
/// `depth - 1` moves from the position after it, in the order of the
/// legal moves.
pub open spec fn divide_spec(state: GameState, depth: nat, hasher: &ZobristHasher) -> Seq<
    (Seq<char>, nat),
> {
    Seq::new(
        legal_moves_spec(state).len(),
        |i: int|
            (
                move_text(legal_moves_spec(state)[i]),
                perft_spec(
                    state.after(legal_moves_spec(state)[i], hasher),
                    (depth - 1) as nat,
                    hasher,
                ),
            ),
    )
}

/// For each legal move, its text and the number of lines of play of
/// `depth - 1` moves that begin with it.
pub fn divide(state: &GameState, depth: u8, mbb: &MagicBitBoards, hasher: &ZobristHasher) -> (counts:
    Vec<(String, u64)>)
    requires
        depth >= 1,
        state.wf(),
        state.hash_ok(hasher),
        state.fifty_move_clock + depth <= u8::MAX,
        perft_spec(*state, depth as nat, hasher) <= u64::MAX,
    ensures
        counts@.len() == divide_spec(*state, depth as nat, hasher).len(),
        forall|i: int|
            0 <= i < counts@.len() ==> (#[trigger] counts@[i]).0@ == divide_spec(
                *state,
                depth as nat,
                hasher,
            )[i].0 && counts@[i].1 == divide_spec(*state, depth as nat, hasher)[i].1,
{
    let moves = legal_moves(state, mbb);
    let mut counts: Vec<(String, u64)> = Vec::new();
    let mut i: usize = 0;
    while i < moves.len()
        invariant
            i <= moves.len(),
            depth >= 1,
            state.wf(),
            state.hash_ok(hasher),
            state.fifty_move_clock + depth <= u8::MAX,
            moves@ == legal_moves_spec(*state),
            forall|k: int| 0 <= k < moves@.len() ==> state.admits(#[trigger] moves@[k]),
            perft_sum(*state, moves@.len() as int, (depth - 1) as nat, hasher) <= u64::MAX,
            counts@.len() == i,
            forall|k: int|
                0 <= k < i ==> (#[trigger] counts@[k]).0@ == divide_spec(
                    *state,
                    depth as nat,
                    hasher,
                )[k].0 && counts@[k].1 == divide_spec(*state, depth as nat, hasher)[k].1,
        decreases moves.len() - i,
    {
        let m = moves[i];
        let mut state_2 = *state;
        state_2.make_move(m, hasher);
        proof {
            lemma_perft_sum_grows(
                *state,
                i + 1,
                moves@.len() as int,
                (depth - 1) as nat,
                hasher,
            );
            state.lemma_admitted_squares(m);
        }
        let move_str = format_move(m);
        let count = perft(&state_2, depth - 1, mbb, hasher);
        counts.push((move_str, count));
        i = i + 1;
    }
    counts
}

/// The number of lines of play of `depth` moves from the position, or
/// `None` where that number is more than a `u64` holds.
pub fn perft_checked(state: &GameState, depth: u8, mbb: &MagicBitBoards, hasher: &ZobristHasher) -> (nodes:
    Option<u64>)
    requires
        state.wf(),
        state.hash_ok(hasher),
        state.fifty_move_clock + depth <= u8::MAX,
    ensures
        match nodes {
            Some(n) => n == perft_spec(*state, depth as nat, hasher),
            None => perft_spec(*state, depth as nat, hasher) > u64::MAX,
        },
    decreases depth,
{
    if depth == 0 {
        return Some(1);
    }
    let moves = legal_moves(state, mbb);
    let mut total: u64 = 0;
    let mut i: usize = 0;
    while i < moves.len()
        invariant
            i <= moves.len(),
            depth > 0,
            state.wf(),
            state.hash_ok(hasher),
            state.fifty_move_clock + depth <= u8::MAX,
            moves@ == legal_moves_spec(*state),
            forall|k: int| 0 <= k < moves@.len() ==> state.admits(#[trigger] moves@[k]),
            total == perft_sum(*state, i as int, (depth - 1) as nat, hasher),
        decreases moves.len() - i,
    {
        let mut new_state = *state;
        new_state.make_move(moves[i], hasher);
        proof {
            lemma_perft_sum_grows(
                *state,
                i + 1,
                moves@.len() as int,
                (depth - 1) as nat,
                hasher,
            );
        }
        let count = match perft_checked(&new_state, depth - 1, mbb, hasher) {
            Some(count) => count,
            None => {
                return None;
            },
        };
        total = match total.checked_add(count) {
            Some(sum) => sum,
            None => {
                return None;
            },
        };
        i = i + 1;
    }
    Some(total)
}

/// For each legal move, its text and the number of lines of play of
/// `depth - 1` moves that begin with it, or `None` where one of these
/// numbers is more than a `u64` holds.
pub fn divide_checked(state: &GameState, depth: u8, mbb: &MagicBitBoards, hasher: &ZobristHasher) -> (r:
    Option<Vec<(String, u64)>>)
    requires
        depth >= 1,
        state.wf(),
        state.hash_ok(hasher),
        state.fifty_move_clock + depth <= u8::MAX,
    ensures
        match r {
            Some(counts) => {
                &&& counts@.len() == divide_spec(*state, depth as nat, hasher).len()
                &&& forall|i: int|
                    0 <= i < counts@.len() ==> (#[trigger] counts@[i]).0@ == divide_spec(
                        *state,
                        depth as nat,
                        hasher,
                    )[i].0 && counts@[i].1 == divide_spec(*state, depth as nat, hasher)[i].1
            },
            None => exists|i: int|
                0 <= i < divide_spec(*state, depth as nat, hasher).len() && (
                #[trigger] divide_spec(*state, depth as nat, hasher)[i]).1 > u64::MAX,
        },
{
    let moves = legal_moves(state, mbb);
    let mut counts: Vec<(String, u64)> = Vec::new();
    let mut i: usize = 0;
    while i < moves.len()
        invariant
            i <= moves.len(),
            depth >= 1,
            state.wf(),
            state.hash_ok(hasher),
            state.fifty_move_clock + depth <= u8::MAX,
            moves@ == legal_moves_spec(*state),
            forall|k: int| 0 <= k < moves@.len() ==> state.admits(#[trigger] moves@[k]),
            counts@.len() == i,
            forall|k: int|
                0 <= k < i ==> (#[trigger] counts@[k]).0@ == divide_spec(
                    *state,
                    depth as nat,
                    hasher,
                )[k].0 && counts@[k].1 == divide_spec(*state, depth as nat, hasher)[k].1,
        decreases moves.len() - i,
    {
        let m = moves[i];
        let mut state_2 = *state;
        state_2.make_move(m, hasher);
        proof {
            state.lemma_admitted_squares(m);
        }
        let move_str = format_move(m);
        let count = match perft_checked(&state_2, depth - 1, mbb, hasher) {
            Some(count) => count,
            None => {
                assert(divide_spec(*state, depth as nat, hasher)[i as int].1 > u64::MAX);
                return None;
            },
        };
        counts.push((move_str, count));
        i = i + 1;
    }
    Some(counts)
}

} // verus!
