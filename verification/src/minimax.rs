use vstd::prelude::*;
use crate::tt::{found, place, stored, CollisionPolicy, PolicyResult, TTNode, TTStats, TranspositionTable};
use crate::types::ZobristHash;

verus! {

/// The lowest score: the lowest `i64` but one, so that every score can be
/// negated.
pub const LOW: i64 = -0x7FFF_FFFF_FFFF_FFFF;

/// The highest score but one, the upper end of the window at the root.
pub const HIGH: i64 = 0x7FFF_FFFF_FFFF_FFFE;

/// A game for two that a search can play through.
pub trait Game: Sized {
    type Move: Copy;

    /// The position is fit to be played on.
    spec fn ready(&self) -> bool;

    /// How many more moves can at least be made from the position.
    spec fn budget(&self) -> nat;

    /// The legal moves of the side to move.
    spec fn moves(&self) -> Seq<Self::Move>;

    /// The position after a move.
    spec fn after(&self, mv: Self::Move) -> Self;

    /// The key of the position.
    spec fn key(&self) -> u64;

    /// Makes a legal move.
    fn make_move(&mut self, mv: Self::Move)
        requires
            old(self).ready(),
            old(self).budget() > 0,
            old(self).moves().contains(mv),
        ensures
            *final(self) == old(self).after(mv),
            final(self).ready(),
            final(self).budget() + 1 >= old(self).budget(),
    ;

    /// The legal moves of the side to move.
    fn legal_moves(&self) -> (r: Vec<Self::Move>)
        requires
            self.ready(),
        ensures
            r@ == self.moves(),
    ;

    /// The key of the position.
    fn zobrist_hash(&self) -> (h: ZobristHash)
        ensures
            h.0 == self.key(),
    ;

    /// A copy of the position.
    fn duplicate(&self) -> (r: Self)
        ensures
            r == *self,
    ;

    /// Whether two moves are the same.
    fn same_move(a: Self::Move, b: Self::Move) -> (r: bool)
        ensures
            r == (a == b),
    ;
}

/// The score that the evaluation gives a position.
pub open spec fn score_of<G, E: Fn(&G) -> i64>(eval: E, game: G) -> i64 {
    choose|v: i64| call_ensures(eval, (&game,), v)
}

/// The evaluation can be called on every position that is fit to be
/// played on, gives one score for one position, and no score below
/// `LOW`.
pub open spec fn pure_eval<G: Game, E: Fn(&G) -> i64>(eval: E) -> bool {
    forall|g: G|
        #![trigger g.ready()]
        g.ready() ==> call_requires(eval, (&g,)) && forall|v: i64|
            call_ensures(eval, (&g,), v) ==> v == score_of(eval, g) && LOW <= v
}

/// The larger of two numbers.
pub open spec fn larger(a: int, b: int) -> int {
    if a >= b {
        a
    } else {
        b
    }
}

/// `v`, but no less than `lo` and no more than `hi`.
pub open spec fn clamp(v: int, lo: int, hi: int) -> int {
    if v <= lo {
        lo
    } else if v >= hi {
        hi
    } else {
        v
    }
}

/// The value of a position for the side to move when both sides play
/// `depth` moves as well as they can: the score of the position at depth
/// 0, and otherwise the best that a move leads to.
pub open spec fn negamax<G: Game, E: Fn(&G) -> i64>(eval: E, game: G, depth: nat) -> int
    decreases depth, 0int,
{
    if depth == 0 {
        score_of(eval, game) as int
    } else {
        best_reply(eval, game, game.moves().len() as int, (depth - 1) as nat)
    }
}

/// The best that one of the first `n` legal moves leads to: the largest
/// negated value of a position after such a move, seen by the other side
/// at `depth`; `LOW` without a move.
pub open spec fn best_reply<G: Game, E: Fn(&G) -> i64>(eval: E, game: G, n: int, depth: nat) -> int
    decreases depth, n,
{
    if n <= 0 {
        LOW as int
    } else {
        larger(
            best_reply(eval, game, n - 1, depth),
            -negamax(eval, game.after(game.moves()[n - 1]), depth),
        )
    }
}

/// The best over fewer moves is no more than the best over more.
pub proof fn lemma_best_reply_grows<G: Game, E: Fn(&G) -> i64>(
    eval: E,
    game: G,
    i: int,
    n: int,
    depth: nat,
)
    requires
        0 <= i <= n,
    ensures
        LOW <= best_reply(eval, game, i, depth) <= best_reply(eval, game, n, depth),
    decreases n - i,
{
    if i < n {
        lemma_best_reply_grows(eval, game, i, n - 1, depth);
    } else {
        lemma_best_reply_low(eval, game, n, depth);
    }
}

proof fn lemma_best_reply_low<G: Game, E: Fn(&G) -> i64>(eval: E, game: G, n: int, depth: nat)
    ensures
        LOW <= best_reply(eval, game, n, depth),
    decreases n,
{
    if n > 0 {
        lemma_best_reply_low(eval, game, n - 1, depth);
    }
}

/// The value of a position is the negated value, for the other side and
/// at one move less, of the position after its best move; no move leads
/// to more.
pub proof fn lemma_negamax_negates<G: Game, E: Fn(&G) -> i64>(eval: E, game: G, depth: nat)
    requires
        depth > 0,
    ensures
        forall|i: int|
            0 <= i < game.moves().len() ==> negamax(eval, game, depth) >= -#[trigger] negamax(
                eval,
                game.after(game.moves()[i]),
                (depth - 1) as nat,
            ),
        game.moves().len() > 0 && negamax(eval, game, depth) > LOW ==> exists|i: int|
            0 <= i < game.moves().len() && negamax(eval, game, depth) == -#[trigger] negamax(
                eval,
                game.after(game.moves()[i]),
                (depth - 1) as nat,
            ),
{
    let d = (depth - 1) as nat;
    let n = game.moves().len() as int;
    assert forall|i: int| 0 <= i < n implies negamax(eval, game, depth) >= -#[trigger] negamax(
        eval,
        game.after(game.moves()[i]),
        d,
    ) by {
        lemma_best_reply_grows(eval, game, i + 1, n, d);
    }
    if n > 0 && negamax(eval, game, depth) > LOW {
        let i = lemma_best_reply_witness(eval, game, n, d);
    }
}

proof fn lemma_best_reply_witness<G: Game, E: Fn(&G) -> i64>(eval: E, game: G, n: int, depth: nat) -> (i:
    int)
    requires
        best_reply(eval, game, n, depth) > LOW,
    ensures
        0 <= i < n,
        best_reply(eval, game, n, depth) == -negamax(eval, game.after(game.moves()[i]), depth),
    decreases n,
{
    if best_reply(eval, game, n, depth) == -negamax(eval, game.after(game.moves()[n - 1]), depth) {
        n - 1
    } else {
        lemma_best_reply_witness(eval, game, n - 1, depth)
    }
}

/// What a search knows about the moves tried so far at one position.
#[derive(Clone, Copy)]
pub struct Window<M: Copy> {
    /// The score to beat.
    pub alpha: i64,
    /// The score to report.
    pub score: i64,
    /// The move that gave the score, if one did.
    pub best_move: Option<M>,
    /// Whether a move reached `beta`, so that no further move is tried.
    pub cut: bool,
}

/// The window after the position behind move `m` came back with `reply`
/// from the other side: the move scores the negated reply; a score of
/// `beta` or more ends the search of the position with `beta`, and a
/// score above `alpha` becomes the new `alpha`. Either makes `m` the best
/// move.
pub open spec fn advanced<M: Copy>(w: Window<M>, beta: i64, m: M, reply: i64) -> Window<M> {
    if -reply >= beta {
        Window { alpha: w.alpha, score: beta, best_move: Some(m), cut: true }
    } else if -reply > w.alpha {
        Window { alpha: (-reply) as i64, score: (-reply) as i64, best_move: Some(m), cut: false }
    } else {
        w
    }
}

/// The window after the position behind move `m` came back with `reply`.
pub fn advance<M: Copy>(w: Window<M>, beta: i64, m: M, reply: i64) -> (r: Window<M>)
    requires
        LOW <= reply,
    ensures
        r == advanced(w, beta, m, reply),
{
    let eval = -reply;
    if eval >= beta {
        Window { alpha: w.alpha, score: beta, best_move: Some(m), cut: true }
    } else if eval > w.alpha {
        Window { alpha: eval, score: eval, best_move: Some(m), cut: false }
    } else {
        w
    }
}

/// The value of the position within the window from `alpha` to `beta`,
/// found without a table: at depth 0 the score of the position, and
/// otherwise its value, but `alpha` where that is less and `beta` where
/// it is more.
pub fn alpha_beta<G: Game, E: Fn(&G) -> i64>(game: &G, eval: &E, depth: u32, alpha: i64, beta: i64) -> (r:
    i64)
    requires
        game.ready(),
        game.budget() >= depth,
        pure_eval::<G, E>(*eval),
        LOW <= alpha < beta,
    ensures
        LOW <= r,
        depth == 0 ==> r == score_of(*eval, *game),
        depth > 0 ==> r == clamp(negamax(*eval, *game, depth as nat), alpha as int, beta as int),
    decreases depth,
{
    if depth == 0 {
        return eval(game);
    }
    let moves = game.legal_moves();
    let ghost d = (depth - 1) as nat;
    let mut w: Window<G::Move> = Window { alpha, score: alpha, best_move: None, cut: false };
    let mut i: usize = 0;
    while i < moves.len() && !w.cut
        invariant
            i <= moves.len(),
            depth > 0,
            d == depth - 1,
            game.ready(),
            game.budget() >= depth,
            pure_eval::<G, E>(*eval),
            moves@ == game.moves(),
            LOW <= alpha < beta,
            w.cut ==> w.score == beta && best_reply(*eval, *game, i as int, d) >= beta,
            !w.cut ==> w.score == w.alpha && alpha <= w.alpha < beta && w.alpha == larger(
                alpha as int,
                best_reply(*eval, *game, i as int, d),
            ),
        decreases moves.len() - i,
    {
        let m = moves[i];
        let mut new_state = game.duplicate();
        new_state.make_move(m);
        let reply = alpha_beta(&new_state, eval, depth - 1, -beta, -w.alpha);
        assert(best_reply(*eval, *game, i + 1, d) == larger(
            best_reply(*eval, *game, i as int, d),
            -negamax(*eval, game.after(game.moves()[i as int]), d),
        ));
        w = advance(w, beta, m, reply);
        i = i + 1;
    }
    proof {
        lemma_best_reply_grows(*eval, *game, i as int, moves@.len() as int, d);
    }
    w.score
}

/// What a search stores about a position.
#[derive(Clone, Copy)]
pub struct CacheData<M: Copy> {
    /// The depth to which the position was searched.
    pub depth: u32,
    /// The score that the search gave.
    pub score: i64,
    /// The best move that the search found.
    pub best_move: Option<M>,
}

/// What becomes of an entry when a search of another position wants its
/// place: it is replaced only where the other search is deeper.
pub open spec fn deeper<M: Copy>(prev: CacheData<M>, new: CacheData<M>) -> PolicyResult {
    if prev.depth < new.depth {
        PolicyResult::Replace
    } else {
        PolicyResult::Keep
    }
}

/// The new entry takes the place of an entry for another position only
/// where it was searched deeper.
pub fn prefer_higher<M: Copy>(prev: CacheData<M>, new: CacheData<M>) -> (r: PolicyResult)
    ensures
        r == deeper(prev, new),
{
    if prev.depth < new.depth {
        PolicyResult::Replace
    } else {
        PolicyResult::Keep
    }
}

/// The rule under which the deeper search keeps a place.
#[derive(Clone, Copy, Debug)]
pub struct PreferHigherDepth;

impl<M: Copy> CollisionPolicy<CacheData<M>> for PreferHigherDepth {
    open spec fn decision(&self, prev: CacheData<M>, new: CacheData<M>) -> PolicyResult {
        deeper(prev, new)
    }

    fn decide(&self, prev: CacheData<M>, new: CacheData<M>) -> (r: PolicyResult) {
        prefer_higher(prev, new)
    }
}

/// Where two positions want one place, the place holds the deeper search
/// of the two, and the one that was there first where they are equally
/// deep.
pub proof fn lemma_deepest_stays<M: Copy>(
    prev: TTNode<CacheData<M>>,
    zh: ZobristHash,
    data: CacheData<M>,
)
    requires
        prev.zh != zh,
    ensures
        stored(Some(prev), zh, data, PreferHigherDepth.decision(prev.data, data)) matches Some(node)
            && node.data.depth == larger(prev.data.depth as int, data.depth as int) && (node
            == prev || node == (TTNode { zh, data })),
{
}

/// The score stored for a position, if it was searched to `depth` or
/// deeper.
pub open spec fn cached_score<M: Copy>(entry: Option<CacheData<M>>, depth: u32) -> Option<i64> {
    match entry {
        Some(data) => if data.depth >= depth {
            Some(data.score)
        } else {
            None
        },
        None => None,
    }
}

/// The first place from `from` on at which `m` stands among the moves,
/// or their number where it stands at none.
pub open spec fn first_place<M>(moves: Seq<M>, m: M, from: int) -> int
    decreases moves.len() - from,
{
    if from < 0 || from >= moves.len() {
        moves.len() as int
    } else if moves[from] == m {
        from
    } else {
        first_place(moves, m, from + 1)
    }
}

/// The moves with `best` moved to the front from the first place at which
/// it stands, if it is among them, and the others left in their order.
pub open spec fn ordered<M>(moves: Seq<M>, best: Option<M>) -> Seq<M> {
    match best {
        Some(m) => if first_place(moves, m, 0) < moves.len() {
            seq![m] + moves.remove(first_place(moves, m, 0))
        } else {
            moves
        },
        None => moves,
    }
}

/// The first place of a move is one at which it stands, with none before
/// it from where the search for it began.
proof fn lemma_first_place<M>(moves: Seq<M>, m: M, from: int, k: int)
    requires
        0 <= from <= k <= moves.len(),
        forall|j: int| from <= j < k ==> moves[j] != m,
        k < moves.len() ==> moves[k] == m,
    ensures
        first_place(moves, m, from) == k,
    decreases k - from,
{
    if from < k {
        lemma_first_place(moves, m, from + 1, k);
    }
}

/// The moves with `best` moved to the front.
pub fn order_moves<G: Game>(moves: Vec<G::Move>, best: Option<G::Move>) -> (r: Vec<G::Move>)
    ensures
        r@ == ordered(moves@, best),
        r@.len() == moves@.len(),
        forall|i: int| 0 <= i < r@.len() ==> moves@.contains(#[trigger] r@[i]),
{
    let m = match best {
        Some(m) => m,
        None => {
            return moves;
        },
    };
    let mut k: usize = 0;
    while k < moves.len() && !G::same_move(moves[k], m)
        invariant
            k <= moves.len(),
            forall|j: int| 0 <= j < k ==> moves@[j] != m,
        decreases moves.len() - k,
    {
        k = k + 1;
    }
    proof {
        lemma_first_place(moves@, m, 0, k as int);
    }
    if k == moves.len() {
        return moves;
    }
    let mut r: Vec<G::Move> = Vec::new();
    r.push(m);
    let mut i: usize = 0;
    while i < moves.len()
        invariant
            i <= moves.len(),
            k < moves.len(),
            moves@[k as int] == m,
            r@ == seq![m] + if i <= k {
                moves@.subrange(0, i as int)
            } else {
                moves@.remove(k as int).subrange(0, i - 1)
            },
        decreases moves.len() - i,
    {
        if i != k {
            r.push(moves[i]);
        }
        i = i + 1;
        assert(r@ =~= seq![m] + if i <= k {
            moves@.subrange(0, i as int)
        } else {
            moves@.remove(k as int).subrange(0, i - 1)
        });
    }
    assert(moves@.remove(k as int).subrange(0, moves@.len() - 1) =~= moves@.remove(k as int));
    assert forall|i: int| 0 <= i < r@.len() implies moves@.contains(#[trigger] r@[i]) by {
        if i == 0 {
        } else if i - 1 < k {
            assert(r@[i] == moves@[i - 1]);
        } else {
            assert(r@[i] == moves@[i]);
        }
    }
    r
}

/// The places of a table of searched positions.
pub type Slots<M> = Seq<Option<TTNode<CacheData<M>>>>;

/// The legal moves of the position in the order in which a search tries
/// them: the best move that the table holds for the position first.
pub open spec fn in_order<G: Game>(slots: Slots<G::Move>, width: u32, game: G) -> Seq<G::Move> {
    let key = ZobristHash(game.key());
    ordered(
        game.moves(),
        match found(slots[place(key, width)], key) {
            Some(data) => data.best_move,
            None => None,
        },
    )
}

/// What a search of the position to `depth` within the window from
/// `alpha` to `beta` gives on a table with the given places, and the
/// places it leaves. At depth 0 it gives the score of the position. Where
/// the table holds the position searched to `depth` or deeper it gives
/// the stored score. Either way the table stays as it was. Otherwise the
/// legal moves are tried, the stored best move first, and the score of
/// the window they leave is given and stored for the position with the
/// move that gave it, unless a search of another position that is no
/// less deep keeps the place.
pub open spec fn searched<G: Game, E: Fn(&G) -> i64>(
    eval: E,
    slots: Slots<G::Move>,
    width: u32,
    game: G,
    depth: u32,
    alpha: i64,
    beta: i64,
) -> (i64, Slots<G::Move>)
    decreases depth, 0int,
{
    let key = ZobristHash(game.key());
    let entry = found(slots[place(key, width)], key);
    if depth == 0 {
        (score_of(eval, game), slots)
    } else if cached_score(entry, depth) is Some {
        (cached_score(entry, depth)->0, slots)
    } else {
        let moves = in_order(slots, width, game);
        let (w, tried_slots) = tried(
            eval,
            slots,
            width,
            game,
            moves,
            moves.len() as int,
            (depth - 1) as u32,
            alpha,
            beta,
        );
        let data = CacheData { depth, score: w.score, best_move: w.best_move };
        (
            w.score,
            tried_slots.update(
                place(key, width),
                stored(
                    tried_slots[place(key, width)],
                    key,
                    data,
                    match tried_slots[place(key, width)] {
                        Some(prev) => deeper(prev.data, data),
                        None => PolicyResult::Replace,
                    },
                ),
            ),
        )
    }
}

/// The window and the places that trying the first `n` of the moves
/// leaves: each move in turn is answered by a search of the position
/// after it to `depth`, within the negated window, on the places that the
/// move before it left; a move whose answer reaches `beta` is the last
/// one tried.
pub open spec fn tried<G: Game, E: Fn(&G) -> i64>(
    eval: E,
    slots: Slots<G::Move>,
    width: u32,
    game: G,
    moves: Seq<G::Move>,
    n: int,
    depth: u32,
    alpha: i64,
    beta: i64,
) -> (Window<G::Move>, Slots<G::Move>)
    decreases depth, n,
{
    if n <= 0 {
        (Window { alpha, score: alpha, best_move: None, cut: false }, slots)
    } else {
        let (w, before) = tried(eval, slots, width, game, moves, n - 1, depth, alpha, beta);
        if w.cut {
            (w, before)
        } else {
            let (reply, after) = searched(
                eval,
                before,
                width,
                game.after(moves[n - 1]),
                depth,
                (-beta) as i64,
                (-w.alpha) as i64,
            );
            (advanced(w, beta, moves[n - 1], reply), after)
        }
    }
}

/// The places that searching the position to each depth from 1 to
/// `depth` in turn leaves, each search within the widest window.
pub open spec fn deepened<G: Game, E: Fn(&G) -> i64>(
    eval: E,
    slots: Slots<G::Move>,
    width: u32,
    game: G,
    depth: u32,
) -> Slots<G::Move>
    decreases depth,
{
    if depth == 0 {
        slots
    } else {
        searched(
            eval,
            deepened(eval, slots, width, game, (depth - 1) as u32),
            width,
            game,
            depth,
            LOW,
            HIGH,
        ).1
    }
}

/// The answer to the move at place `i` of the moves: what the search of
/// the position after it to `depth` gives, within the negated window and
/// on the places that the moves before it left.
pub open spec fn answer<G: Game, E: Fn(&G) -> i64>(
    eval: E,
    slots: Slots<G::Move>,
    width: u32,
    game: G,
    moves: Seq<G::Move>,
    i: int,
    depth: u32,
    alpha: i64,
    beta: i64,
) -> i64 {
    let (w, before) = tried(eval, slots, width, game, moves, i, depth, alpha, beta);
    searched(
        eval,
        before,
        width,
        game.after(moves[i]),
        depth,
        (-beta) as i64,
        (-w.alpha) as i64,
    ).0
}

/// What trying the first `n` of the moves reports is the negated answer of
/// the other side to the best of them. Where an answer negated reaches
/// `beta`, the report is `beta` and the move that was answered so is the
/// best move, the last one tried. Otherwise the report is the largest of
/// the negated answers with the first move that was answered so as the
/// best move, or `alpha` without a best move where no negated answer is
/// more than `alpha`.
pub proof fn lemma_tried_largest<G: Game, E: Fn(&G) -> i64>(
    eval: E,
    slots: Slots<G::Move>,
    width: u32,
    game: G,
    moves: Seq<G::Move>,
    n: int,
    depth: u32,
    alpha: i64,
    beta: i64,
)
    requires
        0 <= n,
        alpha < beta,
    ensures
        ({
            let w = tried(eval, slots, width, game, moves, n, depth, alpha, beta).0;
            if w.cut {
                w.score == beta && exists|i: int|
                    0 <= i < n && -#[trigger] answer(
                        eval,
                        slots,
                        width,
                        game,
                        moves,
                        i,
                        depth,
                        alpha,
                        beta,
                    ) >= beta && w.best_move == Some(moves[i]) && !tried(
                        eval,
                        slots,
                        width,
                        game,
                        moves,
                        i,
                        depth,
                        alpha,
                        beta,
                    ).0.cut
            } else {
                w.score == w.alpha && alpha <= w.score < beta && (forall|i: int|
                    0 <= i < n ==> -#[trigger] answer(
                        eval,
                        slots,
                        width,
                        game,
                        moves,
                        i,
                        depth,
                        alpha,
                        beta,
                    ) <= w.score) && (if w.score == alpha {
                    w.best_move is None
                } else {
                    exists|i: int|
                        0 <= i < n && w.score == -#[trigger] answer(
                            eval,
                            slots,
                            width,
                            game,
                            moves,
                            i,
                            depth,
                            alpha,
                            beta,
                        ) && w.best_move == Some(moves[i])
                })
            }
        }),
    decreases n,
{
    if n > 0 {
        lemma_tried_largest(eval, slots, width, game, moves, n - 1, depth, alpha, beta);
        let (w, before) = tried(eval, slots, width, game, moves, n - 1, depth, alpha, beta);
        let now = tried(eval, slots, width, game, moves, n, depth, alpha, beta).0;
        if w.cut {
            let i = choose|i: int|
                0 <= i < n - 1 && -#[trigger] answer(
                    eval,
                    slots,
                    width,
                    game,
                    moves,
                    i,
                    depth,
                    alpha,
                    beta,
                ) >= beta && w.best_move == Some(moves[i]) && !tried(
                    eval,
                    slots,
                    width,
                    game,
                    moves,
                    i,
                    depth,
                    alpha,
                    beta,
                ).0.cut;
            assert(0 <= i < n);
        } else {
            let reply = answer(eval, slots, width, game, moves, n - 1, depth, alpha, beta);
            assert(now == advanced(w, beta, moves[n - 1], reply));
            if -reply >= beta {
            } else if -reply > w.alpha {
                assert(now.score == -answer(
                    eval,
                    slots,
                    width,
                    game,
                    moves,
                    n - 1,
                    depth,
                    alpha,
                    beta,
                ));
            } else if w.score != alpha {
                let i = choose|i: int|
                    0 <= i < n - 1 && w.score == -#[trigger] answer(
                        eval,
                        slots,
                        width,
                        game,
                        moves,
                        i,
                        depth,
                        alpha,
                        beta,
                    ) && w.best_move == Some(moves[i]);
                assert(0 <= i < n);
            }
        }
    }
}

/// The negamax law of the search with a table: a search deeper than 0 of
/// a position that the table does not hold searched deep enough reports
/// the negated answer of the other side to the best move. That is `beta`
/// where an answer negated reaches `beta`; otherwise the largest of the
/// negated answers, or `alpha` where none is more than `alpha`.
pub proof fn lemma_searched_largest<G: Game, E: Fn(&G) -> i64>(
    eval: E,
    slots: Slots<G::Move>,
    width: u32,
    game: G,
    depth: u32,
    alpha: i64,
    beta: i64,
)
    requires
        depth > 0,
        alpha < beta,
        cached_score(
            found(slots[place(ZobristHash(game.key()), width)], ZobristHash(game.key())),
            depth,
        ) is None,
    ensures
        alpha <= searched(eval, slots, width, game, depth, alpha, beta).0 <= beta,
        searched(eval, slots, width, game, depth, alpha, beta).0 == beta ==> exists|i: int|
            0 <= i < in_order(slots, width, game).len() && -#[trigger] answer(
                eval,
                slots,
                width,
                game,
                in_order(slots, width, game),
                i,
                (depth - 1) as u32,
                alpha,
                beta,
            ) >= beta,
        searched(eval, slots, width, game, depth, alpha, beta).0 < beta ==> forall|i: int|
            0 <= i < in_order(slots, width, game).len() ==> -#[trigger] answer(
                eval,
                slots,
                width,
                game,
                in_order(slots, width, game),
                i,
                (depth - 1) as u32,
                alpha,
                beta,
            ) <= searched(eval, slots, width, game, depth, alpha, beta).0,
        alpha < searched(eval, slots, width, game, depth, alpha, beta).0 < beta ==> exists|i: int|
            0 <= i < in_order(slots, width, game).len() && -#[trigger] answer(
                eval,
                slots,
                width,
                game,
                in_order(slots, width, game),
                i,
                (depth - 1) as u32,
                alpha,
                beta,
            ) == searched(eval, slots, width, game, depth, alpha, beta).0,
{
    let moves = in_order(slots, width, game);
    let d = (depth - 1) as u32;
    let n = moves.len() as int;
    let w = tried(eval, slots, width, game, moves, n, d, alpha, beta).0;
    assert(searched(eval, slots, width, game, depth, alpha, beta).0 == w.score);
    lemma_tried_largest(eval, slots, width, game, moves, n, d, alpha, beta);
    if w.cut {
        let i = choose|i: int|
            0 <= i < n && -#[trigger] answer(eval, slots, width, game, moves, i, d, alpha, beta)
                >= beta && w.best_move == Some(moves[i]) && !tried(
                eval,
                slots,
                width,
                game,
                moves,
                i,
                d,
                alpha,
                beta,
            ).0.cut;
        assert(0 <= i < moves.len() && -answer(eval, slots, width, game, moves, i, d, alpha, beta)
            >= beta);
    } else if w.score != alpha {
        let i = choose|i: int|
            0 <= i < n && w.score == -#[trigger] answer(
                eval,
                slots,
                width,
                game,
                moves,
                i,
                d,
                alpha,
                beta,
            ) && w.best_move == Some(moves[i]);
        assert(0 <= i < moves.len() && w.score == -answer(
            eval,
            slots,
            width,
            game,
            moves,
            i,
            d,
            alpha,
            beta,
        ));
    }
}

/// What the last of the searches of the position to each depth from 1 to
/// `depth` gives: the search to `depth` within the widest window, on the
/// places that the searches before it left.
pub open spec fn last_score<G: Game, E: Fn(&G) -> i64>(
    eval: E,
    slots: Slots<G::Move>,
    width: u32,
    game: G,
    depth: u32,
) -> i64 {
    searched(
        eval,
        deepened(eval, slots, width, game, (depth - 1) as u32),
        width,
        game,
        depth,
        LOW,
        HIGH,
    ).0
}

/// Once a move has reached `beta`, no further move changes the window or
/// the table.
pub proof fn lemma_tried_cut<G: Game, E: Fn(&G) -> i64>(
    eval: E,
    slots: Slots<G::Move>,
    width: u32,
    game: G,
    moves: Seq<G::Move>,
    i: int,
    n: int,
    depth: u32,
    alpha: i64,
    beta: i64,
)
    requires
        0 <= i <= n,
        tried(eval, slots, width, game, moves, i, depth, alpha, beta).0.cut,
    ensures
        tried(eval, slots, width, game, moves, n, depth, alpha, beta) == tried(
            eval,
            slots,
            width,
            game,
            moves,
            i,
            depth,
            alpha,
            beta,
        ),
    decreases n - i,
{
    if i < n {
        lemma_tried_cut(eval, slots, width, game, moves, i, n - 1, depth, alpha, beta);
    }
}

/// A search of a position without a legal move, which the table does not
/// hold searched deep enough, gives `alpha`.
pub proof fn lemma_searched_without_move<G: Game, E: Fn(&G) -> i64>(
    eval: E,
    slots: Slots<G::Move>,
    width: u32,
    game: G,
    depth: u32,
    alpha: i64,
    beta: i64,
)
    requires
        depth > 0,
        game.moves().len() == 0,
        cached_score(
            found(slots[place(ZobristHash(game.key()), width)], ZobristHash(game.key())),
            depth,
        ) is None,
    ensures
        searched(eval, slots, width, game, depth, alpha, beta).0 == alpha,
{
    let key = ZobristHash(game.key());
    let entry = found(slots[place(key, width)], key);
    let best = match entry {
        Some(data) => data.best_move,
        None => None,
    };
    let moves = ordered(game.moves(), best);
    assert(moves.len() == 0);
    assert(tried(eval, slots, width, game, moves, 0, (depth - 1) as u32, alpha, beta).0.score
        == alpha);
}

/// The best that one of the first `n` of the given moves leads to: the
/// largest negated value of a position after such a move, seen by the
/// other side at `depth`; `LOW` without a move.
pub open spec fn best_of<G: Game, E: Fn(&G) -> i64>(
    eval: E,
    game: G,
    moves: Seq<G::Move>,
    n: int,
    depth: nat,
) -> int
    decreases n,
{
    if n <= 0 {
        LOW as int
    } else {
        larger(
            best_of(eval, game, moves, n - 1, depth),
            -negamax(eval, game.after(moves[n - 1]), depth),
        )
    }
}

/// The best of the legal moves in their order is the best reply.
proof fn lemma_best_of_moves<G: Game, E: Fn(&G) -> i64>(eval: E, game: G, n: int, depth: nat)
    ensures
        best_of(eval, game, game.moves(), n, depth) == best_reply(eval, game, n, depth),
    decreases n,
{
    if n > 0 {
        lemma_best_of_moves(eval, game, n - 1, depth);
    }
}

/// The best of some moves is no less than `LOW` and than what each of
/// them leads to.
proof fn lemma_best_of_bounds<G: Game, E: Fn(&G) -> i64>(
    eval: E,
    game: G,
    moves: Seq<G::Move>,
    n: int,
    depth: nat,
    i: int,
)
    ensures
        LOW <= best_of(eval, game, moves, n, depth),
        0 <= i < n ==> best_of(eval, game, moves, n, depth) >= -negamax(
            eval,
            game.after(moves[i]),
            depth,
        ),
    decreases n,
{
    if n > 0 {
        lemma_best_of_bounds(eval, game, moves, n - 1, depth, i);
    }
}

/// The best of some moves, where it is more than `LOW`, is what one of
/// them leads to.
proof fn lemma_best_of_witness<G: Game, E: Fn(&G) -> i64>(
    eval: E,
    game: G,
    moves: Seq<G::Move>,
    n: int,
    depth: nat,
) -> (i: int)
    requires
        best_of(eval, game, moves, n, depth) > LOW,
    ensures
        0 <= i < n,
        best_of(eval, game, moves, n, depth) == -negamax(eval, game.after(moves[i]), depth),
    decreases n,
{
    if best_of(eval, game, moves, n, depth) == -negamax(eval, game.after(moves[n - 1]), depth) {
        n - 1
    } else {
        lemma_best_of_witness(eval, game, moves, n - 1, depth)
    }
}

/// The best of two lists of moves is the same where each move of either
/// list stands in the other.
proof fn lemma_best_of_same_moves<G: Game, E: Fn(&G) -> i64>(
    eval: E,
    game: G,
    a: Seq<G::Move>,
    b: Seq<G::Move>,
    depth: nat,
)
    requires
        forall|i: int| 0 <= i < a.len() ==> b.contains(#[trigger] a[i]),
        forall|i: int| 0 <= i < b.len() ==> a.contains(#[trigger] b[i]),
    ensures
        best_of(eval, game, a, a.len() as int, depth) == best_of(
            eval,
            game,
            b,
            b.len() as int,
            depth,
        ),
{
    let x = best_of(eval, game, a, a.len() as int, depth);
    let y = best_of(eval, game, b, b.len() as int, depth);
    lemma_best_of_bounds(eval, game, a, a.len() as int, depth, 0);
    lemma_best_of_bounds(eval, game, b, b.len() as int, depth, 0);
    if x > LOW {
        let i = lemma_best_of_witness(eval, game, a, a.len() as int, depth);
        assert(b.contains(a[i]));
        let j = choose|j: int| 0 <= j < b.len() && b[j] == a[i];
        lemma_best_of_bounds(eval, game, b, b.len() as int, depth, j);
    }
    if y > LOW {
        let i = lemma_best_of_witness(eval, game, b, b.len() as int, depth);
        assert(a.contains(b[i]));
        let j = choose|j: int| 0 <= j < a.len() && a[j] == b[i];
        lemma_best_of_bounds(eval, game, a, a.len() as int, depth, j);
    }
}

/// The moves with the best move first are the same moves.
proof fn lemma_ordered_same_moves<M>(moves: Seq<M>, best: Option<M>)
    ensures
        forall|i: int|
            0 <= i < ordered(moves, best).len() ==> moves.contains(#[trigger] ordered(moves, best)[i]),
        forall|i: int| 0 <= i < moves.len() ==> ordered(moves, best).contains(#[trigger] moves[i]),
{
    let r = ordered(moves, best);
    match best {
        Some(m) => {
            let k = first_place(moves, m, 0);
            lemma_first_place_found(moves, m, 0);
            if k < moves.len() {
                assert forall|i: int| 0 <= i < r.len() implies moves.contains(#[trigger] r[i]) by {
                    if i == 0 {
                        assert(moves[k] == r[i]);
                    } else if i - 1 < k {
                        assert(moves[i - 1] == r[i]);
                    } else {
                        assert(moves[i] == r[i]);
                    }
                }
                assert forall|i: int| 0 <= i < moves.len() implies r.contains(
                    #[trigger] moves[i],
                ) by {
                    if i == k {
                        assert(r[0] == moves[i]);
                    } else if i < k {
                        assert(r[i + 1] == moves[i]);
                    } else {
                        assert(r[i] == moves[i]);
                    }
                }
            } else {
                assert forall|i: int| 0 <= i < moves.len() implies r.contains(
                    #[trigger] moves[i],
                ) by {
                    assert(r[i] == moves[i]);
                }
            }
        },
        None => {
            assert forall|i: int| 0 <= i < moves.len() implies r.contains(#[trigger] moves[i]) by {
                assert(r[i] == moves[i]);
            }
        },
    }
}

/// The first place of a move, where it is a place, holds the move.
proof fn lemma_first_place_found<M>(moves: Seq<M>, m: M, from: int)
    requires
        0 <= from,
    ensures
        from <= first_place(moves, m, from) <= moves.len() || from > moves.len(),
        first_place(moves, m, from) < moves.len() ==> moves[first_place(moves, m, from)] == m,
    decreases moves.len() - from,
{
    if from < moves.len() && moves[from] != m {
        lemma_first_place_found(moves, m, from + 1);
    }
}

/// Trying moves whose answers are scores leaves the table as it was, and
/// the window at the best of the moves: cut at `beta` where the best
/// reaches it, and otherwise with the larger of `alpha` and the best to
/// beat.
proof fn lemma_tried_scores<G: Game, E: Fn(&G) -> i64>(
    eval: E,
    slots: Slots<G::Move>,
    width: u32,
    game: G,
    moves: Seq<G::Move>,
    n: int,
    alpha: i64,
    beta: i64,
)
    requires
        0 <= n <= moves.len(),
        LOW <= alpha < beta,
    ensures
        tried(eval, slots, width, game, moves, n, 0, alpha, beta).1 == slots,
        ({
            let w = tried(eval, slots, width, game, moves, n, 0, alpha, beta).0;
            let best = best_of(eval, game, moves, n, 0);
            if w.cut {
                w.score == beta && best >= beta
            } else {
                w.score == w.alpha && w.alpha < beta && w.alpha == larger(alpha as int, best)
            }
        }),
    decreases n,
{
    if n > 0 {
        lemma_tried_scores(eval, slots, width, game, moves, n - 1, alpha, beta);
        let child = game.after(moves[n - 1]);
        let v = score_of(eval, child);
        let (w, before) = tried(eval, slots, width, game, moves, n - 1, 0, alpha, beta);
        assert(best_of(eval, game, moves, n, 0) == larger(
            best_of(eval, game, moves, n - 1, 0),
            -negamax(eval, child, 0),
        ));
        if !w.cut {
            assert(negamax(eval, child, 0) == v);
            assert(searched(eval, before, width, child, 0, (-beta) as i64, (-w.alpha) as i64) == (
                v,
                before,
            ));
        }
        lemma_best_of_bounds(eval, game, moves, n - 1, 0, 0);
    }
}

/// A search to depth 1 of a position that the table does not hold
/// searched gives the value of the position at depth 1, but `alpha` where
/// that is less and `beta` where it is more: the best negated score of a
/// position after a legal move, whichever move is tried first.
pub proof fn lemma_searched_depth_one<G: Game, E: Fn(&G) -> i64>(
    eval: E,
    slots: Slots<G::Move>,
    width: u32,
    game: G,
    alpha: i64,
    beta: i64,
)
    requires
        LOW <= alpha < beta,
        cached_score(
            found(slots[place(ZobristHash(game.key()), width)], ZobristHash(game.key())),
            1,
        ) is None,
    ensures
        searched(eval, slots, width, game, 1, alpha, beta).0 == clamp(
            negamax(eval, game, 1),
            alpha as int,
            beta as int,
        ),
{
    let key = ZobristHash(game.key());
    let entry = found(slots[place(key, width)], key);
    let best = match entry {
        Some(data) => data.best_move,
        None => None,
    };
    let moves = ordered(game.moves(), best);
    lemma_ordered_same_moves(game.moves(), best);
    lemma_tried_scores(eval, slots, width, game, moves, moves.len() as int, alpha, beta);
    lemma_best_of_same_moves(eval, game, moves, game.moves(), 0);
    lemma_best_of_moves(eval, game, game.moves().len() as int, 0);
    lemma_best_of_bounds(eval, game, moves, moves.len() as int, 0, 0);
}

/// The principal move and its score as an entry holds them, if it holds a
/// move.
pub open spec fn principal<M: Copy>(entry: Option<CacheData<M>>) -> Option<(M, i64)> {
    match entry {
        Some(data) => match data.best_move {
            Some(m) => Some((m, data.score)),
            None => None,
        },
        None => None,
    }
}

/// A search with a table of the positions it has seen.
pub struct AlphaBeta<G: Game, E: Fn(&G) -> i64> {
    eval: E,
    tt: TranspositionTable<CacheData<G::Move>, PreferHigherDepth>,
}

impl<G: Game, E: Fn(&G) -> i64> AlphaBeta<G, E> {
    /// The evaluation of the search.
    pub closed spec fn evaluator(self) -> E {
        self.eval
    }

    /// The table of the search.
    pub closed spec fn table(self) -> TranspositionTable<CacheData<G::Move>, PreferHigherDepth> {
        self.tt
    }

    /// The table is well formed and holds no score below `LOW`, and the
    /// evaluation is pure.
    pub open spec fn wf(self) -> bool {
        &&& self.table().wf()
        &&& pure_eval::<G, E>(self.evaluator())
        &&& forall|i: int|
            0 <= i < self.table().slots().len() ==> (#[trigger] self.table().slots()[i] matches Some(
                node,
            ) ==> LOW <= node.data.score)
    }

    /// No entry of the table was searched deeper than `bound`.
    pub open spec fn within(self, bound: u32) -> bool {
        forall|i: int|
            0 <= i < self.table().slots().len() ==> (#[trigger] self.table().slots()[i] matches Some(
                node,
            ) ==> node.data.depth <= bound)
    }

    /// What the table holds in the place of the position's key.
    pub open spec fn entry_for(self, key: u64) -> Option<TTNode<CacheData<G::Move>>> {
        self.table().slots()[place(ZobristHash(key), self.table().width())]
    }

    /// A search with the given evaluation and an empty table of at most
    /// `tt_size` bytes.
    pub fn new(eval: E, tt_size: usize) -> (search: AlphaBeta<G, E>)
        requires
            pure_eval::<G, E>(eval),
            vstd::layout::size_of::<TTNode<CacheData<G::Move>>>() > 0,
            tt_size as nat / vstd::layout::size_of::<TTNode<CacheData<G::Move>>>() >= 1,
        ensures
            search.wf(),
            search.evaluator() == eval,
            search.table().slots().len() <= tt_size as nat / vstd::layout::size_of::<
                TTNode<CacheData<G::Move>>,
            >(),
            tt_size as nat / vstd::layout::size_of::<TTNode<CacheData<G::Move>>>() < 2
                * search.table().slots().len(),
            forall|i: int|
                0 <= i < search.table().slots().len() ==> search.table().slots()[i] is None,
            search.table().counts() == (TTStats {
                hits: 0,
                collisions: 0,
                total: 0,
                size: search.table().slots().len() as usize,
                filled: 0,
            }),
            search.within(0),
    {
        AlphaBeta { eval, tt: TranspositionTable::new(tt_size, PreferHigherDepth) }
    }

    /// The counts of the table.
    pub fn tt_stats(&self) -> (r: &TTStats)
        ensures
            *r == self.table().counts(),
    {
        self.tt.stats()
    }

    /// Searches the position to each depth from 1 to `depth` in turn, as
    /// `deepened` defines it, and reads the principal move and its score
    /// from the table. On a table that holds no search deeper than 0, as
    /// a new one does, a move is reported where the last search gives
    /// more than `LOW`: a legal move of the position, with what that
    /// search gives as its score. A search to depth 1 scores it with the
    /// value of the position at depth 1.
    pub fn evaluate(&mut self, game: &G, depth: u32) -> (r: Option<(G::Move, i64)>)
        requires
            old(self).wf(),
            game.ready(),
            game.budget() >= depth,
        ensures
            final(self).wf(),
            final(self).evaluator() == old(self).evaluator(),
            final(self).table().width() == old(self).table().width(),
            final(self).table().slots() == deepened(
                old(self).evaluator(),
                old(self).table().slots(),
                old(self).table().width(),
                *game,
                depth,
            ),
            r == principal(found(final(self).entry_for(game.key()), ZobristHash(game.key()))),
            depth > 0 ==> (final(self).entry_for(game.key()) matches Some(node) && node.data.depth
                >= depth),
            old(self).within(0) && depth > 0 ==> (r matches Some((m, _)) ==> game.moves().contains(
                m,
            )),
            old(self).within(0) && depth > 0 ==> (r is Some <==> LOW < last_score(
                old(self).evaluator(),
                old(self).table().slots(),
                old(self).table().width(),
                *game,
                depth,
            )),
            old(self).within(0) && depth > 0 ==> (r matches Some((_, score)) ==> score == last_score(
                old(self).evaluator(),
                old(self).table().slots(),
                old(self).table().width(),
                *game,
                depth,
            )),
            old(self).within(0) && depth == 1 ==> (r is Some <==> LOW < negamax(
                old(self).evaluator(),
                *game,
                1,
            )),
            old(self).within(0) && depth == 1 ==> (r matches Some((_, score)) ==> score == clamp(
                negamax(old(self).evaluator(), *game, 1),
                LOW as int,
                HIGH as int,
            )),
    {
        let mut d: u32 = 0;
        while d < depth
            invariant
                d <= depth,
                self.wf(),
                self.evaluator() == old(self).evaluator(),
                self.table().width() == old(self).table().width(),
                game.ready(),
                game.budget() >= depth,
                d > 0 ==> (self.entry_for(game.key()) matches Some(node) && node.data.depth >= d),
                self.table().slots() == deepened(
                    old(self).evaluator(),
                    old(self).table().slots(),
                    old(self).table().width(),
                    *game,
                    d,
                ),
                old(self).within(0) ==> self.within(d),
                old(self).within(0) && d > 0 ==> (self.entry_for(game.key()) matches Some(node) && (
                node.zh.0 == game.key() ==> (node.data.best_move matches Some(m)
                    ==> game.moves().contains(m)))),
                old(self).within(0) && d > 0 ==> (self.entry_for(game.key()) matches Some(node)
                    && node.zh.0 == game.key() && node.data.score == last_score(
                    old(self).evaluator(),
                    old(self).table().slots(),
                    old(self).table().width(),
                    *game,
                    d,
                ) && (node.data.best_move is Some <==> LOW < node.data.score)),
                old(self).within(0) && d == 1 ==> (self.entry_for(game.key()) matches Some(node) && (
                node.zh.0
                    == game.key() ==> node.data.score == clamp(
                    negamax(old(self).evaluator(), *game, 1),
                    LOW as int,
                    HIGH as int,
                ))),
            decreases depth - d,
        {
            proof {
                self.tt.lemma_place_in_table(ZobristHash(game.key()));
            }
            d = d + 1;
            self.eval_recursive(game, d, LOW, HIGH);
        }
        proof {
            self.tt.lemma_place_in_table(ZobristHash(game.key()));
        }
        match self.tt.get(game.zobrist_hash()) {
            Some(data) => match data.best_move {
                Some(m) => Some((m, data.score)),
                None => None,
            },
            None => None,
        }
    }

    /// The value of the position within the window from `alpha` to
    /// `beta`, as `searched` defines it: at depth 0 its score; the stored
    /// score where the table holds the position searched to `depth` or
    /// deeper; and otherwise what trying the moves gives, the stored best
    /// move first, which is then stored for the position with the move
    /// that gave it, unless a search of another position that is no less
    /// deep keeps the place. Without a legal move that is `alpha`, and at
    /// depth 1 it is the value of the position brought into the window.
    /// Where no entry of the table was searched to `depth` or deeper, the
    /// position is stored, with a best move where the value is more than
    /// `alpha`.
    pub fn eval_recursive(&mut self, game: &G, depth: u32, alpha: i64, beta: i64) -> (r: i64)
        requires
            old(self).wf(),
            game.ready(),
            game.budget() >= depth,
            LOW <= alpha < beta,
        ensures
            final(self).wf(),
            final(self).evaluator() == old(self).evaluator(),
            final(self).table().width() == old(self).table().width(),
            (r, final(self).table().slots()) == searched(
                old(self).evaluator(),
                old(self).table().slots(),
                old(self).table().width(),
                *game,
                depth,
                alpha,
                beta,
            ),
            LOW <= r,
            depth == 0 ==> r == score_of(old(self).evaluator(), *game) && final(self).table().slots()
                == old(self).table().slots(),
            depth > 0 ==> match cached_score(
                found(old(self).entry_for(game.key()), ZobristHash(game.key())),
                depth,
            ) {
                Some(score) => r == score && final(self).table().slots() == old(
                    self,
                ).table().slots(),
                None => alpha <= r <= beta,
            },
            depth > 0 ==> (final(self).entry_for(game.key()) matches Some(node) && node.data.depth
                >= depth),
            depth > 0 && cached_score(
                found(old(self).entry_for(game.key()), ZobristHash(game.key())),
                depth,
            ) is None ==> (final(self).entry_for(game.key()) matches Some(node) && (node.zh.0
                == game.key() ==> node.data.depth == depth && node.data.score == r && (
            node.data.best_move matches Some(m) ==> game.moves().contains(m)))),
            forall|bound: u32|
                #![trigger final(self).within(bound)]
                old(self).within(bound) && depth <= bound ==> final(self).within(bound),
            depth > 0 && old(self).within((depth - 1) as u32) ==> (final(self).entry_for(
                game.key(),
            ) matches Some(node) && node.zh.0 == game.key() && node.data.depth == depth
                && node.data.score == r && (node.data.best_move is Some <==> alpha < r)),
            depth > 0 && game.moves().len() == 0 && cached_score(
                found(old(self).entry_for(game.key()), ZobristHash(game.key())),
                depth,
            ) is None ==> r == alpha,
            depth == 1 && cached_score(
                found(old(self).entry_for(game.key()), ZobristHash(game.key())),
                depth,
            ) is None ==> r == clamp(
                negamax(old(self).evaluator(), *game, 1),
                alpha as int,
                beta as int,
            ),
        decreases depth,
    {
        if depth == 0 {
            return (self.eval)(game);
        }
        let zh = game.zobrist_hash();
        proof {
            self.tt.lemma_place_in_table(zh);
        }
        let cached_data = self.tt.get(zh);
        let cached_best = match cached_data {
            Some(data) => {
                if data.depth >= depth {
                    return data.score;
                }
                data.best_move
            },
            None => None,
        };
        let moves = order_moves::<G>(game.legal_moves(), cached_best);
        let mut w: Window<G::Move> = Window { alpha, score: alpha, best_move: None, cut: false };
        let mut i: usize = 0;
        while i < moves.len() && !w.cut
            invariant
                i <= moves.len(),
                depth > 0,
                self.wf(),
                self.evaluator() == old(self).evaluator(),
                self.table().width() == old(self).table().width(),
                game.ready(),
                game.budget() >= depth,
                forall|k: int| 0 <= k < moves@.len() ==> game.moves().contains(#[trigger] moves@[k]),
                LOW <= alpha < beta,
                alpha <= w.score <= beta,
                !w.cut ==> w.score == w.alpha && w.alpha < beta,
                w.best_move matches Some(m) ==> game.moves().contains(m),
                w.best_move is Some <==> alpha < w.score,
                old(self).within((depth - 1) as u32) ==> self.within((depth - 1) as u32),
                forall|bound: u32|
                    #![trigger self.within(bound)]
                    old(self).within(bound) && depth <= bound ==> self.within(bound),
                (w, self.table().slots()) == tried(
                    old(self).evaluator(),
                    old(self).table().slots(),
                    old(self).table().width(),
                    *game,
                    moves@,
                    i as int,
                    (depth - 1) as u32,
                    alpha,
                    beta,
                ),
            decreases moves.len() - i,
        {
            let m = moves[i];
            let mut new_state = game.duplicate();
            new_state.make_move(m);
            let reply = self.eval_recursive(&new_state, depth - 1, -beta, -w.alpha);
            w = advance(w, beta, m, reply);
            i = i + 1;
        }
        proof {
            self.tt.lemma_place_in_table(zh);
            if w.cut {
                lemma_tried_cut(
                    old(self).evaluator(),
                    old(self).table().slots(),
                    old(self).table().width(),
                    *game,
                    moves@,
                    i as int,
                    moves@.len() as int,
                    (depth - 1) as u32,
                    alpha,
                    beta,
                );
            }
        }
        let ghost before = *self;
        self.tt.insert(zh, CacheData { depth, score: w.score, best_move: w.best_move });
        proof {
            assert forall|bound: u32|
                old(self).within(bound) && depth <= bound implies #[trigger] self.within(bound) by {
                assert(before.within(bound));
            }
            if game.moves().len() == 0 {
                lemma_searched_without_move(
                    old(self).evaluator(),
                    old(self).table().slots(),
                    old(self).table().width(),
                    *game,
                    depth,
                    alpha,
                    beta,
                );
            }
            if depth == 1 {
                lemma_searched_depth_one(
                    old(self).evaluator(),
                    old(self).table().slots(),
                    old(self).table().width(),
                    *game,
                    alpha,
                    beta,
                );
            }
        }
        w.score
    }
}

} // verus!
