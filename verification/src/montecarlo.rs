use vstd::prelude::*;

verus! {

/// Whether a game goes on.
#[derive(Clone, Copy, Debug, PartialEq, Eq, Structural)]
pub enum GameState {
    Ongoing,
    Finished(GameResult),
}

/// One of the two players of a game.
#[derive(Clone, Copy, Debug, PartialEq, Eq, Structural)]
pub enum Player {
    One,
    Two,
}

/// How a game ended for one of its players.
#[derive(Clone, Copy, Debug, PartialEq, Eq, Structural)]
pub enum GameResult {
    Win,
    Loss,
    Draw,
}

impl GameResult {
    /// The result as the other player sees it.
    pub open spec fn reversed(res: GameResult) -> GameResult {
        match res {
            GameResult::Win => GameResult::Loss,
            GameResult::Loss => GameResult::Win,
            GameResult::Draw => GameResult::Draw,
        }
    }

    /// The result as the other player sees it.
    pub fn reverse(res: GameResult) -> (r: GameResult)
        ensures
            r == GameResult::reversed(res),
            GameResult::reversed(r) == res,
    {
        match res {
            GameResult::Win => GameResult::Loss,
            GameResult::Loss => GameResult::Win,
            GameResult::Draw => GameResult::Draw,
        }
    }

    /// What a result adds to a node's wins, counted in half points: two
    /// for a win, one for a draw, nothing for a loss.
    pub open spec fn half_points(res: GameResult) -> nat {
        match res {
            GameResult::Win => 2,
            GameResult::Draw => 1,
            GameResult::Loss => 0,
        }
    }
}

/// A game for two that a tree search can play through.
pub trait Game: Sized {
    type Move: Copy;

    /// The position is fit to be played on.
    spec fn ready(&self) -> bool;

    /// How many more moves can at least be made from the position.
    spec fn budget(&self) -> nat;

    /// The legal moves of the player to move.
    spec fn moves(&self) -> Seq<Self::Move>;

    /// The position after a move.
    spec fn after(&self, mv: Self::Move) -> Self;

    /// Whether the game goes on, and how it ended for the player to move if
    /// it does not.
    spec fn outcome(&self) -> GameState;

    /// The player to move.
    spec fn player(&self) -> Player;

    /// Makes a legal move.
    fn make_move(&mut self, mv: Self::Move)
        requires
            old(self).ready(),
            old(self).budget() > 0,
            old(self).moves().contains(mv),
        ensures
            *final(self) == old(self).after(mv),
            final(self).ready(),
            final(self).budget() + 1 >= old(self).budget(),
    ;

    /// Whether a further move can be made from the position.
    fn has_budget(&self) -> (r: bool)
        ensures
            r == (self.budget() > 0),
    ;

    /// The legal moves of the player to move.
    fn legal_moves(&self) -> (r: Vec<Self::Move>)
        requires
            self.ready(),
        ensures
            r@ == self.moves(),
    ;

    /// Whether the game goes on.
    fn game_state(&self) -> (r: GameState)
        requires
            self.ready(),
        ensures
            r == self.outcome(),
    ;

    /// The player to move.
    fn active_player(&self) -> (r: Player)
        ensures
            r == self.player(),
    ;

    /// A copy of the position.
    fn duplicate(&self) -> (r: Self)
        ensures
            r == *self,
    ;

    /// Whether two moves are the same.
    fn same_move(a: Self::Move, b: Self::Move) -> (r: bool)
        ensures
            r == (a == b),
    ;
}

/// The result of a playout for the player who was to move where it
/// began, given the result for the player who was to move where it ended:
/// reversed where the two are the same player, whose opponent made the
/// move that led to the position where the playout began.
pub open spec fn settled(first: Player, last: Player, result: GameResult) -> GameResult {
    if first == last {
        GameResult::reversed(result)
    } else {
        result
    }
}

/// The result of a playout for the node from which it began.
pub fn settle(first: Player, last: Player, result: GameResult) -> (r: GameResult)
    ensures
        r == settled(first, last, result),
{
    if first == last {
        GameResult::reverse(result)
    } else {
        result
    }
}

/// A position in the tree of a search.
pub struct Node<M> {
    /// Twice the wins counted at the node, so that a draw counts one.
    pub wins: u64,
    /// The playouts that ran through the node.
    pub simulations: u64,
    /// The nodes of the moves tried from here, in the order of their
    /// first trial.
    pub children: Vec<usize>,
    /// The node from which the move led here; none for the root.
    pub parent: Option<usize>,
    /// The move that led here; none for the root.
    pub mv: Option<M>,
}

impl<M: Copy> Node<M> {
    /// The root of a tree.
    pub fn root() -> (node: Node<M>)
        ensures
            node.wins == 0,
            node.simulations == 0,
            node.children@.len() == 0,
            node.parent is None,
            node.mv is None,
    {
        Node { wins: 0, simulations: 0, children: Vec::new(), parent: None, mv: None }
    }

    /// A fresh node behind the move `mv` from the node `parent`.
    pub fn child_of(parent: usize, mv: M) -> (node: Node<M>)
        ensures
            node.wins == 0,
            node.simulations == 0,
            node.children@.len() == 0,
            node.parent == Some(parent),
            node.mv == Some(mv),
    {
        Node { wins: 0, simulations: 0, children: Vec::new(), parent: Some(parent), mv: Some(mv) }
    }
}

/// The counts of a node after a playout with the given result ran
/// through it.
pub open spec fn counted(wins: u64, simulations: u64, result: GameResult) -> (u64, u64) {
    ((wins + GameResult::half_points(result)) as u64, (simulations + 1) as u64)
}

/// The wins and simulations of every node after a playout from `node`
/// with `result` was counted at `node` and, with the result reversed from
/// node to node, at each node above it up to the root.
pub open spec fn propagated(
    counts: Seq<(u64, u64)>,
    parents: Seq<Option<usize>>,
    node: int,
    result: GameResult,
) -> Seq<(u64, u64)>
    decreases node,
{
    if node < 0 || node >= counts.len() {
        counts
    } else {
        let here = counts.update(node, counted(counts[node].0, counts[node].1, result));
        match parents[node] {
            Some(p) => if p < node {
                propagated(here, parents, p as int, GameResult::reversed(result))
            } else {
                here
            },
            None => here,
        }
    }
}

/// The child with the most simulations among the first `n` of `children`,
/// the earliest of them where several have the most.
pub open spec fn most_simulated(children: Seq<usize>, sims: Seq<u64>, n: int) -> Option<usize>
    decreases n,
{
    if n <= 0 {
        None
    } else {
        match most_simulated(children, sims, n - 1) {
            Some(best) => if sims[children[n - 1] as int] > sims[best as int] {
                Some(children[n - 1])
            } else {
                Some(best)
            },
            None => Some(children[n - 1]),
        }
    }
}

/// The tree of a Monte-Carlo search: its nodes, the root first and every
/// other node after the node above it, and the position of the root.
pub struct MCTS<M, G> {
    nodes: Vec<Node<M>>,
    rounds: u64,
    initial_state: G,
}

impl<M: Copy, G: Game<Move = M>> MCTS<M, G> {
    /// The nodes of the tree.
    pub closed spec fn nodes(self) -> Seq<Node<M>> {
        self.nodes@
    }

    /// The number of playouts counted so far.
    pub closed spec fn rounds(self) -> u64 {
        self.rounds
    }

    /// The position of the root.
    pub closed spec fn initial(self) -> G {
        self.initial_state
    }

    /// The wins and simulations of the nodes.
    pub open spec fn counts(self) -> Seq<(u64, u64)> {
        Seq::new(self.nodes().len(), |i: int| (self.nodes()[i].wins, self.nodes()[i].simulations))
    }

    /// The nodes above the nodes.
    pub open spec fn parents(self) -> Seq<Option<usize>> {
        Seq::new(self.nodes().len(), |i: int| self.nodes()[i].parent)
    }

    /// The simulations of the nodes.
    pub open spec fn simulations(self) -> Seq<u64> {
        Seq::new(self.nodes().len(), |i: int| self.nodes()[i].simulations)
    }

    /// The tree has a root without a node above it; every other node
    /// stands after the node above it and was reached by a move; the
    /// nodes below a node are nodes of the tree; and no node has counted
    /// more playouts than there were.
    pub open spec fn wf(self) -> bool {
        &&& self.nodes().len() > 0
        &&& self.nodes()[0].parent is None
        &&& forall|i: int|
            0 < i < self.nodes().len() ==> (#[trigger] self.nodes()[i]).mv is Some && (
            self.nodes()[i].parent matches Some(p) && p < i)
        &&& forall|i: int, k: int|
            0 <= i < self.nodes().len() && 0 <= k < self.nodes()[i].children@.len() ==> 0 < (
            #[trigger] self.nodes()[i].children@[k]) < self.nodes().len()
        &&& forall|i: int|
            0 <= i < self.nodes().len() ==> (#[trigger] self.nodes()[i]).simulations
                <= self.rounds() && self.nodes()[i].wins <= 2 * self.rounds()
    }

    /// A tree of the root alone.
    pub fn new(initial_state: G) -> (tree: MCTS<M, G>)
        ensures
            tree.wf(),
            tree.nodes().len() == 1,
            tree.rounds() == 0,
            tree.initial() == initial_state,
    {
        let mut nodes: Vec<Node<M>> = Vec::new();
        nodes.push(Node::root());
        MCTS { nodes, rounds: 0, initial_state }
    }

    /// The position of the root.
    pub fn initial_state(&self) -> (state: &G)
        ensures
            *state == self.initial(),
    {
        &self.initial_state
    }

    /// The node with the given number.
    pub fn node(&self, id: usize) -> (node: &Node<M>)
        requires
            id < self.nodes().len(),
        ensures
            *node == self.nodes()[id as int],
    {
        &self.nodes[id]
    }

    /// The number of nodes.
    pub fn size(&self) -> (n: usize)
        ensures
            n == self.nodes().len(),
    {
        self.nodes.len()
    }

    /// The move of the root's child with the most simulations, the first
    /// tried among several with the most. A root without a child has no
    /// best move.
    pub fn best_move(&self) -> (r: M)
        requires
            self.wf(),
            self.nodes()[0].children@.len() > 0,
        ensures
            most_simulated(
                self.nodes()[0].children@,
                self.simulations(),
                self.nodes()[0].children@.len() as int,
            ) matches Some(best) && Some(r) == self.nodes()[best as int].mv,
    {
        let root = &self.nodes[0];
        let mut best: usize = root.children[0];
        let mut k: usize = 1;
        assert(most_simulated(root.children@, self.simulations(), 0) is None);
        while k < root.children.len()
            invariant
                1 <= k <= root.children@.len(),
                self.wf(),
                *root == self.nodes()[0],
                Some(best) == most_simulated(root.children@, self.simulations(), k as int),
                0 < best < self.nodes().len(),
            decreases root.children@.len() - k,
        {
            let child = root.children[k];
            if self.nodes[child].simulations > self.nodes[best].simulations {
                best = child;
            }
            k = k + 1;
        }
        self.nodes[best].mv.unwrap()
    }

    /// For each move tried from the root, in the order of their first
    /// trial: the move, twice its wins, and its simulations.
    pub fn move_scores(&self) -> (scores: Vec<(M, u64, u64)>)
        requires
            self.wf(),
        ensures
            scores@.len() == self.nodes()[0].children@.len(),
            forall|k: int|
                0 <= k < scores@.len() ==> Some((#[trigger] scores@[k]).0) == self.nodes()[self.nodes()[0].children@[k] as int].mv
                    && scores@[k].1 == self.nodes()[self.nodes()[0].children@[k] as int].wins
                    && scores@[k].2
                    == self.nodes()[self.nodes()[0].children@[k] as int].simulations,
    {
        let root = &self.nodes[0];
        let mut scores: Vec<(M, u64, u64)> = Vec::new();
        let mut k: usize = 0;
        while k < root.children.len()
            invariant
                k <= root.children@.len(),
                self.wf(),
                *root == self.nodes()[0],
                scores@.len() == k,
                forall|j: int|
                    0 <= j < k ==> Some((#[trigger] scores@[j]).0) == self.nodes()[root.children@[j] as int].mv
                        && scores@[j].1 == self.nodes()[root.children@[j] as int].wins
                        && scores@[j].2 == self.nodes()[root.children@[j] as int].simulations,
            decreases root.children@.len() - k,
        {
            let child = &self.nodes[root.children[k]];
            match child.mv {
                Some(m) => scores.push((m, child.wins, child.simulations)),
                None => {
                    assert(false);
                },
            }
            k = k + 1;
        }
        scores
    }

    /// The legal moves that were not tried from the node yet, in their
    /// order.
    pub fn unexplored_moves(&self, id: usize, legal_moves: &Vec<M>) -> (fresh: Vec<M>)
        requires
            self.wf(),
            id < self.nodes().len(),
        ensures
            fresh@ == legal_moves@.filter(self.untried(id as int)),
    {
        let node = &self.nodes[id];
        let mut fresh: Vec<M> = Vec::new();
        let mut i: usize = 0;
        proof {
            reveal(Seq::filter);
            assert(legal_moves@.subrange(0, 0) =~= Seq::<M>::empty());
        }
        while i < legal_moves.len()
            invariant
                i <= legal_moves@.len(),
                self.wf(),
                id < self.nodes().len(),
                *node == self.nodes()[id as int],
                fresh@ == legal_moves@.subrange(0, i as int).filter(self.untried(id as int)),
            decreases legal_moves@.len() - i,
        {
            let m = legal_moves[i];
            let mut known = false;
            let mut k: usize = 0;
            while k < node.children.len() && !known
                invariant
                    k <= node.children@.len(),
                    self.wf(),
                    id < self.nodes().len(),
                    *node == self.nodes()[id as int],
                    known ==> self.tried(id as int, m),
                    !known ==> forall|j: int|
                        0 <= j < k ==> self.nodes()[#[trigger] node.children@[j] as int].mv
                            != Some(m),
                decreases node.children@.len() - k,
            {
                match self.nodes[node.children[k]].mv {
                    Some(tried) => {
                        if G::same_move(tried, m) {
                            known = true;
                        }
                    },
                    None => {},
                }
                k = k + 1;
            }
            proof {
                let before = legal_moves@.subrange(0, i as int);
                reveal(Seq::filter);
                assert(legal_moves@.subrange(0, i + 1) =~= before.push(m));
                assert(before.push(m).drop_last() =~= before);
                if !known {
                    assert forall|j: int| 0 <= j < node.children@.len() implies self.nodes()[#[trigger] node.children@[j] as int].mv
                        != Some(m) by {}
                }
            }
            if !known {
                fresh.push(m);
            }
            i = i + 1;
        }
        assert(legal_moves@.subrange(0, legal_moves@.len() as int) =~= legal_moves@);
        fresh
    }

    /// The moves that were not tried from the node.
    pub open spec fn untried(self, id: int) -> spec_fn(M) -> bool {
        |m: M| !self.tried(id, m)
    }

    /// Whether the move was tried from the node: one of the nodes below it
    /// was reached by it.
    pub open spec fn tried(self, id: int, m: M) -> bool {
        exists|j: int|
            0 <= j < self.nodes()[id].children@.len() && self.nodes()[#[trigger] self.nodes()[id].children@[j] as int].mv
                == Some(m)
    }

    /// Adds a fresh node behind the move `mv` from the node `id`, and
    /// gives its number.
    pub fn expand(&mut self, id: usize, mv: M) -> (child: usize)
        requires
            old(self).wf(),
            id < old(self).nodes().len(),
        ensures
            final(self).wf(),
            child == old(self).nodes().len(),
            final(self).nodes().len() == old(self).nodes().len() + 1,
            final(self).rounds() == old(self).rounds(),
            final(self).initial() == old(self).initial(),
            final(self).nodes()[child as int].parent == Some(id),
            final(self).nodes()[child as int].mv == Some(mv),
            final(self).nodes()[child as int].wins == 0,
            final(self).nodes()[child as int].simulations == 0,
            final(self).nodes()[child as int].children@.len() == 0,
            final(self).nodes()[id as int].children@ == old(self).nodes()[id as int].children@.push(
                child,
            ),
            forall|i: int|
                0 <= i < old(self).nodes().len() && i != id ==> final(self).nodes()[i] == old(
                    self,
                ).nodes()[i],
            final(self).nodes()[id as int].wins == old(self).nodes()[id as int].wins,
            final(self).nodes()[id as int].simulations == old(self).nodes()[id as int].simulations,
            final(self).nodes()[id as int].parent == old(self).nodes()[id as int].parent,
            final(self).nodes()[id as int].mv == old(self).nodes()[id as int].mv,
    {
        let child = self.nodes.len();
        self.nodes.push(Node::child_of(id, mv));
        self.nodes[id].children.push(child);
        child
    }

    /// The number of playouts counted so far.
    pub fn playouts(&self) -> (n: u64)
        ensures
            n == self.rounds(),
    {
        self.rounds
    }

    /// Counts a playout from the node `id` with `result`, seen from the
    /// player who moved into the node: at the node, and with the result
    /// reversed from node to node at every node above it.
    pub fn back_propagate(&mut self, id: usize, result: GameResult)
        requires
            old(self).wf(),
            id < old(self).nodes().len(),
            old(self).rounds() < u64::MAX / 2,
        ensures
            final(self).wf(),
            final(self).rounds() == old(self).rounds() + 1,
            final(self).initial() == old(self).initial(),
            final(self).nodes().len() == old(self).nodes().len(),
            final(self).counts() == propagated(
                old(self).counts(),
                old(self).parents(),
                id as int,
                result,
            ),
            forall|i: int|
                0 <= i < final(self).nodes().len() ==> (#[trigger] final(self).nodes()[i]).parent
                    == old(self).nodes()[i].parent && final(self).nodes()[i].mv == old(
                    self,
                ).nodes()[i].mv && final(self).nodes()[i].children == old(self).nodes()[i].children,
    {
        let ghost before = *self;
        let mut at = id;
        let mut res = result;
        let mut done = false;
        self.rounds = self.rounds + 1;
        while !done
            invariant
                self.nodes().len() == before.nodes().len(),
                self.rounds() == before.rounds() + 1,
                self.initial() == before.initial(),
                before.wf(),
                before.rounds() < u64::MAX / 2,
                at < self.nodes().len(),
                forall|i: int|
                    0 <= i < self.nodes().len() ==> (#[trigger] self.nodes()[i]).parent
                        == before.nodes()[i].parent && self.nodes()[i].mv == before.nodes()[i].mv
                        && self.nodes()[i].children == before.nodes()[i].children,
                forall|i: int|
                    0 <= i < self.nodes().len() ==> (#[trigger] self.nodes()[i]).simulations
                        <= self.rounds() && self.nodes()[i].wins <= 2 * self.rounds(),
                !done ==> forall|i: int|
                    0 <= i <= at ==> (#[trigger] self.nodes()[i]).simulations <= before.rounds()
                        && self.nodes()[i].wins <= 2 * before.rounds(),
                !done ==> propagated(self.counts(), before.parents(), at as int, res) == propagated(
                    before.counts(),
                    before.parents(),
                    id as int,
                    result,
                ),
                done ==> self.counts() == propagated(
                    before.counts(),
                    before.parents(),
                    id as int,
                    result,
                ),
            decreases
                at + if done {
                    0int
                } else {
                    1int
                },
        {
            let ghost counts = self.counts();
            let points: u64 = match res {
                GameResult::Win => 2,
                GameResult::Draw => 1,
                GameResult::Loss => 0,
            };
            let wins = self.nodes[at].wins + points;
            let simulations = self.nodes[at].simulations + 1;
            self.nodes[at].wins = wins;
            self.nodes[at].simulations = simulations;
            assert(self.counts() =~= counts.update(
                at as int,
                counted(counts[at as int].0, counts[at as int].1, res),
            ));
            assert(self.parents() =~= before.parents());
            match self.nodes[at].parent {
                Some(p) => {
                    at = p;
                    res = GameResult::reverse(res);
                },
                None => {
                    done = true;
                },
            }
        }
    }
}

} // verus!
