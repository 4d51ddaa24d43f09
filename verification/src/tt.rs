use vstd::prelude::*;
use crate::types::ZobristHash;

verus! {

/// A stored entry: the key of a position and what was stored for it.
#[derive(Clone, Copy)]
pub struct TTNode<T: Copy> {
    pub zh: ZobristHash,
    pub data: T,
}

impl<T: Copy> TTNode<T> {
    /// The entry for the given key.
    pub fn new(zh: ZobristHash, data: T) -> (node: TTNode<T>)
        ensures
            node == (TTNode { zh, data }),
    {
        TTNode { zh, data }
    }
}

/// Counts of what happened to a table. Each of the first three stops at
/// the largest value of its type.
#[derive(Clone, Copy, Debug, PartialEq, Eq, Structural)]
pub struct TTStats {
    /// Probes that found their key.
    pub hits: u64,
    /// Probes that found another key.
    pub collisions: u64,
    /// Probes.
    pub total: u64,
    /// Places of the table.
    pub size: usize,
    /// Places that hold an entry.
    pub filled: usize,
}

/// What becomes of an entry when another key wants its place.
#[derive(Clone, Copy, Debug, PartialEq, Eq, Structural)]
pub enum PolicyResult {
    Keep,
    Replace,
}

/// The rule that decides between the entry in a place and a new one for
/// another key.
pub trait CollisionPolicy<T> {
    /// What the rule decides for the stored `prev` and the arriving `new`.
    spec fn decision(&self, prev: T, new: T) -> PolicyResult;

    /// Decides between the stored `prev` and the arriving `new`.
    fn decide(&self, prev: T, new: T) -> (r: PolicyResult)
        ensures
            r == self.decision(prev, new),
    ;
}

/// The new entry always takes the place.
pub fn always_replace<T>(_prev: T, _new: T) -> (r: PolicyResult)
    ensures
        r == PolicyResult::Replace,
{
    PolicyResult::Replace
}

/// The stored entry always keeps the place.
pub fn never_replace<T>(_prev: T, _new: T) -> (r: PolicyResult)
    ensures
        r == PolicyResult::Keep,
{
    PolicyResult::Keep
}

/// The rule under which the new entry always takes the place.
#[derive(Clone, Copy, Debug)]
pub struct AlwaysReplace;

/// The rule under which the stored entry always keeps the place.
#[derive(Clone, Copy, Debug)]
pub struct NeverReplace;

impl<T> CollisionPolicy<T> for AlwaysReplace {
    open spec fn decision(&self, prev: T, new: T) -> PolicyResult {
        PolicyResult::Replace
    }

    fn decide(&self, prev: T, new: T) -> (r: PolicyResult) {
        always_replace(prev, new)
    }
}

impl<T> CollisionPolicy<T> for NeverReplace {
    open spec fn decision(&self, prev: T, new: T) -> PolicyResult {
        PolicyResult::Keep
    }

    fn decide(&self, prev: T, new: T) -> (r: PolicyResult) {
        never_replace(prev, new)
    }
}

/// The place of a key in a table of `2^bits` places: the top `bits` bits
/// of the key.
pub open spec fn place(zh: ZobristHash, bits: u32) -> int {
    if bits == 0 {
        0
    } else {
        (zh.0 >> ((64 - bits) as u32)) as int
    }
}

/// The counts after a probe for `zh` met `slot`: one probe more, and one
/// hit more where the place holds the key, or one collision more where
/// it holds another key. A count at the largest value of its type stays.
pub open spec fn probed<T: Copy>(counts: TTStats, slot: Option<TTNode<T>>, zh: ZobristHash) -> TTStats {
    TTStats {
        total: if counts.total < u64::MAX {
            (counts.total + 1) as u64
        } else {
            u64::MAX
        },
        hits: if found(slot, zh) is Some && counts.hits < u64::MAX {
            (counts.hits + 1) as u64
        } else {
            counts.hits
        },
        collisions: if found(slot, zh) is None && slot is Some && counts.collisions < u64::MAX {
            (counts.collisions + 1) as u64
        } else {
            counts.collisions
        },
        ..counts
    }
}

/// What a probe for `zh` finds in a place: the stored data where the
/// place holds an entry for that key.
pub open spec fn found<T: Copy>(slot: Option<TTNode<T>>, zh: ZobristHash) -> Option<T> {
    match slot {
        Some(node) => if node.zh == zh {
            Some(node.data)
        } else {
            None
        },
        None => None,
    }
}

/// What a place holds after `data` arrived for `zh`: the new entry where
/// the place was empty or held the same key, and otherwise what the
/// decision says.
pub open spec fn stored<T: Copy>(
    slot: Option<TTNode<T>>,
    zh: ZobristHash,
    data: T,
    decision: PolicyResult,
) -> Option<TTNode<T>> {
    match slot {
        None => Some(TTNode { zh, data }),
        Some(prev) => if prev.zh == zh || decision == PolicyResult::Replace {
            Some(TTNode { zh, data })
        } else {
            slot
        },
    }
}

/// The number of places below index `upto` that hold an entry.
pub open spec fn occupied<T: Copy>(slots: Seq<Option<TTNode<T>>>, upto: int) -> nat
    decreases upto,
{
    if upto <= 0 {
        0
    } else {
        occupied(slots, upto - 1) + if slots[upto - 1] is Some {
            1nat
        } else {
            0nat
        }
    }
}

proof fn lemma_occupied_bound<T: Copy>(slots: Seq<Option<TTNode<T>>>, upto: int)
    requires
        0 <= upto,
    ensures
        occupied(slots, upto) <= upto,
    decreases upto,
{
    if upto > 0 {
        lemma_occupied_bound(slots, upto - 1);
    }
}

proof fn lemma_occupied_update<T: Copy>(
    slots: Seq<Option<TTNode<T>>>,
    ix: int,
    node: TTNode<T>,
    upto: int,
)
    requires
        0 <= ix < slots.len(),
        0 <= upto <= slots.len(),
    ensures
        occupied(slots.update(ix, Some(node)), upto) == occupied(slots, upto) + if ix < upto
            && slots[ix] is None {
            1nat
        } else {
            0nat
        },
    decreases upto,
{
    if upto > 0 {
        lemma_occupied_update(slots, ix, node, upto - 1);
    }
}

proof fn bv_place(x: u64, bits: u32)
    by (bit_vector)
    requires
        1 <= bits <= 63,
    ensures
        (x >> ((64 - bits) as u32)) < (1u64 << (bits as u64)),
        bits < 63 ==> (1u64 << (bits as u64)) < (1u64 << ((bits + 1) as u64)),
        bits < 63 ==> (1u64 << ((bits + 1) as u64)) == 2 * (1u64 << (bits as u64)),
        (1u64 << 1u64) == 2 * (1u64 << 0u64),
        1u64 << 0u64 == 1,
        1u64 << 63u64 == 0x8000_0000_0000_0000u64,
{
}

/// The first value stored under `always_replace` is found again: after
/// an entry arrived and took its place, a probe for its key finds it.
pub proof fn lemma_replace_round_trip<T: Copy>(slot: Option<TTNode<T>>, zh: ZobristHash, data: T)
    ensures
        found(stored(slot, zh, data, PolicyResult::Replace), zh) == Some(data),
{
}

/// Under `never_replace` an entry is never overwritten by an entry for
/// another key.
pub proof fn lemma_keep_first<T: Copy>(prev: TTNode<T>, zh: ZobristHash, data: T)
    requires
        prev.zh != zh,
    ensures
        stored(Some(prev), zh, data, PolicyResult::Keep) == Some(prev),
        found(stored(Some(prev), zh, data, PolicyResult::Keep), prev.zh) == Some(prev.data),
{
}

/// An arriving entry is found right away unless another key keeps the
/// place.
pub proof fn lemma_found_after_stored<T: Copy>(
    slot: Option<TTNode<T>>,
    zh: ZobristHash,
    data: T,
    decision: PolicyResult,
)
    ensures
        found(stored(slot, zh, data, decision), zh) == if decision == PolicyResult::Keep && (
        slot matches Some(prev) && prev.zh != zh) {
            None::<T>
        } else {
            Some(data)
        },
{
}

/// A table of one place per value of the top bits of a key.
pub struct TranspositionTable<T: Copy, P: CollisionPolicy<T>> {
    bits: u32,
    table: Vec<Option<TTNode<T>>>,
    collision_policy: P,
    stats: TTStats,
}

impl<T: Copy, P: CollisionPolicy<T>> TranspositionTable<T, P> {
    /// The table has one place per value of the top bits, and its counts
    /// of places agree with its places.
    pub closed spec fn wf(self) -> bool {
        &&& self.bits <= 63
        &&& self.table@.len() == (1u64 << (self.bits as u64))
        &&& self.stats.size == self.table@.len()
        &&& self.stats.filled == occupied(self.table@, self.table@.len() as int)
    }

    /// The places of the table.
    pub closed spec fn slots(self) -> Seq<Option<TTNode<T>>> {
        self.table@
    }

    /// The number of top bits of a key that pick its place.
    pub closed spec fn width(self) -> u32 {
        self.bits
    }

    /// The rule of the table.
    pub closed spec fn policy(self) -> P {
        self.collision_policy
    }

    /// The counts of the table.
    pub closed spec fn counts(self) -> TTStats {
        self.stats
    }

    /// Every key has its place in the table.
    pub proof fn lemma_place_in_table(self, zh: ZobristHash)
        requires
            self.wf(),
        ensures
            0 <= place(zh, self.width()) < self.slots().len(),
    {
        bv_place(zh.0, if self.bits == 0 {
            1
        } else {
            self.bits
        });
    }

    /// An empty table with as many places as entries fit into `max_bytes`,
    /// rounded down to a power of two.
    pub fn new(max_bytes: usize, collision_policy: P) -> (tt: TranspositionTable<T, P>)
        requires
            vstd::layout::size_of::<TTNode<T>>() > 0,
            max_bytes as nat / vstd::layout::size_of::<TTNode<T>>() >= 1,
        ensures
            tt.wf(),
            tt.policy() == collision_policy,
            tt.width() <= 63,
            tt.slots().len() == (1u64 << (tt.width() as u64)),
            tt.slots().len() <= max_bytes as nat / vstd::layout::size_of::<TTNode<T>>(),
            max_bytes as nat / vstd::layout::size_of::<TTNode<T>>() < 2 * tt.slots().len(),
            forall|i: int| 0 <= i < tt.slots().len() ==> tt.slots()[i] is None,
            tt.counts() == (TTStats {
                hits: 0,
                collisions: 0,
                total: 0,
                size: tt.slots().len() as usize,
                filled: 0,
            }),
    {
        let entry_size = core::mem::size_of::<TTNode<T>>();
        let wanted = (max_bytes / entry_size) as u64;
        let mut bits: u32 = 0;
        proof {
            bv_place(0, 1);
        }
        while bits < 63 && (1u64 << ((bits + 1) as u64)) <= wanted
            invariant
                bits <= 63,
                (1u64 << (bits as u64)) <= wanted,
            decreases 63 - bits,
        {
            bits = bits + 1;
        }
        proof {
            bv_place(0, if bits == 0 {
                1
            } else {
                bits
            });
        }
        let num_entries = (1u64 << (bits as u64)) as usize;
        let mut table: Vec<Option<TTNode<T>>> = Vec::new();
        let mut i: usize = 0;
        while i < num_entries
            invariant
                i <= num_entries,
                table@.len() == i,
                forall|k: int| 0 <= k < i ==> table@[k] is None,
                occupied(table@, i as int) == 0,
            decreases num_entries - i,
        {
            table.push(None);
            i = i + 1;
            assert(occupied(table@, i as int) == 0) by {
                lemma_occupied_none(table@, i as int);
            }
        }
        TranspositionTable {
            bits,
            table,
            collision_policy,
            stats: TTStats { hits: 0, collisions: 0, total: 0, size: num_entries, filled: 0 },
        }
    }

    /// The counts of the table.
    pub fn stats(&self) -> (r: &TTStats)
        ensures
            *r == self.counts(),
    {
        &self.stats
    }

    /// The data stored for `zh`, if its place holds an entry for that key.
    /// The probe is counted, and so is whether it found its key or
    /// another.
    pub fn get(&mut self, zh: ZobristHash) -> (r: Option<T>)
        requires
            old(self).wf(),
        ensures
            final(self).wf(),
            r == found(old(self).slots()[place(zh, old(self).width())], zh),
            final(self).slots() == old(self).slots(),
            final(self).width() == old(self).width(),
            final(self).policy() == old(self).policy(),
            final(self).counts() == probed(
                old(self).counts(),
                old(self).slots()[place(zh, old(self).width())],
                zh,
            ),
    {
        let ix = self.index(zh);
        let mut stats = self.stats;
        if stats.total < u64::MAX {
            stats.total = stats.total + 1;
        }
        let r = match self.table[ix] {
            Some(nd) => {
                if nd.zh.0 == zh.0 {
                    if stats.hits < u64::MAX {
                        stats.hits = stats.hits + 1;
                    }
                    Some(nd.data)
                } else {
                    if stats.collisions < u64::MAX {
                        stats.collisions = stats.collisions + 1;
                    }
                    None
                }
            },
            None => None,
        };
        self.stats = stats;
        r
    }

    /// The data stored for `zh` if its place holds an entry for that key;
    /// otherwise what `compute` gives, which arrives at the table as by
    /// `insert`. The probe is counted.
    pub fn get_or_compute<F: FnOnce() -> T>(&mut self, zh: ZobristHash, compute: F) -> (data: T)
        requires
            old(self).wf(),
            call_requires(compute, ()),
        ensures
            final(self).wf(),
            final(self).width() == old(self).width(),
            final(self).policy() == old(self).policy(),
            match found(old(self).slots()[place(zh, old(self).width())], zh) {
                Some(d) => data == d && final(self).slots() == old(self).slots(),
                None => call_ensures(compute, (), data) && final(self).slots() == old(
                    self,
                ).slots().update(
                    place(zh, old(self).width()),
                    stored(
                        old(self).slots()[place(zh, old(self).width())],
                        zh,
                        data,
                        match old(self).slots()[place(zh, old(self).width())] {
                            Some(prev) => old(self).policy().decision(prev.data, data),
                            None => PolicyResult::Replace,
                        },
                    ),
                ),
            },
            final(self).counts() == (TTStats {
                filled: final(self).counts().filled,
                ..probed(
                    old(self).counts(),
                    old(self).slots()[place(zh, old(self).width())],
                    zh,
                )
            }),
            final(self).counts().filled == occupied(
                final(self).slots(),
                final(self).slots().len() as int,
            ),
    {
        match self.get(zh) {
            Some(data) => data,
            None => {
                let data = compute();
                self.insert(zh, data);
                data
            },
        }
    }

    /// Stores `data` for `zh`: in an empty place, over an entry for the
    /// same key, and over an entry for another key where the rule of the
    /// table decides to replace it.
    pub fn insert(&mut self, zh: ZobristHash, data: T)
        requires
            old(self).wf(),
        ensures
            final(self).wf(),
            final(self).width() == old(self).width(),
            final(self).policy() == old(self).policy(),
            final(self).slots() == old(self).slots().update(
                place(zh, old(self).width()),
                stored(
                    old(self).slots()[place(zh, old(self).width())],
                    zh,
                    data,
                    match old(self).slots()[place(zh, old(self).width())] {
                        Some(prev) => old(self).policy().decision(prev.data, data),
                        None => PolicyResult::Replace,
                    },
                ),
            ),
            final(self).counts() == (TTStats {
                filled: final(self).counts().filled,
                ..old(self).counts()
            }),
            final(self).counts().filled == occupied(
                final(self).slots(),
                final(self).slots().len() as int,
            ),
    {
        let ix = self.index(zh);
        let ghost before = self.table@;
        proof {
            lemma_occupied_bound(before, before.len() as int);
        }
        match self.table[ix] {
            Some(prev) => {
                if prev.zh.0 == zh.0 {
                    self.table.set(ix, Some(TTNode::new(zh, data)));
                } else {
                    match self.collision_policy.decide(prev.data, data) {
                        PolicyResult::Keep => {
                            assert(before.update(ix as int, Some(prev)) =~= before);
                        },
                        PolicyResult::Replace => {
                            self.table.set(ix, Some(TTNode::new(zh, data)));
                        },
                    }
                }
                proof {
                    lemma_occupied_update(
                        before,
                        ix as int,
                        TTNode { zh, data },
                        before.len() as int,
                    );
                }
            },
            None => {
                proof {
                    lemma_occupied_update(
                        before,
                        ix as int,
                        TTNode { zh, data },
                        before.len() as int,
                    );
                    lemma_occupied_bound(
                        before.update(ix as int, Some(TTNode { zh, data })),
                        before.len() as int,
                    );
                }
                self.table.set(ix, Some(TTNode::new(zh, data)));
                self.stats.filled = self.stats.filled + 1;
            },
        };
    }

    /// The place of a key.
    fn index(&self, zh: ZobristHash) -> (ix: usize)
        requires
            self.wf(),
        ensures
            ix == place(zh, self.width()),
            ix < self.slots().len(),
    {
        proof {
            bv_place(zh.0, if self.bits == 0 {
                1
            } else {
                self.bits
            });
        }
        if self.bits == 0 {
            0
        } else {
            (zh.0 >> (64 - self.bits)) as usize
        }
    }
}

proof fn lemma_occupied_none<T: Copy>(slots: Seq<Option<TTNode<T>>>, upto: int)
    requires
        0 <= upto <= slots.len(),
        forall|k: int| 0 <= k < upto ==> slots[k] is None,
    ensures
        occupied(slots, upto) == 0,
    decreases upto,
{
    if upto > 0 {
        lemma_occupied_none(slots, upto - 1);
    }
}

} // verus!
