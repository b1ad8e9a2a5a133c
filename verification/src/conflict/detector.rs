//! Structural double-spend detection.
//!
//! The transaction XDR of an envelope is opaque here; the source account and
//! the reserved sequence number of each queued envelope are tracked when it is
//! queued. Two different envelopes that claim the same (account, sequence)
//! slot can never both settle on-chain, since Stellar accepts one transaction
//! per sequence number: such a pair is a conflict. Which of the two is valid is
//! decided elsewhere (see `crate::conflict::resolver`).

use vstd::prelude::*;

use crate::ids::{
    id_less, id_lt, ids_equal, lemma_id_lt_asymmetric, lemma_id_lt_irreflexive,
    lemma_id_lt_total, lemma_id_lt_transitive,
};

verus! {

/// The (account, sequence) slot that a queued envelope occupies.
#[derive(Debug, Clone, PartialEq, Eq)]
pub struct QueuedSlot {
    pub source_account: String,
    pub sequence: i64,
    pub message_id: [u8; 32],
}

/// Two different envelopes that claim the same (account, sequence) slot.
#[derive(Debug, Clone, PartialEq, Eq)]
pub struct Conflict {
    pub source_account: String,
    pub sequence: i64,
    pub envelope_a: [u8; 32],
    pub envelope_b: [u8; 32],
}

impl View for Conflict {
    type V = (Seq<char>, i64, [u8; 32], [u8; 32]);

    /// Account (by its characters), sequence, and the two envelopes' ids.
    open spec fn view(&self) -> (Seq<char>, i64, [u8; 32], [u8; 32]) {
        (self.source_account@, self.sequence, self.envelope_a, self.envelope_b)
    }
}

/// Entry `t` of `slots` claims the (account, sequence) slot for envelope `id`.
pub open spec fn claims(
    slots: Seq<QueuedSlot>,
    t: int,
    account: Seq<char>,
    sequence: i64,
    id: [u8; 32],
) -> bool {
    &&& 0 <= t < slots.len()
    &&& slots[t].source_account@ == account
    &&& slots[t].sequence == sequence
    &&& slots[t].message_id == id
}

/// Some entry of `slots` claims the (account, sequence) slot for envelope `id`.
pub open spec fn is_claimed(slots: Seq<QueuedSlot>, account: Seq<char>, sequence: i64, id: [u8; 32]) -> bool {
    exists|t: int| #[trigger] claims(slots, t, account, sequence, id)
}

/// Two distinct slots conflict: same account and sequence, different envelopes.
pub open spec fn slots_conflict(a: QueuedSlot, b: QueuedSlot) -> bool {
    &&& a.source_account@ == b.source_account@
    &&& a.sequence == b.sequence
    &&& a.message_id != b.message_id
}

/// `c` is a conflict of the batch `slots`: both envelopes claim the slot, and
/// they are neighbours in the byte order of the distinct envelopes that claim
/// it (the first sorts before the second, and no claimant lies between).
#[verifier::opaque]
pub open spec fn is_batch_conflict(
    slots: Seq<QueuedSlot>,
    c: (Seq<char>, i64, [u8; 32], [u8; 32]),
) -> bool {
    &&& is_claimed(slots, c.0, c.1, c.2)
    &&& is_claimed(slots, c.0, c.1, c.3)
    &&& id_lt(c.2, c.3)
    &&& forall|x: [u8; 32]| #[trigger]
        is_claimed(slots, c.0, c.1, x) ==> !(id_lt(c.2, x) && id_lt(x, c.3))
}

/// The ids are in strictly increasing byte order.
pub open spec fn strictly_sorted(ids: Seq<[u8; 32]>) -> bool {
    forall|p: int, q: int| 0 <= p < q < ids.len() ==> id_lt(#[trigger] ids[p], #[trigger] ids[q])
}

/// Two slot keys name the same (account, sequence) slot.
pub open spec fn same_key(a: (String, i64), b: (String, i64)) -> bool {
    a.0@ == b.0@ && a.1 == b.1
}

/// Entry `g` of `keys` is the (account, sequence) slot.
pub open spec fn key_is(keys: Seq<(String, i64)>, g: int, account: Seq<char>, sequence: i64) -> bool {
    &&& 0 <= g < keys.len()
    &&& keys[g].0@ == account
    &&& keys[g].1 == sequence
}

/// Returns the conflict between `a` and `b` where they occupy the same
/// (account, sequence) slot but are different envelopes; `None` where they are
/// the same envelope (seen twice via different gossip paths) or occupy
/// different slots.
pub fn conflicts_between(a: &QueuedSlot, b: &QueuedSlot) -> (conflict: Option<Conflict>)
    ensures
        match conflict {
            Some(c) => slots_conflict(*a, *b) && c@ == (
                a.source_account@,
                a.sequence,
                a.message_id,
                b.message_id,
            ),
            None => !slots_conflict(*a, *b),
        },
{
    if !(a.source_account == b.source_account) || a.sequence != b.sequence {
        return None;
    }
    if ids_equal(&a.message_id, &b.message_id) {
        return None;
    }
    Some(
        Conflict {
            source_account: a.source_account.clone(),
            sequence: a.sequence,
            envelope_a: a.message_id,
            envelope_b: b.message_id,
        },
    )
}

/// Position of the (account, sequence) slot in `keys`.
fn key_index(keys: &Vec<(String, i64)>, account: &String, sequence: i64) -> (found: Option<usize>)
    ensures
        match found {
            Some(g) => key_is(keys@, g as int, account@, sequence),
            None => forall|g: int| !key_is(keys@, g, account@, sequence),
        },
{
    let mut g: usize = 0;
    while g < keys.len()
        invariant
            g <= keys@.len(),
            forall|h: int| 0 <= h < g ==> !key_is(keys@, h, account@, sequence),
        decreases keys@.len() - g,
    {
        if keys[g].0 == *account && keys[g].1 == sequence {
            return Some(g);
        }
        g = g + 1;
    }
    None
}

/// The (account, sequence) slot is one of `keys`.
pub open spec fn has_key(keys: Seq<(String, i64)>, account: Seq<char>, sequence: i64) -> bool {
    exists|g: int| #[trigger] key_is(keys, g, account, sequence)
}

/// No two entries of `keys` name the same slot.
pub open spec fn distinct_keys(keys: Seq<(String, i64)>) -> bool {
    forall|g: int, h: int| 0 <= g < h < keys.len() ==> !same_key(#[trigger] keys[g], #[trigger] keys[h])
}

/// The distinct (account, sequence) slots that `slots` occupies.
fn slot_keys(slots: &Vec<QueuedSlot>) -> (keys: Vec<(String, i64)>)
    ensures
        forall|t: int|
            0 <= t < slots@.len() ==> #[trigger] has_key(
                keys@,
                slots@[t].source_account@,
                slots@[t].sequence,
            ),
        distinct_keys(keys@),
{
    let mut keys: Vec<(String, i64)> = Vec::new();
    let mut t: usize = 0;
    while t < slots.len()
        invariant
            t <= slots@.len(),
            forall|u: int|
                0 <= u < t ==> #[trigger] has_key(keys@, slots@[u].source_account@, slots@[u].sequence),
            distinct_keys(keys@),
        decreases slots@.len() - t,
    {
        let slot = &slots[t];
        match key_index(&keys, &slot.source_account, slot.sequence) {
            Some(g) => {
                assert(key_is(keys@, g as int, slots@[t as int].source_account@, slots@[t as int].sequence));
            },
            None => {
                let ghost old_keys = keys@;
                keys.push((slot.source_account.clone(), slot.sequence));
                proof {
                    let n = old_keys.len() as int;
                    assert(key_is(keys@, n, slots@[t as int].source_account@, slots@[t as int].sequence));
                    assert forall|u: int| 0 <= u < t implies #[trigger] has_key(
                        keys@,
                        slots@[u].source_account@,
                        slots@[u].sequence,
                    ) by {
                        assert(has_key(old_keys, slots@[u].source_account@, slots@[u].sequence));
                        let g = choose|g: int|
                            #[trigger] key_is(old_keys, g, slots@[u].source_account@, slots@[u].sequence);
                        assert(key_is(keys@, g, slots@[u].source_account@, slots@[u].sequence));
                    }
                    assert forall|g: int, h: int| 0 <= g < h < keys@.len() implies !same_key(
                        #[trigger] keys@[g],
                        #[trigger] keys@[h],
                    ) by {
                        if h < n {
                            assert(!same_key(old_keys[g], old_keys[h]));
                        } else {
                            assert(!key_is(old_keys, g, slots@[t as int].source_account@, slots@[t as int].sequence));
                        }
                    }
                }
            },
        }
        t = t + 1;
    }
    keys
}

/// Inserts `x` into the strictly sorted `ids` unless it is already there.
fn insert_sorted(ids: &mut Vec<[u8; 32]>, x: [u8; 32])
    requires
        strictly_sorted(old(ids)@),
    ensures
        strictly_sorted(final(ids)@),
        forall|y: [u8; 32]| #[trigger] final(ids)@.contains(y) <==> (old(ids)@.contains(y) || y == x),
{
    let mut pos: usize = 0;
    while pos < ids.len() && id_less(&ids[pos], &x)
        invariant
            pos <= ids@.len(),
            forall|p: int| 0 <= p < pos ==> id_lt(#[trigger] ids@[p], x),
        decreases ids@.len() - pos,
    {
        pos = pos + 1;
    }
    if pos < ids.len() && ids_equal(&ids[pos], &x) {
        assert(ids@.contains(x) && ids@[pos as int] == x);
        return ;
    }
    let ghost before = ids@;
    proof {
        if pos < before.len() {
            lemma_id_lt_total(before[pos as int], x);
        }
    }
    ids.insert(pos, x);
    proof {
        let after = ids@;
        assert forall|p: int, q: int| 0 <= p < q < after.len() implies id_lt(
            #[trigger] after[p],
            #[trigger] after[q],
        ) by {
            if q < pos {
                assert(after[p] == before[p] && after[q] == before[q]);
            } else if q == pos {
                assert(after[p] == before[p] && after[q] == x);
            } else if p < pos {
                assert(after[p] == before[p] && after[q] == before[q - 1]);
            } else if p == pos {
                assert(after[p] == x && after[q] == before[q - 1]);
                if q - 1 > pos {
                    assert(id_lt(before[pos as int], before[q - 1]));
                    lemma_id_lt_transitive(x, before[pos as int], before[q - 1]);
                }
            } else {
                assert(after[p] == before[p - 1] && after[q] == before[q - 1]);
            }
        }
        assert forall|y: [u8; 32]| #[trigger] after.contains(y) <==> (before.contains(y) || y == x) by {
            if after.contains(y) {
                let p = choose|p: int| 0 <= p < after.len() && after[p] == y;
                if p < pos {
                    assert(before[p] == y);
                } else if p > pos {
                    assert(before[p - 1] == y);
                }
            }
            if before.contains(y) {
                let p = choose|p: int| 0 <= p < before.len() && before[p] == y;
                if p < pos {
                    assert(after[p] == y);
                } else {
                    assert(after[p + 1] == y);
                }
            }
            if y == x {
                assert(after[pos as int] == y);
            }
        }
    }
}

/// The distinct envelopes that claim the (account, sequence) slot, in
/// increasing byte order.
fn sorted_ids(slots: &Vec<QueuedSlot>, account: &String, sequence: i64) -> (ids: Vec<[u8; 32]>)
    ensures
        strictly_sorted(ids@),
        forall|p: int| 0 <= p < ids@.len() ==> is_claimed(slots@, account@, sequence, #[trigger] ids@[p]),
        forall|x: [u8; 32]| #[trigger] is_claimed(slots@, account@, sequence, x) ==> ids@.contains(x),
{
    let mut ids: Vec<[u8; 32]> = Vec::new();
    let mut t: usize = 0;
    while t < slots.len()
        invariant
            t <= slots@.len(),
            strictly_sorted(ids@),
            forall|p: int| 0 <= p < ids@.len() ==> is_claimed(slots@, account@, sequence, #[trigger] ids@[p]),
            forall|u: int, x: [u8; 32]|
                0 <= u < t && #[trigger] claims(slots@, u, account@, sequence, x) ==> ids@.contains(x),
        decreases slots@.len() - t,
    {
        let slot = &slots[t];
        if slot.source_account == *account && slot.sequence == sequence {
            let ghost before = ids@;
            let x = slot.message_id;
            insert_sorted(&mut ids, x);
            proof {
                assert(claims(slots@, t as int, account@, sequence, x));
                assert forall|p: int| 0 <= p < ids@.len() implies is_claimed(
                    slots@,
                    account@,
                    sequence,
                    #[trigger] ids@[p],
                ) by {
                    assert(ids@.contains(ids@[p]));
                    if before.contains(ids@[p]) {
                        let q = choose|q: int| 0 <= q < before.len() && before[q] == ids@[p];
                        assert(is_claimed(slots@, account@, sequence, before[q]));
                    }
                }
                assert forall|u: int, y: [u8; 32]|
                    0 <= u < t + 1 && #[trigger] claims(slots@, u, account@, sequence, y) implies ids@.contains(y) by {
                    if u < t {
                        assert(before.contains(y));
                    }
                }
            }
        }
        t = t + 1;
    }
    proof {
        assert forall|x: [u8; 32]| #[trigger] is_claimed(slots@, account@, sequence, x) implies ids@.contains(x) by {
            let u = choose|u: int| #[trigger] claims(slots@, u, account@, sequence, x);
        }
    }
    ids
}

/// The conflicts between neighbouring ids of a slot, in order.
fn group_conflicts(account: &String, sequence: i64, ids: &Vec<[u8; 32]>) -> (group: Vec<Conflict>)
    ensures
        group@.len() == (if ids@.len() == 0 { 0 } else { ids@.len() - 1 }),
        forall|p: int|
            0 <= p < group@.len() ==> #[trigger] group@[p]@ == (account@, sequence, ids@[p], ids@[p + 1]),
{
    let mut group: Vec<Conflict> = Vec::new();
    let mut p: usize = 1;
    while p < ids.len()
        invariant
            1 <= p,
            ids@.len() == 0 ==> p == 1,
            ids@.len() > 0 ==> p <= ids@.len(),
            group@.len() == p - 1,
            forall|q: int|
                0 <= q < group@.len() ==> #[trigger] group@[q]@ == (account@, sequence, ids@[q], ids@[q + 1]),
        decreases ids@.len() - p,
    {
        group.push(
            Conflict {
                source_account: account.clone(),
                sequence,
                envelope_a: ids[p - 1],
                envelope_b: ids[p],
            },
        );
        p = p + 1;
    }
    group
}

/// Each pair of neighbouring distinct claimants of a slot is a conflict.
proof fn lemma_neighbours_conflict(
    slots: Seq<QueuedSlot>,
    account: Seq<char>,
    sequence: i64,
    ids: Seq<[u8; 32]>,
    p: int,
)
    requires
        strictly_sorted(ids),
        forall|q: int| 0 <= q < ids.len() ==> is_claimed(slots, account, sequence, #[trigger] ids[q]),
        forall|x: [u8; 32]| #[trigger] is_claimed(slots, account, sequence, x) ==> ids.contains(x),
        0 <= p < ids.len() - 1,
    ensures
        is_batch_conflict(slots, (account, sequence, ids[p], ids[p + 1])),
{
    reveal(is_batch_conflict);
    assert(is_claimed(slots, account, sequence, ids[p]));
    assert(is_claimed(slots, account, sequence, ids[p + 1]));
    assert(id_lt(ids[p], ids[p + 1]));
    assert forall|x: [u8; 32]| #[trigger] is_claimed(slots, account, sequence, x) implies !(id_lt(
        ids[p],
        x,
    ) && id_lt(x, ids[p + 1])) by {
        assert(ids.contains(x));
        let q = choose|q: int| 0 <= q < ids.len() && ids[q] == x;
        if id_lt(ids[p], x) && id_lt(x, ids[p + 1]) {
            if q < p {
                assert(id_lt(ids[q], ids[p]));
                lemma_id_lt_asymmetric(ids[q], ids[p]);
            } else if q == p {
                lemma_id_lt_irreflexive(x);
            } else if q == p + 1 {
                lemma_id_lt_irreflexive(x);
            } else {
                assert(id_lt(ids[p + 1], ids[q]));
                lemma_id_lt_asymmetric(ids[p + 1], ids[q]);
            }
        }
    }
}

/// Every conflict of a slot is a pair of neighbouring distinct claimants.
proof fn lemma_conflict_is_neighbours(
    slots: Seq<QueuedSlot>,
    ids: Seq<[u8; 32]>,
    c: (Seq<char>, i64, [u8; 32], [u8; 32]),
) -> (p: int)
    requires
        strictly_sorted(ids),
        forall|q: int| 0 <= q < ids.len() ==> is_claimed(slots, c.0, c.1, #[trigger] ids[q]),
        forall|x: [u8; 32]| #[trigger] is_claimed(slots, c.0, c.1, x) ==> ids.contains(x),
        is_batch_conflict(slots, c),
    ensures
        0 <= p < ids.len() - 1,
        c == (c.0, c.1, ids[p], ids[p + 1]),
{
    reveal(is_batch_conflict);
    assert(ids.contains(c.2));
    assert(ids.contains(c.3));
    let p = choose|p: int| 0 <= p < ids.len() && ids[p] == c.2;
    let q = choose|q: int| 0 <= q < ids.len() && ids[q] == c.3;
    if q < p {
        assert(id_lt(ids[q], ids[p]));
        lemma_id_lt_asymmetric(ids[q], ids[p]);
    } else if q == p {
        lemma_id_lt_irreflexive(c.2);
    } else if q > p + 1 {
        assert(id_lt(ids[p], ids[p + 1]));
        assert(id_lt(ids[p + 1], ids[q]));
        assert(is_claimed(slots, c.0, c.1, ids[p + 1]));
    }
    p
}

/// The slot is one of the first `g` entries of `keys`.
pub open spec fn key_before(keys: Seq<(String, i64)>, g: int, account: Seq<char>, sequence: i64) -> bool {
    exists|h: int| 0 <= h < g && #[trigger] key_is(keys, h, account, sequence)
}

/// `c` is one of `conflicts`.
pub open spec fn reported(conflicts: Seq<Conflict>, c: (Seq<char>, i64, [u8; 32], [u8; 32])) -> bool {
    exists|i: int| 0 <= i < conflicts.len() && #[trigger] conflicts[i]@ == c
}

/// What the conflicts gathered from the first `g` slots of `keys` satisfy.
pub open spec fn gathered(
    slots: Seq<QueuedSlot>,
    keys: Seq<(String, i64)>,
    g: int,
    conflicts: Seq<Conflict>,
) -> bool {
    &&& forall|i: int| 0 <= i < conflicts.len() ==> is_batch_conflict(slots, #[trigger] conflicts[i]@)
    &&& forall|i: int|
        0 <= i < conflicts.len() ==> key_before(keys, g, #[trigger] conflicts[i]@.0, conflicts[i]@.1)
    &&& forall|c: (Seq<char>, i64, [u8; 32], [u8; 32])|
        key_before(keys, g, c.0, c.1) && #[trigger] is_batch_conflict(slots, c) ==> reported(
            conflicts,
            c,
        )
    &&& forall|i: int, j: int|
        0 <= i < j < conflicts.len() ==> #[trigger] conflicts[i]@ != #[trigger] conflicts[j]@
}

/// Appending the conflicts of slot `g` to those of the slots before it gives
/// the conflicts of the slots up to `g`.
proof fn lemma_gather_step(
    slots: Seq<QueuedSlot>,
    keys: Seq<(String, i64)>,
    g: int,
    before: Seq<Conflict>,
    ids: Seq<[u8; 32]>,
    added: Seq<Conflict>,
)
    requires
        0 <= g < keys.len(),
        distinct_keys(keys),
        gathered(slots, keys, g, before),
        strictly_sorted(ids),
        forall|q: int| 0 <= q < ids.len() ==> is_claimed(slots, keys[g].0@, keys[g].1, #[trigger] ids[q]),
        forall|x: [u8; 32]| #[trigger] is_claimed(slots, keys[g].0@, keys[g].1, x) ==> ids.contains(x),
        added.len() == (if ids.len() == 0 { 0 } else { ids.len() - 1 }),
        forall|p: int|
            0 <= p < added.len() ==> #[trigger] added[p]@ == (keys[g].0@, keys[g].1, ids[p], ids[p + 1]),
    ensures
        gathered(slots, keys, g + 1, before + added),
{
    let account = keys[g].0@;
    let sequence = keys[g].1;
    let all = before + added;
    let n = before.len();
    assert(key_is(keys, g, account, sequence));
    assert forall|i: int| 0 <= i < all.len() implies is_batch_conflict(slots, #[trigger] all[i]@) by {
        if i >= n {
            assert(all[i] == added[i - n]);
            assert(added[i - n]@ == (account, sequence, ids[i - n], ids[i - n + 1]));
            lemma_neighbours_conflict(slots, account, sequence, ids, i - n);
        } else {
            assert(all[i] == before[i]);
        }
    }
    assert forall|i: int| 0 <= i < all.len() implies key_before(
        keys,
        g + 1,
        #[trigger] all[i]@.0,
        all[i]@.1,
    ) by {
        if i >= n {
            assert(all[i] == added[i - n]);
            assert(added[i - n]@ == (account, sequence, ids[i - n], ids[i - n + 1]));
        } else {
            assert(all[i] == before[i]);
            assert(key_before(keys, g, before[i]@.0, before[i]@.1));
            let h = choose|h: int| 0 <= h < g && #[trigger] key_is(keys, h, before[i]@.0, before[i]@.1);
            assert(key_is(keys, h, all[i]@.0, all[i]@.1));
        }
    }
    assert forall|c: (Seq<char>, i64, [u8; 32], [u8; 32])|
        key_before(keys, g + 1, c.0, c.1) && #[trigger] is_batch_conflict(slots, c) implies reported(
        all,
        c,
    ) by {
        let h = choose|h: int| 0 <= h < g + 1 && #[trigger] key_is(keys, h, c.0, c.1);
        if h < g {
            assert(key_before(keys, g, c.0, c.1));
            assert(reported(before, c));
            let i = choose|i: int| 0 <= i < before.len() && #[trigger] before[i]@ == c;
            assert(all[i] == before[i]);
        } else {
            let p = lemma_conflict_is_neighbours(slots, ids, c);
            assert(added[p]@ == (account, sequence, ids[p], ids[p + 1]));
            assert(all[n + p] == added[p]);
        }
    }
    assert forall|i: int, j: int| 0 <= i < j < all.len() implies #[trigger] all[i]@
        != #[trigger] all[j]@ by {
        if j >= n {
            assert(all[j] == added[j - n]);
            assert(added[j - n]@ == (account, sequence, ids[j - n], ids[j - n + 1]));
            if i >= n {
                assert(all[i] == added[i - n]);
                assert(added[i - n]@ == (account, sequence, ids[i - n], ids[i - n + 1]));
                assert(id_lt(ids[i - n], ids[j - n]));
                lemma_id_lt_irreflexive(ids[i - n]);
            } else {
                assert(all[i] == before[i]);
                assert(key_before(keys, g, before[i]@.0, before[i]@.1));
                let h = choose|h: int| 0 <= h < g && #[trigger] key_is(keys, h, before[i]@.0, before[i]@.1);
                assert(!same_key(keys[h], keys[g]));
            }
        } else {
            assert(all[i] == before[i] && all[j] == before[j]);
        }
    }
}

/// Scans a batch of queued slots (such as everything durably queued) for
/// double-spend conflicts: for each (account, sequence) slot, one conflict
/// per pair of neighbouring distinct envelopes in byte order. Each conflict
/// is reported once; the order of the list is not part of the contract.
pub fn detect_conflicts(slots: &Vec<QueuedSlot>) -> (conflicts: Vec<Conflict>)
    ensures
        forall|i: int| 0 <= i < conflicts@.len() ==> is_batch_conflict(slots@, #[trigger] conflicts@[i]@),
        forall|c: (Seq<char>, i64, [u8; 32], [u8; 32])| #[trigger]
            is_batch_conflict(slots@, c) ==> exists|i: int|
                0 <= i < conflicts@.len() && #[trigger] conflicts@[i]@ == c,
        forall|i: int, j: int|
            0 <= i < j < conflicts@.len() ==> #[trigger] conflicts@[i]@ != #[trigger] conflicts@[j]@,
{
    let keys = slot_keys(slots);
    let mut conflicts: Vec<Conflict> = Vec::new();
    let mut g: usize = 0;
    while g < keys.len()
        invariant
            g <= keys@.len(),
            forall|t: int|
                0 <= t < slots@.len() ==> #[trigger] has_key(
                    keys@,
                    slots@[t].source_account@,
                    slots@[t].sequence,
                ),
            distinct_keys(keys@),
            gathered(slots@, keys@, g as int, conflicts@),
        decreases keys@.len() - g,
    {
        let ids = sorted_ids(slots, &keys[g].0, keys[g].1);
        let mut group = group_conflicts(&keys[g].0, keys[g].1, &ids);
        proof {
            lemma_gather_step(slots@, keys@, g as int, conflicts@, ids@, group@);
        }
        conflicts.append(&mut group);
        g = g + 1;
    }
    proof {
        assert forall|c: (Seq<char>, i64, [u8; 32], [u8; 32])| #[trigger]
            is_batch_conflict(slots@, c) implies exists|i: int|
                0 <= i < conflicts@.len() && #[trigger] conflicts@[i]@ == c by {
            reveal(is_batch_conflict);
            let t = choose|t: int| #[trigger] claims(slots@, t, c.0, c.1, c.2);
            assert(has_key(keys@, slots@[t].source_account@, slots@[t].sequence));
            let h = choose|h: int| #[trigger] key_is(keys@, h, slots@[t].source_account@, slots@[t].sequence);
            assert(key_before(keys@, keys@.len() as int, c.0, c.1));
            assert(reported(conflicts@, c));
        }
    }
    conflicts
}

/// Among the entries before position `k` that claim the slot with an id above
/// `x`, the least such id.
proof fn lemma_least_claim_above(
    slots: Seq<QueuedSlot>,
    account: Seq<char>,
    sequence: i64,
    x: [u8; 32],
    k: int,
) -> (z: [u8; 32])
    requires
        0 <= k <= slots.len(),
        exists|t: int|
            0 <= t < k && #[trigger] claims(slots, t, account, sequence, slots[t].message_id) && id_lt(
                x,
                slots[t].message_id,
            ),
    ensures
        is_claimed(slots, account, sequence, z),
        id_lt(x, z),
        forall|t: int|
            0 <= t < k && #[trigger] claims(slots, t, account, sequence, slots[t].message_id) && id_lt(
                x,
                slots[t].message_id,
            ) ==> !id_lt(slots[t].message_id, z),
    decreases k,
{
    let last = k - 1;
    let v = slots[last].message_id;
    let last_qualifies = claims(slots, last, account, sequence, v) && id_lt(x, v);
    if exists|t: int|
        0 <= t < last && #[trigger] claims(slots, t, account, sequence, slots[t].message_id) && id_lt(
            x,
            slots[t].message_id,
        ) {
        let z0 = lemma_least_claim_above(slots, account, sequence, x, last);
        if last_qualifies && id_lt(v, z0) {
            assert forall|t: int|
                0 <= t < k && #[trigger] claims(slots, t, account, sequence, slots[t].message_id)
                    && id_lt(x, slots[t].message_id) implies !id_lt(slots[t].message_id, v) by {
                if t < last {
                    if id_lt(slots[t].message_id, v) {
                        lemma_id_lt_transitive(slots[t].message_id, v, z0);
                    }
                } else {
                    lemma_id_lt_irreflexive(v);
                }
            }
            assert(claims(slots, last, account, sequence, v));
            v
        } else {
            z0
        }
    } else {
        assert(last_qualifies);
        assert(claims(slots, last, account, sequence, v));
        lemma_id_lt_irreflexive(v);
        v
    }
}

/// Whenever two queued entries of a batch conflict with each other (as
/// `conflicts_between` reports), the batch has a conflict on their slot, and
/// so `detect_conflicts` reports one.
pub proof fn lemma_pairwise_conflict_is_detected(slots: Seq<QueuedSlot>, i: int, j: int)
    requires
        0 <= i < slots.len(),
        0 <= j < slots.len(),
        slots_conflict(slots[i], slots[j]),
    ensures
        exists|c: (Seq<char>, i64, [u8; 32], [u8; 32])|
            c.0 == slots[i].source_account@ && c.1 == slots[i].sequence && #[trigger]
                is_batch_conflict(slots, c),
{
    let account = slots[i].source_account@;
    let sequence = slots[i].sequence;
    lemma_id_lt_total(slots[i].message_id, slots[j].message_id);
    let (lo, hi) = if id_lt(slots[i].message_id, slots[j].message_id) {
        (i, j)
    } else {
        (j, i)
    };
    let x = slots[lo].message_id;
    assert(claims(slots, lo, account, sequence, x));
    assert(claims(slots, hi, account, sequence, slots[hi].message_id));
    let z = lemma_least_claim_above(slots, account, sequence, x, slots.len() as int);
    reveal(is_batch_conflict);
    assert forall|w: [u8; 32]| #[trigger] is_claimed(slots, account, sequence, w) implies !(id_lt(x, w)
        && id_lt(w, z)) by {
        let t = choose|t: int| #[trigger] claims(slots, t, account, sequence, w);
        assert(claims(slots, t, account, sequence, slots[t].message_id));
    }
    assert(is_batch_conflict(slots, (account, sequence, x, z)));
}

/// Conflict between two queued entries does not depend on the order in
/// which they are compared.
pub proof fn lemma_slots_conflict_symmetric(a: QueuedSlot, b: QueuedSlot)
    ensures
        slots_conflict(a, b) == slots_conflict(b, a),
{
}

/// A batch in which no two entries conflict (each slot is claimed by one
/// envelope, however often it was seen) has no conflict, so
/// `detect_conflicts` reports none.
pub proof fn lemma_clean_batch_has_no_conflicts(slots: Seq<QueuedSlot>)
    requires
        forall|i: int, j: int|
            0 <= i < slots.len() && 0 <= j < slots.len() ==> !slots_conflict(
                #[trigger] slots[i],
                #[trigger] slots[j],
            ),
    ensures
        forall|c: (Seq<char>, i64, [u8; 32], [u8; 32])| !#[trigger] is_batch_conflict(slots, c),
{
    assert forall|c: (Seq<char>, i64, [u8; 32], [u8; 32])| !#[trigger] is_batch_conflict(slots, c) by {
        reveal(is_batch_conflict);
        if is_batch_conflict(slots, c) {
            let t = choose|t: int| #[trigger] claims(slots, t, c.0, c.1, c.2);
            let u = choose|u: int| #[trigger] claims(slots, u, c.0, c.1, c.3);
            assert(!slots_conflict(slots[t], slots[u]));
            lemma_id_lt_irreflexive(c.2);
        }
    }
}

} // verus!
