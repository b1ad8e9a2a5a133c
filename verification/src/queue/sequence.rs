//! Sequence-number reservation for transactions queued while offline, and the
//! cached multisig signer sets of accounts.
//!
//! A Stellar account's sequence number must rise by exactly one per
//! transaction. Each transaction queued offline for an account is assigned a
//! distinct, strictly increasing sequence number before it is signed, so that
//! no two envelopes are ever signed against the same sequence.

use vstd::prelude::*;

use crate::errors::SyncEngineError;
use crate::keyed::{
    account_entries, find_account, find_signer, last_wins,
    lemma_last_wins_absent, lemma_last_wins_lookup, lemma_last_wins_push,
    lemma_last_wins_update,
};

verus! {

/// Last reserved sequence number per source account.
#[derive(Debug, Default)]
pub struct SequenceReservationManager {
    reserved: Vec<(String, i64)>,
}

impl View for SequenceReservationManager {
    type V = Map<Seq<char>, i64>;

    /// Account (by its characters) to the last sequence number reserved for it.
    closed spec fn view(&self) -> Map<Seq<char>, i64> {
        last_wins(account_entries(self.reserved@))
    }
}

/// Writes `value` for `key` into an account table, overwriting the entry that
/// decides the key's value or appending a new one.
fn put_account<V>(entries: &mut Vec<(String, V)>, key: String, value: V)
    ensures
        last_wins(account_entries(final(entries)@))
            == last_wins(account_entries(old(entries)@)).insert(key@, value),
{
    let ghost k = key@;
    match find_account(entries, &key) {
        Some(i) => {
            proof {
                assert(account_entries(old(entries)@.update(i as int, (key, value)))
                    =~= account_entries(old(entries)@).update(i as int, (k, value)));
                lemma_last_wins_update(account_entries(old(entries)@), k, i as int, value);
            }
            entries.set(i, (key, value));
        },
        None => {
            proof {
                assert(account_entries(old(entries)@.push((key, value)))
                    =~= account_entries(old(entries)@).push((k, value)));
                lemma_last_wins_push(account_entries(old(entries)@), (k, value));
            }
            entries.push((key, value));
        },
    }
}

impl SequenceReservationManager {
    /// A manager with no account seeded.
    pub fn new() -> (manager: Self)
        ensures
            manager@ == Map::<Seq<char>, i64>::empty(),
    {
        SequenceReservationManager { reserved: Vec::new() }
    }

    /// Seeds `account` with its on-chain sequence number as last observed
    /// online; later reservations for the account build on it.
    pub fn seed(&mut self, account: &str, current_chain_sequence: i64)
        ensures
            final(self)@ == old(self)@.insert(account@, current_chain_sequence),
    {
        put_account(&mut self.reserved, account.to_owned(), current_chain_sequence);
    }

    /// Reserves and returns the next sequence number for `account`, one above
    /// the last one reserved. The account must have been seeded.
    pub fn reserve_next(&mut self, account: &str) -> (reserved: Result<i64, SyncEngineError>)
        requires
            old(self)@.contains_key(account@) ==> old(self)@[account@] < i64::MAX,
        ensures
            match reserved {
                Ok(next) => {
                    &&& old(self)@.contains_key(account@)
                    &&& next == old(self)@[account@] + 1
                    &&& final(self)@ == old(self)@.insert(account@, next)
                },
                Err(e) => {
                    &&& !old(self)@.contains_key(account@)
                    &&& final(self)@ == old(self)@
                    &&& e matches SyncEngineError::NoSequenceReserved(a) && a@ == account@
                },
            },
    {
        let key = account.to_owned();
        match find_account(&self.reserved, &key) {
            None => {
                proof {
                    lemma_last_wins_absent(account_entries(self.reserved@), account@);
                }
                Err(SyncEngineError::NoSequenceReserved(key))
            },
            Some(i) => {
                proof {
                    lemma_last_wins_lookup(account_entries(self.reserved@), account@, i as int);
                }
                let last = self.reserved[i].1;
                let next = last + 1;
                put_account(&mut self.reserved, key, next);
                Ok(next)
            },
        }
    }

    /// The last sequence number reserved for `account`, if it was seeded.
    pub fn last_reserved(&self, account: &str) -> (last: Option<i64>)
        ensures
            last == (if self@.contains_key(account@) {
                Some(self@[account@])
            } else {
                None
            }),
    {
        let key = account.to_owned();
        match find_account(&self.reserved, &key) {
            None => {
                proof {
                    lemma_last_wins_absent(account_entries(self.reserved@), account@);
                }
                None
            },
            Some(i) => {
                proof {
                    lemma_last_wins_lookup(account_entries(self.reserved@), account@, i as int);
                }
                Some(self.reserved[i].1)
            },
        }
    }

    /// Rolls back the most recent reservation for `account`, as when building
    /// an envelope fails after its sequence number was reserved. `sequence`
    /// must be the last number reserved for the account.
    pub fn release(&mut self, account: &str, sequence: i64) -> (released: Result<
        (),
        SyncEngineError,
    >)
        requires
            old(self)@.contains_key(account@) && old(self)@[account@] == sequence ==> i64::MIN
                < sequence,
        ensures
            match released {
                Ok(()) => {
                    &&& old(self)@.contains_key(account@)
                    &&& old(self)@[account@] == sequence
                    &&& final(self)@ == old(self)@.insert(account@, (sequence - 1) as i64)
                },
                Err(e) => {
                    &&& final(self)@ == old(self)@
                    &&& if old(self)@.contains_key(account@) {
                        &&& old(self)@[account@] != sequence
                        &&& e matches SyncEngineError::SequenceOutOfOrder {
                            account: a,
                            requested,
                            last_reserved,
                        } && a@ == account@ && requested == sequence && last_reserved == old(
                            self,
                        )@[account@]
                    } else {
                        e matches SyncEngineError::NoSequenceReserved(a) && a@ == account@
                    }
                },
            },
    {
        let key = account.to_owned();
        match find_account(&self.reserved, &key) {
            None => {
                proof {
                    lemma_last_wins_absent(account_entries(self.reserved@), account@);
                }
                Err(SyncEngineError::NoSequenceReserved(key))
            },
            Some(i) => {
                proof {
                    lemma_last_wins_lookup(account_entries(self.reserved@), account@, i as int);
                }
                let last = self.reserved[i].1;
                if last != sequence {
                    return Err(
                        SyncEngineError::SequenceOutOfOrder {
                            account: key,
                            requested: sequence,
                            last_reserved: last,
                        },
                    );
                }
                put_account(&mut self.reserved, key, last - 1);
                Ok(())
            },
        }
    }
}

/// The reservations after `count` successive reservations for `account`,
/// each one above the last (what `reserve_next` does each time it succeeds).
pub open spec fn after_reservations(
    reserved: Map<Seq<char>, i64>,
    account: Seq<char>,
    count: nat,
) -> Map<Seq<char>, i64>
    decreases count,
{
    if count == 0 {
        reserved
    } else {
        let before = after_reservations(reserved, account, (count - 1) as nat);
        before.insert(account, (before[account] + 1) as i64)
    }
}

/// Releasing the number that a reservation has just handed out for an
/// account is accepted and restores every account's reservation exactly.
pub proof fn lemma_release_undoes_reserve(reserved: Map<Seq<char>, i64>, account: Seq<char>)
    requires
        reserved.contains_key(account),
        reserved[account] < i64::MAX,
    ensures
        ({
            let next = (reserved[account] + 1) as i64;
            let after = reserved.insert(account, next);
            &&& after.contains_key(account)
            &&& after[account] == next
            &&& i64::MIN < next
            &&& after.insert(account, (next - 1) as i64) == reserved
        }),
{
    let next = (reserved[account] + 1) as i64;
    assert(reserved.insert(account, next).insert(account, (next - 1) as i64) =~= reserved);
}

/// After an account is seeded with `seed`, its `count`-th reservation hands
/// out `seed + count`: the numbers rise by exactly one with no gap, and every
/// other account keeps what it had.
pub proof fn lemma_reservations_count_up_from_seed(
    reserved: Map<Seq<char>, i64>,
    account: Seq<char>,
    seed: i64,
    count: nat,
)
    requires
        seed + count <= i64::MAX,
    ensures
        after_reservations(reserved.insert(account, seed), account, count).contains_key(account),
        after_reservations(reserved.insert(account, seed), account, count)[account] == seed
            + count,
        forall|other: Seq<char>|
            other != account ==> (#[trigger] after_reservations(
                reserved.insert(account, seed),
                account,
                count,
            ).contains_key(other) == reserved.contains_key(other) && (reserved.contains_key(
                other,
            ) ==> after_reservations(reserved.insert(account, seed), account, count)[other]
                == reserved[other])),
    decreases count,
{
    if count > 0 {
        lemma_reservations_count_up_from_seed(reserved, account, seed, (count - 1) as nat);
    }
}

/// The cached signer set of one account: signer public keys with their
/// weights, and the weight threshold a transaction must reach.
#[derive(Debug)]
struct AccountSigners {
    /// Signer public key and weight; a later entry for a key overrides an
    /// earlier one.
    signers: Vec<([u8; 32], u32)>,
    threshold: u32,
}

/// Offline cache of the multisig signer sets of accounts, seeded from a
/// snapshot taken while the device last had connectivity. Each account has a
/// single effective threshold.
#[derive(Debug, Default)]
pub struct MultisigAccountRegistry {
    accounts: Vec<(String, AccountSigners)>,
}

impl View for MultisigAccountRegistry {
    type V = Map<Seq<char>, (Map<[u8; 32], u32>, u32)>;

    /// Account (by its characters) to its signers' weights and its threshold.
    closed spec fn view(&self) -> Map<Seq<char>, (Map<[u8; 32], u32>, u32)> {
        last_wins(account_entries(self.accounts@)).map_values(
            |s: AccountSigners| (last_wins(s.signers@), s.threshold),
        )
    }
}

impl MultisigAccountRegistry {
    /// A registry with no account seeded.
    pub fn new() -> (registry: Self)
        ensures
            registry@ == Map::<Seq<char>, (Map<[u8; 32], u32>, u32)>::empty(),
    {
        let registry = MultisigAccountRegistry { accounts: Vec::new() };
        assert(registry@ =~= Map::<Seq<char>, (Map<[u8; 32], u32>, u32)>::empty());
        registry
    }

    /// Caches `account`'s signers and threshold, replacing any earlier entry
    /// for the account. Where `signers` names a key twice, the later weight
    /// counts.
    pub fn seed(&mut self, account: &str, signers: Vec<([u8; 32], u32)>, threshold: u32)
        ensures
            final(self)@ == old(self)@.insert(account@, (last_wins(signers@), threshold)),
    {
        let ghost before = last_wins(account_entries(self.accounts@));
        let entry = AccountSigners { signers, threshold };
        put_account(&mut self.accounts, account.to_owned(), entry);
        proof {
            let f = |s: AccountSigners| (last_wins(s.signers@), s.threshold);
            assert(before.insert(account@, entry).map_values(f) =~= before.map_values(f).insert(
                account@,
                f(entry),
            ));
        }
    }

    /// Finds the signer set that decides `account`'s entry.
    fn signers_of(&self, account: &str) -> (found: Option<&AccountSigners>)
        ensures
            match found {
                Some(s) => self@.contains_key(account@) && self@[account@] == (
                    last_wins(s.signers@),
                    s.threshold,
                ),
                None => !self@.contains_key(account@),
            },
    {
        let key = account.to_owned();
        match find_account(&self.accounts, &key) {
            None => {
                proof {
                    lemma_last_wins_absent(account_entries(self.accounts@), account@);
                }
                None
            },
            Some(i) => {
                proof {
                    lemma_last_wins_lookup(account_entries(self.accounts@), account@, i as int);
                }
                Some(&self.accounts[i].1)
            },
        }
    }

    /// The cached weight of `pubkey` on `account`, or `None` where the account
    /// was not seeded or the key is not one of its signers.
    pub fn signer_weight(&self, account: &str, pubkey: &[u8; 32]) -> (weight: Option<u32>)
        ensures
            weight == (if self@.contains_key(account@) && self@[account@].0.contains_key(*pubkey) {
                Some(self@[account@].0[*pubkey])
            } else {
                None
            }),
    {
        match self.signers_of(account) {
            None => None,
            Some(s) => match find_signer(&s.signers, pubkey) {
                None => {
                    proof {
                        lemma_last_wins_absent(s.signers@, *pubkey);
                    }
                    None
                },
                Some(i) => {
                    proof {
                        lemma_last_wins_lookup(s.signers@, *pubkey, i as int);
                    }
                    Some(s.signers[i].1)
                },
            },
        }
    }

    /// The cached signing threshold of `account`, or `None` where it was not
    /// seeded.
    pub fn threshold(&self, account: &str) -> (threshold: Option<u32>)
        ensures
            threshold == (if self@.contains_key(account@) {
                Some(self@[account@].1)
            } else {
                None
            }),
    {
        match self.signers_of(account) {
            None => None,
            Some(s) => Some(s.threshold),
        }
    }

    /// Whether `pubkey` is among `account`'s cached signers.
    pub fn is_known_signer(&self, account: &str, pubkey: &[u8; 32]) -> (known: bool)
        ensures
            known == (self@.contains_key(account@) && self@[account@].0.contains_key(*pubkey)),
    {
        self.signer_weight(account, pubkey).is_some()
    }
}

/// A key is a known signer of an account exactly where the registry has a
/// weight for it: `is_known_signer` answers whether `signer_weight` is `Some`.
pub proof fn lemma_known_signer_has_weight(
    registry: Map<Seq<char>, (Map<[u8; 32], u32>, u32)>,
    account: Seq<char>,
    pubkey: [u8; 32],
)
    ensures
        (registry.contains_key(account) && registry[account].0.contains_key(pubkey)) == (if registry.contains_key(account)
            && registry[account].0.contains_key(pubkey) {
            Some(registry[account].0[pubkey])
        } else {
            None::<u32>
        }) is Some,
{
}

} // verus!
