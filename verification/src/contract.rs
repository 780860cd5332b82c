use vstd::prelude::*;
use crate::assoc::{
    m_add, m_contains, m_entry_in, m_get, m_put, m_remove, m_unique, lemma_m_get_first_index,
    lemma_m_get_none, lemma_m_put_get, lemma_m_put_unique, lemma_m_remove_absent, lemma_m_remove_at_index,
    lemma_m_remove_entries, lemma_m_remove_unique,
};
use crate::cost::{measure_storage_usage, spec_measure};
use crate::errors::TrustError;
use crate::id::HashedUserId;
use crate::ledger::reconcile;
use crate::record::{blk_view, rec_wf, tn_view, UserData, UserDataV, TRUST_LEVEL_SCALE};
use crate::text::str_eq;

verus! {

/// Funds reserved for the system's own storage and bookkeeping; never
/// counted as extractable surplus.
pub const CONTRACT_STORAGE_RESERVE: u128 = 2_000_000_000_000_000_000_000_000;

/// How long a pending trust request stays valid, in nanoseconds: seven days.
pub const REQUEST_TIMEOUT_NS: u64 = 604_800_000_000_000;

/// A pending trust request: the deposit backing it and when it lapses.
/// Stored for future use; no mutation logic reads it yet.
#[derive(Clone, Copy, Debug, PartialEq, Eq, Structural)]
pub struct TrustRequest {
    pub deposit: u128,
    pub expiry: u64,
}

/// The whole system state as mathematics: both top-level maps, keyed by the
/// encoded user id.
pub struct ContractV {
    pub users: Seq<(Seq<char>, UserDataV)>,
    pub deposits: Seq<(Seq<char>, u128)>,
}

/// The top-level state: every user record and every escrowed balance,
/// both keyed by the owner's hashed id and always updated together.
pub struct CentralLinkOfTrustContract {
    pub users: Vec<(String, UserData)>,
    pub user_deposits: Vec<(String, u128)>,
    pub timeout_duration: u64,
}

pub open spec fn users_view(s: Seq<(String, UserData)>) -> Seq<(Seq<char>, UserDataV)> {
    s.map_values(|p: (String, UserData)| (p.0@, p.1@))
}

pub open spec fn deps_view(s: Seq<(String, u128)>) -> Seq<(Seq<char>, u128)> {
    s.map_values(|p: (String, u128)| (p.0@, p.1))
}

impl View for CentralLinkOfTrustContract {
    type V = ContractV;

    open spec fn view(&self) -> ContractV {
        ContractV { users: users_view(self.users@), deposits: deps_view(self.user_deposits@) }
    }
}

/// Every stored record is well formed and keyed by its own id.
pub open spec fn users_wf(s: Seq<(Seq<char>, UserDataV)>) -> bool {
    &&& m_unique(s)
    &&& forall|i: int|
        0 <= i < s.len() ==> rec_wf((#[trigger] s[i]).1) && s[i].1.id == s[i].0
}

/// A record as it would be created on a user's first mutation.
pub open spec fn fresh_record(cid: Seq<char>) -> UserDataV {
    UserDataV {
        id: cid,
        requested_trust_cost: 0,
        profile: Seq::<char>::empty(),
        tn: Seq::<(Seq<char>, i64)>::empty(),
        blocked: Seq::<(Seq<char>, ())>::empty(),
    }
}

/// The caller's current record, or a fresh one where none is stored yet.
pub open spec fn record_or_new(users: Seq<(Seq<char>, UserDataV)>, cid: Seq<char>) -> UserDataV {
    match m_get(users, cid) {
        Some(u) => u,
        None => fresh_record(cid),
    }
}

/// The balance escrowed for `cid`, zero where no entry exists.
pub open spec fn deposit_of(deps: Seq<(Seq<char>, u128)>, cid: Seq<char>) -> u128 {
    match m_get(deps, cid) {
        Some(b) => b,
        None => 0,
    }
}

/// The sum of all escrowed balances.
pub open spec fn total_deposits(s: Seq<(Seq<char>, u128)>) -> int
    decreases s.len(),
{
    if s.len() == 0 {
        0
    } else {
        s.first().1 + total_deposits(s.drop_first())
    }
}

/// What a committed mutation looks like: the caller's record replaced by
/// `nr`, the escrow trimmed to exactly the new requirement, the rest owed
/// back.
pub open spec fn committed(
    pre: ContractV,
    post: ContractV,
    cid: Seq<char>,
    nr: UserDataV,
    cost_per_byte: u128,
    attached: u128,
    refund: u128,
) -> bool {
    let required = spec_measure(nr) * cost_per_byte;
    let available = deposit_of(pre.deposits, cid) + attached;
    &&& post.users == m_put(pre.users, cid, nr)
    &&& post.deposits == m_put(pre.deposits, cid, required as u128)
    &&& available >= required
    &&& refund == available - required
}

/// The funds a mutation by `cid` would still owe after reusing its escrow:
/// negative or zero where the escrow plus attachment suffices.
pub open spec fn shortfall(
    pre: ContractV,
    cid: Seq<char>,
    nr: UserDataV,
    cost_per_byte: u128,
    attached: u128,
) -> int {
    spec_measure(nr) * cost_per_byte - (deposit_of(pre.deposits, cid) + attached)
}

impl CentralLinkOfTrustContract {
    /// The system's structural invariant: unique keys in both maps, every
    /// record well formed and keyed by its own id.
    pub open spec fn wf(self) -> bool {
        &&& users_wf(self@.users)
        &&& m_unique(self@.deposits)
    }

    /// A fresh system with no users and no escrow.
    pub fn new() -> (r: Self)
        ensures
            r.wf(),
            r@.users == Seq::<(Seq<char>, UserDataV)>::empty(),
            r@.deposits == Seq::<(Seq<char>, u128)>::empty(),
    {
        let r = CentralLinkOfTrustContract {
            users: Vec::new(),
            user_deposits: Vec::new(),
            timeout_duration: REQUEST_TIMEOUT_NS,
        };
        proof {
            assert(r@.users =~= Seq::<(Seq<char>, UserDataV)>::empty());
            assert(r@.deposits =~= Seq::<(Seq<char>, u128)>::empty());
        }
        r
    }

    /// Where `key`'s record sits in the store, if anywhere.
    #[verifier::loop_isolation(false)]
    fn user_index_of(&self, key: &str) -> (r: Option<usize>)
        ensures
            match r {
                Some(i) => {
                    &&& i < self.users@.len()
                    &&& self@.users[i as int].0 == key@
                    &&& forall|j: int| 0 <= j < i ==> (#[trigger] self@.users[j]).0 != key@
                    &&& m_get(self@.users, key@) == Some(self@.users[i as int].1)
                },
                None => m_get(self@.users, key@) is None,
            },
    {
        let n = self.users.len();
        let mut i: usize = 0;
        while i < n
            invariant
                n == self.users.len(),
                i <= n,
                forall|j: int| 0 <= j < i ==> (#[trigger] users_view(self.users@)[j]).0 != key@,
            decreases n - i,
        {
            proof {
                assert(users_view(self.users@).len() == self.users@.len());
                assert(users_view(self.users@)[i as int]
                    == (self.users@[i as int].0@, self.users@[i as int].1@));
            }
            if str_eq(self.users[i].0.as_str(), key) {
                proof {
                    lemma_m_get_first_index(self@.users, key@, i as int);
                }
                return Some(i);
            }
            i += 1;
        }
        proof {
            lemma_m_get_none(self@.users, key@);
        }
        None
    }

    /// Where `key`'s escrow entry sits, if anywhere.
    #[verifier::loop_isolation(false)]
    fn deposit_index_of(&self, key: &str) -> (r: Option<usize>)
        ensures
            match r {
                Some(i) => {
                    &&& i < self.user_deposits@.len()
                    &&& self@.deposits[i as int].0 == key@
                    &&& forall|j: int| 0 <= j < i ==> (#[trigger] self@.deposits[j]).0 != key@
                    &&& m_get(self@.deposits, key@) == Some(self@.deposits[i as int].1)
                },
                None => m_get(self@.deposits, key@) is None,
            },
    {
        let n = self.user_deposits.len();
        let mut i: usize = 0;
        while i < n
            invariant
                n == self.user_deposits.len(),
                i <= n,
                forall|j: int| 0 <= j < i ==> (#[trigger] deps_view(self.user_deposits@)[j]).0 != key@,
            decreases n - i,
        {
            proof {
                assert(deps_view(self.user_deposits@).len() == self.user_deposits@.len());
                assert(deps_view(self.user_deposits@)[i as int]
                    == (self.user_deposits@[i as int].0@, self.user_deposits@[i as int].1));
            }
            if str_eq(self.user_deposits[i].0.as_str(), key) {
                proof {
                    lemma_m_get_first_index(self@.deposits, key@, i as int);
                }
                return Some(i);
            }
            i += 1;
        }
        proof {
            lemma_m_get_none(self@.deposits, key@);
        }
        None
    }

    /// The balance currently escrowed for `key`, zero where none is.
    fn deposit_value(&self, key: &str) -> (r: u128)
        ensures
            r == deposit_of(self@.deposits, key@),
    {
        match self.deposit_index_of(key) {
            Some(i) => self.user_deposits[i].1,
            None => 0,
        }
    }

    /// Bind `key`'s escrow to `amount`, replacing any earlier entry.
    fn set_deposit(&mut self, key: &String, amount: u128)
        requires
            m_unique(old(self)@.deposits),
        ensures
            final(self)@.deposits == m_put(old(self)@.deposits, key@, amount),
            m_unique(final(self)@.deposits),
            final(self).users == old(self).users,
            final(self).timeout_duration == old(self).timeout_duration,
    {
        let ghost d0 = self@.deposits;
        match self.deposit_index_of(key.as_str()) {
            Some(i) => {
                proof {
                    lemma_m_remove_at_index(d0, key@, i as int);
                }
                let (kstr, _old_amount) = self.user_deposits.remove(i);
                proof {
                    assert(deps_view(self.user_deposits@) =~= d0.remove(i as int));
                }
                self.user_deposits.push((kstr, amount));
                proof {
                    assert(deps_view(self.user_deposits@)
                        =~= m_remove(d0, key@).push((key@, amount)));
                }
            },
            None => {
                proof {
                    lemma_m_remove_absent(d0, key@);
                }
                self.user_deposits.push((key.clone(), amount));
                proof {
                    assert(deps_view(self.user_deposits@)
                        =~= m_remove(d0, key@).push((key@, amount)));
                }
            },
        }
        proof {
            lemma_m_put_unique(d0, key@, amount);
        }
    }
}

/// The refund a committed mutation owes back to its caller.
pub open spec fn commit_result(
    pre: ContractV,
    cid: Seq<char>,
    nr: UserDataV,
    cost_per_byte: u128,
    attached: u128,
) -> u128 {
    (deposit_of(pre.deposits, cid) + attached - spec_measure(nr) * cost_per_byte) as u128
}

/// A record with its profile text replaced.
pub open spec fn profile_edited(rec: UserDataV, profile: Seq<char>) -> UserDataV {
    UserDataV { profile: profile, ..rec }
}

/// A record with its trust edge toward `oid` set to `level`, or dropped
/// where `level` is zero.
pub open spec fn trust_edited(rec: UserDataV, oid: Seq<char>, level: i64) -> UserDataV {
    if level == 0 {
        UserDataV { tn: m_remove(rec.tn, oid), ..rec }
    } else {
        UserDataV { tn: m_put(rec.tn, oid, level), ..rec }
    }
}

/// A record with `oid` in its block set; blocking oneself also drops one's
/// own trust edge toward oneself.
pub open spec fn block_edited(rec: UserDataV, cid: Seq<char>, oid: Seq<char>) -> UserDataV {
    if oid == cid {
        UserDataV { tn: m_remove(rec.tn, cid), blocked: m_add(rec.blocked, oid, ()), ..rec }
    } else {
        UserDataV { blocked: m_add(rec.blocked, oid, ()), ..rec }
    }
}

/// A record with `oid` taken out of its block set.
pub open spec fn unblock_edited(rec: UserDataV, oid: Seq<char>) -> UserDataV {
    UserDataV { blocked: m_remove(rec.blocked, oid), ..rec }
}

/// A record with its trust edge toward `cid` dropped: the side effect a
/// block by `cid` forces onto the blocked peer's record.
pub open spec fn untrusted_toward(rec: UserDataV, cid: Seq<char>) -> UserDataV {
    UserDataV { tn: m_remove(rec.tn, cid), ..rec }
}

impl CentralLinkOfTrustContract {
    /// The shared tail of every mutation: measure the edited record,
    /// reconcile against the escrow, and either commit record and ledger
    /// together or leave the state untouched.
    fn commit_caller(
        &mut self,
        caller: &HashedUserId,
        idx: Option<usize>,
        rec: UserData,
        attached: u128,
        cost_per_byte: u128,
    ) -> (r: Result<u128, TrustError>)
        requires
            old(self).wf(),
            rec.wf(),
            rec@.id == caller@,
            spec_measure(rec@) <= u64::MAX,
            spec_measure(rec@) * cost_per_byte <= u128::MAX,
            deposit_of(old(self)@.deposits, caller@) + attached <= u128::MAX,
            match idx {
                Some(i) => {
                    &&& i < old(self).users@.len()
                    &&& old(self)@.users[i as int].0 == caller@
                    &&& forall|j: int| 0 <= j < i ==> (#[trigger] old(self)@.users[j]).0 != caller@
                },
                None => m_get(old(self)@.users, caller@) is None,
            },
        ensures
            final(self).wf(),
            ({
                let short = shortfall(old(self)@, caller@, rec@, cost_per_byte, attached);
                if short > 0 {
                    &&& r == Err::<u128, TrustError>(TrustError::InsufficientFunds {
                        deficit: short as u128,
                    })
                    &&& *final(self) == *old(self)
                } else {
                    &&& r == Ok::<u128, TrustError>(
                        commit_result(old(self)@, caller@, rec@, cost_per_byte, attached),
                    )
                    &&& committed(
                        old(self)@,
                        final(self)@,
                        caller@,
                        rec@,
                        cost_per_byte,
                        attached,
                        commit_result(old(self)@, caller@, rec@, cost_per_byte, attached),
                    )
                }
            }),
    {
        let size = measure_storage_usage(&rec);
        let current = self.deposit_value(caller.s_bs58.as_str());
        match reconcile(size, cost_per_byte, current, attached) {
            Err(e) => Err(e),
            Ok(rc) => {
                let ghost u0 = self@.users;
                match idx {
                    Some(i) => {
                        proof {
                            lemma_m_remove_at_index(u0, caller@, i as int);
                        }
                        let pair = self.users.remove(i);
                        proof {
                            assert(users_view(self.users@) =~= u0.remove(i as int));
                        }
                        let kstr = pair.0;
                        self.users.push((kstr, rec));
                        proof {
                            assert(users_view(self.users@)
                                =~= m_remove(u0, caller@).push((caller@, rec@)));
                        }
                    },
                    None => {
                        proof {
                            lemma_m_remove_absent(u0, caller@);
                        }
                        self.users.push((caller.s_bs58.clone(), rec));
                        proof {
                            assert(users_view(self.users@)
                                =~= m_remove(u0, caller@).push((caller@, rec@)));
                        }
                    },
                }
                proof {
                    lemma_users_wf_put(u0, caller@, rec@);
                }
                self.set_deposit(&caller.s_bs58, rc.new_balance);
                Ok(rc.refund)
            },
        }
    }

    /// Fetch the caller's record (or a fresh one) as a value the caller
    /// path can edit before anything commits.
    fn staged_record(&self, caller: &HashedUserId, idx: Option<usize>) -> (r: UserData)
        requires
            self.wf(),
            match idx {
                Some(i) => {
                    &&& i < self.users@.len()
                    &&& self@.users[i as int].0 == caller@
                    &&& m_get(self@.users, caller@) == Some(self@.users[i as int].1)
                },
                None => m_get(self@.users, caller@) is None,
            },
        ensures
            r.wf(),
            r@ == record_or_new(self@.users, caller@),
            r@.id == caller@,
    {
        match idx {
            Some(i) => {
                proof {
                    assert(rec_wf(self@.users[i as int].1));
                }
                self.users[i].1.duplicate()
            },
            None => UserData::new(caller.duplicate()),
        }
    }

    /// Replace the caller's profile text, then reconcile the storage bill.
    pub fn modify_public_profile(
        &mut self,
        caller: &HashedUserId,
        profile: String,
        attached: u128,
        cost_per_byte: u128,
    ) -> (r: Result<u128, TrustError>)
        requires
            old(self).wf(),
            spec_measure(profile_edited(record_or_new(old(self)@.users, caller@), profile@))
                <= u64::MAX,
            spec_measure(profile_edited(record_or_new(old(self)@.users, caller@), profile@))
                * cost_per_byte <= u128::MAX,
            deposit_of(old(self)@.deposits, caller@) + attached <= u128::MAX,
        ensures
            final(self).wf(),
            ({
                let nr = profile_edited(record_or_new(old(self)@.users, caller@), profile@);
                let short = shortfall(old(self)@, caller@, nr, cost_per_byte, attached);
                if short > 0 {
                    &&& r == Err::<u128, TrustError>(TrustError::InsufficientFunds {
                        deficit: short as u128,
                    })
                    &&& *final(self) == *old(self)
                } else {
                    &&& r == Ok::<u128, TrustError>(
                        commit_result(old(self)@, caller@, nr, cost_per_byte, attached),
                    )
                    &&& committed(
                        old(self)@,
                        final(self)@,
                        caller@,
                        nr,
                        cost_per_byte,
                        attached,
                        commit_result(old(self)@, caller@, nr, cost_per_byte, attached),
                    )
                }
            }),
    {
        let idx = self.user_index_of(caller.s_bs58.as_str());
        let mut rec = self.staged_record(caller, idx);
        rec.public_profile = profile;
        self.commit_caller(caller, idx, rec, attached, cost_per_byte)
    }

    /// Set (or, at level zero, drop) the caller's trust edge toward
    /// `user_id`, then reconcile the storage bill. Fails without any state
    /// change where the level is out of range, where the target blocks the
    /// caller, or where funds fall short.
    pub fn trust(
        &mut self,
        caller: &HashedUserId,
        user_id: String,
        level: i64,
        attached: u128,
        cost_per_byte: u128,
    ) -> (r: Result<u128, TrustError>)
        requires
            old(self).wf(),
            spec_measure(trust_edited(record_or_new(old(self)@.users, caller@), user_id@, level))
                <= u64::MAX,
            spec_measure(trust_edited(record_or_new(old(self)@.users, caller@), user_id@, level))
                * cost_per_byte <= u128::MAX,
            deposit_of(old(self)@.deposits, caller@) + attached <= u128::MAX,
        ensures
            final(self).wf(),
            ({
                let cid = caller@;
                let oid = user_id@;
                let nr = trust_edited(record_or_new(old(self)@.users, cid), oid, level);
                let short = shortfall(old(self)@, cid, nr, cost_per_byte, attached);
                let target_blocks = match m_get(old(self)@.users, oid) {
                    Some(t) => m_contains(t.blocked, cid),
                    None => false,
                };
                if !(0 <= level <= TRUST_LEVEL_SCALE) {
                    &&& r == Err::<u128, TrustError>(TrustError::InvalidArgument)
                    &&& *final(self) == *old(self)
                } else if target_blocks {
                    &&& r == Err::<u128, TrustError>(TrustError::PermissionDenied)
                    &&& *final(self) == *old(self)
                } else if short > 0 {
                    &&& r == Err::<u128, TrustError>(TrustError::InsufficientFunds {
                        deficit: short as u128,
                    })
                    &&& *final(self) == *old(self)
                } else {
                    &&& r == Ok::<u128, TrustError>(
                        commit_result(old(self)@, cid, nr, cost_per_byte, attached),
                    )
                    &&& committed(
                        old(self)@,
                        final(self)@,
                        cid,
                        nr,
                        cost_per_byte,
                        attached,
                        commit_result(old(self)@, cid, nr, cost_per_byte, attached),
                    )
                }
            }),
    {
        if level < 0 || level > TRUST_LEVEL_SCALE {
            return Err(TrustError::InvalidArgument);
        }
        match self.user_index_of(user_id.as_str()) {
            Some(t) => {
                if self.users[t].1.is_blocked(caller.s_bs58.as_str()) {
                    return Err(TrustError::PermissionDenied);
                }
            },
            None => {},
        }
        let idx = self.user_index_of(caller.s_bs58.as_str());
        let mut rec = self.staged_record(caller, idx);
        if level == 0 {
            rec.remove_trust_network(user_id.as_str());
        } else {
            rec.insert_trust_network(user_id, level);
        }
        self.commit_caller(caller, idx, rec, attached, cost_per_byte)
    }

    /// Drop the caller's trust edge toward `user_id` (a no-op where there is
    /// none), then reconcile the storage bill.
    pub fn untrust(
        &mut self,
        caller: &HashedUserId,
        user_id: String,
        attached: u128,
        cost_per_byte: u128,
    ) -> (r: Result<u128, TrustError>)
        requires
            old(self).wf(),
            spec_measure(trust_edited(record_or_new(old(self)@.users, caller@), user_id@, 0))
                <= u64::MAX,
            spec_measure(trust_edited(record_or_new(old(self)@.users, caller@), user_id@, 0))
                * cost_per_byte <= u128::MAX,
            deposit_of(old(self)@.deposits, caller@) + attached <= u128::MAX,
        ensures
            final(self).wf(),
            ({
                let nr = trust_edited(record_or_new(old(self)@.users, caller@), user_id@, 0);
                let short = shortfall(old(self)@, caller@, nr, cost_per_byte, attached);
                if short > 0 {
                    &&& r == Err::<u128, TrustError>(TrustError::InsufficientFunds {
                        deficit: short as u128,
                    })
                    &&& *final(self) == *old(self)
                } else {
                    &&& r == Ok::<u128, TrustError>(
                        commit_result(old(self)@, caller@, nr, cost_per_byte, attached),
                    )
                    &&& committed(
                        old(self)@,
                        final(self)@,
                        caller@,
                        nr,
                        cost_per_byte,
                        attached,
                        commit_result(old(self)@, caller@, nr, cost_per_byte, attached),
                    )
                }
            }),
    {
        let idx = self.user_index_of(caller.s_bs58.as_str());
        let mut rec = self.staged_record(caller, idx);
        rec.remove_trust_network(user_id.as_str());
        self.commit_caller(caller, idx, rec, attached, cost_per_byte)
    }

    /// Add `user_id` to the caller's block set, reconcile the storage bill,
    /// and — once committed — drop the blocked peer's own trust edge toward
    /// the caller as a best-effort side update.
    pub fn block_user(
        &mut self,
        caller: &HashedUserId,
        other_id: String,
        attached: u128,
        cost_per_byte: u128,
    ) -> (r: Result<u128, TrustError>)
        requires
            old(self).wf(),
            spec_measure(block_edited(record_or_new(old(self)@.users, caller@), caller@, other_id@))
                <= u64::MAX,
            spec_measure(block_edited(record_or_new(old(self)@.users, caller@), caller@, other_id@))
                * cost_per_byte <= u128::MAX,
            deposit_of(old(self)@.deposits, caller@) + attached <= u128::MAX,
        ensures
            final(self).wf(),
            ({
                let cid = caller@;
                let oid = other_id@;
                let nr = block_edited(record_or_new(old(self)@.users, cid), cid, oid);
                let short = shortfall(old(self)@, cid, nr, cost_per_byte, attached);
                let refund = commit_result(old(self)@, cid, nr, cost_per_byte, attached);
                if short > 0 {
                    &&& r == Err::<u128, TrustError>(TrustError::InsufficientFunds {
                        deficit: short as u128,
                    })
                    &&& *final(self) == *old(self)
                } else {
                    &&& r == Ok::<u128, TrustError>(refund)
                    &&& final(self)@.deposits == m_put(
                        old(self)@.deposits,
                        cid,
                        (spec_measure(nr) * cost_per_byte) as u128,
                    )
                    &&& deposit_of(old(self)@.deposits, cid) + attached
                        >= spec_measure(nr) * cost_per_byte
                    &&& (if oid == cid {
                        final(self)@.users == m_put(old(self)@.users, cid, nr)
                    } else {
                        match m_get(old(self)@.users, oid) {
                            Some(t) => final(self)@.users == m_put(
                                m_put(old(self)@.users, cid, nr),
                                oid,
                                untrusted_toward(t, cid),
                            ),
                            None => final(self)@.users == m_put(old(self)@.users, cid, nr),
                        }
                    })
                }
            }),
    {
        let selfsame = str_eq(other_id.as_str(), caller.s_bs58.as_str());
        let idx = self.user_index_of(caller.s_bs58.as_str());
        let mut rec = self.staged_record(caller, idx);
        rec.block_user(other_id.clone());
        if selfsame {
            rec.remove_trust_network(caller.s_bs58.as_str());
        }
        proof {
            if other_id@ == caller@ {
                assert(rec@ == block_edited(record_or_new(old(self)@.users, caller@), caller@, other_id@));
            }
        }
        let committed_r = self.commit_caller(caller, idx, rec, attached, cost_per_byte);
        match committed_r {
            Err(e) => Err(e),
            Ok(refund) => {
                if !selfsame {
                    let ghost s1 = self@.users;
                    proof {
                        lemma_m_put_get(old(self)@.users, caller@, rec@, other_id@);
                    }
                    match self.user_index_of(other_id.as_str()) {
                        Some(j) => {
                            proof {
                                lemma_m_remove_at_index(s1, other_id@, j as int);
                                assert(rec_wf(s1[j as int].1));
                            }
                            let pair = self.users.remove(j);
                            proof {
                                assert(users_view(self.users@) =~= s1.remove(j as int));
                            }
                            let okstr = pair.0;
                            let mut orec = pair.1;
                            orec.remove_trust_network(caller.s_bs58.as_str());
                            self.users.push((okstr, orec));
                            proof {
                                assert(users_view(self.users@)
                                    =~= m_remove(s1, other_id@).push((other_id@, orec@)));
                                lemma_users_wf_put(s1, other_id@, orec@);
                            }
                        },
                        None => {},
                    }
                }
                Ok(refund)
            },
        }
    }

    /// Take `user_id` out of the caller's block set (a no-op where it is
    /// absent), then reconcile the storage bill.
    pub fn unblock_user(
        &mut self,
        caller: &HashedUserId,
        other_id: String,
        attached: u128,
        cost_per_byte: u128,
    ) -> (r: Result<u128, TrustError>)
        requires
            old(self).wf(),
            spec_measure(unblock_edited(record_or_new(old(self)@.users, caller@), other_id@))
                <= u64::MAX,
            spec_measure(unblock_edited(record_or_new(old(self)@.users, caller@), other_id@))
                * cost_per_byte <= u128::MAX,
            deposit_of(old(self)@.deposits, caller@) + attached <= u128::MAX,
        ensures
            final(self).wf(),
            ({
                let nr = unblock_edited(record_or_new(old(self)@.users, caller@), other_id@);
                let short = shortfall(old(self)@, caller@, nr, cost_per_byte, attached);
                if short > 0 {
                    &&& r == Err::<u128, TrustError>(TrustError::InsufficientFunds {
                        deficit: short as u128,
                    })
                    &&& *final(self) == *old(self)
                } else {
                    &&& r == Ok::<u128, TrustError>(
                        commit_result(old(self)@, caller@, nr, cost_per_byte, attached),
                    )
                    &&& committed(
                        old(self)@,
                        final(self)@,
                        caller@,
                        nr,
                        cost_per_byte,
                        attached,
                        commit_result(old(self)@, caller@, nr, cost_per_byte, attached),
                    )
                }
            }),
    {
        let idx = self.user_index_of(caller.s_bs58.as_str());
        let mut rec = self.staged_record(caller, idx);
        rec.unblock_user(other_id.as_str());
        self.commit_caller(caller, idx, rec, attached, cost_per_byte)
    }

    /// Purge the caller's record and escrow entry and report the full held
    /// balance as owed back; fails with `NotFound` where no record exists.
    pub fn delete_user(&mut self, caller: &HashedUserId) -> (r: Result<u128, TrustError>)
        requires
            old(self).wf(),
        ensures
            final(self).wf(),
            if m_contains(old(self)@.users, caller@) {
                &&& r == Ok::<u128, TrustError>(deposit_of(old(self)@.deposits, caller@))
                &&& final(self)@.users == m_remove(old(self)@.users, caller@)
                &&& final(self)@.deposits == m_remove(old(self)@.deposits, caller@)
            } else {
                &&& r == Err::<u128, TrustError>(TrustError::NotFound)
                &&& *final(self) == *old(self)
            },
    {
        let ghost u0 = self@.users;
        let ghost d0 = self@.deposits;
        match self.user_index_of(caller.s_bs58.as_str()) {
            None => Err(TrustError::NotFound),
            Some(i) => {
                proof {
                    lemma_m_remove_at_index(u0, caller@, i as int);
                    lemma_users_wf_remove(u0, caller@);
                }
                self.users.remove(i);
                proof {
                    assert(users_view(self.users@) =~= u0.remove(i as int));
                }
                let refund = match self.deposit_index_of(caller.s_bs58.as_str()) {
                    Some(j) => {
                        proof {
                            lemma_m_remove_at_index(d0, caller@, j as int);
                            lemma_m_remove_unique(d0, caller@);
                        }
                        let entry = self.user_deposits.remove(j);
                        proof {
                            assert(deps_view(self.user_deposits@) =~= d0.remove(j as int));
                        }
                        entry.1
                    },
                    None => {
                        proof {
                            lemma_m_remove_absent(d0, caller@);
                        }
                        0
                    },
                };
                Ok(refund)
            },
        }
    }
    /// The sum of every escrowed balance.
    #[verifier::loop_isolation(false)]
    pub fn get_total_users_deposit(&self) -> (r: u128)
        requires
            total_deposits(self@.deposits) <= u128::MAX,
        ensures
            r == total_deposits(self@.deposits),
    {
        let ghost d = self@.deposits;
        let n = self.user_deposits.len();
        let mut total: u128 = 0;
        let mut i: usize = 0;
        proof {
            assert(d.take(0) =~= Seq::<(Seq<char>, u128)>::empty());
        }
        while i < n
            invariant
                n == self.user_deposits.len(),
                i <= n,
                total == total_deposits(d.take(i as int)),
            decreases n - i,
        {
            proof {
                assert(d[i as int] == (self.user_deposits@[i as int].0@,
                    self.user_deposits@[i as int].1));
                lemma_total_deposits_take_succ(d, i as int);
                lemma_total_deposits_take_le(d, i as int + 1);
            }
            total = total + self.user_deposits[i].1;
            i += 1;
        }
        proof {
            assert(d.take(n as int) =~= d);
        }
        total
    }

    /// Pay `amount` of the system's surplus out to the operator: everything
    /// the system holds beyond the users' escrow and its own reserve.
    /// Only the system's own operating identity may call this.
    pub fn extract_profit(
        &self,
        caller_account: &str,
        owner_account: &str,
        account_balance: u128,
        amount: u128,
    ) -> (r: Result<u128, TrustError>)
        requires
            total_deposits(self@.deposits) <= u128::MAX,
        ensures
            ({
                let total = total_deposits(self@.deposits);
                let surplus: int = if account_balance >= total + CONTRACT_STORAGE_RESERVE {
                    account_balance - total - CONTRACT_STORAGE_RESERVE
                } else {
                    0
                };
                if caller_account@ != owner_account@ {
                    r == Err::<u128, TrustError>(TrustError::PermissionDenied)
                } else if amount > surplus {
                    r == Err::<u128, TrustError>(TrustError::InsufficientFunds {
                        deficit: (amount - surplus) as u128,
                    })
                } else if amount == 0 {
                    r == Err::<u128, TrustError>(TrustError::InvalidArgument)
                } else {
                    r == Ok::<u128, TrustError>(amount)
                }
            }),
    {
        if !str_eq(caller_account, owner_account) {
            return Err(TrustError::PermissionDenied);
        }
        let total = self.get_total_users_deposit();
        let surplus: u128 = if account_balance >= total
            && account_balance - total >= CONTRACT_STORAGE_RESERVE {
            account_balance - total - CONTRACT_STORAGE_RESERVE
        } else {
            0
        };
        if amount > surplus {
            return Err(TrustError::InsufficientFunds { deficit: amount - surplus });
        }
        if amount == 0 {
            return Err(TrustError::InvalidArgument);
        }
        Ok(amount)
    }

    /// Every stored user's encoded id, in storage order.
    #[verifier::loop_isolation(false)]
    pub fn view_users(&self) -> (r: Vec<String>)
        ensures
            r@.len() == self@.users.len(),
            forall|i: int| 0 <= i < r@.len() ==> (#[trigger] r@[i])@ == self@.users[i].0,
    {
        let mut out: Vec<String> = Vec::new();
        let n = self.users.len();
        let mut i: usize = 0;
        while i < n
            invariant
                n == self.users.len(),
                i <= n,
                out@.len() == i,
                forall|j: int| 0 <= j < i ==> (#[trigger] out@[j])@ == users_view(self.users@)[j].0,
            decreases n - i,
        {
            proof {
                assert(users_view(self.users@)[i as int]
                    == (self.users@[i as int].0@, self.users@[i as int].1@));
            }
            out.push(self.users[i].0.clone());
            i += 1;
        }
        out
    }

    /// A copy of the record stored under the given encoded id, if any.
    pub fn get_user_data(&self, user_id: String) -> (r: Option<UserDataView>)
        ensures
            ({
                match m_get(self@.users, user_id@) {
                    Some(u) => r matches Some(v) && v.hashed_user_id@ == u.id
                        && v.requested_trust_cost == u.requested_trust_cost
                        && v.public_profile@ == u.profile
                        && tn_view(v.trust_network@) == u.tn
                        && blk_view(v.blocked_users@) == u.blocked,
                    None => r is None,
                }
            }),
    {
        match self.user_index_of(user_id.as_str()) {
            None => None,
            Some(i) => {
                let d = self.users[i].1.duplicate();
                Some(UserDataView {
                    hashed_user_id: d.hashed_user_id.s_bs58,
                    requested_trust_cost: d.requested_trust_cost,
                    public_profile: d.public_profile,
                    trust_network: d.trust_network,
                    blocked_users: d.blocked_users,
                })
            },
        }
    }

    /// The balance escrowed under the given encoded id, if any entry exists.
    pub fn get_user_deposit(&self, user_id: String) -> (r: Option<u128>)
        ensures
            r == m_get(self@.deposits, user_id@),
    {
        match self.deposit_index_of(user_id.as_str()) {
            Some(i) => Some(self.user_deposits[i].1),
            None => None,
        }
    }
}

impl Default for CentralLinkOfTrustContract {
    /// The same fresh state `new` builds.
    fn default() -> (r: Self)
        ensures
            r.wf(),
            r@.users == Seq::<(Seq<char>, UserDataV)>::empty(),
            r@.deposits == Seq::<(Seq<char>, u128)>::empty(),
    {
        CentralLinkOfTrustContract::new()
    }
}

/// A plain copy of a stored record, fit for handing out of the library.
pub struct UserDataView {
    pub hashed_user_id: String,
    pub requested_trust_cost: u128,
    pub public_profile: String,
    pub trust_network: Vec<(String, i64)>,
    pub blocked_users: Vec<String>,
}

pub proof fn lemma_total_deposits_nonneg(s: Seq<(Seq<char>, u128)>)
    ensures
        total_deposits(s) >= 0,
    decreases s.len(),
{
    if s.len() > 0 {
        lemma_total_deposits_nonneg(s.drop_first());
    }
}

pub proof fn lemma_total_deposits_concat(a: Seq<(Seq<char>, u128)>, b: Seq<(Seq<char>, u128)>)
    ensures
        total_deposits(a + b) == total_deposits(a) + total_deposits(b),
    decreases a.len(),
{
    if a.len() == 0 {
        assert(a + b =~= b);
    } else {
        assert((a + b).first() == a.first());
        assert((a + b).drop_first() =~= a.drop_first() + b);
        lemma_total_deposits_concat(a.drop_first(), b);
    }
}

pub proof fn lemma_total_deposits_take_succ(s: Seq<(Seq<char>, u128)>, i: int)
    requires
        0 <= i < s.len(),
    ensures
        total_deposits(s.take(i + 1)) == total_deposits(s.take(i)) + s[i].1,
{
    assert(s.take(i + 1) =~= s.take(i) + seq![s[i]]);
    lemma_total_deposits_concat(s.take(i), seq![s[i]]);
    assert(seq![s[i]].drop_first() =~= Seq::<(Seq<char>, u128)>::empty());
    assert(total_deposits(Seq::<(Seq<char>, u128)>::empty()) == 0);
}

pub proof fn lemma_total_deposits_take_le(s: Seq<(Seq<char>, u128)>, i: int)
    requires
        0 <= i <= s.len(),
    ensures
        total_deposits(s.take(i)) <= total_deposits(s),
{
    assert(s =~= s.take(i) + s.skip(i));
    lemma_total_deposits_concat(s.take(i), s.skip(i));
    lemma_total_deposits_nonneg(s.skip(i));
}

/// Replacing (or adding) a well-formed record keyed by its own id keeps the
/// whole store well formed.
pub proof fn lemma_users_wf_put(s: Seq<(Seq<char>, UserDataV)>, cid: Seq<char>, nr: UserDataV)
    requires
        users_wf(s),
        rec_wf(nr),
        nr.id == cid,
    ensures
        users_wf(m_put(s, cid, nr)),
{
    lemma_m_put_unique(s, cid, nr);
    lemma_m_remove_entries(s, cid);
    let r = m_remove(s, cid);
    let p = r.push((cid, nr));
    assert forall|i: int| 0 <= i < p.len()
        implies rec_wf((#[trigger] p[i]).1) && p[i].1.id == p[i].0 by {
        if i < r.len() {
            assert(p[i] == r[i]);
            assert(m_entry_in(s, r[i]));
            let j = choose|j: int| 0 <= j < s.len() && s[j] == r[i];
            assert(rec_wf(s[j].1));
        } else {
            assert(p[i] == (cid, nr));
        }
    }
}

/// Taking a record out keeps the store well formed.
pub proof fn lemma_users_wf_remove(s: Seq<(Seq<char>, UserDataV)>, cid: Seq<char>)
    requires
        users_wf(s),
    ensures
        users_wf(m_remove(s, cid)),
{
    lemma_m_remove_unique(s, cid);
    lemma_m_remove_entries(s, cid);
    let r = m_remove(s, cid);
    assert forall|i: int| 0 <= i < r.len()
        implies rec_wf((#[trigger] r[i]).1) && r[i].1.id == r[i].0 by {
        assert(m_entry_in(s, r[i]));
        let j = choose|j: int| 0 <= j < s.len() && s[j] == r[i];
        assert(rec_wf(s[j].1));
    }
}

} // verus!
