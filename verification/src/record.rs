use vstd::prelude::*;
use crate::assoc::{
    m_add, m_contains, m_entry_in, m_get, m_put, m_remove, m_unique, lemma_m_add_unique,
    lemma_m_get_first_index, lemma_m_get_first_index_exists, lemma_m_get_none,
    lemma_m_put_unique, lemma_m_remove_absent, lemma_m_remove_at_index, lemma_m_remove_entries,
    lemma_m_remove_unique,
};
use crate::id::HashedUserId;
use crate::text::str_eq;

verus! {

/// Trust levels are fixed-point numbers in millionths: `0` stands for no
/// trust at all (never stored) and `TRUST_LEVEL_SCALE` for full trust.
pub const TRUST_LEVEL_SCALE: i64 = 1_000_000;

/// The mathematical shape of a user record: plain sequences keyed by the
/// peers' encoded ids.
pub struct UserDataV {
    pub id: Seq<char>,
    pub requested_trust_cost: u128,
    pub profile: Seq<char>,
    pub tn: Seq<(Seq<char>, i64)>,
    pub blocked: Seq<(Seq<char>, ())>,
}

/// The per-user aggregate: profile text, weighted trust edges and the block
/// set, keyed by the owner's hashed id.
#[derive(Clone)]
pub struct UserData {
    pub hashed_user_id: HashedUserId,
    pub requested_trust_cost: u128,
    pub public_profile: String,
    pub trust_network: Vec<(String, i64)>,
    pub blocked_users: Vec<String>,
}

pub open spec fn tn_view(s: Seq<(String, i64)>) -> Seq<(Seq<char>, i64)> {
    s.map_values(|p: (String, i64)| (p.0@, p.1))
}

pub open spec fn blk_view(s: Seq<String>) -> Seq<(Seq<char>, ())> {
    s.map_values(|k: String| (k@, ()))
}

impl View for UserData {
    type V = UserDataV;

    open spec fn view(&self) -> UserDataV {
        UserDataV {
            id: self.hashed_user_id@,
            requested_trust_cost: self.requested_trust_cost,
            profile: self.public_profile@,
            tn: tn_view(self.trust_network@),
            blocked: blk_view(self.blocked_users@),
        }
    }
}

/// The structural invariant of a record's shape: unique keys in both
/// sub-collections and every stored trust level strictly positive and
/// within scale.
pub open spec fn rec_wf(u: UserDataV) -> bool {
    &&& m_unique(u.tn)
    &&& m_unique(u.blocked)
    &&& forall|i: int| 0 <= i < u.tn.len() ==> 0 < (#[trigger] u.tn[i]).1 <= TRUST_LEVEL_SCALE
}

impl UserData {
    /// The record's structural invariant.
    pub open spec fn wf(self) -> bool {
        rec_wf(self@)
    }

    /// A fresh, empty record owned by `hashed_id`.
    pub fn new(hashed_id: HashedUserId) -> (r: Self)
        ensures
            r.wf(),
            r.hashed_user_id == hashed_id,
            r@ == (UserDataV {
                id: hashed_id@,
                requested_trust_cost: 0,
                profile: Seq::<char>::empty(),
                tn: Seq::<(Seq<char>, i64)>::empty(),
                blocked: Seq::<(Seq<char>, ())>::empty(),
            }),
    {
        let r = UserData {
            hashed_user_id: hashed_id,
            requested_trust_cost: 0,
            public_profile: String::new(),
            trust_network: Vec::new(),
            blocked_users: Vec::new(),
        };
        proof {
            assert(r@.tn =~= Seq::<(Seq<char>, i64)>::empty());
            assert(r@.blocked =~= Seq::<(Seq<char>, ())>::empty());
        }
        r
    }

    /// The level of the trust edge toward `key`, or `None` where there is none.
    #[verifier::loop_isolation(false)]
    pub fn get_trust_network(&self, key: &str) -> (r: Option<i64>)
        ensures
            r == m_get(self@.tn, key@),
    {
        let n = self.trust_network.len();
        let mut i: usize = 0;
        while i < n
            invariant
                n == self.trust_network.len(),
                i <= n,
                forall|j: int| 0 <= j < i ==> (#[trigger] tn_view(self.trust_network@)[j]).0 != key@,
            decreases n - i,
        {
            proof {
                assert(tn_view(self.trust_network@).len() == self.trust_network@.len());
                assert(tn_view(self.trust_network@)[i as int]
                    == (self.trust_network@[i as int].0@, self.trust_network@[i as int].1));
            }
            if str_eq(self.trust_network[i].0.as_str(), key) {
                proof {
                    lemma_m_get_first_index(self@.tn, key@, i as int);
                }
                return Some(self.trust_network[i].1);
            }
            i += 1;
        }
        proof {
            lemma_m_get_none(self@.tn, key@);
        }
        None
    }

    /// Drop the trust edge toward `key`; a no-op where there is none.
    #[verifier::loop_isolation(false)]
    pub fn remove_trust_network(&mut self, key: &str)
        requires
            old(self).wf(),
        ensures
            final(self).wf(),
            final(self)@ == (UserDataV { tn: m_remove(old(self)@.tn, key@), ..old(self)@ }),
    {
        let ghost tn0 = self@.tn;
        let n = self.trust_network.len();
        let mut i: usize = 0;
        while i < n
            invariant
                n == self.trust_network.len(),
                i <= n,
                *self == *old(self),
                forall|j: int| 0 <= j < i ==> (#[trigger] tn_view(self.trust_network@)[j]).0 != key@,
            decreases n - i,
        {
            proof {
                assert(tn_view(self.trust_network@).len() == self.trust_network@.len());
                assert(tn_view(self.trust_network@)[i as int]
                    == (self.trust_network@[i as int].0@, self.trust_network@[i as int].1));
            }
            if str_eq(self.trust_network[i].0.as_str(), key) {
                proof {
                    lemma_m_remove_at_index(tn0, key@, i as int);
                    lemma_m_remove_unique(tn0, key@);
                    lemma_m_remove_entries(tn0, key@);
                }
                self.trust_network.remove(i);
                proof {
                    assert(tn_view(self.trust_network@) =~= tn0.remove(i as int));
                    assert forall|x: int| 0 <= x < final(self)@.tn.len()
                        implies 0 < (#[trigger] final(self)@.tn[x]).1 <= TRUST_LEVEL_SCALE by {
                        assert(m_entry_in(tn0, m_remove(tn0, key@)[x]));
                    }
                }
                return ;
            }
            i += 1;
        }
        proof {
            lemma_m_get_none(tn0, key@);
            lemma_m_remove_absent(tn0, key@);
        }
    }

    /// Set the trust edge toward `key` to a positive level, replacing any
    /// earlier edge. Levels are millionths; zero never reaches this method,
    /// a zero level means removal instead.
    pub fn insert_trust_network(&mut self, key: String, val: i64)
        requires
            old(self).wf(),
            0 < val <= TRUST_LEVEL_SCALE,
        ensures
            final(self).wf(),
            final(self)@ == (UserDataV { tn: m_put(old(self)@.tn, key@, val), ..old(self)@ }),
    {
        let ghost tn0 = self@.tn;
        self.remove_trust_network(key.as_str());
        let ghost tn1 = self@.tn;
        proof {
            lemma_m_remove_entries(tn0, key@);
        }
        self.trust_network.push((key, val));
        proof {
            assert(tn_view(self.trust_network@) =~= tn1.push((key@, val)));
            lemma_m_put_unique(tn0, key@, val);
            assert forall|x: int| 0 <= x < final(self)@.tn.len()
                implies 0 < (#[trigger] final(self)@.tn[x]).1 <= TRUST_LEVEL_SCALE by {
                if x < final(self)@.tn.len() - 1 {
                    assert(final(self)@.tn[x] == tn1[x]);
                    assert(m_entry_in(tn0, m_remove(tn0, key@)[x]));
                }
            }
        }
    }

    /// An exact copy of the record, field by field.
    #[verifier::loop_isolation(false)]
    pub fn duplicate(&self) -> (r: Self)
        ensures
            r@ == self@,
    {
        let mut tn: Vec<(String, i64)> = Vec::new();
        let n = self.trust_network.len();
        let mut i: usize = 0;
        while i < n
            invariant
                n == self.trust_network.len(),
                i <= n,
                tn@.len() == i,
                forall|j: int| 0 <= j < i ==> tn@[j] == self.trust_network@[j],
            decreases n - i,
        {
            tn.push((self.trust_network[i].0.clone(), self.trust_network[i].1));
            i += 1;
        }
        let mut blk: Vec<String> = Vec::new();
        let m = self.blocked_users.len();
        let mut j: usize = 0;
        while j < m
            invariant
                m == self.blocked_users.len(),
                j <= m,
                blk@.len() == j,
                forall|x: int| 0 <= x < j ==> blk@[x] == self.blocked_users@[x],
            decreases m - j,
        {
            blk.push(self.blocked_users[j].clone());
            j += 1;
        }
        let r = UserData {
            hashed_user_id: self.hashed_user_id.duplicate(),
            requested_trust_cost: self.requested_trust_cost,
            public_profile: self.public_profile.clone(),
            trust_network: tn,
            blocked_users: blk,
        };
        proof {
            assert(r.trust_network@ =~= self.trust_network@);
            assert(r.blocked_users@ =~= self.blocked_users@);
        }
        r
    }

    /// Whether `key` is in the block set.
    #[verifier::loop_isolation(false)]
    pub fn is_blocked(&self, key: &str) -> (r: bool)
        ensures
            r == m_contains(self@.blocked, key@),
    {
        let n = self.blocked_users.len();
        let mut i: usize = 0;
        while i < n
            invariant
                n == self.blocked_users.len(),
                i <= n,
                forall|j: int| 0 <= j < i ==> (#[trigger] blk_view(self.blocked_users@)[j]).0 != key@,
            decreases n - i,
        {
            proof {
                assert(blk_view(self.blocked_users@).len() == self.blocked_users@.len());
                assert(blk_view(self.blocked_users@)[i as int]
                    == (self.blocked_users@[i as int]@, ()));
            }
            if str_eq(self.blocked_users[i].as_str(), key) {
                proof {
                    lemma_m_get_first_index_exists(self@.blocked, key@, i as int);
                }
                return true;
            }
            i += 1;
        }
        proof {
            lemma_m_get_none(self@.blocked, key@);
        }
        false
    }

    /// Add `key` to the block set; idempotent.
    pub fn block_user(&mut self, key: String)
        requires
            old(self).wf(),
        ensures
            final(self).wf(),
            final(self)@ == (UserDataV {
                blocked: m_add(old(self)@.blocked, key@, ()),
                ..old(self)@
            }),
    {
        let ghost blk0 = self@.blocked;
        if self.is_blocked(key.as_str()) {
            return ;
        }
        self.blocked_users.push(key);
        proof {
            assert(blk_view(self.blocked_users@) =~= blk0.push((key@, ())));
            lemma_m_add_unique(blk0, key@, ());
        }
    }

    /// Take `key` out of the block set; a no-op where it is absent.
    #[verifier::loop_isolation(false)]
    pub fn unblock_user(&mut self, key: &str)
        requires
            old(self).wf(),
        ensures
            final(self).wf(),
            final(self)@ == (UserDataV { blocked: m_remove(old(self)@.blocked, key@), ..old(self)@ }),
    {
        let ghost blk0 = self@.blocked;
        let n = self.blocked_users.len();
        let mut i: usize = 0;
        while i < n
            invariant
                n == self.blocked_users.len(),
                i <= n,
                *self == *old(self),
                forall|j: int| 0 <= j < i ==> (#[trigger] blk_view(self.blocked_users@)[j]).0 != key@,
            decreases n - i,
        {
            proof {
                assert(blk_view(self.blocked_users@).len() == self.blocked_users@.len());
                assert(blk_view(self.blocked_users@)[i as int]
                    == (self.blocked_users@[i as int]@, ()));
            }
            if str_eq(self.blocked_users[i].as_str(), key) {
                proof {
                    lemma_m_remove_at_index(blk0, key@, i as int);
                    lemma_m_remove_unique(blk0, key@);
                }
                self.blocked_users.remove(i);
                proof {
                    assert(blk_view(self.blocked_users@) =~= blk0.remove(i as int));
                }
                return ;
            }
            i += 1;
        }
        proof {
            lemma_m_get_none(blk0, key@);
            lemma_m_remove_absent(blk0, key@);
        }
    }
}

} // verus!
