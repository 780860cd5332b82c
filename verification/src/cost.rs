use vstd::prelude::*;
use vstd::string::StrSliceExecFns;
use crate::assoc::{m_contains, m_get, m_remove};
use crate::record::{blk_view, tn_view, UserData, UserDataV};

verus! {

// ---------------------------------------------------------------------------
// The storage cost model: a conservative byte estimate of a record. Each
// trust edge is charged its key plus 4 (the level payload), each block entry
// its key plus 16 (an accounting unit), and every record a flat 256 for
// bookkeeping. Key and profile sizes are counted in characters. The same
// constants serve billing and refunds, so no-op edits never change the
// measure.
// ---------------------------------------------------------------------------

/// The summed size of keyed entries, each charged its key length plus a
/// fixed per-entry overhead.
pub open spec fn entries_size<V>(s: Seq<(Seq<char>, V)>, per_entry: int) -> int
    decreases s.len(),
{
    if s.len() == 0 {
        0
    } else {
        s.first().0.len() + per_entry + entries_size(s.drop_first(), per_entry)
    }
}

/// The measured storage size of a whole record.
pub open spec fn spec_measure(u: UserDataV) -> int {
    u.id.len() + u.profile.len() + entries_size(u.tn, 4) + entries_size(u.blocked, 16) + 256
}

pub proof fn lemma_entries_size_nonneg<V>(s: Seq<(Seq<char>, V)>, per_entry: int)
    requires
        per_entry >= 0,
    ensures
        entries_size(s, per_entry) >= 0,
    decreases s.len(),
{
    if s.len() > 0 {
        lemma_entries_size_nonneg(s.drop_first(), per_entry);
    }
}

pub proof fn lemma_entries_size_concat<V>(
    a: Seq<(Seq<char>, V)>,
    b: Seq<(Seq<char>, V)>,
    per_entry: int,
)
    ensures
        entries_size(a + b, per_entry) == entries_size(a, per_entry) + entries_size(b, per_entry),
    decreases a.len(),
{
    if a.len() == 0 {
        assert(a + b =~= b);
    } else {
        assert((a + b).first() == a.first());
        assert((a + b).drop_first() =~= a.drop_first() + b);
        lemma_entries_size_concat(a.drop_first(), b, per_entry);
    }
}

pub proof fn lemma_entries_size_push<V>(s: Seq<(Seq<char>, V)>, p: (Seq<char>, V), per_entry: int)
    ensures
        entries_size(s.push(p), per_entry) == entries_size(s, per_entry) + p.0.len() + per_entry,
{
    assert(s.push(p) =~= s + seq![p]);
    lemma_entries_size_concat(s, seq![p], per_entry);
    assert(seq![p].drop_first() =~= Seq::<(Seq<char>, V)>::empty());
    assert(entries_size(Seq::<(Seq<char>, V)>::empty(), per_entry) == 0);
}

/// Taking one more entry into a prefix adds exactly that entry's charge.
pub proof fn lemma_entries_size_take_succ<V>(s: Seq<(Seq<char>, V)>, per_entry: int, i: int)
    requires
        0 <= i < s.len(),
    ensures
        entries_size(s.take(i + 1), per_entry)
            == entries_size(s.take(i), per_entry) + s[i].0.len() + per_entry,
{
    assert(s.take(i + 1) =~= s.take(i).push(s[i]));
    lemma_entries_size_push(s.take(i), s[i], per_entry);
}

/// A prefix never outweighs the whole.
pub proof fn lemma_entries_size_take_le<V>(s: Seq<(Seq<char>, V)>, per_entry: int, i: int)
    requires
        per_entry >= 0,
        0 <= i <= s.len(),
    ensures
        entries_size(s.take(i), per_entry) <= entries_size(s, per_entry),
{
    assert(s =~= s.take(i) + s.skip(i));
    lemma_entries_size_concat(s.take(i), s.skip(i), per_entry);
    lemma_entries_size_nonneg(s.skip(i), per_entry);
}

/// Removing a present key lightens the sum by exactly that entry's charge.
pub proof fn lemma_entries_size_remove<V>(s: Seq<(Seq<char>, V)>, k: Seq<char>, per_entry: int)
    ensures
        entries_size(m_remove(s, k), per_entry) == entries_size(s, per_entry) - (
        if m_contains(s, k) {
            k.len() + per_entry
        } else {
            0
        }),
    decreases s.len(),
{
    if s.len() == 0 {
    } else if s.first().0 == k {
    } else {
        lemma_entries_size_remove(s.drop_first(), k, per_entry);
        lemma_entries_size_concat(seq![s.first()], m_remove(s.drop_first(), k), per_entry);
        assert(seq![s.first()].drop_first() =~= Seq::<(Seq<char>, V)>::empty());
        assert(entries_size(Seq::<(Seq<char>, V)>::empty(), per_entry) == 0);
        assert(m_get(s, k) == m_get(s.drop_first(), k));
    }
}

/// Measure a record: identity key, profile text, both sub-collections, and
/// the flat overhead, exactly as `spec_measure` states it.
#[verifier::loop_isolation(false)]
pub fn measure_storage_usage(user: &UserData) -> (r: u64)
    requires
        spec_measure(user@) <= u64::MAX,
    ensures
        r == spec_measure(user@),
{
    proof {
        lemma_entries_size_nonneg(user@.tn, 4);
        lemma_entries_size_nonneg(user@.blocked, 16);
    }
    let mut total: u64 = user.hashed_user_id.len() as u64;
    total = total + user.public_profile.as_str().unicode_len() as u64;

    let ghost tn = user@.tn;
    let n = user.trust_network.len();
    let mut i: usize = 0;
    proof {
        assert(tn.take(0) =~= Seq::<(Seq<char>, i64)>::empty());
    }
    while i < n
        invariant
            n == user.trust_network.len(),
            i <= n,
            total == user@.id.len() + user@.profile.len() + entries_size(tn.take(i as int), 4),
        decreases n - i,
    {
        proof {
            assert(tn[i as int] == (user.trust_network@[i as int].0@, user.trust_network@[i as int].1));
            lemma_entries_size_take_succ(tn, 4, i as int);
            lemma_entries_size_take_le(tn, 4, i as int + 1);
        }
        total = total + user.trust_network[i].0.as_str().unicode_len() as u64 + 4;
        i += 1;
    }
    proof {
        assert(tn.take(n as int) =~= tn);
    }

    let ghost blk = user@.blocked;
    let m = user.blocked_users.len();
    let mut j: usize = 0;
    proof {
        assert(blk.take(0) =~= Seq::<(Seq<char>, ())>::empty());
    }
    while j < m
        invariant
            m == user.blocked_users.len(),
            j <= m,
            total == user@.id.len() + user@.profile.len() + entries_size(tn, 4)
                + entries_size(blk.take(j as int), 16),
        decreases m - j,
    {
        proof {
            assert(blk[j as int] == (user.blocked_users@[j as int]@, ()));
            lemma_entries_size_take_succ(blk, 16, j as int);
            lemma_entries_size_take_le(blk, 16, j as int + 1);
        }
        total = total + user.blocked_users[j].as_str().unicode_len() as u64 + 16;
        j += 1;
    }
    proof {
        assert(blk.take(m as int) =~= blk);
    }

    total + 256
}

} // verus!
