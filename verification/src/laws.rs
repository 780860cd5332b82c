use vstd::prelude::*;
use crate::assoc::{
    m_add, m_put, m_contains, m_get, m_remove, m_unique, lemma_m_add_get, lemma_m_get_after_remove_same,
    lemma_m_get_is_entry, lemma_m_get_other_after_remove, lemma_m_put_get, lemma_m_put_unique,
    lemma_m_remove_absent,
};
use crate::contract::{
    block_edited, committed, deposit_of, record_or_new, shortfall, trust_edited, unblock_edited,
    untrusted_toward, users_wf, ContractV,
};
use crate::cost::{lemma_entries_size_push, lemma_entries_size_remove, spec_measure};
use crate::record::{rec_wf, UserDataV, TRUST_LEVEL_SCALE};

verus! {

// ---------------------------------------------------------------------------
// The library's laws: what always holds of trust edits, blocking, the cost
// model and deletion, stated over the same models the executable functions'
// contracts use, and proved from them.
// ---------------------------------------------------------------------------

/// Setting a trust edge and then reading it back yields exactly the level
/// that was set — except level zero, which makes the edge absent. Every
/// other edge keeps its old reading.
pub proof fn law_set_trust_then_get(u: UserDataV, p: Seq<char>, level: i64)
    requires
        rec_wf(u),
        0 <= level <= TRUST_LEVEL_SCALE,
    ensures
        m_get(trust_edited(u, p, level).tn, p) == (if level == 0 {
            Option::<i64>::None
        } else {
            Option::<i64>::Some(level)
        }),
        forall|q: Seq<char>|
            q != p ==> m_get(trust_edited(u, p, level).tn, q) == m_get(u.tn, q),
{
    if level == 0 {
        lemma_m_get_after_remove_same(u.tn, p);
    } else {
        lemma_m_put_get(u.tn, p, level, p);
    }
    assert forall|q: Seq<char>| q != p
        implies m_get(trust_edited(u, p, level).tn, q) == m_get(u.tn, q) by {
        if level == 0 {
            lemma_m_get_other_after_remove(u.tn, p, q);
        } else {
            lemma_m_put_get(u.tn, p, level, q);
        }
    }
}

/// Blocking is idempotent: blocking a peer twice leaves exactly the same
/// block set as blocking it once, and the peer is a member afterwards.
pub proof fn law_block_idempotent(u: UserDataV, p: Seq<char>)
    ensures
        m_add(m_add(u.blocked, p, ()), p, ()) == m_add(u.blocked, p, ()),
        m_contains(m_add(u.blocked, p, ()), p),
{
    lemma_m_add_get(u.blocked, p, (), p);
}

/// Unblocking a peer that is not blocked changes nothing at all about the
/// record; the operation itself never reports an error for that reason.
pub proof fn law_unblock_absent_noop(u: UserDataV, p: Seq<char>)
    requires
        !m_contains(u.blocked, p),
    ensures
        unblock_edited(u, p) == u,
{
    lemma_m_remove_absent(u.blocked, p);
}

/// Unblocking can never fail for want of funds: wherever the caller's escrow
/// already covers the record (the ledger invariant every commit restores),
/// the record only shrinks — or stays — under an unblock, so the shortfall
/// is never positive, whatever is attached.
pub proof fn law_unblock_never_fails(
    pre: ContractV,
    cid: Seq<char>,
    oid: Seq<char>,
    cost_per_byte: u128,
    attached: u128,
)
    requires
        m_contains(pre.users, cid),
        deposit_of(pre.deposits, cid)
            >= spec_measure(record_or_new(pre.users, cid)) * cost_per_byte,
    ensures
        shortfall(
            pre,
            cid,
            unblock_edited(record_or_new(pre.users, cid), oid),
            cost_per_byte,
            attached,
        ) <= 0,
{
    let rec = record_or_new(pre.users, cid);
    let nr = unblock_edited(rec, oid);
    lemma_entries_size_remove(rec.blocked, oid, 16);
    assert(spec_measure(nr) <= spec_measure(rec));
    vstd::arithmetic::mul::lemma_mul_inequality(
        spec_measure(nr),
        spec_measure(rec),
        cost_per_byte as int,
    );
}

/// When `a` blocks `b` and the block commits, `b`'s stored record no longer
/// holds a trust edge toward `a`: the side update removed it.
pub proof fn law_block_removes_reverse_trust(
    pre: ContractV,
    post: ContractV,
    a: Seq<char>,
    b: Seq<char>,
    nr: UserDataV,
    t: UserDataV,
)
    requires
        users_wf(pre.users),
        a != b,
        m_get(pre.users, b) == Some(t),
        nr == block_edited(record_or_new(pre.users, a), a, b),
        post.users == m_put(m_put(pre.users, a, nr), b,
            untrusted_toward(t, a)),
    ensures
        match m_get(post.users, b) {
            Some(brec) => !m_contains(brec.tn, a),
            None => false,
        },
{
    lemma_m_put_unique(pre.users, a, nr);
    lemma_m_put_get(m_put(pre.users, a, nr), b, untrusted_toward(t, a), b);
    lemma_m_get_is_entry(pre.users, b, t);
    let j = choose|j: int| 0 <= j < pre.users.len() && pre.users[j] == (b, t);
    assert(rec_wf(pre.users[j].1));
    lemma_m_get_after_remove_same(t.tn, a);
}

/// When `a` blocks `b` and the block commits, `a`'s stored record holds `b`
/// in its block set — which is exactly the condition under which a later
/// trust call by `b` toward `a` is refused with a permission error.
pub proof fn law_block_then_trust_denied(
    pre: ContractV,
    post: ContractV,
    a: Seq<char>,
    b: Seq<char>,
    nr: UserDataV,
)
    requires
        users_wf(pre.users),
        a != b,
        nr == block_edited(record_or_new(pre.users, a), a, b),
        match m_get(pre.users, b) {
            Some(t) => post.users == m_put(m_put(pre.users, a, nr),
                b, untrusted_toward(t, a)),
            None => post.users == m_put(pre.users, a, nr),
        },
    ensures
        match m_get(post.users, a) {
            Some(arec) => m_contains(arec.blocked, b),
            None => false,
        },
{
    lemma_m_put_get(pre.users, a, nr, a);
    lemma_m_add_get(record_or_new(pre.users, a).blocked, b, (), b);
    if m_get(pre.users, b) is Some {
        lemma_m_put_unique(pre.users, a, nr);
        let t = choose|t: UserDataV| m_get(pre.users, b) == Some(t);
        lemma_m_put_get(m_put(pre.users, a, nr), b, untrusted_toward(t, a), a);
    }
}

/// The cost model is stable under a no-op round trip: removing a stored
/// trust edge and re-adding it at the same level leaves the measured size
/// exactly as it was.
pub proof fn law_measure_roundtrip(u: UserDataV, p: Seq<char>, level: i64)
    requires
        rec_wf(u),
        m_get(u.tn, p) == Some(level),
    ensures
        spec_measure(trust_edited(trust_edited(u, p, 0), p, level)) == spec_measure(u),
{
    lemma_m_get_is_entry(u.tn, p, level);
    let j = choose|j: int| 0 <= j < u.tn.len() && u.tn[j] == (p, level);
    assert(0 < u.tn[j].1);
    let tn1 = m_remove(u.tn, p);
    lemma_entries_size_remove(u.tn, p, 4);
    lemma_m_get_after_remove_same(u.tn, p);
    lemma_m_remove_absent(tn1, p);
    lemma_entries_size_push(tn1, (p, level), 4);
}

/// Every committed mutation restores the funding invariant for its caller:
/// afterwards the stored record is exactly the edited one and the escrow
/// held for it is exactly the record's measured cost.
pub proof fn law_commit_fully_funds_record(
    pre: ContractV,
    post: ContractV,
    cid: Seq<char>,
    nr: UserDataV,
    cost_per_byte: u128,
    attached: u128,
    refund: u128,
)
    requires
        m_unique(pre.users),
        m_unique(pre.deposits),
        committed(pre, post, cid, nr, cost_per_byte, attached, refund),
    ensures
        m_get(post.users, cid) == Some(nr),
        deposit_of(post.deposits, cid) == (spec_measure(nr) * cost_per_byte) as u128,
{
    lemma_m_put_get(pre.users, cid, nr, cid);
    lemma_m_put_get(pre.deposits, cid, (spec_measure(nr) * cost_per_byte) as u128, cid);
}

/// Deleting an account purges its record, so deleting it again finds
/// nothing: the second call must report that the record is gone.
pub proof fn law_delete_twice_not_found(users: Seq<(Seq<char>, UserDataV)>, cid: Seq<char>)
    requires
        m_unique(users),
    ensures
        !m_contains(m_remove(users, cid), cid),
{
    lemma_m_get_after_remove_same(users, cid);
}

} // verus!
