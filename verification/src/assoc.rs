use vstd::prelude::*;

verus! {

// ---------------------------------------------------------------------------
// A mathematical model for the library's keyed collections: a sequence of
// (key, value) pairs read as an association list whose first match wins.
// Every collection of the library keeps its keys unique, so the first match
// is also the only one.
// ---------------------------------------------------------------------------

/// No two entries share a key.
pub open spec fn m_unique<V>(s: Seq<(Seq<char>, V)>) -> bool {
    forall|i: int, j: int| 0 <= i < j < s.len() ==> s[i].0 != s[j].0
}

/// The value stored under `k`, if any: the first entry whose key is `k`.
pub open spec fn m_get<V>(s: Seq<(Seq<char>, V)>, k: Seq<char>) -> Option<V>
    decreases s.len(),
{
    if s.len() == 0 {
        None
    } else if s.first().0 == k {
        Some(s.first().1)
    } else {
        m_get(s.drop_first(), k)
    }
}

/// Whether some entry has key `k`.
pub open spec fn m_contains<V>(s: Seq<(Seq<char>, V)>, k: Seq<char>) -> bool {
    m_get(s, k) is Some
}

/// The list with the first entry keyed `k` taken out; unchanged if there is none.
pub open spec fn m_remove<V>(s: Seq<(Seq<char>, V)>, k: Seq<char>) -> Seq<(Seq<char>, V)>
    decreases s.len(),
{
    if s.len() == 0 {
        s
    } else if s.first().0 == k {
        s.drop_first()
    } else {
        seq![s.first()] + m_remove(s.drop_first(), k)
    }
}

/// Bind `k` to `v`: any old entry for `k` leaves, the new pair joins at the end.
pub open spec fn m_put<V>(s: Seq<(Seq<char>, V)>, k: Seq<char>, v: V) -> Seq<(Seq<char>, V)> {
    m_remove(s, k).push((k, v))
}

/// Bind `k` to `v` only if `k` is absent; an existing binding is left alone.
pub open spec fn m_add<V>(s: Seq<(Seq<char>, V)>, k: Seq<char>, v: V) -> Seq<(Seq<char>, V)> {
    if m_contains(s, k) {
        s
    } else {
        s.push((k, v))
    }
}

/// `e` is one of the entries of `s`.
pub open spec fn m_entry_in<V>(s: Seq<(Seq<char>, V)>, e: (Seq<char>, V)) -> bool {
    exists|j: int| 0 <= j < s.len() && s[j] == e
}

pub proof fn lemma_m_get_none<V>(s: Seq<(Seq<char>, V)>, k: Seq<char>)
    requires
        forall|i: int| 0 <= i < s.len() ==> s[i].0 != k,
    ensures
        m_get(s, k) is None,
    decreases s.len(),
{
    if s.len() > 0 {
        assert(s[0].0 != k);
        assert(forall|i: int| 0 <= i < s.drop_first().len() ==> s.drop_first()[i] == s[i + 1]);
        lemma_m_get_none(s.drop_first(), k);
    }
}

pub proof fn lemma_m_get_first_index<V>(s: Seq<(Seq<char>, V)>, k: Seq<char>, i: int)
    requires
        0 <= i < s.len(),
        s[i].0 == k,
        forall|j: int| 0 <= j < i ==> s[j].0 != k,
    ensures
        m_get(s, k) == Some(s[i].1),
    decreases s.len(),
{
    if i == 0 {
        assert(s.first() == s[0]);
    } else {
        assert(s.first().0 != k);
        assert(forall|j: int| 0 <= j < s.drop_first().len() ==> s.drop_first()[j] == s[j + 1]);
        lemma_m_get_first_index(s.drop_first(), k, i - 1);
    }
}

pub proof fn lemma_m_remove_at_index<V>(s: Seq<(Seq<char>, V)>, k: Seq<char>, i: int)
    requires
        0 <= i < s.len(),
        s[i].0 == k,
        forall|j: int| 0 <= j < i ==> s[j].0 != k,
    ensures
        m_remove(s, k) == s.remove(i),
    decreases s.len(),
{
    if i == 0 {
        assert(s.first() == s[0]);
        assert(m_remove(s, k) =~= s.remove(0));
    } else {
        assert(s.first().0 != k);
        assert(forall|j: int| 0 <= j < s.drop_first().len() ==> s.drop_first()[j] == s[j + 1]);
        lemma_m_remove_at_index(s.drop_first(), k, i - 1);
        assert(m_remove(s, k) == seq![s.first()] + s.drop_first().remove(i - 1));
        assert(m_remove(s, k) =~= s.remove(i));
    }
}

pub proof fn lemma_m_remove_absent<V>(s: Seq<(Seq<char>, V)>, k: Seq<char>)
    requires
        !m_contains(s, k),
    ensures
        m_remove(s, k) == s,
    decreases s.len(),
{
    if s.len() == 0 {
        assert(m_remove(s, k) =~= s);
    } else {
        assert(s.first().0 != k);
        lemma_m_remove_absent(s.drop_first(), k);
        assert(m_remove(s, k) =~= s);
    }
}

pub proof fn lemma_m_get_other_after_remove<V>(s: Seq<(Seq<char>, V)>, k: Seq<char>, k2: Seq<char>)
    requires
        k2 != k,
    ensures
        m_get(m_remove(s, k), k2) == m_get(s, k2),
    decreases s.len(),
{
    if s.len() == 0 {
    } else if s.first().0 == k {
        assert(s.first().0 != k2);
    } else {
        lemma_m_get_other_after_remove(s.drop_first(), k, k2);
        let r = seq![s.first()] + m_remove(s.drop_first(), k);
        assert(r.first() == s.first());
        assert(r.drop_first() =~= m_remove(s.drop_first(), k));
    }
}

pub proof fn lemma_m_remove_entries<V>(s: Seq<(Seq<char>, V)>, k: Seq<char>)
    ensures
        forall|i: int| 0 <= i < m_remove(s, k).len()
            ==> m_entry_in(s, #[trigger] m_remove(s, k)[i]),
    decreases s.len(),
{
    if s.len() == 0 {
    } else if s.first().0 == k {
        assert forall|i: int| 0 <= i < m_remove(s, k).len()
            implies m_entry_in(s, #[trigger] m_remove(s, k)[i]) by {
            assert(m_remove(s, k)[i] == s[i + 1]);
        }
    } else {
        lemma_m_remove_entries(s.drop_first(), k);
        let r = seq![s.first()] + m_remove(s.drop_first(), k);
        assert forall|i: int| 0 <= i < r.len() implies m_entry_in(s, #[trigger] r[i]) by {
            if i == 0 {
                assert(r[0] == s[0]);
            } else {
                assert(r[i] == m_remove(s.drop_first(), k)[i - 1]);
                assert(m_entry_in(s.drop_first(), m_remove(s.drop_first(), k)[i - 1]));
                let j = choose|j: int|
                    0 <= j < s.drop_first().len()
                        && s.drop_first()[j] == m_remove(s.drop_first(), k)[i - 1];
                assert(s[j + 1] == r[i]);
            }
        }
    }
}

pub proof fn lemma_m_remove_unique<V>(s: Seq<(Seq<char>, V)>, k: Seq<char>)
    requires
        m_unique(s),
    ensures
        m_unique(m_remove(s, k)),
    decreases s.len(),
{
    if s.len() == 0 {
    } else if s.first().0 == k {
        assert(forall|i: int| 0 <= i < s.drop_first().len() ==> s.drop_first()[i] == s[i + 1]);
    } else {
        assert(forall|i: int| 0 <= i < s.drop_first().len() ==> s.drop_first()[i] == s[i + 1]);
        lemma_m_remove_unique(s.drop_first(), k);
        lemma_m_remove_entries(s.drop_first(), k);
        let r = seq![s.first()] + m_remove(s.drop_first(), k);
        assert forall|i: int, j: int| 0 <= i < j < r.len() implies r[i].0 != r[j].0 by {
            if i == 0 {
                assert(r[j] == m_remove(s.drop_first(), k)[j - 1]);
                assert(m_entry_in(s.drop_first(), m_remove(s.drop_first(), k)[j - 1]));
                let j2 = choose|j2: int|
                    0 <= j2 < s.drop_first().len()
                        && s.drop_first()[j2] == m_remove(s.drop_first(), k)[j - 1];
                assert(s[0].0 != s[j2 + 1].0);
            } else {
                assert(r[i] == m_remove(s.drop_first(), k)[i - 1]);
                assert(r[j] == m_remove(s.drop_first(), k)[j - 1]);
            }
        }
    }
}

pub proof fn lemma_m_get_after_remove_same<V>(s: Seq<(Seq<char>, V)>, k: Seq<char>)
    requires
        m_unique(s),
    ensures
        !m_contains(m_remove(s, k), k),
    decreases s.len(),
{
    if s.len() == 0 {
    } else if s.first().0 == k {
        assert forall|i: int| 0 <= i < s.drop_first().len()
            implies #[trigger] s.drop_first()[i].0 != k by {
            assert(s.drop_first()[i] == s[i + 1]);
            assert(s[0].0 != s[i + 1].0);
        }
        lemma_m_get_none(s.drop_first(), k);
    } else {
        assert(forall|i: int| 0 <= i < s.drop_first().len() ==> s.drop_first()[i] == s[i + 1]);
        lemma_m_get_after_remove_same(s.drop_first(), k);
        let r = seq![s.first()] + m_remove(s.drop_first(), k);
        assert(r.first() == s.first());
        assert(r.drop_first() =~= m_remove(s.drop_first(), k));
    }
}

pub proof fn lemma_m_get_push<V>(s: Seq<(Seq<char>, V)>, p: (Seq<char>, V), k2: Seq<char>)
    ensures
        m_get(s.push(p), k2) == (if m_get(s, k2) is Some {
            m_get(s, k2)
        } else if p.0 == k2 {
            Some(p.1)
        } else {
            None
        }),
    decreases s.len(),
{
    if s.len() == 0 {
        assert(s.push(p).first() == p);
        assert(s.push(p).drop_first() =~= Seq::<(Seq<char>, V)>::empty());
        assert(m_get(Seq::<(Seq<char>, V)>::empty(), k2) is None);
        assert(m_get(s, k2) is None);
    } else {
        assert(s.push(p).first() == s.first());
        assert(s.push(p).drop_first() =~= s.drop_first().push(p));
        lemma_m_get_push(s.drop_first(), p, k2);
        if s.first().0 == k2 {
            assert(m_get(s.push(p), k2) == Some(s.first().1));
            assert(m_get(s, k2) == Some(s.first().1));
        } else {
            assert(m_get(s.push(p), k2) == m_get(s.drop_first().push(p), k2));
            assert(m_get(s, k2) == m_get(s.drop_first(), k2));
        }
    }
}

/// The full story of a `m_put`: what `m_get` yields afterwards, for every key.
pub proof fn lemma_m_put_get<V>(s: Seq<(Seq<char>, V)>, k: Seq<char>, v: V, k2: Seq<char>)
    requires
        m_unique(s),
    ensures
        m_get(m_put(s, k, v), k2) == (if k2 == k {
            Some(v)
        } else {
            m_get(s, k2)
        }),
{
    lemma_m_get_after_remove_same(s, k);
    lemma_m_get_push(m_remove(s, k), (k, v), k2);
    if k2 != k {
        lemma_m_get_other_after_remove(s, k, k2);
    }
}

/// `m_put` keeps keys unique.
pub proof fn lemma_m_put_unique<V>(s: Seq<(Seq<char>, V)>, k: Seq<char>, v: V)
    requires
        m_unique(s),
    ensures
        m_unique(m_put(s, k, v)),
{
    lemma_m_remove_unique(s, k);
    lemma_m_get_after_remove_same(s, k);
    let r = m_remove(s, k);
    assert forall|i: int| 0 <= i < r.len() implies #[trigger] r[i].0 != k by {
        if r[i].0 == k {
            lemma_m_get_first_index_exists(r, k, i);
        }
    }
    let p = r.push((k, v));
    assert(forall|i: int| 0 <= i < r.len() ==> p[i] == r[i]);
    assert(p[r.len() as int] == (k, v));
}

/// The full story of a `m_add`: what `m_get` yields afterwards, for every key.
pub proof fn lemma_m_add_get<V>(s: Seq<(Seq<char>, V)>, k: Seq<char>, v: V, k2: Seq<char>)
    ensures
        m_get(m_add(s, k, v), k2) == (if k2 == k {
            if m_contains(s, k) {
                m_get(s, k)
            } else {
                Some(v)
            }
        } else {
            m_get(s, k2)
        }),
{
    if !m_contains(s, k) {
        lemma_m_get_push(s, (k, v), k2);
    }
}

/// A key that `m_get` does not find stands at no index at all.
pub proof fn lemma_m_not_contains_indices<V>(s: Seq<(Seq<char>, V)>, k: Seq<char>)
    requires
        !m_contains(s, k),
    ensures
        forall|i: int| 0 <= i < s.len() ==> (#[trigger] s[i]).0 != k,
{
    assert forall|i: int| 0 <= i < s.len() implies (#[trigger] s[i]).0 != k by {
        if s[i].0 == k {
            lemma_m_get_first_index_exists(s, k, i);
        }
    }
}

/// `m_add` keeps keys unique.
pub proof fn lemma_m_add_unique<V>(s: Seq<(Seq<char>, V)>, k: Seq<char>, v: V)
    requires
        m_unique(s),
    ensures
        m_unique(m_add(s, k, v)),
{
    if !m_contains(s, k) {
        lemma_m_not_contains_indices(s, k);
        let p = s.push((k, v));
        assert(forall|i: int| 0 <= i < s.len() ==> p[i] == s[i]);
        assert(p[s.len() as int] == (k, v));
    }
}

/// What `m_get` finds really is one of the entries.
pub proof fn lemma_m_get_is_entry<V>(s: Seq<(Seq<char>, V)>, k: Seq<char>, v: V)
    requires
        m_get(s, k) == Some(v),
    ensures
        m_entry_in(s, (k, v)),
    decreases s.len(),
{
    if s.first().0 == k {
        assert(s[0] == (k, v));
    } else {
        lemma_m_get_is_entry(s.drop_first(), k, v);
        let j = choose|j: int| 0 <= j < s.drop_first().len() && s.drop_first()[j] == (k, v);
        assert(s[j + 1] == (k, v));
    }
}

/// If some entry at `i` has key `k`, then `m_get(s, k)` finds an entry.
pub proof fn lemma_m_get_first_index_exists<V>(s: Seq<(Seq<char>, V)>, k: Seq<char>, i: int)
    requires
        0 <= i < s.len(),
        s[i].0 == k,
    ensures
        m_contains(s, k),
    decreases s.len(),
{
    if s.first().0 != k {
        assert(s.drop_first()[i - 1] == s[i]);
        lemma_m_get_first_index_exists(s.drop_first(), k, i - 1);
    }
}

} // verus!
