//! Sums over the entries of an id-keyed map, and how they change when one
//! entry is added, replaced or removed.
use crate::maps::{id_map_of, ids_sorted, lemma_id_map_at, lemma_id_map_has};
use vstd::prelude::*;

verus! {

/// The sum of `f` over the values of `s`.
pub open spec fn sum_values<V>(s: Seq<(u32, V)>, f: spec_fn(V) -> int) -> int
    decreases s.len(),
{
    if s.len() == 0 {
        0
    } else {
        sum_values(s.drop_last(), f) + f(s.last().1)
    }
}

/// `s` with the entry `(k, v)` placed where its key belongs.
pub open spec fn insert_entry<V>(s: Seq<(u32, V)>, k: u32, v: V) -> Seq<(u32, V)>
    decreases s.len(),
{
    if s.len() == 0 || s.last().0 < k {
        s.push((k, v))
    } else {
        insert_entry(s.drop_last(), k, v).push(s.last())
    }
}

/// The last entry of a sorted sequence holds its largest key, and without
/// it the sequence stands for the map without that key.
pub proof fn lemma_id_map_drop_last<V>(s: Seq<(u32, V)>)
    requires
        ids_sorted(s),
        s.len() > 0,
    ensures
        ids_sorted(s.drop_last()),
        id_map_of(s).contains_key(s.last().0),
        id_map_of(s)[s.last().0] == s.last().1,
        id_map_of(s.drop_last()) == id_map_of(s).remove(s.last().0),
        forall|k: u32| #[trigger] id_map_of(s).contains_key(k) ==> k <= s.last().0,
{
    let n = s.len() - 1;
    let d = s.drop_last();
    let lk = s.last().0;
    lemma_id_map_at(s, n);
    assert forall|k: u32| #[trigger] id_map_of(s).contains_key(k) implies k <= lk by {
        lemma_id_map_has(s, k);
        let i = crate::maps::id_pos(s, k);
        if i < n {
            assert(s[i].0 < s[n].0);
        }
    }
    assert forall|k: u32| #[trigger] id_map_of(d).contains_key(k) implies id_map_of(s).contains_key(k) && k != lk
        && id_map_of(d)[k] == id_map_of(s)[k] by {
        lemma_id_map_has(d, k);
        let i = crate::maps::id_pos(d, k);
        assert(d[i] == s[i]);
        assert(s[i].0 < s[n].0);
        lemma_id_map_at(s, i);
    }
    assert forall|k: u32| #[trigger] id_map_of(s).contains_key(k) && k != lk implies id_map_of(d).contains_key(k) by {
        lemma_id_map_has(s, k);
        let i = crate::maps::id_pos(s, k);
        assert(i != n);
        assert(d[i] == s[i]);
        lemma_id_map_at(d, i);
    }
    assert(id_map_of(d) =~= id_map_of(s).remove(lk));
}

/// A sorted entry sequence is determined by the map it stands for.
pub proof fn lemma_sorted_unique<V>(s: Seq<(u32, V)>, t: Seq<(u32, V)>)
    requires
        ids_sorted(s),
        ids_sorted(t),
        id_map_of(s) == id_map_of(t),
    ensures
        s == t,
    decreases s.len(),
{
    if s.len() == 0 || t.len() == 0 {
        if t.len() > 0 {
            lemma_id_map_at(t, 0);
            assert(!crate::maps::id_present(s, t[0].0));
        }
        if s.len() > 0 {
            lemma_id_map_at(s, 0);
            assert(!crate::maps::id_present(t, s[0].0));
        }
        assert(s =~= t);
    } else {
        lemma_id_map_drop_last(s);
        lemma_id_map_drop_last(t);
        assert(s.last().0 <= t.last().0);
        assert(t.last().0 <= s.last().0);
        lemma_sorted_unique(s.drop_last(), t.drop_last());
        assert(s =~= s.drop_last().push(s.last()));
        assert(t =~= t.drop_last().push(t.last()));
    }
}

/// Placing a new entry keeps the sequence sorted, stands for the map with
/// that entry, and adds the entry's value to every sum.
pub proof fn lemma_insert_entry<V>(s: Seq<(u32, V)>, k: u32, v: V, f: spec_fn(V) -> int)
    requires
        ids_sorted(s),
        !id_map_of(s).contains_key(k),
    ensures
        ids_sorted(insert_entry(s, k, v)),
        insert_entry(s, k, v).len() == s.len() + 1,
        id_map_of(insert_entry(s, k, v)) == id_map_of(s).insert(k, v),
        sum_values(insert_entry(s, k, v), f) == sum_values(s, f) + f(v),
    decreases s.len(),
{
    let r = insert_entry(s, k, v);
    if s.len() == 0 || s.last().0 < k {
        assert(r == s.push((k, v)));
        if s.len() > 0 {
            lemma_id_map_drop_last(s);
        }
        assert(ids_sorted(r)) by {
            assert forall|i: int, j: int| 0 <= i < j < r.len() implies r[i].0 < r[j].0 by {
                if j == r.len() - 1 && i < s.len() {
                    lemma_id_map_at(s, i);
                }
            }
        }
        lemma_id_map_drop_last(r);
        assert(r.drop_last() =~= s);
        assert(id_map_of(r) =~= id_map_of(s).insert(k, v));
        assert(sum_values(r, f) == sum_values(r.drop_last(), f) + f(v));
    } else {
        let d = s.drop_last();
        let last = s.last();
        lemma_id_map_drop_last(s);
        assert(last.0 != k);
        assert(!id_map_of(d).contains_key(k));
        lemma_insert_entry(d, k, v, f);
        let r1 = insert_entry(d, k, v);
        assert(r == r1.push(last));
        assert(ids_sorted(r)) by {
            assert forall|i: int, j: int| 0 <= i < j < r.len() implies r[i].0 < r[j].0 by {
                if j == r.len() - 1 {
                    assert(r[i] == r1[i]);
                    lemma_id_map_at(r1, i);
                    if r1[i].0 != k {
                        assert(id_map_of(d).contains_key(r1[i].0));
                    }
                } else {
                    assert(r[i] == r1[i] && r[j] == r1[j]);
                }
            }
        }
        lemma_id_map_drop_last(r);
        assert(r.drop_last() =~= r1);
        assert(id_map_of(r) =~= id_map_of(r1).insert(last.0, last.1));
        assert(id_map_of(s) =~= id_map_of(d).insert(last.0, last.1));
        assert(id_map_of(r) =~= id_map_of(s).insert(k, v));
        assert(sum_values(r, f) == sum_values(r1, f) + f(last.1));
        assert(sum_values(s, f) == sum_values(d, f) + f(last.1));
    }
}

/// Adding a new key adds its value to the sum.
pub proof fn lemma_sum_insert<V>(s: Seq<(u32, V)>, t: Seq<(u32, V)>, k: u32, v: V, f: spec_fn(V) -> int)
    requires
        ids_sorted(s),
        ids_sorted(t),
        !id_map_of(s).contains_key(k),
        id_map_of(t) == id_map_of(s).insert(k, v),
    ensures
        sum_values(t, f) == sum_values(s, f) + f(v),
{
    lemma_insert_entry(s, k, v, f);
    lemma_sorted_unique(t, insert_entry(s, k, v));
}

/// Removing a key takes its value off the sum.
pub proof fn lemma_sum_remove<V>(s: Seq<(u32, V)>, t: Seq<(u32, V)>, k: u32, f: spec_fn(V) -> int)
    requires
        ids_sorted(s),
        ids_sorted(t),
        id_map_of(s).contains_key(k),
        id_map_of(t) == id_map_of(s).remove(k),
    ensures
        sum_values(t, f) == sum_values(s, f) - f(id_map_of(s)[k]),
{
    assert(id_map_of(s) =~= id_map_of(t).insert(k, id_map_of(s)[k]));
    lemma_sum_insert(t, s, k, id_map_of(s)[k], f);
}

/// Replacing the value of a key replaces it in the sum.
pub proof fn lemma_sum_update<V>(s: Seq<(u32, V)>, t: Seq<(u32, V)>, k: u32, v: V, f: spec_fn(V) -> int)
    requires
        ids_sorted(s),
        ids_sorted(t),
        id_map_of(s).contains_key(k),
        id_map_of(t) == id_map_of(s).insert(k, v),
    ensures
        sum_values(t, f) == sum_values(s, f) - f(id_map_of(s)[k]) + f(v),
    decreases t.len(),
{
    if s.len() == 0 {
        assert(!crate::maps::id_present(s, k));
    }
    if t.len() == 0 {
        assert(id_map_of(t).contains_key(k));
        assert(!crate::maps::id_present(t, k));
    }
    lemma_id_map_drop_last(s);
    lemma_id_map_drop_last(t);
    assert(id_map_of(s).contains_key(t.last().0));
    assert(id_map_of(t).contains_key(s.last().0));
    assert(s.last().0 == t.last().0);
    let lk = s.last().0;
    if lk == k {
        assert(id_map_of(t.drop_last()) =~= id_map_of(s.drop_last()));
        lemma_sorted_unique(t.drop_last(), s.drop_last());
    } else {
        assert(s.last().1 == t.last().1);
        assert(id_map_of(t.drop_last()) =~= id_map_of(s.drop_last()).insert(k, v));
        lemma_sum_update(s.drop_last(), t.drop_last(), k, v, f);
    }
}

/// `s` with the value under key `k` replaced by `v`.
pub open spec fn replace_entry<V>(s: Seq<(u32, V)>, k: u32, v: V) -> Seq<(u32, V)> {
    s.map_values(|e: (u32, V)| if e.0 == k { (k, v) } else { e })
}

/// Replacing a present key's value keeps the sequence sorted and stands for
/// the map with that key's new value.
pub proof fn lemma_replace_entry<V>(s: Seq<(u32, V)>, k: u32, v: V)
    requires
        ids_sorted(s),
        id_map_of(s).contains_key(k),
    ensures
        ids_sorted(replace_entry(s, k, v)),
        replace_entry(s, k, v).len() == s.len(),
        id_map_of(replace_entry(s, k, v)) == id_map_of(s).insert(k, v),
{
    let r = replace_entry(s, k, v);
    assert forall|i: int| 0 <= i < s.len() implies #[trigger] r[i].0 == s[i].0 by {}
    assert(ids_sorted(r)) by {
        assert forall|i: int, j: int| 0 <= i < j < r.len() implies r[i].0 < r[j].0 by {
            assert(r[i].0 == s[i].0 && r[j].0 == s[j].0);
        }
    }
    assert forall|x: u32| #[trigger] id_map_of(r).contains_key(x) implies id_map_of(s).insert(k, v).contains_key(x)
        && id_map_of(r)[x] == id_map_of(s).insert(k, v)[x] by {
        lemma_id_map_has(r, x);
        let i = crate::maps::id_pos(r, x);
        assert(s[i].0 == x);
        lemma_id_map_at(s, i);
        lemma_id_map_at(r, i);
    }
    assert forall|x: u32| #[trigger] id_map_of(s).insert(k, v).contains_key(x) implies id_map_of(r).contains_key(x) by {
        lemma_id_map_has(s, x);
        let i = crate::maps::id_pos(s, x);
        assert(r[i].0 == x);
        lemma_id_map_at(r, i);
    }
    assert(id_map_of(r) =~= id_map_of(s).insert(k, v));
}

/// A sum of values none of which is negative is not negative.
pub proof fn lemma_sum_nonneg<V>(s: Seq<(u32, V)>, f: spec_fn(V) -> int)
    requires
        forall|i: int| 0 <= i < s.len() ==> f(#[trigger] s[i].1) >= 0,
    ensures
        sum_values(s, f) >= 0,
    decreases s.len(),
{
    if s.len() > 0 {
        assert forall|i: int| 0 <= i < s.drop_last().len() implies f(#[trigger] s.drop_last()[i].1) >= 0 by {
            assert(s.drop_last()[i] == s[i]);
        }
        lemma_sum_nonneg(s.drop_last(), f);
        assert(f(s[s.len() - 1].1) >= 0);
    }
}

} // verus!
