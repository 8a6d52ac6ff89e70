//! Ascending lists of record ids, as kept by the per-owner indexes.
use vstd::prelude::*;

verus! {

/// `s` is strictly increasing.
pub open spec fn ascending(s: Seq<u32>) -> bool {
    forall|i: int, j: int| 0 <= i < j < s.len() ==> s[i] < s[j]
}

/// Filtering a sequence grown by one element.
pub proof fn lemma_filter_push<A>(s: Seq<A>, p: spec_fn(A) -> bool, x: A)
    ensures
        s.push(x).filter(p) == if p(x) { s.filter(p).push(x) } else { s.filter(p) },
{
    reveal_with_fuel(Seq::<_>::filter, 1);
    assert(s.push(x).drop_last() =~= s);
}

/// The elements of a sequence grown by one element.
pub proof fn lemma_push_to_set<A>(s: Seq<A>, x: A)
    ensures
        s.push(x).to_set() == s.to_set().insert(x),
{
    assert forall|y: A| s.push(x).to_set().contains(y) implies s.to_set().insert(x).contains(y) by {
        let k = choose|k: int| 0 <= k < s.push(x).len() && s.push(x)[k] == y;
        if k < s.len() {
            assert(s[k] == y);
        }
    }
    assert forall|y: A| s.to_set().insert(x).contains(y) implies s.push(x).to_set().contains(y) by {
        if y == x {
            assert(s.push(x)[s.len() as int] == x);
        } else {
            let k = choose|k: int| 0 <= k < s.len() && s[k] == y;
            assert(s.push(x)[k] == y);
        }
    }
    assert(s.push(x).to_set() =~= s.to_set().insert(x));
}

/// A copy of `v`.
pub fn copy_ids(v: &Vec<u32>) -> (r: Vec<u32>)
    ensures
        r@ == v@,
{
    let r = v.clone();
    assert(r@ =~= v@);
    r
}

/// Insert `id` into the ascending list `ids`, leaving it unchanged when `id`
/// is already there.
pub fn insert_ascending(ids: &Vec<u32>, id: u32) -> (r: Vec<u32>)
    requires
        ascending(ids@),
    ensures
        ascending(r@),
        r@.to_set() == ids@.to_set().insert(id),
        r@.len() == if ids@.contains(id) { ids@.len() } else { ids@.len() + 1 },
{
    let n = ids.len();
    let mut p: usize = 0;
    while p < n && ids[p] < id
        invariant
            n == ids@.len(),
            p <= n,
            forall|k: int| 0 <= k < p ==> ids@[k] < id,
        decreases n - p,
    {
        p = p + 1;
    }
    let mut r = copy_ids(ids);
    if p < n && ids[p] == id {
        assert(ids@.contains(id));
        assert(ids@.to_set().insert(id) =~= ids@.to_set());
        return r;
    }
    assert forall|k: int| p <= k < n implies id < ids@[k] by {
        if k > p {
            assert(ids@[p as int] < ids@[k]);
        }
    }
    assert(!ids@.contains(id)) by {
        if ids@.contains(id) {
            let k = choose|k: int| 0 <= k < ids@.len() && ids@[k] == id;
        }
    }
    r.insert(p, id);
    assert(r@ == ids@.insert(p as int, id));
    assert(ascending(r@)) by {
        assert forall|a: int, b: int| 0 <= a < b < r@.len() implies r@[a] < r@[b] by {
            if b < p {
            } else if b == p {
            } else if a < p {
                assert(r@[b] == ids@[b - 1]);
            } else if a == p {
                assert(r@[b] == ids@[b - 1]);
            } else {
                assert(ids@[a - 1] < ids@[b - 1]);
            }
        }
    }
    assert(r@.to_set() =~= ids@.to_set().insert(id)) by {
        assert forall|x: u32| r@.to_set().contains(x) implies ids@.to_set().insert(id).contains(x) by {
            let k = choose|k: int| 0 <= k < r@.len() && r@[k] == x;
            if k < p {
                assert(ids@[k] == x);
            } else if k > p {
                assert(ids@[k - 1] == x);
            }
        }
        assert forall|x: u32| ids@.to_set().insert(id).contains(x) implies r@.to_set().contains(x) by {
            if x == id {
                assert(r@[p as int] == id);
            } else {
                let k = choose|k: int| 0 <= k < ids@.len() && ids@[k] == x;
                if k < p {
                    assert(r@[k] == x);
                } else {
                    assert(r@[k + 1] == x);
                }
            }
        }
    }
    r
}

/// The ids of `ids` other than `id`, in their order.
pub fn remove_id(ids: &Vec<u32>, id: u32) -> (r: Vec<u32>)
    ensures
        r@ == ids@.filter(|x: u32| x != id),
{
    let mut r: Vec<u32> = Vec::new();
    let mut i: usize = 0;
    while i < ids.len()
        invariant
            i <= ids@.len(),
            r@ == ids@.subrange(0, i as int).filter(|x: u32| x != id),
        decreases ids@.len() - i,
    {
        let x = ids[i];
        proof {
            let pre = ids@.subrange(0, i as int);
            assert(ids@.subrange(0, i as int + 1) == pre.push(x));
            lemma_filter_push(pre, |y: u32| y != id, x);
        }
        if x != id {
            r.push(x);
        }
        i = i + 1;
    }
    assert(ids@.subrange(0, ids@.len() as int) == ids@);
    r
}

/// An ascending list has as many ids as its set.
pub proof fn lemma_ascending_set_len(s: Seq<u32>)
    requires
        ascending(s),
    ensures
        s.to_set().len() == s.len(),
        s.to_set().finite(),
{
    assert(s.no_duplicates()) by {
        assert forall|i: int, j: int| 0 <= i < s.len() && 0 <= j < s.len() && i != j implies s[i] != s[j] by {
            if i < j {
                assert(s[i] < s[j]);
            } else {
                assert(s[j] < s[i]);
            }
        }
    }
    s.unique_seq_to_set();
    vstd::seq_lib::seq_to_set_is_finite(s);
}

/// Dropping `id` from a list drops it from the list's set.
pub proof fn lemma_filter_ne_to_set(s: Seq<u32>, id: u32)
    ensures
        s.filter(|y: u32| y != id).to_set() == s.to_set().remove(id),
{
    let p = |y: u32| y != id;
    let f = s.filter(p);
    broadcast use vstd::seq_lib::group_filter_ensures;

    assert forall|x: u32| f.to_set().contains(x) == s.to_set().remove(id).contains(x) by {
        if f.contains(x) {
            s.lemma_filter_contains_rev(p, x);
            let i = choose|i: int| 0 <= i < f.len() && f[i] == x;
            assert(p(f[i]));
        }
        if s.contains(x) && x != id {
            let i = choose|i: int| 0 <= i < s.len() && s[i] == x;
            assert(f.contains(s[i]));
        }
    }
    assert(f.to_set() =~= s.to_set().remove(id));
}

} // verus!
