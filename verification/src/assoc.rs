//! Association sequences: the model of every keyed table in this crate.
//!
//! Each store is a vector of `(key, value)` pairs with pairwise distinct
//! keys; lookup is first-match. The spec functions here define lookup,
//! removal and key distinctness, and the lemmas relate them, so that the
//! stores can state their contracts uniformly.

use vstd::prelude::*;

verus! {

/// First-match lookup of `k`.
pub open spec fn spec_get<V>(s: Seq<(u128, V)>, k: u128) -> Option<V>
    decreases s.len(),
{
    if s.len() == 0 {
        None
    } else if s[0].0 == k {
        Some(s[0].1)
    } else {
        spec_get(s.drop_first(), k)
    }
}

/// All keys pairwise distinct.
pub open spec fn distinct_keys<V>(s: Seq<(u128, V)>) -> bool {
    forall|i: int, j: int| 0 <= i < j < s.len() ==> (#[trigger] s[i]).0 != (#[trigger] s[j]).0
}

/// `s` without every pair keyed by `k`.
pub open spec fn remove_key<V>(s: Seq<(u128, V)>, k: u128) -> Seq<(u128, V)>
    decreases s.len(),
{
    if s.len() == 0 {
        s
    } else if s[0].0 == k {
        remove_key(s.drop_first(), k)
    } else {
        seq![s[0]] + remove_key(s.drop_first(), k)
    }
}

/// Lookup in a concatenation: the left side wins when it has the key.
pub proof fn lemma_get_concat<V>(a: Seq<(u128, V)>, b: Seq<(u128, V)>, k: u128)
    ensures
        spec_get(a + b, k) == if spec_get(a, k) is Some {
            spec_get(a, k)
        } else {
            spec_get(b, k)
        },
    decreases a.len(),
{
    if a.len() == 0 {
        assert(a + b =~= b);
    } else {
        assert((a + b).drop_first() =~= a.drop_first() + b);
        lemma_get_concat(a.drop_first(), b, k);
    }
}

/// Lookup in a one-pair sequence.
pub proof fn lemma_get_singleton<V>(p: (u128, V), k: u128)
    ensures
        spec_get(seq![p], k) == if p.0 == k {
            Some(p.1)
        } else {
            None::<V>
        },
{
    let s = seq![p];
    assert(s.len() == 1 && s[0] == p);
    assert(s.drop_first() =~= Seq::<(u128, V)>::empty());
    assert(spec_get(s.drop_first(), k) is None);
    assert(spec_get(s, k) == if p.0 == k {
        Some(p.1)
    } else {
        None::<V>
    });
}

/// Lookup on a pushed pair: an earlier binding still wins.
pub proof fn lemma_get_push<V>(s: Seq<(u128, V)>, p: (u128, V), k: u128)
    ensures
        spec_get(s.push(p), k) == if spec_get(s, k) is Some {
            spec_get(s, k)
        } else if p.0 == k {
            Some(p.1)
        } else {
            None::<V>
        },
{
    assert(s.push(p) =~= s + seq![p]);
    lemma_get_concat(s, seq![p], k);
    lemma_get_singleton(p, k);
}

/// A key is found exactly when some pair carries it.
pub proof fn lemma_get_key_exists<V>(s: Seq<(u128, V)>, k: u128)
    ensures
        spec_get(s, k) is Some <==> exists|i: int| 0 <= i < s.len() && (#[trigger] s[i]).0 == k,
    decreases s.len(),
{
    if s.len() > 0 {
        lemma_get_key_exists(s.drop_first(), k);
        if s[0].0 != k {
            if spec_get(s, k) is Some {
                let i = choose|i: int|
                    0 <= i < s.drop_first().len() && (#[trigger] s.drop_first()[i]).0 == k;
                assert(s[i + 1].0 == k);
            }
            if exists|i: int| 0 <= i < s.len() && (#[trigger] s[i]).0 == k {
                let i = choose|i: int| 0 <= i < s.len() && (#[trigger] s[i]).0 == k;
                assert(s.drop_first()[i - 1].0 == k);
            }
        }
    }
}

/// A found binding is one of the pairs.
pub proof fn lemma_get_some_contains<V>(s: Seq<(u128, V)>, k: u128)
    requires
        spec_get(s, k) is Some,
    ensures
        s.contains((k, spec_get(s, k).unwrap())),
    decreases s.len(),
{
    if s.len() > 0 {
        if s[0].0 == k {
            assert(s[0] == (k, spec_get(s, k).unwrap()));
        } else {
            lemma_get_some_contains(s.drop_first(), k);
            let v = spec_get(s, k).unwrap();
            let i = choose|i: int| 0 <= i < s.drop_first().len() && s.drop_first()[i] == (k, v);
            assert(s[i + 1] == (k, v));
        }
    }
}

/// Removal keeps exactly the pairs under other keys.
pub proof fn lemma_remove_contains<V>(s: Seq<(u128, V)>, k: u128, p: (u128, V))
    ensures
        remove_key(s, k).contains(p) <==> s.contains(p) && p.0 != k,
    decreases s.len(),
{
    if s.len() > 0 {
        lemma_remove_contains(s.drop_first(), k, p);
        assert(s.drop_first().contains(p) <==> exists|i: int|
            1 <= i < s.len() && (#[trigger] s[i]) == p) by {
            if s.drop_first().contains(p) {
                let i = choose|i: int| 0 <= i < s.drop_first().len() && s.drop_first()[i] == p;
                assert(s[i + 1] == p);
            }
            if exists|i: int| 1 <= i < s.len() && (#[trigger] s[i]) == p {
                let i = choose|i: int| 1 <= i < s.len() && (#[trigger] s[i]) == p;
                assert(s.drop_first()[i - 1] == p);
            }
        }
        if s[0].0 == k {
        } else {
            let rest = remove_key(s.drop_first(), k);
            assert(remove_key(s, k) =~= seq![s[0]] + rest);
            assert(remove_key(s, k)[0] == s[0]);
            if rest.contains(p) {
                let i = choose|i: int| 0 <= i < rest.len() && rest[i] == p;
                assert(remove_key(s, k)[i + 1] == p);
            }
            if remove_key(s, k).contains(p) && p != s[0] {
                let i = choose|i: int| 0 <= i < remove_key(s, k).len() && remove_key(s, k)[i] == p;
                assert(rest[i - 1] == p);
            }
            if s.contains(p) && p != s[0] {
                let i = choose|i: int| 0 <= i < s.len() && s[i] == p;
                assert(s.drop_first()[i - 1] == p);
            }
        }
    }
}

/// Lookup after removal: the removed key is gone, others are untouched.
pub proof fn lemma_get_remove<V>(s: Seq<(u128, V)>, k: u128, k2: u128)
    ensures
        spec_get(remove_key(s, k), k2) == if k2 == k {
            None::<V>
        } else {
            spec_get(s, k2)
        },
    decreases s.len(),
{
    if s.len() > 0 {
        lemma_get_remove(s.drop_first(), k, k2);
        if s[0].0 != k {
            let rest = remove_key(s.drop_first(), k);
            assert(remove_key(s, k) == seq![s[0]] + rest);
            lemma_get_concat(seq![s[0]], rest, k2);
            lemma_get_singleton(s[0], k2);
        }
    }
}

/// Removing an absent key changes nothing.
pub proof fn lemma_remove_absent<V>(s: Seq<(u128, V)>, k: u128)
    requires
        spec_get(s, k) is None,
    ensures
        remove_key(s, k) == s,
    decreases s.len(),
{
    if s.len() > 0 {
        lemma_remove_absent(s.drop_first(), k);
        assert(remove_key(s, k) =~= seq![s[0]] + s.drop_first());
        assert(seq![s[0]] + s.drop_first() =~= s);
    }
}

/// Removal preserves key distinctness.
pub proof fn lemma_remove_distinct<V>(s: Seq<(u128, V)>, k: u128)
    requires
        distinct_keys(s),
    ensures
        distinct_keys(remove_key(s, k)),
        spec_get(remove_key(s, k), k) is None,
    decreases s.len(),
{
    lemma_get_remove(s, k, k);
    if s.len() > 0 {
        assert(forall|a: int|
            0 <= a < s.drop_first().len() ==> (#[trigger] s.drop_first()[a]) == s[a + 1]);
        lemma_remove_distinct(s.drop_first(), k);
        if s[0].0 != k {
            let rest = remove_key(s.drop_first(), k);
            let r = remove_key(s, k);
            assert(r == seq![s[0]] + rest);
            assert forall|i: int, j: int| 0 <= i < j < r.len() implies (#[trigger] r[i]).0 != (
            #[trigger] r[j]).0 by {
                if i == 0 {
                    let p = rest[j - 1];
                    assert(rest.contains(p));
                    lemma_remove_contains(s.drop_first(), k, p);
                    let a = choose|a: int|
                        0 <= a < s.drop_first().len() && s.drop_first()[a] == p;
                    assert(s[a + 1] == p);
                    assert(s[0].0 != p.0);
                    assert(r[j] == p);
                } else {
                    assert(r[i] == rest[i - 1] && r[j] == rest[j - 1]);
                }
            }
        }
    }
}

/// Removing at the position of the key equals [`remove_key`] when keys
/// are distinct.
pub proof fn lemma_remove_at_index<V>(s: Seq<(u128, V)>, i: int, k: u128)
    requires
        distinct_keys(s),
        0 <= i < s.len(),
        s[i].0 == k,
    ensures
        s.remove(i) =~= remove_key(s, k),
    decreases s.len(),
{
    if i == 0 {
        assert(s.remove(0) =~= s.drop_first());
        assert(forall|j: int|
            0 <= j < s.drop_first().len() ==> (#[trigger] s.drop_first()[j]).0 == s[j + 1].0);
        assert(spec_get(s.drop_first(), k) is None) by {
            lemma_get_key_exists(s.drop_first(), k);
            if exists|j: int| 0 <= j < s.drop_first().len() && (#[trigger] s.drop_first()[j]).0
                == k {
                let j = choose|j: int|
                    0 <= j < s.drop_first().len() && (#[trigger] s.drop_first()[j]).0 == k;
                assert(s[j + 1].0 == k && s[0].0 == k);
            }
        }
        lemma_remove_absent(s.drop_first(), k);
    } else {
        assert(s[0].0 != k);
        assert(distinct_keys(s.drop_first())) by {
            assert(forall|a: int, b: int|
                0 <= a < b < s.drop_first().len() ==> (#[trigger] s.drop_first()[a]).0 != (
                #[trigger] s.drop_first()[b]).0) by {
                assert(forall|a: int|
                    0 <= a < s.drop_first().len() ==> (#[trigger] s.drop_first()[a]) == s[a + 1]);
            }
        }
        assert(s.drop_first()[i - 1].0 == k);
        lemma_remove_at_index(s.drop_first(), i - 1, k);
        assert(s.remove(i) =~= seq![s[0]] + s.drop_first().remove(i - 1));
        assert(remove_key(s, k) == seq![s[0]] + remove_key(s.drop_first(), k));
    }
}

/// Pushing a fresh key preserves distinctness.
pub proof fn lemma_push_distinct<V>(s: Seq<(u128, V)>, p: (u128, V))
    requires
        distinct_keys(s),
        spec_get(s, p.0) is None,
    ensures
        distinct_keys(s.push(p)),
{
    lemma_get_key_exists(s, p.0);
    assert(forall|i: int| 0 <= i < s.len() ==> (#[trigger] s.push(p)[i]) == s[i]);
}

/// Finds the index of the first pair keyed by `k`.
pub fn find_index<V>(v: &Vec<(u128, V)>, k: u128) -> (r: Option<usize>)
    ensures
        match r {
            Some(i) => i < v@.len() && v@[i as int].0 == k && spec_get(v@, k) == Some(
                v@[i as int].1,
            ) && (forall|j: int| 0 <= j < i ==> (#[trigger] v@[j]).0 != k),
            None => spec_get(v@, k) is None,
        },
{
    let n = v.len();
    let mut i: usize = 0;
    while i < n
        invariant
            n == v@.len(),
            i <= n,
            forall|j: int| 0 <= j < i ==> (#[trigger] v@[j]).0 != k,
        decreases n - i,
    {
        if v[i].0 == k {
            proof {
                lemma_get_found_at(v@, k, i as int);
            }
            return Some(i);
        }
        i += 1;
    }
    proof {
        lemma_get_key_exists(v@, k);
    }
    None
}

/// A pushed sequence holds exactly the old pairs and the new one.
pub proof fn lemma_push_contains<V>(s: Seq<(u128, V)>, p: (u128, V), q: (u128, V))
    ensures
        s.push(p).contains(q) <==> s.contains(q) || q == p,
{
    assert(s.push(p)[s.len() as int] == p);
    if s.push(p).contains(q) {
        let i = choose|i: int| 0 <= i < s.push(p).len() && s.push(p)[i] == q;
        if i < s.len() {
            assert(s[i] == q);
        }
    }
    if s.contains(q) {
        let i = choose|i: int| 0 <= i < s.len() && s[i] == q;
        assert(s.push(p)[i] == q);
    }
}

/// Looks up a copyable value.
pub fn lookup<V: Copy>(v: &Vec<(u128, V)>, k: u128) -> (r: Option<V>)
    ensures
        r == spec_get(v@, k),
{
    match find_index(v, k) {
        Some(i) => Some(v[i].1),
        None => None,
    }
}

/// Replaces (or adds) the binding of `k` and returns the one it held.
pub fn upsert<V>(v: &mut Vec<(u128, V)>, k: u128, val: V) -> (prev: Option<V>)
    requires
        distinct_keys(old(v)@),
    ensures
        final(v)@ == remove_key(old(v)@, k).push((k, val)),
        distinct_keys(final(v)@),
        prev == spec_get(old(v)@, k),
{
    let prev = remove_entry(v, k);
    proof {
        lemma_remove_distinct(old(v)@, k);
        lemma_push_distinct(remove_key(old(v)@, k), (k, val));
    }
    v.push((k, val));
    prev
}

/// Removes the binding of `k` and returns the value it held.
pub fn remove_entry<V>(v: &mut Vec<(u128, V)>, k: u128) -> (prev: Option<V>)
    requires
        distinct_keys(old(v)@),
    ensures
        final(v)@ == remove_key(old(v)@, k),
        distinct_keys(final(v)@),
        prev == spec_get(old(v)@, k),
{
    match find_index(v, k) {
        Some(i) => {
            let p = v.remove(i);
            proof {
                lemma_remove_at_index(old(v)@, i as int, k);
                lemma_remove_distinct(old(v)@, k);
            }
            Some(p.1)
        },
        None => {
            proof {
                lemma_remove_absent(v@, k);
            }
            None
        },
    }
}

/// If no earlier pair carries the key, the pair at `i` is the binding.
pub proof fn lemma_get_found_at<V>(s: Seq<(u128, V)>, k: u128, i: int)
    requires
        0 <= i < s.len(),
        s[i].0 == k,
        forall|j: int| 0 <= j < i ==> (#[trigger] s[j]).0 != k,
    ensures
        spec_get(s, k) == Some(s[i].1),
    decreases i,
{
    if i > 0 {
        assert(forall|j: int|
            0 <= j < s.drop_first().len() ==> (#[trigger] s.drop_first()[j]) == s[j + 1]);
        lemma_get_found_at(s.drop_first(), k, i - 1);
    }
}

} // verus!
