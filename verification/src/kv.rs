//! A small association-vector discipline: both registries of the
//! engine (active jobs, size cache) are vectors of `(String, value)`
//! pairs with pairwise-distinct keys, looked up by string equality.

use vstd::prelude::*;

use crate::vpath::str_eq;

verus! {

/// Index of the first pair of `s` whose key reads `k`, or -1.
pub open spec fn spec_key_index<V>(s: Seq<(String, V)>, k: Seq<char>) -> int
    decreases s.len(),
{
    if s.len() == 0 {
        -1
    } else if s[0].0@ == k {
        0
    } else {
        let r = spec_key_index(s.drop_first(), k);
        if r < 0 {
            -1
        } else {
            r + 1
        }
    }
}

/// The value stored under `k`, if any.
pub open spec fn spec_key_lookup<V>(s: Seq<(String, V)>, k: Seq<char>) -> Option<V> {
    let i = spec_key_index(s, k);
    if i >= 0 {
        Some(s[i].1)
    } else {
        None
    }
}

/// `spec_key_index` finds exactly the first matching pair: -1 means no
/// key of `s` reads `k`, and a non-negative result points at the first
/// pair that does.
pub proof fn lemma_key_index<V>(s: Seq<(String, V)>, k: Seq<char>)
    ensures
        spec_key_index(s, k) == -1 ==> forall|j: int| 0 <= j < s.len() ==> (#[trigger] s[j]).0@ != k,
        spec_key_index(s, k) != -1 ==> {
            let i = spec_key_index(s, k);
            &&& 0 <= i < s.len()
            &&& s[i].0@ == k
            &&& forall|j: int| 0 <= j < i ==> (#[trigger] s[j]).0@ != k
        },
    decreases s.len(),
{
    if s.len() > 0 && s[0].0@ != k {
        lemma_key_index(s.drop_first(), k);
        assert(forall|j: int|
            1 <= j < s.len() ==> (#[trigger] s[j]) == s.drop_first()[j - 1]);
    }
}

/// Looking past a non-matching head does not change what a key maps
/// to.
pub proof fn lemma_lookup_skip_head<V>(s: Seq<(String, V)>, k: Seq<char>)
    requires
        s.len() > 0,
        s[0].0@ != k,
    ensures
        spec_key_lookup(s, k) == spec_key_lookup(s.drop_first(), k),
{
    lemma_key_index(s.drop_first(), k);
    let r = spec_key_index(s.drop_first(), k);
    if r >= 0 {
        assert(s[r + 1] == s.drop_first()[r]);
    }
}

/// Replacing the pair at `i` by one with the same key leaves every
/// key's position unchanged.
pub proof fn lemma_key_index_update<V>(s: Seq<(String, V)>, i: int, p: (String, V), k: Seq<char>)
    requires
        0 <= i < s.len(),
        p.0@ == s[i].0@,
    ensures
        spec_key_index(s.update(i, p), k) == spec_key_index(s, k),
    decreases s.len(),
{
    let s2 = s.update(i, p);
    if i == 0 {
        assert(s2[0].0@ == s[0].0@);
        if s[0].0@ != k {
            assert(s2.drop_first() =~= s.drop_first());
        }
    } else {
        assert(s2[0] == s[0]);
        if s[0].0@ != k {
            assert(s2.drop_first() =~= s.drop_first().update(i - 1, p));
            assert(s.drop_first()[i - 1] == s[i]);
            lemma_key_index_update(s.drop_first(), i - 1, p, k);
        }
    }
}

/// Appending a pair leaves existing keys' positions unchanged; a key
/// not yet present is found at the end exactly when it is the new
/// pair's key.
pub proof fn lemma_key_index_push<V>(s: Seq<(String, V)>, p: (String, V), k: Seq<char>)
    ensures
        spec_key_index(s.push(p), k) == if spec_key_index(s, k) >= 0 {
            spec_key_index(s, k)
        } else if k == p.0@ {
            s.len() as int
        } else {
            -1
        },
    decreases s.len(),
{
    lemma_key_index(s, k);
    lemma_key_index(s.push(p), k);
    if s.len() == 0 {
        assert(s.push(p)[0] == p);
        assert(s.push(p).drop_first() =~= Seq::<(String, V)>::empty());
    } else {
        assert(s.push(p)[0] == s[0]);
        if s[0].0@ != k {
            assert(s.push(p).drop_first() =~= s.drop_first().push(p));
            lemma_key_index_push(s.drop_first(), p, k);
            assert(spec_key_index(s.push(p), k) == if spec_key_index(
                s.drop_first().push(p),
                k,
            ) < 0 {
                -1
            } else {
                spec_key_index(s.drop_first().push(p), k) + 1
            });
        }
    }
}

/// Removing the pair at `i` erases exactly its key (under pairwise
/// distinct keys) and leaves every other key's value unchanged.
pub proof fn lemma_lookup_remove<V>(s: Seq<(String, V)>, i: int, k: Seq<char>)
    requires
        0 <= i < s.len(),
        forall|a: int, b: int|
            0 <= a < b < s.len() ==> (#[trigger] s[a]).0@ != (#[trigger] s[b]).0@,
    ensures
        k == s[i].0@ ==> spec_key_index(s.remove(i), k) == -1,
        k != s[i].0@ ==> spec_key_lookup(s.remove(i), k) == spec_key_lookup(s, k),
    decreases s.len(),
{
    let s2 = s.remove(i);
    if i == 0 {
        assert(s2 =~= s.drop_first());
        if k == s[0].0@ {
            lemma_key_index(s2, k);
            if spec_key_index(s2, k) >= 0 {
                let r = spec_key_index(s2, k);
                assert(s2[r] == s[r + 1]);
                assert(s[r + 1].0@ == s[0].0@);
            }
        } else {
            lemma_lookup_skip_head(s, k);
        }
    } else {
        assert(s2[0] == s[0]);
        assert(s2.drop_first() =~= s.drop_first().remove(i - 1));
        assert(forall|a: int, b: int|
            0 <= a < b < s.drop_first().len() ==> (#[trigger] s.drop_first()[a]).0@
                != (#[trigger] s.drop_first()[b]).0@);
        assert(s.drop_first()[i - 1] == s[i]);
        if k == s[i].0@ {
            assert(s[0].0@ != k);
            lemma_lookup_remove(s.drop_first(), i - 1, k);
            lemma_key_index(s2, k);
            if spec_key_index(s2, k) >= 0 {
                let r = spec_key_index(s2, k);
                if r == 0 {
                    assert(s2[0].0@ == k);
                } else {
                    assert(s2.drop_first()[r - 1].0@ == k);
                    lemma_key_index(s2.drop_first(), k);
                    assert(spec_key_index(s2.drop_first(), k) != -1);
                }
            }
        } else if s[0].0@ == k {
            assert(spec_key_index(s2, k) == 0);
            assert(spec_key_index(s, k) == 0);
        } else {
            lemma_lookup_skip_head(s, k);
            lemma_lookup_skip_head(s2, k);
            lemma_lookup_remove(s.drop_first(), i - 1, k);
        }
    }
}

/// Finds the position of `k` among the pairs, scanning from the front.
pub fn find_key<V>(pairs: &Vec<(String, V)>, k: &str) -> (r: Option<usize>)
    ensures
        match r {
            Some(i) => i == spec_key_index(pairs@, k@) && i < pairs@.len() && pairs@[i as int].0@
                == k@,
            None => spec_key_index(pairs@, k@) == -1,
        },
{
    let n = pairs.len();
    let mut i: usize = 0;
    while i < n
        invariant
            i <= n,
            n == pairs@.len(),
            forall|j: int| 0 <= j < i ==> (#[trigger] pairs@[j]).0@ != k@,
        decreases n - i,
    {
        if str_eq(pairs[i].0.as_str(), k) {
            proof {
                lemma_key_index(pairs@, k@);
                if spec_key_index(pairs@, k@) == -1 {
                    assert(pairs@[i as int].0@ != k@);
                }
                if spec_key_index(pairs@, k@) != i {
                    let r = spec_key_index(pairs@, k@);
                    if r < i {
                        assert(pairs@[r].0@ == k@);
                    }
                }
            }
            return Some(i);
        }
        i = i + 1;
    }
    proof {
        lemma_key_index(pairs@, k@);
        if spec_key_index(pairs@, k@) != -1 {
            let r = spec_key_index(pairs@, k@);
            assert(pairs@[r].0@ == k@);
        }
    }
    None
}

} // verus!
