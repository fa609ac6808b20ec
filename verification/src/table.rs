//! Name-keyed association tables.
//!
//! Both backends keep their state in small vectors of `(name, value)`
//! pairs with distinct names; these are the lookup, insert and remove
//! operations they share, with first-class specifications.

use vstd::prelude::*;

verus! {

/// No two entries share a name.
pub open spec fn keys_unique<T>(t: Seq<(String, T)>) -> bool {
    forall|i: int, j: int| 0 <= i < j < t.len() ==> t[i].0@ != t[j].0@
}

/// Some entry carries the name `n`.
pub open spec fn has_key<T>(t: Seq<(String, T)>, n: Seq<char>) -> bool {
    exists|i: int| 0 <= i < t.len() && t[i].0@ == n
}

/// The index of the entry named `n`, when one exists.
pub open spec fn spec_index_of<T>(t: Seq<(String, T)>, n: Seq<char>) -> int {
    choose|i: int| 0 <= i < t.len() && t[i].0@ == n
}

/// The value stored under `n`, if any.
pub open spec fn spec_lookup<T>(t: Seq<(String, T)>, n: Seq<char>) -> Option<T> {
    if has_key(t, n) {
        Some(t[spec_index_of(t, n)].1)
    } else {
        None
    }
}

/// With distinct names, any matching index yields the lookup result.
pub proof fn lemma_lookup_at<T>(t: Seq<(String, T)>, n: Seq<char>, i: int)
    requires
        keys_unique(t),
        0 <= i < t.len(),
        t[i].0@ == n,
    ensures
        spec_lookup(t, n) == Some(t[i].1),
        spec_index_of(t, n) == i,
{
    assert(has_key(t, n));
    let j = spec_index_of(t, n);
    assert(0 <= j < t.len() && t[j].0@ == n);
    if i < j {
        assert(t[i].0@ != t[j].0@);
    } else if j < i {
        assert(t[j].0@ != t[i].0@);
    }
}

/// The index of the entry named `name`, or `None` when no entry has it.
pub fn find_index<T>(t: &Vec<(String, T)>, name: &String) -> (r: Option<usize>)
    ensures
        (match r {
            Some(i) => i < t@.len() && t@[i as int].0@ == name@,
            None => !has_key(t@, name@),
        }),
{
    let mut i: usize = 0;
    while i < t.len()
        invariant
            i <= t@.len(),
            forall|j: int| 0 <= j < i ==> t@[j].0@ != name@,
        decreases t@.len() - i,
    {
        if t[i].0.eq(name) {
            return Some(i);
        }
        i += 1;
    }
    None
}

/// Stores `val` under `name`, replacing any entry of that name; the
/// displaced value, if any, is returned to the caller.
pub fn table_insert<T>(t: &mut Vec<(String, T)>, name: String, val: T) -> (displaced: Option<T>)
    requires
        keys_unique(old(t)@),
    ensures
        keys_unique(final(t)@),
        displaced == spec_lookup(old(t)@, name@),
        forall|n: Seq<char>| #![trigger spec_lookup(final(t)@, n)]
            spec_lookup(final(t)@, n) == (if n == name@ {
                Some(val)
            } else {
                spec_lookup(old(t)@, n)
            }),
        has_key(final(t)@, name@),
{
    let ghost pre = t@;
    match find_index(t, &name) {
        Some(i) => {
            proof {
                lemma_lookup_at(pre, name@, i as int);
            }
            let out = t.remove(i);
            t.insert(i, (name, val));
            proof {
                assert(t@ =~= pre.update(i as int, (name, val)));
            }
            proof {
                assert(keys_unique(t@)) by {
                    assert forall|a: int, b: int| 0 <= a < b < t@.len() implies t@[a].0@
                        != t@[b].0@ by {
                        assert(pre[a].0@ != pre[b].0@);
                    }
                }
                assert forall|n: Seq<char>| #![trigger spec_lookup(t@, n)] true implies
                    spec_lookup(t@, n) == (if n == name@ {
                    Some(val)
                } else {
                    spec_lookup(pre, n)
                }) by {
                    if n == name@ {
                        lemma_lookup_at(t@, n, i as int);
                    } else {
                        if has_key(pre, n) {
                            let k = choose|k: int| 0 <= k < pre.len() && pre[k].0@ == n;
                            lemma_lookup_at(pre, n, k);
                            assert(t@[k].0@ == n);
                            lemma_lookup_at(t@, n, k);
                        } else {
                            if has_key(t@, n) {
                                let k = choose|k: int| 0 <= k < t@.len() && t@[k].0@ == n;
                                assert(pre[k].0@ == n);
                            }
                        }
                    }
                }
                assert(t@[i as int].0@ == name@);
                assert(has_key(t@, name@));
            }
            Some(out.1)
        },
        None => {
            let ghost glen = t@.len() as int;
            t.push((name, val));
            proof {
                assert(keys_unique(t@)) by {
                    assert forall|a: int, b: int| 0 <= a < b < t@.len() implies t@[a].0@
                        != t@[b].0@ by {
                        if b < glen {
                            assert(pre[a].0@ != pre[b].0@);
                        } else {
                            assert(pre[a].0@ == t@[a].0@);
                        }
                    }
                }
                assert forall|n: Seq<char>| #![trigger spec_lookup(t@, n)] true implies
                    spec_lookup(t@, n) == (if n == name@ {
                    Some(val)
                } else {
                    spec_lookup(pre, n)
                }) by {
                    if n == name@ {
                        lemma_lookup_at(t@, n, glen);
                    } else {
                        if has_key(pre, n) {
                            let k = choose|k: int| 0 <= k < pre.len() && pre[k].0@ == n;
                            lemma_lookup_at(pre, n, k);
                            assert(t@[k].0@ == n);
                            lemma_lookup_at(t@, n, k);
                        } else {
                            if has_key(t@, n) {
                                let k = choose|k: int| 0 <= k < t@.len() && t@[k].0@ == n;
                                assert(k < glen);
                                assert(pre[k].0@ == n);
                            }
                        }
                    }
                }
                assert(t@[glen].0@ == name@);
                assert(has_key(t@, name@));
            }
            None
        },
    }
}

/// Removes the entry named `name`, returning its value, or `None` when no
/// entry has that name.
pub fn table_remove<T>(t: &mut Vec<(String, T)>, name: &String) -> (r: Option<T>)
    requires
        keys_unique(old(t)@),
    ensures
        keys_unique(final(t)@),
        r == spec_lookup(old(t)@, name@),
        forall|n: Seq<char>| #![trigger spec_lookup(final(t)@, n)]
            spec_lookup(final(t)@, n) == (if n == name@ {
                None::<T>
            } else {
                spec_lookup(old(t)@, n)
            }),
{
    let ghost pre = t@;
    match find_index(t, name) {
        Some(i) => {
            let entry = t.remove(i);
            proof {
                lemma_lookup_at(pre, name@, i as int);
                assert(t@ =~= pre.remove(i as int));
                assert(keys_unique(t@)) by {
                    assert forall|a: int, b: int| 0 <= a < b < t@.len() implies t@[a].0@
                        != t@[b].0@ by {
                        let a0: int = if a < i { a } else { a + 1 };
                        let b0: int = if b < i { b } else { b + 1 };
                        assert(t@[a] == pre[a0] && t@[b] == pre[b0]);
                        assert(pre[a0].0@ != pre[b0].0@);
                    }
                }
                assert forall|n: Seq<char>| #![trigger spec_lookup(t@, n)] true implies
                    spec_lookup(t@, n) == (if n == name@ {
                    None::<T>
                } else {
                    spec_lookup(pre, n)
                }) by {
                    if n == name@ {
                        if has_key(t@, n) {
                            let k = choose|k: int| 0 <= k < t@.len() && t@[k].0@ == n;
                            let k0: int = if k < i { k } else { k + 1 };
                            assert(t@[k] == pre[k0]);
                            assert(pre[k0].0@ == n && k0 != i);
                            assert(pre[i as int].0@ != pre[k0].0@);
                        }
                    } else {
                        if has_key(pre, n) {
                            let k = choose|k: int| 0 <= k < pre.len() && pre[k].0@ == n;
                            lemma_lookup_at(pre, n, k);
                            let k1: int = if k < i { k } else { k - 1 };
                            assert(t@[k1] == pre[k]);
                            lemma_lookup_at(t@, n, k1);
                        } else {
                            if has_key(t@, n) {
                                let k = choose|k: int| 0 <= k < t@.len() && t@[k].0@ == n;
                                let k0: int = if k < i { k } else { k + 1 };
                                assert(t@[k] == pre[k0]);
                            }
                        }
                    }
                }
            }
            Some(entry.1)
        },
        None => {
            proof {
                assert(!has_key(pre, name@));
                assert forall|n: Seq<char>| #![trigger spec_lookup(t@, n)] true implies
                    spec_lookup(t@, n) == (if n == name@ {
                    None::<T>
                } else {
                    spec_lookup(pre, n)
                }) by {}
            }
            None
        },
    }
}

} // verus!
