//! Association lists keyed by strings.
//!
//! Every map in this crate (peer registry, IP blocker, IP-change tracker) is
//! a vector of key/value pairs looked up by the key's character sequence.
//! Lookup takes the first match; the operations below only ever bind a key
//! once, so the first match is the only one.

use vstd::prelude::*;

verus! {

/// The first value bound to `key`, searching from the front.
pub open spec fn assoc_get<T>(s: Seq<(String, T)>, key: Seq<char>) -> Option<T>
    decreases s.len(),
{
    if s.len() == 0 {
        None
    } else if s[0].0@ == key {
        Some(s[0].1)
    } else {
        assoc_get(s.skip(1), key)
    }
}

/// Index of the first entry bound to `key`, if any.
pub fn assoc_find<T>(entries: &Vec<(String, T)>, key: &String) -> (r: Option<usize>)
    ensures
        r matches Some(i) ==> i < entries@.len() && entries@[i as int].0@ == key@ && assoc_get(
            entries@,
            key@,
        ) == Some(entries@[i as int].1) && (forall|j: int| 0 <= j < i ==> entries@[j].0@ != key@),
        r is None ==> assoc_get(entries@, key@) is None,
{
    let n = entries.len();
    let mut i: usize = 0;
    proof {
        assert(entries@.skip(0) =~= entries@);
    }
    while i < n
        invariant
            n == entries@.len(),
            i <= n,
            forall|j: int| 0 <= j < i ==> entries@[j].0@ != key@,
            assoc_get(entries@, key@) == assoc_get(entries@.skip(i as int), key@),
        decreases n - i,
    {
        let hit = entries[i].0 == *key;
        proof {
            assert(entries@.skip(i as int)[0] == entries@[i as int]);
            assert(entries@.skip(i as int).skip(1) =~= entries@.skip(i as int + 1));
        }
        if hit {
            return Some(i);
        }
        i += 1;
    }
    proof {
        assert(entries@.skip(n as int) =~= Seq::<(String, T)>::empty());
    }
    None
}

/// Appending an entry only binds its key where that key was unbound.
pub proof fn lemma_assoc_push<T>(s: Seq<(String, T)>, e: (String, T), key: Seq<char>)
    ensures
        assoc_get(s.push(e), key) == (if assoc_get(s, key) is Some {
            assoc_get(s, key)
        } else if e.0@ == key {
            Some(e.1)
        } else {
            None::<T>
        }),
    decreases s.len(),
{
    if s.len() == 0 {
        assert(s.push(e)[0] == e);
        assert(s.push(e).skip(1) =~= Seq::<(String, T)>::empty());
        assert(assoc_get(Seq::<(String, T)>::empty(), key) is None);
        if e.0@ == key {
            assert(assoc_get(s.push(e), key) == Some(e.1));
        } else {
            assert(assoc_get(s.push(e), key) == assoc_get(s.push(e).skip(1), key));
        }
    } else {
        assert(s.push(e)[0] == s[0]);
        assert(s.push(e).skip(1) =~= s.skip(1).push(e));
        lemma_assoc_push(s.skip(1), e, key);
        if s[0].0@ == key {
            assert(assoc_get(s.push(e), key) == Some(s[0].1));
            assert(assoc_get(s, key) == Some(s[0].1));
        } else {
            assert(assoc_get(s.push(e), key) == assoc_get(s.skip(1).push(e), key));
            assert(assoc_get(s, key) == assoc_get(s.skip(1), key));
        }
    }
}

/// Replacing the value at the first binding of a key rebinds that key and
/// leaves every other key's binding as it was.
pub proof fn lemma_assoc_update<T>(s: Seq<(String, T)>, i: int, e: (String, T), key: Seq<char>)
    requires
        0 <= i < s.len(),
        e.0@ == s[i].0@,
        forall|j: int| 0 <= j < i ==> s[j].0@ != s[i].0@,
    ensures
        assoc_get(s.update(i, e), s[i].0@) == Some(e.1),
        key != s[i].0@ ==> assoc_get(s.update(i, e), key) == assoc_get(s, key),
    decreases i,
{
    let s2 = s.update(i, e);
    if i == 0 {
        assert(s2[0] == e);
        assert(s2.skip(1) =~= s.skip(1));
    } else {
        assert(s2[0] == s[0]);
        assert(s2.skip(1) =~= s.skip(1).update(i - 1, e));
        assert(s.skip(1)[i - 1] == s[i]);
        assert(forall|j: int| 0 <= j < i - 1 ==> #[trigger] s.skip(1)[j].0@ != s.skip(1)[i
            - 1].0@) by {
            assert forall|j: int| 0 <= j < i - 1 implies #[trigger] s.skip(1)[j].0@ != s.skip(1)[i
                - 1].0@ by {
                assert(s.skip(1)[j] == s[j + 1]);
            }
        }
        lemma_assoc_update(s.skip(1), i - 1, e, key);
        assert(s[0].0@ != s[i].0@);
    }
}

/// Whether some element of `v` has the character sequence `s`.
pub fn contains_string(v: &Vec<String>, s: &String) -> (r: bool)
    ensures
        r == v.deep_view().contains(s@),
{
    let n = v.len();
    let mut i: usize = 0;
    while i < n
        invariant
            n == v@.len(),
            i <= n,
            forall|j: int| 0 <= j < i ==> v.deep_view()[j] != s@,
        decreases n - i,
    {
        if v[i] == *s {
            assert(v.deep_view()[i as int] == s@);
            return true;
        }
        i += 1;
    }
    false
}

} // verus!
