//! The state of an evaluation.

use std::rc::Rc;
use vstd::prelude::*;
use crate::host::named_vals;
use crate::text::{same_str, text_of};
use crate::value::{Val, Value, copy_value, val};

verus! {

// ---- tables --------------------------------------------------------------

/// A variable frame: names and values, each name once.
pub type Vars = Seq<(Seq<char>, Val)>;

/// A table of names and indices, each name once.
pub type Ids = Seq<(Seq<char>, usize)>;

/// The index of the first entry for `key`; the length if there is none.
pub open spec fn entry<T>(s: Seq<(Seq<char>, T)>, key: Seq<char>) -> int
    decreases s.len(),
{
    if s.len() == 0 {
        0
    } else if s[0].0 == key {
        0
    } else {
        1 + entry(s.skip(1), key)
    }
}

/// What a table says of `key`.
pub open spec fn get<T>(s: Seq<(Seq<char>, T)>, key: Seq<char>) -> Option<T> {
    if entry(s, key) < s.len() {
        Some(s[entry(s, key)].1)
    } else {
        None
    }
}

/// The table with `key` set to `v`: in place where it has an entry, else at the end.
pub open spec fn put<T>(s: Seq<(Seq<char>, T)>, key: Seq<char>, v: T) -> Seq<(Seq<char>, T)> {
    if entry(s, key) < s.len() {
        s.update(entry(s, key), (key, v))
    } else {
        s.push((key, v))
    }
}

pub proof fn lemma_entry<T>(s: Seq<(Seq<char>, T)>, key: Seq<char>)
    ensures
        0 <= entry(s, key) <= s.len(),
        entry(s, key) < s.len() ==> s[entry(s, key)].0 == key,
        forall|k: int| 0 <= k < entry(s, key) ==> (#[trigger] s[k]).0 != key,
    decreases s.len(),
{
    if s.len() > 0 && s[0].0 != key {
        let t = s.skip(1);
        lemma_entry(t, key);
        assert forall|k: int| 0 <= k < entry(s, key) implies (#[trigger] s[k]).0 != key by {
            if k > 0 {
                assert(s[k] == t[k - 1]);
            }
        }
    }
}

pub proof fn lemma_entry_is<T>(s: Seq<(Seq<char>, T)>, key: Seq<char>, k: int)
    requires
        0 <= k <= s.len(),
        k < s.len() ==> s[k].0 == key,
        forall|j: int| 0 <= j < k ==> (#[trigger] s[j]).0 != key,
    ensures
        entry(s, key) == k,
    decreases s.len(),
{
    if s.len() > 0 && k > 0 {
        let t = s.skip(1);
        assert(s[0].0 != key);
        assert forall|j: int| 0 <= j < k - 1 implies (#[trigger] t[j]).0 != key by {
            assert(t[j] == s[j + 1]);
        }
        lemma_entry_is(t, key, k - 1);
    }
}

/// What was put is what is got.
pub proof fn get_after_put<T>(s: Seq<(Seq<char>, T)>, key: Seq<char>, v: T)
    ensures
        get(put(s, key, v), key) == Some(v),
{
    lemma_entry(s, key);
    lemma_entry_is(put(s, key, v), key, entry(s, key));
}

/// Putting one name leaves every other as it is.
pub proof fn put_keeps_others<T>(s: Seq<(Seq<char>, T)>, key: Seq<char>, v: T, other: Seq<char>)
    requires
        other != key,
    ensures
        get(put(s, key, v), other) == get(s, other),
{
    lemma_entry(s, key);
    lemma_entry(s, other);
    let p = put(s, key, v);
    if entry(s, other) < s.len() {
        lemma_entry_is(p, other, entry(s, other));
    } else {
        lemma_entry_is(p, other, p.len() as int);
    }
}

pub open spec fn ids(s: Seq<(String, usize)>) -> Ids {
    Seq::new(s.len(), |i: int| (s[i].0@, s[i].1))
}

pub open spec fn pairs_of_text(s: Seq<(String, String)>) -> Seq<(Seq<char>, Seq<char>)> {
    Seq::new(s.len(), |i: int| (s[i].0@, s[i].1@))
}

/// The index of the entry for `key` in a variable frame.
pub fn find_var(v: &Vec<(String, Value)>, key: &str) -> (r: usize)
    ensures
        r == entry(named_vals(v@), key@),
        r <= v@.len(),
        r < v@.len() ==> v@[r as int].0@ == key@,
{
    let ghost s = named_vals(v@);
    let mut i: usize = 0;
    while i < v.len() && !same_str(v[i].0.as_str(), key)
        invariant
            i <= v@.len(),
            s == named_vals(v@),
            forall|k: int| 0 <= k < i ==> (#[trigger] s[k]).0 != key@,
        decreases v@.len() - i,
    {
        i += 1;
    }
    proof {
        lemma_entry_is(s, key@, i as int);
    }
    i
}

pub fn get_var(v: &Vec<(String, Value)>, key: &str) -> (r: Option<Value>)
    ensures
        opt_val(r) == get(named_vals(v@), key@),
{
    let i: usize = find_var(v, key);
    if i < v.len() {
        Some(copy_value(&v[i].1))
    } else {
        None
    }
}

pub open spec fn opt_val(v: Option<Value>) -> Option<Val> {
    match v {
        Some(w) => Some(val(w)),
        None => None,
    }
}

pub fn put_var(v: &mut Vec<(String, Value)>, key: &str, value: Value)
    ensures
        named_vals(final(v)@) == put(named_vals(old(v)@), key@, val(value)),
{
    let i: usize = find_var(v, key);
    if i < v.len() {
        v[i] = (key.to_owned(), value);
    } else {
        v.push((key.to_owned(), value));
    }
    proof {
        assert(named_vals(final(v)@) =~= put(named_vals(old(v)@), key@, val(value)));
    }
}

pub fn find_id(v: &Vec<(String, usize)>, key: &str) -> (r: usize)
    ensures
        r == entry(ids(v@), key@),
        r <= v@.len(),
{
    let ghost s = ids(v@);
    let mut i: usize = 0;
    while i < v.len() && !same_str(v[i].0.as_str(), key)
        invariant
            i <= v@.len(),
            s == ids(v@),
            forall|k: int| 0 <= k < i ==> (#[trigger] s[k]).0 != key@,
        decreases v@.len() - i,
    {
        i += 1;
    }
    proof {
        lemma_entry_is(s, key@, i as int);
    }
    i
}

pub fn get_id(v: &Vec<(String, usize)>, key: &str) -> (r: Option<usize>)
    ensures
        r == get(ids(v@), key@),
{
    let i: usize = find_id(v, key);
    if i < v.len() {
        Some(v[i].1)
    } else {
        None
    }
}

pub fn put_id(v: &mut Vec<(String, usize)>, key: &str, id: usize)
    ensures
        ids(final(v)@) == put(ids(old(v)@), key@, id),
{
    let i: usize = find_id(v, key);
    if i < v.len() {
        v[i] = (key.to_owned(), id);
    } else {
        v.push((key.to_owned(), id));
    }
    proof {
        assert(ids(final(v)@) =~= put(ids(old(v)@), key@, id));
    }
}

pub fn get_text(v: &Vec<(String, String)>, key: &str) -> (r: Option<String>)
    ensures
        text_of(r) == get(pairs_of_text(v@), key@),
{
    let ghost s = pairs_of_text(v@);
    let mut i: usize = 0;
    while i < v.len() && !same_str(v[i].0.as_str(), key)
        invariant
            i <= v@.len(),
            s == pairs_of_text(v@),
            forall|k: int| 0 <= k < i ==> (#[trigger] s[k]).0 != key@,
        decreases v@.len() - i,
    {
        i += 1;
    }
    proof {
        lemma_entry_is(s, key@, i as int);
    }
    if i < v.len() {
        Some(v[i].1.clone())
    } else {
        None
    }
}

} // verus!
