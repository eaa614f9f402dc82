use vstd::prelude::*;

use crate::text::{chars_eq, chars_of};

verus! {

// ── Association lists keyed by text ──────────────────────────────────────────

/// The map that a list of `(key, value)` entries stands for; a later entry for a
/// key wins over an earlier one.
pub open spec fn assoc_map<V>(s: Seq<(Seq<char>, V)>) -> Map<Seq<char>, V>
    decreases s.len(),
{
    if s.len() == 0 {
        Map::empty()
    } else {
        assoc_map(s.drop_last()).insert(s.last().0, s.last().1)
    }
}

/// No key occurs twice in the list.
pub open spec fn keys_distinct<V>(s: Seq<(Seq<char>, V)>) -> bool {
    forall|i: int, j: int| 0 <= i < j < s.len() ==> s[i].0 != s[j].0
}

/// A key is bound exactly when some entry carries it.
pub proof fn lemma_assoc_dom<V>(s: Seq<(Seq<char>, V)>, k: Seq<char>)
    ensures
        assoc_map(s).dom().contains(k) <==> exists|i: int| 0 <= i < s.len() && s[i].0 == k,
    decreases s.len(),
{
    if s.len() > 0 {
        lemma_assoc_dom(s.drop_last(), k);
        if assoc_map(s).dom().contains(k) && k != s.last().0 {
            let i = choose|i: int| 0 <= i < s.len() - 1 && s.drop_last()[i].0 == k;
            assert(s[i].0 == k);
        }
        if exists|i: int| 0 <= i < s.len() && s[i].0 == k {
            let i = choose|i: int| 0 <= i < s.len() && s[i].0 == k;
            if i < s.len() - 1 {
                assert(s.drop_last()[i].0 == k);
            }
        }
    }
}

/// With distinct keys, each entry's value is the value bound to its key.
pub proof fn lemma_assoc_index<V>(s: Seq<(Seq<char>, V)>, i: int)
    requires
        keys_distinct(s),
        0 <= i < s.len(),
    ensures
        assoc_map(s).dom().contains(s[i].0),
        assoc_map(s)[s[i].0] == s[i].1,
    decreases s.len(),
{
    if i < s.len() - 1 {
        assert(keys_distinct(s.drop_last()));
        lemma_assoc_index(s.drop_last(), i);
        assert(s.drop_last()[i] == s[i]);
    }
}

/// Replacing the value of an entry rebinds its key.
pub proof fn lemma_assoc_update<V>(s: Seq<(Seq<char>, V)>, i: int, v: V)
    requires
        keys_distinct(s),
        0 <= i < s.len(),
    ensures
        assoc_map(s.update(i, (s[i].0, v))) == assoc_map(s).insert(s[i].0, v),
        keys_distinct(s.update(i, (s[i].0, v))),
    decreases s.len(),
{
    let k = s[i].0;
    let t = s.update(i, (k, v));
    if i == s.len() - 1 {
        assert(t.drop_last() =~= s.drop_last());
        assert(assoc_map(t) =~= assoc_map(s).insert(k, v));
    } else {
        assert(keys_distinct(s.drop_last()));
        lemma_assoc_update(s.drop_last(), i, v);
        assert(t.drop_last() =~= s.drop_last().update(i, (k, v)));
        assert(s.last().0 != k);
        assert(assoc_map(t) =~= assoc_map(s).insert(k, v));
    }
}

/// Appending an entry with a new key binds it and keeps the keys distinct.
pub proof fn lemma_assoc_push<V>(s: Seq<(Seq<char>, V)>, k: Seq<char>, v: V)
    requires
        keys_distinct(s),
        forall|i: int| 0 <= i < s.len() ==> s[i].0 != k,
    ensures
        assoc_map(s.push((k, v))) == assoc_map(s).insert(k, v),
        keys_distinct(s.push((k, v))),
{
    assert(s.push((k, v)).drop_last() =~= s);
}

/// Index of the entry whose key is `name`, if any.
pub fn find_key<V>(s: &Vec<(String, V)>, name: &Vec<char>) -> (r: Option<usize>)
    ensures
        match r {
            Some(i) => i < s@.len() && s@[i as int].0@ == name@,
            None => forall|i: int| 0 <= i < s@.len() ==> s@[i].0@ != name@,
        },
{
    let mut i: usize = 0;
    while i < s.len()
        invariant
            i <= s@.len(),
            forall|j: int| 0 <= j < i ==> s@[j].0@ != name@,
        decreases s@.len() - i,
    {
        let k = chars_of(s[i].0.as_str());
        if chars_eq(&k, name) {
            return Some(i);
        }
        i = i + 1;
    }
    None
}

/// Bind `k` to `v`: the entry for `k` is replaced if there is one, else appended.
pub fn assoc_set<V: DeepView>(s: &mut Vec<(String, V)>, k: String, v: V)
    requires
        keys_distinct(old(s).deep_view()),
    ensures
        keys_distinct(final(s).deep_view()),
        assoc_map(final(s).deep_view()) == assoc_map(old(s).deep_view()).insert(k@, v.deep_view()),
{
    let kv = chars_of(k.as_str());
    let ghost d = s.deep_view();
    let ghost kd = k@;
    let ghost vd = v.deep_view();
    match find_key(s, &kv) {
        Some(i) => {
            s.set(i, (k, v));
            proof {
                lemma_assoc_update(d, i as int, vd);
                assert(s.deep_view() =~= d.update(i as int, (d[i as int].0, vd)));
            }
        },
        None => {
            s.push((k, v));
            proof {
                lemma_assoc_push(d, kd, vd);
                assert(s.deep_view() =~= d.push((kd, vd)));
            }
        },
    }
}

} // verus!
