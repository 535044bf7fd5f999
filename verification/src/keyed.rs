//! Lists of keyed values, in which a later value counts for an earlier one with its key.
use vstd::prelude::*;

verus! {

/// What a list of keyed values holds: of two values with one key, the later.
pub open spec fn keyed<V, W>(s: Seq<(String, V)>, value: spec_fn(V) -> W) -> Map<Seq<char>, W>
    decreases s.len(),
{
    if s.len() == 0 {
        Map::empty()
    } else {
        keyed(s.drop_last(), value).insert(s.last().0@, value(s.last().1))
    }
}

/// No later value has the key of the value at `i`.
pub open spec fn last_of_key<V>(s: Seq<(String, V)>, i: int) -> bool {
    &&& 0 <= i < s.len()
    &&& forall|j: int| i < j < s.len() ==> (#[trigger] s[j]).0@ != s[i].0@
}

pub proof fn lemma_keyed_last<V, W>(s: Seq<(String, V)>, value: spec_fn(V) -> W, i: int)
    requires
        last_of_key(s, i),
    ensures
        keyed(s, value).contains_key(s[i].0@),
        keyed(s, value)[s[i].0@] == value(s[i].1),
    decreases s.len(),
{
    if i < s.len() - 1 {
        let before = s.drop_last();
        assert(s[s.len() - 1].0@ != s[i].0@);
        assert forall|j: int| i < j < before.len() implies (#[trigger] before[j]).0@
            != before[i].0@ by {
            assert(before[j] == s[j]);
        }
        lemma_keyed_last(before, value, i);
    }
}

pub proof fn lemma_keyed_has_last<V, W>(s: Seq<(String, V)>, value: spec_fn(V) -> W, k: Seq<char>) -> (i:
    int)
    requires
        keyed(s, value).contains_key(k),
    ensures
        last_of_key(s, i),
        s[i].0@ == k,
        keyed(s, value)[k] == value(s[i].1),
    decreases s.len(),
{
    if s.last().0@ == k {
        s.len() - 1
    } else {
        let before = s.drop_last();
        let i = lemma_keyed_has_last(before, value, k);
        assert forall|j: int| i < j < s.len() implies (#[trigger] s[j]).0@ != s[i].0@ by {
            if j < before.len() {
                assert(before[j] == s[j]);
            }
        }
        i
    }
}

pub(crate) fn is_last_of_key<V>(s: &Vec<(String, V)>, i: usize) -> (r: bool)
    requires
        i < s.len(),
    ensures
        r <==> last_of_key(s@, i as int),
{
    let mut j: usize = i + 1;
    while j < s.len()
        invariant
            i < j <= s.len(),
            forall|l: int| i < l < j ==> (#[trigger] s@[l]).0@ != s@[i as int].0@,
        decreases s.len() - j,
    {
        if s[j].0 == s[i].0 {
            return false;
        }
        j = j + 1;
    }
    true
}

/// The map has a key.
pub open spec fn has_any<W>(map: Map<Seq<char>, W>) -> bool {
    exists|key: Seq<char>| map.contains_key(key)
}

pub proof fn lemma_keyed_has_any<V, W>(s: Seq<(String, V)>, value: spec_fn(V) -> W)
    ensures
        has_any(keyed(s, value)) <==> s.len() > 0,
{
    if s.len() > 0 {
        lemma_keyed_last(s, value, s.len() - 1);
        assert(keyed(s, value).contains_key(s[s.len() - 1].0@));
    }
}

pub proof fn lemma_keyed_single<V, W>(s: Seq<(String, V)>, value: spec_fn(V) -> W)
    requires
        s.len() == 1,
    ensures
        keyed(s, value) == Map::<Seq<char>, W>::empty().insert(s[0].0@, value(s[0].1)),
{
    reveal_with_fuel(keyed, 2);
}

/// Where the last value with the key stands.
pub(crate) fn find_last<V>(s: &Vec<(String, V)>, key: &String) -> (r: Option<usize>)
    ensures
        match r {
            Some(i) => last_of_key(s@, i as int) && s@[i as int].0@ == key@,
            None => forall|i: int| 0 <= i < s@.len() ==> (#[trigger] s@[i]).0@ != key@,
        },
{
    let mut i: usize = s.len();
    while i > 0
        invariant
            i <= s.len(),
            forall|j: int| i <= j < s@.len() ==> (#[trigger] s@[j]).0@ != key@,
        decreases i,
    {
        i = i - 1;
        if s[i].0 == *key {
            return Some(i);
        }
    }
    None
}

} // verus!
