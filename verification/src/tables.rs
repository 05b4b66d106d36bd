//! Walking hash maps whose keys are ids.

use std::collections::HashMap;
use vstd::prelude::*;

verus! {

broadcast use vstd::std_specs::hash::group_hash_axioms;

/// The keys of a table, each once, in the order in which the table is walked.
pub fn ids<V>(table: &HashMap<u128, V>) -> (keys: Vec<u128>)
    ensures
        keys@.no_duplicates(),
        keys@.to_set() == table@.dom(),
        forall|k: u128| keys@.contains(k) <==> #[trigger] table@.contains_key(k),
{
    let mut keys: Vec<u128> = Vec::new();
    for key in walk: table.keys()
        invariant
            keys@.len() == walk.index(),
            forall|i: int| 0 <= i < keys@.len() ==> keys@[i] == *walk.seq()[i],
    {
        keys.push(*key);
    }
    proof {
        let walked = vstd::std_specs::iter::IteratorSpec::remaining(
            &vstd::std_specs::hash::spec_keys_iter(table),
        );
        assert(keys@ =~= walked.unref());
        assert forall|k: u128| keys@.contains(k) <==> #[trigger] table@.contains_key(k) by {
            assert(keys@.to_set().contains(k) <==> table@.dom().contains(k));
        }
        assert forall|i: int, j: int| 0 <= i < j < keys@.len() implies keys@[i] != keys@[j] by {
            assert(walked[i] != walked[j]);
        }
    }
    keys
}

/// What a sequence contains after one more element.
pub(crate) proof fn push_contains<T>(s: Seq<T>, a: T)
    ensures
        forall|x: T| #[trigger] s.push(a).contains(x) <==> s.contains(x) || x == a,
        s.no_duplicates() && !s.contains(a) ==> s.push(a).no_duplicates(),
{
    assert forall|x: T| #[trigger] s.push(a).contains(x) <==> s.contains(x) || x == a by {
        if s.contains(x) {
            let i = choose|i: int| 0 <= i < s.len() && s[i] == x;
            assert(s.push(a)[i] == x);
        }
        assert(s.push(a)[s.len() as int] == a);
    }
    if s.no_duplicates() && !s.contains(a) {
        assert forall|i: int, j: int|
            0 <= i < j < s.push(a).len() implies s.push(a)[i] != s.push(a)[j] by {
            if j == s.len() {
                assert(s.contains(s[i]));
            }
        }
    }
}

} // verus!
