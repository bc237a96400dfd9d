//! The header table of a request. Names are folded to lower case when they
//! are stored and when they are looked up, so a lookup never depends on the
//! case in which a name was written.

use crate::text::{
    bytes_eq, eq_ignore_case, lemma_lowercase_idempotent, lemma_lowercase_ignores_case, lowercase,
    to_lowercase,
};
use vstd::prelude::*;

verus! {

/// The value stored in the table `h` under `name`, whatever the case of `name`.
pub open spec fn lookup(h: Map<Seq<u8>, Seq<u8>>, name: Seq<u8>) -> Option<Seq<u8>> {
    if h.contains_key(lowercase(name)) {
        Some(h[lowercase(name)])
    } else {
        None
    }
}

/// The table `h` after a header line with `name` and `value` was read: the
/// value stands under the folded name and replaces what stood there.
pub open spec fn store(h: Map<Seq<u8>, Seq<u8>>, name: Seq<u8>, value: Seq<u8>) -> Map<
    Seq<u8>,
    Seq<u8>,
> {
    h.insert(lowercase(name), value)
}

/// Every key of `h` is in lower case.
pub open spec fn keys_folded(h: Map<Seq<u8>, Seq<u8>>) -> bool {
    forall|k: Seq<u8>| h.contains_key(k) ==> lowercase(k) == k
}

spec fn key_at(e: Seq<(Vec<u8>, Vec<u8>)>, i: int) -> Seq<u8> {
    e[i].0@
}

spec fn has_key(e: Seq<(Vec<u8>, Vec<u8>)>, k: Seq<u8>) -> bool {
    exists|i: int| 0 <= i < e.len() && #[trigger] key_at(e, i) == k
}

spec fn index_of(e: Seq<(Vec<u8>, Vec<u8>)>, k: Seq<u8>) -> int {
    choose|i: int| 0 <= i < e.len() && #[trigger] key_at(e, i) == k
}

spec fn distinct_keys(e: Seq<(Vec<u8>, Vec<u8>)>) -> bool {
    forall|i: int, j: int|
        0 <= i < j < e.len() ==> #[trigger] key_at(e, i) != #[trigger] key_at(e, j)
}

spec fn folded_keys(e: Seq<(Vec<u8>, Vec<u8>)>) -> bool {
    forall|i: int| 0 <= i < e.len() ==> lowercase(#[trigger] key_at(e, i)) == key_at(e, i)
}

spec fn table(e: Seq<(Vec<u8>, Vec<u8>)>) -> Map<Seq<u8>, Seq<u8>> {
    Map::new(|k: Seq<u8>| has_key(e, k), |k: Seq<u8>| e[index_of(e, k)].1@)
}

proof fn lemma_index_of(e: Seq<(Vec<u8>, Vec<u8>)>, k: Seq<u8>, i: int)
    requires
        distinct_keys(e),
        0 <= i < e.len(),
        key_at(e, i) == k,
    ensures
        has_key(e, k),
        index_of(e, k) == i,
        table(e).contains_key(k),
        table(e)[k] == e[i].1@,
{
}

/// A lookup does not depend on the case in which the name is written.
pub proof fn lemma_lookup_ignores_case(h: Map<Seq<u8>, Seq<u8>>, a: Seq<u8>, b: Seq<u8>)
    requires
        eq_ignore_case(a, b),
    ensures
        lookup(h, a) == lookup(h, b),
{
    lemma_lowercase_ignores_case(a, b);
}

/// What was stored under a name is found under every spelling of that name,
/// and a lookup of any other name finds what it found before.
pub proof fn lemma_lookup_after_store(
    h: Map<Seq<u8>, Seq<u8>>,
    name: Seq<u8>,
    value: Seq<u8>,
    query: Seq<u8>,
)
    ensures
        eq_ignore_case(name, query) ==> lookup(store(h, name, value), query) == Some(value),
        !eq_ignore_case(name, query) ==> lookup(store(h, name, value), query) == lookup(h, query),
{
    lemma_lowercase_ignores_case(name, query);
}

/// Storing keeps every key in lower case.
pub proof fn lemma_store_keeps_keys_folded(h: Map<Seq<u8>, Seq<u8>>, name: Seq<u8>, value: Seq<u8>)
    requires
        keys_folded(h),
    ensures
        keys_folded(store(h, name, value)),
{
    lemma_lowercase_idempotent(name);
}

/// The index of the entry stored under `key`, where there is one.
fn position(entries: &Vec<(Vec<u8>, Vec<u8>)>, key: &[u8]) -> (found: Option<usize>)
    ensures
        match found {
            Some(i) => i < entries@.len() && key_at(entries@, i as int) == key@,
            None => forall|j: int| 0 <= j < entries@.len() ==> #[trigger] key_at(entries@, j) != key@,
        },
{
    let mut i: usize = 0;
    while i < entries.len()
        invariant
            i <= entries.len(),
            forall|j: int| 0 <= j < i ==> #[trigger] key_at(entries@, j) != key@,
        decreases entries.len() - i,
    {
        if bytes_eq(entries[i].0.as_slice(), key) {
            return Some(i);
        }
        i += 1;
    }
    None
}

/// A map from header names to header values that folds every name to lower
/// case. A name occurs at most once; storing under a name that is present
/// replaces its value.
#[derive(Debug)]
pub struct Headers {
    entries: Vec<(Vec<u8>, Vec<u8>)>,
}

impl View for Headers {
    type V = Map<Seq<u8>, Seq<u8>>;

    closed spec fn view(&self) -> Map<Seq<u8>, Seq<u8>> {
        table(self.entries@)
    }
}

impl Headers {
    #[verifier::type_invariant]
    spec fn well_formed(self) -> bool {
        distinct_keys(self.entries@) && folded_keys(self.entries@)
    }

    /// The empty table.
    pub fn new() -> (headers: Headers)
        ensures
            headers@ == Map::<Seq<u8>, Seq<u8>>::empty(),
    {
        let headers = Headers { entries: Vec::new() };
        assert(headers@ =~= Map::<Seq<u8>, Seq<u8>>::empty());
        headers
    }

    /// Stores `value` under the folded `name`, in place of any value that
    /// stood there.
    pub fn insert(&mut self, name: &[u8], value: Vec<u8>)
        ensures
            final(self)@ == store(old(self)@, name@, value@),
    {
        proof {
            use_type_invariant(&*self);
            lemma_lowercase_idempotent(name@);
        }
        let key = to_lowercase(name);
        let ghost k = key@;
        let ghost v = value@;
        let ghost before = self.entries@;
        let mut entries: Vec<(Vec<u8>, Vec<u8>)> = Vec::new();
        std::mem::swap(&mut self.entries, &mut entries);
        let found = position(&entries, key.as_slice());
        let ghost i: int = match found {
            Some(at) => at as int,
            None => before.len() as int,
        };
        match found {
            Some(at) => {
                entries.set(at, (key, value));
            },
            None => {
                entries.push((key, value));
            },
        }
        proof {
            let after = entries@;
            assert forall|j: int| 0 <= j < after.len() implies #[trigger] key_at(after, j) == (if j
                < before.len() {
                key_at(before, j)
            } else {
                k
            }) by {}
            assert(distinct_keys(after));
            assert(folded_keys(after));
            assert(table(after) =~= table(before).insert(k, v)) by {
                assert forall|q: Seq<u8>| has_key(after, q) <==> (has_key(before, q) || q == k) by {
                    if has_key(after, q) {
                        let j = index_of(after, q);
                        if j < before.len() {
                            assert(key_at(before, j) == q);
                        }
                    }
                    if has_key(before, q) {
                        let j = index_of(before, q);
                        assert(key_at(after, j) == q);
                    }
                    if q == k {
                        assert(key_at(after, i) == q);
                    }
                }
                assert forall|q: Seq<u8>| has_key(after, q) implies table(after)[q] == (if q == k {
                    v
                } else {
                    table(before)[q]
                }) by {
                    if q == k {
                        lemma_index_of(after, q, i);
                    } else {
                        let j = index_of(before, q);
                        lemma_index_of(before, q, j);
                        lemma_index_of(after, q, j);
                    }
                }
            }
        }
        self.entries = entries;
    }

    /// The value stored under `name`, whatever the case of `name`.
    pub fn get(&self, name: &[u8]) -> (value: Option<&Vec<u8>>)
        ensures
            match value {
                Some(v) => lookup(self@, name@) == Some(v@),
                None => lookup(self@, name@) is None,
            },
    {
        proof {
            use_type_invariant(self);
        }
        let key = to_lowercase(name);
        match position(&self.entries, key.as_slice()) {
            Some(i) => {
                proof {
                    lemma_index_of(self.entries@, key@, i as int);
                }
                Some(&self.entries[i].1)
            },
            None => None,
        }
    }
}

} // verus!
