//! Lookup by symbol in small association vectors.
//!
//! The engine keeps its per-symbol tables (history, cache, alerts,
//! holdings, fetch times) as vectors of entries carrying their own key;
//! this module gives them one shared find operation and its theory.

use vstd::prelude::*;

verus! {

/// An entry stored under a symbol key.
pub trait Keyed {
    /// The key the entry is stored under.
    spec fn key(&self) -> Seq<char>;

    /// Whether this entry's key equals the given symbol.
    fn key_is(&self, sym: &str) -> (r: bool)
        ensures
            r == (self.key() == sym@),
    ;
}

/// Index of the first entry with the given key, `-1` when there is none.
pub open spec fn spec_find<T: Keyed>(s: Seq<T>, key: Seq<char>) -> int
    decreases s.len(),
{
    if s.len() == 0 {
        -1
    } else if s[0].key() == key {
        0
    } else {
        let r = spec_find(s.drop_first(), key);
        if r == -1 {
            -1
        } else {
            r + 1
        }
    }
}

/// What a successful or failed find means for the entries.
pub proof fn lemma_find_props<T: Keyed>(s: Seq<T>, key: Seq<char>)
    ensures
        spec_find(s, key) == -1 ==> forall|i: int|
            0 <= i < s.len() ==> (#[trigger] s[i]).key() != key,
        spec_find(s, key) != -1 ==> {
            &&& 0 <= spec_find(s, key) < s.len()
            &&& s[spec_find(s, key)].key() == key
            &&& forall|i: int| 0 <= i < spec_find(s, key) ==> (#[trigger] s[i]).key() != key
        },
    decreases s.len(),
{
    if s.len() > 0 {
        lemma_find_props(s.drop_first(), key);
        if spec_find(s, key) == -1 {
            assert forall|i: int| 0 <= i < s.len() implies (#[trigger] s[i]).key() != key by {
                if i > 0 {
                    assert(s[i] == s.drop_first()[i - 1]);
                }
            }
        } else {
            let f = spec_find(s, key);
            if f > 0 {
                assert(s[f] == s.drop_first()[f - 1]);
                assert forall|i: int| 0 <= i < f implies (#[trigger] s[i]).key() != key by {
                    if i > 0 {
                        assert(s[i] == s.drop_first()[i - 1]);
                    }
                }
            }
        }
    }
}

/// A matching entry preceded only by non-matching ones is the one found.
pub proof fn lemma_find_at<T: Keyed>(s: Seq<T>, key: Seq<char>, i: int)
    requires
        0 <= i < s.len(),
        s[i].key() == key,
        forall|j: int| 0 <= j < i ==> (#[trigger] s[j]).key() != key,
    ensures
        spec_find(s, key) == i,
    decreases s.len(),
{
    if i > 0 {
        lemma_find_at(s.drop_first(), key, i - 1);
    }
}

/// When no entry matches, nothing is found.
pub proof fn lemma_find_none<T: Keyed>(s: Seq<T>, key: Seq<char>)
    requires
        forall|j: int| 0 <= j < s.len() ==> (#[trigger] s[j]).key() != key,
    ensures
        spec_find(s, key) == -1,
    decreases s.len(),
{
    if s.len() > 0 {
        lemma_find_none(s.drop_first(), key);
    }
}

/// Replacing an entry with one under the same key moves no find result.
pub proof fn lemma_find_update<T: Keyed>(s: Seq<T>, i: int, v: T, key: Seq<char>)
    requires
        0 <= i < s.len(),
        v.key() == s[i].key(),
    ensures
        spec_find(s.update(i, v), key) == spec_find(s, key),
{
    let s2 = s.update(i, v);
    let f = spec_find(s, key);
    lemma_find_props(s, key);
    if f == -1 {
        assert(forall|j: int| 0 <= j < s2.len() ==> (#[trigger] s2[j]).key() != key);
        lemma_find_none(s2, key);
    } else {
        assert(s2[f].key() == key);
        assert(forall|j: int| 0 <= j < f ==> (#[trigger] s2[j]).key() != key);
        lemma_find_at(s2, key, f);
    }
}

/// Appending an entry leaves earlier finds alone; a missing key is
/// found at the end exactly when the new entry carries it.
pub proof fn lemma_find_push<T: Keyed>(s: Seq<T>, v: T, key: Seq<char>)
    ensures
        spec_find(s, key) != -1 ==> spec_find(s.push(v), key) == spec_find(s, key),
        spec_find(s, key) == -1 && v.key() == key ==> spec_find(s.push(v), key) == s.len(),
        spec_find(s, key) == -1 && v.key() != key ==> spec_find(s.push(v), key) == -1,
{
    let s2 = s.push(v);
    let f = spec_find(s, key);
    lemma_find_props(s, key);
    if f != -1 {
        assert(s2[f].key() == key);
        assert(forall|j: int| 0 <= j < f ==> (#[trigger] s2[j]).key() != key);
        lemma_find_at(s2, key, f);
    } else if v.key() == key {
        assert(s2[s.len() as int] == v);
        assert(forall|j: int| 0 <= j < s.len() ==> (#[trigger] s2[j]).key() != key);
        lemma_find_at(s2, key, s.len() as int);
    } else {
        assert(forall|j: int| 0 <= j < s2.len() ==> (#[trigger] s2[j]).key() != key);
        lemma_find_none(s2, key);
    }
}

/// Find the entry stored under `sym`.
pub fn find_index<T: Keyed>(v: &Vec<T>, sym: &str) -> (r: Option<usize>)
    ensures
        match r {
            Some(i) => i < v@.len() && spec_find(v@, sym@) == i,
            None => spec_find(v@, sym@) == -1,
        },
{
    let n = v.len();
    let mut i: usize = 0;
    while i < n
        invariant
            n == v@.len(),
            i <= n,
            forall|j: int| 0 <= j < i ==> (#[trigger] v@[j]).key() != sym@,
        decreases n - i,
    {
        if v[i].key_is(sym) {
            proof {
                lemma_find_at(v@, sym@, i as int);
            }
            return Some(i);
        }
        i += 1;
    }
    proof {
        lemma_find_none(v@, sym@);
    }
    None
}

} // verus!
