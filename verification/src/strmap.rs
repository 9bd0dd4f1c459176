//! An association map keyed by strings, kept as an ordered list of
//! entries with pairwise-distinct keys. The entry order is observable —
//! the file codec writes entries in it — so both a sequence view and a
//! map view are provided.

use vstd::prelude::*;

verus! {

/// Looks a key up in an entry sequence, front to back.
pub open spec fn lookup<V>(s: Seq<(String, V)>, k: Seq<char>) -> Option<V>
    decreases s.len(),
{
    if s.len() == 0 {
        None
    } else if s[0].0@ == k {
        Some(s[0].1)
    } else {
        lookup(s.drop_first(), k)
    }
}

/// Pairwise-distinct keys.
pub open spec fn distinct_keys<V>(s: Seq<(String, V)>) -> bool {
    forall|i: int, j: int| 0 <= i < j < s.len() ==> (#[trigger] s[i].0)@ != (#[trigger] s[j].0)@
}

/// The map an entry sequence denotes.
pub open spec fn as_map<V>(s: Seq<(String, V)>) -> Map<Seq<char>, V> {
    Map::new(|k: Seq<char>| lookup(s, k) is Some, |k: Seq<char>| lookup(s, k)->Some_0)
}

pub proof fn lemma_lookup_at<V>(s: Seq<(String, V)>, i: int)
    requires
        distinct_keys(s),
        0 <= i < s.len(),
    ensures
        lookup(s, s[i].0@) == Some(s[i].1),
    decreases s.len(),
{
    if i > 0 {
        assert(s[0].0@ != s[i].0@);
        lemma_lookup_at(s.drop_first(), i - 1);
    }
}

pub proof fn lemma_lookup_some_at<V>(s: Seq<(String, V)>, k: Seq<char>)
    requires
        lookup(s, k) is Some,
    ensures
        exists|i: int| 0 <= i < s.len() && (#[trigger] s[i].0)@ == k && s[i].1 == lookup(s, k)->Some_0,
    decreases s.len(),
{
    if s.len() > 0 && s[0].0@ != k {
        lemma_lookup_some_at(s.drop_first(), k);
        let j = choose|j: int|
            0 <= j < s.drop_first().len() && (#[trigger] s.drop_first()[j].0)@ == k
                && s.drop_first()[j].1 == lookup(s.drop_first(), k)->Some_0;
        assert(s[j + 1].0@ == k && s[j + 1].1 == lookup(s, k)->Some_0);
    }
}

/// Replacing the entry that holds a key rewrites that key's value and no
/// other.
pub proof fn lemma_lookup_update<V>(s: Seq<(String, V)>, i: int, k: String, v: V, x: Seq<char>)
    requires
        distinct_keys(s),
        0 <= i < s.len(),
        s[i].0@ == k@,
    ensures
        lookup(s.update(i, (k, v)), x) == if x == k@ {
            Some(v)
        } else {
            lookup(s, x)
        },
        distinct_keys(s.update(i, (k, v))),
    decreases s.len(),
{
    let t = s.update(i, (k, v));
    assert forall|a: int, b: int| 0 <= a < b < t.len() implies (#[trigger] t[a].0)@
        != (#[trigger] t[b].0)@ by {
        assert(s[a].0@ != s[b].0@);
    }
    if i == 0 {
        assert(t[0] == (k, v));
        assert(t.drop_first() =~= s.drop_first());
    } else {
        assert(t[0] == s[0]);
        assert(s[0].0@ != k@);
        assert(t.drop_first() =~= s.drop_first().update(i - 1, (k, v)));
        lemma_lookup_update(s.drop_first(), i - 1, k, v, x);
    }
}

/// Appending a fresh key adds that binding and no other.
pub proof fn lemma_lookup_push<V>(s: Seq<(String, V)>, k: String, v: V, x: Seq<char>)
    requires
        lookup(s, k@) is None,
    ensures
        lookup(s.push((k, v)), x) == if x == k@ {
            Some(v)
        } else {
            lookup(s, x)
        },
    decreases s.len(),
{
    let t = s.push((k, v));
    if s.len() == 0 {
        assert(t[0] == (k, v));
        assert(t.drop_first() =~= Seq::<(String, V)>::empty());
    } else {
        assert(t[0] == s[0]);
        assert(t.drop_first() =~= s.drop_first().push((k, v)));
        lemma_lookup_push(s.drop_first(), k, v, x);
    }
}

pub proof fn lemma_push_distinct<V>(s: Seq<(String, V)>, k: String, v: V)
    requires
        distinct_keys(s),
        lookup(s, k@) is None,
    ensures
        distinct_keys(s.push((k, v))),
{
    let t = s.push((k, v));
    assert forall|a: int, b: int| 0 <= a < b < t.len() implies (#[trigger] t[a].0)@
        != (#[trigger] t[b].0)@ by {
        if b < s.len() {
            assert(s[a].0@ != s[b].0@);
        } else {
            lemma_lookup_at(s, a);
            assert(t[a] == s[a]);
        }
    }
}

/// Compares two strings for character-for-character equality.
pub fn str_eq(a: &str, b: &str) -> (r: bool)
    ensures
        r == (a@ == b@),
{
    let la = a.unicode_len();
    let lb = b.unicode_len();
    if la != lb {
        return false;
    }
    let mut i: usize = 0;
    loop
        invariant
            i <= la,
            la == a@.len(),
            la == b@.len(),
            forall|j: int| 0 <= j < i ==> a@[j] == b@[j],
        decreases la - i,
    {
        if i >= la {
            assert(a@ =~= b@);
            return true;
        }
        let ca = a.get_char(i);
        let cb = b.get_char(i);
        if !(ca == cb) {
            return false;
        }
        i = i + 1;
    }
}

/// An association map from account identifiers to values, holding its
/// entries in the order they were first added.
#[derive(Debug)]
pub struct StrMap<V> {
    pub entries: Vec<(String, V)>,
}

impl<V> StrMap<V> {
    pub open spec fn view(&self) -> Seq<(String, V)> {
        self.entries@
    }

    /// The entry keys are pairwise distinct.
    pub open spec fn wf(&self) -> bool {
        distinct_keys(self.entries@)
    }

    /// The map this table denotes.
    pub open spec fn map_view(&self) -> Map<Seq<char>, V> {
        as_map(self.entries@)
    }

    pub fn new() -> (r: Self)
        ensures
            r.wf(),
            r@ == Seq::<(String, V)>::empty(),
    {
        StrMap { entries: Vec::new() }
    }

    pub fn len(&self) -> (r: usize)
        ensures
            r == self@.len(),
    {
        self.entries.len()
    }

    /// The position of a key's entry, scanning front to back.
    fn find(&self, k: &str) -> (r: Option<usize>)
        requires
            self.wf(),
        ensures
            match r {
                Some(i) => i < self@.len() && self@[i as int].0@ == k@ && lookup(self@, k@)
                    == Some(self@[i as int].1),
                None => lookup(self@, k@) is None,
            },
    {
        let n = self.entries.len();
        let mut i: usize = 0;
        loop
            invariant
                i <= n,
                n == self@.len(),
                self.wf(),
                forall|j: int| 0 <= j < i ==> (#[trigger] self@[j].0)@ != k@,
            decreases n - i,
        {
            if i >= n {
                proof {
                    if lookup(self@, k@) is Some {
                        lemma_lookup_some_at(self@, k@);
                    }
                }
                return None;
            }
            let pair = &self.entries[i];
            if str_eq(pair.0.as_str(), k) {
                proof {
                    lemma_lookup_at(self@, i as int);
                }
                return Some(i);
            }
            i = i + 1;
        }
    }

    /// Reads the value a key is bound to.
    pub fn get(&self, k: &str) -> (r: Option<&V>)
        requires
            self.wf(),
        ensures
            match r {
                Some(v) => lookup(self@, k@) == Some(*v) && self.map_view().contains_key(k@)
                    && self.map_view()[k@] == *v,
                None => lookup(self@, k@) is None && !self.map_view().contains_key(k@),
            },
    {
        match self.find(k) {
            Some(i) => Some(&self.entries[i].1),
            None => None,
        }
    }

    /// Binds a key to a value: rewrites the key's entry in place, or
    /// appends a fresh entry at the back.
    pub fn insert(&mut self, k: String, v: V)
        requires
            old(self).wf(),
        ensures
            final(self).wf(),
            final(self).map_view() == old(self).map_view().insert(k@, v),
            forall|x: Seq<char>|
                lookup(final(self)@, x) == if x == k@ {
                    Some(v)
                } else {
                    lookup(old(self)@, x)
                },
            (exists|i: int|
                0 <= i < old(self)@.len() && (#[trigger] old(self)@[i].0)@ == k@ && final(self)@
                    == old(self)@.update(i, (k, v))) || (lookup(old(self)@, k@) is None
                && final(self)@ == old(self)@.push((k, v))),
    {
        let ghost gk = k@;
        let found = self.find(k.as_str());
        match found {
            Some(i) => {
                proof {
                    assert forall|x: Seq<char>| true implies lookup(
                        self@.update(i as int, (k, v)),
                        x,
                    ) == if x == gk {
                        Some(v)
                    } else {
                        lookup(self@, x)
                    } by {
                        lemma_lookup_update(self@, i as int, k, v, x);
                    }
                    lemma_lookup_update(self@, i as int, k, v, gk);
                }
                self.entries[i] = (k, v);
            },
            None => {
                proof {
                    assert forall|x: Seq<char>| true implies lookup(self@.push((k, v)), x) == if x
                        == gk {
                        Some(v)
                    } else {
                        lookup(self@, x)
                    } by {
                        lemma_lookup_push(self@, k, v, x);
                    }
                    lemma_push_distinct(self@, k, v);
                }
                self.entries.push((k, v));
            },
        }
        proof {
            assert(final(self).map_view() =~= old(self).map_view().insert(gk, v));
        }
    }
}

} // verus!
