//! A map from names to values that remembers the order of insertion.

use vstd::prelude::*;
use crate::text::same_text;

verus! {

/// Association list keyed by name. Setting an existing name replaces its value in place.
#[derive(Debug)]
pub struct NameMap<V> {
    pub entries: Vec<(String, V)>,
}

/// The name and value pairs in order of insertion.
pub open spec fn pairs_of<V>(s: Seq<(String, V)>) -> Seq<(Seq<char>, V)> {
    Seq::new(s.len(), |i: int| (s[i].0@, s[i].1))
}

/// The map given by a list of pairs; the first pair with a name decides.
pub open spec fn map_of<V>(s: Seq<(Seq<char>, V)>) -> Map<Seq<char>, V>
    decreases s.len(),
{
    if s.len() == 0 {
        Map::empty()
    } else {
        map_of(s.subrange(1, s.len() as int)).insert(s[0].0, s[0].1)
    }
}

/// The list after setting `k` to `v`.
pub open spec fn set_pair<V>(s: Seq<(Seq<char>, V)>, k: Seq<char>, v: V) -> Seq<(Seq<char>, V)>
    decreases s.len(),
{
    if s.len() == 0 {
        seq![(k, v)]
    } else if s[0].0 == k {
        seq![(k, v)] + s.subrange(1, s.len() as int)
    } else {
        seq![s[0]] + set_pair(s.subrange(1, s.len() as int), k, v)
    }
}

/// Setting a pair updates exactly that name of the map.
pub proof fn lemma_set_pair<V>(s: Seq<(Seq<char>, V)>, k: Seq<char>, v: V)
    ensures
        map_of(set_pair(s, k, v)) == map_of(s).insert(k, v),
    decreases s.len(),
{
    let t = set_pair(s, k, v);
    if s.len() == 0 {
        assert(t.subrange(1, t.len() as int) =~= Seq::<(Seq<char>, V)>::empty());
        assert(map_of(t.subrange(1, t.len() as int)) == Map::<Seq<char>, V>::empty());
    } else {
        let rest = s.subrange(1, s.len() as int);
        if s[0].0 == k {
            assert(t.subrange(1, t.len() as int) =~= rest);
            assert(map_of(t) =~= map_of(s).insert(k, v));
        } else {
            lemma_set_pair(rest, k, v);
            assert(t.subrange(1, t.len() as int) =~= set_pair(rest, k, v));
            assert(map_of(t) =~= map_of(s).insert(k, v));
        }
    }
}

/// What is found at the first place of a name, or that the name is absent.
proof fn lemma_lookup<V>(s: Seq<(Seq<char>, V)>, k: Seq<char>, at: int)
    requires
        0 <= at <= s.len(),
        forall|j: int| 0 <= j < at ==> (#[trigger] s[j]).0 != k,
    ensures
        at < s.len() && s[at].0 == k ==> map_of(s).contains_key(k) && map_of(s)[k] == s[at].1,
        at == s.len() ==> !map_of(s).contains_key(k),
    decreases at,
{
    if at > 0 {
        let rest = s.subrange(1, s.len() as int);
        assert forall|j: int| 0 <= j < at - 1 implies (#[trigger] rest[j]).0 != k by {
            assert(rest[j] == s[j + 1]);
        }
        lemma_lookup(rest, k, at - 1);
        assert(s[0].0 != k);
    }
}

/// Setting the first place of a name, or appending it.
proof fn lemma_set_at<V>(s: Seq<(Seq<char>, V)>, k: Seq<char>, v: V, at: int)
    requires
        0 <= at <= s.len(),
        forall|j: int| 0 <= j < at ==> (#[trigger] s[j]).0 != k,
        at < s.len() ==> s[at].0 == k,
    ensures
        at < s.len() ==> set_pair(s, k, v) == s.update(at, (k, v)),
        at == s.len() ==> set_pair(s, k, v) == s.push((k, v)),
    decreases s.len(),
{
    if s.len() == 0 {
        assert(set_pair(s, k, v) =~= s.push((k, v)));
    } else if at == 0 {
        assert(set_pair(s, k, v) =~= s.update(at, (k, v)));
    } else {
        let rest = s.subrange(1, s.len() as int);
        assert(s[0].0 != k);
        assert forall|j: int| 0 <= j < at - 1 implies (#[trigger] rest[j]).0 != k by {
            assert(rest[j] == s[j + 1]);
        }
        lemma_set_at(rest, k, v, at - 1);
        if at < s.len() {
            assert(set_pair(s, k, v) =~= s.update(at, (k, v)));
        } else {
            assert(set_pair(s, k, v) =~= s.push((k, v)));
        }
    }
}

impl<V> View for NameMap<V> {
    type V = Map<Seq<char>, V>;

    open spec fn view(&self) -> Map<Seq<char>, V> {
        map_of(self.pairs())
    }
}

impl<V> NameMap<V> {
    /// The pairs in order of insertion.
    pub open spec fn pairs(&self) -> Seq<(Seq<char>, V)> {
        pairs_of(self.entries@)
    }

    /// The empty map.
    pub fn new() -> (r: Self)
        ensures
            r.pairs() == Seq::<(Seq<char>, V)>::empty(),
            r@ == Map::<Seq<char>, V>::empty(),
    {
        let r = NameMap { entries: Vec::new() };
        proof {
            assert(r.pairs() =~= Seq::<(Seq<char>, V)>::empty());
        }
        r
    }

    fn find(&self, name: &str) -> (at: usize)
        ensures
            at <= self.entries@.len(),
            forall|j: int| 0 <= j < at ==> (#[trigger] self.pairs()[j]).0 != name@,
            at < self.entries@.len() ==> self.pairs()[at as int].0 == name@,
    {
        let n = self.entries.len();
        for i in 0..n
            invariant
                n == self.entries@.len(),
                forall|j: int| 0 <= j < i ==> (#[trigger] self.pairs()[j]).0 != name@,
        {
            if same_text(self.entries[i].0.as_str(), name) {
                return i;
            }
        }
        n
    }

    /// The value of a name.
    pub fn get(&self, name: &str) -> (r: Option<&V>)
        ensures
            match r {
                Some(v) => self@.contains_key(name@) && *v == self@[name@],
                None => !self@.contains_key(name@),
            },
    {
        let at = self.find(name);
        proof {
            lemma_lookup(self.pairs(), name@, at as int);
        }
        if at < self.entries.len() {
            Some(&self.entries[at].1)
        } else {
            None
        }
    }

    /// Whether a name is present.
    pub fn contains(&self, name: &str) -> (r: bool)
        ensures
            r == self@.contains_key(name@),
    {
        self.get(name).is_some()
    }

    /// Sets the value of a name.
    pub fn set(&mut self, name: String, value: V)
        ensures
            final(self).pairs() == set_pair(old(self).pairs(), name@, value),
            final(self)@ == old(self)@.insert(name@, value),
    {
        let at = self.find(name.as_str());
        proof {
            lemma_set_at(self.pairs(), name@, value, at as int);
            lemma_set_pair(self.pairs(), name@, value);
        }
        if at < self.entries.len() {
            self.entries.set(at, (name, value));
            proof {
                assert(self.pairs() =~= old(self).pairs().update(at as int, (name@, value)));
            }
        } else {
            self.entries.push((name, value));
            proof {
                assert(self.pairs() =~= old(self).pairs().push((name@, value)));
            }
        }
    }
}

} // verus!
