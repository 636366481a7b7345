//! A map from names to values, kept as a list of bindings in the order they
//! were made: a later binding of a name hides the earlier ones.
use vstd::prelude::*;

verus! {

#[derive(Debug)]
pub struct NameMap<V> {
    pub entries: Vec<(String, V)>,
}

/// The map that the bindings `s` make, the later ones winning.
pub open spec fn map_of<V: View>(s: Seq<(String, V)>) -> Map<Seq<char>, V::V>
    decreases s.len(),
{
    if s.len() == 0 {
        Map::empty()
    } else {
        map_of(s.drop_last()).insert(s.last().0@, s.last().1@)
    }
}

/// Bindings after position `i` that do not bind `k` leave its value as the
/// first `i` bindings made it.
pub proof fn lemma_map_of_unbound_suffix<V: View>(s: Seq<(String, V)>, i: int, k: Seq<char>)
    requires
        0 <= i <= s.len(),
        forall|j: int| i <= j < s.len() ==> (#[trigger] s[j]).0@ != k,
    ensures
        map_of(s).contains_key(k) == map_of(s.take(i)).contains_key(k),
        map_of(s).contains_key(k) ==> map_of(s)[k] == map_of(s.take(i))[k],
    decreases s.len() - i,
{
    if i < s.len() {
        let t = s.drop_last();
        assert(t.take(i) =~= s.take(i));
        assert forall|j: int| i <= j < t.len() implies (#[trigger] t[j]).0@ != k by {
            assert(t[j] == s[j]);
        }
        lemma_map_of_unbound_suffix(t, i, k);
    } else {
        assert(s.take(i) =~= s);
    }
}

impl<V: View> View for NameMap<V> {
    type V = Map<Seq<char>, V::V>;

    open spec fn view(&self) -> Map<Seq<char>, V::V> {
        map_of(self.entries@)
    }
}

impl<V: View> NameMap<V> {
    pub fn new() -> (r: NameMap<V>)
        ensures
            r@ == Map::<Seq<char>, V::V>::empty(),
    {
        NameMap { entries: Vec::new() }
    }

    /// Binds `k` to `v`, hiding any earlier binding of `k`.
    pub fn insert(&mut self, k: String, v: V)
        ensures
            final(self)@ == old(self)@.insert(k@, v@),
    {
        let ghost before = self.entries@;
        self.entries.push((k, v));
        proof {
            assert(self.entries@.drop_last() =~= before);
        }
    }

    /// The position of the binding of `k` that is in force.
    fn find(&self, k: &String) -> (r: Option<usize>)
        ensures
            match r {
                Some(i) => i < self.entries.len() && self@.contains_key(k@) && self@[k@]
                    == self.entries@[i as int].1@,
                None => !self@.contains_key(k@),
            },
    {
        let mut i: usize = self.entries.len();
        while i > 0
            invariant
                i <= self.entries.len(),
                forall|j: int| i <= j < self.entries.len() ==> (#[trigger] self.entries@[j]).0@
                    != k@,
            decreases i,
        {
            if self.entries[i - 1].0 == *k {
                proof {
                    let s = self.entries@;
                    lemma_map_of_unbound_suffix(s, i as int, k@);
                    assert(s.take(i as int).drop_last() =~= s.take(i - 1));
                }
                return Some(i - 1);
            }
            i = i - 1;
        }
        proof {
            lemma_map_of_unbound_suffix(self.entries@, 0, k@);
        }
        None
    }

    /// The value bound to `k`, if any.
    pub fn get(&self, k: &String) -> (r: Option<&V>)
        ensures
            match r {
                Some(v) => self@.contains_key(k@) && self@[k@] == v@,
                None => !self@.contains_key(k@),
            },
    {
        match self.find(k) {
            Some(i) => Some(&self.entries[i].1),
            None => None,
        }
    }

    pub fn contains_key(&self, k: &String) -> (r: bool)
        ensures
            r == self@.contains_key(k@),
    {
        self.find(k).is_some()
    }
}

} // verus!
