//! A map from text keys to values, kept as the list of its insertions.
use vstd::prelude::*;

verus! {

/// The map that a list of insertions builds: a later insertion of a key replaces an earlier one.
pub open spec fn dict_map<V: View>(s: Seq<(String, V)>) -> Map<Seq<char>, V::V>
    decreases s.len(),
{
    if s.len() == 0 {
        Map::empty()
    } else {
        dict_map(s.drop_last()).insert(s.last().0@, s.last().1@)
    }
}

/// Values that can be copied, the copy having the same view as the value copied.
pub trait DeepCopy: View + Sized {
    fn deep_copy(&self) -> (r: Self)
        ensures
            r@ == self@,
    ;
}

impl DeepCopy for String {
    fn deep_copy(&self) -> (r: String)
        ensures
            r@ == self@,
    {
        self.clone()
    }
}

/// A map from text keys to values.
#[derive(Clone, Debug)]
pub struct Dict<V> {
    entries: Vec<(String, V)>,
}

impl<V: View> View for Dict<V> {
    type V = Map<Seq<char>, V::V>;

    closed spec fn view(&self) -> Map<Seq<char>, V::V> {
        dict_map(self.entries@)
    }
}

/// A key that none of `s[i..]` holds keeps in the map of `s` what it has in the map of `s[..i]`.
proof fn lemma_dict_map_prefix<V: View>(s: Seq<(String, V)>, i: int, k: Seq<char>)
    requires
        0 <= i <= s.len(),
        forall|j: int| i <= j < s.len() ==> (#[trigger] s[j]).0@ != k,
    ensures
        dict_map(s).contains_key(k) == dict_map(s.take(i)).contains_key(k),
        dict_map(s).contains_key(k) ==> dict_map(s)[k] == dict_map(s.take(i))[k],
    decreases s.len() - i,
{
    if i < s.len() {
        assert(s.drop_last() == s.take(s.len() - 1));
        lemma_dict_map_prefix(s.drop_last(), i, k);
        assert(s.drop_last().take(i) == s.take(i));
    } else {
        assert(s.take(i) == s);
    }
}

impl<V: View> Dict<V> {
    /// The entries, in the order they were inserted.
    pub closed spec fn spec_entries(&self) -> Seq<(String, V)> {
        self.entries@
    }

    /// An empty map.
    pub fn new() -> (r: Dict<V>)
        ensures
            r@ == Map::<Seq<char>, V::V>::empty(),
    {
        Dict { entries: Vec::new() }
    }

    /// Sets `k` to `v`.
    pub fn insert(&mut self, k: String, v: V)
        ensures
            final(self)@ == old(self)@.insert(k@, v@),
    {
        self.entries.push((k, v));
        proof {
            assert(self.entries@.drop_last() == old(self).entries@);
        }
    }

    /// The value of `k`, if it has one.
    pub fn get(&self, k: &str) -> (r: Option<&V>)
        ensures
            match r {
                Some(v) => self@.contains_key(k@) && v@ == self@[k@],
                None => !self@.contains_key(k@),
            },
    {
        let mut i = self.entries.len();
        while i > 0
            invariant
                i <= self.entries.len(),
                forall|j: int| i <= j < self.entries@.len() ==> (#[trigger] self.entries@[j]).0@ != k@,
            decreases i,
        {
            if crate::text::str_eq(self.entries[i - 1].0.as_str(), k) {
                proof {
                    let s = self.entries@;
                    lemma_dict_map_prefix(s, i as int, k@);
                    let t = s.take(i as int);
                    assert(t.drop_last() == s.take(i - 1));
                    assert(t.last() == s[i - 1]);
                }
                return Some(&self.entries[i - 1].1);
            }
            i -= 1;
        }
        proof {
            lemma_dict_map_prefix(self.entries@, 0, k@);
            assert(self.entries@.take(0) == Seq::<(String, V)>::empty());
        }
        None
    }

    /// Whether `k` has a value.
    pub fn contains_key(&self, k: &str) -> (r: bool)
        ensures
            r == self@.contains_key(k@),
    {
        self.get(k).is_some()
    }
}

impl<V: DeepCopy> Dict<V> {
    /// A copy of the map.
    pub fn deep_copy(&self) -> (r: Dict<V>)
        ensures
            r@ == self@,
    {
        let mut out: Vec<(String, V)> = Vec::new();
        let mut i: usize = 0;
        while i < self.entries.len()
            invariant
                i <= self.entries.len(),
                out@.len() == i,
                forall|j: int| 0 <= j < i ==> (#[trigger] out@[j]).0@ == self.entries@[j].0@ && out@[j].1@ == self.entries@[j].1@,
            decreases self.entries.len() - i,
        {
            let k = self.entries[i].0.clone();
            let v = self.entries[i].1.deep_copy();
            out.push((k, v));
            i += 1;
        }
        proof {
            lemma_dict_map_same(out@, self.entries@);
        }
        Dict { entries: out }
    }
}

proof fn lemma_dict_map_same<V: View>(a: Seq<(String, V)>, b: Seq<(String, V)>)
    requires
        a.len() == b.len(),
        forall|j: int| 0 <= j < a.len() ==> (#[trigger] a[j]).0@ == b[j].0@ && a[j].1@ == b[j].1@,
    ensures
        dict_map(a) == dict_map(b),
    decreases a.len(),
{
    if a.len() > 0 {
        lemma_dict_map_same(a.drop_last(), b.drop_last());
    }
}

/// A key has a value exactly when some insertion was made under it.
pub proof fn lemma_dict_map_keys<V: View>(s: Seq<(String, V)>, k: Seq<char>)
    ensures
        dict_map(s).contains_key(k) <==> exists|j: int| 0 <= j < s.len() && (#[trigger] s[j]).0@ == k,
    decreases s.len(),
{
    if s.len() > 0 {
        lemma_dict_map_keys(s.drop_last(), k);
        if exists|j: int| 0 <= j < s.len() && (#[trigger] s[j]).0@ == k {
            let j = choose|j: int| 0 <= j < s.len() && (#[trigger] s[j]).0@ == k;
            if j < s.len() - 1 {
                assert(s.drop_last()[j] == s[j]);
            }
        }
        if exists|j: int| 0 <= j < s.len() - 1 && (#[trigger] s.drop_last()[j]).0@ == k {
            let j = choose|j: int| 0 <= j < s.len() - 1 && (#[trigger] s.drop_last()[j]).0@ == k;
            assert(s[j] == s.drop_last()[j]);
        }
    }
}

/// Whether one of the first `n` insertions was made under `k`.
pub open spec fn inserted_under<V>(s: Seq<(String, V)>, n: int, k: Seq<char>) -> bool {
    exists|j: int| 0 <= j < n && (#[trigger] s[j]).0@ == k
}

/// Whether a list of texts holds `k`.
pub open spec fn listed(out: Seq<String>, k: Seq<char>) -> bool {
    exists|q: int| 0 <= q < out.len() && (#[trigger] out[q])@ == k
}

impl<V: View> Dict<V> {
    /// The keys that have a value, each once, in the order of their first insertion.
    pub fn keys(&self) -> (r: Vec<String>)
        ensures
            forall|k: Seq<char>| #![trigger listed(r@, k)] self@.contains_key(k) <==> listed(r@, k),
            forall|i: int, j: int| 0 <= i < j < r@.len() ==> (#[trigger] r@[i])@ != (#[trigger] r@[j])@,
    {
        let mut out: Vec<String> = Vec::new();
        let mut i: usize = 0;
        while i < self.entries.len()
            invariant
                i <= self.entries@.len(),
                forall|k: Seq<char>| #![trigger listed(out@, k)] #![trigger inserted_under(self.entries@, i as int, k)]
                    inserted_under(self.entries@, i as int, k) <==> listed(out@, k),
                forall|a: int, b: int| 0 <= a < b < out@.len() ==> (#[trigger] out@[a])@ != (#[trigger] out@[b])@,
            decreases self.entries.len() - i,
        {
            let k = &self.entries[i].0;
            let mut seen = false;
            let mut m: usize = 0;
            while m < out.len()
                invariant
                    m <= out@.len(),
                    seen <==> exists|q: int| 0 <= q < m && (#[trigger] out@[q])@ == k@,
                decreases out.len() - m,
            {
                if crate::text::str_eq(out[m].as_str(), k.as_str()) {
                    seen = true;
                }
                m += 1;
            }
            let ghost before = out@;
            proof {
                assert(seen == listed(before, k@));
            }
            if !seen {
                out.push(k.clone());
                proof {
                    assert(out@[before.len() as int]@ == k@);
                    assert forall|q: int| 0 <= q < before.len() implies #[trigger] out@[q] == before[q] by {}
                }
            }
            proof {
                assert forall|kk: Seq<char>| #![trigger listed(out@, kk)] #![trigger inserted_under(self.entries@, i + 1, kk)]
                    inserted_under(self.entries@, i + 1, kk) <==> listed(out@, kk) by {
                    if inserted_under(self.entries@, i + 1, kk) {
                        let j = choose|j: int| 0 <= j < i + 1 && (#[trigger] self.entries@[j]).0@ == kk;
                        if j < i {
                            assert(inserted_under(self.entries@, i as int, kk));
                            assert(listed(before, kk));
                            let q = choose|q: int| 0 <= q < before.len() && (#[trigger] before[q])@ == kk;
                            assert(out@[q] == before[q]);
                        } else if !seen {
                            assert(out@[before.len() as int]@ == kk);
                        } else {
                            let q = choose|q: int| 0 <= q < before.len() && (#[trigger] before[q])@ == kk;
                            assert(out@[q] == before[q]);
                        }
                    }
                    if listed(out@, kk) {
                        let q = choose|q: int| 0 <= q < out@.len() && (#[trigger] out@[q])@ == kk;
                        if q < before.len() {
                            assert(out@[q] == before[q]);
                            assert(listed(before, kk));
                            assert(inserted_under(self.entries@, i as int, kk));
                            let j = choose|j: int| 0 <= j < i && (#[trigger] self.entries@[j]).0@ == kk;
                            assert(self.entries@[j].0@ == kk);
                        } else {
                            assert(self.entries@[i as int].0@ == kk);
                        }
                    }
                }
                assert forall|a: int, b: int| 0 <= a < b < out@.len() implies (#[trigger] out@[a])@ != (#[trigger] out@[b])@ by {
                    if b == before.len() && !seen {
                        assert(out@[a] == before[a]);
                    }
                }
            }
            i += 1;
        }
        proof {
            assert forall|k: Seq<char>| #![trigger listed(out@, k)] self@.contains_key(k) <==> listed(out@, k) by {
                lemma_dict_map_keys(self.entries@, k);
                assert(inserted_under(self.entries@, self.entries@.len() as int, k) == (exists|j: int| 0 <= j < self.entries@.len() && (#[trigger] self.entries@[j]).0@ == k));
            }
        }
        out
    }

    /// The number of insertions made.
    pub fn entry_count(&self) -> (r: usize)
        ensures
            r == self.spec_entries().len(),
    {
        self.entries.len()
    }

    /// The insertion number `i`: its key and its value.
    pub fn entry(&self, i: usize) -> (r: (&String, &V))
        requires
            i < self.spec_entries().len(),
        ensures
            *r.0 == self.spec_entries()[i as int].0,
            *r.1 == self.spec_entries()[i as int].1,
    {
        (&self.entries[i].0, &self.entries[i].1)
    }
}

} // verus!
