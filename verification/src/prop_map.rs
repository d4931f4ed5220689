use vstd::prelude::*;
use crate::path::str_eq;

verus! {

/// A map from property paths to values that remembers insertion order.
#[derive(Debug)]
pub struct PropertyMap<V> {
    entries: Vec<(String, V)>,
}

/// No key occurs twice.
pub open spec fn keys_distinct<V>(s: Seq<(String, V)>) -> bool {
    forall|i: int, j: int|
        0 <= i < s.len() && 0 <= j < s.len() && i != j ==> #[trigger] s[i].0@ != #[trigger] s[j].0@
}

pub open spec fn has_key_at<V>(s: Seq<(String, V)>, k: Seq<char>, i: int) -> bool {
    0 <= i < s.len() && s[i].0@ == k
}

/// The key-value pairs of an entry list as a map.
pub open spec fn entries_view<V>(s: Seq<(String, V)>) -> Map<Seq<char>, V> {
    Map::new(
        |k: Seq<char>| exists|i: int| has_key_at(s, k, i),
        |k: Seq<char>| s[choose|i: int| has_key_at(s, k, i)].1,
    )
}

impl<V> View for PropertyMap<V> {
    type V = Map<Seq<char>, V>;

    closed spec fn view(&self) -> Map<Seq<char>, V> {
        entries_view(self.entries@)
    }
}

/// In an entry list without duplicate keys, the map at the key of entry `i` holds its value.
pub proof fn lemma_entry_in_view<V>(s: Seq<(String, V)>, i: int)
    requires
        keys_distinct(s),
        0 <= i < s.len(),
    ensures
        entries_view(s).contains_key(s[i].0@),
        entries_view(s)[s[i].0@] == s[i].1,
{
    assert(has_key_at(s, s[i].0@, i));
    let j = choose|j: int| has_key_at(s, s[i].0@, j);
    assert(j == i);
}

pub proof fn lemma_view_push<V>(s: Seq<(String, V)>, k: String, v: V)
    requires
        keys_distinct(s),
        !entries_view(s).contains_key(k@),
    ensures
        keys_distinct(s.push((k, v))),
        entries_view(s.push((k, v))) =~= entries_view(s).insert(k@, v),
{
    let t = s.push((k, v));
    assert forall|i: int, j: int|
        0 <= i < t.len() && 0 <= j < t.len() && i != j implies #[trigger] t[i].0@
        != #[trigger] t[j].0@ by {
        if i == s.len() as int {
            if t[j].0@ == k@ {
                assert(has_key_at(s, k@, j));
            }
        } else if j == s.len() as int {
            if t[i].0@ == k@ {
                assert(has_key_at(s, k@, i));
            }
        }
    }
    assert forall|key: Seq<char>| #[trigger]
        entries_view(t).contains_key(key) implies entries_view(s).insert(k@, v).contains_key(key) by {
        let i = choose|i: int| has_key_at(t, key, i);
        if i < s.len() {
            assert(has_key_at(s, key, i));
        }
    }
    assert forall|key: Seq<char>| #[trigger]
        entries_view(s).insert(k@, v).contains_key(key) implies entries_view(t).contains_key(key) by {
        if key == k@ {
            assert(has_key_at(t, key, s.len() as int));
        } else {
            let i = choose|i: int| has_key_at(s, key, i);
            assert(has_key_at(t, key, i));
        }
    }
    assert forall|key: Seq<char>| #[trigger]
        entries_view(t).contains_key(key) implies entries_view(t)[key] == entries_view(s).insert(
        k@,
        v,
    )[key] by {
        let i = choose|i: int| has_key_at(t, key, i);
        lemma_entry_in_view(t, i);
        if i < s.len() {
            lemma_entry_in_view(s, i);
        }
    }
}

pub proof fn lemma_view_update<V>(s: Seq<(String, V)>, i: int, k: String, v: V)
    requires
        keys_distinct(s),
        0 <= i < s.len(),
        s[i].0@ == k@,
    ensures
        keys_distinct(s.update(i, (k, v))),
        entries_view(s.update(i, (k, v))) =~= entries_view(s).insert(k@, v),
{
    let t = s.update(i, (k, v));
    assert forall|a: int, b: int|
        0 <= a < t.len() && 0 <= b < t.len() && a != b implies #[trigger] t[a].0@
        != #[trigger] t[b].0@ by {
        assert(s[a].0@ != s[b].0@);
    }
    assert forall|key: Seq<char>| #[trigger]
        entries_view(t).contains_key(key) <==> entries_view(s).insert(k@, v).contains_key(key) by {
        if entries_view(t).contains_key(key) {
            let j = choose|j: int| has_key_at(t, key, j);
            assert(has_key_at(s, key, j));
        }
        if entries_view(s).contains_key(key) {
            let j = choose|j: int| has_key_at(s, key, j);
            assert(has_key_at(t, key, j));
        }
        if key == k@ {
            assert(has_key_at(t, key, i));
        }
    }
    assert forall|key: Seq<char>| #[trigger]
        entries_view(t).contains_key(key) implies entries_view(t)[key] == entries_view(s).insert(
        k@,
        v,
    )[key] by {
        let j = choose|j: int| has_key_at(t, key, j);
        lemma_entry_in_view(t, j);
        if j != i {
            lemma_entry_in_view(s, j);
        }
    }
}

pub proof fn lemma_view_remove<V>(s: Seq<(String, V)>, i: int)
    requires
        keys_distinct(s),
        0 <= i < s.len(),
    ensures
        keys_distinct(s.remove(i)),
        entries_view(s.remove(i)) =~= entries_view(s).remove(s[i].0@),
{
    let t = s.remove(i);
    let k = s[i].0@;
    assert forall|a: int, b: int|
        0 <= a < t.len() && 0 <= b < t.len() && a != b implies #[trigger] t[a].0@
        != #[trigger] t[b].0@ by {
        let a2 = if a < i { a } else { a + 1 };
        let b2 = if b < i { b } else { b + 1 };
        assert(t[a] == s[a2]);
        assert(t[b] == s[b2]);
    }
    assert forall|key: Seq<char>| #[trigger]
        entries_view(t).contains_key(key) <==> entries_view(s).remove(k).contains_key(key) by {
        if entries_view(t).contains_key(key) {
            let j = choose|j: int| has_key_at(t, key, j);
            let j2 = if j < i { j } else { j + 1 };
            assert(t[j] == s[j2]);
            assert(has_key_at(s, key, j2));
        }
        if entries_view(s).contains_key(key) && key != k {
            let j = choose|j: int| has_key_at(s, key, j);
            if j < i {
                assert(has_key_at(t, key, j));
            } else {
                assert(j != i);
                assert(t[j - 1] == s[j]);
                assert(has_key_at(t, key, j - 1));
            }
        }
    }
    assert forall|key: Seq<char>| #[trigger]
        entries_view(t).contains_key(key) implies entries_view(t)[key] == entries_view(s).remove(
        k,
    )[key] by {
        let j = choose|j: int| has_key_at(t, key, j);
        lemma_entry_in_view(t, j);
        let j2 = if j < i { j } else { j + 1 };
        assert(t[j] == s[j2]);
        lemma_entry_in_view(s, j2);
    }
}

impl<V> PropertyMap<V> {
    #[verifier::type_invariant]
    spec fn inv(&self) -> bool {
        keys_distinct(self.entries@)
    }

    /// The entry list has no duplicate keys (always true of a map built by these methods).
    pub closed spec fn wf(&self) -> bool {
        keys_distinct(self.entries@)
    }

    pub fn lemma_wf(&self)
        ensures
            self.wf(),
    {
        proof {
            use_type_invariant(self);
        }
    }

    /// The entries in insertion order.
    pub closed spec fn entry_seq(&self) -> Seq<(String, V)> {
        self.entries@
    }

    pub proof fn lemma_entries(&self)
        requires
            self.wf(),
        ensures
            keys_distinct(self.entry_seq()),
            self@ == entries_view(self.entry_seq()),
            forall|i: int|
                0 <= i < self.entry_seq().len() ==> self@.contains_key(
                    (#[trigger] self.entry_seq()[i]).0@,
                ) && self@[self.entry_seq()[i].0@] == self.entry_seq()[i].1,
            forall|k: Seq<char>| #[trigger]
                self@.contains_key(k) ==> exists|i: int| has_key_at(self.entry_seq(), k, i),
            self@.dom().finite(),
            self@.len() == self.entry_seq().len(),
    {
        assert forall|i: int| 0 <= i < self.entry_seq().len() implies self@.contains_key(
            (#[trigger] self.entry_seq()[i]).0@,
        ) && self@[self.entry_seq()[i].0@] == self.entry_seq()[i].1 by {
            lemma_entry_in_view(self.entries@, i);
        }
        assert forall|k: Seq<char>| #[trigger] self@.contains_key(k) implies exists|i: int|
            has_key_at(self.entry_seq(), k, i) by {
            assert(entries_view(self.entries@).dom().contains(k));
            let i = choose|i: int| has_key_at(self.entries@, k, i);
            assert(has_key_at(self.entry_seq(), k, i));
        }
        lemma_view_finite_len(self.entries@);
    }

    pub fn new() -> (r: PropertyMap<V>)
        ensures
            r.wf(),
            r@ == Map::<Seq<char>, V>::empty(),
            r.entry_seq().len() == 0,
    {
        let r = PropertyMap { entries: Vec::new() };
        assert(r@ =~= Map::<Seq<char>, V>::empty());
        r
    }

    pub fn len(&self) -> (r: usize)
        ensures
            r == self.entry_seq().len(),
    {
        self.entries.len()
    }

    pub fn is_empty(&self) -> (r: bool)
        ensures
            r == (self@.len() == 0),
    {
        proof {
            use_type_invariant(&*self);
        }
        proof {
            lemma_view_finite_len(self.entries@);
        }
        self.entries.len() == 0
    }

    pub fn entries(&self) -> (r: &Vec<(String, V)>)
        ensures
            r@ == self.entry_seq(),
            self.wf(),
            keys_distinct(r@),
            self@ == entries_view(r@),
    {
        proof {
            use_type_invariant(self);
        }
        &self.entries
    }

    fn find(&self, k: &str) -> (r: Option<usize>)
        ensures
            match r {
                Some(i) => i < self.entries@.len() && self.entries@[i as int].0@ == k@,
                None => !self@.contains_key(k@),
            },
    {
        proof {
            use_type_invariant(&*self);
        }
        let mut i: usize = 0;
        while i < self.entries.len()
            invariant
                i <= self.entries@.len(),
                forall|j: int| 0 <= j < i ==> self.entries@[j].0@ != k@,
            decreases self.entries@.len() - i,
        {
            if str_eq(self.entries[i].0.as_str(), k) {
                return Some(i);
            }
            i = i + 1;
        }
        None
    }

    pub fn contains_key(&self, k: &str) -> (r: bool)
        ensures
            r == self@.contains_key(k@),
    {
        proof {
            use_type_invariant(&*self);
        }
        match self.find(k) {
            Some(i) => {
                proof {
                    lemma_entry_in_view(self.entries@, i as int);
                }
                true
            },
            None => false,
        }
    }

    pub fn get(&self, k: &str) -> (r: Option<&V>)
        ensures
            match r {
                Some(v) => self@.contains_key(k@) && *v == self@[k@],
                None => !self@.contains_key(k@),
            },
    {
        proof {
            use_type_invariant(&*self);
        }
        match self.find(k) {
            Some(i) => {
                proof {
                    lemma_entry_in_view(self.entries@, i as int);
                }
                Some(&self.entries[i].1)
            },
            None => None,
        }
    }

    /// Sets the value of `k`, returning the value it replaced.
    pub fn insert(&mut self, k: String, v: V) -> (r: Option<V>)
        ensures
            final(self).wf(),
            final(self)@ == old(self)@.insert(k@, v),
            match r {
                Some(o) => old(self)@.contains_key(k@) && o == old(self)@[k@],
                None => !old(self)@.contains_key(k@),
            },
    {
        proof {
            use_type_invariant(&*self);
        }
        match self.find(k.as_str()) {
            Some(i) => {
                proof {
                    lemma_entry_in_view(self.entries@, i as int);
                    lemma_view_update(self.entries@, i as int, k, v);
                }
                let ghost s0 = self.entries@;
                let mut es: Vec<(String, V)> = Vec::new();
                std::mem::swap(&mut es, &mut self.entries);
                let old_entry = es.remove(i);
                es.insert(i, (k, v));
                assert(es@ =~= s0.update(i as int, (k, v)));
                self.entries = es;
                Some(old_entry.1)
            },
            None => {
                proof {
                    lemma_view_push(self.entries@, k, v);
                }
                let mut es: Vec<(String, V)> = Vec::new();
                std::mem::swap(&mut es, &mut self.entries);
                es.push((k, v));
                self.entries = es;
                None
            },
        }
    }

    /// Removes `k`, returning its value if it was present.
    pub fn remove(&mut self, k: &str) -> (r: Option<V>)
        ensures
            final(self).wf(),
            final(self)@ == old(self)@.remove(k@),
            match r {
                Some(o) => old(self)@.contains_key(k@) && o == old(self)@[k@],
                None => !old(self)@.contains_key(k@),
            },
    {
        proof {
            use_type_invariant(&*self);
        }
        match self.find(k) {
            Some(i) => {
                proof {
                    lemma_entry_in_view(self.entries@, i as int);
                    lemma_view_remove(self.entries@, i as int);
                }
                let mut es: Vec<(String, V)> = Vec::new();
                std::mem::swap(&mut es, &mut self.entries);
                let e = es.remove(i);
                self.entries = es;
                Some(e.1)
            },
            None => {
                assert(self@.remove(k@) =~= self@);
                None
            },
        }
    }

    /// Appends an entry for a key that is not present yet.
    pub fn push_new(&mut self, k: String, v: V)
        requires
            !old(self)@.contains_key(k@),
        ensures
            final(self)@ == old(self)@.insert(k@, v),
            final(self).entry_seq() == old(self).entry_seq().push((k, v)),
    {
        proof {
            use_type_invariant(&*self);
            lemma_view_push(self.entries@, k, v);
        }
        let mut es: Vec<(String, V)> = Vec::new();
        std::mem::swap(&mut es, &mut self.entries);
        es.push((k, v));
        self.entries = es;
    }

    pub fn clear(&mut self)
        ensures
            final(self).wf(),
            final(self)@ == Map::<Seq<char>, V>::empty(),
            final(self).entry_seq().len() == 0,
    {
        self.entries = Vec::new();
        assert(self@ =~= Map::<Seq<char>, V>::empty());
    }
}

/// The map of a duplicate-free entry list is finite and has as many keys as entries.
/// A copy of a map with copyable values.
impl<V: Copy> Clone for PropertyMap<V> {
    fn clone(&self) -> (r: Self)
        ensures
            r@ == self@,
    {
        let es = self.entries();
        let mut out: PropertyMap<V> = PropertyMap::new();
        let mut i: usize = 0;
        while i < es.len()
            invariant
                i <= es@.len(),
                keys_distinct(es@),
                out.entry_seq().len() == i,
                forall|j: int|
                    0 <= j < i ==> (#[trigger] out.entry_seq()[j]).0@ == es@[j].0@
                        && out.entry_seq()[j].1 == es@[j].1,
            decreases es@.len() - i,
        {
            out.lemma_wf();
            proof {
                out.lemma_entries();
                assert(!out@.contains_key(es@[i as int].0@)) by {
                    if out@.contains_key(es@[i as int].0@) {
                        let j = choose|j: int| has_key_at(out.entry_seq(), es@[i as int].0@, j);
                        assert(es@[j].0@ == es@[i as int].0@);
                    }
                }
            }
            out.push_new(es[i].0.clone(), es[i].1);
            i = i + 1;
        }
        out.lemma_wf();
        proof {
            out.lemma_entries();
            lemma_entries_correspond(es@, out.entry_seq());
            assert(out@ =~= self@) by {
                assert forall|k: Seq<char>| #[trigger] self@.contains_key(k) implies out@[k] == self@[k] by {
                    let j = choose|j: int|
                        0 <= j < es@.len() && es@[j].0@ == k && entries_view(es@)[k] == es@[j].1
                            && entries_view(out.entry_seq())[k] == out.entry_seq()[j].1;
                }
            }
        }
        out
    }
}

pub proof fn lemma_view_finite_len<V>(s: Seq<(String, V)>)
    requires
        keys_distinct(s),
    ensures
        entries_view(s).dom().finite(),
        entries_view(s).len() == s.len(),
    decreases s.len(),
{
    if s.len() == 0 {
        assert(entries_view(s).dom() =~= Set::<Seq<char>>::empty());
    } else {
        let p = s.drop_last();
        assert(keys_distinct(p));
        lemma_view_finite_len(p);
        let last = s.last();
        assert(!entries_view(p).contains_key(last.0@)) by {
            if entries_view(p).contains_key(last.0@) {
                let j = choose|j: int| has_key_at(p, last.0@, j);
                assert(s[j].0@ == s[s.len() - 1].0@);
            }
        }
        lemma_view_push(p, last.0, last.1);
        assert(p.push(last) =~= s);
    }
}

/// Two entry lists with the same keys in the same order have maps with the same keys,
/// and each key maps to the values at one common index.
pub proof fn lemma_entries_correspond<V, W>(s: Seq<(String, V)>, t: Seq<(String, W)>)
    requires
        keys_distinct(s),
        s.len() == t.len(),
        forall|i: int| 0 <= i < s.len() ==> (#[trigger] s[i]).0@ == t[i].0@,
    ensures
        keys_distinct(t),
        entries_view(s).dom() == entries_view(t).dom(),
        forall|k: Seq<char>| #[trigger]
            entries_view(s).contains_key(k) ==> exists|i: int|
                0 <= i < s.len() && s[i].0@ == k && entries_view(s)[k] == s[i].1
                    && entries_view(t)[k] == t[i].1,
{
    assert forall|a: int, b: int|
        0 <= a < t.len() && 0 <= b < t.len() && a != b implies #[trigger] t[a].0@
        != #[trigger] t[b].0@ by {
        assert(s[a].0@ == t[a].0@);
        assert(s[b].0@ == t[b].0@);
    }
    assert forall|k: Seq<char>| entries_view(s).contains_key(k) <==> entries_view(t).contains_key(
        k,
    ) by {
        if entries_view(s).contains_key(k) {
            let i = choose|i: int| has_key_at(s, k, i);
            assert(t[i].0@ == s[i].0@);
            assert(has_key_at(t, k, i));
        }
        if entries_view(t).contains_key(k) {
            let i = choose|i: int| has_key_at(t, k, i);
            assert(t[i].0@ == s[i].0@);
            assert(has_key_at(s, k, i));
        }
    }
    assert(entries_view(s).dom() =~= entries_view(t).dom());
    assert forall|k: Seq<char>| #[trigger]
        entries_view(s).contains_key(k) implies exists|i: int|
        0 <= i < s.len() && s[i].0@ == k && entries_view(s)[k] == s[i].1 && entries_view(t)[k]
            == t[i].1 by {
        let i = choose|i: int| has_key_at(s, k, i);
        lemma_entry_in_view(s, i);
        assert(t[i].0@ == s[i].0@);
        lemma_entry_in_view(t, i);
    }
}

/// A set of property paths.
#[derive(Debug)]
pub struct PathSet {
    map: PropertyMap<()>,
}

impl View for PathSet {
    type V = Set<Seq<char>>;

    closed spec fn view(&self) -> Set<Seq<char>> {
        self.map@.dom()
    }
}

impl PathSet {
    pub fn new() -> (r: PathSet)
        ensures
            r@ == Set::<Seq<char>>::empty(),
    {
        let r = PathSet { map: PropertyMap::new() };
        assert(r@ =~= Set::<Seq<char>>::empty());
        r
    }

    pub fn contains(&self, k: &str) -> (r: bool)
        ensures
            r == self@.contains(k@),
    {
        self.map.contains_key(k)
    }

    /// Adds `k`; returns whether it was newly added.
    pub fn insert(&mut self, k: String) -> (r: bool)
        ensures
            final(self)@ == old(self)@.insert(k@),
            r == !old(self)@.contains(k@),
    {
        let old_v = self.map.insert(k, ());
        assert(self@ =~= old(self)@.insert(k@));
        old_v.is_none()
    }

    /// Removes `k`; returns whether it was present.
    pub fn remove(&mut self, k: &str) -> (r: bool)
        ensures
            final(self)@ == old(self)@.remove(k@),
            r == old(self)@.contains(k@),
    {
        let old_v = self.map.remove(k);
        assert(self@ =~= old(self)@.remove(k@));
        old_v.is_some()
    }

    pub fn len(&self) -> (r: usize)
        ensures
            r == self@.len(),
            self@.finite(),
    {
        self.map.lemma_wf();
        proof {
            self.map.lemma_entries();
        }
        self.map.len()
    }

    /// The paths in the order the set lists them.
    pub closed spec fn path_seq(&self) -> Seq<Seq<char>> {
        self.map.entry_seq().map_values(|e: (String, ())| e.0@)
    }

    /// The set holds exactly the paths it lists, each once.
    pub proof fn lemma_paths(&self)
        requires
            self.wf(),
        ensures
            self.path_seq().no_duplicates(),
            forall|k: Seq<char>| #[trigger] self@.contains(k) <==> self.path_seq().contains(k),
    {
        self.map.lemma_entries();
        let ps = self.path_seq();
        assert forall|k: Seq<char>| #[trigger] self@.contains(k) <==> ps.contains(k) by {
            if self@.contains(k) {
                let i = choose|i: int| has_key_at(self.map.entry_seq(), k, i);
                assert(ps[i] == k);
            }
            if ps.contains(k) {
                let i = choose|i: int| 0 <= i < ps.len() && ps[i] == k;
                assert(self.map.entry_seq()[i].0@ == k);
            }
        }
    }

    pub fn lemma_wf(&self)
        ensures
            self.wf(),
    {
        self.map.lemma_wf();
    }

    pub closed spec fn wf(&self) -> bool {
        self.map.wf()
    }

    /// The paths in insertion order.
    pub fn paths(&self) -> (r: Vec<String>)
        ensures
            crate::path::strings_view(r@) == self.path_seq(),
            r@.len() == self@.len(),
            forall|i: int, j: int|
                0 <= i < r@.len() && 0 <= j < r@.len() && i != j ==> r@[i]@ != r@[j]@,
            forall|i: int| 0 <= i < r@.len() ==> self@.contains(#[trigger] r@[i]@),
            forall|k: Seq<char>| #[trigger] self@.contains(k) ==> exists|i: int|
                0 <= i < r@.len() && r@[i]@ == k,
            self@.finite(),
    {
        let es = self.map.entries();
        self.map.lemma_wf();
        proof {
            self.map.lemma_entries();
        }
        let mut out: Vec<String> = Vec::new();
        let mut i: usize = 0;
        while i < es.len()
            invariant
                i <= es@.len(),
                out@.len() == i,
                forall|j: int| 0 <= j < i ==> (#[trigger] out@[j])@ == es@[j].0@,
            decreases es@.len() - i,
        {
            out.push(es[i].0.clone());
            i = i + 1;
        }
        assert forall|k: Seq<char>| #[trigger] self@.contains(k) implies exists|i: int|
            0 <= i < out@.len() && out@[i]@ == k by {
            let j = choose|j: int| has_key_at(self.map.entry_seq(), k, j);
            assert(out@[j]@ == k);
        }
        assert(crate::path::strings_view(out@) =~= self.path_seq());
        assert forall|a: int| 0 <= a < out@.len() implies self@.contains(#[trigger] out@[a]@) by {
            assert(out@[a]@ == es@[a].0@);
        }
        out
    }

    pub fn copy_set(&self) -> (r: PathSet)
        ensures
            r@ == self@,
    {
        let ps = self.paths();
        let mut r = PathSet::new();
        let mut i: usize = 0;
        while i < ps.len()
            invariant
                i <= ps@.len(),
                forall|a: int, b: int|
                    0 <= a < ps@.len() && 0 <= b < ps@.len() && a != b ==> ps@[a]@ != ps@[b]@,
                r@ == Set::new(|k: Seq<char>| exists|j: int| 0 <= j < i && ps@[j]@ == k),
            decreases ps@.len() - i,
        {
            let ghost before = r@;
            r.insert(ps[i].clone());
            assert(r@ =~= Set::new(|k: Seq<char>| exists|j: int| 0 <= j < i + 1 && ps@[j]@ == k))
                by {
                assert forall|k: Seq<char>| before.insert(ps@[i as int]@).contains(k) implies (exists|
                    j: int,
                | 0 <= j < i + 1 && ps@[j]@ == k) by {
                    if k == ps@[i as int]@ {
                        assert(ps@[i as int]@ == k);
                    }
                }
            }
            i = i + 1;
        }
        assert(r@ =~= self@);
        r
    }
}

} // verus!
