use vstd::prelude::*;

verus! {

/// A set of entry identifiers that keeps insertion order.
#[derive(Debug)]
pub struct OrderedSet {
    vec: Vec<u128>,
}

impl View for OrderedSet {
    type V = Seq<u128>;

    closed spec fn view(&self) -> Seq<u128> {
        self.vec@
    }
}

impl OrderedSet {
    #[verifier::type_invariant]
    spec fn inv(&self) -> bool {
        self.vec@.no_duplicates()
    }

    /// No element occurs twice (always true of a set built by these methods).
    pub closed spec fn wf(&self) -> bool {
        self.vec@.no_duplicates()
    }

    pub fn lemma_wf(&self)
        ensures
            self.wf(),
            self@.no_duplicates(),
    {
        proof {
            use_type_invariant(self);
        }
    }

    pub fn new() -> (r: OrderedSet)
        ensures
            r.wf(),
            r@ == Seq::<u128>::empty(),
    {
        OrderedSet { vec: Vec::new() }
    }

    pub fn copy_set(&self) -> (r: OrderedSet)
        ensures
            r@ == self@,
            r.wf(),
    {
        proof {
            use_type_invariant(self);
        }
        let v = self.vec.clone();
        assert(v@ =~= self.vec@);
        OrderedSet { vec: v }
    }

    pub fn as_vec(&self) -> (r: &Vec<u128>)
        ensures
            r@ == self@,
    {
        &self.vec
    }

    pub fn len(&self) -> (r: usize)
        ensures
            r == self@.len(),
    {
        self.vec.len()
    }

    fn index_of(&self, value: &u128) -> (r: Option<usize>)
        ensures
            match r {
                Some(i) => i < self@.len() && self@[i as int] == *value,
                None => !self@.contains(*value),
            },
    {
        let mut i: usize = 0;
        while i < self.vec.len()
            invariant
                i <= self.vec@.len(),
                forall|j: int| 0 <= j < i ==> self.vec@[j] != *value,
            decreases self.vec@.len() - i,
        {
            if self.vec[i] == *value {
                return Some(i);
            }
            i = i + 1;
        }
        None
    }

    pub fn contains(&self, value: &u128) -> (r: bool)
        ensures
            r == self@.contains(*value),
    {
        let mut i: usize = 0;
        while i < self.vec.len()
            invariant
                i <= self.vec@.len(),
                forall|j: int| 0 <= j < i ==> self.vec@[j] != *value,
            decreases self.vec@.len() - i,
        {
            if self.vec[i] == *value {
                assert(self.vec@[i as int] == *value);
                return true;
            }
            i = i + 1;
        }
        false
    }

    /// Appends `value` unless it is already present; returns whether it was appended.
    pub fn try_insert_at_end(&mut self, value: u128) -> (r: bool)
        ensures
            final(self).wf(),
            r == !old(self)@.contains(value),
            r ==> final(self)@ == old(self)@.push(value),
            !r ==> final(self)@ == old(self)@,
    {
        proof {
            use_type_invariant(&*self);
        }
        if self.contains(&value) {
            false
        } else {
            let mut v: Vec<u128> = Vec::new();
            std::mem::swap(&mut v, &mut self.vec);
            v.push(value);
            proof {
                assert forall|a: int, b: int|
                    0 <= a < v@.len() && 0 <= b < v@.len() && a != b implies v@[a] != v@[b] by {
                    if a == v@.len() - 1 {
                        assert(old(self)@[b] == v@[b]);
                    } else if b == v@.len() - 1 {
                        assert(old(self)@[a] == v@[a]);
                    }
                }
            }
            self.vec = v;
            true
        }
    }

    /// Inserts `value` at position `index` unless it is already present; returns whether
    /// it was inserted.
    pub fn try_insert_at_position(&mut self, index: usize, value: u128) -> (r: bool)
        requires
            index <= old(self)@.len(),
        ensures
            r == !old(self)@.contains(value),
            r ==> final(self)@ == old(self)@.insert(index as int, value),
            !r ==> final(self)@ == old(self)@,
    {
        proof {
            use_type_invariant(&*self);
        }
        if self.contains(&value) {
            false
        } else {
            let mut v: Vec<u128> = Vec::new();
            std::mem::swap(&mut v, &mut self.vec);
            v.insert(index, value);
            proof {
                let s0 = old(self)@;
                assert forall|a: int, b: int|
                    0 <= a < v@.len() && 0 <= b < v@.len() && a != b implies v@[a] != v@[b] by {
                    let a2 = if a < index { a } else { a - 1 };
                    let b2 = if b < index { b } else { b - 1 };
                    if a != index as int && b != index as int {
                        assert(v@[a] == s0[a2]);
                        assert(v@[b] == s0[b2]);
                    } else if a == index as int {
                        assert(v@[b] == s0[b2]);
                    } else {
                        assert(v@[a] == s0[a2]);
                    }
                }
            }
            self.vec = v;
            true
        }
    }

    /// Removes `value` if present (keeping the order of the rest); returns whether it was present.
    pub fn remove(&mut self, value: &u128) -> (r: bool)
        ensures
            final(self).wf(),
            r == old(self)@.contains(*value),
            r ==> exists|i: int|
                0 <= i < old(self)@.len() && old(self)@[i] == *value && final(self)@ == old(
                    self,
                )@.remove(i),
            !r ==> final(self)@ == old(self)@,
            final(self)@.to_set() == old(self)@.to_set().remove(*value),
    {
        proof {
            use_type_invariant(&*self);
        }
        let ghost s0 = self.vec@;
        let i = match self.index_of(value) {
            Some(i) => i,
            None => {
                assert(s0.to_set().remove(*value) =~= s0.to_set());
                return false;
            },
        };
        let mut v: Vec<u128> = Vec::new();
        std::mem::swap(&mut v, &mut self.vec);
        v.remove(i);
        proof {
            assert(v@.no_duplicates()) by {
                assert forall|a: int, b: int|
                    0 <= a < v@.len() && 0 <= b < v@.len() && a != b implies v@[a] != v@[b] by {
                    let a2 = if a < i { a } else { a + 1 };
                    let b2 = if b < i { b } else { b + 1 };
                    assert(v@[a] == s0[a2]);
                    assert(v@[b] == s0[b2]);
                }
            }
            assert(v@.to_set() =~= s0.to_set().remove(*value)) by {
                assert forall|x: u128| v@.to_set().contains(x) implies s0.to_set().remove(
                    *value,
                ).contains(x) by {
                    let a = choose|a: int| 0 <= a < v@.len() && v@[a] == x;
                    let a2 = if a < i { a } else { a + 1 };
                    assert(s0[a2] == x);
                    assert(a2 != i);
                }
                assert forall|x: u128| s0.to_set().remove(*value).contains(x) implies v@.to_set().contains(
                    x,
                ) by {
                    let a = choose|a: int| 0 <= a < s0.len() && s0[a] == x;
                    if a < i {
                        assert(v@[a] == x);
                    } else {
                        assert(a != i);
                        assert(v@[a - 1] == x);
                    }
                }
            }
        }
        self.vec = v;
        assert(s0[i as int] == *value && self.vec@ == s0.remove(i as int));
        assert(s0.contains(*value));
        true
    }

    pub fn is_empty(&self) -> (r: bool)
        ensures
            r == (self@.len() == 0),
    {
        self.vec.len() == 0
    }
}

} // verus!
