use vstd::prelude::*;

verus! {

broadcast use vstd::seq_lib::group_seq_properties;

/// A finite set of board positions `(x, y)`, kept in the order in which the
/// positions were first added.
#[derive(Debug)]
pub struct PosSet {
    items: Vec<(usize, usize)>,
}

impl View for PosSet {
    type V = Set<(usize, usize)>;

    open spec fn view(&self) -> Set<(usize, usize)> {
        self.elems().to_set()
    }
}

impl PosSet {
    /// The positions in the order in which they were added.
    pub closed spec fn elems(&self) -> Seq<(usize, usize)> {
        self.items@
    }

    /// No position is held twice.
    #[verifier::type_invariant]
    pub open spec fn inv(&self) -> bool {
        self.elems().no_duplicates()
    }

    /// The set and its list of positions agree, also in size.
    pub proof fn lemma_size(&self)
        requires
            self.inv(),
        ensures
            self@.finite(),
            self@.len() == self.elems().len(),
            forall|p: (usize, usize)| #[trigger] self@.contains(p) <==> self.elems().contains(p),
    {
        self.elems().unique_seq_to_set();
    }

    pub fn new() -> (r: Self)
        ensures
            r.elems() == Seq::<(usize, usize)>::empty(),
            r@ == Set::<(usize, usize)>::empty(),
    {
        let r = PosSet { items: Vec::new() };
        assert(r@ =~= Set::<(usize, usize)>::empty());
        r
    }

    pub fn len(&self) -> (r: usize)
        ensures
            r == self@.len(),
            r == self.elems().len(),
    {
        proof {
            use_type_invariant(self);
            self.lemma_size();
        }
        self.items.len()
    }

    pub fn is_empty(&self) -> (r: bool)
        ensures
            r == (self@.len() == 0),
            r == (self@ == Set::<(usize, usize)>::empty()),
    {
        proof {
            use_type_invariant(self);
            self.lemma_size();
            if self.items.len() > 0 {
                assert(self@.contains(self.elems()[0]));
            }
            if self@ == Set::<(usize, usize)>::empty() {
                assert(self@.len() == 0);
            }
            if self.items.len() == 0 {
                assert(self@ =~= Set::<(usize, usize)>::empty());
            }
        }
        self.items.len() == 0
    }

    /// The position at place `i` of the list.
    pub fn get(&self, i: usize) -> (r: (usize, usize))
        requires
            i < self.elems().len(),
        ensures
            r == self.elems()[i as int],
    {
        self.items[i]
    }

    pub fn contains(&self, pos: (usize, usize)) -> (r: bool)
        ensures
            r == self@.contains(pos),
    {
        let mut i: usize = 0;
        while i < self.items.len()
            invariant
                i <= self.items@.len(),
                forall|j: int| 0 <= j < i ==> self.items@[j] != pos,
            decreases self.items@.len() - i,
        {
            let (x, y) = self.items[i];
            if x == pos.0 && y == pos.1 {
                assert(self.elems()[i as int] == pos);
                return true;
            }
            i = i + 1;
        }
        false
    }

    /// Adds `pos`; the result says whether it was not there before.
    pub fn insert(&mut self, pos: (usize, usize)) -> (r: bool)
        ensures
            final(self)@ == old(self)@.insert(pos),
            r == !old(self)@.contains(pos),
            final(self).elems() == (if r {
                old(self).elems().push(pos)
            } else {
                old(self).elems()
            }),
    {
        proof {
            use_type_invariant(&*self);
        }
        if self.contains(pos) {
            assert(self@ =~= old(self)@.insert(pos));
            false
        } else {
            let mut items = Vec::new();
            std::mem::swap(&mut items, &mut self.items);
            items.push(pos);
            self.items = items;
            assert(self@ =~= old(self)@.insert(pos));
            true
        }
    }

    /// Takes `pos` out; the result says whether it was there.
    pub fn remove(&mut self, pos: (usize, usize)) -> (r: bool)
        ensures
            final(self)@ == old(self)@.remove(pos),
            r == old(self)@.contains(pos),
    {
        proof {
            use_type_invariant(&*self);
        }
        let mut i: usize = 0;
        while i < self.items.len()
            invariant
                self.items@ == old(self).items@,
                self.items@.no_duplicates(),
                i <= self.items@.len(),
                forall|j: int| 0 <= j < i ==> self.items@[j] != pos,
            decreases self.items@.len() - i,
        {
            let (x, y) = self.items[i];
            if x == pos.0 && y == pos.1 {
                let ghost before = self.items@;
                let mut items = Vec::new();
                std::mem::swap(&mut items, &mut self.items);
                items.remove(i);
                proof {
                    assert forall|q: (usize, usize)|
                        items@.contains(q) <==> before.to_set().remove(pos).contains(q) by {
                        if before.contains(q) && q != pos {
                            let k = choose|k: int| 0 <= k < before.len() && before[k] == q;
                            if k < i {
                                assert(items@[k] == q);
                            } else {
                                assert(items@[k - 1] == q);
                            }
                        }
                    }
                    assert(items@.to_set() =~= old(self)@.remove(pos));
                }
                self.items = items;
                return true;
            }
            i = i + 1;
        }
        assert(!self.elems().contains(pos));
        assert(self@ =~= old(self)@.remove(pos));
        false
    }
}

impl Clone for PosSet {
    fn clone(&self) -> (r: Self)
        ensures
            r.elems() == self.elems(),
            r@ == self@,
    {
        proof {
            use_type_invariant(self);
        }
        let mut items: Vec<(usize, usize)> = Vec::new();
        let mut i: usize = 0;
        while i < self.items.len()
            invariant
                i <= self.items@.len(),
                items@ == self.items@.subrange(0, i as int),
            decreases self.items@.len() - i,
        {
            items.push(self.items[i]);
            i = i + 1;
        }
        assert(items@ =~= self.items@);
        PosSet { items }
    }
}

} // verus!
