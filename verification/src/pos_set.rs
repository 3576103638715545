use vstd::prelude::*;

use crate::coord::Pos;

verus! {

/// A finite set of grid positions, kept as a list without repeats.
#[derive(Debug)]
pub struct PosSet {
    items: Vec<Pos>,
}

impl View for PosSet {
    type V = Set<Pos>;

    closed spec fn view(&self) -> Set<Pos> {
        self.items@.to_set()
    }
}

impl PosSet {
    #[verifier::type_invariant]
    closed spec fn no_repeats(self) -> bool {
        self.items@.no_duplicates()
    }

    /// The positions in the order in which they are stored.
    pub closed spec fn items_seq(self) -> Seq<Pos> {
        self.items@
    }

    /// A position set is always finite.
    pub proof fn lemma_finite(self)
        ensures
            self@.finite(),
    {
        vstd::seq_lib::seq_to_set_is_finite(self.items@);
    }

    pub fn new() -> (s: PosSet)
        ensures
            s@ == Set::<Pos>::empty(),
    {
        let s = PosSet { items: Vec::new() };
        assert(s.items@.to_set() =~= Set::<Pos>::empty());
        s
    }

    pub fn contains(&self, p: &Pos) -> (b: bool)
        ensures
            b == self@.contains(*p),
    {
        let mut i: usize = 0;
        while i < self.items.len()
            invariant
                i <= self.items@.len(),
                forall|j: int| 0 <= j < i ==> self.items@[j] != *p,
            decreases self.items@.len() - i,
        {
            if self.items[i] == *p {
                assert(self.items@.contains(*p));
                return true;
            }
            i += 1;
        }
        false
    }

    pub fn len(&self) -> (n: usize)
        ensures
            n == self@.len(),
    {
        proof {
            use_type_invariant(self);
            self.items@.unique_seq_to_set();
        }
        self.items.len()
    }

    pub fn is_empty(&self) -> (b: bool)
        ensures
            b == (self@.len() == 0),
            b == (self@ == Set::<Pos>::empty()),
    {
        proof {
            use_type_invariant(self);
            self.items@.unique_seq_to_set();
            if self@.len() == 0 {
                self@.lemma_len0_is_empty();
            }
        }
        self.items.len() == 0
    }

    /// Adds `p`; returns whether it was absent before.
    pub fn insert(&mut self, p: Pos) -> (added: bool)
        ensures
            final(self)@ == old(self)@.insert(p),
            added == !old(self)@.contains(p),
    {
        if self.contains(&p) {
            assert(self@.insert(p) =~= self@);
            false
        } else {
            proof {
                use_type_invariant(&*self);
            }
            let ghost old_items = self.items@;
            let mut items: Vec<Pos> = Vec::new();
            std::mem::swap(&mut items, &mut self.items);
            items.push(p);
            assert(items@.no_duplicates()) by {
                assert(items@ == old_items.push(p));
                assert(!old_items.contains(p));
            }
            self.items = items;
            assert(self.items@.to_set() =~= old_items.to_set().insert(p)) by {
                assert forall|q: Pos| #[trigger] self.items@.contains(q) <==> old_items.to_set().insert(p).contains(q) by {
                    if self.items@.contains(q) {
                        let k = choose|k: int| 0 <= k < self.items@.len() && self.items@[k] == q;
                        if k < old_items.len() {
                            assert(old_items[k] == q);
                        }
                    }
                    if old_items.contains(q) {
                        let k = choose|k: int| 0 <= k < old_items.len() && old_items[k] == q;
                        assert(self.items@[k] == q);
                    }
                    if q == p {
                        assert(self.items@[old_items.len() as int] == p);
                    }
                }
            }
            true
        }
    }

    /// Removes `p`; returns whether it was present.
    pub fn remove(&mut self, p: &Pos) -> (removed: bool)
        ensures
            final(self)@ == old(self)@.remove(*p),
            removed == old(self)@.contains(*p),
    {
        proof {
            use_type_invariant(&*self);
        }
        let mut i: usize = 0;
        while i < self.items.len()
            invariant
                i <= self.items@.len(),
                forall|j: int| 0 <= j < i ==> self.items@[j] != *p,
                *self == *old(self),
                self.items@.no_duplicates(),
            decreases self.items@.len() - i,
        {
            if self.items[i] == *p {
                let ghost old_items = self.items@;
                let mut items: Vec<Pos> = Vec::new();
                std::mem::swap(&mut items, &mut self.items);
                items.remove(i);
                assert(items@ == old_items.remove(i as int));
                assert(items@.no_duplicates()) by {
                    assert forall|a: int, b: int| 0 <= a < items@.len() && 0 <= b < items@.len() && a != b
                        implies items@[a] != items@[b] by {
                        let oa = if a < i { a } else { a + 1 };
                        let ob = if b < i { b } else { b + 1 };
                        assert(items@[a] == old_items[oa]);
                        assert(items@[b] == old_items[ob]);
                    }
                }
                self.items = items;
                assert(self.items@ == old_items.remove(i as int));
                assert(self.items@.to_set() =~= old_items.to_set().remove(*p)) by {
                    assert forall|q: Pos| #[trigger] self.items@.contains(q) <==> old_items.to_set().remove(*p).contains(q) by {
                        if self.items@.contains(q) {
                            let k = choose|k: int| 0 <= k < self.items@.len() && self.items@[k] == q;
                            if k < i {
                                assert(old_items[k] == q);
                            } else {
                                assert(old_items[k + 1] == q);
                            }
                        }
                        if old_items.contains(q) && q != *p {
                            let k = choose|k: int| 0 <= k < old_items.len() && old_items[k] == q;
                            if k < i {
                                assert(self.items@[k] == q);
                            } else {
                                assert(k != i);
                                assert(self.items@[k - 1] == q);
                            }
                        }
                    }
                }
                return true;
            }
            i += 1;
        }
        assert(!self.items@.contains(*p));
        assert(self@.remove(*p) =~= self@);
        false
    }

    /// Whether every member of `self` is a member of `other`.
    pub fn is_subset(&self, other: &PosSet) -> (b: bool)
        ensures
            b == self@.subset_of(other@),
    {
        let mut i: usize = 0;
        while i < self.items.len()
            invariant
                i <= self.items@.len(),
                forall|j: int| 0 <= j < i ==> other@.contains(#[trigger] self.items@[j]),
            decreases self.items@.len() - i,
        {
            if !other.contains(&self.items[i]) {
                assert(self.items@.contains(self.items@[i as int]));
                return false;
            }
            i += 1;
        }
        assert forall|q: Pos| self@.contains(q) implies other@.contains(q) by {
            let k = choose|k: int| 0 <= k < self.items@.len() && self.items@[k] == q;
        }
        true
    }

    /// A set holding the positions listed in `ps`, each once.
    pub fn from_slice(ps: &[Pos]) -> (s: PosSet)
        ensures
            s@ == ps@.to_set(),
    {
        let mut s = PosSet::new();
        let mut i: usize = 0;
        while i < ps.len()
            invariant
                i <= ps@.len(),
                s@ == ps@.take(i as int).to_set(),
            decreases ps@.len() - i,
        {
            s.insert(ps[i]);
            assert(ps@.take(i + 1) == ps@.take(i as int).push(ps@[i as int]));
            assert(ps@.take(i + 1).to_set() =~= ps@.take(i as int).to_set().insert(ps@[i as int])) by {
                ps@.take(i as int).lemma_push_to_set_commute(ps@[i as int]);
            }
            i += 1;
        }
        assert(ps@.take(ps@.len() as int) == ps@);
        s
    }

    /// The members, each once, in stored order.
    pub fn to_vec(&self) -> (v: Vec<Pos>)
        ensures
            v@ == self.items_seq(),
            v@.no_duplicates(),
            v@.to_set() == self@,
    {
        proof {
            use_type_invariant(self);
        }
        self.items.clone()
    }
}

impl Clone for PosSet {
    fn clone(&self) -> (s: PosSet)
        ensures
            s@ == self@,
    {
        proof {
            use_type_invariant(self);
        }
        PosSet { items: self.items.clone() }
    }
}

} // verus!
