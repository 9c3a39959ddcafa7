//! A set of site ids (Ran marks, Clear marks).

use vstd::prelude::*;

verus! {

/// Site ids, each held once.
pub struct IdSet {
    ids: Vec<String>,
}

impl View for IdSet {
    type V = Set<Seq<char>>;

    closed spec fn view(&self) -> Set<Seq<char>> {
        Set::new(|x: Seq<char>| exists|i: int| 0 <= i < self.ids@.len() && (#[trigger] self.ids@[i])@ == x)
    }
}

impl IdSet {
    #[verifier::type_invariant]
    spec fn distinct(&self) -> bool {
        forall|i: int, j: int|
            0 <= i < j < self.ids@.len() ==> (#[trigger] self.ids@[i])@ != (#[trigger] self.ids@[j])@
    }

    pub fn new() -> (r: Self)
        ensures
            r@ == Set::<Seq<char>>::empty(),
    {
        let r = IdSet { ids: Vec::new() };
        assert(r@ =~= Set::<Seq<char>>::empty());
        r
    }

    pub fn contains(&self, id: &str) -> (r: bool)
        ensures
            r == self@.contains(id@),
    {
        let key = String::from_str(id);
        let mut i: usize = 0;
        while i < self.ids.len()
            invariant
                key@ == id@,
                0 <= i <= self.ids@.len(),
                forall|j: int| 0 <= j < i ==> (#[trigger] self.ids@[j])@ != id@,
            decreases self.ids@.len() - i,
        {
            if self.ids[i] == key {
                assert(self.ids@[i as int]@ == id@);
                return true;
            }
            i = i + 1;
        }
        false
    }

    /// Adds `id`; a no-op when it is already there.
    pub fn insert(&mut self, id: &str)
        ensures
            final(self)@ == old(self)@.insert(id@),
    {
        proof {
            use_type_invariant(&*self);
        }
        if self.contains(id) {
            assert(self@ =~= old(self)@.insert(id@));
            return;
        }
        let key = String::from_str(id);
        let ghost before = self.ids@;
        let mut ids = Vec::new();
        std::mem::swap(&mut ids, &mut self.ids);
        ids.push(key);
        self.ids = ids;
        assert forall|i: int, j: int| 0 <= i < j < self.ids@.len() implies (#[trigger] self.ids@[i])@
            != (#[trigger] self.ids@[j])@ by {
            if j == before.len() {
                assert(self.ids@[i] == before[i]);
            } else {
                assert(self.ids@[i] == before[i]);
                assert(self.ids@[j] == before[j]);
            }
        }
        assert forall|x: Seq<char>| self@.contains(x) <==> old(self)@.insert(id@).contains(x) by {
            if self@.contains(x) {
                let i = choose|i: int| 0 <= i < self.ids@.len() && (#[trigger] self.ids@[i])@ == x;
                if i < before.len() {
                    assert(self.ids@[i] == before[i]);
                }
            }
            if old(self)@.contains(x) {
                let i = choose|i: int| 0 <= i < before.len() && (#[trigger] before[i])@ == x;
                assert(self.ids@[i] == before[i]);
            }
            if x == id@ {
                assert(self.ids@[before.len() as int]@ == x);
            }
        }
        assert(self@ =~= old(self)@.insert(id@));
    }

    /// The ids, in the order they were added.
    pub fn to_vec(&self) -> (r: Vec<String>)
        ensures
            forall|x: Seq<char>| self@.contains(x) <==> exists|i: int| 0 <= i < r@.len() && (#[trigger] r@[i])@ == x,
    {
        let mut r: Vec<String> = Vec::new();
        let mut i: usize = 0;
        while i < self.ids.len()
            invariant
                0 <= i <= self.ids@.len(),
                r@.len() == i,
                forall|j: int| 0 <= j < i ==> (#[trigger] r@[j])@ == self.ids@[j]@,
            decreases self.ids@.len() - i,
        {
            r.push(self.ids[i].clone());
            i = i + 1;
        }
        assert forall|x: Seq<char>| self@.contains(x) <==> exists|i: int| 0 <= i < r@.len() && (#[trigger] r@[i])@ == x by {
            if self@.contains(x) {
                let i = choose|i: int| 0 <= i < self.ids@.len() && (#[trigger] self.ids@[i])@ == x;
                assert(r@[i]@ == x);
            }
            if exists|i: int| 0 <= i < r@.len() && (#[trigger] r@[i])@ == x {
                let i = choose|i: int| 0 <= i < r@.len() && (#[trigger] r@[i])@ == x;
                assert(self.ids@[i]@ == x);
            }
        }
        r
    }
}

} // verus!
