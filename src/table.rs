use vstd::prelude::*;
use crate::config::names;

verus! {

/// A map from symbol to value that keeps the order in which symbols first
/// arrived; each symbol appears at most once.
pub struct SymbolTable<V> {
    keys: Vec<String>,
    values: Vec<V>,
}

impl<V> View for SymbolTable<V> {
    type V = Map<Seq<char>, V>;

    closed spec fn view(&self) -> Map<Seq<char>, V> {
        Map::new(
            |k: Seq<char>| names(self.keys@).contains(k),
            |k: Seq<char>| self.values@[names(self.keys@).index_of(k)],
        )
    }
}

impl<V> SymbolTable<V> {
    /// Keys and values pair up one to one and no key repeats.
    pub closed spec fn wf(&self) -> bool {
        &&& self.keys@.len() == self.values@.len()
        &&& names(self.keys@).no_duplicates()
    }

    pub fn new() -> (r: Self)
        ensures
            r.wf(),
            r@ == Map::<Seq<char>, V>::empty(),
    {
        let r = SymbolTable { keys: Vec::new(), values: Vec::new() };
        assert(names(r.keys@) =~= Seq::<Seq<char>>::empty());
        assert(r@ =~= Map::<Seq<char>, V>::empty());
        r
    }

    fn find(&self, k: &String) -> (r: Option<usize>)
        requires
            self.wf(),
        ensures
            match r {
                Some(i) => i < self.keys@.len() && names(self.keys@)[i as int] == k@ && names(
                    self.keys@,
                ).index_of(k@) == i,
                None => !names(self.keys@).contains(k@),
            },
    {
        let mut i: usize = 0;
        while i < self.keys.len()
            invariant
                self.wf(),
                0 <= i <= self.keys@.len(),
                forall|j: int| 0 <= j < i ==> names(self.keys@)[j] != k@,
            decreases self.keys@.len() - i,
        {
            assert(names(self.keys@)[i as int] == self.keys@[i as int]@);
            if self.keys[i] == *k {
                assert(names(self.keys@).contains(k@));
                let ghost j = names(self.keys@).index_of(k@);
                assert(names(self.keys@)[j] == k@);
                return Some(i);
            }
            i = i + 1;
        }
        None
    }

    /// The value stored for `k`, if any.
    pub fn get(&self, k: &String) -> (r: Option<&V>)
        requires
            self.wf(),
        ensures
            match r {
                Some(v) => self@.contains_key(k@) && *v == self@[k@],
                None => !self@.contains_key(k@),
            },
    {
        match self.find(k) {
            Some(i) => Some(&self.values[i]),
            None => None,
        }
    }

    /// Stores `v` for `k`, replacing what was stored for it.
    pub fn insert(&mut self, k: String, v: V)
        requires
            old(self).wf(),
        ensures
            final(self).wf(),
            final(self)@ == old(self)@.insert(k@, v),
    {
        let ghost old_names = names(self.keys@);
        let ghost old_view = self@;
        match self.find(&k) {
            Some(i) => {
                let ghost kv = k@;
                self.values.set(i, v);
                assert(names(self.keys@) == old_names);
                assert forall|x: Seq<char>| #[trigger] old_names.contains(x) implies (x == kv
                    <==> old_names.index_of(x) == i) by {
                    let j = old_names.index_of(x);
                    assert(old_names[j] == x);
                }
                assert(self@ =~= old_view.insert(kv, self.values@[i as int]));
            },
            None => {
                let ghost kv = k@;
                self.keys.push(k);
                self.values.push(v);
                let ghost new_names = names(self.keys@);
                assert(new_names =~= old_names.push(kv));
                assert(new_names[old_names.len() as int] == kv);
                assert forall|x: Seq<char>| #[trigger] new_names.contains(x) implies (if x == kv {
                    new_names.index_of(x) == old_names.len()
                } else {
                    old_names.contains(x) && new_names.index_of(x) == old_names.index_of(x)
                }) by {
                    let j = new_names.index_of(x);
                    assert(new_names[j] == x);
                    if x != kv {
                        assert(old_names[j] == x);
                        let j0 = old_names.index_of(x);
                        assert(old_names[j0] == x);
                        assert(new_names[j0] == x);
                    }
                }
                assert(self.values@[old_names.len() as int] == v);
                assert forall|x: Seq<char>| #[trigger] old_view.contains_key(x) && x != kv implies self@[x]
                    == old_view[x] by {
                    let j0 = old_names.index_of(x);
                    assert(old_names[j0] == x);
                    assert(new_names[j0] == x);
                    assert(new_names.contains(x));
                    assert(self.values@[j0] == old(self).values@[j0]);
                }
                assert forall|x: Seq<char>| #[trigger] self@.contains_key(x) <==> (
                old_view.contains_key(x) || x == kv) by {
                    if old_view.contains_key(x) {
                        let j0 = old_names.index_of(x);
                        assert(old_names[j0] == x);
                        assert(new_names[j0] == x);
                    }
                    if self@.contains_key(x) && x != kv {
                        let j = new_names.index_of(x);
                        assert(new_names[j] == x);
                        assert(old_names[j] == x);
                    }
                }
                assert(self@[kv] == v);
                assert(self@ =~= old_view.insert(kv, v));
            },
        }
    }
}

} // verus!
