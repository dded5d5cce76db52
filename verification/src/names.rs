//! Lists of different names in which a name is found at once.
use vstd::hash_map::StringHashMap;
use vstd::prelude::*;

verus! {

/// Different names, each in its place.
pub struct Names {
    places: StringHashMap<usize>,
    count: usize,
    list: Ghost<Seq<Seq<char>>>,
}

impl Names {
    /// The names in the order in which they came.
    pub closed spec fn view(&self) -> Seq<Seq<char>> {
        self.list@
    }

    /// Every name is found in its place, and no other name is found.
    pub closed spec fn wf(&self) -> bool {
        &&& self.count == self.list@.len()
        &&& forall|i: int|
            0 <= i < self.list@.len() ==> self.places@.contains_key(#[trigger] self.list@[i])
                && self.places@[self.list@[i]] == i
        &&& forall|name: Seq<char>| #[trigger]
            self.places@.contains_key(name) ==> self.list@.contains(name)
    }

    pub fn new() -> (r: Self)
        ensures
            r.wf(),
            r@ == Seq::<Seq<char>>::empty(),
    {
        Names { places: StringHashMap::new(), count: 0, list: Ghost(Seq::empty()) }
    }

    pub fn len(&self) -> (n: usize)
        requires
            self.wf(),
        ensures
            n == self@.len(),
    {
        self.count
    }

    /// The place of a name.
    pub fn find(&self, name: &str) -> (r: Option<usize>)
        requires
            self.wf(),
        ensures
            match r {
                Some(i) => i < self@.len() && self@[i as int] == name@ && forall|k: int|
                    0 <= k < i ==> #[trigger] self@[k] != name@,
                None => !self@.contains(name@),
            },
    {
        match self.places.get(name) {
            Some(i) => {
                assert(self.list@.contains(name@));
                Some(*i)
            },
            None => None,
        }
    }

    /// Puts a new name behind the others.
    pub fn add_name(&mut self, name: String)
        requires
            old(self).wf(),
            !old(self)@.contains(name@),
            old(self)@.len() < usize::MAX,
        ensures
            final(self).wf(),
            final(self)@ == old(self)@.push(name@),
    {
        let ghost key = name@;
        let ghost before = self.list@;
        self.places.insert(name, self.count);
        self.count += 1;
        proof {
            self.list@ = before.push(key);
            assert(self.list@[before.len() as int] == key);
            assert forall|i: int| 0 <= i < self.list@.len() implies self.places@.contains_key(
                #[trigger] self.list@[i],
            ) && self.places@[self.list@[i]] == i by {
                if i < before.len() {
                    assert(self.list@[i] == before[i]);
                    assert(before.contains(before[i]));
                }
            }
            assert forall|n: Seq<char>| #[trigger]
                self.places@.contains_key(n) implies self.list@.contains(n) by {
                if n != key {
                    let k = choose|k: int| 0 <= k < before.len() && before[k] == n;
                    assert(self.list@[k] == n);
                }
            }
        }
    }
}

}
