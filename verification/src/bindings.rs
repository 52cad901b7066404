//! A finite map from names to values, kept as two parallel vectors.
use vstd::prelude::*;

verus! {

/// Names bound to values; a name is bound at most once.
pub struct Bindings<V> {
    names: Vec<String>,
    vals: Vec<V>,
    contents: Ghost<Map<Seq<char>, V>>,
}

impl<V: DeepView> View for Bindings<V> {
    type V = Map<Seq<char>, V::V>;

    /// The map from names to the deep views of their values.
    closed spec fn view(&self) -> Map<Seq<char>, V::V> {
        self.contents@.map_values(|v: V| v.deep_view())
    }
}

impl<V: DeepView> Bindings<V> {
    /// The names are distinct, and `contents` maps each name to its value.
    pub closed spec fn wf(&self) -> bool {
        &&& self.names@.len() == self.vals@.len()
        &&& forall|i: int, j: int|
            0 <= i < j < self.names@.len() ==> #[trigger] self.names@[i]@
                != #[trigger] self.names@[j]@
        &&& forall|k: Seq<char>|
            self.contents@.contains_key(k) <==> exists|i: int|
                0 <= i < self.names@.len() && #[trigger] self.names@[i]@ == k
        &&& forall|i: int|
            0 <= i < self.names@.len() ==> self.contents@[#[trigger] self.names@[i]@]
                == self.vals@[i]
    }

    pub fn new() -> (b: Self)
        ensures
            b.wf(),
            b@ == Map::<Seq<char>, V::V>::empty(),
    {
        let b = Bindings { names: Vec::new(), vals: Vec::new(), contents: Ghost(Map::empty()) };
        assert(b@ =~= Map::<Seq<char>, V::V>::empty());
        b
    }

    /// The index of `name`, if it is bound.
    fn find(&self, name: &String) -> (r: Option<usize>)
        requires
            self.wf(),
        ensures
            r matches Some(i) ==> i < self.names@.len() && self.names@[i as int]@ == name@,
            r is None ==> !self.contents@.contains_key(name@),
    {
        let mut i: usize = 0;
        while i < self.names.len()
            invariant
                self.wf(),
                i <= self.names@.len(),
                forall|j: int| 0 <= j < i ==> self.names@[j]@ != name@,
            decreases self.names@.len() - i,
        {
            if self.names[i].eq(name) {
                return Some(i);
            }
            i = i + 1;
        }
        None
    }

    /// The value bound to `name`.
    pub fn get(&self, name: &String) -> (r: Option<&V>)
        requires
            self.wf(),
        ensures
            r matches Some(v) ==> self@.contains_key(name@) && v.deep_view() == self@[name@],
            r is None ==> !self@.contains_key(name@),
    {
        match self.find(name) {
            Some(i) => Some(&self.vals[i]),
            None => None,
        }
    }

    /// Binds `name` to `v`, replacing an earlier binding of `name`.
    pub fn insert(&mut self, name: String, v: V)
        requires
            old(self).wf(),
        ensures
            final(self).wf(),
            final(self)@ == old(self)@.insert(name@, v.deep_view()),
    {
        let ghost k = name@;
        let ghost dv = v.deep_view();
        match self.find(&name) {
            Some(i) => {
                self.vals.set(i, v);
                self.contents = Ghost(self.contents@.insert(k, self.vals@[i as int]));
            },
            None => {
                self.names.push(name);
                self.vals.push(v);
                self.contents = Ghost(
                    self.contents@.insert(k, self.vals@[self.vals@.len() - 1]),
                );
                assert forall|k2: Seq<char>| self.contents@.contains_key(k2) implies exists|
                    i: int,
                |
                    0 <= i < self.names@.len() && #[trigger] self.names@[i]@ == k2 by {
                    if k2 == k {
                        assert(self.names@[self.names@.len() - 1]@ == k2);
                    } else {
                        let i = choose|i: int|
                            0 <= i < old(self).names@.len() && #[trigger] old(
                                self,
                            ).names@[i]@ == k2;
                        assert(self.names@[i]@ == k2);
                    }
                }
            },
        }
        assert(self@ =~= old(self)@.insert(k, dv));
    }
}

} // verus!
