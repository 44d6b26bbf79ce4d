//! The environment: values of named variables.
use vstd::prelude::*;

verus! {

/// Tells whether two character sequences are equal.
pub fn same_chars(a: &[char], b: &[char]) -> (r: bool)
    ensures
        r == (a@ == b@),
{
    if a.len() != b.len() {
        return false;
    }
    let mut i: usize = 0;
    while i < a.len()
        invariant
            a@.len() == b@.len(),
            i <= a@.len(),
            forall|j: int| 0 <= j < i ==> a@[j] == b@[j],
        decreases a@.len() - i,
    {
        if a[i] != b[i] {
            return false;
        }
        i = i + 1;
    }
    assert(a@ =~= b@);
    true
}

fn copy_chars(a: &[char]) -> (r: Vec<char>)
    ensures
        r@ == a@,
{
    let mut r: Vec<char> = Vec::new();
    let mut i: usize = 0;
    while i < a.len()
        invariant
            i <= a@.len(),
            r@ == a@.take(i as int),
        decreases a@.len() - i,
    {
        r.push(a[i]);
        i = i + 1;
        assert(r@ =~= a@.take(i as int));
    }
    assert(r@ =~= a@);
    r
}

/// Values of named variables. Each name has at most one value.
pub struct Environment<S> {
    entries: Vec<(Vec<char>, S)>,
}

impl<S: Copy> View for Environment<S> {
    type V = Map<Seq<char>, S>;

    closed spec fn view(&self) -> Map<Seq<char>, S> {
        Map::new(
            |n: Seq<char>| exists|i: int| 0 <= i < self.entries@.len() && self.entries@[i].0@ == n,
            |n: Seq<char>|
                self.entries@[choose|i: int|
                    0 <= i < self.entries@.len() && self.entries@[i].0@ == n].1,
        )
    }
}

impl<S: Copy> Environment<S> {
    /// No name has two entries.
    pub closed spec fn wf(&self) -> bool {
        forall|i: int, j: int|
            0 <= i < self.entries@.len() && 0 <= j < self.entries@.len()
                && #[trigger] self.entries@[i].0@ == #[trigger] self.entries@[j].0@ ==> i == j
    }

    proof fn lemma_entry(&self, i: int)
        requires
            self.wf(),
            0 <= i < self.entries@.len(),
        ensures
            self@.contains_key(self.entries@[i].0@),
            self@[self.entries@[i].0@] == self.entries@[i].1,
    {
        let n = self.entries@[i].0@;
        assert(self@.dom().contains(n));
        let k = choose|k: int| 0 <= k < self.entries@.len() && self.entries@[k].0@ == n;
        assert(self.entries@[k].0@ == self.entries@[i].0@);
    }

    /// An environment with no variables.
    pub fn new() -> (r: Self)
        ensures
            r.wf(),
            r@ == Map::<Seq<char>, S>::empty(),
    {
        let r = Environment { entries: Vec::new() };
        assert(r@ =~= Map::<Seq<char>, S>::empty());
        r
    }

    fn find(&self, name: &[char]) -> (r: Option<usize>)
        requires
            self.wf(),
        ensures
            r matches Some(i) ==> i < self.entries@.len() && self.entries@[i as int].0@ == name@,
            r is None ==> !self@.contains_key(name@),
    {
        let mut i: usize = 0;
        while i < self.entries.len()
            invariant
                i <= self.entries@.len(),
                forall|j: int| 0 <= j < i ==> self.entries@[j].0@ != name@,
            decreases self.entries@.len() - i,
        {
            if same_chars(&self.entries[i].0, name) {
                return Some(i);
            }
            i = i + 1;
        }
        None
    }

    /// The value of the variable `name`, if it has one.
    pub fn get(&self, name: &[char]) -> (r: Option<S>)
        requires
            self.wf(),
        ensures
            r == (if self@.contains_key(name@) {
                Some(self@[name@])
            } else {
                None
            }),
    {
        match self.find(name) {
            Some(i) => {
                proof { self.lemma_entry(i as int); }
                Some(self.entries[i].1)
            },
            None => None,
        }
    }

    /// Gives the variable `name` the value `value`.
    pub fn set(&mut self, name: &[char], value: S)
        requires
            old(self).wf(),
        ensures
            final(self).wf(),
            final(self)@ == old(self)@.insert(name@, value),
    {
        let ghost before = *self;
        let key = copy_chars(name);
        match self.find(name) {
            Some(i) => {
                self.entries.set(i, (key, value));
                proof {
                    assert(self.wf());
                    assert forall|n: Seq<char>| #[trigger]
                        self@.contains_key(n) == before@.insert(name@, value).contains_key(n) by {
                        if before@.contains_key(n) && n != name@ {
                            let k = choose|k: int|
                                0 <= k < before.entries@.len() && before.entries@[k].0@ == n;
                            assert(self.entries@[k].0@ == n);
                        }
                        if self@.contains_key(n) && n != name@ {
                            let k = choose|k: int|
                                0 <= k < self.entries@.len() && self.entries@[k].0@ == n;
                            assert(before.entries@[k].0@ == n);
                        }
                        assert(self.entries@[i as int].0@ == name@);
                    }
                    assert forall|n: Seq<char>| #[trigger] self@.contains_key(n) implies self@[n]
                        == before@.insert(name@, value)[n] by {
                        let k = choose|k: int|
                            0 <= k < self.entries@.len() && self.entries@[k].0@ == n;
                        self.lemma_entry(k);
                        if n != name@ {
                            assert(k != i);
                            before.lemma_entry(k);
                        } else {
                            self.lemma_entry(i as int);
                        }
                    }
                    assert(self@ =~= before@.insert(name@, value));
                }
            },
            None => {
                self.entries.push((key, value));
                proof {
                    let last = self.entries@.len() - 1;
                    assert forall|a: int, b: int|
                        0 <= a < self.entries@.len() && 0 <= b < self.entries@.len()
                            && #[trigger] self.entries@[a].0@ == #[trigger] self.entries@[b].0@
                        implies a == b by {
                        if a < last && b == last {
                            assert(before@.contains_key(before.entries@[a].0@));
                        }
                        if b < last && a == last {
                            assert(before@.contains_key(before.entries@[b].0@));
                        }
                    }
                    assert forall|n: Seq<char>| #[trigger]
                        self@.contains_key(n) == before@.insert(name@, value).contains_key(n) by {
                        if before@.contains_key(n) {
                            let k = choose|k: int|
                                0 <= k < before.entries@.len() && before.entries@[k].0@ == n;
                            assert(self.entries@[k].0@ == n);
                        }
                        if self@.contains_key(n) && n != name@ {
                            let k = choose|k: int|
                                0 <= k < self.entries@.len() && self.entries@[k].0@ == n;
                            assert(before.entries@[k].0@ == n);
                        }
                        assert(self.entries@[last].0@ == name@);
                    }
                    assert forall|n: Seq<char>| #[trigger] self@.contains_key(n) implies self@[n]
                        == before@.insert(name@, value)[n] by {
                        let k = choose|k: int|
                            0 <= k < self.entries@.len() && self.entries@[k].0@ == n;
                        self.lemma_entry(k);
                        if k < last {
                            before.lemma_entry(k);
                        }
                    }
                    assert(self@ =~= before@.insert(name@, value));
                }
            },
        }
    }

    /// A separate environment with the same variables and values.
    pub fn copy(&self) -> (r: Self)
        requires
            self.wf(),
        ensures
            r.wf(),
            r@ == self@,
    {
        let mut entries: Vec<(Vec<char>, S)> = Vec::new();
        let mut i: usize = 0;
        while i < self.entries.len()
            invariant
                i <= self.entries@.len(),
                entries@.len() == i,
                forall|j: int| 0 <= j < i ==> #[trigger] entries@[j].0@ == self.entries@[j].0@
                    && entries@[j].1 == self.entries@[j].1,
            decreases self.entries@.len() - i,
        {
            let key = copy_chars(&self.entries[i].0);
            entries.push((key, self.entries[i].1));
            i = i + 1;
        }
        let r = Environment { entries };
        proof {
            assert forall|a: int, b: int|
                0 <= a < r.entries@.len() && 0 <= b < r.entries@.len() && #[trigger] r.entries@[a].0@
                    == #[trigger] r.entries@[b].0@ implies a == b by {
                assert(self.entries@[a].0@ == self.entries@[b].0@);
            }
            assert forall|n: Seq<char>| #[trigger] r@.contains_key(n) == self@.contains_key(n) by {
                if r@.contains_key(n) {
                    let k = choose|k: int| 0 <= k < r.entries@.len() && r.entries@[k].0@ == n;
                    assert(self.entries@[k].0@ == n);
                }
                if self@.contains_key(n) {
                    let k = choose|k: int| 0 <= k < self.entries@.len() && self.entries@[k].0@ == n;
                    assert(r.entries@[k].0@ == n);
                }
            }
            assert forall|n: Seq<char>| #[trigger] r@.contains_key(n) implies r@[n] == self@[n] by {
                let k = choose|k: int| 0 <= k < r.entries@.len() && r.entries@[k].0@ == n;
                r.lemma_entry(k);
                self.lemma_entry(k);
            }
            assert(r@ =~= self@);
        }
        r
    }
}

} // verus!
