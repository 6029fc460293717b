//! The variable table: a map from names to values, last write wins.
use vstd::prelude::*;
use crate::text::{chars_of, same_chars};

verus! {

/// The map built from the first `n` name/value pairs, later pairs overriding earlier ones.
pub open spec fn pairs_map(names: Seq<Seq<char>>, values: Seq<Seq<char>>, n: int) -> Map<Seq<char>, Seq<char>>
    decreases n,
{
    if n <= 0 {
        Map::empty()
    } else {
        pairs_map(names, values, n - 1).insert(names[n - 1], values[n - 1])
    }
}

/// A table of variables. Each name occurs once.
pub struct VarTable {
    names: Vec<Vec<char>>,
    values: Vec<String>,
}

impl View for VarTable {
    type V = Map<Seq<char>, Seq<char>>;

    closed spec fn view(&self) -> Map<Seq<char>, Seq<char>> {
        pairs_map(self.name_seq(), self.value_seq(), self.names.len() as int)
    }
}

impl VarTable {
    spec fn name_seq(&self) -> Seq<Seq<char>> {
        self.names@.map_values(|n: Vec<char>| n@)
    }

    spec fn value_seq(&self) -> Seq<Seq<char>> {
        self.values@.map_values(|v: String| v@)
    }

    /// The table's invariant: one value per name, and no name twice.
    pub closed spec fn wf(&self) -> bool {
        &&& self.names.len() == self.values.len()
        &&& forall|i: int, j: int|
            0 <= i < j < self.names.len() ==> #[trigger] self.names@[i]@ != #[trigger] self.names@[j]@
    }

    proof fn lemma_lookup(&self, i: int, n: int)
        requires
            self.wf(),
            0 <= i < n <= self.names.len(),
        ensures
            pairs_map(self.name_seq(), self.value_seq(), n).contains_key(self.names@[i]@),
            pairs_map(self.name_seq(), self.value_seq(), n)[self.names@[i]@] == self.values@[i]@,
        decreases n,
    {
        if i < n - 1 {
            assert(self.names@[i]@ != self.names@[n - 1]@);
            self.lemma_lookup(i, n - 1);
        }
    }

    proof fn lemma_absent(&self, k: Seq<char>, n: int)
        requires
            self.wf(),
            0 <= n <= self.names.len(),
            forall|i: int| 0 <= i < n ==> self.names@[i]@ != k,
        ensures
            !pairs_map(self.name_seq(), self.value_seq(), n).contains_key(k),
        decreases n,
    {
        if n > 0 {
            self.lemma_absent(k, n - 1);
        }
    }

    proof fn lemma_size(&self, n: int)
        requires
            self.wf(),
            0 <= n <= self.names.len(),
        ensures
            pairs_map(self.name_seq(), self.value_seq(), n).dom().finite(),
            pairs_map(self.name_seq(), self.value_seq(), n).dom().len() == n,
        decreases n,
    {
        if n > 0 {
            self.lemma_size(n - 1);
            self.lemma_absent(self.names@[n - 1]@, n - 1);
        }
    }

    /// An empty table.
    pub fn new() -> (r: VarTable)
        ensures
            r.wf(),
            r@ == Map::<Seq<char>, Seq<char>>::empty(),
    {
        VarTable { names: Vec::new(), values: Vec::new() }
    }

    /// The position of `name`, if the table holds it.
    fn find(&self, name: &Vec<char>) -> (r: Option<usize>)
        requires
            self.wf(),
        ensures
            match r {
                Some(i) => i < self.names.len() && self.names@[i as int]@ == name@,
                None => !self@.contains_key(name@),
            },
    {
        let mut i: usize = 0;
        while i < self.names.len()
            invariant
                self.wf(),
                i <= self.names.len(),
                forall|j: int| 0 <= j < i ==> self.names@[j]@ != name@,
            decreases self.names.len() - i,
        {
            if same_chars(&self.names[i], name) {
                return Some(i);
            }
            i = i + 1;
        }
        proof {
            self.lemma_absent(name@, self.names.len() as int);
        }
        None
    }

    /// The value of the variable whose name has the characters `name`.
    pub fn lookup(&self, name: &Vec<char>) -> (r: Option<&String>)
        requires
            self.wf(),
        ensures
            r is Some == self@.contains_key(name@),
            r is Some ==> r->0@ == self@[name@],
    {
        match self.find(name) {
            Some(i) => {
                proof {
                    self.lemma_lookup(i as int, self.names.len() as int);
                }
                Some(&self.values[i])
            },
            None => None,
        }
    }

    /// The value of the variable `name`.
    pub fn get(&self, name: &str) -> (r: Option<&String>)
        requires
            self.wf(),
        ensures
            r is Some == self@.contains_key(name@),
            r is Some ==> r->0@ == self@[name@],
    {
        let key = chars_of(name);
        self.lookup(&key)
    }

    /// Sets `name` to `value`, replacing any earlier value.
    pub fn insert(&mut self, name: String, value: String)
        requires
            old(self).wf(),
        ensures
            final(self).wf(),
            final(self)@ == old(self)@.insert(name@, value@),
    {
        let key = chars_of(name.as_str());
        match self.find(&key) {
            Some(i) => {
                let ghost pre = *self;
                self.values[i] = value;
                proof {
                    self.lemma_replaced(&pre, i as int, self.names.len() as int);
                }
            },
            None => {
                let ghost pre = *self;
                self.names.push(key);
                self.values.push(value);
                proof {
                    assert(self.name_seq().take(pre.names.len() as int) =~= pre.name_seq());
                    assert(self.value_seq().take(pre.names.len() as int) =~= pre.value_seq());
                    self.lemma_prefix(&pre, pre.names.len() as int);
                    assert forall|i: int, j: int|
                        0 <= i < j < self.names.len() implies #[trigger] self.names@[i]@
                            != #[trigger] self.names@[j]@ by {
                        if j == pre.names.len() {
                            if pre.names@[i]@ == key@ {
                                pre.lemma_lookup(i, pre.names.len() as int);
                            }
                        } else {
                            assert(pre.names@[i]@ != pre.names@[j]@);
                        }
                    }
                }
            },
        }
    }

    proof fn lemma_prefix(&self, pre: &VarTable, n: int)
        requires
            0 <= n <= pre.names.len() <= self.names.len(),
            pre.names.len() <= self.values.len(),
            pre.names.len() <= pre.values.len(),
            forall|j: int| 0 <= j < pre.names.len() ==> self.names@[j] == pre.names@[j],
            forall|j: int| 0 <= j < pre.names.len() ==> self.values@[j] == pre.values@[j],
        ensures
            pairs_map(self.name_seq(), self.value_seq(), n) == pairs_map(
                pre.name_seq(),
                pre.value_seq(),
                n,
            ),
        decreases n,
    {
        if n > 0 {
            self.lemma_prefix(pre, n - 1);
        }
    }

    proof fn lemma_replaced(&self, pre: &VarTable, i: int, n: int)
        requires
            pre.wf(),
            self.names == pre.names,
            0 <= i < pre.names.len(),
            self.values@ == pre.values@.update(i, self.values@[i]),
            0 <= n <= pre.names.len(),
        ensures
            self.wf(),
            pairs_map(self.name_seq(), self.value_seq(), n) == if n > i {
                pairs_map(pre.name_seq(), pre.value_seq(), n).insert(
                    pre.names@[i]@,
                    self.values@[i]@,
                )
            } else {
                pairs_map(pre.name_seq(), pre.value_seq(), n)
            },
        decreases n,
    {
        if n > 0 {
            self.lemma_replaced(pre, i, n - 1);
            let k = pre.names@[i]@;
            let v = self.values@[i]@;
            let m = pairs_map(pre.name_seq(), pre.value_seq(), n - 1);
            if n - 1 == i {
                assert(m.insert(k, pre.values@[i]@).insert(k, v) =~= m.insert(k, v));
            } else if n - 1 > i {
                let kn = pre.names@[n - 1]@;
                assert(kn != k);
                assert(m.insert(k, v).insert(kn, pre.values@[n - 1]@) =~= m.insert(
                    kn,
                    pre.values@[n - 1]@,
                ).insert(k, v));
            }
        }
    }

    /// The number of variables.
    pub fn len(&self) -> (r: usize)
        requires
            self.wf(),
        ensures
            r == self@.dom().len(),
    {
        proof {
            self.lemma_size(self.names.len() as int);
        }
        self.names.len()
    }
}

} // verus!
