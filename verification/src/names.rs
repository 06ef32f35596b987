//! Sets of names and tables keyed by a name.
use vstd::prelude::*;
use crate::text::{same_text, texts};

verus! {

/// A set of names; no name is held twice.
#[derive(Debug)]
pub struct NameSet {
    names: Vec<String>,
}

impl View for NameSet {
    type V = Set<Seq<char>>;

    closed spec fn view(&self) -> Set<Seq<char>> {
        texts(self.names@).to_set()
    }
}

impl NameSet {
    #[verifier::type_invariant]
    spec fn distinct(self) -> bool {
        texts(self.names@).no_duplicates()
    }

    /// The empty set.
    pub fn new() -> (s: NameSet)
        ensures
            s@ == Set::<Seq<char>>::empty(),
    {
        let names: Vec<String> = Vec::new();
        assert(texts(names@).to_set() =~= Set::<Seq<char>>::empty());
        NameSet { names }
    }

    /// How many names the set holds.
    pub fn len(&self) -> (n: usize)
        ensures
            n == self@.len(),
            self@.finite(),
    {
        proof {
            use_type_invariant(self);
            texts(self.names@).unique_seq_to_set();
        }
        self.names.len()
    }

    /// Whether the set holds `name`.
    pub fn contains(&self, name: &str) -> (r: bool)
        ensures
            r == self@.contains(name@),
    {
        let mut i: usize = 0;
        while i < self.names.len()
            invariant
                i <= self.names@.len(),
                forall|k: int| 0 <= k < i ==> #[trigger] texts(self.names@)[k] != name@,
            decreases self.names@.len() - i,
        {
            if same_text(self.names[i].as_str(), name) {
                assert(texts(self.names@)[i as int] == name@);
                return true;
            }
            i += 1;
        }
        false
    }

    /// Puts `name` into the set.
    pub fn insert(&mut self, name: &str)
        ensures
            final(self)@ == old(self)@.insert(name@),
    {
        proof {
            use_type_invariant(&*self);
        }
        if self.contains(name) {
            assert(self@ =~= self@.insert(name@));
            return;
        }
        let mut names: Vec<String> = Vec::new();
        std::mem::swap(&mut names, &mut self.names);
        let ghost before = texts(names@);
        names.push(String::from_str(name));
        proof {
            let after = texts(names@);
            assert(after =~= before.push(name@));
            assert forall|x: Seq<char>| after.contains(x) == (before.contains(x) || x == name@) by {
                if after.contains(x) {
                    let k = choose|k: int| 0 <= k < after.len() && after[k] == x;
                    if k < before.len() {
                        assert(before[k] == x);
                    }
                }
                if before.contains(x) {
                    let k = choose|k: int| 0 <= k < before.len() && before[k] == x;
                    assert(after[k] == x);
                }
                if x == name@ {
                    assert(after[before.len() as int] == x);
                }
            }
            assert(after.to_set() =~= before.to_set().insert(name@));
        }
        self.names = names;
    }

    /// Takes `name` out of the set, and says whether it was there.
    pub fn remove(&mut self, name: &str) -> (r: bool)
        ensures
            r == old(self)@.contains(name@),
            final(self)@ == old(self)@.remove(name@),
    {
        proof {
            use_type_invariant(&*self);
        }
        let mut i: usize = 0;
        while i < self.names.len()
            invariant
                i <= self.names@.len(),
                *self == *old(self),
                texts(self.names@).no_duplicates(),
                forall|k: int| 0 <= k < i ==> #[trigger] texts(self.names@)[k] != name@,
            decreases self.names@.len() - i,
        {
            if same_text(self.names[i].as_str(), name) {
                let mut names: Vec<String> = Vec::new();
                std::mem::swap(&mut names, &mut self.names);
                let ghost before = texts(names@);
                assert(before[i as int] == name@);
                names.remove(i);
                proof {
                    let after = texts(names@);
                    assert(after =~= before.remove(i as int));
                    assert forall|x: Seq<char>| after.contains(x) == (before.contains(x) && x
                        != name@) by {
                        if after.contains(x) {
                            let k = choose|k: int| 0 <= k < after.len() && after[k] == x;
                            if k < i {
                                assert(before[k] == x);
                            } else {
                                assert(before[k + 1] == x);
                            }
                        }
                        if before.contains(x) && x != name@ {
                            let k = choose|k: int| 0 <= k < before.len() && before[k] == x;
                            if k < i {
                                assert(after[k] == x);
                            } else {
                                assert(after[k - 1] == x);
                            }
                        }
                    }
                    assert(after.to_set() =~= before.to_set().remove(name@));
                }
                self.names = names;
                return true;
            }
            i += 1;
        }
        assert(self@.remove(name@) =~= self@);
        false
    }

    /// Takes every name out of the set.
    pub fn clear(&mut self)
        ensures
            final(self)@ == Set::<Seq<char>>::empty(),
    {
        *self = NameSet::new();
    }
}

/// A table from names to numbers; no name is held twice.
#[derive(Debug)]
pub struct NameTable {
    names: Vec<String>,
    values: Vec<i64>,
}

impl View for NameTable {
    type V = Map<Seq<char>, i64>;

    closed spec fn view(&self) -> Map<Seq<char>, i64> {
        Map::new(
            |n: Seq<char>| texts(self.names@).contains(n),
            |n: Seq<char>| self.values@[texts(self.names@).index_of(n)],
        )
    }
}

/// The names of a table whose number is `least` or more.
pub open spec fn names_at_least(table: Map<Seq<char>, i64>, least: int) -> Set<Seq<char>> {
    table.dom().filter(|n: Seq<char>| table[n] >= least)
}

impl NameTable {
    #[verifier::type_invariant]
    spec fn distinct(self) -> bool {
        &&& texts(self.names@).no_duplicates()
        &&& self.names@.len() == self.values@.len()
    }

    /// The row of each name holds the number that the table gives it.
    proof fn lemma_rows(self)
        requires
            self.distinct(),
        ensures
            forall|k: int|
                0 <= k < self.names@.len() ==> {
                    &&& self@.contains_key(#[trigger] texts(self.names@)[k])
                    &&& self@[texts(self.names@)[k]] == self.values@[k]
                },
            forall|n: Seq<char>| #[trigger]
                self@.contains_key(n) ==> exists|k: int|
                    0 <= k < self.names@.len() && #[trigger] texts(self.names@)[k] == n,
    {
        let names = texts(self.names@);
        assert forall|k: int| 0 <= k < names.len() implies {
            &&& self@.contains_key(#[trigger] names[k])
            &&& self@[names[k]] == self.values@[k]
        } by {
            assert(names.contains(names[k]));
            let j = names.index_of(names[k]);
            assert(0 <= j < names.len() && names[j] == names[k]);
        }
    }

    /// The empty table.
    pub fn new() -> (t: NameTable)
        ensures
            t@ == Map::<Seq<char>, i64>::empty(),
    {
        let t = NameTable { names: Vec::new(), values: Vec::new() };
        assert(t@ =~= Map::<Seq<char>, i64>::empty());
        t
    }

    /// The number held under `name`.
    pub fn get(&self, name: &str) -> (r: Option<i64>)
        ensures
            r == (if self@.contains_key(name@) {
                Some(self@[name@])
            } else {
                None
            }),
    {
        proof {
            use_type_invariant(self);
            self.lemma_rows();
        }
        let mut i: usize = 0;
        while i < self.names.len()
            invariant
                i <= self.names@.len(),
                self.names@.len() == self.values@.len(),
                forall|k: int|
                    0 <= k < self.names@.len() ==> {
                        &&& self@.contains_key(#[trigger] texts(self.names@)[k])
                        &&& self@[texts(self.names@)[k]] == self.values@[k]
                    },
                forall|k: int| 0 <= k < i ==> #[trigger] texts(self.names@)[k] != name@,
            decreases self.names@.len() - i,
        {
            if same_text(self.names[i].as_str(), name) {
                assert(texts(self.names@)[i as int] == name@);
                return Some(self.values[i]);
            }
            i += 1;
        }
        None
    }

    /// Puts `value` under `name`, in place of what stood there.
    pub fn set(&mut self, name: &str, value: i64)
        ensures
            final(self)@ == old(self)@.insert(name@, value),
    {
        proof {
            use_type_invariant(&*self);
            self.lemma_rows();
        }
        let mut names: Vec<String> = Vec::new();
        let mut values: Vec<i64> = Vec::new();
        let ghost whole = *self;
        let mut i: usize = 0;
        let mut found: bool = false;
        while i < self.names.len()
            invariant
                i <= self.names@.len(),
                self.names@.len() == self.values@.len(),
                texts(self.names@).no_duplicates(),
                *self == whole,
                names@ == self.names@.take(i as int),
                values@.len() == i,
                found == exists|k: int| 0 <= k < i && #[trigger] texts(self.names@)[k] == name@,
                forall|k: int|
                    0 <= k < i ==> #[trigger] values@[k] == (if texts(self.names@)[k] == name@ {
                        value
                    } else {
                        self.values@[k]
                    }),
            decreases self.names@.len() - i,
        {
            names.push(self.names[i].clone());
            assert(names@ =~= self.names@.take(i + 1));
            if same_text(self.names[i].as_str(), name) {
                assert(texts(self.names@)[i as int] == name@);
                values.push(value);
                found = true;
            } else {
                values.push(self.values[i]);
            }
            i += 1;
        }
        assert(names@ =~= self.names@);
        if !found {
            names.push(String::from_str(name));
            values.push(value);
        }
        proof {
            let before = texts(self.names@);
            let after = texts(names@);
            if found {
                assert(after =~= before);
            } else {
                assert(after =~= before.push(name@));
            }
        }
        *self = NameTable { names, values };
        proof {
            self.lemma_rows();
            let before = texts(whole.names@);
            let after = texts(self.names@);
            assert forall|n: Seq<char>| self@.contains_key(n) == whole@.insert(
                name@,
                value,
            ).contains_key(n) by {
                if whole@.contains_key(n) {
                    let k = choose|k: int| 0 <= k < before.len() && before[k] == n;
                    assert(after[k] == n);
                }
                if n == name@ && !found {
                    assert(after[before.len() as int] == n);
                }
                if self@.contains_key(n) {
                    let k = choose|k: int| 0 <= k < after.len() && after[k] == n;
                    if k < before.len() {
                        assert(before[k] == n);
                    }
                }
            }
            assert forall|n: Seq<char>| #[trigger]
                self@.contains_key(n) implies self@[n] == whole@.insert(name@, value)[n] by {
                let k = choose|k: int| 0 <= k < after.len() && after[k] == n;
                if k < before.len() {
                    assert(before[k] == n);
                }
            }
            assert(self@ =~= whole@.insert(name@, value));
        }
    }

    /// How many names hold a number of `least` or more.
    pub fn count_at_least(&self, least: i64) -> (n: usize)
        ensures
            n == names_at_least(self@, least as int).len(),
            names_at_least(self@, least as int).finite(),
    {
        proof {
            use_type_invariant(self);
            self.lemma_rows();
        }
        let mut i: usize = 0;
        let mut n: usize = 0;
        let ghost mut seen: Set<Seq<char>> = Set::empty();
        while i < self.names.len()
            invariant
                i <= self.names@.len(),
                n <= i,
                self.names@.len() == self.values@.len(),
                texts(self.names@).no_duplicates(),
                forall|k: int|
                    0 <= k < self.names@.len() ==> {
                        &&& self@.contains_key(#[trigger] texts(self.names@)[k])
                        &&& self@[texts(self.names@)[k]] == self.values@[k]
                    },
                seen.finite(),
                seen.len() == n,
                forall|x: Seq<char>| #[trigger]
                    seen.contains(x) <==> exists|k: int|
                        0 <= k < i && self.values@[k] >= least && #[trigger] texts(self.names@)[k]
                            == x,
            decreases self.names@.len() - i,
        {
            if self.values[i] >= least {
                n += 1;
                proof {
                    let x = texts(self.names@)[i as int];
                    assert(!seen.contains(x));
                    seen = seen.insert(x);
                }
            }
            i += 1;
        }
        proof {
            let all = names_at_least(self@, least as int);
            assert forall|x: Seq<char>| seen.contains(x) == all.contains(x) by {
                if all.contains(x) {
                    let k = choose|k: int|
                        0 <= k < self.names@.len() && #[trigger] texts(self.names@)[k] == x;
                    assert(self.values@[k] >= least);
                }
            }
            assert(seen =~= all);
        }
        n
    }
}

/// A name counts where the table gives it at least so much.
pub proof fn names_count_from_their_value_on(table: Map<Seq<char>, i64>, least: int, name: Seq<char>)
    ensures
        names_at_least(table, least).contains(name) <==> table.contains_key(name) && table[name] - least >= 0,
{
}

} // verus!
