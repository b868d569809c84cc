//! The lookups that the compiler consults: shell variables and aliases.

use crate::text::{same_text, texts};
use vstd::prelude::*;

verus! {

/// A variable and its value.
#[derive(Debug)]
pub struct Binding {
    pub name: String,
    pub value: String,
}

/// The map that a sequence of bindings stands for: a later binding of a
/// name replaces an earlier one.
pub open spec fn bindings_map<V>(entries: Seq<(Seq<char>, V)>) -> Map<Seq<char>, V>
    decreases entries.len(),
{
    if entries.len() == 0 {
        Map::empty()
    } else {
        bindings_map(entries.drop_last()).insert(entries.last().0, entries.last().1)
    }
}

/// No name occurs twice among the bindings.
pub open spec fn distinct_names<V>(entries: Seq<(Seq<char>, V)>) -> bool {
    forall|i: int, j: int| 0 <= i < j < entries.len() ==> (#[trigger] entries[i]).0 != (#[trigger] entries[j]).0
}

/// A store of variables: from names to values.
#[derive(Debug)]
pub struct Variables {
    entries: Vec<Binding>,
}

impl Variables {
    /// The bindings in the order in which their names were first defined.
    pub closed spec fn bindings(&self) -> Seq<(Seq<char>, Seq<char>)> {
        self.entries@.map_values(|b: Binding| (b.name@, b.value@))
    }

    /// Every name is bound once. A store that was made by `new` and
    /// changed by `define` alone is of that kind.
    pub open spec fn wf(&self) -> bool {
        distinct_names(self.bindings())
    }

    pub fn new() -> (store: Self)
        ensures
            store@ == Map::<Seq<char>, Seq<char>>::empty(),
            store.bindings() == Seq::<(Seq<char>, Seq<char>)>::empty(),
            store.wf(),
    {
        let store = Variables { entries: Vec::new() };
        assert(store.bindings() =~= Seq::empty());
        store
    }

    /// The position of the last binding of `name`, if it has one.
    fn position(&self, name: &str) -> (found: Option<usize>)
        ensures
            match found {
                Some(k) => {
                    &&& k < self.bindings().len()
                    &&& self.bindings()[k as int].0 == name@
                    &&& forall|j: int| k < j < self.bindings().len() ==> (#[trigger] self.bindings()[j]).0 != name@
                },
                None => forall|j: int| 0 <= j < self.bindings().len() ==> (#[trigger] self.bindings()[j]).0 != name@,
            },
    {
        let mut i: usize = self.entries.len();
        while i > 0
            invariant
                i <= self.entries@.len(),
                forall|j: int| i <= j < self.bindings().len() ==> (#[trigger] self.bindings()[j]).0 != name@,
            decreases i,
        {
            i -= 1;
            if same_text(self.entries[i].name.as_str(), name) {
                return Some(i);
            }
        }
        None
    }

    /// The value of `name`, if it has one.
    pub fn lookup(&self, name: &str) -> (value: Option<&String>)
        ensures
            match value {
                Some(text) => self@.contains_key(name@) && self@[name@] == text@,
                None => !self@.contains_key(name@),
            },
    {
        proof {
            lemma_bindings_map(self.bindings(), name@);
        }
        match self.position(name) {
            Some(k) => Some(&self.entries[k].value),
            None => None,
        }
    }

    /// Gives `name` the value `value`.
    pub fn define(&mut self, name: &str, value: &str)
        ensures
            final(self)@ == old(self)@.insert(name@, value@),
            old(self).wf() ==> final(self).wf(),
    {
        let binding = Binding { name: name.to_owned(), value: value.to_owned() };
        match self.position(name) {
            Some(k) => {
                proof {
                    lemma_bindings_update(self.bindings(), k as int, value@);
                }
                self.entries.set(k, binding);
                assert(self.bindings() =~= old(self).bindings().update(k as int, (name@, value@)));
            },
            None => {
                self.entries.push(binding);
                assert(self.bindings() =~= old(self).bindings().push((name@, value@)));
                assert(self.bindings().drop_last() =~= old(self).bindings());
            },
        }
    }

    /// The number of names that have a value.
    pub fn len(&self) -> (n: usize)
        ensures
            n == self.bindings().len(),
    {
        self.entries.len()
    }

    /// The binding at position `i`, in the order in which the names were
    /// first defined.
    pub fn binding(&self, i: usize) -> (b: &Binding)
        requires
            i < self.bindings().len(),
        ensures
            (b.name@, b.value@) == self.bindings()[i as int],
    {
        &self.entries[i]
    }
}

impl View for Variables {
    type V = Map<Seq<char>, Seq<char>>;

    closed spec fn view(&self) -> Map<Seq<char>, Seq<char>> {
        bindings_map(self.bindings())
    }
}

/// An alias: the program and the arguments that stand for a name.
#[derive(Debug)]
pub struct Alias {
    pub name: String,
    pub program: String,
    pub args: Vec<String>,
}

/// A store of aliases: from names to a program and its fixed arguments.
#[derive(Debug)]
pub struct Aliases {
    entries: Vec<Alias>,
}

impl Aliases {
    /// The aliases in the order in which their names were first defined.
    pub closed spec fn bindings(&self) -> Seq<(Seq<char>, (Seq<char>, Seq<Seq<char>>))> {
        self.entries@.map_values(|a: Alias| (a.name@, (a.program@, texts(a.args@))))
    }

    /// Every name is defined once. A store that was made by `new` and
    /// changed by `define` alone is of that kind.
    pub open spec fn wf(&self) -> bool {
        distinct_names(self.bindings())
    }

    pub fn new() -> (store: Self)
        ensures
            store@ == Map::<Seq<char>, (Seq<char>, Seq<Seq<char>>)>::empty(),
            store.bindings() == Seq::<(Seq<char>, (Seq<char>, Seq<Seq<char>>))>::empty(),
            store.wf(),
    {
        let store = Aliases { entries: Vec::new() };
        assert(store.bindings() =~= Seq::empty());
        store
    }

    /// The position of the last definition of `name`, if it has one.
    fn position(&self, name: &str) -> (found: Option<usize>)
        ensures
            match found {
                Some(k) => {
                    &&& k < self.bindings().len()
                    &&& self.bindings()[k as int].0 == name@
                    &&& forall|j: int| k < j < self.bindings().len() ==> (#[trigger] self.bindings()[j]).0 != name@
                },
                None => forall|j: int| 0 <= j < self.bindings().len() ==> (#[trigger] self.bindings()[j]).0 != name@,
            },
    {
        let mut i: usize = self.entries.len();
        while i > 0
            invariant
                i <= self.entries@.len(),
                forall|j: int| i <= j < self.bindings().len() ==> (#[trigger] self.bindings()[j]).0 != name@,
            decreases i,
        {
            i -= 1;
            if same_text(self.entries[i].name.as_str(), name) {
                return Some(i);
            }
        }
        None
    }

    /// What `name` stands for, if it is an alias.
    pub fn lookup(&self, name: &str) -> (alias: Option<&Alias>)
        ensures
            match alias {
                Some(a) => self@.contains_key(name@) && self@[name@] == (a.program@, texts(a.args@)),
                None => !self@.contains_key(name@),
            },
    {
        proof {
            lemma_bindings_map(self.bindings(), name@);
        }
        match self.position(name) {
            Some(k) => Some(&self.entries[k]),
            None => None,
        }
    }

    /// Makes `name` stand for `program` with the arguments `args`.
    pub fn define(&mut self, name: &str, program: &str, args: Vec<String>)
        ensures
            final(self)@ == old(self)@.insert(name@, (program@, texts(args@))),
            old(self).wf() ==> final(self).wf(),
    {
        let ghost value = (program@, texts(args@));
        let alias = Alias { name: name.to_owned(), program: program.to_owned(), args };
        match self.position(name) {
            Some(k) => {
                proof {
                    lemma_bindings_update(self.bindings(), k as int, value);
                }
                self.entries.set(k, alias);
                assert(self.bindings() =~= old(self).bindings().update(k as int, (name@, value)));
            },
            None => {
                self.entries.push(alias);
                assert(self.bindings() =~= old(self).bindings().push((name@, value)));
                assert(self.bindings().drop_last() =~= old(self).bindings());
            },
        }
    }

    /// The number of aliases.
    pub fn len(&self) -> (n: usize)
        ensures
            n == self.bindings().len(),
    {
        self.entries.len()
    }

    /// The alias at position `i`, in the order in which the names were
    /// first defined.
    pub fn alias(&self, i: usize) -> (a: &Alias)
        requires
            i < self.bindings().len(),
        ensures
            (a.name@, (a.program@, texts(a.args@))) == self.bindings()[i as int],
    {
        &self.entries[i]
    }
}

impl View for Aliases {
    type V = Map<Seq<char>, (Seq<char>, Seq<Seq<char>>)>;

    closed spec fn view(&self) -> Map<Seq<char>, (Seq<char>, Seq<Seq<char>>)> {
        bindings_map(self.bindings())
    }
}

/// What `bindings_map` holds for `name`: the value of its last binding.
pub proof fn lemma_bindings_map<V>(entries: Seq<(Seq<char>, V)>, name: Seq<char>)
    ensures
        bindings_map(entries).contains_key(name) <==> exists|j: int|
            0 <= j < entries.len() && (#[trigger] entries[j]).0 == name,
        forall|k: int|
            0 <= k < entries.len() && (#[trigger] entries[k]).0 == name && (forall|j: int|
                k < j < entries.len() ==> (#[trigger] entries[j]).0 != name) ==> bindings_map(entries)[name]
                == entries[k].1,
    decreases entries.len(),
{
    if entries.len() > 0 {
        let rest = entries.drop_last();
        lemma_bindings_map(rest, name);
        if entries.last().0 == name {
            assert(entries[entries.len() - 1].0 == name);
        } else {
            if bindings_map(entries).contains_key(name) {
                let j = choose|j: int| 0 <= j < rest.len() && (#[trigger] rest[j]).0 == name;
                assert(entries[j] == rest[j]);
            }
            assert forall|j: int| 0 <= j < entries.len() && (#[trigger] entries[j]).0 == name implies bindings_map(
                entries,
            ).contains_key(name) by {
                assert(rest[j] == entries[j]);
            }
        }
        assert forall|k: int|
            0 <= k < entries.len() && (#[trigger] entries[k]).0 == name && (forall|j: int|
                k < j < entries.len() ==> (#[trigger] entries[j]).0 != name) implies bindings_map(entries)[name]
                == entries[k].1 by {
            if k < entries.len() - 1 {
                assert(entries[entries.len() - 1].0 != name);
                assert(rest[k] == entries[k]);
                assert forall|j: int| k < j < rest.len() implies (#[trigger] rest[j]).0 != name by {
                    assert(rest[j] == entries[j]);
                }
            }
        }
    }
}

/// Giving the last binding of a name a new value is `insert` on the map.
pub proof fn lemma_bindings_update<V>(entries: Seq<(Seq<char>, V)>, k: int, value: V)
    requires
        0 <= k < entries.len(),
        forall|j: int| k < j < entries.len() ==> (#[trigger] entries[j]).0 != entries[k].0,
    ensures
        bindings_map(entries.update(k, (entries[k].0, value))) == bindings_map(entries).insert(entries[k].0, value),
    decreases entries.len(),
{
    let name = entries[k].0;
    let changed = entries.update(k, (name, value));
    let rest = entries.drop_last();
    if k == entries.len() - 1 {
        assert(changed.drop_last() =~= rest);
        assert(bindings_map(changed) =~= bindings_map(entries).insert(name, value));
    } else {
        assert(changed.drop_last() =~= rest.update(k, (rest[k].0, value)));
        assert(changed.last() == entries.last());
        assert(entries[entries.len() - 1].0 != name);
        assert forall|j: int| k < j < rest.len() implies (#[trigger] rest[j]).0 != rest[k].0 by {
            assert(rest[j] == entries[j]);
        }
        lemma_bindings_update(rest, k, value);
        assert(bindings_map(changed) =~= bindings_map(entries).insert(name, value));
    }
}

} // verus!
