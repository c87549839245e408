//! The variable environment: the values that names are bound to.
use crate::math::{Number, NumberView};
use vstd::hash_map::StringHashMap;
use vstd::prelude::*;

verus! {

/// A mapping from variable names to numbers. The caller owns it; a
/// declaration adds to it and a variable reference reads it.
pub struct Environment {
    bindings: StringHashMap<Number>,
}

impl View for Environment {
    type V = Map<Seq<char>, NumberView>;

    closed spec fn view(&self) -> Map<Seq<char>, NumberView> {
        self.bindings@.map_values(|n: Number| n@)
    }
}

impl Default for Environment {
    fn default() -> (env: Self)
        ensures
            env@ == Map::<Seq<char>, NumberView>::empty(),
    {
        Environment::new()
    }
}

impl Environment {
    /// An environment that binds no name.
    pub fn new() -> (env: Self)
        ensures
            env@ == Map::<Seq<char>, NumberView>::empty(),
    {
        Environment { bindings: StringHashMap::new() }
    }

    /// The value bound to `name`, if there is one.
    pub fn get(&self, name: &str) -> (value: Option<Number>)
        ensures
            match value {
                Some(n) => self@.contains_key(name@) && self@[name@] == n@,
                None => !self@.contains_key(name@),
            },
    {
        match self.bindings.get(name) {
            Some(n) => Some(n.clone()),
            None => None,
        }
    }

    /// Whether `name` is bound.
    pub fn contains(&self, name: &str) -> (found: bool)
        ensures
            found == self@.contains_key(name@),
    {
        self.bindings.contains_key(name)
    }

    /// Binds `name` to `value`, in place of what it was bound to before.
    pub fn insert(&mut self, name: String, value: Number)
        ensures
            final(self)@ == old(self)@.insert(name@, value@),
    {
        self.bindings.insert(name, value);
    }

    /// The number of names bound.
    pub fn len(&self) -> (n: usize)
        ensures
            n == self@.len(),
    {
        assert(self@.dom() =~= self.bindings@.dom());
        self.bindings.len()
    }
}

} // verus!
