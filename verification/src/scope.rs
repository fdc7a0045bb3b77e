//! The variables in scope: each name with the register that holds it.

use vstd::prelude::*;
use crate::bytecode::Register;

verus! {

/// The type of a value. The language has integers only.
#[derive(Debug, Clone, Copy, PartialEq, Eq)]
pub enum ValueType {
    Integer,
}

/// What a scope knows of each of its names.
pub type Bindings = Map<Seq<char>, (ValueType, Register)>;

/// One variable: its name, its type and the register that holds it.
pub struct Binding {
    pub name: String,
    pub kind: ValueType,
    pub register: Register,
}

/// The variables visible at one point of the program. A scope is extended
/// on a copy, so that a block's bindings end with the block. A later
/// binding of a name hides an earlier one.
pub struct Scope {
    bindings: Vec<Binding>,
}

/// The map that a list of bindings stands for: the last binding of a name
/// decides.
pub open spec fn bindings_of(list: Seq<Binding>) -> Bindings
    decreases list.len(),
{
    if list.len() == 0 {
        Map::empty()
    } else {
        bindings_of(list.drop_last()).insert(
            list.last().name@,
            (list.last().kind, list.last().register),
        )
    }
}

impl View for Scope {
    type V = Bindings;

    closed spec fn view(&self) -> Bindings {
        bindings_of(self.bindings@)
    }
}

impl Scope {
    /// The scope without any variable.
    pub fn new() -> (scope: Scope)
        ensures
            scope@ == Map::<Seq<char>, (ValueType, Register)>::empty(),
    {
        Scope { bindings: Vec::new() }
    }

    /// Binds `name`, hiding any earlier binding of it.
    pub fn insert(&mut self, name: String, kind: ValueType, register: Register)
        ensures
            final(self)@ == old(self)@.insert(name@, (kind, register)),
    {
        self.bindings.push(Binding { name, kind, register });
        assert(self.bindings@.drop_last() =~= old(self).bindings@);
    }

    /// The type and register of `name`, if it is bound.
    pub fn get(&self, name: &String) -> (found: Option<(ValueType, Register)>)
        ensures
            match found {
                Some(binding) => self@.contains_key(name@) && self@[name@] == binding,
                None => !self@.contains_key(name@),
            },
    {
        let mut i: usize = self.bindings.len();
        assert(self.bindings@.take(i as int) =~= self.bindings@);
        while i > 0
            invariant
                i <= self.bindings.len(),
                bindings_of(self.bindings@).contains_key(name@) <==> bindings_of(
                    self.bindings@.take(i as int),
                ).contains_key(name@),
                bindings_of(self.bindings@).contains_key(name@) ==> bindings_of(
                    self.bindings@,
                )[name@] == bindings_of(self.bindings@.take(i as int))[name@],
            decreases i,
        {
            let ghost prefix = self.bindings@.take(i as int);
            assert(prefix.drop_last() =~= self.bindings@.take(i - 1));
            i = i - 1;
            let binding = &self.bindings[i];
            assert(*binding == prefix.last());
            if binding.name == *name {
                return Some((binding.kind, binding.register));
            }
        }
        assert(self.bindings@.take(0).len() == 0);
        None
    }
}

impl Clone for Scope {
    fn clone(&self) -> (copy: Scope)
        ensures
            copy@ == self@,
    {
        let mut bindings: Vec<Binding> = Vec::new();
        let mut i: usize = 0;
        while i < self.bindings.len()
            invariant
                i <= self.bindings.len(),
                bindings@ == self.bindings@.take(i as int),
            decreases self.bindings.len() - i,
        {
            let binding = &self.bindings[i];
            bindings.push(
                Binding {
                    name: binding.name.clone(),
                    kind: binding.kind,
                    register: binding.register,
                },
            );
            assert(bindings@ =~= self.bindings@.take(i + 1));
            i = i + 1;
        }
        assert(bindings@ =~= self.bindings@);
        Scope { bindings }
    }
}

} // verus!
