//! The table of bound names.
//!
//! A binding maps an identifier, made of alphabetic characters, to a
//! numeric value.  The engine reads only which names are bound: the values
//! live with the interpreter of the stack effects, outside the machine.
//! In the current scope nothing ever writes a binding, so the table stays
//! empty and every lookup fails; the type still carries the membership
//! contract the machine is specified against.

use vstd::prelude::*;

verus! {

/// The set of bound names, read-only during a line.
pub struct Bindings {
    names: Vec<String>,
}

impl View for Bindings {
    type V = Set<Seq<char>>;

    closed spec fn view(&self) -> Set<Seq<char>> {
        Set::new(|s: Seq<char>| exists|i: int| 0 <= i < self.names@.len() && self.names@[i]@ == s)
    }
}

impl Bindings {
    /// A fresh table with no bound names.
    pub fn new() -> (r: Self)
        ensures
            r@ =~= Set::<Seq<char>>::empty(),
    {
        Bindings { names: Vec::new() }
    }

    /// Whether `name` is bound.
    pub fn contains(&self, name: &String) -> (r: bool)
        ensures
            r == self@.contains(name@),
    {
        let mut j: usize = 0;
        while j < self.names.len()
            invariant
                j <= self.names@.len(),
                forall|k: int| 0 <= k < j ==> self.names@[k]@ != name@,
            decreases self.names@.len() - j,
        {
            if self.names[j].eq(name) {
                proof {
                    assert(self@.contains(name@));
                }
                return true;
            }
            j += 1;
        }
        false
    }
}

} // verus!
