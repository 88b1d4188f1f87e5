//! Variables: a base symbol together with a generation counter.

use vstd::prelude::*;

verus! {

/// A variable: a base symbol and the generation of that symbol.
///
/// Two variables are the same exactly when both fields agree.
#[derive(Clone, Copy, Debug, PartialEq, Eq, Hash, Structural)]
pub struct Variable(pub char, pub usize);

impl Variable {
    /// The variable with the same symbol and the following generation.
    pub open spec fn successor(self) -> Variable {
        Variable(self.0, (self.1 + 1) as usize)
    }

    /// The fresh variable that follows `self`: same symbol, generation plus one.
    pub fn next(self) -> (v: Variable)
        requires
            self.1 < usize::MAX,
        ensures
            v == self.successor(),
            v.0 == self.0,
            v.1 == self.1 + 1,
    {
        Variable(self.0, self.1 + 1)
    }
}

impl vstd::std_specs::convert::FromSpecImpl<char> for Variable {
    open spec fn obeys_from_spec() -> bool {
        true
    }

    open spec fn from_spec(symbol: char) -> Variable {
        Variable(symbol, 0)
    }
}

impl From<char> for Variable {
    /// The variable of generation zero named by `symbol`.
    fn from(symbol: char) -> (v: Variable) {
        Variable(symbol, 0)
    }
}

} // verus!
