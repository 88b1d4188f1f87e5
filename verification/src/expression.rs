//! Expression trees.

use vstd::prelude::*;
use crate::variable::Variable;

verus! {

/// A term of the untyped lambda calculus.
#[derive(Debug, PartialEq, Eq)]
pub enum Expression {
    /// A reference to a variable, bound or free.
    Identifier(Variable),
    /// The left operand applied to the right operand.
    Application(Box<Expression>, Box<Expression>),
    /// A function literal that binds one variable over a body.
    Abstraction(Variable, Box<Expression>),
}

impl Clone for Expression {
    /// A structurally equal copy of the whole tree.
    fn clone(&self) -> (copy: Self)
        ensures
            copy == *self,
        decreases *self,
    {
        match self {
            Expression::Identifier(v) => Expression::Identifier(*v),
            Expression::Application(function, argument) => Expression::Application(
                Box::new((&**function).clone()),
                Box::new((&**argument).clone()),
            ),
            Expression::Abstraction(binder, body) => Expression::Abstraction(
                *binder,
                Box::new((&**body).clone()),
            ),
        }
    }
}

impl Expression {
    /// The number of nodes of the tree.
    pub open spec fn size(self) -> nat
        decreases self,
    {
        match self {
            Expression::Identifier(_) => 1,
            Expression::Application(function, argument) => 1 + function.size() + argument.size(),
            Expression::Abstraction(_, body) => 1 + body.size(),
        }
    }

    /// The length of the longest way from the root down to an identifier.
    pub open spec fn height(self) -> nat
        decreases self,
    {
        match self {
            Expression::Identifier(_) => 0,
            Expression::Application(function, argument) => if function.height()
                >= argument.height() {
                1 + function.height()
            } else {
                1 + argument.height()
            },
            Expression::Abstraction(_, body) => 1 + body.height(),
        }
    }

    /// Juxtaposes `other` to the right of `self`.
    pub fn extend(self, other: Expression) -> (joined: Expression)
        ensures
            joined == Expression::Application(Box::new(self), Box::new(other)),
    {
        Expression::Application(Box::new(self), Box::new(other))
    }
}

} // verus!
