//! Free variables, renaming of a bound variable, and capture-avoiding substitution.

use vstd::prelude::*;
use crate::expression::Expression;
use crate::variable::Variable;
use crate::variable_set::VariableSet;

verus! {

/// The variables that occur in `expr` outside the scope of a binder of theirs.
pub open spec fn free_variables(expr: Expression) -> Set<Variable>
    decreases expr,
{
    match expr {
        Expression::Identifier(x) => set![x],
        Expression::Application(function, argument) => free_variables(*function).union(
            free_variables(*argument),
        ),
        Expression::Abstraction(binder, body) => free_variables(*body).remove(binder),
    }
}

/// `expr` with every free occurrence of `x` replaced by the identifier `z`.
///
/// An abstraction that binds `x` again shadows it: such a subtree is left as it is.
pub open spec fn renamed(expr: Expression, x: Variable, z: Variable) -> Expression
    decreases expr,
{
    match expr {
        Expression::Identifier(y) => if y == x {
            Expression::Identifier(z)
        } else {
            expr
        },
        Expression::Application(function, argument) => Expression::Application(
            Box::new(renamed(*function, x, z)),
            Box::new(renamed(*argument, x, z)),
        ),
        Expression::Abstraction(binder, body) => if binder == x {
            expr
        } else {
            Expression::Abstraction(binder, Box::new(renamed(*body, x, z)))
        },
    }
}

/// Renaming changes no node count.
pub proof fn lemma_renamed_size(expr: Expression, x: Variable, z: Variable)
    ensures
        renamed(expr, x, z).size() == expr.size(),
    decreases expr,
{
    match expr {
        Expression::Identifier(_) => {},
        Expression::Application(function, argument) => {
            lemma_renamed_size(*function, x, z);
            lemma_renamed_size(*argument, x, z);
        },
        Expression::Abstraction(binder, body) => {
            if binder != x {
                lemma_renamed_size(*body, x, z);
            }
        },
    }
}

/// `expr` with every free occurrence of `y` replaced by `n`, or `None` where a
/// binder that has to be renamed is already of the last generation.
///
/// An abstraction that binds `y` is left as it is. An abstraction whose binder
/// is free in `n` first has that binder renamed to its successor throughout its
/// body, and the substitution is then made in the renamed body.
pub open spec fn substitution(expr: Expression, y: Variable, n: Expression) -> Option<Expression>
    decreases expr.size(),
    via substitution_decreases
{
    match expr {
        Expression::Identifier(x) => if x == y {
            Some(n)
        } else {
            Some(expr)
        },
        Expression::Application(function, argument) => match (
            substitution(*function, y, n),
            substitution(*argument, y, n),
        ) {
            (Some(f), Some(a)) => Some(Expression::Application(Box::new(f), Box::new(a))),
            _ => None,
        },
        Expression::Abstraction(binder, body) => if binder == y {
            Some(expr)
        } else if free_variables(n).contains(binder) {
            if binder.1 < usize::MAX {
                match substitution(renamed(*body, binder, binder.successor()), y, n) {
                    Some(b) => Some(Expression::Abstraction(binder.successor(), Box::new(b))),
                    None => None,
                }
            } else {
                None
            }
        } else {
            match substitution(*body, y, n) {
                Some(b) => Some(Expression::Abstraction(binder, Box::new(b))),
                None => None,
            }
        },
    }
}

#[via_fn]
proof fn substitution_decreases(expr: Expression, y: Variable, n: Expression) {
    match expr {
        Expression::Abstraction(binder, body) => {
            lemma_renamed_size(*body, binder, binder.successor());
        },
        _ => {},
    }
}

/// The set of the variables that are free in `expr`.
pub fn free(expr: &Expression) -> (variables: VariableSet)
    ensures
        variables@ == free_variables(*expr),
    decreases *expr,
{
    match expr {
        Expression::Identifier(x) => VariableSet::new().insert(*x),
        Expression::Application(function, argument) => free(function).union(&free(argument)),
        Expression::Abstraction(binder, body) => free(body).remove(*binder),
    }
}

/// Renames the free occurrences of `x` in `expr` to `z`.
pub fn alpha(expr: Expression, x: Variable, z: Variable) -> (result: Expression)
    ensures
        result == renamed(expr, x, z),
    decreases expr,
{
    match expr {
        Expression::Identifier(y) => if y == x {
            Expression::Identifier(z)
        } else {
            Expression::Identifier(y)
        },
        Expression::Application(function, argument) => Expression::Application(
            Box::new(alpha(*function, x, z)),
            Box::new(alpha(*argument, x, z)),
        ),
        Expression::Abstraction(binder, body) => if binder == x {
            Expression::Abstraction(binder, body)
        } else {
            Expression::Abstraction(binder, Box::new(alpha(*body, x, z)))
        },
    }
}

/// Replaces the free occurrences of `y` in `expr` by copies of `n` without
/// letting a binder of `expr` capture a free variable of `n`.
///
/// Returns `None` exactly where a binder that has to be renamed is of the last
/// generation, so that no fresh name is left for it.
pub fn substitute(expr: Expression, y: Variable, n: &Expression) -> (result: Option<Expression>)
    ensures
        result == substitution(expr, y, *n),
    decreases expr.size(),
{
    match expr {
        Expression::Identifier(x) => if x == y {
            Some(n.clone())
        } else {
            Some(Expression::Identifier(x))
        },
        Expression::Application(function, argument) => {
            let f = substitute(*function, y, n);
            let a = substitute(*argument, y, n);
            match (f, a) {
                (Some(f), Some(a)) => Some(Expression::Application(Box::new(f), Box::new(a))),
                _ => None,
            }
        },
        Expression::Abstraction(binder, body) => if binder == y {
            Some(Expression::Abstraction(binder, body))
        } else if free(n).contains(binder) {
            if binder.1 < usize::MAX {
                let fresh = binder.next();
                proof {
                    lemma_renamed_size(*body, binder, fresh);
                }
                let body = alpha(*body, binder, fresh);
                match substitute(body, y, n) {
                    Some(b) => Some(Expression::Abstraction(fresh, Box::new(b))),
                    None => None,
                }
            } else {
                None
            }
        } else {
            match substitute(*body, y, n) {
                Some(b) => Some(Expression::Abstraction(binder, Box::new(b))),
                None => None,
            }
        },
    }
}

} // verus!
