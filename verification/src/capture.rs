//! Capture avoidance: where substitution puts its copies, and which binders
//! stand over them.

use vstd::prelude::*;
use crate::expression::Expression;
use crate::substitution::{free_variables, lemma_renamed_size, renamed, substitution};
use crate::variable::Variable;

verus! {

/// One step down an expression tree.
pub enum Branch {
    /// To the function part of an application.
    Function,
    /// To the argument of an application.
    Argument,
    /// To the body of an abstraction.
    Body,
}

/// The subtree of `expr` that `path` leads to, if it leads to any.
pub open spec fn subterm(expr: Expression, path: Seq<Branch>) -> Option<Expression>
    decreases path.len(),
{
    if path.len() == 0 {
        Some(expr)
    } else {
        match (expr, path[0]) {
            (Expression::Application(function, _), Branch::Function) => subterm(
                *function,
                path.skip(1),
            ),
            (Expression::Application(_, argument), Branch::Argument) => subterm(
                *argument,
                path.skip(1),
            ),
            (Expression::Abstraction(_, body), Branch::Body) => subterm(*body, path.skip(1)),
            _ => None,
        }
    }
}

/// The binders of the abstractions of `expr` that `path` goes through: the
/// binders in whose scope the subtree at the end of `path` stands.
pub open spec fn binders_along(expr: Expression, path: Seq<Branch>) -> Set<Variable>
    decreases path.len(),
{
    if path.len() == 0 {
        Set::empty()
    } else {
        match (expr, path[0]) {
            (Expression::Application(function, _), Branch::Function) => binders_along(
                *function,
                path.skip(1),
            ),
            (Expression::Application(_, argument), Branch::Argument) => binders_along(
                *argument,
                path.skip(1),
            ),
            (Expression::Abstraction(binder, body), Branch::Body) => binders_along(
                *body,
                path.skip(1),
            ).insert(binder),
            _ => Set::empty(),
        }
    }
}

/// Whether `path` leads to an occurrence of `y` in `expr` that no abstraction
/// of `expr` binds.
pub open spec fn free_occurrence(expr: Expression, path: Seq<Branch>, y: Variable) -> bool {
    &&& subterm(expr, path) == Some(Expression::Identifier(y))
    &&& !binders_along(expr, path).contains(y)
}

/// Whether the fresh names of `binders` are free for `n`: no binder that is
/// free in `n`, and so has to be renamed, has a successor that is free in `n` too.
pub open spec fn successors_avoid(binders: Set<Variable>, n: Expression) -> bool {
    forall|x: Variable|
        binders.contains(x) && free_variables(n).contains(x) ==> !free_variables(n).contains(
            #[trigger] x.successor(),
        )
}

/// Renaming changes no binder.
pub proof fn lemma_renamed_binders(expr: Expression, x: Variable, z: Variable, path: Seq<Branch>)
    ensures
        binders_along(renamed(expr, x, z), path) == binders_along(expr, path),
    decreases path.len(),
{
    if path.len() > 0 {
        match (expr, path[0]) {
            (Expression::Application(function, _), Branch::Function) => {
                lemma_renamed_binders(*function, x, z, path.skip(1));
            },
            (Expression::Application(_, argument), Branch::Argument) => {
                lemma_renamed_binders(*argument, x, z, path.skip(1));
            },
            (Expression::Abstraction(binder, body), Branch::Body) => {
                if binder != x {
                    lemma_renamed_binders(*body, x, z, path.skip(1));
                }
            },
            _ => {},
        }
    }
}

/// Renaming `x` leaves the occurrences of every other variable where they are.
pub proof fn lemma_renamed_occurrence(
    expr: Expression,
    x: Variable,
    z: Variable,
    path: Seq<Branch>,
    y: Variable,
)
    requires
        y != x,
        subterm(expr, path) == Some(Expression::Identifier(y)),
    ensures
        subterm(renamed(expr, x, z), path) == Some(Expression::Identifier(y)),
    decreases path.len(),
{
    if path.len() > 0 {
        match (expr, path[0]) {
            (Expression::Application(function, _), Branch::Function) => {
                lemma_renamed_occurrence(*function, x, z, path.skip(1), y);
            },
            (Expression::Application(_, argument), Branch::Argument) => {
                lemma_renamed_occurrence(*argument, x, z, path.skip(1), y);
            },
            (Expression::Abstraction(binder, body), Branch::Body) => {
                if binder != x {
                    lemma_renamed_occurrence(*body, x, z, path.skip(1), y);
                }
            },
            _ => {},
        }
    }
}

/// Substitution puts a copy of `n` at each free occurrence of `y`, and no
/// binder that then stands over the copy is free in `n`: nothing of `n` is
/// captured.
///
/// This holds where the fresh names do not themselves collide with `n`: a
/// binder over the occurrence that is free in `n` is renamed to its
/// successor, and that successor must not be free in `n`.
pub proof fn lemma_substitution_avoids_capture(
    expr: Expression,
    y: Variable,
    n: Expression,
    path: Seq<Branch>,
)
    requires
        substitution(expr, y, n) is Some,
        free_occurrence(expr, path, y),
        successors_avoid(binders_along(expr, path), n),
    ensures
        subterm(substitution(expr, y, n)->Some_0, path) == Some(n),
        binders_along(substitution(expr, y, n)->Some_0, path).disjoint(free_variables(n)),
    decreases path.len(),
{
    if path.len() > 0 {
        let rest = path.skip(1);
        match (expr, path[0]) {
            (Expression::Application(function, _), Branch::Function) => {
                lemma_substitution_avoids_capture(*function, y, n, rest);
            },
            (Expression::Application(_, argument), Branch::Argument) => {
                lemma_substitution_avoids_capture(*argument, y, n, rest);
            },
            (Expression::Abstraction(binder, body), Branch::Body) => {
                assert(binders_along(expr, path).contains(binder));
                if free_variables(n).contains(binder) {
                    let fresh = binder.successor();
                    let inner = renamed(*body, binder, fresh);
                    lemma_renamed_binders(*body, binder, fresh, rest);
                    lemma_renamed_occurrence(*body, binder, fresh, rest, y);
                    lemma_substitution_avoids_capture(inner, y, n, rest);
                } else {
                    lemma_substitution_avoids_capture(*body, y, n, rest);
                }
            },
            _ => {},
        }
    }
}

/// The condition of `lemma_substitution_avoids_capture` leaves out only
/// substitutions that do capture: where a binder over the occurrence is free
/// in `n` and its successor is free in `n` too, the renamed binder stands over
/// the copy of `n` and captures that successor.
pub proof fn lemma_stale_successor_captures(
    expr: Expression,
    y: Variable,
    n: Expression,
    path: Seq<Branch>,
)
    requires
        substitution(expr, y, n) is Some,
        free_occurrence(expr, path, y),
        !successors_avoid(binders_along(expr, path), n),
    ensures
        subterm(substitution(expr, y, n)->Some_0, path) == Some(n),
        !binders_along(substitution(expr, y, n)->Some_0, path).disjoint(free_variables(n)),
    decreases path.len(),
{
    let stale = choose|x: Variable|
        binders_along(expr, path).contains(x) && free_variables(n).contains(x)
            && free_variables(n).contains(#[trigger] x.successor());
    if path.len() > 0 {
        let rest = path.skip(1);
        match (expr, path[0]) {
            (Expression::Application(function, _), Branch::Function) => {
                lemma_stale_successor_captures(*function, y, n, rest);
            },
            (Expression::Application(_, argument), Branch::Argument) => {
                lemma_stale_successor_captures(*argument, y, n, rest);
            },
            (Expression::Abstraction(binder, body), Branch::Body) => {
                let result = substitution(expr, y, n)->Some_0;
                if free_variables(n).contains(binder) {
                    let fresh = binder.successor();
                    let inner = renamed(*body, binder, fresh);
                    lemma_renamed_binders(*body, binder, fresh, rest);
                    lemma_renamed_occurrence(*body, binder, fresh, rest, y);
                    if stale == binder {
                        assert(binders_along(result, path).contains(fresh));
                        if successors_avoid(binders_along(inner, rest), n) {
                            lemma_substitution_avoids_capture(inner, y, n, rest);
                        } else {
                            lemma_stale_successor_captures(inner, y, n, rest);
                        }
                    } else {
                        assert(binders_along(inner, rest).contains(stale));
                        lemma_stale_successor_captures(inner, y, n, rest);
                        let captured = choose|v: Variable|
                            binders_along(substitution(inner, y, n)->Some_0, rest).contains(v)
                                && free_variables(n).contains(v);
                        assert(binders_along(result, path).contains(captured));
                    }
                } else {
                    assert(binders_along(*body, rest).contains(stale));
                    lemma_stale_successor_captures(*body, y, n, rest);
                    let captured = choose|v: Variable|
                        binders_along(substitution(*body, y, n)->Some_0, rest).contains(v)
                            && free_variables(n).contains(v);
                    assert(binders_along(result, path).contains(captured));
                }
            },
            _ => {},
        }
    }
}

/// Renaming `x` to `z` frees no variable but `z`, and leaves `x` free nowhere
/// unless `z` is `x`.
pub proof fn lemma_renamed_free(expr: Expression, x: Variable, z: Variable)
    ensures
        free_variables(renamed(expr, x, z)).subset_of(free_variables(expr).remove(x).insert(z)),
    decreases expr,
{
    match expr {
        Expression::Identifier(_) => {},
        Expression::Application(function, argument) => {
            lemma_renamed_free(*function, x, z);
            lemma_renamed_free(*argument, x, z);
        },
        Expression::Abstraction(binder, body) => {
            if binder != x {
                lemma_renamed_free(*body, x, z);
            }
        },
    }
}

/// Substitution frees nothing new: a variable that is free in the result was
/// free in `expr` and is not `y`, or is free in `n`.
pub proof fn lemma_substitution_free(expr: Expression, y: Variable, n: Expression)
    requires
        substitution(expr, y, n) is Some,
    ensures
        free_variables(substitution(expr, y, n)->Some_0).subset_of(
            free_variables(expr).remove(y).union(free_variables(n)),
        ),
    decreases expr.size(),
{
    match expr {
        Expression::Identifier(_) => {},
        Expression::Application(function, argument) => {
            lemma_substitution_free(*function, y, n);
            lemma_substitution_free(*argument, y, n);
        },
        Expression::Abstraction(binder, body) => {
            if binder == y {
            } else if free_variables(n).contains(binder) {
                let fresh = binder.successor();
                lemma_renamed_size(*body, binder, fresh);
                lemma_renamed_free(*body, binder, fresh);
                lemma_substitution_free(renamed(*body, binder, fresh), y, n);
            } else {
                lemma_substitution_free(*body, y, n);
            }
        },
    }
}

} // verus!
