//! Normal forms are fixed points of the normalizer.

use vstd::prelude::*;
use crate::expression::Expression;
use crate::normalize::{
    head_step, is_normal, normal_form_within, reduction, ReductionOverflow, Step,
};

verus! {

/// A pass over the head of a term that one pass has found normal finds it
/// normal again, and the term is in beta-normal form.
pub proof fn lemma_head_step_settles(expr: Expression, limit: nat, depth: nat)
    requires
        head_step(expr, limit, depth) matches Ok(Step::Normal(_)),
    ensures
        head_step(expr, limit, depth) matches Ok(Step::Normal(normal)) && is_normal(normal)
            && head_step(normal, limit, depth) == Ok::<Step, ReductionOverflow>(
            Step::Normal(normal),
        ),
    decreases depth, 0nat, 0nat,
{
    match expr {
        Expression::Identifier(_) => {},
        Expression::Abstraction(_, body) => {
            let below = (depth - 1) as nat;
            lemma_reduction_settles(*body, 0, limit, below);
            let b = reduction(*body, 0, limit, below)->Ok_0;
            assert(reduction(b, 0, limit, below) == Ok::<Expression, ReductionOverflow>(b));
        },
        Expression::Application(function, argument) => {
            let below = (depth - 1) as nat;
            lemma_reduction_settles(*function, 0, limit, below);
            lemma_reduction_settles(*argument, 0, limit, below);
            let f = reduction(*function, 0, limit, below)->Ok_0;
            let a = reduction(*argument, 0, limit, below)->Ok_0;
            assert(reduction(f, 0, limit, below) == Ok::<Expression, ReductionOverflow>(f));
            assert(reduction(a, 0, limit, below) == Ok::<Expression, ReductionOverflow>(a));
        },
    }
}

/// What a reduction loop ends in is in beta-normal form, and a loop that
/// starts there ends there at once, whatever its count of steps.
pub proof fn lemma_reduction_settles(expr: Expression, count: nat, limit: nat, depth: nat)
    requires
        reduction(expr, count, limit, depth) is Ok,
    ensures
        reduction(expr, count, limit, depth) matches Ok(normal) && is_normal(normal) && forall|
            again: nat,
        |
            reduction(normal, again, limit, depth) == Ok::<Expression, ReductionOverflow>(normal),
    decreases depth, 1nat, limit - count,
{
    match head_step(expr, limit, depth) {
        Err(_) => {},
        Ok(Step::Normal(_)) => {
            lemma_head_step_settles(expr, limit, depth);
        },
        Ok(Step::Reduced(next)) => {
            lemma_reduction_settles(next, count + 1, limit, depth);
        },
    }
}

/// Normal forms are fixed points: where `expr` has a normal form under the
/// bounds, normalizing that normal form under the same bounds gives it back.
pub proof fn lemma_normal_form_idempotent(expr: Expression, limit: nat, depth: nat)
    requires
        normal_form_within(expr, limit, depth) is Ok,
    ensures
        normal_form_within(expr, limit, depth) matches Ok(normal) && is_normal(normal)
            && normal_form_within(normal, limit, depth) == normal_form_within(expr, limit, depth),
{
    lemma_reduction_settles(expr, 0, limit, depth);
}

/// A term in beta-normal form is its own normal form where the bound on
/// nesting reaches down to its deepest identifier, and is given up for its
/// depth where it does not.
pub proof fn lemma_normal_term_is_fixed(expr: Expression, limit: nat, depth: nat)
    requires
        is_normal(expr),
    ensures
        normal_form_within(expr, limit, depth) == if expr.height() <= depth {
            Ok::<Expression, ReductionOverflow>(expr)
        } else {
            Err::<Expression, ReductionOverflow>(ReductionOverflow::Depth)
        },
    decreases expr,
{
    let below = (depth - 1) as nat;
    match expr {
        Expression::Identifier(_) => {},
        Expression::Abstraction(_, body) => {
            if depth > 0 {
                lemma_normal_term_is_fixed(*body, limit, below);
            }
        },
        Expression::Application(function, argument) => {
            if depth > 0 {
                lemma_normal_term_is_fixed(*function, limit, below);
                lemma_normal_term_is_fixed(*argument, limit, below);
            }
        },
    }
    if expr.height() <= depth {
        assert(head_step(expr, limit, depth) == Ok::<Step, ReductionOverflow>(Step::Normal(expr)));
    } else {
        assert(head_step(expr, limit, depth) == Err::<Step, ReductionOverflow>(
            ReductionOverflow::Depth,
        ));
    }
}

} // verus!
