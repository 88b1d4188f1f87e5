//! Beta reduction as a relation, and the normalizer's place in it.

use vstd::prelude::*;
use crate::expression::Expression;
use crate::normalize::{head_step, normal_form_within, reduction, Step};
use crate::substitution::substitution;
use crate::variable::Variable;

verus! {

/// Whether `after` comes from `before` by one beta step: one redex somewhere
/// in `before` is replaced by its body with the argument substituted.
pub open spec fn beta_step(before: Expression, after: Expression) -> bool
    decreases before,
{
    match before {
        Expression::Identifier(_) => false,
        Expression::Abstraction(binder, body) => {
            &&& after matches Expression::Abstraction(same, reduced)
            &&& same == binder
            &&& beta_step(*body, *reduced)
        },
        Expression::Application(function, argument) => {
            ||| {
                &&& *function matches Expression::Abstraction(y, body)
                &&& substitution(*body, y, *argument) == Some(after)
            }
            ||| {
                &&& after matches Expression::Application(reduced, same)
                &&& *same == *argument
                &&& beta_step(*function, *reduced)
            }
            ||| {
                &&& after matches Expression::Application(same, reduced)
                &&& *same == *function
                &&& beta_step(*argument, *reduced)
            }
        },
    }
}

/// Whether `after` comes from `before` by `steps` beta steps.
pub open spec fn beta_steps(before: Expression, after: Expression, steps: nat) -> bool
    decreases steps,
{
    if steps == 0 {
        before == after
    } else {
        exists|middle: Expression| #[trigger]
            beta_step(before, middle) && beta_steps(middle, after, (steps - 1) as nat)
    }
}

/// Whether `after` comes from `before` by beta steps, none or more.
pub open spec fn beta_reduces(before: Expression, after: Expression) -> bool {
    exists|steps: nat| beta_steps(before, after, steps)
}

/// Steps follow one another: `first` steps and then `second` steps are
/// `first + second` steps.
pub proof fn lemma_steps_compose(
    before: Expression,
    middle: Expression,
    after: Expression,
    first: nat,
    second: nat,
)
    requires
        beta_steps(before, middle, first),
        beta_steps(middle, after, second),
    ensures
        beta_steps(before, after, first + second),
    decreases first,
{
    if first > 0 {
        let next = choose|next: Expression| #[trigger]
            beta_step(before, next) && beta_steps(next, middle, (first - 1) as nat);
        lemma_steps_compose(next, middle, after, (first - 1) as nat, second);
        assert(beta_step(before, next));
    }
}

/// Steps in the body of an abstraction are steps of the abstraction.
pub proof fn lemma_steps_in_body(binder: Variable, body: Expression, after: Expression, steps: nat)
    requires
        beta_steps(body, after, steps),
    ensures
        beta_steps(
            Expression::Abstraction(binder, Box::new(body)),
            Expression::Abstraction(binder, Box::new(after)),
            steps,
        ),
    decreases steps,
{
    if steps > 0 {
        let next = choose|next: Expression| #[trigger]
            beta_step(body, next) && beta_steps(next, after, (steps - 1) as nat);
        lemma_steps_in_body(binder, next, after, (steps - 1) as nat);
        assert(beta_step(
            Expression::Abstraction(binder, Box::new(body)),
            Expression::Abstraction(binder, Box::new(next)),
        ));
    }
}

/// Steps in the function part of an application are steps of the application.
pub proof fn lemma_steps_in_function(
    function: Expression,
    after: Expression,
    argument: Expression,
    steps: nat,
)
    requires
        beta_steps(function, after, steps),
    ensures
        beta_steps(
            Expression::Application(Box::new(function), Box::new(argument)),
            Expression::Application(Box::new(after), Box::new(argument)),
            steps,
        ),
    decreases steps,
{
    if steps > 0 {
        let next = choose|next: Expression| #[trigger]
            beta_step(function, next) && beta_steps(next, after, (steps - 1) as nat);
        lemma_steps_in_function(next, after, argument, (steps - 1) as nat);
        assert(beta_step(
            Expression::Application(Box::new(function), Box::new(argument)),
            Expression::Application(Box::new(next), Box::new(argument)),
        ));
    }
}

/// Steps in the argument of an application are steps of the application.
pub proof fn lemma_steps_in_argument(
    function: Expression,
    argument: Expression,
    after: Expression,
    steps: nat,
)
    requires
        beta_steps(argument, after, steps),
    ensures
        beta_steps(
            Expression::Application(Box::new(function), Box::new(argument)),
            Expression::Application(Box::new(function), Box::new(after)),
            steps,
        ),
    decreases steps,
{
    if steps > 0 {
        let next = choose|next: Expression| #[trigger]
            beta_step(argument, next) && beta_steps(next, after, (steps - 1) as nat);
        lemma_steps_in_argument(function, next, after, (steps - 1) as nat);
        assert(beta_step(
            Expression::Application(Box::new(function), Box::new(argument)),
            Expression::Application(Box::new(function), Box::new(next)),
        ));
    }
}

/// The term that a pass over the head ends in, reduced or normal.
pub open spec fn step_term(step: Step) -> Expression {
    match step {
        Step::Reduced(next) => next,
        Step::Normal(normal) => normal,
    }
}

/// What a pass over the head of `expr` ends in comes from `expr` by beta
/// steps; their number is returned.
pub proof fn lemma_head_step_reduces(expr: Expression, limit: nat, depth: nat) -> (steps: nat)
    requires
        head_step(expr, limit, depth) is Ok,
    ensures
        beta_steps(expr, step_term(head_step(expr, limit, depth)->Ok_0), steps),
    decreases depth, 0nat, 0nat,
{
    let below = (depth - 1) as nat;
    match expr {
        Expression::Identifier(_) => 0,
        Expression::Abstraction(binder, body) => {
            let inner = lemma_reduction_reduces(*body, 0, limit, below);
            lemma_steps_in_body(binder, *body, reduction(*body, 0, limit, below)->Ok_0, inner);
            inner
        },
        Expression::Application(function, argument) => {
            let head = reduction(*function, 0, limit, below)->Ok_0;
            let first = lemma_reduction_reduces(*function, 0, limit, below);
            lemma_steps_in_function(*function, head, *argument, first);
            let stuck = Expression::Application(Box::new(head), argument);
            match head {
                Expression::Abstraction(y, body) => {
                    let next = substitution(*body, y, *argument)->Some_0;
                    assert(beta_step(stuck, next));
                    assert(beta_steps(next, next, 0));
                    assert(beta_steps(stuck, next, 1));
                    lemma_steps_compose(expr, stuck, next, first, 1);
                    first + 1
                },
                _ => {
                    let settled = reduction(*argument, 0, limit, below)->Ok_0;
                    let second = lemma_reduction_reduces(*argument, 0, limit, below);
                    lemma_steps_in_argument(head, *argument, settled, second);
                    lemma_steps_compose(
                        expr,
                        stuck,
                        Expression::Application(Box::new(head), Box::new(settled)),
                        first,
                        second,
                    );
                    first + second
                },
            }
        },
    }
}

/// What a reduction loop ends in comes from the term it stands at by beta
/// steps; their number is returned.
pub proof fn lemma_reduction_reduces(expr: Expression, count: nat, limit: nat, depth: nat) -> (steps:
    nat)
    requires
        reduction(expr, count, limit, depth) is Ok,
    ensures
        beta_steps(expr, reduction(expr, count, limit, depth)->Ok_0, steps),
    decreases depth, 1nat, limit - count,
{
    let first = lemma_head_step_reduces(expr, limit, depth);
    match head_step(expr, limit, depth)->Ok_0 {
        Step::Normal(_) => first,
        Step::Reduced(next) => {
            let second = lemma_reduction_reduces(next, count + 1, limit, depth);
            lemma_steps_compose(
                expr,
                next,
                reduction(expr, count, limit, depth)->Ok_0,
                first,
                second,
            );
            first + second
        },
    }
}

/// The normalizer only ever makes beta steps: where `expr` has a normal form
/// under the bounds, that normal form comes from `expr` by beta steps.
pub proof fn lemma_normal_form_is_reached(expr: Expression, limit: nat, depth: nat)
    requires
        normal_form_within(expr, limit, depth) is Ok,
    ensures
        beta_reduces(expr, normal_form_within(expr, limit, depth)->Ok_0),
{
    let steps = lemma_reduction_reduces(expr, 0, limit, depth);
    assert(beta_steps(expr, normal_form_within(expr, limit, depth)->Ok_0, steps));
}

} // verus!
