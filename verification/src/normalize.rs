//! Normal-order reduction to beta-normal form.
//!
//! A term is reduced by a loop of passes over its head. A pass that finds a
//! redex at the head makes that one beta step and the loop goes on with the
//! new term; a pass that finds none ends the loop. To see what stands at the
//! head, and to bring the parts of a term without a head redex to normal form,
//! a pass opens loops of its own on those parts.
//!
//! The lambda calculus has terms that reduce for ever, so both directions are
//! bounded: a loop is given up when its count of beta steps reaches a limit,
//! and loops may be nested in one another only to a given depth. The depth
//! bound is what makes every reduction end; it also turns away a term whose
//! tree is deeper than the bound, whether it has a redex or not.

use vstd::prelude::*;
use crate::beta::{beta_reduces, lemma_normal_form_is_reached};
use crate::expression::Expression;
use crate::fixed_point::lemma_normal_form_idempotent;
use crate::substitution::{substitute, substitution};

verus! {

/// The bound on the beta steps of one reduction loop.
pub const MAX_REDUCTIONS: usize = 65535;

/// The bound on the nesting of reduction loops, and so on the depth of a tree
/// that can be brought to normal form.
pub const MAX_DEPTH: usize = 65535;

/// Why a reduction was given up: the term probably has no normal form.
#[derive(Clone, Copy, Debug, PartialEq, Eq, Structural)]
pub enum ReductionOverflow {
    /// One reduction loop reached its bound on beta steps.
    Steps,
    /// Reduction loops were nested beyond their bound: a loop was due on a part
    /// of a term with no level of nesting left.
    Depth,
    /// A binder of the last generation had to be renamed.
    Generations,
}

/// What one pass over the head of a term came to.
#[derive(Debug, PartialEq, Eq)]
pub enum Step {
    /// The head was a redex: the term after that one beta step.
    Reduced(Expression),
    /// The head was no redex: the normal form of the term.
    Normal(Expression),
}

/// The outcome of one pass over the head of `expr`, with `depth` levels of
/// nesting left.
///
/// An identifier is normal. An abstraction is normal once its body is. An
/// application whose function part comes to an abstraction is a redex and
/// makes one beta step, its argument not yet reduced; any other application is
/// normal once both parts are.
pub open spec fn head_step(expr: Expression, limit: nat, depth: nat) -> Result<
    Step,
    ReductionOverflow,
>
    decreases depth, 0nat, 0nat,
{
    match expr {
        Expression::Identifier(_) => Ok(Step::Normal(expr)),
        Expression::Abstraction(binder, body) => if depth == 0 {
            Err(ReductionOverflow::Depth)
        } else {
            match reduction(*body, 0, limit, (depth - 1) as nat) {
                Ok(b) => Ok(Step::Normal(Expression::Abstraction(binder, Box::new(b)))),
                Err(overflow) => Err(overflow),
            }
        },
        Expression::Application(function, argument) => if depth == 0 {
            Err(ReductionOverflow::Depth)
        } else {
            match reduction(*function, 0, limit, (depth - 1) as nat) {
                Err(overflow) => Err(overflow),
                Ok(Expression::Abstraction(y, body)) => match substitution(*body, y, *argument) {
                    Some(next) => Ok(Step::Reduced(next)),
                    None => Err(ReductionOverflow::Generations),
                },
                Ok(head) => match reduction(*argument, 0, limit, (depth - 1) as nat) {
                    Ok(a) => Ok(Step::Normal(Expression::Application(Box::new(head), Box::new(a)))),
                    Err(overflow) => Err(overflow),
                },
            }
        },
    }
}

/// The outcome of the reduction loop that stands at `expr` after `count` beta
/// steps: passes over the head are made until one finds the term normal, and
/// the loop is given up when its count of beta steps reaches `limit`.
pub open spec fn reduction(expr: Expression, count: nat, limit: nat, depth: nat) -> Result<
    Expression,
    ReductionOverflow,
>
    decreases depth, 1nat, limit - count,
{
    match head_step(expr, limit, depth) {
        Err(overflow) => Err(overflow),
        Ok(Step::Normal(normal)) => Ok(normal),
        Ok(Step::Reduced(next)) => if count + 1 >= limit {
            Err(ReductionOverflow::Steps)
        } else {
            reduction(next, count + 1, limit, depth)
        },
    }
}

/// The normal form of `expr` under the given bounds, or the bound that was hit.
pub open spec fn normal_form_within(expr: Expression, limit: nat, depth: nat) -> Result<
    Expression,
    ReductionOverflow,
> {
    reduction(expr, 0, limit, depth)
}

/// The normal form of `expr` under the standard bounds.
pub open spec fn normal_form(expr: Expression) -> Result<Expression, ReductionOverflow> {
    normal_form_within(expr, MAX_REDUCTIONS as nat, MAX_DEPTH as nat)
}

/// Whether `expr` is in beta-normal form: no application in it has an
/// abstraction for its function part.
pub open spec fn is_normal(expr: Expression) -> bool
    decreases expr,
{
    match expr {
        Expression::Identifier(_) => true,
        Expression::Abstraction(_, body) => is_normal(*body),
        Expression::Application(function, argument) => {
            &&& !(*function is Abstraction)
            &&& is_normal(*function)
            &&& is_normal(*argument)
        },
    }
}

/// One pass over the head of `expr`: a beta step where the head is a redex,
/// the normal form where it is none.
pub fn kickoff(expr: Expression, limit: usize, depth: usize) -> (outcome: Result<
    Step,
    ReductionOverflow,
>)
    ensures
        outcome == head_step(expr, limit as nat, depth as nat),
    decreases depth, 0nat,
{
    match expr {
        Expression::Identifier(x) => Ok(Step::Normal(Expression::Identifier(x))),
        Expression::Abstraction(binder, body) => {
            if depth == 0 {
                return Err(ReductionOverflow::Depth);
            }
            match normalize_within(*body, limit, depth - 1) {
                Ok(b) => Ok(Step::Normal(Expression::Abstraction(binder, Box::new(b)))),
                Err(overflow) => Err(overflow),
            }
        },
        Expression::Application(function, argument) => {
            if depth == 0 {
                return Err(ReductionOverflow::Depth);
            }
            match normalize_within(*function, limit, depth - 1) {
                Err(overflow) => Err(overflow),
                Ok(Expression::Abstraction(y, body)) => match substitute(*body, y, &*argument) {
                    Some(next) => Ok(Step::Reduced(next)),
                    None => Err(ReductionOverflow::Generations),
                },
                Ok(head) => match normalize_within(*argument, limit, depth - 1) {
                    Ok(a) => Ok(Step::Normal(Expression::Application(Box::new(head), Box::new(a)))),
                    Err(overflow) => Err(overflow),
                },
            }
        },
    }
}

/// Reduces `expr` to normal form in normal order, giving up when a reduction
/// loop has made `limit` beta steps or when loops nest deeper than `depth`.
pub fn normalize_within(expr: Expression, limit: usize, depth: usize) -> (outcome: Result<
    Expression,
    ReductionOverflow,
>)
    ensures
        outcome == normal_form_within(expr, limit as nat, depth as nat),
        outcome matches Ok(normal) ==> is_normal(normal) && beta_reduces(expr, normal),
    decreases depth, 1nat,
{
    proof {
        if normal_form_within(expr, limit as nat, depth as nat) is Ok {
            lemma_normal_form_idempotent(expr, limit as nat, depth as nat);
            lemma_normal_form_is_reached(expr, limit as nat, depth as nat);
        }
    }
    let mut current = expr;
    let mut count: usize = 0;
    loop
        invariant
            count < limit || count == 0,
            reduction(current, count as nat, limit as nat, depth as nat) == normal_form_within(
                expr,
                limit as nat,
                depth as nat,
            ),
            normal_form_within(expr, limit as nat, depth as nat) matches Ok(normal) ==> is_normal(
                normal,
            ) && beta_reduces(expr, normal),
        decreases limit - count,
    {
        match kickoff(current, limit, depth) {
            Err(overflow) => {
                return Err(overflow);
            },
            Ok(Step::Normal(normal)) => {
                return Ok(normal);
            },
            Ok(Step::Reduced(next)) => {
                if count + 1 >= limit {
                    return Err(ReductionOverflow::Steps);
                }
                count += 1;
                current = next;
            },
        }
    }
}

/// Reduces `expr` to its beta-normal form in normal order.
///
/// The reduction is given up, as probably endless, when one reduction loop has
/// made `MAX_REDUCTIONS` beta steps or when loops nest deeper than `MAX_DEPTH`.
pub fn normalize(expr: Expression) -> (outcome: Result<Expression, ReductionOverflow>)
    ensures
        outcome == normal_form(expr),
        outcome matches Ok(normal) ==> is_normal(normal) && beta_reduces(expr, normal),
{
    normalize_within(expr, MAX_REDUCTIONS, MAX_DEPTH)
}

} // verus!
