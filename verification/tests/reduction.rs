use lambda_calc::normalize::{MAX_DEPTH, MAX_REDUCTIONS};
use lambda_calc::{
    alpha, free, kickoff, normalize, normalize_within, parse, substitute, Expression,
    ReductionOverflow, Step, Variable, VariableSet,
};

fn v(symbol: char) -> Variable {
    Variable(symbol, 0)
}

fn id(symbol: char) -> Expression {
    Expression::Identifier(v(symbol))
}

fn idv(variable: Variable) -> Expression {
    Expression::Identifier(variable)
}

fn app(function: Expression, argument: Expression) -> Expression {
    Expression::Application(Box::new(function), Box::new(argument))
}

fn lam(binder: Variable, body: Expression) -> Expression {
    Expression::Abstraction(binder, Box::new(body))
}

fn members(set: &VariableSet, candidates: &[Variable]) -> Vec<Variable> {
    candidates.iter().copied().filter(|c| set.contains(*c)).collect()
}

#[test]
fn identity_applied_to_identifier_yields_identifier() {
    let tree = parse("(λx.x) a").unwrap();
    assert_eq!(tree, app(lam(v('x'), id('x')), id('a')));
    assert_eq!(normalize(tree), Ok(Expression::Identifier(Variable('a', 0))));
}

#[test]
fn two_composed_with_two_is_four() {
    let tree = parse("((λa.(λb.(a(a b))))(λx.(λd.(x(x d)))))").unwrap();
    let b = || id('b');
    let four = lam(v('b'), lam(v('d'), app(b(), app(b(), app(b(), app(b(), id('d')))))));
    assert_eq!(normalize(tree), Ok(four));
}

#[test]
fn substitution_renames_a_binder_that_would_capture() {
    let x = v('x');
    let y = v('y');
    let result = substitute(lam(x, idv(y)), y, &idv(x));
    assert_eq!(result, Some(lam(Variable('x', 1), idv(x))));
    assert_ne!(result, Some(lam(x, idv(x))));
}

#[test]
fn self_application_overflows() {
    let omega = parse("(λx.(x x))(λx.(x x))").unwrap();
    assert_eq!(normalize(omega), Err(ReductionOverflow::Steps));
}

#[test]
fn next_keeps_the_symbol_and_adds_a_generation() {
    assert_eq!(Variable('x', 0).next(), Variable('x', 1));
    assert_eq!(Variable('q', 41).next(), Variable('q', 42));
    assert_ne!(Variable('x', 0).next(), Variable('x', 0));
}

#[test]
fn variables_are_equal_when_both_fields_agree() {
    assert_eq!(Variable('x', 1), Variable('x', 1));
    assert_ne!(Variable('x', 1), Variable('x', 2));
    assert_ne!(Variable('x', 1), Variable('y', 1));
}

#[test]
fn clone_is_structurally_equal() {
    let tree = parse("(λx.x y) (λz.z)").unwrap();
    assert_eq!(tree.clone(), tree);
}

#[test]
fn variable_set_behaves_as_a_set() {
    let set = VariableSet::new();
    assert_eq!(set.len(), 0);
    assert!(!set.contains(v('a')));
    let set = set.insert(v('a')).insert(v('b')).insert(v('a'));
    assert_eq!(set.len(), 2);
    assert!(set.contains(v('a')));
    assert!(set.contains(v('b')));
    assert!(!set.contains(Variable('a', 1)));
    let set = set.remove(v('a'));
    assert_eq!(set.len(), 1);
    assert!(!set.contains(v('a')));
    assert!(set.contains(v('b')));
    let set = set.remove(v('z'));
    assert_eq!(set.len(), 1);
}

#[test]
fn variable_set_union_holds_the_members_of_both() {
    let left = VariableSet::new().insert(v('a')).insert(v('b'));
    let right = VariableSet::new().insert(v('b')).insert(v('c'));
    let both = left.union(&right);
    assert_eq!(both.len(), 3);
    assert_eq!(members(&both, &[v('a'), v('b'), v('c'), v('d')]), vec![v('a'), v('b'), v('c')]);
    let same = both.union(&VariableSet::new());
    assert_eq!(same.len(), 3);
}

#[test]
fn free_of_identifier_is_itself() {
    let set = free(&id('a'));
    assert_eq!(set.len(), 1);
    assert!(set.contains(v('a')));
}

#[test]
fn free_of_application_is_the_union() {
    let set = free(&parse("a b a c").unwrap());
    assert_eq!(set.len(), 3);
    assert_eq!(members(&set, &[v('a'), v('b'), v('c'), v('d')]), vec![v('a'), v('b'), v('c')]);
}

#[test]
fn free_of_abstraction_leaves_out_the_binder() {
    let set = free(&parse("λx.x y").unwrap());
    assert_eq!(set.len(), 1);
    assert!(set.contains(v('y')));
    assert!(!set.contains(v('x')));
    assert_eq!(free(&parse("λx.λy.x y").unwrap()).len(), 0);
}

#[test]
fn free_tells_generations_apart() {
    let tree = lam(v('x'), app(id('x'), idv(Variable('x', 1))));
    let set = free(&tree);
    assert_eq!(set.len(), 1);
    assert!(set.contains(Variable('x', 1)));
    assert!(!set.contains(v('x')));
}

#[test]
fn free_sees_an_occurrence_outside_the_binder() {
    let set = free(&parse("(λx.x) x").unwrap());
    assert_eq!(set.len(), 1);
    assert!(set.contains(v('x')));
}

#[test]
fn alpha_renames_free_occurrences() {
    let z = Variable('x', 1);
    assert_eq!(alpha(id('x'), v('x'), z), idv(z));
    assert_eq!(alpha(id('y'), v('x'), z), id('y'));
    assert_eq!(
        alpha(parse("x y x").unwrap(), v('x'), z),
        app(app(idv(z), id('y')), idv(z))
    );
    assert_eq!(
        alpha(parse("λy.x y").unwrap(), v('x'), z),
        lam(v('y'), app(idv(z), id('y')))
    );
}

#[test]
fn alpha_respects_shadowing() {
    let z = Variable('x', 1);
    assert_eq!(alpha(parse("λx.x").unwrap(), v('x'), z), parse("λx.x").unwrap());
    assert_eq!(
        alpha(parse("x (λx.x) x").unwrap(), v('x'), z),
        app(app(idv(z), lam(v('x'), id('x'))), idv(z))
    );
}

#[test]
fn substitute_replaces_an_identifier() {
    let n = parse("a b").unwrap();
    assert_eq!(substitute(id('y'), v('y'), &n), Some(n.clone()));
    assert_eq!(substitute(id('x'), v('y'), &n), Some(id('x')));
    assert_eq!(substitute(idv(Variable('y', 1)), v('y'), &n), Some(idv(Variable('y', 1))));
}

#[test]
fn substitute_distributes_over_application() {
    let n = id('n');
    assert_eq!(
        substitute(parse("y x y").unwrap(), v('y'), &n),
        Some(app(app(id('n'), id('x')), id('n')))
    );
}

#[test]
fn substitute_stops_at_a_binder_of_the_target() {
    let tree = parse("λy.y x").unwrap();
    assert_eq!(substitute(tree.clone(), v('y'), &id('n')), Some(tree));
}

#[test]
fn substitute_goes_under_a_harmless_binder() {
    assert_eq!(
        substitute(parse("λx.x y").unwrap(), v('y'), &id('n')),
        Some(lam(v('x'), app(id('x'), id('n'))))
    );
}

#[test]
fn substitute_renames_bound_occurrences_with_the_binder() {
    let fresh = Variable('x', 1);
    assert_eq!(
        substitute(parse("λx.x y").unwrap(), v('y'), &id('x')),
        Some(lam(fresh, app(idv(fresh), id('x'))))
    );
}

#[test]
fn substitute_renames_even_where_the_target_does_not_occur() {
    let fresh = Variable('x', 1);
    assert_eq!(
        substitute(parse("λx.x").unwrap(), v('y'), &id('x')),
        Some(lam(fresh, idv(fresh)))
    );
}

#[test]
fn substitute_renaming_respects_inner_shadowing() {
    let fresh = Variable('x', 1);
    assert_eq!(
        substitute(parse("λx.(λx.x) x y").unwrap(), v('y'), &id('x')),
        Some(lam(fresh, app(app(lam(fresh, idv(fresh)), idv(fresh)), id('x'))))
    );
}

#[test]
fn substitute_fails_when_generations_run_out() {
    let last = Variable('x', usize::MAX);
    assert_eq!(substitute(lam(last, id('y')), v('y'), &idv(last)), None);
    assert_eq!(
        substitute(app(id('y'), lam(last, id('y'))), v('y'), &idv(last)),
        None
    );
    assert_eq!(
        substitute(lam(last, id('y')), v('y'), &id('z')),
        Some(lam(last, id('z')))
    );
    assert_eq!(substitute(lam(last, id('y')), last, &idv(last)), Some(lam(last, id('y'))));
}

#[test]
fn fresh_name_can_collide_with_a_higher_generation() {
    let x = v('x');
    let x1 = Variable('x', 1);
    let n = app(idv(x), idv(x1));
    assert_eq!(substitute(lam(x, id('y')), v('y'), &n), Some(lam(x1, n.clone())));
    assert_eq!(
        substitute(lam(x, app(idv(x1), id('y'))), v('y'), &idv(x)),
        Some(lam(x1, app(idv(x1), idv(x))))
    );
}

#[test]
fn identifier_is_normal() {
    assert_eq!(normalize(id('a')), Ok(id('a')));
    assert_eq!(kickoff(id('a'), MAX_REDUCTIONS, 0), Ok(Step::Normal(id('a'))));
    assert_eq!(normalize_within(id('a'), 0, 0), Ok(id('a')));
}

#[test]
fn stuck_application_normalizes_both_sides() {
    let tree = parse("a ((λx.x) b) ((λx.x) c)").unwrap();
    assert_eq!(normalize(tree), Ok(app(app(id('a'), id('b')), id('c'))));
    assert_eq!(normalize(parse("a b").unwrap()), Ok(app(id('a'), id('b'))));
}

#[test]
fn reduction_proceeds_under_a_binder() {
    let tree = parse("λz.(λx.x) z").unwrap();
    assert_eq!(normalize(tree), Ok(lam(v('z'), id('z'))));
}

#[test]
fn argument_is_not_reduced_before_the_step() {
    let tree = parse("(λx.y) ((λx.(x x))(λx.(x x)))").unwrap();
    assert_eq!(normalize(tree), Ok(id('y')));
}

#[test]
fn function_part_is_normalized_before_the_step() {
    let tree = parse("((λx.x) (λy.y y)) a").unwrap();
    assert_eq!(
        kickoff(tree.clone(), MAX_REDUCTIONS, MAX_DEPTH),
        Ok(Step::Reduced(app(id('a'), id('a'))))
    );
    assert_eq!(normalize(tree), Ok(app(id('a'), id('a'))));
}

#[test]
fn kickoff_makes_one_step_on_a_redex() {
    let tree = parse("(λx.x x) ((λy.y) a)").unwrap();
    let argument = parse("(λy.y) a").unwrap();
    assert_eq!(
        kickoff(tree, MAX_REDUCTIONS, MAX_DEPTH),
        Ok(Step::Reduced(app(argument.clone(), argument)))
    );
}

#[test]
fn kickoff_finds_normal_terms_normal() {
    let tree = parse("λx.x a").unwrap();
    assert_eq!(kickoff(tree.clone(), MAX_REDUCTIONS, MAX_DEPTH), Ok(Step::Normal(tree)));
    let tree = parse("a (λx.x)").unwrap();
    assert_eq!(kickoff(tree.clone(), MAX_REDUCTIONS, MAX_DEPTH), Ok(Step::Normal(tree)));
}

#[test]
fn normalization_renames_to_avoid_capture() {
    let tree = parse("(λy.λx.y) x").unwrap();
    assert_eq!(normalize(tree), Ok(lam(Variable('x', 1), id('x'))));
}

#[test]
fn normal_form_is_a_fixed_point() {
    let lines = [
        "(λx.x) a",
        "((λa.(λb.(a(a b))))(λx.(λd.(x(x d)))))",
        "(λy.λx.y) x",
        "a ((λx.x) b)",
        "λz.(λx.x x) z",
    ];
    for line in lines {
        let once = normalize(parse(line).unwrap()).unwrap();
        assert_eq!(normalize(once.clone()), Ok(once));
    }
}

#[test]
fn step_bound_counts_beta_steps_of_one_loop() {
    let one_step = parse("(λx.x) a").unwrap();
    assert_eq!(normalize_within(one_step.clone(), 2, 8), Ok(id('a')));
    assert_eq!(normalize_within(one_step.clone(), 1, 8), Err(ReductionOverflow::Steps));
    assert_eq!(normalize_within(one_step, 0, 8), Err(ReductionOverflow::Steps));
    let two_steps = parse("(λx.x) (λy.y) a").unwrap();
    assert_eq!(normalize_within(two_steps.clone(), 2, 8), Ok(id('a')));
    let chained = parse("(λx.λy.x) a b").unwrap();
    assert_eq!(normalize_within(chained.clone(), 2, 8), Ok(id('a')));
    assert_eq!(normalize_within(chained, 1, 8), Err(ReductionOverflow::Steps));
}

#[test]
fn step_bound_is_per_loop() {
    let tree = parse("a ((λx.x) b) ((λx.x) c) ((λx.x) d)").unwrap();
    assert_eq!(
        normalize_within(tree, 2, 8),
        Ok(app(app(app(id('a'), id('b')), id('c')), id('d')))
    );
}

#[test]
fn standard_step_bound_is_65535() {
    assert_eq!(MAX_REDUCTIONS, 65535);
    let omega = parse("(λx.(x x))(λx.(x x))").unwrap();
    assert_eq!(
        normalize_within(omega.clone(), MAX_REDUCTIONS, 4),
        Err(ReductionOverflow::Steps)
    );
    assert_eq!(normalize_within(omega, 100, 4), Err(ReductionOverflow::Steps));
}

#[test]
fn depth_bound_counts_nested_loops() {
    let tree = parse("λx.λy.x y").unwrap();
    assert_eq!(normalize_within(tree.clone(), 10, 3), Ok(tree.clone()));
    assert_eq!(normalize_within(tree.clone(), 10, 2), Err(ReductionOverflow::Depth));
    assert_eq!(normalize_within(tree.clone(), 10, 0), Err(ReductionOverflow::Depth));
    assert_eq!(kickoff(tree, 10, 0), Err(ReductionOverflow::Depth));
    assert_eq!(kickoff(parse("a b").unwrap(), 10, 0), Err(ReductionOverflow::Depth));
}

#[test]
fn growing_self_application_runs_out_of_depth() {
    let tree = parse("(λx.x x x)(λx.x x x)").unwrap();
    assert_eq!(normalize_within(tree, 1000, 50), Err(ReductionOverflow::Depth));
}

#[test]
fn exhausted_generations_stop_the_reduction() {
    let last = Variable('x', usize::MAX);
    let tree = app(lam(v('y'), lam(last, id('y'))), idv(last));
    assert_eq!(normalize(tree.clone()), Err(ReductionOverflow::Generations));
    assert_eq!(
        kickoff(tree, MAX_REDUCTIONS, MAX_DEPTH),
        Err(ReductionOverflow::Generations)
    );
}

#[test]
fn church_addition_of_one_and_two() {
    let plus = "(λm.λn.λf.λx.m f (n f x))";
    let one = "(λf.λx.f x)";
    let two = "(λf.λx.f (f x))";
    let tree = parse(&format!("{} {} {}", plus, one, two)).unwrap();
    let three = parse("λf.λx.f (f (f x))").unwrap();
    assert_eq!(normalize(tree), Ok(three));
}
