use lambda_calc::parser::{juxtapose, parse_abstraction, parse_classified, parse_terms, Context};
use lambda_calc::text::{classify, scan, Classified};
use lambda_calc::{parse, Expression, ParseError, Variable};

fn v(symbol: char) -> Variable {
    Variable(symbol, 0)
}

fn id(symbol: char) -> Expression {
    Expression::Identifier(v(symbol))
}

fn app(function: Expression, argument: Expression) -> Expression {
    Expression::Application(Box::new(function), Box::new(argument))
}

fn lam(symbol: char, body: Expression) -> Expression {
    Expression::Abstraction(v(symbol), Box::new(body))
}

fn letter(character: char) -> Classified {
    Classified { character, alphabetic: true, whitespace: false }
}

fn blank(character: char) -> Classified {
    Classified { character, alphabetic: false, whitespace: true }
}

fn other(character: char) -> Classified {
    Classified { character, alphabetic: false, whitespace: false }
}

#[test]
fn single_identifier_is_generation_zero() {
    assert_eq!(parse("a"), Ok(Expression::Identifier(Variable('a', 0))));
}

#[test]
fn variable_from_symbol_is_generation_zero() {
    assert_eq!(Variable::from('q'), Variable('q', 0));
}

#[test]
fn juxtaposition_associates_to_the_left() {
    assert_eq!(parse("a b c"), Ok(app(app(id('a'), id('b')), id('c'))));
    assert_eq!(parse("abc"), Ok(app(app(id('a'), id('b')), id('c'))));
}

#[test]
fn grouping_overrides_association() {
    assert_eq!(parse("a (b c)"), Ok(app(id('a'), app(id('b'), id('c')))));
    assert_eq!(parse("(a b) c"), Ok(app(app(id('a'), id('b')), id('c'))));
    assert_eq!(parse("((a))"), Ok(id('a')));
}

#[test]
fn both_lambda_signs_are_accepted() {
    assert_eq!(parse("λx.x"), Ok(lam('x', id('x'))));
    assert_eq!(parse("\\x.x"), Ok(lam('x', id('x'))));
}

#[test]
fn abstraction_body_takes_the_rest_of_the_grouping() {
    assert_eq!(parse("λx.x y"), Ok(lam('x', app(id('x'), id('y')))));
    assert_eq!(parse("(λx.x y) z"), Ok(app(lam('x', app(id('x'), id('y'))), id('z'))));
    assert_eq!(parse("a λx.x y"), Ok(app(id('a'), lam('x', app(id('x'), id('y'))))));
}

#[test]
fn nested_abstractions_associate_to_the_right() {
    assert_eq!(parse("λx.λd.d x"), Ok(lam('x', lam('d', app(id('d'), id('x'))))));
}

#[test]
fn white_space_is_passed_over() {
    assert_eq!(parse("  a\t\n b "), Ok(app(id('a'), id('b'))));
    assert_eq!(parse("λ x . x"), Ok(lam('x', id('x'))));
    assert_eq!(parse("( a )"), Ok(id('a')));
}

#[test]
fn letters_of_any_script_are_identifiers() {
    assert_eq!(parse("é"), Ok(id('é')));
    assert_eq!(parse("λж.ж"), Ok(lam('ж', id('ж'))));
}

#[test]
fn lambda_may_be_a_binder_but_never_an_identifier() {
    assert_eq!(parse("λλ.a"), Ok(lam('λ', id('a'))));
    assert_eq!(parse("a λ"), Err(ParseError::MissingBinder));
}

#[test]
fn empty_line_is_rejected() {
    assert_eq!(parse(""), Err(ParseError::EmptyExpression));
    assert_eq!(parse("   "), Err(ParseError::EmptyExpression));
}

#[test]
fn empty_grouping_is_rejected() {
    assert_eq!(parse("()"), Err(ParseError::EmptyGrouping));
    assert_eq!(parse("a ( )"), Err(ParseError::EmptyGrouping));
    assert_eq!(parse("(a (b ()))"), Err(ParseError::EmptyGrouping));
}

#[test]
fn unknown_character_is_reported() {
    assert_eq!(parse("a + b"), Err(ParseError::UnknownCharacter('+')));
    assert_eq!(parse("1"), Err(ParseError::UnknownCharacter('1')));
    assert_eq!(parse("x'"), Err(ParseError::UnknownCharacter('\'')));
    assert_eq!(parse("a.b"), Err(ParseError::UnknownCharacter('.')));
}

#[test]
fn missing_binder_is_reported() {
    assert_eq!(parse("λ"), Err(ParseError::MissingBinder));
    assert_eq!(parse("\\   "), Err(ParseError::MissingBinder));
}

#[test]
fn invalid_binder_is_reported() {
    assert_eq!(parse("λ1.x"), Err(ParseError::InvalidBinder('1')));
    assert_eq!(parse("λ.x"), Err(ParseError::InvalidBinder('.')));
    assert_eq!(parse("λ(x).x"), Err(ParseError::InvalidBinder('(')));
}

#[test]
fn missing_separator_is_reported() {
    assert_eq!(parse("λx"), Err(ParseError::MissingSeparator));
    assert_eq!(parse("λx  "), Err(ParseError::MissingSeparator));
}

#[test]
fn invalid_separator_is_reported() {
    assert_eq!(parse("λxy.x"), Err(ParseError::InvalidSeparator('y')));
    assert_eq!(parse("λx)"), Err(ParseError::InvalidSeparator(')')));
}

#[test]
fn missing_body_is_reported() {
    assert_eq!(parse("λx."), Err(ParseError::MissingBody));
    assert_eq!(parse("(λx.)"), Err(ParseError::MissingBody));
    assert_eq!(parse("λx.  "), Err(ParseError::MissingBody));
}

#[test]
fn closing_parenthesis_ends_the_line() {
    assert_eq!(parse("a)b"), Ok(id('a')));
    assert_eq!(parse("a)+"), Ok(id('a')));
    assert_eq!(parse(")"), Err(ParseError::EmptyExpression));
}

#[test]
fn end_of_line_closes_open_groupings() {
    assert_eq!(parse("(a"), Ok(id('a')));
    assert_eq!(parse("(a (b c"), Ok(app(id('a'), app(id('b'), id('c')))));
}

#[test]
fn first_error_from_the_left_is_reported() {
    assert_eq!(parse("() +"), Err(ParseError::EmptyGrouping));
    assert_eq!(parse("+ ()"), Err(ParseError::UnknownCharacter('+')));
}

#[test]
fn extend_wraps_both_operands_in_an_application() {
    assert_eq!(id('a').extend(id('b')), app(id('a'), id('b')));
    assert_eq!(
        app(id('a'), id('b')).extend(id('c')),
        app(app(id('a'), id('b')), id('c'))
    );
    assert_eq!(lam('x', id('x')).extend(id('c')), app(lam('x', id('x')), id('c')));
}

#[test]
fn juxtapose_folds_a_term_into_the_terms_read() {
    assert_eq!(juxtapose(None, id('a')), id('a'));
    assert_eq!(juxtapose(Some(id('a')), id('b')), app(id('a'), id('b')));
    assert_eq!(
        juxtapose(Some(app(id('a'), id('b'))), id('c')),
        app(app(id('a'), id('b')), id('c'))
    );
}

#[test]
fn parse_terms_returns_the_position_behind_the_sequence() {
    let input = scan("a (b c) d");
    assert_eq!(
        parse_terms(&input, 0, Context::Line),
        Ok((app(app(id('a'), app(id('b'), id('c'))), id('d')), 9))
    );
    assert_eq!(parse_terms(&input, 3, Context::Grouping), Ok((app(id('b'), id('c')), 7)));
    assert_eq!(parse_terms(&input, 9, Context::Line), Err(ParseError::EmptyExpression));
    assert_eq!(parse_terms(&input, 9, Context::Grouping), Err(ParseError::EmptyGrouping));
    assert_eq!(parse_terms(&input, 9, Context::Body), Err(ParseError::MissingBody));
}

#[test]
fn parse_abstraction_reads_binder_dot_and_body() {
    let input = scan("(λ x . x y) z");
    assert_eq!(
        parse_abstraction(&input, 2),
        Ok((lam('x', app(id('x'), id('y'))), 11))
    );
    assert_eq!(parse_abstraction(&input, 13), Err(ParseError::MissingBinder));
}

#[test]
fn context_names_the_error_of_an_empty_sequence() {
    assert_eq!(Context::Line.empty_error(), ParseError::EmptyExpression);
    assert_eq!(Context::Grouping.empty_error(), ParseError::EmptyGrouping);
    assert_eq!(Context::Body.empty_error(), ParseError::MissingBody);
}

#[test]
fn classify_asks_both_classes() {
    assert_eq!(classify('a'), letter('a'));
    assert_eq!(classify('Z'), letter('Z'));
    assert_eq!(classify('é'), letter('é'));
    assert_eq!(classify('λ'), letter('λ'));
    assert_eq!(classify(' '), blank(' '));
    assert_eq!(classify('\t'), blank('\t'));
    assert_eq!(classify('\n'), blank('\n'));
    assert_eq!(classify('\u{a0}'), blank('\u{a0}'));
    assert_eq!(classify('('), other('('));
    assert_eq!(classify(')'), other(')'));
    assert_eq!(classify('.'), other('.'));
    assert_eq!(classify('\\'), other('\\'));
    assert_eq!(classify('1'), other('1'));
    assert_eq!(classify('\''), other('\''));
}

#[test]
fn scan_classifies_each_character_in_order() {
    assert_eq!(scan(""), Vec::<Classified>::new());
    assert_eq!(
        scan("λx. (x)"),
        vec![letter('λ'), letter('x'), other('.'), blank(' '), other('('), letter('x'), other(')')]
    );
}

#[test]
fn parse_classified_goes_by_the_classes_it_is_given() {
    let input = vec![other('('), letter('λ'), letter('x'), other('.'), letter('x'), other(')'), letter('a')];
    assert_eq!(parse_classified(&input), Ok(app(lam('x', id('x')), id('a'))));
    assert_eq!(parse_classified(&vec![letter('1'), blank('_'), letter('2')]), Ok(app(id('1'), id('2'))));
    assert_eq!(parse_classified(&vec![other('a')]), Err(ParseError::UnknownCharacter('a')));
    assert_eq!(parse_classified(&vec![blank('a')]), Err(ParseError::EmptyExpression));
    assert_eq!(parse_classified(&Vec::new()), Err(ParseError::EmptyExpression));
}

#[test]
fn parentheses_and_lambda_come_before_the_classes() {
    assert_eq!(parse_classified(&vec![letter('('), letter(')')]), Err(ParseError::EmptyGrouping));
    assert_eq!(parse_classified(&vec![blank('λ')]), Err(ParseError::MissingBinder));
    assert_eq!(
        parse_classified(&vec![letter('λ'), letter('('), other('.'), letter('y')]),
        Ok(lam('(', id('y')))
    );
}

#[test]
fn letter_comes_before_white_space() {
    let both = Classified { character: 'w', alphabetic: true, whitespace: true };
    assert_eq!(parse_classified(&vec![both]), Ok(id('w')));
    assert_eq!(
        parse_classified(&vec![other('\\'), both, other('.'), letter('y')]),
        Ok(lam('w', id('y')))
    );
}

#[test]
fn dot_comes_before_white_space_behind_a_binder() {
    let input = vec![letter('λ'), letter('x'), blank('.'), letter('y')];
    assert_eq!(parse_classified(&input), Ok(lam('x', id('y'))));
    let input = vec![letter('λ'), letter('x'), blank(' '), other('.'), letter('y')];
    assert_eq!(parse_classified(&input), Ok(lam('x', id('y'))));
}
