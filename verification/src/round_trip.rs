//! The text of a parsed expression parses back to that expression.

use vstd::prelude::*;
use crate::expression::Expression;
use crate::parser::{
    finished, juxtaposed, parsed_abstraction, parsed_line, parsed_separator, parsed_terms,
    Context, ParseError,
};
use crate::text::{alphabetic, character_at, classified, head, scanned, Classified};
use crate::variable::Variable;

verus! {

/// Whether `c` can name an identifier: a letter that is neither parenthesis
/// nor lambda.
pub open spec fn names_identifier(c: char) -> bool {
    alphabetic(c) && c != '(' && c != ')' && c != 'λ' && c != '\\'
}

/// Whether `expr` is of the kind that the parser builds from a line of text:
/// every variable is of generation zero, every identifier is named by a letter
/// that is neither parenthesis nor lambda, and every binder by a letter.
pub open spec fn plain(expr: Expression) -> bool
    decreases expr,
{
    match expr {
        Expression::Identifier(x) => x.1 == 0 && names_identifier(x.0),
        Expression::Application(function, argument) => plain(*function) && plain(*argument),
        Expression::Abstraction(binder, body) => binder.1 == 0 && alphabetic(binder.0) && plain(
            *body,
        ),
    }
}

/// Whether the terms read so far, if any, are plain.
pub open spec fn plain_so_far(pending: Option<Expression>) -> bool {
    pending matches Some(expr) ==> plain(expr)
}

/// Whether every character of `input` carries the classes that the standard
/// library gives it.
pub open spec fn truly_classified(input: Seq<Classified>) -> bool {
    forall|index: int|
        0 <= index < input.len() ==> (#[trigger] input[index]) == classified(
            input[index].character,
        )
}

/// Whether the outcome of parsing some part of `input` is sound: the
/// expression is plain, and what is left is a tail of `input`, no longer than
/// it.
pub open spec fn sound(
    outcome: Result<(Expression, Seq<Classified>), ParseError>,
    input: Seq<Classified>,
) -> bool {
    outcome matches Ok((expr, after)) ==> {
        &&& plain(expr)
        &&& after.len() <= input.len()
        &&& truly_classified(after)
    }
}

/// A sequence of terms parses to a plain expression and leaves no more input
/// than it was given.
pub proof fn lemma_parsed_terms_sound(
    input: Seq<Classified>,
    pending: Option<Expression>,
    context: Context,
)
    requires
        truly_classified(input),
        plain_so_far(pending),
    ensures
        sound(parsed_terms(input, pending, context), input),
    decreases input.len(), 0nat,
{
    if input.len() > 0 {
        let c = head(input);
        let rest = input.skip(1);
        assert(c == classified(c.character));
        assert(truly_classified(rest)) by {
            assert forall|index: int| 0 <= index < rest.len() implies (#[trigger] rest[index])
                == classified(rest[index].character) by {
                assert(rest[index] == input[index + 1]);
            }
        }
        if c.character == '(' {
            lemma_parsed_terms_sound(rest, None, Context::Grouping);
            if let Ok((group, after)) = parsed_terms(rest, None, Context::Grouping) {
                lemma_parsed_terms_sound(after, Some(juxtaposed(pending, group)), context);
            }
        } else if c.character == ')' {
        } else if c.character == 'λ' || c.character == '\\' {
            lemma_parsed_abstraction_sound(rest);
        } else if c.alphabetic {
            assert(plain(Expression::Identifier(Variable(c.character, 0))));
            lemma_parsed_terms_sound(
                rest,
                Some(juxtaposed(pending, Expression::Identifier(Variable(c.character, 0)))),
                context,
            );
        } else {
            lemma_parsed_terms_sound(rest, pending, context);
        }
    }
}

/// An abstraction parses to a plain expression and leaves no more input than
/// it was given.
pub proof fn lemma_parsed_abstraction_sound(input: Seq<Classified>)
    requires
        truly_classified(input),
    ensures
        sound(parsed_abstraction(input), input),
    decreases input.len(), 1nat,
{
    if input.len() > 0 {
        let c = head(input);
        let rest = input.skip(1);
        assert(c == classified(c.character));
        assert(truly_classified(rest)) by {
            assert forall|index: int| 0 <= index < rest.len() implies (#[trigger] rest[index])
                == classified(rest[index].character) by {
                assert(rest[index] == input[index + 1]);
            }
        }
        if c.alphabetic {
            lemma_parsed_separator_sound(rest, Variable(c.character, 0));
        } else {
            lemma_parsed_abstraction_sound(rest);
        }
    }
}

/// The dot and body of an abstraction over a plain binder parse to a plain
/// expression and leave no more input than they were given.
pub proof fn lemma_parsed_separator_sound(input: Seq<Classified>, binder: Variable)
    requires
        truly_classified(input),
        binder.1 == 0,
        alphabetic(binder.0),
    ensures
        sound(parsed_separator(input, binder), input),
    decreases input.len(), 1nat,
{
    if input.len() > 0 {
        let rest = input.skip(1);
        assert(truly_classified(rest)) by {
            assert forall|index: int| 0 <= index < rest.len() implies (#[trigger] rest[index])
                == classified(rest[index].character) by {
                assert(rest[index] == input[index + 1]);
            }
        }
        if head(input).character == '.' {
            lemma_parsed_terms_sound(rest, None, Context::Body);
        } else {
            lemma_parsed_separator_sound(rest, binder);
        }
    }
}

/// Classing the characters of two texts joined is joining the two texts
/// classed.
pub proof fn lemma_scanned_joined(first: Seq<char>, second: Seq<char>)
    ensures
        scanned(first + second) == scanned(first) + scanned(second),
{
    assert forall|index: int| 0 <= index < first.len() + second.len() implies scanned(
        first + second,
    )[index] == (scanned(first) + scanned(second))[index] by {
        if index < first.len() {
            assert(character_at(first + second, index) == character_at(first, index));
        } else {
            assert(character_at(first + second, index) == character_at(
                second,
                index - first.len(),
            ));
        }
    }
    assert(scanned(first + second) =~= scanned(first) + scanned(second));
}

/// The text of one character, classed, is that character classed.
pub proof fn lemma_scanned_single(c: char)
    ensures
        scanned(seq![c]) == seq![classified(c)],
{
    assert(character_at(seq![c], 0) == c);
    assert(scanned(seq![c]) =~= seq![classified(c)]);
}

/// The text of a plain expression, classed and put at the front of any input,
/// is read as one term: the parser goes on behind it with the expression
/// folded into the terms read so far.
pub proof fn lemma_text_is_read_as_term(
    expr: Expression,
    rest: Seq<Classified>,
    pending: Option<Expression>,
    context: Context,
)
    requires
        plain(expr),
    ensures
        parsed_terms(scanned(expr.text()) + rest, pending, context) == parsed_terms(
            rest,
            Some(juxtaposed(pending, expr)),
            context,
        ),
    decreases expr,
{
    let input = scanned(expr.text()) + rest;
    match expr {
        Expression::Identifier(x) => {
            assert(expr.text() =~= seq![x.0]);
            lemma_scanned_single(x.0);
            assert(input =~= seq![classified(x.0)] + rest);
            assert(input.skip(1) =~= rest);
        },
        Expression::Application(function, argument) => {
            let closing = seq![classified(')')] + rest;
            let second = scanned(argument.text()) + closing;
            let first = scanned(function.text()) + second;
            assert(input =~= seq![classified('(')] + first) by {
                lemma_scanned_single('(');
                lemma_scanned_single(')');
                lemma_scanned_joined(seq!['('], function.text());
                lemma_scanned_joined(seq!['('] + function.text(), argument.text());
                lemma_scanned_joined(seq!['('] + function.text() + argument.text(), seq![')']);
            }
            assert(input.skip(1) =~= first);
            lemma_text_is_read_as_term(*function, second, None, Context::Grouping);
            lemma_text_is_read_as_term(*argument, closing, Some(*function), Context::Grouping);
            assert(closing.skip(1) =~= rest);
            assert(parsed_terms(closing, Some(expr), Context::Grouping) == finished(
                Some(expr),
                Context::Grouping,
                rest,
            ));
        },
        Expression::Abstraction(binder, body) => {
            let closing = seq![classified(')')] + rest;
            let inside = scanned(body.text()) + closing;
            let dotted = seq![classified('.')] + inside;
            let bound = seq![classified(binder.0)] + dotted;
            let lambda = seq![classified('λ')] + bound;
            assert(input =~= seq![classified('(')] + lambda) by {
                assert(binder.text() =~= seq![binder.0]);
                assert(seq!['(', 'λ'] =~= seq!['('] + seq!['λ']);
                lemma_scanned_single('(');
                lemma_scanned_single('λ');
                lemma_scanned_single(binder.0);
                lemma_scanned_single('.');
                lemma_scanned_single(')');
                lemma_scanned_joined(seq!['('], seq!['λ']);
                lemma_scanned_joined(seq!['(', 'λ'], binder.text());
                lemma_scanned_joined(seq!['(', 'λ'] + binder.text(), seq!['.']);
                lemma_scanned_joined(seq!['(', 'λ'] + binder.text() + seq!['.'], body.text());
                lemma_scanned_joined(
                    seq!['(', 'λ'] + binder.text() + seq!['.'] + body.text(),
                    seq![')'],
                );
            }
            assert(input.skip(1) =~= lambda);
            assert(lambda.skip(1) =~= bound);
            assert(bound.skip(1) =~= dotted);
            assert(dotted.skip(1) =~= inside);
            assert(closing.skip(1) =~= rest);
            lemma_text_is_read_as_term(*body, closing, None, Context::Body);
            assert(parsed_terms(closing, Some(*body), Context::Body) == finished(
                Some(*body),
                Context::Body,
                rest,
            ));
            assert(parsed_separator(dotted, binder) == Ok::<
                (Expression, Seq<Classified>),
                ParseError,
            >((expr, rest)));
            assert(parsed_abstraction(bound) == parsed_separator(dotted, Variable(binder.0, 0)));
            assert(parsed_terms(lambda, None, Context::Grouping) == Ok::<
                (Expression, Seq<Classified>),
                ParseError,
            >((expr, rest)));
        },
    }
}

/// The text of an expression of the kind that the parser builds parses to
/// that expression.
pub proof fn lemma_text_parses_back(expr: Expression)
    requires
        plain(expr),
    ensures
        parsed_line(expr.text()) == Ok::<Expression, ParseError>(expr),
{
    let none = Seq::<Classified>::empty();
    lemma_text_is_read_as_term(expr, none, None, Context::Line);
    assert(scanned(expr.text()) + none =~= scanned(expr.text()));
}

/// Printing and parsing again gives the same tree: where `line` parses to an
/// expression, the text of that expression parses to the same expression.
pub proof fn lemma_round_trip(line: Seq<char>)
    requires
        parsed_line(line) is Ok,
    ensures
        parsed_line(parsed_line(line)->Ok_0.text()) == parsed_line(line),
{
    assert(truly_classified(scanned(line))) by {
        assert forall|index: int| 0 <= index < scanned(line).len() implies (#[trigger] scanned(
            line,
        )[index]) == classified(scanned(line)[index].character) by {}
    }
    lemma_parsed_terms_sound(scanned(line), None, Context::Line);
    lemma_text_parses_back(parsed_line(line)->Ok_0);
}

} // verus!
