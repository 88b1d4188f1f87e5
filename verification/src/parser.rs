//! The parser: from a line of text to an expression tree.
//!
//! A line is a sequence of terms written side by side, which stands for their
//! application, associating to the left. A term is a letter, which is an
//! identifier of generation zero; a sequence of terms between parentheses; or
//! an abstraction: `λ` or `\`, one letter for the binder, a dot, and a
//! sequence of terms for the body, which runs to the end of the grouping that
//! the abstraction stands in. White space between these is passed over.
//!
//! The parser works on characters that come with their classes, letter and
//! white space, already looked up: `scan` looks them up for a line of text,
//! and `parse_classified` holds the grammar.

use vstd::prelude::*;
use crate::expression::Expression;
use crate::text::{head, scan, scanned, Classified};
use crate::variable::Variable;

verus! {

/// Why a line of text is no expression.
#[derive(Clone, Copy, Debug, PartialEq, Eq, Structural)]
pub enum ParseError {
    /// The line holds no term at all.
    EmptyExpression,
    /// A pair of parentheses holds no term.
    EmptyGrouping,
    /// A character that is no parenthesis, no lambda, no letter and no white space.
    UnknownCharacter(char),
    /// The line ends where the binder of an abstraction is due.
    MissingBinder,
    /// The character that stands where the binder of an abstraction is due.
    InvalidBinder(char),
    /// The line ends where the dot of an abstraction is due.
    MissingSeparator,
    /// The character that stands where the dot of an abstraction is due.
    InvalidSeparator(char),
    /// The dot of an abstraction is followed by no term.
    MissingBody,
}

/// Where a sequence of juxtaposed terms stands.
#[derive(Clone, Copy, Debug, PartialEq, Eq, Structural)]
pub enum Context {
    /// The whole line.
    Line,
    /// Between parentheses.
    Grouping,
    /// Behind the dot of an abstraction.
    Body,
}

impl Context {
    /// The error for a sequence of no terms that stands here.
    pub open spec fn empty(self) -> ParseError {
        match self {
            Context::Line => ParseError::EmptyExpression,
            Context::Grouping => ParseError::EmptyGrouping,
            Context::Body => ParseError::MissingBody,
        }
    }

    /// The error for a sequence of no terms that stands here.
    pub fn empty_error(self) -> (error: ParseError)
        ensures
            error == self.empty(),
    {
        match self {
            Context::Line => ParseError::EmptyExpression,
            Context::Grouping => ParseError::EmptyGrouping,
            Context::Body => ParseError::MissingBody,
        }
    }
}

/// The terms read so far with `term` juxtaposed to their right.
pub open spec fn juxtaposed(pending: Option<Expression>, term: Expression) -> Expression {
    match pending {
        None => term,
        Some(left) => Expression::Application(Box::new(left), Box::new(term)),
    }
}

/// What a sequence of terms comes to where it ends: the terms read, with the
/// input that is left, or the error for an empty sequence.
pub open spec fn finished(
    pending: Option<Expression>,
    context: Context,
    rest: Seq<Classified>,
) -> Result<(Expression, Seq<Classified>), ParseError> {
    match pending {
        Some(expr) => Ok((expr, rest)),
        None => Err(context.empty()),
    }
}

/// The expression that a sequence of juxtaposed terms at the front of `input`
/// stands for, `pending` being the terms of it already read, and the input
/// left behind it.
///
/// The sequence ends at the end of the input or behind a closing parenthesis.
/// An abstraction is the last term of its sequence: its body takes all that is
/// left of the sequence. A character is taken for a parenthesis or a lambda
/// before its classes are asked, for a letter before it is taken for white
/// space.
///
/// What a grouping leaves is always shorter than the input it began in (see
/// `lemma_parsed_terms_sound`), so the test on the lengths never fails: it is
/// there to show that the definition is well founded.
pub open spec fn parsed_terms(
    input: Seq<Classified>,
    pending: Option<Expression>,
    context: Context,
) -> Result<(Expression, Seq<Classified>), ParseError>
    decreases input.len(),
{
    if input.len() == 0 {
        finished(pending, context, input)
    } else {
        let c = head(input);
        let rest = input.skip(1);
        if c.character == '(' {
            match parsed_terms(rest, None, Context::Grouping) {
                Err(error) => Err(error),
                Ok((group, after)) => if after.len() < input.len() {
                    parsed_terms(after, Some(juxtaposed(pending, group)), context)
                } else {
                    Err(ParseError::EmptyGrouping)
                },
            }
        } else if c.character == ')' {
            finished(pending, context, rest)
        } else if c.character == 'λ' || c.character == '\\' {
            match parsed_abstraction(rest) {
                Err(error) => Err(error),
                Ok((abstraction, after)) => Ok((juxtaposed(pending, abstraction), after)),
            }
        } else if c.alphabetic {
            parsed_terms(
                rest,
                Some(juxtaposed(pending, Expression::Identifier(Variable(c.character, 0)))),
                context,
            )
        } else if c.whitespace {
            parsed_terms(rest, pending, context)
        } else {
            Err(ParseError::UnknownCharacter(c.character))
        }
    }
}

/// The abstraction whose binder, dot and body stand at the front of `input`,
/// behind a lambda already read, and the input left behind it.
pub open spec fn parsed_abstraction(input: Seq<Classified>) -> Result<
    (Expression, Seq<Classified>),
    ParseError,
>
    decreases input.len(),
{
    if input.len() == 0 {
        Err(ParseError::MissingBinder)
    } else {
        let c = head(input);
        if c.alphabetic {
            parsed_separator(input.skip(1), Variable(c.character, 0))
        } else if c.whitespace {
            parsed_abstraction(input.skip(1))
        } else {
            Err(ParseError::InvalidBinder(c.character))
        }
    }
}

/// The abstraction over `binder` whose dot and body stand at the front of
/// `input`, and the input left behind it.
pub open spec fn parsed_separator(input: Seq<Classified>, binder: Variable) -> Result<
    (Expression, Seq<Classified>),
    ParseError,
>
    decreases input.len(),
{
    if input.len() == 0 {
        Err(ParseError::MissingSeparator)
    } else {
        let c = head(input);
        if c.character == '.' {
            match parsed_terms(input.skip(1), None, Context::Body) {
                Err(error) => Err(error),
                Ok((body, after)) => Ok((Expression::Abstraction(binder, Box::new(body)), after)),
            }
        } else if c.whitespace {
            parsed_separator(input.skip(1), binder)
        } else {
            Err(ParseError::InvalidSeparator(c.character))
        }
    }
}

/// The expression that the classified characters `input` stand for.
pub open spec fn parsed(input: Seq<Classified>) -> Result<Expression, ParseError> {
    match parsed_terms(input, None, Context::Line) {
        Ok((expr, _)) => Ok(expr),
        Err(error) => Err(error),
    }
}

/// The expression that the line `text` stands for, its characters classed as
/// the standard library classes them.
pub open spec fn parsed_line(text: Seq<char>) -> Result<Expression, ParseError> {
    parsed(scanned(text))
}

/// Whether `outcome`, reached on `input`, is the result `expected` with the
/// input left expressed as a position in `input` no smaller than `start`.
pub open spec fn agrees(
    outcome: Result<(Expression, usize), ParseError>,
    expected: Result<(Expression, Seq<Classified>), ParseError>,
    input: Seq<Classified>,
    start: usize,
) -> bool {
    match expected {
        Ok((expr, rest)) => {
            &&& outcome matches Ok((found, end))
            &&& found == expr
            &&& start <= end <= input.len()
            &&& input.skip(end as int) == rest
        },
        Err(error) => outcome == Err::<(Expression, usize), ParseError>(error),
    }
}

/// Folds `term` into the terms read so far: alone it stands for itself,
/// otherwise it becomes the right operand of a new application.
pub fn juxtapose(pending: Option<Expression>, term: Expression) -> (joined: Expression)
    ensures
        joined == juxtaposed(pending, term),
{
    match pending {
        None => term,
        Some(left) => left.extend(term),
    }
}

/// Parses the sequence of juxtaposed terms that begins at `start` in `input`,
/// and returns its expression with the position behind it.
pub fn parse_terms(input: &Vec<Classified>, start: usize, context: Context) -> (outcome: Result<
    (Expression, usize),
    ParseError,
>)
    requires
        start <= input.len(),
    ensures
        agrees(outcome, parsed_terms(input@.skip(start as int), None, context), input@, start),
    decreases input.len() - start,
{
    let mut position = start;
    let mut pending: Option<Expression> = None;
    while position < input.len()
        invariant
            start <= position <= input.len(),
            parsed_terms(input@.skip(position as int), pending, context) == parsed_terms(
                input@.skip(start as int),
                None,
                context,
            ),
        decreases input.len() - position,
    {
        let c = input[position];
        proof {
            assert(input@.skip(position as int)[0] == c);
            assert(input@.skip(position as int).skip(1) == input@.skip(position + 1));
        }
        if c.character == '(' {
            match parse_terms(input, position + 1, Context::Grouping) {
                Err(error) => {
                    return Err(error);
                },
                Ok((group, end)) => {
                    pending = Some(juxtapose(pending, group));
                    position = end;
                },
            }
        } else if c.character == ')' {
            return match pending {
                Some(expr) => Ok((expr, position + 1)),
                None => Err(context.empty_error()),
            };
        } else if c.character == 'λ' || c.character == '\\' {
            return match parse_abstraction(input, position + 1) {
                Err(error) => Err(error),
                Ok((abstraction, end)) => Ok((juxtapose(pending, abstraction), end)),
            };
        } else if c.alphabetic {
            pending = Some(juxtapose(pending, Expression::Identifier(Variable::from(c.character))));
            position += 1;
        } else if c.whitespace {
            position += 1;
        } else {
            return Err(ParseError::UnknownCharacter(c.character));
        }
    }
    match pending {
        Some(expr) => Ok((expr, position)),
        None => Err(context.empty_error()),
    }
}

/// Parses what follows a lambda at `start` in `input`: one alphabetic binder,
/// a dot, and the body, which takes all that is left of the enclosing
/// grouping. White space before the binder and before the dot is passed over.
pub fn parse_abstraction(input: &Vec<Classified>, start: usize) -> (outcome: Result<
    (Expression, usize),
    ParseError,
>)
    requires
        start <= input.len(),
    ensures
        agrees(outcome, parsed_abstraction(input@.skip(start as int)), input@, start),
    decreases input.len() - start,
{
    let mut position = start;
    while position < input.len() && !input[position].alphabetic
        invariant
            start <= position <= input.len(),
            parsed_abstraction(input@.skip(position as int)) == parsed_abstraction(
                input@.skip(start as int),
            ),
        decreases input.len() - position,
    {
        let c = input[position];
        proof {
            assert(input@.skip(position as int)[0] == c);
            assert(input@.skip(position as int).skip(1) == input@.skip(position + 1));
        }
        if !c.whitespace {
            return Err(ParseError::InvalidBinder(c.character));
        }
        position += 1;
    }
    if position >= input.len() {
        return Err(ParseError::MissingBinder);
    }
    let binder = Variable::from(input[position].character);
    proof {
        assert(input@.skip(position as int)[0] == input@[position as int]);
        assert(input@.skip(position as int).skip(1) == input@.skip(position + 1));
    }
    position += 1;
    while position < input.len()
        invariant
            start < position <= input.len(),
            parsed_separator(input@.skip(position as int), binder) == parsed_abstraction(
                input@.skip(start as int),
            ),
        decreases input.len() - position,
    {
        let c = input[position];
        proof {
            assert(input@.skip(position as int)[0] == c);
            assert(input@.skip(position as int).skip(1) == input@.skip(position + 1));
        }
        if c.character == '.' {
            return match parse_terms(input, position + 1, Context::Body) {
                Err(error) => Err(error),
                Ok((body, end)) => Ok((Expression::Abstraction(binder, Box::new(body)), end)),
            };
        } else if !c.whitespace {
            return Err(ParseError::InvalidSeparator(c.character));
        }
        position += 1;
    }
    Err(ParseError::MissingSeparator)
}

/// Parses classified characters into the expression they stand for.
///
/// This is the whole of the grammar: it asks nothing of the characters but
/// what `input` says of them.
pub fn parse_classified(input: &Vec<Classified>) -> (outcome: Result<Expression, ParseError>)
    ensures
        outcome == parsed(input@),
{
    assert(input@.skip(0) == input@);
    match parse_terms(input, 0, Context::Line) {
        Ok((expr, _)) => Ok(expr),
        Err(error) => Err(error),
    }
}

/// Parses a line of text into the expression it stands for.
///
/// The line is read up to its end or up to a closing parenthesis that closes
/// nothing; what follows such a parenthesis is not read.
pub fn parse(line: &str) -> (outcome: Result<Expression, ParseError>)
    ensures
        outcome == parsed_line(line@),
{
    parse_classified(&scan(line))
}

} // verus!
