//! The evaluator: from a line of text to the line that reports its normal form.

use vstd::prelude::*;
use crate::expression::Expression;
use crate::normalize::{normal_form, normalize, ReductionOverflow};
use crate::parser::{parse, parsed_line, ParseError};
use crate::text::string_of;

verus! {

/// Why a line of text could not be evaluated.
#[derive(Clone, Copy, Debug, PartialEq, Eq, Structural)]
pub enum EvaluationError {
    /// The line is no expression.
    Malformed(ParseError),
    /// The expression was not brought to normal form.
    Overflow(ReductionOverflow),
}

/// The line that reports `normal` as the normal form of `tree`: the text of
/// `tree`, an arrow between two blanks, and the text of `normal`.
pub open spec fn report(tree: Expression, normal: Expression) -> Seq<char> {
    tree.text() + seq![' ', '-', '>', ' '] + normal.text()
}

/// What evaluating the line `text` comes to: the report of the expression it
/// stands for and of its normal form, or why there is none.
pub open spec fn evaluation(text: Seq<char>) -> Result<Seq<char>, EvaluationError> {
    match parsed_line(text) {
        Err(error) => Err(EvaluationError::Malformed(error)),
        Ok(tree) => match normal_form(tree) {
            Err(overflow) => Err(EvaluationError::Overflow(overflow)),
            Ok(normal) => Ok(report(tree, normal)),
        },
    }
}

/// Parses `line`, reduces the expression to normal form, and returns the line
/// `<parsed form> -> <normal form>`.
pub fn evaluate(line: &str) -> (outcome: Result<String, EvaluationError>)
    ensures
        match evaluation(line@) {
            Ok(text) => outcome matches Ok(written) && written@ == text,
            Err(error) => outcome matches Err(found) && found == error,
        },
{
    let tree = match parse(line) {
        Ok(tree) => tree,
        Err(error) => {
            return Err(EvaluationError::Malformed(error));
        },
    };
    let mut out: Vec<char> = Vec::new();
    tree.write(&mut out);
    out.push(' ');
    out.push('-');
    out.push('>');
    out.push(' ');
    let normal = match normalize(tree) {
        Ok(normal) => normal,
        Err(overflow) => {
            return Err(EvaluationError::Overflow(overflow));
        },
    };
    normal.write(&mut out);
    Ok(string_of(&out))
}

} // verus!
