//! The canonical text of variables and expressions.

use vstd::prelude::*;
use crate::expression::Expression;
use crate::text::string_of;
use crate::variable::Variable;

verus! {

/// The mark that is written once for each generation of a variable.
pub const GENERATION_MARK: char = '\'';

impl Variable {
    /// The text of the variable: its symbol, then one mark for each generation.
    pub open spec fn text(self) -> Seq<char> {
        seq![self.0] + Seq::new(self.1 as nat, |i: int| GENERATION_MARK)
    }

    /// Appends the text of the variable to `out`.
    pub fn write(self, out: &mut Vec<char>)
        ensures
            final(out)@ == old(out)@ + self.text(),
    {
        out.push(self.0);
        let mut marks: usize = 0;
        while marks < self.1
            invariant
                marks <= self.1,
                out@ == old(out)@ + seq![self.0] + Seq::new(marks as nat, |i: int| GENERATION_MARK),
            decreases self.1 - marks,
        {
            out.push(GENERATION_MARK);
            marks += 1;
        }
    }

    /// The text of the variable.
    pub fn display(self) -> (line: String)
        ensures
            line@ == self.text(),
    {
        let mut out: Vec<char> = Vec::new();
        self.write(&mut out);
        string_of(&out)
    }
}

impl Expression {
    /// The text of the expression: a variable as its own text, an application
    /// as `(LR)`, an abstraction as `(λX.B)`.
    pub open spec fn text(self) -> Seq<char>
        decreases self,
    {
        match self {
            Expression::Identifier(x) => x.text(),
            Expression::Application(function, argument) => seq!['('] + function.text()
                + argument.text() + seq![')'],
            Expression::Abstraction(binder, body) => seq!['(', 'λ'] + binder.text() + seq!['.']
                + body.text() + seq![')'],
        }
    }

    /// Appends the text of the expression to `out`.
    pub fn write(&self, out: &mut Vec<char>)
        ensures
            final(out)@ == old(out)@ + self.text(),
        decreases *self,
    {
        match self {
            Expression::Identifier(x) => {
                x.write(out);
            },
            Expression::Application(function, argument) => {
                out.push('(');
                function.write(out);
                argument.write(out);
                out.push(')');
            },
            Expression::Abstraction(binder, body) => {
                out.push('(');
                out.push('λ');
                binder.write(out);
                out.push('.');
                body.write(out);
                out.push(')');
            },
        }
    }

    /// The text of the expression.
    pub fn display(&self) -> (line: String)
        ensures
            line@ == self.text(),
    {
        let mut out: Vec<char> = Vec::new();
        self.write(&mut out);
        string_of(&out)
    }
}

} // verus!
