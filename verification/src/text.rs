//! Character classes, and the passage between strings and lists of characters.

use vstd::prelude::*;

verus! {

/// Whether `c` is an alphabetic character, as `char::is_alphabetic` finds.
pub uninterp spec fn alphabetic(c: char) -> bool;

/// Whether `c` is white space, as `char::is_whitespace` finds.
pub uninterp spec fn whitespace(c: char) -> bool;

/// A character together with the answers of the two character classes for it.
#[derive(Clone, Copy, Debug, PartialEq, Eq, Structural)]
pub struct Classified {
    /// The character itself.
    pub character: char,
    /// Whether the character counts as a letter.
    pub alphabetic: bool,
    /// Whether the character counts as white space.
    pub whitespace: bool,
}

/// The character at `index` of `text`.
///
/// Taking the character through this function, and not by the index alone,
/// lets the verifier know that it is a valid `char`.
pub open spec fn character_at(text: Seq<char>, index: int) -> char
    recommends
        0 <= index < text.len(),
{
    text[index]
}

/// `c` with what the standard library's character classes answer for it.
pub open spec fn classified(c: char) -> Classified {
    Classified { character: c, alphabetic: alphabetic(c), whitespace: whitespace(c) }
}

/// The characters of `text`, each with its classes.
pub open spec fn scanned(text: Seq<char>) -> Seq<Classified> {
    Seq::new(text.len(), |index: int| classified(character_at(text, index)))
}

/// The first of the classified characters `input`.
///
/// Taking it through this function, and not by the index alone, lets the
/// verifier know that its character is a valid `char`.
pub open spec fn head(input: Seq<Classified>) -> Classified
    recommends
        input.len() > 0,
{
    input[0]
}

/// `char::is_alphabetic` of the standard library: whether the character has
/// the Unicode property Alphabetic. Its answer depends on the character alone
/// and is given the name `alphabetic`; nothing more is claimed of it.
pub assume_specification[ char::is_alphabetic ](c: char) -> (answer: bool)
    ensures
        answer == alphabetic(c),
;

/// `char::is_whitespace` of the standard library: whether the character has
/// the Unicode property White_Space. Its answer depends on the character alone
/// and is given the name `whitespace`; nothing more is claimed of it.
pub assume_specification[ char::is_whitespace ](c: char) -> (answer: bool)
    ensures
        answer == whitespace(c),
;

/// `String::push` of the standard library: appends one character to the end
/// of the string.
pub assume_specification[ String::push ](s: &mut String, c: char)
    ensures
        final(s)@ == old(s)@.push(c),
;

/// Asks the standard library for the classes of `c`.
pub fn classify(c: char) -> (answer: Classified)
    ensures
        answer == classified(c),
{
    Classified { character: c, alphabetic: c.is_alphabetic(), whitespace: c.is_whitespace() }
}

/// The characters of `line`, in order, each with its classes.
pub fn scan(line: &str) -> (input: Vec<Classified>)
    ensures
        input@ == scanned(line@),
{
    broadcast use vstd::string::group_string_axioms;

    let mut input: Vec<Classified> = Vec::new();
    for c in iter: line.chars()
        invariant
            iter.seq() == line@,
            input@ == scanned(line@).take(iter.index()),
    {
        assert(scanned(line@).take(iter.index() + 1) == scanned(line@).take(iter.index()).push(
            classified(c),
        ));
        input.push(classify(c));
    }
    assert(scanned(line@).take(line@.len() as int) == scanned(line@));
    input
}

/// The string made of the characters of `list`, in order.
pub fn string_of(list: &Vec<char>) -> (line: String)
    ensures
        line@ == list@,
{
    let mut line = String::new();
    let mut i: usize = 0;
    while i < list.len()
        invariant
            i <= list.len(),
            line@ == list@.take(i as int),
        decreases list.len() - i,
    {
        line.push(list[i]);
        assert(list@.take(i + 1) == list@.take(i as int).push(list@[i as int]));
        i += 1;
    }
    assert(list@.take(i as int) == list@);
    line
}

} // verus!
