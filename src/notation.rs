use vstd::prelude::*;

use crate::diagram::Diagram;
use crate::layout::{diagram, MAX_TERM_SIZE};
use crate::term::Term;
use lambda_calculus::parser::ParseError;
use lambda_calculus::Term as ParsedTerm;

verus! {

#[verifier::external_type_specification]
#[verifier::external_body]
pub struct ExParsedTerm(ParsedTerm);

#[verifier::external_type_specification]
#[verifier::external_body]
pub struct ExParseError(ParseError);

/// Why a text does not denote a term.
#[derive(Debug)]
pub enum ParseFailure {
    /// A character that the notation does not use, and its position.
    InvalidCharacter(usize, char),
    /// A name that no abstraction binds (classic notation).
    UndefinedFreeVariable,
    /// Parentheses or binders that do not form a term.
    InvalidExpression,
    /// No term at all.
    EmptyExpression,
}

/// Why a text could not be rendered.
#[derive(Debug)]
pub enum RenderError {
    /// The text does not denote a term.
    Parse(ParseFailure),
    /// The term has more than `MAX_TERM_SIZE` nodes.
    TooLarge,
}

/// The term that a text in de Bruijn notation denotes, or why it denotes none.
pub uninterp spec fn debruijn_term(text: Seq<char>) -> Result<Term, ParseFailure>;

/// The term that a text in classic notation denotes, or why it denotes none.
pub uninterp spec fn classic_term(text: Seq<char>) -> Result<Term, ParseFailure>;

/// Moves each node of a `lambda_calculus::Term` (a `ParsedTerm` here) into a `Term`, one for one.
#[verifier::external_body]
fn term_from_outside(t: ParsedTerm) -> Term {
    match t {
        ParsedTerm::Var(index) => Term::Var(index),
        ParsedTerm::Abs(body) => Term::Abs(Box::new(term_from_outside(*body))),
        ParsedTerm::App(pair) => {
            let (lhs, rhs) = *pair;
            Term::App(Box::new(term_from_outside(lhs)), Box::new(term_from_outside(rhs)))
        },
    }
}

/// Moves a `lambda_calculus::parser::ParseError` into a `ParseFailure`,
/// variant for variant.
#[verifier::external_body]
fn failure_from_outside(e: ParseError) -> ParseFailure {
    match e {
        ParseError::InvalidCharacter((i, c)) => ParseFailure::InvalidCharacter(i, c),
        ParseError::UndefinedFreeVariable => ParseFailure::UndefinedFreeVariable,
        ParseError::InvalidExpression => ParseFailure::InvalidExpression,
        ParseError::EmptyExpression => ParseFailure::EmptyExpression,
    }
}

/// Relies on lambda_calculus::parse with the DeBruijn notation: the outcome
/// depends on the text alone.
#[verifier::external_body]
fn parse_debruijn(text: &str) -> (r: Result<Term, ParseFailure>)
    ensures
        r == debruijn_term(text@),
{
    lambda_calculus::parse(text, lambda_calculus::DeBruijn).map(term_from_outside).map_err(
        failure_from_outside,
    )
}

/// Relies on lambda_calculus::parse with the Classic notation: the outcome
/// depends on the text alone.
#[verifier::external_body]
fn parse_classic(text: &str) -> (r: Result<Term, ParseFailure>)
    ensures
        r == classic_term(text@),
{
    lambda_calculus::parse(text, lambda_calculus::Classic).map(term_from_outside).map_err(
        failure_from_outside,
    )
}

/// What rendering a parsed text yields.
pub open spec fn rendered(parsed: Result<Term, ParseFailure>, r: Result<Diagram, RenderError>) -> bool {
    match parsed {
        Err(e) => r == Err::<Diagram, RenderError>(RenderError::Parse(e)),
        Ok(t) => if t.size() <= MAX_TERM_SIZE {
            r is Ok && r->Ok_0@ == diagram(t)
        } else {
            r == Err::<Diagram, RenderError>(RenderError::TooLarge)
        },
    }
}

/// The diagram of the parsed term, or why there is none.
pub fn render_parsed(parsed: Result<Term, ParseFailure>) -> (r: Result<Diagram, RenderError>)
    ensures
        rendered(parsed, r),
{
    match parsed {
        Err(e) => Err(RenderError::Parse(e)),
        Ok(term) => match term.count_nodes(MAX_TERM_SIZE) {
            Some(_) => Ok(Diagram::from(term)),
            None => Err(RenderError::TooLarge),
        },
    }
}

/// The diagram of the term that `expression` denotes in de Bruijn notation.
pub fn render_from_debrujin(expression: String) -> (r: Result<Diagram, RenderError>)
    ensures
        rendered(debruijn_term(expression@), r),
{
    render_parsed(parse_debruijn(expression.as_str()))
}

/// The diagram of the term that `expression` denotes in classic notation.
pub fn render_from_classic(expression: String) -> (r: Result<Diagram, RenderError>)
    ensures
        rendered(classic_term(expression@), r),
{
    render_parsed(parse_classic(expression.as_str()))
}

} // verus!
