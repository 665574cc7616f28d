//! S-expressions, as the library reads them, and the reading of source text
//! into one through the `sexp` crate.
use vstd::prelude::*;

verus! {

/// An atom. The reader makes a float atom of a number that is not an `i64`
/// integer; nothing reads its value, so it carries none.
#[derive(Debug)]
pub enum Atom {
    S(String),
    I(i64),
    F,
}

/// An S-expression: an atom or a list.
#[derive(Debug)]
pub enum SExpr {
    Atom(Atom),
    List(Vec<SExpr>),
}

#[verifier::external_type_specification]
#[verifier::external_body]
pub struct ExOutsideSexp(sexp::Sexp);

/// What `sexp::parse` reads from a text: the S-expression, with each float
/// atom standing as `Atom::F`, or `None` where it reports an error.
pub uninterp spec fn sexp_reading(text: Seq<char>) -> Option<SExpr>;

/// Calls `sexp::parse` on `text`. The contract claims only that the result is
/// a function of the text (`sexp_reading`); the grammar that the crate
/// accepts is not stated.
#[verifier::external_body]
pub(crate) fn read_sexp(text: &str) -> (r: Option<SExpr>)
    ensures
        r == sexp_reading(text@),
{
    match sexp::parse(text) {
        Ok(s) => Some(adopt_sexp(s)),
        Err(_) => None,
    }
}

/// Turns a value of `sexp::Sexp` into the library's [`SExpr`], one node for
/// one node: strings and integers move over, a float becomes `Atom::F`.
#[verifier::external_body]
fn adopt_sexp(s: sexp::Sexp) -> SExpr {
    match s {
        sexp::Sexp::Atom(sexp::Atom::S(x)) => SExpr::Atom(Atom::S(x)),
        sexp::Sexp::Atom(sexp::Atom::I(n)) => SExpr::Atom(Atom::I(n)),
        sexp::Sexp::Atom(sexp::Atom::F(_)) => SExpr::Atom(Atom::F),
        sexp::Sexp::List(v) => SExpr::List(v.into_iter().map(adopt_sexp).collect()),
    }
}

} // verus!
