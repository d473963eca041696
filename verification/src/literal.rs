//! The kind of a Rust literal, as the `litrs` crate reads its text.
use vstd::prelude::*;

verus! {

/// The kinds of literal that the converter tells apart.
#[derive(Debug, Clone, Copy, PartialEq, Eq, Structural)]
pub enum LiteralClass {
    Integer,
    Float,
    String,
    /// Any other literal: a character, a byte, a byte string, a C string.
    Other,
}

/// The kind of the literal whose text is `text` according to
/// `litrs::Literal::parse`, or `None` where that function rejects the text.
pub uninterp spec fn literal_class(text: Seq<char>) -> Option<LiteralClass>;

/// Calls `litrs::Literal::parse` on `text` and keeps only the kind of the
/// literal it finds. Believed, not proved: the result is `literal_class(text@)`,
/// a function of the text alone; nothing more is said of which texts are which
/// kind.
#[verifier::external_body]
pub(crate) fn classify_literal(text: &str) -> (r: Option<LiteralClass>)
    ensures
        r == literal_class(text@),
{
    match litrs::Literal::parse(text) {
        Ok(litrs::Literal::Integer(_)) => Some(LiteralClass::Integer),
        Ok(litrs::Literal::Float(_)) => Some(LiteralClass::Float),
        Ok(litrs::Literal::String(_)) => Some(LiteralClass::String),
        Ok(_) => Some(LiteralClass::Other),
        Err(_) => None,
    }
}

} // verus!
