use vstd::prelude::*;

verus! {

/// The error taxonomy of the library. Every fallible operation reports one
/// of these five kinds.
#[derive(Clone, Debug)]
pub enum Error {
    /// A payload is missing its `Data:` separator, or the two length
    /// headers of an array disagree.
    InvalidData,
    /// A structural failure at some grammar production.
    ParseError,
    /// A node was asked for a shape it cannot supply, or a text kind was
    /// converted to a numeric kind.
    InvalidTypecast,
    /// A raw DAS attribute value failed its domain parse; carries the raw
    /// text.
    InvalidAttributeValue(String),
    /// Sequence record decoding and text-array decoding are out of scope.
    NotImplemented,
}

impl Error {
    /// A human-readable description of the error kind.
    pub fn message(&self) -> (r: String)
        ensures
            *self matches Error::InvalidData ==> r@ == "Invalid Data"@,
            *self matches Error::ParseError ==> r@ == "Parse Error"@,
            *self matches Error::InvalidTypecast ==> r@ == "Invalid Typecast"@,
            *self matches Error::InvalidAttributeValue(t)
                ==> r@ == "Invalid Attribute Value: "@ + t@,
            *self matches Error::NotImplemented ==> r@ == "Not Implemented"@,
    {
        match self {
            Error::InvalidData => String::from_str("Invalid Data"),
            Error::ParseError => String::from_str("Parse Error"),
            Error::InvalidTypecast => String::from_str("Invalid Typecast"),
            Error::InvalidAttributeValue(t) => {
                String::from_str("Invalid Attribute Value: ").concat(t.as_str())
            },
            Error::NotImplemented => String::from_str("Not Implemented"),
        }
    }
}

} // verus!
