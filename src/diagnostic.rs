//! Diagnostics: the cause of a problem, its severity and where it was found.
use vstd::prelude::*;

verus! {

#[verifier::external_type_specification]
#[verifier::external_body]
pub struct ExDecodeError(prost::DecodeError);

/// Relies on prost's derived `Clone` for `DecodeError`, which copies the
/// error's description and stack and always returns.
pub assume_specification[ <prost::DecodeError as Clone>::clone ](e: &prost::DecodeError) -> prost::DecodeError;

/// The particular kinds of problem that can be reported.
#[derive(Clone, Debug, PartialEq)]
pub enum Cause {
    /// The plan's wire encoding could not be decoded.
    ProtoParseFailure(prost::DecodeError),
    /// A type name is not known.
    UnknownType(String),
    /// A parameter list does not fit the shape its type class demands.
    MismatchedTypeParameters(String),
    /// A list of field names does not fit the struct fields it names.
    MismatchedFieldNameAssociations(String),
    /// A required field is absent.
    MissingField(String),
    /// A field is present that is not understood.
    UnknownField(String),
    /// Something is not supported yet.
    NotYetImplemented(String),
    /// A value is out of its legal domain.
    IllegalValue(String),
    /// A reference names an anchor that is not defined.
    MissingAnchor(String),
    /// A name could not be resolved.
    NameResolutionFailed(String),
}

impl From<prost::DecodeError> for Cause {
    fn from(e: prost::DecodeError) -> (r: Cause)
        ensures
            r == Cause::ProtoParseFailure(e),
    {
        Cause::ProtoParseFailure(e)
    }
}

impl vstd::std_specs::convert::FromSpecImpl<prost::DecodeError> for Cause {
    open spec fn obeys_from_spec() -> bool {
        true
    }

    open spec fn from_spec(e: prost::DecodeError) -> Cause {
        Cause::ProtoParseFailure(e)
    }
}

/// Result of an operation that fails with a single cause.
pub type Result<T> = std::result::Result<T, Cause>;

/// Severity of a diagnostic.
#[derive(Clone, Copy, Debug, PartialEq, Eq, Structural)]
pub enum Level {
    /// Something is definitely wrong with the plan.
    Error,
    /// The plan may be valid, but that could not be established.
    Warning,
    /// Nothing is wrong; this is additional information.
    Info,
}

/// A complete diagnostic: cause, severity and location.
#[derive(Clone, Debug, PartialEq)]
pub struct Diagnostic {
    /// The cause of the diagnostic.
    pub cause: Cause,
    /// The severity of the diagnostic.
    pub level: Level,
    /// The path within the plan at which the problem was found.
    pub path: String,
}

/// An ordered list of diagnostics.
pub type Diagnostics = Vec<Diagnostic>;

} // verus!
