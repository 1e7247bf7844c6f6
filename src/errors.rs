use vstd::prelude::*;

verus! {

/// Failure while building, resolving or cascading the model.
#[derive(Clone, Debug, PartialEq, Eq)]
pub enum Error {
    /// A mandatory child or attribute is absent: (element kind, field name).
    MissingField(String, String),
    /// A value did not parse: (what was expected, the text found).
    UnexpectedValue(String, String),
    /// A `derivedFrom` name matches no sibling.
    UnresolvedReference(String),
    /// A `derivedFrom` chain comes back to an entity it already visited; the
    /// payload is the name of the entity being resolved.
    DerivationCycle(String),
}

/// Mathematical model of an [`Error`].
pub ghost enum ErrorModel {
    MissingField(Seq<char>, Seq<char>),
    UnexpectedValue(Seq<char>, Seq<char>),
    UnresolvedReference(Seq<char>),
    DerivationCycle(Seq<char>),
}

impl DeepView for Error {
    type V = ErrorModel;

    open spec fn deep_view(&self) -> ErrorModel {
        match self {
            Error::MissingField(a, b) => ErrorModel::MissingField(a@, b@),
            Error::UnexpectedValue(a, b) => ErrorModel::UnexpectedValue(a@, b@),
            Error::UnresolvedReference(a) => ErrorModel::UnresolvedReference(a@),
            Error::DerivationCycle(a) => ErrorModel::DerivationCycle(a@),
        }
    }
}

/// Model of a result whose error is an [`Error`].
pub open spec fn result_model<T>(r: Result<T, Error>) -> Result<T, ErrorModel> {
    match r {
        Ok(v) => Ok(v),
        Err(e) => Err(e.deep_view()),
    }
}

} // verus!
