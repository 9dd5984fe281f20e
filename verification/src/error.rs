use vstd::prelude::*;

verus! {

/// Why a subscription could not be compiled or a query could not be answered.
#[derive(Debug, Clone, PartialEq, Eq)]
pub enum QueryError {
    /// The short name has no entry in the registry.
    UnknownType(String),
    /// The text serialized for component `short_name` of `entity` is not JSON:
    /// the serializer was applied to a value of another type.
    TypeMismatch { entity: u64, short_name: String },
}

/// A [`QueryError`] with each string as its characters.
pub enum QueryErrorView {
    UnknownType(Seq<char>),
    TypeMismatch { entity: u64, short_name: Seq<char> },
}

impl View for QueryError {
    type V = QueryErrorView;

    open spec fn view(&self) -> QueryErrorView {
        match *self {
            QueryError::UnknownType(name) => QueryErrorView::UnknownType(name@),
            QueryError::TypeMismatch { entity, short_name } => QueryErrorView::TypeMismatch {
                entity,
                short_name: short_name@,
            },
        }
    }
}

} // verus!
