use vstd::prelude::*;

verus! {

/// The fault taxonomy of the discovery core.
///
/// `DbusConnection` is a transport-level fault and aborts the enclosing
/// discovery call; `ServiceIntrospection` is a fault while enumerating or
/// walking services; `InvalidInput` rejects a caller-supplied name or path
/// before any bus call; the remaining variants classify lookup and decoding
/// failures at the presentation boundary.
#[derive(Debug, Clone)]
pub enum AppError {
    DbusConnection(String),
    ServiceIntrospection(String),
    InvalidInput(String),
    ServiceNotFound(String),
    ObjectNotFound(String),
    UrlDecode(String),
    Internal(String),
}

impl AppError {
    /// The text carried by the fault, independent of its variant.
    pub open spec fn message_view(&self) -> Seq<char> {
        match self {
            AppError::DbusConnection(m) => m@,
            AppError::ServiceIntrospection(m) => m@,
            AppError::InvalidInput(m) => m@,
            AppError::ServiceNotFound(m) => m@,
            AppError::ObjectNotFound(m) => m@,
            AppError::UrlDecode(m) => m@,
            AppError::Internal(m) => m@,
        }
    }

    /// Returns the carried text.
    pub fn message(&self) -> (r: &String)
        ensures
            r@ == self.message_view(),
    {
        match self {
            AppError::DbusConnection(m) => m,
            AppError::ServiceIntrospection(m) => m,
            AppError::InvalidInput(m) => m,
            AppError::ServiceNotFound(m) => m,
            AppError::ObjectNotFound(m) => m,
            AppError::UrlDecode(m) => m,
            AppError::Internal(m) => m,
        }
    }
}

} // verus!
