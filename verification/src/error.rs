use vstd::prelude::*;

verus! {

/// The failure conditions the engine reports. Every operation either
/// completes or returns one of these; a failed operation leaves the store
/// unmodified.
#[derive(Clone, Copy, Debug, PartialEq, Eq, Structural)]
pub enum Error {
    /// A parent node or a named child is absent from the directory tree.
    NotFound,
    /// An inode has no content buffer.
    FileNotFound,
    /// An inode has no attribute record.
    AttrsNotFound,
    /// A read offset is at or past the end of the content buffer.
    EOF,
    /// A create collided with an existing name in the same parent.
    AlreadyExists,
    /// The operation is intentionally unsupported.
    NotImplemented,
}

impl Error {
    /// A short description of the failure.
    pub fn message(&self) -> (r: &'static str)
        ensures
            *self == Error::NotFound ==> r@ == "not found"@,
            *self == Error::FileNotFound ==> r@ == "file not found"@,
            *self == Error::AttrsNotFound ==> r@ == "attributes not found"@,
            *self == Error::EOF ==> r@ == "eof"@,
            *self == Error::AlreadyExists ==> r@ == "already exists"@,
            *self == Error::NotImplemented ==> r@ == "not implemented"@,
    {
        match self {
            Error::NotFound => "not found",
            Error::FileNotFound => "file not found",
            Error::AttrsNotFound => "attributes not found",
            Error::EOF => "eof",
            Error::AlreadyExists => "already exists",
            Error::NotImplemented => "not implemented",
        }
    }
}

} // verus!
