use vstd::prelude::*;

verus! {

/// Every way an operation of the library can fail.
#[derive(Debug, Clone, PartialEq, Eq)]
pub enum Error {
    /// A configuration document does not have the expected shape; holds the
    /// offending key or the parser's message.
    ConfigParse(String),
    /// A machine tag that the tag declarations do not define.
    UnknownTag(String),
    /// Two eligible fragments of the named pill both set the site root (or
    /// both set the repo root).
    DuplicateRoot(String),
    /// Fragments of the named pill were applied but none of them set a site.
    MissingSite(String),
    /// Two pills share the name.
    DuplicatePill(String),
    /// The repo side of a link does not exist.
    MissingSource(String),
    /// The destination of a clone or a link already exists.
    DestinationExists(String),
    /// A backup version whose directory is absent.
    VersionNotFound(String),
    /// The configuration still holds its tutorial section.
    TutorialIncomplete,
    /// The platform offers no symlink primitive.
    Unsupported,
    /// A filesystem operation failed.
    IoError(String),
}

} // verus!
