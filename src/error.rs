use vstd::prelude::*;

verus! {

/// Why one dependency could not be fully resolved. Such an error stays with its
/// own dependency and never aborts the others of a batch.
#[derive(Clone, Copy, Debug, PartialEq, Eq, Structural)]
pub enum ResolveError {
    /// The range specifier holds no base version that can be read.
    BadVersionSpecifier,
    /// The registry could not be reached.
    RegistryUnreachable,
    /// The registry knows no package of that name.
    PackageNotFound,
    /// The registry's answer lacks the fields that a catalog needs.
    MalformedRegistryResponse,
    /// The package's catalog lists no version at all.
    NoVersionsFound,
}

/// Why no report could be built for a manifest at all.
#[derive(Clone, Copy, Debug, PartialEq, Eq, Structural)]
pub enum ManifestError {
    /// The manifest could not be read.
    ManifestUnreadable,
    /// The manifest is not a JSON object of the expected shape.
    ManifestMalformed,
}

impl ResolveError {
    /// The text that a user is shown for this error.
    pub open spec fn spec_message(self) -> Seq<char> {
        match self {
            ResolveError::BadVersionSpecifier => "bad version specifier"@,
            ResolveError::RegistryUnreachable => "registry unreachable"@,
            ResolveError::PackageNotFound => "package not found"@,
            ResolveError::MalformedRegistryResponse => "malformed registry response"@,
            ResolveError::NoVersionsFound => "no versions found"@,
        }
    }

    /// A human-readable description of the error.
    pub fn message(&self) -> (r: String)
        ensures
            r@ == self.spec_message(),
    {
        match self {
            ResolveError::BadVersionSpecifier => String::from_str("bad version specifier"),
            ResolveError::RegistryUnreachable => String::from_str("registry unreachable"),
            ResolveError::PackageNotFound => String::from_str("package not found"),
            ResolveError::MalformedRegistryResponse => String::from_str("malformed registry response"),
            ResolveError::NoVersionsFound => String::from_str("no versions found"),
        }
    }
}

impl ManifestError {
    /// The text that a user is shown for this error.
    pub open spec fn spec_message(self) -> Seq<char> {
        match self {
            ManifestError::ManifestUnreadable => "manifest unreadable"@,
            ManifestError::ManifestMalformed => "manifest malformed"@,
        }
    }

    /// A human-readable description of the error.
    pub fn message(&self) -> (r: String)
        ensures
            r@ == self.spec_message(),
    {
        match self {
            ManifestError::ManifestUnreadable => String::from_str("manifest unreadable"),
            ManifestError::ManifestMalformed => String::from_str("manifest malformed"),
        }
    }
}

} // verus!
