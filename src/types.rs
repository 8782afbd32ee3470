use vstd::prelude::*;
use crate::error::ResolveError;
use crate::npm::VersionsObj;

verus! {

/// One dependency as the manifest declares it: the package's name and the raw range
/// specifier written beside it.
#[derive(Clone, Debug, PartialEq, Eq)]
pub struct PackageJsonParsedObject {
    pub package: String,
    pub version: String,
}

/// The dependencies and the development dependencies of a manifest.
#[derive(Clone, Debug, PartialEq, Eq)]
pub struct ParsedJsonDeps {
    pub deps: Vec<PackageJsonParsedObject>,
    pub dev_deps: Vec<PackageJsonParsedObject>,
}

/// The resolution targets of one dependency. `error` is set whenever resolution could
/// not be completed.
#[derive(Clone, Debug, PartialEq, Eq)]
pub struct PackageVersionInfo {
    pub current: Option<VersionsObj>,
    pub latest: Option<VersionsObj>,
    pub latest_patch: Option<VersionsObj>,
    pub latest_minor: Option<VersionsObj>,
    pub latest_major: Option<VersionsObj>,
    pub error: Option<ResolveError>,
}

/// The report on a manifest: each dependency with its targets, ordered by name.
#[derive(Clone, Debug, PartialEq, Eq)]
pub struct DepsWithMetadata {
    pub deps: Vec<(PackageJsonParsedObject, PackageVersionInfo)>,
    pub dev_deps: Vec<(PackageJsonParsedObject, PackageVersionInfo)>,
}

impl PackageVersionInfo {
    /// Targets that hold nothing but the error `e`.
    pub open spec fn spec_failed(e: ResolveError) -> PackageVersionInfo {
        PackageVersionInfo {
            current: None,
            latest: None,
            latest_patch: None,
            latest_minor: None,
            latest_major: None,
            error: Some(e),
        }
    }

    /// Targets that hold nothing but the error `e`.
    #[verifier::when_used_as_spec(spec_failed)]
    pub fn failed(e: ResolveError) -> (r: PackageVersionInfo)
        ensures
            r == PackageVersionInfo::spec_failed(e),
    {
        PackageVersionInfo {
            current: None,
            latest: None,
            latest_patch: None,
            latest_minor: None,
            latest_major: None,
            error: Some(e),
        }
    }
}

impl PackageJsonParsedObject {
    /// A copy of this entry.
    pub fn duplicate(&self) -> (r: PackageJsonParsedObject)
        ensures
            r.package@ == self.package@,
            r.version@ == self.version@,
    {
        PackageJsonParsedObject { package: self.package.clone(), version: self.version.clone() }
    }
}

} // verus!
