use vstd::prelude::*;

verus! {

/// A person who maintains a package.
#[derive(Clone, Debug, PartialEq, Eq)]
pub struct Maintainer {
    pub name: String,
    pub email: String,
}

/// The `maintainers` field of a version record: one person or a list.
#[derive(Clone, Debug, PartialEq, Eq)]
pub enum MaintainerField {
    Single(Maintainer),
    Multiple(Vec<Maintainer>),
}

/// The `contributors` field of a version record: one person or a list.
#[derive(Clone, Debug, PartialEq, Eq)]
pub enum ContributorsField {
    Single(Author),
    Multiple(Vec<Author>),
}

/// Where a package's issues are reported. `extras` holds the record's other fields as
/// JSON text.
#[derive(Clone, Debug, PartialEq, Eq)]
pub struct Bugs {
    pub url: Option<String>,
    pub extras: String,
}

/// The `engines` field of a version record: a map from engine to range, or a list.
#[derive(Clone, Debug, PartialEq, Eq)]
pub enum EnginesField {
    Object(Vec<(String, String)>),
    Array(Vec<String>),
}

/// An author or contributor.
#[derive(Clone, Debug, PartialEq, Eq)]
pub struct Author {
    pub name: String,
    pub email: Option<String>,
    pub url: Option<String>,
}

/// The `author` field of a version record: a structured person or a free string.
#[derive(Clone, Debug, PartialEq, Eq)]
pub enum AuthorField {
    Object(Author),
    String(String),
}

/// A license given as an object.
#[derive(Clone, Debug, PartialEq, Eq)]
pub struct License {
    pub license_type: String,
    pub url: Option<String>,
}

/// The legacy `licenses` field: one license or a list.
#[derive(Clone, Debug, PartialEq, Eq)]
pub enum LicenseField {
    Single(License),
    Multiple(Vec<License>),
}

/// The named pointers of a catalog into its versions.
#[derive(Clone, Debug, PartialEq, Eq)]
pub struct DistTags {
    pub latest: Option<String>,
    pub beta: Option<String>,
    pub rc: Option<String>,
    pub experimental: Option<String>,
    pub next: Option<String>,
    pub canary: Option<String>,
}

/// The registry's record of one published version. The fields that the engine does
/// not read are kept as they came: `extras` holds every other field of the record as
/// JSON text.
#[derive(Clone, Debug, PartialEq, Eq)]
pub struct VersionsObj {
    pub name: String,
    pub version: String,
    pub author: Option<AuthorField>,
    pub maintainers: Option<MaintainerField>,
    pub contributors: Option<ContributorsField>,
    pub bugs: Option<Bugs>,
    pub engines: Option<EnginesField>,
    pub licenses: Option<Vec<License>>,
    pub license: Option<String>,
    pub npm_version: Option<String>,
    pub description: Option<String>,
    pub node_version: Option<String>,
    pub dependencies: Option<Vec<(String, String)>>,
    pub dev_dependencies: Option<Vec<(String, String)>>,
    pub engine_supported: Option<bool>,
    pub extras: String,
}

/// A package's full catalog, as the registry returns it: its tags, and its version
/// records keyed by version string in the registry's order, each key once.
#[derive(Clone, Debug, PartialEq, Eq)]
pub struct NpmPackageUnspecifiedVersion {
    pub name: String,
    pub dist_tags: DistTags,
    pub versions: Vec<(String, VersionsObj)>,
    pub extras: String,
}

impl VersionsObj {
    /// A copy of this record.
    pub fn duplicate(&self) -> (r: VersionsObj)
        ensures
            r.name@ == self.name@,
            r.version@ == self.version@,
            r.extras@ == self.extras@,
    {
        VersionsObj {
            name: self.name.clone(),
            version: self.version.clone(),
            author: self.author.clone(),
            maintainers: self.maintainers.clone(),
            contributors: self.contributors.clone(),
            bugs: self.bugs.clone(),
            engines: self.engines.clone(),
            licenses: self.licenses.clone(),
            license: self.license.clone(),
            npm_version: self.npm_version.clone(),
            description: self.description.clone(),
            node_version: self.node_version.clone(),
            dependencies: self.dependencies.clone(),
            dev_dependencies: self.dev_dependencies.clone(),
            engine_supported: self.engine_supported,
            extras: self.extras.clone(),
        }
    }
}

} // verus!
