use vstd::prelude::*;
use crate::order::{arranged, sort_by_name};
use crate::types::{PackageJsonParsedObject, ParsedJsonDeps};

verus! {

/// The name of the manifest file.
pub open spec fn manifest_name() -> Seq<char> {
    "package.json"@
}

/// Why no manifest was found in a directory listing.
#[derive(Clone, Copy, Debug, PartialEq, Eq, Structural)]
pub enum LookupError {
    /// The directory holds no entry at all.
    EmptyDirectory,
    /// No entry of the directory is named `package.json`.
    NoPackageJson,
}

impl LookupError {
    pub open spec fn spec_message(self) -> Seq<char> {
        match self {
            LookupError::EmptyDirectory => "Directory is empty"@,
            LookupError::NoPackageJson => "Directory does not contain package.json"@,
        }
    }

    /// A human-readable description of the error.
    pub fn message(&self) -> (r: String)
        ensures
            r@ == self.spec_message(),
    {
        match self {
            LookupError::EmptyDirectory => String::from_str("Directory is empty"),
            LookupError::NoPackageJson => String::from_str("Directory does not contain package.json"),
        }
    }
}

/// Finds the manifest among the file names of a directory listing: the position of the
/// first entry named `package.json`.
pub fn locate_package_json(names: &Vec<String>) -> (r: Result<usize, LookupError>)
    ensures
        names@.len() == 0 ==> r == Err::<usize, LookupError>(LookupError::EmptyDirectory),
        names@.len() > 0 ==> match r {
            Ok(i) => i < names@.len() && names@[i as int]@ == manifest_name() && forall|j: int|
                0 <= j < i ==> #[trigger] names@[j]@ != manifest_name(),
            Err(e) => e == LookupError::NoPackageJson && forall|j: int|
                0 <= j < names@.len() ==> #[trigger] names@[j]@ != manifest_name(),
        },
{
    if names.len() == 0 {
        return Err(LookupError::EmptyDirectory);
    }
    let target = String::from_str("package.json");
    proof {
        reveal_strlit("package.json");
    }
    let mut i: usize = 0;
    while i < names.len()
        invariant
            i <= names@.len(),
            target@ == manifest_name(),
            forall|j: int| 0 <= j < i ==> #[trigger] names@[j]@ != manifest_name(),
        decreases names@.len() - i,
    {
        if names[i] == target {
            return Ok(i);
        }
        i = i + 1;
    }
    Err(LookupError::NoPackageJson)
}

/// `s` holds the (name, specifier) pairs of `pairs` as dependency entries, in order.
pub open spec fn lists(pairs: Seq<(String, String)>, s: Seq<PackageJsonParsedObject>) -> bool {
    &&& s.len() == pairs.len()
    &&& forall|k: int|
        0 <= k < s.len() ==> (#[trigger] s[k]).package@ == pairs[k].0@ && s[k].version@ == pairs[k].1@
}

/// The dependency entries of (name, specifier) pairs, in order.
pub fn from_pairs(pairs: &Vec<(String, String)>) -> (r: Vec<PackageJsonParsedObject>)
    ensures
        lists(pairs@, r@),
{
    let mut r: Vec<PackageJsonParsedObject> = Vec::new();
    let mut k: usize = 0;
    while k < pairs.len()
        invariant
            k <= pairs@.len(),
            lists(pairs@.subrange(0, k as int), r@),
        decreases pairs@.len() - k,
    {
        r.push(PackageJsonParsedObject { package: pairs[k].0.clone(), version: pairs[k].1.clone() });
        k = k + 1;
    }
    proof {
        assert(pairs@.subrange(0, k as int) =~= pairs@);
    }
    r
}

impl ParsedJsonDeps {
    /// The dependency lists of a manifest, each sorted by name: `deps` from its
    /// `dependencies` and `dev_deps` from its `devDependencies`, each given as
    /// (name, specifier) pairs in the manifest's order.
    pub fn from_manifest(deps: &Vec<(String, String)>, dev_deps: &Vec<(String, String)>) -> (r: ParsedJsonDeps)
        ensures
            exists|b: Seq<PackageJsonParsedObject>| #[trigger] lists(deps@, b) && arranged(b, r.deps@),
            exists|b: Seq<PackageJsonParsedObject>| #[trigger] lists(dev_deps@, b) && arranged(b, r.dev_deps@),
    {
        let a = from_pairs(deps);
        let b = from_pairs(dev_deps);
        ParsedJsonDeps { deps: sort_by_name(&a), dev_deps: sort_by_name(&b) }
    }
}

} // verus!
