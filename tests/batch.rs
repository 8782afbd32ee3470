use depfresh::batch::{targets_for, Batch};
use depfresh::error::ResolveError;
use depfresh::manifest::{from_pairs, locate_package_json, LookupError};
use depfresh::npm::{DistTags, NpmPackageUnspecifiedVersion, VersionsObj};
use depfresh::order::{sort_by_name, sorted_order};
use depfresh::semver::SemanticVersion;
use depfresh::types::{PackageJsonParsedObject, PackageVersionInfo, ParsedJsonDeps};

fn dep(name: &str, spec: &str) -> PackageJsonParsedObject {
    PackageJsonParsedObject { package: name.to_string(), version: spec.to_string() }
}

fn record(name: &str, version: &str) -> VersionsObj {
    VersionsObj {
        name: name.to_string(),
        version: version.to_string(),
        author: None,
        maintainers: None,
        contributors: None,
        bugs: None,
        engines: None,
        licenses: None,
        license: None,
        npm_version: None,
        description: None,
        node_version: None,
        dependencies: None,
        dev_dependencies: None,
        engine_supported: None,
        extras: "{}".to_string(),
    }
}

fn catalog(name: &str, versions: &[&str], latest: &str) -> NpmPackageUnspecifiedVersion {
    NpmPackageUnspecifiedVersion {
        name: name.to_string(),
        dist_tags: DistTags {
            latest: Some(latest.to_string()),
            beta: None,
            rc: None,
            experimental: None,
            next: None,
            canary: None,
        },
        versions: versions.iter().map(|v| (v.to_string(), record(name, v))).collect(),
        extras: "{}".to_string(),
    }
}

/// Registry stand-in: a package that is known, or none.
fn registry(name: &str) -> Result<NpmPackageUnspecifiedVersion, ResolveError> {
    match name {
        "alpha" => Ok(catalog("alpha", &["1.0.0", "1.0.4", "1.2.0"], "1.2.0")),
        "beta" => Ok(catalog("beta", &["2.0.0", "3.1.0"], "3.1.0")),
        "gamma" => Ok(catalog("gamma", &["0.1.0", "0.1.1"], "0.1.1")),
        _ => Err(ResolveError::PackageNotFound),
    }
}

/// Runs a batch to its end, completing fetches in reverse order of issue, and counts
/// the fetches.
fn drive(batch: &mut Batch) -> usize {
    let mut fetches = 0;
    loop {
        let mut issued = Vec::new();
        while let Some(slot) = batch.next_fetch() {
            issued.push(slot);
        }
        assert!(batch.in_flight <= batch.bound);
        if issued.is_empty() {
            break;
        }
        for slot in issued.into_iter().rev() {
            fetches += 1;
            let name = batch.entries[slot].package.clone();
            batch.complete(slot, registry(&name));
        }
    }
    fetches
}

fn latest_of(t: &PackageVersionInfo) -> Option<String> {
    t.latest.as_ref().map(|m| m.version.clone())
}

#[test]
fn bad_specifier_is_isolated() {
    let deps = vec![dep("gamma", "^0.1.0"), dep("alpha", "not a version"), dep("beta", "~2.0.0")];
    let mut batch = Batch::new(&deps, &Vec::new(), 2);
    let fetches = drive(&mut batch);
    assert_eq!(fetches, 2);
    assert!(batch.is_finished());
    let report = batch.into_report();
    assert_eq!(report.deps.len(), 3);
    assert_eq!(report.dev_deps.len(), 0);
    let names: Vec<&str> = report.deps.iter().map(|(d, _)| d.package.as_str()).collect();
    assert_eq!(names, vec!["alpha", "beta", "gamma"]);
    assert_eq!(report.deps[0].1, PackageVersionInfo::failed(ResolveError::BadVersionSpecifier));
    assert_eq!(report.deps[1].1.error, None);
    assert_eq!(latest_of(&report.deps[1].1), Some("3.1.0".to_string()));
    assert_eq!(report.deps[1].1.current.as_ref().map(|m| m.version.clone()), Some("2.0.0".to_string()));
    assert_eq!(report.deps[2].1.error, None);
    assert_eq!(
        report.deps[2].1.latest_patch.as_ref().map(|m| m.version.clone()),
        Some("0.1.1".to_string())
    );
}

#[test]
fn empty_manifest_fetches_nothing() {
    let mut batch = Batch::new(&Vec::new(), &Vec::new(), 8);
    assert_eq!(batch.next_fetch(), None);
    assert!(batch.is_finished());
    let report = batch.into_report();
    assert!(report.deps.is_empty());
    assert!(report.dev_deps.is_empty());
}

#[test]
fn unknown_package_is_isolated() {
    let deps = vec![dep("alpha", "1.0.0"), dep("no-such-package", "^1.0.0")];
    let dev = vec![dep("beta", "2.0.0")];
    let mut batch = Batch::new(&deps, &dev, 8);
    assert_eq!(drive(&mut batch), 3);
    let report = batch.into_report();
    assert_eq!(report.deps.len(), 2);
    assert_eq!(report.deps[0].0.package, "alpha");
    assert_eq!(report.deps[0].1.error, None);
    assert_eq!(
        report.deps[0].1.latest_patch.as_ref().map(|m| m.version.clone()),
        Some("1.0.4".to_string())
    );
    assert_eq!(report.deps[1].0.package, "no-such-package");
    assert_eq!(report.deps[1].1, PackageVersionInfo::failed(ResolveError::PackageNotFound));
    assert_eq!(report.dev_deps.len(), 1);
    assert_eq!(report.dev_deps[0].0.package, "beta");
    assert_eq!(latest_of(&report.dev_deps[0].1), Some("3.1.0".to_string()));
}

#[test]
fn fetches_never_exceed_the_bound() {
    let deps = vec![dep("gamma", "0.1.0"), dep("beta", "2.0.0"), dep("alpha", "1.0.0")];
    let mut batch = Batch::new(&deps, &Vec::new(), 1);
    let first = batch.next_fetch();
    assert_eq!(first, Some(0));
    assert_eq!(batch.next_fetch(), None);
    batch.complete(0, registry("alpha"));
    assert_eq!(batch.next_fetch(), Some(1));
    assert!(!batch.is_finished());
    batch.complete(1, Err(ResolveError::RegistryUnreachable));
    assert_eq!(batch.next_fetch(), Some(2));
    batch.complete(2, Err(ResolveError::MalformedRegistryResponse));
    assert_eq!(batch.next_fetch(), None);
    assert!(batch.is_finished());
    let report = batch.into_report();
    assert_eq!(report.deps[1].1.error, Some(ResolveError::RegistryUnreachable));
    assert_eq!(report.deps[2].1.error, Some(ResolveError::MalformedRegistryResponse));
}

#[test]
fn targets_from_fetch_outcome() {
    let v = SemanticVersion::new(1, 0, 0);
    assert_eq!(
        targets_for(v, Err(ResolveError::PackageNotFound)),
        PackageVersionInfo::failed(ResolveError::PackageNotFound)
    );
    let t = targets_for(v, registry("alpha"));
    assert_eq!(t.latest_minor.map(|m| m.version), Some("1.2.0".to_string()));
}

#[test]
fn sort_is_stable_and_bytewise() {
    let deps = vec![
        dep("react", "1"),
        dep("Zod", "2"),
        dep("axios", "3"),
        dep("react", "4"),
        dep("@types/node", "5"),
    ];
    assert_eq!(sorted_order(&deps), vec![4, 1, 2, 0, 3]);
    let sorted = sort_by_name(&deps);
    let specs: Vec<&str> = sorted.iter().map(|d| d.version.as_str()).collect();
    assert_eq!(specs, vec!["5", "2", "3", "1", "4"]);
}

#[test]
fn manifest_lists_are_sorted() {
    let deps = vec![
        ("vite".to_string(), "^5.0.0".to_string()),
        ("axios".to_string(), "^1.6.0".to_string()),
    ];
    let parsed = ParsedJsonDeps::from_manifest(&deps, &Vec::new());
    assert_eq!(parsed.deps, vec![dep("axios", "^1.6.0"), dep("vite", "^5.0.0")]);
    assert!(parsed.dev_deps.is_empty());
    assert_eq!(from_pairs(&deps), vec![dep("vite", "^5.0.0"), dep("axios", "^1.6.0")]);
}

#[test]
fn manifest_lookup() {
    assert_eq!(locate_package_json(&Vec::new()), Err(LookupError::EmptyDirectory));
    let names = vec!["src".to_string(), "README.md".to_string()];
    assert_eq!(locate_package_json(&names), Err(LookupError::NoPackageJson));
    let names = vec!["src".to_string(), "package.json".to_string(), "package.json".to_string()];
    assert_eq!(locate_package_json(&names), Ok(1));
    assert_eq!(LookupError::NoPackageJson.message(), "Directory does not contain package.json");
}
