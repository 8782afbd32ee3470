use depfresh::error::ResolveError;
use depfresh::npm::{DistTags, NpmPackageUnspecifiedVersion, VersionsObj};
use depfresh::resolver::{resolve, select_targets, top_of_tier, Tier, TargetIndices};
use depfresh::semver::{normalize, SemanticVersion};

fn record(name: &str, version: &str) -> VersionsObj {
    VersionsObj {
        name: name.to_string(),
        version: version.to_string(),
        author: None,
        maintainers: None,
        contributors: None,
        bugs: None,
        engines: None,
        licenses: None,
        license: Some("MIT".to_string()),
        npm_version: None,
        description: None,
        node_version: None,
        dependencies: None,
        dev_dependencies: None,
        engine_supported: None,
        extras: "{}".to_string(),
    }
}

fn tags(latest: Option<&str>) -> DistTags {
    DistTags {
        latest: latest.map(|s| s.to_string()),
        beta: None,
        rc: None,
        experimental: None,
        next: None,
        canary: None,
    }
}

fn catalog(name: &str, versions: &[&str], latest: Option<&str>) -> NpmPackageUnspecifiedVersion {
    NpmPackageUnspecifiedVersion {
        name: name.to_string(),
        dist_tags: tags(latest),
        versions: versions.iter().map(|v| (v.to_string(), record(name, v))).collect(),
        extras: "{}".to_string(),
    }
}

fn version_of(m: &Option<VersionsObj>) -> Option<String> {
    m.as_ref().map(|r| r.version.clone())
}

#[test]
fn lodash_scenario() {
    let c = catalog("lodash", &["4.17.0", "4.17.21", "4.18.0", "5.0.0"], Some("5.0.0"));
    let n = normalize("^4.17.0").unwrap();
    let r = resolve(&c, n);
    assert_eq!(version_of(&r.current), Some("4.17.0".to_string()));
    assert_eq!(version_of(&r.latest_patch), Some("4.17.21".to_string()));
    assert_eq!(version_of(&r.latest_minor), Some("4.18.0".to_string()));
    assert_eq!(version_of(&r.latest_major), Some("5.0.0".to_string()));
    assert_eq!(version_of(&r.latest), Some("5.0.0".to_string()));
    assert_eq!(r.error, None);
}

#[test]
fn tiers_pick_the_highest_not_the_first() {
    let c = catalog(
        "pkg",
        &["1.2.9", "1.2.4", "1.3.0", "1.9.1", "1.4.0", "3.0.0", "2.5.0", "1.2.3"],
        Some("3.0.0"),
    );
    let r = resolve(&c, SemanticVersion::new(1, 2, 3));
    assert_eq!(version_of(&r.current), Some("1.2.3".to_string()));
    assert_eq!(version_of(&r.latest_patch), Some("1.2.9".to_string()));
    assert_eq!(version_of(&r.latest_minor), Some("1.9.1".to_string()));
    assert_eq!(version_of(&r.latest_major), Some("3.0.0".to_string()));
}

#[test]
fn tiers_are_ordered() {
    let c = catalog("pkg", &["2.0.1", "2.0.7", "2.3.0", "2.10.4", "3.1.0", "10.0.0"], None);
    let r = resolve(&c, SemanticVersion::new(2, 0, 1));
    let p = normalize(&r.latest_patch.unwrap().version).unwrap();
    let m = normalize(&r.latest_minor.unwrap().version).unwrap();
    let j = normalize(&r.latest_major.unwrap().version).unwrap();
    assert_eq!(p, SemanticVersion::new(2, 0, 7));
    assert_eq!(m, SemanticVersion::new(2, 10, 4));
    assert_eq!(j, SemanticVersion::new(10, 0, 0));
    assert!(p.is_older_than(&m));
    assert!(m.is_older_than(&j));
}

#[test]
fn resolving_twice_gives_the_same_targets() {
    let c = catalog("pkg", &["1.0.0", "1.0.5", "1.1.0", "2.0.0"], Some("2.0.0"));
    let n = normalize("~1.0.0").unwrap();
    assert_eq!(resolve(&c, n), resolve(&c, n));
}

#[test]
fn missing_current_is_no_error() {
    let c = catalog("pkg", &["1.0.5", "1.1.0", "2.0.0"], Some("2.0.0"));
    let r = resolve(&c, SemanticVersion::new(1, 0, 0));
    assert_eq!(r.current, None);
    assert_eq!(version_of(&r.latest_patch), Some("1.0.5".to_string()));
    assert_eq!(version_of(&r.latest_minor), Some("1.1.0".to_string()));
    assert_eq!(version_of(&r.latest_major), Some("2.0.0".to_string()));
    assert_eq!(r.error, None);
}

#[test]
fn nothing_newer_leaves_tiers_empty() {
    let c = catalog("pkg", &["0.9.0", "1.0.0"], Some("1.0.0"));
    let r = resolve(&c, SemanticVersion::new(1, 0, 0));
    assert_eq!(version_of(&r.current), Some("1.0.0".to_string()));
    assert_eq!(r.latest_patch, None);
    assert_eq!(r.latest_minor, None);
    assert_eq!(r.latest_major, None);
    assert_eq!(version_of(&r.latest), Some("1.0.0".to_string()));
}

#[test]
fn empty_catalog_is_an_error() {
    let c = catalog("pkg", &[], Some("1.0.0"));
    let r = resolve(&c, SemanticVersion::new(1, 0, 0));
    assert_eq!(r.error, Some(ResolveError::NoVersionsFound));
    assert_eq!(r.current, None);
    assert_eq!(r.latest, None);
    assert_eq!(r.latest_patch, None);
    assert_eq!(r.latest_minor, None);
    assert_eq!(r.latest_major, None);
}

#[test]
fn latest_tag_must_name_an_entry() {
    let c = catalog("pkg", &["1.0.0", "1.1.0"], Some("9.9.9"));
    assert_eq!(resolve(&c, SemanticVersion::new(1, 0, 0)).latest, None);
    let d = catalog("pkg", &["1.0.0", "1.1.0"], None);
    assert_eq!(resolve(&d, SemanticVersion::new(1, 0, 0)).latest, None);
}

#[test]
fn registry_version_strings_go_through_node_semver() {
    let c = catalog("pkg", &["v1.0.0", "not-a-version", "1.0.3-rc.1", "1.0.2"], None);
    let r = resolve(&c, SemanticVersion::new(1, 0, 0));
    assert_eq!(version_of(&r.current), Some("v1.0.0".to_string()));
    assert_eq!(version_of(&r.latest_patch), Some("1.0.3-rc.1".to_string()));
}

#[test]
fn equal_versions_keep_the_first_entry() {
    let c = catalog("pkg", &["1.0.0", "2.0.0", "v2.0.0"], None);
    let r = resolve(&c, SemanticVersion::new(1, 0, 0));
    assert_eq!(version_of(&r.latest_major), Some("2.0.0".to_string()));
}

#[test]
fn select_on_parsed_catalog() {
    let p = vec![
        Some(SemanticVersion::new(4, 17, 0)),
        None,
        Some(SemanticVersion::new(4, 17, 21)),
        Some(SemanticVersion::new(4, 18, 0)),
        Some(SemanticVersion::new(5, 0, 0)),
    ];
    let t = select_targets(&p, Some(4), SemanticVersion::new(4, 17, 0));
    assert_eq!(
        t,
        TargetIndices {
            current: Some(0),
            latest: Some(4),
            latest_patch: Some(2),
            latest_minor: Some(3),
            latest_major: Some(4),
        }
    );
    assert_eq!(top_of_tier(&p, Tier::Major, SemanticVersion::new(5, 0, 0)), None);
    assert!(Tier::Minor.contains(&SemanticVersion::new(4, 18, 0), &SemanticVersion::new(4, 17, 9)));
    assert!(!Tier::Patch.contains(&SemanticVersion::new(4, 18, 0), &SemanticVersion::new(4, 17, 9)));
}
