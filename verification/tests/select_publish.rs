use cargo_unleash::checks::{check_dependencies, check_metadata, preflight, DepSource,
    PackageMetadata};
use cargo_unleash::errors::Error;
use cargo_unleash::publish::{delay_before, owner_add_outcome, publish_delay, resolve_token,
    OwnerOutcome, VecWrite};
use cargo_unleash::selection::{changed_packages, select_package, validate_options,
    PackageSelectOptions};
use cargo_unleash::version::Version;
use cargo_unleash::workspace::{members_deep, PkgInfo};

fn opts() -> PackageSelectOptions {
    PackageSelectOptions {
        packages: Vec::new(),
        skip: Vec::new(),
        ignore_pre_version: Vec::new(),
        ignore_publish: false,
        changed: None,
        include_pre_deps: false,
    }
}

fn pkg(name: &str, version: Version, publish: bool) -> PkgInfo {
    PkgInfo { name: name.to_owned(), version, publish }
}

fn pre_version(pre: &str) -> Version {
    Version { major: 0, minor: 1, patch: 0, pre: pre.to_owned(), build: String::new() }
}

#[test]
fn package_list_excludes_skip() {
    let mut o = opts();
    o.packages.push("a".to_owned());
    o.skip.push("^b".to_owned());
    assert!(matches!(validate_options(&o), Err(Error::Configuration(_))));
}

#[test]
fn changed_excludes_pre_filter() {
    let mut o = opts();
    o.changed = Some(vec!["a".to_owned()]);
    o.ignore_pre_version.push("dev".to_owned());
    assert!(matches!(validate_options(&o), Err(Error::Configuration(_))));
}

#[test]
fn publish_flag_rules() {
    let o = opts();
    let restricted = pkg("a", Version::new(1, 0, 0), false);
    assert_eq!(select_package(&o, &restricted).unwrap(), false);
    let mut o2 = opts();
    o2.ignore_publish = true;
    assert_eq!(select_package(&o2, &restricted).unwrap(), true);
}

#[test]
fn skip_patterns_reject_matches() {
    let mut o = opts();
    o.skip.push("^pallet-".to_owned());
    let hit = pkg("pallet-aura", Version::new(1, 0, 0), true);
    let miss = pkg("frame-system", Version::new(1, 0, 0), true);
    assert_eq!(select_package(&o, &hit).unwrap(), false);
    assert_eq!(select_package(&o, &miss).unwrap(), true);
}

#[test]
fn invalid_skip_pattern_is_an_error() {
    let mut o = opts();
    o.skip.push("(".to_owned());
    let p = pkg("a", Version::new(1, 0, 0), true);
    assert!(matches!(select_package(&o, &p), Err(Error::Parse(_))));
}

#[test]
fn pre_release_filter_rejects_listed_identifiers() {
    let mut o = opts();
    o.ignore_pre_version.push("dev".to_owned());
    let dev = pkg("a", pre_version("dev"), true);
    let alpha = pkg("b", pre_version("alpha"), true);
    assert_eq!(select_package(&o, &dev).unwrap(), false);
    assert_eq!(select_package(&o, &alpha).unwrap(), true);
}

#[test]
fn include_pre_deps_widens_the_list() {
    let mut o = opts();
    o.packages.push("a".to_owned());
    o.include_pre_deps = true;
    let listed = pkg("a", Version::new(1, 0, 0), true);
    let pre = pkg("b", pre_version("alpha.1"), true);
    let plain = pkg("c", Version::new(1, 0, 0), true);
    assert_eq!(select_package(&o, &listed).unwrap(), true);
    assert_eq!(select_package(&o, &pre).unwrap(), true);
    assert_eq!(select_package(&o, &plain).unwrap(), false);
}

#[test]
fn changed_set_selects_members() {
    let mut o = opts();
    o.changed = Some(vec!["a".to_owned()]);
    let touched = pkg("a", Version::new(1, 0, 0), true);
    let untouched = pkg("b", Version::new(1, 0, 0), true);
    assert_eq!(select_package(&o, &touched).unwrap(), true);
    assert_eq!(select_package(&o, &untouched).unwrap(), false);
}

#[test]
fn changed_packages_maps_files_to_roots() {
    let roots = vec!["/ws/a".to_owned(), "/ws/ab".to_owned(), "/ws/c".to_owned()];
    let files = vec!["/ws/ab/src/lib.rs".to_owned(), "/ws/c".to_owned()];
    let hit = changed_packages(&roots, &files);
    // "/ws/ab/…" is inside "/ws/ab" but not inside "/ws/a"
    assert_eq!(hit, vec![false, true, true]);
}

#[test]
fn members_deep_appends_unknown_siblings() {
    let members = vec![pkg("a", Version::new(1, 0, 0), true)];
    let siblings = vec![pkg("a", Version::new(1, 0, 0), true), pkg("b", Version::new(2, 0, 0), true)];
    let all = members_deep(members, siblings);
    let names: Vec<&str> = all.iter().map(|p| p.name.as_str()).collect();
    assert_eq!(names, vec!["a", "b"]);
}

#[test]
fn metadata_findings() {
    let good = PackageMetadata {
        description: Some("a demo".to_owned()),
        repository: Some("https://example.com".to_owned()),
        license: Some("MIT".to_owned()),
        license_file: None,
        keywords: vec!["one".to_owned()],
    };
    assert!(check_metadata(&good).is_empty());

    let mut missing_desc = good;
    missing_desc.description = None;
    let findings = check_metadata(&missing_desc);
    assert_eq!(findings.len(), 1);
    assert!(findings[0].contains("description"));
}

#[test]
fn metadata_license_rules() {
    let both = PackageMetadata {
        description: Some("d".to_owned()),
        repository: Some("r".to_owned()),
        license: Some("MIT".to_owned()),
        license_file: Some("LICENSE".to_owned()),
        keywords: Vec::new(),
    };
    assert_eq!(check_metadata(&both).len(), 1);
    let neither = PackageMetadata { license: None, license_file: None, ..both };
    assert_eq!(check_metadata(&neither).len(), 1);
}

#[test]
fn metadata_keyword_limit() {
    let m = PackageMetadata {
        description: Some("d".to_owned()),
        repository: Some("r".to_owned()),
        license: Some("MIT".to_owned()),
        license_file: None,
        keywords: vec!["a".to_owned(); 6],
    };
    let findings = check_metadata(&m);
    assert_eq!(findings.len(), 1);
    assert!(findings[0].contains("keywords"));
}

#[test]
fn git_dependencies_need_versions() {
    let sources = vec![
        DepSource { name: "fine".to_owned(), from_git: true, unconstrained: false },
        DepSource { name: "loose".to_owned(), from_git: true, unconstrained: true },
    ];
    let findings = check_dependencies(&sources);
    assert_eq!(findings.len(), 1);
    assert!(findings[0].contains("loose"));
}

#[test]
fn preflight_aggregates_across_packages() {
    let ok_meta = PackageMetadata {
        description: Some("d".to_owned()),
        repository: Some("r".to_owned()),
        license: Some("MIT".to_owned()),
        license_file: None,
        keywords: Vec::new(),
    };
    let bad_meta = PackageMetadata {
        description: None,
        repository: Some("r".to_owned()),
        license: Some("MIT".to_owned()),
        license_file: None,
        keywords: Vec::new(),
    };
    let deps = vec![
        Vec::new(),
        vec![DepSource { name: "loose".to_owned(), from_git: true, unconstrained: true }],
    ];
    match preflight(&vec![ok_meta, bad_meta], &deps) {
        Err(Error::Check(findings)) => assert_eq!(findings.len(), 2),
        other => panic!("expected aggregated findings, got {:?}", other),
    }
}

#[test]
fn pacing_thresholds() {
    assert_eq!(publish_delay(29), 0);
    assert_eq!(publish_delay(30), 21);
    assert_eq!(delay_before(0, 40), 0);
    assert_eq!(delay_before(1, 40), 21);
    assert_eq!(delay_before(5, 29), 0);
}

#[test]
fn owner_addition_is_idempotent() {
    assert_eq!(owner_add_outcome(None).unwrap(), OwnerOutcome::Added);
    let already = "someone is already an owner".to_owned();
    assert_eq!(owner_add_outcome(Some(&already)).unwrap(), OwnerOutcome::AlreadyOwner);
    let failure = "the registry said no".to_owned();
    assert!(owner_add_outcome(Some(&failure)).is_err());
}

#[test]
fn token_resolution_order() {
    let cli = Some("from-cli".to_owned());
    let env = Some("from-env".to_owned());
    let file = Some("from-file".to_owned());
    assert_eq!(resolve_token(cli.clone(), env.clone(), file.clone()), cli);
    assert_eq!(resolve_token(None, env.clone(), file.clone()), env);
    assert_eq!(resolve_token(None, None, file.clone()), file);
    assert_eq!(resolve_token(None, None, None), None);
}

#[test]
fn byte_sink_accumulates() {
    let mut w = VecWrite::new();
    w.write(&vec![1u8, 2]);
    w.write(&vec![3u8]);
    assert_eq!(w.read(), &vec![1u8, 2, 3]);
}
