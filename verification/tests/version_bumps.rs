use cargo_unleash::cascade::set_version;
use cargo_unleash::version::{apply_mapper, version_string, Version, VersionMapper};
use cargo_unleash::workspace::PkgInfo;

fn manifest(name: &str, version: &str) -> String {
    format!(
        "[package]\nname = \"{}\"\nversion = \"{}\"\nedition = \"2018\"\n\n[dependencies]\n",
        name, version
    )
}

fn three_crates() -> (Vec<String>, Vec<PkgInfo>) {
    let texts = vec![
        manifest("crateA", "0.1.0"),
        manifest("crateB", "2.0.0"),
        manifest("crateC", "3.1.0"),
    ];
    let pkgs = vec![
        PkgInfo {
            name: "crateA".to_owned(),
            version: Version::new(0, 1, 0),
            publish: true,
        },
        PkgInfo {
            name: "crateB".to_owned(),
            version: Version::new(2, 0, 0),
            publish: true,
        },
        PkgInfo {
            name: "crateC".to_owned(),
            version: Version::new(3, 1, 0),
            publish: true,
        },
    ];
    (texts, pkgs)
}

#[test]
fn set_pre() {
    let (texts, pkgs) = three_crates();
    let selected = vec![true, true, false];
    let mapper = VersionMapper::SetPre { pre: "dev".to_owned() };
    let (outs, updates) = set_version(&texts, &pkgs, &selected, &mapper, false).unwrap();
    assert!(outs[0].contains("version = \"0.1.0-dev\""));
    assert!(outs[1].contains("version = \"2.0.0-dev\""));
    assert!(outs[2].contains("version = \"3.1.0\""));
    assert_eq!(updates.len(), 2);
}

#[test]
fn bump_to_dev() {
    let (texts, pkgs) = three_crates();
    let selected = vec![true, true, true];
    let mapper = VersionMapper::BumpToDev { pre_tag: "dev".to_owned() };
    let (outs, _) = set_version(&texts, &pkgs, &selected, &mapper, false).unwrap();
    assert!(outs[0].contains("version = \"0.2.0-dev\""));
    assert!(outs[1].contains("version = \"3.0.0-dev\""));
    assert!(outs[2].contains("version = \"4.0.0-dev\""));
}

fn ver(major: u64, minor: u64, patch: u64, pre: &str, build: &str) -> Version {
    Version { major, minor, patch, pre: pre.to_owned(), build: build.to_owned() }
}

#[test]
fn bump_breaking_on_zero_zero_patch() {
    let v = ver(0, 0, 5, "alpha", "b42");
    let nv = apply_mapper(&VersionMapper::BumpBreaking, &v).unwrap().unwrap();
    assert_eq!(version_string(&nv), "0.0.6");
}

#[test]
fn bump_breaking_levels() {
    let v = ver(1, 2, 3, "", "");
    let nv = apply_mapper(&VersionMapper::BumpBreaking, &v).unwrap().unwrap();
    assert_eq!(version_string(&nv), "2.0.0");
    let v = ver(0, 2, 3, "", "");
    let nv = apply_mapper(&VersionMapper::BumpBreaking, &v).unwrap().unwrap();
    assert_eq!(version_string(&nv), "0.3.0");
}

#[test]
fn bump_pre_variants() {
    let v = ver(1, 0, 0, "", "");
    let nv = apply_mapper(&VersionMapper::BumpPre, &v).unwrap().unwrap();
    assert_eq!(version_string(&nv), "1.0.0-1");

    let v = ver(1, 0, 0, "3", "");
    let nv = apply_mapper(&VersionMapper::BumpPre, &v).unwrap().unwrap();
    assert_eq!(version_string(&nv), "1.0.0-4");

    let v = ver(1, 0, 0, "dev.7", "");
    let nv = apply_mapper(&VersionMapper::BumpPre, &v).unwrap().unwrap();
    assert_eq!(version_string(&nv), "1.0.0-dev.8");

    let v = ver(1, 0, 0, "alpha", "");
    let nv = apply_mapper(&VersionMapper::BumpPre, &v).unwrap().unwrap();
    assert_eq!(version_string(&nv), "1.0.0-alpha.1");
}

#[test]
fn release_clears_pre_and_build() {
    let v = ver(1, 2, 3, "dev.1", "H9");
    let nv = apply_mapper(&VersionMapper::Release, &v).unwrap().unwrap();
    assert_eq!(version_string(&nv), "1.2.3");
}

#[test]
fn bump_patch_minor_major() {
    let v = ver(1, 2, 3, "dev", "");
    let nv = apply_mapper(&VersionMapper::BumpPatch, &v).unwrap().unwrap();
    assert_eq!(version_string(&nv), "1.2.4");
    let nv = apply_mapper(&VersionMapper::BumpMinor, &v).unwrap().unwrap();
    assert_eq!(version_string(&nv), "1.3.0");
    let nv = apply_mapper(&VersionMapper::BumpMajor, &v).unwrap().unwrap();
    assert_eq!(version_string(&nv), "2.0.0");
}

#[test]
fn set_pre_rejects_invalid_identifiers() {
    let v = ver(1, 0, 0, "", "");
    let mapper = VersionMapper::SetPre { pre: "not a pre".to_owned() };
    assert!(apply_mapper(&mapper, &v).is_err());
}
