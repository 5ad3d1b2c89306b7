use cargo_unleash::cascade::{cascade_manifest, set_version};
use cargo_unleash::clean::clean_manifest;
use cargo_unleash::editor::{deactivate_dev_dependencies, reserialize, set_field};
use cargo_unleash::rename::{apply_name_to_manifest, rename_manifest};
use cargo_unleash::toml_doc::ScalarArg;
use cargo_unleash::version::{Version, VersionMapper};
use cargo_unleash::workspace::PkgInfo;

const MANIFEST: &str = "# top comment\n[package]\nname = \"demo\"  # inline comment\nversion = \"0.1.0\"\n\n[dependencies]\nsibling = { path = \"../sibling\", version = \"0.1.0\" }\nremote = \"1.0\"\n\n[dev-dependencies]\nhelper = { path = \"../helper\" }\n";

#[test]
fn round_trip_preserves_bytes() {
    let out = reserialize(MANIFEST).expect("the manifest parses");
    assert_eq!(out, MANIFEST);
}

#[test]
fn round_trip_rejects_broken_toml() {
    assert!(reserialize("[package\nname=").is_none());
}

#[test]
fn dev_dependencies_are_dropped() {
    let out = deactivate_dev_dependencies(MANIFEST).unwrap();
    assert!(!out.contains("dev-dependencies"));
    assert!(out.contains("# top comment"));
    assert!(out.contains("sibling = { path = \"../sibling\", version = \"0.1.0\" }"));
}

#[test]
fn set_field_adds_and_overwrites() {
    let out = set_field(
        MANIFEST,
        &"package".to_owned(),
        &"repository".to_owned(),
        &ScalarArg::Str("https://example.com/demo".to_owned()),
    )
    .unwrap();
    assert!(out.contains("repository = \"https://example.com/demo\""));
    assert!(out.contains("# inline comment"));
}

#[test]
fn set_field_refuses_dependency_tables() {
    let r = set_field(
        MANIFEST,
        &"dependencies".to_owned(),
        &"x".to_owned(),
        &ScalarArg::Bool(true),
    );
    assert!(r.is_err());
}

#[test]
fn cascade_rewrites_path_requirements() {
    let updates = vec![("sibling".to_owned(), Version::new(0, 2, 0))];
    let out = cascade_manifest(MANIFEST, &updates, false).unwrap();
    assert!(out.contains("version = \"0.2.0\""));
    // the registry dependency carries no path and stays alone
    assert!(out.contains("remote = \"1.0\""));
    assert!(out.contains("# top comment"));
}

#[test]
fn cascade_leaves_matching_requirements_without_force() {
    let text = "[package]\nname = \"demo\"\nversion = \"0.1.0\"\n\n[dependencies]\nsibling = { path = \"../s\", version = \"1.0\" }\n";
    let updates = vec![("sibling".to_owned(), Version::new(1, 2, 0))];
    let out = cascade_manifest(text, &updates, false).unwrap();
    // 1.0 still admits 1.2.0, so nothing changes
    assert!(out.contains("version = \"1.0\""));
    let out = cascade_manifest(text, &updates, true).unwrap();
    assert!(out.contains("version = \"1.2.0\""));
}

#[test]
fn cascade_walks_target_tables() {
    let text = "[package]\nname = \"demo\"\nversion = \"0.1.0\"\n\n[target.\"cfg(unix)\".dependencies]\nsibling = { path = \"../s\", version = \"0.1.0\" }\n";
    let updates = vec![("sibling".to_owned(), Version::new(0, 9, 0))];
    let out = cascade_manifest(text, &updates, false).unwrap();
    assert!(out.contains("version = \"0.9.0\""));
}

#[test]
fn rename_adds_package_field() {
    let updates = vec![("sibling".to_owned(), "fresh-name".to_owned())];
    let out = rename_manifest(MANIFEST, &updates).unwrap();
    assert!(out.contains("package = \"fresh-name\""));
}

#[test]
fn rename_updates_own_manifest() {
    let out = apply_name_to_manifest(MANIFEST, &"renamed".to_owned()).unwrap();
    assert!(out.contains("name = \"renamed\""));
}

#[test]
fn clean_removes_unused_and_prunes_features() {
    let text = "[package]\nname = \"demo\"\nversion = \"0.1.0\"\n\n[dependencies]\nuseddep = { version = \"1\" }\ndeaddep = { version = \"1\" }\n\n[features]\ndefault = [\"deaddep\", \"useddep/std\"]\n";
    let files = vec!["fn main() { useddep::run(); }".to_owned()];
    let (out, count, removed) = clean_manifest(text, &files, false).unwrap();
    assert_eq!(count, 1);
    assert_eq!(removed, vec!["deaddep".to_owned()]);
    assert!(!out.contains("deaddep"));
    assert!(out.contains("useddep/std"));
}

#[test]
fn clean_check_mode_only_counts() {
    let text = "[package]\nname = \"demo\"\nversion = \"0.1.0\"\n\n[dependencies]\ndeaddep = { version = \"1\" }\n";
    let files = vec!["fn main() {}".to_owned()];
    let (out, count, _) = clean_manifest(text, &files, true).unwrap();
    assert_eq!(count, 1);
    assert_eq!(out, text);
}

#[test]
fn clean_matches_whole_identifiers() {
    let text = "[package]\nname = \"demo\"\nversion = \"0.1.0\"\n\n[dependencies]\nlog = { version = \"1\" }\n";
    let files = vec!["fn main() { let logx = 1; blog::x(); }".to_owned()];
    let (out, count, _) = clean_manifest(text, &files, false).unwrap();
    assert_eq!(count, 1);
    assert!(!out.contains("log ="));
}

#[test]
fn rename_pass_over_a_workspace() {
    let a = "[package]\nname = \"alpha\"\nversion = \"0.1.0\"\n\n[dependencies]\nbeta = { path = \"../beta\", version = \"0.1.0\" }\n".to_owned();
    let b = "[package]\nname = \"beta\"\nversion = \"0.1.0\"\n".to_owned();
    let pkgs = vec![
        PkgInfo { name: "alpha".to_owned(), version: Version::new(0, 1, 0), publish: true },
        PkgInfo { name: "beta".to_owned(), version: Version::new(0, 1, 0), publish: true },
    ];
    let outs = cargo_unleash::rename::rename(
        &vec![a, b],
        &pkgs,
        &"beta".to_owned(),
        &"gamma".to_owned(),
    )
    .unwrap();
    assert!(outs[0].contains("package = \"gamma\""));
    assert!(outs[1].contains("name = \"gamma\""));
}

#[test]
fn clean_pass_skips_unselected_packages() {
    let a = "[package]\nname = \"alpha\"\nversion = \"0.1.0\"\n\n[dependencies]\ndeadweight = { version = \"1\" }\n".to_owned();
    let b = a.clone();
    let files = vec![vec!["fn main() {}".to_owned()], vec!["fn main() {}".to_owned()]];
    let selected = vec![true, false];
    let (outs, total) = cargo_unleash::clean::clean_up_unused_dependencies(
        &vec![a.clone(), b.clone()],
        &files,
        &selected,
        false,
    )
    .unwrap();
    assert!(!outs[0].contains("deadweight"));
    assert_eq!(outs[1], b);
    assert_eq!(total, 1);
}

#[test]
fn clean_check_mode_aborts_on_findings() {
    let a = "[package]\nname = \"alpha\"\nversion = \"0.1.0\"\n\n[dependencies]\ndeadweight = { version = \"1\" }\n".to_owned();
    let files = vec![vec!["fn main() {}".to_owned()]];
    let r = cargo_unleash::clean::clean_up_unused_dependencies(&vec![a], &files, &vec![true], true);
    assert!(matches!(r, Err(cargo_unleash::errors::Error::Check(_))));
}

#[test]
fn inject_sets_replacement_paths() {
    let text = "[package]\nname = \"demo\"\nversion = \"0.1.0\"\n\n[dependencies]\nsibling = { version = \"0.1.0\" }\n";
    let replacements = vec![("sibling".to_owned(), "/tmp/unpacked/sibling-0.1.0".to_owned())];
    let out = cargo_unleash::inject::inject_replacements(text, &replacements).unwrap();
    assert!(out.contains("path = \"/tmp/unpacked/sibling-0.1.0\""));
}

#[test]
fn clean_walks_target_tables() {
    let text = "[package]\nname = \"demo\"\nversion = \"0.1.0\"\n\n[target.\"cfg(unix)\".dependencies]\ndeaddep = { version = \"1\" }\n";
    let files = vec!["fn main() {}".to_owned()];
    let (out, count, removed) = clean_manifest(text, &files, false).unwrap();
    assert_eq!(count, 1);
    assert_eq!(removed, vec!["deaddep".to_owned()]);
    assert!(!out.contains("deaddep"));
}

#[test]
fn cascade_without_relevant_updates_is_byte_identical() {
    let updates = vec![("unrelated".to_owned(), Version::new(9, 9, 9))];
    let out = cascade_manifest(MANIFEST, &updates, false).unwrap();
    assert_eq!(out, MANIFEST);
}

#[test]
fn version_pass_rejects_broken_manifests() {
    let texts = vec!["[package\nname =".to_owned()];
    let pkgs = vec![PkgInfo {
        name: "broken".to_owned(),
        version: Version::new(1, 0, 0),
        publish: true,
    }];
    let mapper = VersionMapper::Release;
    assert!(set_version(&texts, &pkgs, &vec![true], &mapper, false).is_err());
}

#[test]
fn rename_rejects_broken_manifests() {
    let texts = vec!["[package]\nname = \"alpha\"\nversion = \"1.0.0\"\n".to_owned(), "[package\n".to_owned()];
    let pkgs = vec![
        PkgInfo { name: "alpha".to_owned(), version: Version::new(1, 0, 0), publish: true },
        PkgInfo { name: "beta".to_owned(), version: Version::new(1, 0, 0), publish: true },
    ];
    let r = cargo_unleash::rename::rename(&texts, &pkgs, &"alpha".to_owned(), &"omega".to_owned());
    assert!(r.is_err());
}
