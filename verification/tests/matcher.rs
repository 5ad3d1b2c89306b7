use cargo_unleash::matcher::{parse, Package};
use cargo_unleash::semver_io::parse_version;
use cargo_unleash::version::Version;

fn pkg(name: &str, version: &str) -> Package {
    let v: Version = parse_version(version).unwrap();
    Package::new(name.to_owned(), v)
}

#[test]
fn simple_parse_test() -> Result<(), String> {
    let p = pkg("pallet-aura", "1.0.0");
    assert!(parse("version=1.0.0")?.matches(&p));
    assert!(parse("name^=pallet-")?.matches(&p));
    assert!(parse("name==pallet-aura")?.matches(&p));
    assert!(parse("name=pallet-aura")?.matches(&p));
    assert!(parse("name!=frame-aura")?.matches(&p));
    assert!(parse("name$=-aura")?.matches(&p));

    Ok(())
}

#[test]
fn group_test() -> Result<(), String> {
    let p = pkg("pallet-aura", "1.0.0");
    assert!(parse("(version=1.0.0 && name^=pallet-) || name==pallet-aura")?.matches(&p));
    assert!(parse("name=pallet-aura")?.matches(&p));
    assert!(parse("name!=frame-aura")?.matches(&p));
    assert!(parse("name$=-aura")?.matches(&p));

    Ok(())
}

#[test]
fn version_test() -> Result<(), String> {
    let p = pkg("pallet-aura", "1.0.0-dev.1+H1638");
    assert!(parse("version.pre=dev.1")?.matches(&p));
    assert!(parse("version.major=1")?.matches(&p));
    assert!(parse("version.minor=0")?.matches(&p));
    assert!(parse("version.patch=0")?.matches(&p));
    assert!(parse("version.build=H1638")?.matches(&p));
    assert!(parse("(version.major=1 && version.minor=0)")?.matches(&p));
    assert!(parse("(version.major=1 && version.minor=0 && version.patch=0)")?.matches(&p));
    assert!(parse("version=1.0.0-dev.1+H1638")?.matches(&p));

    assert!(!parse("version.pre=dev.2")?.matches(&p));
    assert!(!parse("version.major=0")?.matches(&p));
    assert!(!parse("version.minor=1")?.matches(&p));
    assert!(!parse("version.patch=1")?.matches(&p));
    assert!(!parse("version.build=H2638")?.matches(&p));
    assert!(!parse("(version.major=1 && version.minor=1)")?.matches(&p));
    assert!(!parse("(version.major=1 && version.minor=0 && version.patch=1)")?.matches(&p));
    assert!(!parse("version=1.0.0-dev.2+H2638")?.matches(&p));
    Ok(())
}

#[test]
fn negated_version() -> Result<(), String> {
    let p = pkg("pallet-aura", "2.1.1-alpha.1");
    assert!(parse("version.pre!=dev.1")?.matches(&p));
    assert!(parse("version.major!=1")?.matches(&p));
    assert!(parse("version.minor!=0")?.matches(&p));
    assert!(parse("version.patch!=0")?.matches(&p));
    assert!(parse("version.build!=H1638")?.matches(&p));
    assert!(parse("(version.major=2 && version.minor!=0)")?.matches(&p));
    assert!(parse("(version.major=2 && version.minor=1 && version.patch!=0)")?.matches(&p));
    assert!(parse("version!=1.0.0-dev.1+H1638")?.matches(&p));
    Ok(())
}

#[test]
fn comparing_pre() -> Result<(), String> {
    let p = pkg("pallet-aura", "2.1.1-alpha.1");
    assert!(parse("version.pre^=alpha")?.matches(&p));
    assert!(parse("version.pre$=pha.1")?.matches(&p));
    Ok(())
}

#[test]
fn comparing_build() -> Result<(), String> {
    let p = pkg("pallet-aura", "2.1.1-alpha.1+H2918");
    assert!(parse("version.build^=H29")?.matches(&p));
    assert!(parse("version.build$=918")?.matches(&p));
    Ok(())
}
