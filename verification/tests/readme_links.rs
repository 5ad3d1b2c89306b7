use cargo_unleash::readme::{check_pkg_readme, compose_readme, make_relative_doc_link,
    make_sibling_doc_link, readme_matches, CheckReadmeResult, GenerateReadmeMode};

#[test]
fn test_make_relative_doc_link() {
    let doc_uri = make_relative_doc_link("`Call`", "enum.Call.html", "pallet-staking", None);
    assert_eq!(
        doc_uri,
        "[`Call`](https://docs.rs/pallet-staking/latest/pallet_staking/enum.Call.html)"
            .to_owned()
    )
}

#[test]
fn test_make_relative_doc_link_with_doc_uri() {
    let doc_uri = make_relative_doc_link(
        "`Call`",
        "enum.Call.html",
        "pallet-timestamp",
        Some("https://docs.rs/pallet-timestamp"),
    );
    assert_eq!(
        doc_uri,
        "[`Call`](https://docs.rs/pallet-timestamp/latest/pallet_timestamp/enum.Call.html)"
            .to_owned()
    )
}

#[test]
fn test_make_sibling_doc_link() {
    let doc_uri = make_sibling_doc_link("Balances", "pallet_balances/index.html", None);
    assert_eq!(
        doc_uri,
        "[Balances](https://docs.rs/pallet-balances/latest/pallet_balances/)".to_owned()
    )
}

#[test]
fn readme_hash_comparison() {
    assert!(readme_matches("# Title\nbody\n", "# Title\nbody\n"));
    assert!(!readme_matches("# Title\nbody\n", "# Title\nother\n"));
}

#[test]
fn readme_check_results() {
    let generated = "# Gen\n".to_owned();
    assert_eq!(check_pkg_readme(None, &generated), CheckReadmeResult::Missing);
    let same = "# Gen\n".to_owned();
    assert_eq!(check_pkg_readme(Some(&same), &generated), CheckReadmeResult::UpToDate);
    let stale = "# Old\n".to_owned();
    assert_eq!(check_pkg_readme(Some(&stale), &generated), CheckReadmeResult::UpdateNeeded);
}

#[test]
fn readme_compose_modes() {
    let existing = "old".to_owned();
    let generated = "new".to_owned();
    assert_eq!(compose_readme(&GenerateReadmeMode::IfMissing, Some(&existing), &generated), None);
    assert_eq!(
        compose_readme(&GenerateReadmeMode::IfMissing, None, &generated),
        Some("new".to_owned())
    );
    assert_eq!(
        compose_readme(&GenerateReadmeMode::Append, Some(&existing), &generated),
        Some("old\nnew".to_owned())
    );
    assert_eq!(
        compose_readme(&GenerateReadmeMode::Overwrite, Some(&existing), &generated),
        Some("new".to_owned())
    );
}
