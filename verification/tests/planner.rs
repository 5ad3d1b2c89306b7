use cargo_unleash::errors::Error;
use cargo_unleash::planner::{packages_to_release, release_graph_dot};
use cargo_unleash::version::Version;
use cargo_unleash::workspace::PkgInfo;

fn pkg(name: &str, major: u64, minor: u64, patch: u64) -> PkgInfo {
    PkgInfo { name: name.to_owned(), version: Version::new(major, minor, patch), publish: true }
}

fn deps_of(names: &[&str]) -> Vec<String> {
    names.iter().map(|n| (*n).to_owned()).collect()
}

#[test]
fn diamond() {
    let pkgs = vec![
        pkg("top", 0, 1, 2),
        pkg("dx", 1, 11, 111),
        pkg("dy", 15, 100, 0),
        pkg("closing", 1, 6, 9),
    ];
    let selected = vec![true, true, true, true];
    let published = vec![false, false, false, false];
    let deps = vec![
        deps_of(&["dx", "dy"]),
        deps_of(&["closing"]),
        deps_of(&["closing"]),
        deps_of(&[]),
    ];
    let plan = packages_to_release(&pkgs, &selected, &published, &deps)
        .expect("a diamond shaped, directed dependency graph has no cycles");
    // release order: the leaf first; siblings on the same level come
    // in reverse order of their appearance in the member list
    let names: Vec<&str> = plan.iter().map(|i| pkgs[*i].name.as_str()).collect();
    assert_eq!(names, vec!["closing", "dy", "dx", "top"]);
}

#[test]
fn circular() {
    let pkgs = vec![pkg("a", 3, 0, 0), pkg("b", 2, 0, 0), pkg("c", 1, 0, 0)];
    let selected = vec![true, true, true];
    let published = vec![false, false, false];
    let deps = vec![deps_of(&["b"]), deps_of(&["c"]), deps_of(&["a"])];
    let err = packages_to_release(&pkgs, &selected, &published, &deps).unwrap_err();
    match err {
        Error::Plan(cycles) => {
            assert_eq!(cycles.len(), 1);
            assert_eq!(cycles[0].len(), 3);
            assert_eq!(cycles[0], vec!["a".to_owned(), "b".to_owned(), "c".to_owned()]);
        },
        other => panic!("expected a plan error, got {:?}", other),
    }
}

#[test]
fn already_published_packages_leave_the_plan() {
    let pkgs = vec![pkg("a", 1, 0, 0), pkg("b", 1, 0, 0)];
    let selected = vec![true, true];
    let published = vec![false, true];
    let deps = vec![deps_of(&["b"]), deps_of(&[])];
    let plan = packages_to_release(&pkgs, &selected, &published, &deps).unwrap();
    let names: Vec<&str> = plan.iter().map(|i| pkgs[*i].name.as_str()).collect();
    assert_eq!(names, vec!["a"]);
}

#[test]
fn unselected_packages_leave_the_plan() {
    let pkgs = vec![pkg("a", 1, 0, 0), pkg("b", 1, 0, 0), pkg("c", 1, 0, 0)];
    let selected = vec![true, false, true];
    let published = vec![false, false, false];
    let deps = vec![deps_of(&[]), deps_of(&[]), deps_of(&["a"])];
    let plan = packages_to_release(&pkgs, &selected, &published, &deps).unwrap();
    let names: Vec<&str> = plan.iter().map(|i| pkgs[*i].name.as_str()).collect();
    assert_eq!(names.len(), 2);
    assert!(names.contains(&"a") && names.contains(&"c"));
    let pos_a = names.iter().position(|n| *n == "a").unwrap();
    let pos_c = names.iter().position(|n| *n == "c").unwrap();
    assert!(pos_a < pos_c);
}

#[test]
fn dot_export_marks_cycles_red() {
    let pkgs = vec![pkg("a", 3, 0, 0), pkg("b", 2, 0, 0), pkg("c", 1, 0, 0)];
    let selected = vec![true, true, true];
    let published = vec![false, false, false];
    let deps = vec![deps_of(&["b"]), deps_of(&["c"]), deps_of(&["a"])];
    let dot = release_graph_dot(&pkgs, &selected, &published, &deps).unwrap();
    assert!(dot.starts_with("digraph {\n"));
    assert!(dot.contains("0 [ label=\"a:3.0.0\" color=red ]"));
    assert!(dot.contains("1 [ label=\"b:2.0.0\" color=red ]"));
    assert!(dot.contains("2 [ label=\"c:1.0.0\" color=red ]"));
    assert!(dot.contains("0 -> 1 [ color=red ]"));
}

#[test]
fn dot_export_leaves_acyclic_nodes_plain() {
    let pkgs = vec![pkg("a", 1, 0, 0), pkg("b", 1, 0, 0)];
    let selected = vec![true, true];
    let published = vec![false, false];
    let deps = vec![deps_of(&["b"]), deps_of(&[])];
    let dot = release_graph_dot(&pkgs, &selected, &published, &deps).unwrap();
    assert!(dot.contains("0 [ label=\"a:1.0.0\" ]"));
    assert!(dot.contains("1 [ label=\"b:1.0.0\" ]"));
    assert!(dot.contains("0 -> 1\n"));
    assert!(!dot.contains("color=red"));
}
