use cw_optimizoor::paths::{split_file_name, ArtifactPath};

fn path(components: &[&str]) -> ArtifactPath {
    ArtifactPath::new(components.iter().map(|c| c.to_string()).collect())
}

#[test]
fn displays_relative_and_absolute_paths() {
    assert_eq!("some/output/dir", path(&["some", "output", "dir"]).display());
    assert_eq!("/a/b", path(&["/", "a", "b"]).display());
    assert_eq!("/", path(&["/"]).display());
    assert_eq!("", path(&[]).display());
}

#[test]
fn finds_file_names() {
    assert_eq!(Some("x.wasm".to_string()), path(&["a", "x.wasm"]).file_name());
    assert_eq!(None, path(&[]).file_name());
    assert_eq!(None, path(&["/"]).file_name());
    assert_eq!(None, path(&["a", ".."]).file_name());
    assert_eq!(None, path(&["."]).file_name());
}

#[test]
fn splits_file_names_at_the_last_dot() {
    let split = |s: &str| split_file_name(&s.to_string());
    assert_eq!(("artifact".to_string(), Some("wasm".to_string())), split("artifact.wasm"));
    assert_eq!(("a.b".to_string(), Some("c".to_string())), split("a.b.c"));
    assert_eq!(("noext".to_string(), None), split("noext"));
    assert_eq!((".profile".to_string(), None), split(".profile"));
    assert_eq!(("a".to_string(), Some("".to_string())), split("a."));
    assert_eq!(("..".to_string(), None), split(".."));
}

#[test]
fn joins_and_compares_paths() {
    let dir = path(&["/", "ws"]);
    let joined = dir.join("contracts".to_string());
    assert_eq!("/ws/contracts", joined.display());
    assert!(joined.starts_with(&dir));
    assert!(!dir.starts_with(&joined));
    assert!(joined.ends_with("contracts"));
    assert!(!joined.ends_with("ws"));
    assert_eq!(3, joined.len());
}
