use parch_kernel::error::ErrorNum;
use parch_kernel::fs::vfs::Path;

fn comps(p: &Path) -> Vec<&str> {
    p.components.iter().map(|s| s.as_str()).collect()
}

#[test]
fn new_splits_on_slashes() {
    let p = Path::new("/usr/bin/ls").unwrap();
    assert_eq!(comps(&p), vec!["usr", "bin", "ls"]);
    let q = Path::new("a/b/").unwrap();
    assert_eq!(comps(&q), vec!["a", "b"]);
    assert!(Path::new("/").unwrap().is_root());
    assert_eq!(Path::new("").unwrap().components, vec![String::new()]);
}

#[test]
fn new_refuses_empty_components() {
    assert!(matches!(Path::new("a//b"), Err(ErrorNum::ENOENT)));
    assert!(matches!(Path::new("///"), Err(ErrorNum::ENOENT)));
    // two slashes leave one empty component, which is allowed alone
    assert_eq!(Path::new("//").unwrap().components, vec![String::new()]);
}

#[test]
fn append_refuses_slash() {
    let p = Path::new("/a").unwrap();
    assert!(matches!(p.append("b/c".to_string()), Err(ErrorNum::ENOENT)));
    let q = p.append("b".to_string()).unwrap();
    assert_eq!(comps(&q), vec!["a", "b"]);
    assert_eq!(q.len(), 2);
}

#[test]
fn prefixes_heads_and_tails() {
    let p = Path::new("/a/b/c").unwrap();
    let pre = Path::new("/a/b").unwrap();
    assert!(p.starts_with(&pre));
    assert!(p.starts_with(&Path::root()));
    assert!(!pre.starts_with(&p));
    assert!(!p.starts_with(&Path::new("/a/x").unwrap()));
    assert_eq!(comps(&p.without_prefix(&pre)), vec!["c"]);
    assert_eq!(comps(&p.strip_head()), vec!["b", "c"]);
    assert_eq!(comps(&p.strip_tail()), vec!["a", "b"]);
    assert_eq!(p.last(), "c");
    assert_eq!(comps(&pre.concat(&Path::new("x/y").unwrap())), vec!["a", "b", "x", "y"]);
}

#[test]
fn reduce_drops_dots() {
    let mut p = Path::new("a/./b/../c").unwrap();
    p.reduce();
    assert_eq!(comps(&p), vec!["a", "c"]);
    let mut q = Path::new("../x").unwrap();
    q.reduce();
    assert_eq!(comps(&q), vec!["..", "x"]);
}

#[test]
fn text_of_a_path() {
    assert_eq!(Path::new("/a/b").unwrap().to_text(), "/a/b");
    assert_eq!(Path::root().to_text(), "/");
    // a component equal to the last one is not followed by a slash
    assert_eq!(Path::new("/a/b/a").unwrap().to_text(), "/ab/a");
}

#[test]
fn reduce_twice_changes_nothing() {
    for text in ["/a/./b/../c", "/../x/./..", "/../../y", "/./.", "/a/b/c/../../.."] {
        let mut p = Path::new(text).unwrap();
        p.reduce();
        let once = p.components.clone();
        assert!(once.iter().all(|c| c != "."));
        assert!(once.iter().skip(1).all(|c| c != ".."));
        p.reduce();
        assert_eq!(p.components, once);
    }
}
