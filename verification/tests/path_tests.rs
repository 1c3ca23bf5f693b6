use maram::path::FsPath;

fn p(s: &str) -> FsPath {
    FsPath::parse(s)
}

#[test]
fn parse_normalizes_like_components() {
    assert_eq!(p("/home/u/./x//y/").normal_string(), "/home/u/x/y");
    assert_eq!(p("a/b").normal_string(), "a/b");
    assert_eq!(p("/").normal_string(), "/");
    assert_eq!(p(".").normal_string(), "");
    assert!(p("/home/u/./x//y/").same_as(&p("/home/u/x/y")));
    assert!(p("/a").is_absolute());
    assert!(!p("a").is_absolute());
}

#[test]
fn render_then_parse_is_identity() {
    for s in ["/home/u/maram/repo/branch/base", "rel/dir", "/", "", "/a/./b//"] {
        let q = p(s);
        assert!(FsPath::parse(&q.normal_string()).same_as(&q));
        assert!(FsPath::parse(&q.to_string()).same_as(&q));
    }
}

#[test]
fn text_kept_as_written() {
    assert_eq!(p("/home/u/./x//y/").to_string(), "/home/u/./x//y/");
    assert_eq!(p("a/./b/").to_string(), "a/./b/");
    assert_eq!(p("/tmp/./m/").join("repo").join("feat").to_string(), "/tmp/./m/repo/feat");
    assert_eq!(p("/tmp/./m").join("repo").to_string(), "/tmp/./m/repo");
    assert_eq!(p("").join("a").to_string(), "a");
    assert_eq!(p("/a").join("").to_string(), "/a/");
    assert_eq!(p("/a/./b/").parent().unwrap().to_string(), "/a");
    assert_eq!(p("/a/b").clone().to_string(), "/a/b");
}

#[test]
fn join_appends_or_replaces() {
    assert_eq!(p("/a/b").join("c/d").to_string(), "/a/b/c/d");
    assert_eq!(p("/a/b").join("/etc").to_string(), "/etc");
    assert_eq!(p("/a").join_path(&p("x")).to_string(), "/a/x");
}

#[test]
fn starts_with_compares_components() {
    assert!(p("/a/b/c").starts_with(&p("/a/b")));
    assert!(!p("/a/bc").starts_with(&p("/a/b")));
    assert!(p("/a").starts_with(&p("")));
    assert!(!p("a/b").starts_with(&p("/a")));
    assert!(p("/a/b").starts_with(&p("/a/b")));
}

#[test]
fn parent_and_file_name() {
    assert_eq!(p("/a/b").parent().unwrap().to_string(), "/a");
    assert_eq!(p("/a").parent().unwrap().to_string(), "/");
    assert!(p("/").parent().is_none());
    assert_eq!(p("a").parent().unwrap().to_string(), "");
    assert_eq!(p("/a/b").file_name(), Some("b".to_string()));
    assert_eq!(p("/a/..").file_name(), None);
    assert_eq!(p("/").file_name(), None);
}

#[test]
fn strip_prefix_and_first_component() {
    let rest = p("/home/u/maram/repo/x").strip_prefix(&p("/home/u/maram")).unwrap();
    assert_eq!(rest.to_string(), "repo/x");
    assert_eq!(rest.first_component(), Some("repo".to_string()));
    assert!(p("/other").strip_prefix(&p("/home")).is_none());
    assert_eq!(p("/x").first_component(), Some("/".to_string()));
    assert_eq!(p("/a/b").strip_prefix(&p("")).unwrap().to_string(), "/a/b");
}

#[test]
fn push_component_and_full_components() {
    let q = p("/a").push_component(".maram");
    assert_eq!(q.to_string(), "/a/.maram");
    assert_eq!(q.full_components(), vec!["/", "a", ".maram"]);
}
