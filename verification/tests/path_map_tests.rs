use maram::path::FsPath;
use maram::path_map::PathMap;

#[test]
fn insert_get_remove() {
    let mut m = PathMap::new();
    assert!(m.get("a").is_none());
    m.insert("a".to_string(), FsPath::parse("/x/a"));
    m.insert("b".to_string(), FsPath::parse("/x/b"));
    assert_eq!(m.get("a").unwrap().to_string(), "/x/a");
    assert!(m.contains_key("b"));
    m.insert("a".to_string(), FsPath::parse("/y/a"));
    assert_eq!(m.get("a").unwrap().to_string(), "/y/a");
    assert_eq!(m.entries().len(), 2);
    m.remove("a");
    assert!(!m.contains_key("a"));
    assert!(m.contains_key("b"));
}

#[test]
fn from_entries_later_wins() {
    let m = PathMap::from_entries(vec![
        ("v".to_string(), FsPath::parse("/1")),
        ("v".to_string(), FsPath::parse("/2")),
    ]);
    assert_eq!(m.get("v").unwrap().to_string(), "/2");
}

#[test]
fn entries_once_each() {
    let m = PathMap::from_entries(vec![
        ("v".to_string(), FsPath::parse("/1")),
        ("w".to_string(), FsPath::parse("/w")),
        ("v".to_string(), FsPath::parse("/2")),
    ]);
    let e = m.entries();
    assert_eq!(e.len(), 2);
    let v: Vec<String> = e.iter().filter(|(n, _)| n == "v").map(|(_, p)| p.to_string()).collect();
    assert_eq!(v, vec!["/2".to_string()]);
    let w: Vec<String> = e.iter().filter(|(n, _)| n == "w").map(|(_, p)| p.to_string()).collect();
    assert_eq!(w, vec!["/w".to_string()]);
}
