use seaki::store::{FileInfo, FileStore};

fn info(name: &str, size: u64) -> FileInfo {
    FileInfo { name: name.to_string(), size, mime_type: "text/plain".to_string(), hash: "00".to_string() }
}

#[test]
fn empty_store_has_nothing() {
    let s = FileStore::new();
    assert!(s.get("a").is_none());
    assert!(s.values().is_empty());
}

#[test]
fn read_after_write() {
    let mut s = FileStore::new();
    s.insert("a".to_string(), info("one.txt", 1));
    s.insert("b".to_string(), info("two.txt", 2));
    assert_eq!(s.get("a").unwrap().name, "one.txt");
    assert_eq!(s.get("b").unwrap().size, 2);
    assert!(s.get("c").is_none());
    assert_eq!(s.values().len(), 2);
}

#[test]
fn second_write_under_an_id_replaces_the_first() {
    let mut s = FileStore::new();
    s.insert("a".to_string(), info("one.txt", 1));
    s.insert("a".to_string(), info("other.txt", 9));
    assert_eq!(s.get("a").unwrap().name, "other.txt");
    assert_eq!(s.get("a").unwrap().size, 9);
    let vs = s.values();
    assert_eq!(vs.len(), 1);
    assert_eq!(vs[0].name, "other.txt");
}
