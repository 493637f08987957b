use protohackers::kv::{handle_request, Database};

fn send(db: &mut Database, text: &str) -> Option<String> {
    handle_request(text.as_bytes().to_vec(), db)
}

#[test]
fn insert_then_retrieve() {
    let mut db = Database::new();
    assert_eq!(send(&mut db, "foo=bar"), None);
    assert_eq!(send(&mut db, "foo").unwrap(), "foo=bar");
}

#[test]
fn missing_key_has_empty_value() {
    let mut db = Database::new();
    assert_eq!(send(&mut db, "baz").unwrap(), "baz=");
}

#[test]
fn later_insert_overwrites() {
    let mut db = Database::new();
    send(&mut db, "foo=bar");
    send(&mut db, "foo=baz");
    assert_eq!(send(&mut db, "foo").unwrap(), "foo=baz");
    assert_eq!(db.get("foo").unwrap(), "baz");
}

#[test]
fn key_ends_at_first_equals() {
    let mut db = Database::new();
    assert_eq!(send(&mut db, "foo=bar=baz"), None);
    assert_eq!(send(&mut db, "foo").unwrap(), "foo=bar=baz");
    assert_eq!(send(&mut db, "foo=="), None);
    assert_eq!(send(&mut db, "foo").unwrap(), "foo==");
    assert_eq!(send(&mut db, "=x"), None);
    assert_eq!(send(&mut db, "").unwrap(), "=x");
    assert_eq!(send(&mut db, "k="), None);
    assert_eq!(send(&mut db, "k").unwrap(), "k=");
}

#[test]
fn version_is_fixed() {
    let mut db = Database::new();
    assert_eq!(send(&mut db, "version").unwrap(), "version=69 :)");
    assert_eq!(send(&mut db, "version=2"), None);
    assert_eq!(send(&mut db, "version").unwrap(), "version=69 :)");
    assert_eq!(db.get("version").unwrap(), "2");
}

#[test]
fn requests_are_trimmed() {
    let mut db = Database::new();
    assert_eq!(send(&mut db, "  key=value \n"), None);
    assert_eq!(send(&mut db, "key\n").unwrap(), "key=value");
    assert_eq!(send(&mut db, " version ").unwrap(), "version=69 :)");
}

#[test]
fn keys_are_exact() {
    let mut db = Database::new();
    send(&mut db, "a=1");
    send(&mut db, "A=2");
    assert_eq!(send(&mut db, "a").unwrap(), "a=1");
    assert_eq!(send(&mut db, "A").unwrap(), "A=2");
    assert!(db.get("b").is_none());
}

#[test]
fn read_after_other_requests() {
    let mut db = Database::new();
    assert_eq!(send(&mut db, "k=v"), None);
    assert_eq!(send(&mut db, "other=1"), None);
    assert_eq!(send(&mut db, "missing").unwrap(), "missing=");
    assert_eq!(send(&mut db, "version").unwrap(), "version=69 :)");
    assert_eq!(send(&mut db, "k").unwrap(), "k=v");
}
