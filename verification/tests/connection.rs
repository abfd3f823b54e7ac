use lsyshell::connection::{AuthMethod, ConnectionStore, NewConnectionDialog, SshConnection};

fn conn(name: &str, host: &str) -> SshConnection {
    SshConnection {
        name: name.to_string(),
        host: host.to_string(),
        port: 22,
        username: "root".to_string(),
        auth_method: AuthMethod::Password("pw".to_string()),
    }
}

#[test]
fn default_connection_settings() {
    let c = SshConnection::default();
    assert_eq!(c.name, "New Connection");
    assert_eq!(c.host, "localhost");
    assert_eq!(c.port, 22);
    assert_eq!(c.username, "root");
    assert!(matches!(c.auth_method, AuthMethod::Password(ref p) if p.is_empty()));
    let d = NewConnectionDialog::default();
    assert!(!d.show);
    assert_eq!(d.connection.name, "New Connection");
}

#[test]
fn store_get_after_insert() {
    let mut s = ConnectionStore::new();
    s.insert("a".to_string(), conn("a", "h1"));
    s.insert("b".to_string(), conn("b", "h2"));
    assert_eq!(s.get("a").unwrap().host, "h1");
    assert_eq!(s.get("b").unwrap().host, "h2");
    assert!(s.get("c").is_none());
    assert_eq!(s.len(), 2);
}

#[test]
fn store_insert_replaces_in_place() {
    let mut s = ConnectionStore::new();
    s.insert("a".to_string(), conn("a", "h1"));
    s.insert("b".to_string(), conn("b", "h2"));
    s.insert("a".to_string(), conn("a", "h3"));
    assert_eq!(s.len(), 2);
    assert_eq!(s.get("a").unwrap().host, "h3");
    assert_eq!(s.entries()[0].0, "a");
    assert_eq!(s.entries()[1].0, "b");
}

#[test]
fn store_remove_forgets_only_that_name() {
    let mut s = ConnectionStore::new();
    s.insert("a".to_string(), conn("a", "h1"));
    s.insert("b".to_string(), conn("b", "h2"));
    s.remove("a");
    assert!(!s.contains_key("a"));
    assert!(s.contains_key("b"));
    s.remove("zz");
    assert_eq!(s.len(), 1);
}

#[test]
fn store_from_entries_later_wins() {
    let s = ConnectionStore::from_entries(vec![
        ("a".to_string(), conn("a", "h1")),
        ("b".to_string(), conn("b", "h2")),
        ("a".to_string(), conn("a", "h3")),
    ]);
    assert_eq!(s.len(), 2);
    assert_eq!(s.get("a").unwrap().host, "h3");
}

#[test]
fn clone_keeps_every_field() {
    let c = SshConnection {
        name: "n".to_string(),
        host: "h".to_string(),
        port: 2222,
        username: "u".to_string(),
        auth_method: AuthMethod::KeyFile("/k".to_string()),
    };
    let d = c.clone();
    assert_eq!(d.name, "n");
    assert_eq!(d.port, 2222);
    assert!(matches!(d.auth_method, AuthMethod::KeyFile(ref p) if p == "/k"));
}
