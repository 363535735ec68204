use binx::config::{Config, ConfigAlias};

fn alias(path: &str) -> ConfigAlias {
    ConfigAlias::new(path.to_string())
}

#[test]
fn new_config_is_empty() {
    let c = Config::new();
    assert_eq!(c.len(), 0);
    assert!(c.names_list().is_empty());
    assert_eq!(c.available_aliases(), "");
}

#[test]
fn lookup_after_insert() {
    let mut c = Config::new();
    c.insert("myapp".to_string(), alias("/opt/myapp/bin/myapp"));
    c.insert("other".to_string(), alias("/usr/bin/other"));
    assert!(c.contains("myapp"));
    assert_eq!(c.get("myapp").unwrap().path, "/opt/myapp/bin/myapp");
    assert_eq!(c.get("other").unwrap().path, "/usr/bin/other");
    assert!(c.get("missing").is_none());
}

#[test]
fn insert_replaces_same_name() {
    let mut c = Config::new();
    c.insert("a".to_string(), alias("/x"));
    c.insert("a".to_string(), alias("/y"));
    assert_eq!(c.len(), 1);
    assert_eq!(c.get("a").unwrap().path, "/y");
}

#[test]
fn names_are_sorted() {
    let mut c = Config::new();
    for n in ["zeta", "alpha", "Mid", "beta", "alpha2", "éclair"] {
        c.insert(n.to_string(), alias("/p"));
    }
    let mut expected = vec!["zeta", "alpha", "Mid", "beta", "alpha2", "éclair"];
    expected.sort();
    assert_eq!(c.names_list(), expected);
    assert_eq!(c.available_aliases(), expected.join(", "));
    assert_eq!(c.entry(0).name, "Mid");
}

#[test]
fn lookup_after_remove() {
    let mut c = Config::new();
    c.insert("a".to_string(), alias("/x"));
    c.insert("b".to_string(), alias("/y"));
    let removed = c.remove("a");
    assert_eq!(removed.unwrap().path, "/x");
    assert!(!c.contains("a"));
    assert_eq!(c.get("b").unwrap().path, "/y");
    assert!(c.remove("a").is_none());
    assert_eq!(c.len(), 1);
}

#[test]
fn set_script_and_desktop_keep_the_rest() {
    let mut c = Config::new();
    c.insert("a".to_string(), alias("/x"));
    c.set_script("a", "/home/u/.binx/a".to_string());
    c.set_desktop("a", "/home/u/.local/share/applications/binx_a.desktop".to_string());
    let a = c.get("a").unwrap();
    assert_eq!(a.path, "/x");
    assert_eq!(a.script.as_deref(), Some("/home/u/.binx/a"));
    assert_eq!(a.desktop.as_deref(), Some("/home/u/.local/share/applications/binx_a.desktop"));
    assert_eq!(a.icon, None);
    c.set_script("missing", "/s".to_string());
    assert!(!c.contains("missing"));
    assert_eq!(c.len(), 1);
}

#[test]
fn find_by_path_gives_first_name() {
    let mut c = Config::new();
    c.insert("zz".to_string(), alias("/bin/tool"));
    c.insert("aa".to_string(), alias("/bin/tool"));
    c.insert("mm".to_string(), alias("/bin/other"));
    assert_eq!(c.find_by_path("/bin/tool").as_deref(), Some("aa"));
    assert_eq!(c.find_by_path("/bin/other").as_deref(), Some("mm"));
    assert_eq!(c.find_by_path("/bin/none"), None);
}

#[test]
fn duplicate_is_equal() {
    let mut a = alias("/x");
    a.icon = Some("x".to_string());
    let b = a.duplicate();
    assert_eq!(b.path, "/x");
    assert_eq!(b.icon.as_deref(), Some("x"));
    assert_eq!(b.script, None);
}

#[test]
fn remove_undoes_insert() {
    let mut c = Config::new();
    c.insert("b".to_string(), alias("/y"));
    c.insert("a".to_string(), alias("/x"));
    c.remove("a");
    assert_eq!(c.names_list(), vec!["b"]);
    assert_eq!(c.get("b").unwrap().path, "/y");
}

#[test]
fn alias_from_fields() {
    let a = ConfigAlias::from_fields(None, Some("/s".to_string()), None, Some("i".to_string()));
    assert_eq!(a.path, "");
    assert_eq!(a.script.as_deref(), Some("/s"));
    assert_eq!(a.desktop, None);
    assert_eq!(a.icon.as_deref(), Some("i"));
    let b = ConfigAlias::from_fields(Some("/p".to_string()), None, None, None);
    assert_eq!(b.path, "/p");
}

#[test]
fn set_icon_records_icon() {
    let mut c = Config::new();
    c.insert("a".to_string(), alias("/x"));
    c.set_icon("a", "a".to_string());
    assert_eq!(c.get("a").unwrap().icon.as_deref(), Some("a"));
    assert_eq!(c.get("a").unwrap().path, "/x");
    c.set_icon("b", "b".to_string());
    assert!(!c.contains("b"));
}
