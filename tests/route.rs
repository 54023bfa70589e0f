use mcrouter::route::RouteTable;

#[test]
fn exact_match_wins_over_wildcard() {
    let mut t = RouteTable::new();
    t.insert("*", "b:1".to_string());
    t.insert("play.example.com", "a:1".to_string());
    assert_eq!(t.route(b"play.example.com"), Some("a:1".to_string()));
}

#[test]
fn absent_host_uses_wildcard() {
    let mut t = RouteTable::new();
    t.insert("play.example.com", "a:1".to_string());
    t.insert("*", "b:1".to_string());
    assert_eq!(t.route(b"other.x"), Some("b:1".to_string()));
    assert_eq!(t.route(b""), Some("b:1".to_string()));
}

#[test]
fn absent_host_without_wildcard_is_unroutable() {
    let mut t = RouteTable::new();
    t.insert("play.example.com", "a:1".to_string());
    assert_eq!(t.route(b"bad.x"), None);
    assert_eq!(RouteTable::new().route(b"play.example.com"), None);
}

#[test]
fn matching_is_exact() {
    let mut t = RouteTable::new();
    t.insert("play.example.com", "a:1".to_string());
    assert_eq!(t.route(b"PLAY.example.com"), None);
    assert_eq!(t.route(b"play.example.co"), None);
    assert_eq!(t.route(b"play.example.com."), None);
}

#[test]
fn later_insert_replaces_route() {
    let mut t = RouteTable::new();
    t.insert("h", "a:1".to_string());
    t.insert("g", "c:1".to_string());
    t.insert("h", "b:1".to_string());
    assert_eq!(t.route(b"h"), Some("b:1".to_string()));
    assert_eq!(t.route(b"g"), Some("c:1".to_string()));
}
