use udp_listener::config::{load_config, parse_line, Config};

fn lines(v: &[&str]) -> Vec<String> {
    v.iter().map(|s| s.to_string()).collect()
}

#[test]
fn parse_line_splits_at_first_eq() {
    let r = parse_line("key=value").unwrap();
    assert_eq!(r.0, "key");
    assert_eq!(r.1, "value");
}

#[test]
fn parse_line_lowercases_key_only() {
    let r = parse_line("PORT=AbC").unwrap();
    assert_eq!(r.0, "port");
    assert_eq!(r.1, "AbC");
}

#[test]
fn parse_line_keeps_value_untrimmed() {
    let r = parse_line(" Key = value ").unwrap();
    assert_eq!(r.0, " key ");
    assert_eq!(r.1, " value ");
}

#[test]
fn parse_line_only_first_eq_delimits() {
    let r = parse_line("a=b=c").unwrap();
    assert_eq!(r.0, "a");
    assert_eq!(r.1, "b=c");
}

#[test]
fn parse_line_empty_key_and_value() {
    let r = parse_line("=v").unwrap();
    assert_eq!(r.0, "");
    assert_eq!(r.1, "v");
    let r = parse_line("k=").unwrap();
    assert_eq!(r.0, "k");
    assert_eq!(r.1, "");
}

#[test]
fn parse_line_without_eq_is_none() {
    assert!(parse_line("no delimiter here").is_none());
    assert!(parse_line("").is_none());
}

#[test]
fn load_maps_lowercased_key_to_exact_value() {
    let cfg = load_config(&lines(&["IP=127.0.0.1", "Port=9999"]));
    assert_eq!(cfg.get("ip").unwrap().as_str(), "127.0.0.1");
    assert_eq!(cfg.get("port").unwrap().as_str(), "9999");
    assert_eq!(cfg.len(), 2);
}

#[test]
fn line_without_eq_is_dropped() {
    let cfg = load_config(&lines(&["ip=1.2.3.4", "this line has no delimiter", "port=80"]));
    assert_eq!(cfg.get("ip").unwrap().as_str(), "1.2.3.4");
    assert_eq!(cfg.get("port").unwrap().as_str(), "80");
    assert_eq!(cfg.len(), 2);
}

#[test]
fn duplicate_key_last_occurrence_wins() {
    let cfg = load_config(&lines(&["ip=first", "ip=second", "IP=third"]));
    assert_eq!(cfg.get("ip").unwrap().as_str(), "third");
    assert_eq!(cfg.len(), 1);
}

#[test]
fn empty_input_gives_empty_config() {
    let cfg = load_config(&lines(&[]));
    assert_eq!(cfg.len(), 0);
    assert!(cfg.get("ip").is_none());
}

#[test]
fn get_misses_unknown_and_non_lowercase_key() {
    let cfg = load_config(&lines(&["IP=1"]));
    assert!(cfg.get("IP").is_none());
    assert!(cfg.get("missing").is_none());
}

#[test]
fn insert_overwrites_existing_key() {
    let mut cfg = Config::new();
    cfg.insert("k".to_string(), "a".to_string());
    cfg.insert("k".to_string(), "b".to_string());
    assert_eq!(cfg.get("k").unwrap().as_str(), "b");
    assert_eq!(cfg.len(), 1);
}

#[test]
fn keys_lists_each_key_once() {
    let cfg = load_config(&lines(&["b=2", "a=1", "b=3"]));
    let mut ks = cfg.keys();
    ks.sort();
    assert_eq!(ks, vec!["a".to_string(), "b".to_string()]);
}
