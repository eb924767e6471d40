use quectoclaw::channel::BaseChannel;

#[test]
fn test_allow_list_empty_denies_all() {
    let ch = BaseChannel::new("test", vec![]);
    assert!(!ch.is_allowed("anyone"));
}

#[test]
fn test_allow_list_wildcard_allows_all() {
    let ch = BaseChannel::new("test", vec!["*".into()]);
    assert!(ch.is_allowed("anyone"));
}

#[test]
fn test_allow_list_exact() {
    let ch = BaseChannel::new("test", vec!["user123".into()]);
    assert!(ch.is_allowed("user123"));
    assert!(!ch.is_allowed("user456"));
}

#[test]
fn test_allow_list_compound_id() {
    let ch = BaseChannel::new("test", vec!["123".into()]);
    assert!(ch.is_allowed("123|john"));
}

#[test]
fn test_allow_list_at_prefix() {
    let ch = BaseChannel::new("test", vec!["@john".into()]);
    assert!(ch.is_allowed("john"));
}

#[test]
fn test_allow_list_user_part() {
    let ch = BaseChannel::new("test", vec!["john".into()]);
    assert!(ch.is_allowed("123|john"));
    assert!(!ch.is_allowed("123|jane"));
}
