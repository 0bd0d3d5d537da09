use mcpg_plugin_catalog_builtin::config::{
    validate_maturity, validate_tag, validate_trust_level, CatalogConfig, ConfigError, Defaults,
    ToolEntry, ToolMap,
};
use mcpg_plugin_catalog_builtin::metadata::CatalogMetadata;

fn entry(metadata: CatalogMetadata) -> ToolEntry {
    ToolEntry { metadata, hide: false }
}

fn config_with_tool(id: &str, e: ToolEntry) -> CatalogConfig {
    let mut cfg = CatalogConfig::default();
    cfg.tools.insert(id.to_owned(), e);
    cfg
}

#[test]
fn parses_minimal_yaml() {
    let cfg = config_with_tool(
        "orders.search",
        entry(CatalogMetadata {
            tags: vec!["read-only".to_owned()],
            owner: Some("platform-team".to_owned()),
            ..CatalogMetadata::default()
        }),
    );
    assert!(cfg.validate().is_ok());
    let entry = cfg.tools.get("orders.search").unwrap();
    assert_eq!(entry.metadata.tags, vec!["read-only".to_owned()]);
    assert_eq!(entry.metadata.owner.as_deref(), Some("platform-team"));
}

#[test]
fn rejects_invalid_trust_level() {
    let cfg = config_with_tool(
        "orders.search",
        entry(CatalogMetadata { trust_required: Some("alien".to_owned()), ..CatalogMetadata::default() }),
    );
    let err = cfg.validate().unwrap_err();
    match err {
        ConfigError::InvalidTrustLevel { value, .. } => assert_eq!(value, "alien"),
        other => panic!("unexpected: {other:?}"),
    }
}

#[test]
fn rejects_invalid_maturity() {
    let cfg = config_with_tool(
        "orders.search",
        entry(CatalogMetadata { maturity: Some("ancient".to_owned()), ..CatalogMetadata::default() }),
    );
    let err = cfg.validate().unwrap_err();
    match err {
        ConfigError::InvalidMaturity { value, .. } => assert_eq!(value, "ancient"),
        other => panic!("unexpected: {other:?}"),
    }
}

#[test]
fn rejects_invalid_tag() {
    let cfg = config_with_tool(
        "orders.search",
        entry(CatalogMetadata { tags: vec!["Bad Tag".to_owned()], ..CatalogMetadata::default() }),
    );
    let err = cfg.validate().unwrap_err();
    match err {
        ConfigError::InvalidTag { tag, .. } => assert_eq!(tag, "Bad Tag"),
        other => panic!("unexpected: {other:?}"),
    }
}

#[test]
fn parses_hide_flag() {
    let cfg = config_with_tool("internal.health", ToolEntry { metadata: CatalogMetadata::default(), hide: true });
    assert!(cfg.validate().is_ok());
    assert!(cfg.tools.get("internal.health").unwrap().hide);
}

#[test]
fn parses_defaults() {
    let mut cfg = CatalogConfig::default();
    cfg.defaults = Defaults { hide_unknown: true, require_verified_for_unknown: true };
    assert!(cfg.validate().is_ok());
    assert!(cfg.defaults.hide_unknown);
    assert!(cfg.defaults.require_verified_for_unknown);
}

#[test]
fn parses_global_defaults() {
    let mut cfg = CatalogConfig::default();
    cfg.global_defaults = CatalogMetadata {
        owner: Some("platform-team".to_owned()),
        maturity: Some("stable".to_owned()),
        ..CatalogMetadata::default()
    };
    assert!(cfg.validate().is_ok());
    assert_eq!(cfg.global_defaults.owner.as_deref(), Some("platform-team"));
    assert_eq!(cfg.global_defaults.maturity.as_deref(), Some("stable"));
}

#[test]
fn rejects_empty_tool_id() {
    let cfg = config_with_tool("", entry(CatalogMetadata::default()));
    assert!(matches!(cfg.validate(), Err(ConfigError::EmptyToolId)));
}

#[test]
fn reports_global_defaults_errors_under_their_own_name() {
    let mut cfg = CatalogConfig::default();
    cfg.global_defaults = CatalogMetadata { trust_required: Some("root".to_owned()), ..CatalogMetadata::default() };
    match cfg.validate().unwrap_err() {
        ConfigError::InvalidTrustLevel { tool_id, value } => {
            assert_eq!(tool_id, "<global_defaults>");
            assert_eq!(value, "root");
        },
        other => panic!("unexpected: {other:?}"),
    }
}

#[test]
fn reports_first_error_in_tool_id_order() {
    let mut cfg = CatalogConfig::default();
    cfg.tools.insert(
        "zeta".to_owned(),
        entry(CatalogMetadata { maturity: Some("old".to_owned()), ..CatalogMetadata::default() }),
    );
    cfg.tools.insert(
        "alpha".to_owned(),
        entry(CatalogMetadata { tags: vec!["ok".to_owned(), "NOT".to_owned()], ..CatalogMetadata::default() }),
    );
    match cfg.validate().unwrap_err() {
        ConfigError::InvalidTag { tool_id, tag } => {
            assert_eq!(tool_id, "alpha");
            assert_eq!(tag, "NOT");
        },
        other => panic!("unexpected: {other:?}"),
    }
}

#[test]
fn trust_level_is_checked_before_maturity_and_tags() {
    let cfg = config_with_tool(
        "t",
        entry(CatalogMetadata {
            trust_required: Some("nobody".to_owned()),
            maturity: Some("old".to_owned()),
            tags: vec!["".to_owned()],
            ..CatalogMetadata::default()
        }),
    );
    assert!(matches!(cfg.validate(), Err(ConfigError::InvalidTrustLevel { .. })));
}

#[test]
fn single_value_validators() {
    for level in ["verified", "header_asserted", "anonymous"] {
        assert!(validate_trust_level("t", level).is_ok());
    }
    assert!(validate_trust_level("t", "Verified").is_err());
    for m in ["experimental", "beta", "stable", "deprecated"] {
        assert!(validate_maturity("t", m).is_ok());
    }
    assert!(validate_maturity("t", "").is_err());
    assert!(validate_tag("t", "a-0").is_ok());
    assert!(validate_tag("t", "").is_err());
    assert!(validate_tag("t", "a_b").is_err());
    assert!(validate_tag("t", "é").is_err());
    match validate_tag("tool", "X") {
        Err(ConfigError::InvalidTag { tool_id, tag }) => {
            assert_eq!(tool_id, "tool");
            assert_eq!(tag, "X");
        },
        other => panic!("unexpected: {other:?}"),
    }
}

#[test]
fn tool_map_reads_back_what_was_written() {
    let mut m = ToolMap::new();
    assert!(m.insert("b".to_owned(), entry(CatalogMetadata::default())).is_none());
    assert!(m.insert("a".to_owned(), ToolEntry { metadata: CatalogMetadata::default(), hide: true }).is_none());
    assert!(m.insert("c".to_owned(), entry(CatalogMetadata::default())).is_none());
    assert_eq!(m.len(), 3);
    assert!(m.get("a").unwrap().hide);
    assert!(!m.get("b").unwrap().hide);
    assert!(m.get("d").is_none());
    let replaced = m.insert("a".to_owned(), entry(CatalogMetadata::default())).unwrap();
    assert!(replaced.hide);
    assert!(!m.get("a").unwrap().hide);
    assert_eq!(m.len(), 3);
    let keys: Vec<&str> = m.as_slice().iter().map(|p| p.0.as_str()).collect();
    assert_eq!(keys, vec!["a", "b", "c"]);
}

#[test]
fn tool_map_orders_keys_by_bytes() {
    let mut m = ToolMap::new();
    for k in ["orders.search", "Orders", "orders", "ordersZ", "é", "a"] {
        m.insert(k.to_owned(), entry(CatalogMetadata::default()));
    }
    let keys: Vec<&str> = m.as_slice().iter().map(|p| p.0.as_str()).collect();
    let mut expected = vec!["orders.search", "Orders", "orders", "ordersZ", "é", "a"];
    expected.sort();
    assert_eq!(keys, expected);
}
