use mcpg_plugin_catalog_builtin::catalog::{
    default_manifest, BuiltinCatalog, EnrichedToolDescriptor, PluginClass, ToolDescriptor,
};
use mcpg_plugin_catalog_builtin::config::{CatalogConfig, Defaults, ToolEntry};
use mcpg_plugin_catalog_builtin::metadata::CatalogMetadata;

fn descriptor(name: &str) -> EnrichedToolDescriptor {
    EnrichedToolDescriptor::from_base(ToolDescriptor {
        name: name.into(),
        title: None,
        description: "x".into(),
        input_schema: "{}".into(),
        output_schema: None,
    })
}

fn tool(metadata: CatalogMetadata) -> ToolEntry {
    ToolEntry { metadata, hide: false }
}

fn checked(cfg: CatalogConfig) -> CatalogConfig {
    cfg.validate().unwrap();
    cfg
}

fn names(tools: &[EnrichedToolDescriptor]) -> Vec<String> {
    tools.iter().map(|t| t.base.name.clone()).collect()
}

#[test]
fn unknown_tools_pass_through_with_no_metadata() {
    let plugin = BuiltinCatalog::new(CatalogConfig::default());
    let input = vec![descriptor("orders.search")];
    let out = plugin.filter_and_enrich("verified", &input);
    assert_eq!(out.len(), 1);
    assert!(out[0].catalog.is_none());
}

#[test]
fn hide_flag_drops_tool() {
    let mut cfg = CatalogConfig::default();
    cfg.tools.insert("orders.search".into(), ToolEntry { metadata: CatalogMetadata::default(), hide: true });
    let plugin = BuiltinCatalog::new(checked(cfg));
    let input = vec![descriptor("orders.search"), descriptor("orders.list")];
    let out = plugin.filter_and_enrich("verified", &input);
    assert_eq!(out.len(), 1);
    assert_eq!(out[0].base.name, "orders.list");
}

#[test]
fn hide_unknown_drops_unmapped_tools() {
    let mut cfg = CatalogConfig::default();
    cfg.tools.insert(
        "orders.search".into(),
        tool(CatalogMetadata { tags: vec!["read-only".into()], ..CatalogMetadata::default() }),
    );
    cfg.defaults.hide_unknown = true;
    let plugin = BuiltinCatalog::new(checked(cfg));
    let input = vec![descriptor("orders.search"), descriptor("internal.x")];
    let out = plugin.filter_and_enrich("verified", &input);
    assert_eq!(out.len(), 1);
    assert_eq!(out[0].base.name, "orders.search");
}

#[test]
fn trust_required_drops_low_trust_callers() {
    let mut cfg = CatalogConfig::default();
    cfg.tools.insert(
        "orders.search".into(),
        tool(CatalogMetadata { trust_required: Some("verified".into()), ..CatalogMetadata::default() }),
    );
    let plugin = BuiltinCatalog::new(checked(cfg));
    let input = vec![descriptor("orders.search")];
    let anon = plugin.filter_and_enrich("anonymous", &input);
    assert!(anon.is_empty());
    let verified = plugin.filter_and_enrich("verified", &input);
    assert_eq!(verified.len(), 1);
}

#[test]
fn enriches_with_metadata() {
    let mut cfg = CatalogConfig::default();
    cfg.tools.insert(
        "orders.search".into(),
        tool(CatalogMetadata {
            tags: vec!["read-only".into(), "orders".into()],
            owner: Some("platform-team".into()),
            doc_url: Some("https://example.com/docs".into()),
            ..CatalogMetadata::default()
        }),
    );
    let plugin = BuiltinCatalog::new(checked(cfg));
    let input = vec![descriptor("orders.search")];
    let out = plugin.filter_and_enrich("verified", &input);
    let catalog = out[0].catalog.as_ref().unwrap();
    assert_eq!(catalog.tags, vec!["read-only".to_owned(), "orders".to_owned()]);
    assert_eq!(catalog.owner.as_deref(), Some("platform-team"));
    assert_eq!(catalog.doc_url.as_deref(), Some("https://example.com/docs"));
}

#[test]
fn first_write_wins_for_chain_existing_metadata() {
    let mut cfg = CatalogConfig::default();
    cfg.tools.insert(
        "orders.search".into(),
        tool(CatalogMetadata {
            owner: Some("team-builtin".into()),
            tags: vec!["from-builtin".into()],
            ..CatalogMetadata::default()
        }),
    );
    let plugin = BuiltinCatalog::new(checked(cfg));
    let mut existing = descriptor("orders.search");
    existing.catalog = Some(CatalogMetadata {
        owner: Some("team-from-earlier".into()),
        tags: vec!["from-earlier".into()],
        ..CatalogMetadata::default()
    });
    let out = plugin.filter_and_enrich("verified", &[existing]);
    let catalog = out[0].catalog.as_ref().unwrap();
    // owner: first-write-wins, so the earlier provider wins.
    assert_eq!(catalog.owner.as_deref(), Some("team-from-earlier"));
    // tags: union.
    assert!(catalog.tags.contains(&"from-earlier".to_owned()));
    assert!(catalog.tags.contains(&"from-builtin".to_owned()));
}

#[test]
fn require_verified_for_unknown_drops_low_trust() {
    let mut cfg = CatalogConfig::default();
    cfg.defaults = Defaults { hide_unknown: false, require_verified_for_unknown: true };
    let plugin = BuiltinCatalog::new(checked(cfg));
    let input = vec![descriptor("orders.unknown")];
    let anon = plugin.filter_and_enrich("anonymous", &input);
    assert!(anon.is_empty());
    let verified = plugin.filter_and_enrich("verified", &input);
    assert_eq!(verified.len(), 1);
}

#[test]
fn describe_returns_metadata_merged_with_global_defaults() {
    let mut cfg = CatalogConfig::default();
    cfg.tools.insert(
        "orders.search".into(),
        tool(CatalogMetadata { tags: vec!["read-only".into()], ..CatalogMetadata::default() }),
    );
    cfg.global_defaults = CatalogMetadata {
        owner: Some("platform-team".into()),
        maturity: Some("stable".into()),
        ..CatalogMetadata::default()
    };
    let plugin = BuiltinCatalog::new(checked(cfg));
    let entry = plugin.describe("orders.search").unwrap();
    assert_eq!(entry.catalog.tags, vec!["read-only".to_owned()]);
    assert_eq!(entry.catalog.owner.as_deref(), Some("platform-team"));
    assert_eq!(entry.catalog.maturity.as_deref(), Some("stable"));
}

// ---------------------------------------------------------------------------
// Further cases
// ---------------------------------------------------------------------------

fn sample_plugin() -> BuiltinCatalog {
    let mut cfg = CatalogConfig::default();
    cfg.tools.insert(
        "orders.search".into(),
        tool(CatalogMetadata {
            owner: Some("platform-team <platform@example.com>".into()),
            tags: vec!["read-only".into(), "orders".into()],
            maturity: Some("stable".into()),
            trust_required: Some("verified".into()),
            ..CatalogMetadata::default()
        }),
    );
    cfg.tools.insert(
        "orders.refund".into(),
        tool(CatalogMetadata {
            owner: Some("payments-team".into()),
            maturity: Some("beta".into()),
            requires_approval: true,
            attributes: vec![("backstage_ref".into(), "component:default/orders".into())],
            ..CatalogMetadata::default()
        }),
    );
    cfg.tools.insert("internal.health".into(), ToolEntry { metadata: CatalogMetadata::default(), hide: true });
    cfg.global_defaults = CatalogMetadata {
        owner: Some("platform-team".into()),
        maturity: Some("stable".into()),
        trust_required: Some("header_asserted".into()),
        ..CatalogMetadata::default()
    };
    BuiltinCatalog::new(checked(cfg))
}

fn sample_input() -> Vec<EnrichedToolDescriptor> {
    vec![
        descriptor("orders.search"),
        descriptor("internal.health"),
        descriptor("orders.refund"),
        descriptor("misc.echo"),
    ]
}

#[test]
fn listing_again_changes_nothing() {
    let plugin = sample_plugin();
    for caller in ["verified", "header_asserted", "anonymous", "bogus"] {
        let once = plugin.filter_and_enrich(caller, &sample_input());
        let twice = plugin.filter_and_enrich(caller, &once);
        assert_eq!(names(&once), names(&twice));
        for (a, b) in once.iter().zip(twice.iter()) {
            assert_eq!(a.catalog, b.catalog);
        }
    }
}

#[test]
fn higher_trust_sees_more_tools() {
    let plugin = sample_plugin();
    let verified = names(&plugin.filter_and_enrich("verified", &sample_input()));
    let asserted = names(&plugin.filter_and_enrich("header_asserted", &sample_input()));
    let anon = names(&plugin.filter_and_enrich("anonymous", &sample_input()));
    let unknown = names(&plugin.filter_and_enrich("bogus", &sample_input()));
    assert_eq!(verified, vec!["orders.search", "orders.refund", "misc.echo"]);
    assert_eq!(asserted, vec!["orders.refund", "misc.echo"]);
    assert!(anon.is_empty());
    assert!(unknown.is_empty());
}

#[test]
fn global_defaults_fill_gaps_and_entries_win() {
    let plugin = sample_plugin();
    let out = plugin.filter_and_enrich("verified", &sample_input());
    let refund = out.iter().find(|t| t.base.name == "orders.refund").unwrap();
    let c = refund.catalog.as_ref().unwrap();
    assert_eq!(c.owner.as_deref(), Some("payments-team"));
    assert_eq!(c.maturity.as_deref(), Some("beta"));
    assert_eq!(c.trust_required.as_deref(), Some("header_asserted"));
    assert!(c.requires_approval);
    assert_eq!(c.attributes, vec![("backstage_ref".to_owned(), "component:default/orders".to_owned())]);
    let echo = out.iter().find(|t| t.base.name == "misc.echo").unwrap();
    let c = echo.catalog.as_ref().unwrap();
    assert_eq!(c.owner.as_deref(), Some("platform-team"));
    assert_eq!(c.trust_required.as_deref(), Some("header_asserted"));
}

#[test]
fn earlier_trust_requirement_is_authoritative() {
    let plugin = sample_plugin();
    let mut t = descriptor("orders.search");
    t.catalog = Some(CatalogMetadata { trust_required: Some("anonymous".into()), ..CatalogMetadata::default() });
    let out = plugin.filter_and_enrich("anonymous", &[t]);
    assert_eq!(out.len(), 1);
    assert_eq!(out[0].catalog.as_ref().unwrap().trust_required.as_deref(), Some("anonymous"));
}

#[test]
fn effective_trust_required_priority() {
    let plugin = sample_plugin();
    let entry = plugin.config().tools.get("orders.search");
    assert_eq!(plugin.effective_trust_required(Some("anonymous"), entry).as_deref(), Some("anonymous"));
    assert_eq!(plugin.effective_trust_required(None, entry).as_deref(), Some("verified"));
    let refund = plugin.config().tools.get("orders.refund");
    assert_eq!(plugin.effective_trust_required(None, refund).as_deref(), Some("header_asserted"));
    assert_eq!(plugin.effective_trust_required(None, None).as_deref(), Some("header_asserted"));

    let mut cfg = CatalogConfig::default();
    cfg.defaults.require_verified_for_unknown = true;
    cfg.tools.insert("known".into(), tool(CatalogMetadata::default()));
    let strict = BuiltinCatalog::new(cfg);
    assert_eq!(strict.effective_trust_required(None, None).as_deref(), Some("verified"));
    let known = strict.config().tools.get("known");
    assert_eq!(strict.effective_trust_required(None, known), None);
}

#[test]
fn contribute_merges_entry_over_global_defaults() {
    let plugin = sample_plugin();
    let c = plugin.contribute(plugin.config().tools.get("orders.search"));
    assert_eq!(c.owner.as_deref(), Some("platform-team <platform@example.com>"));
    assert_eq!(c.trust_required.as_deref(), Some("verified"));
    let none = plugin.contribute(None);
    assert_eq!(none.owner.as_deref(), Some("platform-team"));
    assert!(BuiltinCatalog::new(CatalogConfig::default()).contribute(None).is_empty());
}

#[test]
fn list_catalog_agrees_with_describe() {
    let plugin = sample_plugin();
    let all = plugin.list_catalog();
    let ids: Vec<&str> = all.iter().map(|e| e.tool_id.as_str()).collect();
    assert_eq!(ids, vec!["internal.health", "orders.refund", "orders.search"]);
    for e in &all {
        let d = plugin.describe(&e.tool_id).unwrap();
        assert_eq!(d.tool_id, e.tool_id);
        assert_eq!(d.catalog, e.catalog);
        assert!(d.display_name.is_none() && d.description.is_none());
    }
    assert!(plugin.describe("misc.echo").is_none());
}

#[test]
fn base_descriptor_is_carried_unchanged() {
    let plugin = sample_plugin();
    let t = EnrichedToolDescriptor::from_base(ToolDescriptor {
        name: "misc.echo".into(),
        title: Some("Echo".into()),
        description: "echoes".into(),
        input_schema: "{\"type\":\"object\"}".into(),
        output_schema: Some("{}".into()),
    });
    let out = plugin.filter_and_enrich("verified", &[t]);
    assert_eq!(out[0].base.title.as_deref(), Some("Echo"));
    assert_eq!(out[0].base.description, "echoes");
    assert_eq!(out[0].base.input_schema, "{\"type\":\"object\"}");
    assert_eq!(out[0].base.output_schema.as_deref(), Some("{}"));
}

#[test]
fn manifest_describes_a_catalog_provider() {
    let plugin = BuiltinCatalog::new(CatalogConfig::default());
    let m = plugin.manifest();
    assert_eq!(m.id, "dev.mcpg.catalog.builtin");
    assert_eq!(m.name, "Builtin Catalog Provider");
    assert_eq!(m.plugin_class, PluginClass::CatalogProvider);
    assert_eq!(m.protocol_version, "1.0");
    assert_eq!(m.module_path_prefix, "mcpg_plugin_catalog_builtin");
    assert!(m.required_capabilities.is_empty());
    assert_eq!(default_manifest().version, m.version);
}
