use mcpg_plugin_catalog_builtin::metadata::CatalogMetadata;
use mcpg_plugin_catalog_builtin::text::{compare_keys, is_tag_char, str_eq, KeyOrder};
use mcpg_plugin_catalog_builtin::trust::{trust_level_meets, trust_level_rank};

fn strings(v: &[&str]) -> Vec<String> {
    v.iter().map(|s| s.to_string()).collect()
}

#[test]
fn merge_keeps_earlier_scalars_and_fills_gaps() {
    let mut m = CatalogMetadata { owner: Some("a".into()), ..CatalogMetadata::default() };
    let later = CatalogMetadata {
        owner: Some("b".into()),
        doc_url: Some("https://d".into()),
        sample_arguments: Some("{\"q\":1}".into()),
        trust_required: Some("verified".into()),
        maturity: Some("beta".into()),
        ..CatalogMetadata::default()
    };
    m.merge_from(&later);
    assert_eq!(m.owner.as_deref(), Some("a"));
    assert_eq!(m.doc_url.as_deref(), Some("https://d"));
    assert_eq!(m.sample_arguments.as_deref(), Some("{\"q\":1}"));
    assert_eq!(m.trust_required.as_deref(), Some("verified"));
    assert_eq!(m.maturity.as_deref(), Some("beta"));
}

#[test]
fn merge_unions_tags_in_order_without_repeats() {
    let mut m = CatalogMetadata { tags: strings(&["x", "y"]), ..CatalogMetadata::default() };
    let later = CatalogMetadata { tags: strings(&["y", "z", "z", "w"]), ..CatalogMetadata::default() };
    m.merge_from(&later);
    assert_eq!(m.tags, strings(&["x", "y", "z", "w"]));
}

#[test]
fn merge_attributes_first_write_wins_per_key() {
    let mut m = CatalogMetadata {
        attributes: vec![("k".into(), "1".into())],
        ..CatalogMetadata::default()
    };
    let later = CatalogMetadata {
        attributes: vec![("k".into(), "2".into()), ("j".into(), "3".into())],
        ..CatalogMetadata::default()
    };
    m.merge_from(&later);
    assert_eq!(m.attributes, vec![("k".to_owned(), "1".to_owned()), ("j".to_owned(), "3".to_owned())]);
}

#[test]
fn approval_flag_is_sticky() {
    let mut m = CatalogMetadata { requires_approval: true, ..CatalogMetadata::default() };
    m.merge_from(&CatalogMetadata::default());
    assert!(m.requires_approval);
    let mut n = CatalogMetadata::default();
    n.merge_from(&CatalogMetadata { requires_approval: true, ..CatalogMetadata::default() });
    assert!(n.requires_approval);
}

#[test]
fn merge_with_self_or_empty_or_twice_changes_nothing() {
    let m = CatalogMetadata {
        tags: strings(&["a", "b"]),
        owner: Some("o".into()),
        attributes: vec![("k".into(), "v".into())],
        requires_approval: true,
        ..CatalogMetadata::default()
    };
    let mut a = m.clone();
    a.merge_from(&m);
    assert_eq!(a, m);
    let mut b = m.clone();
    b.merge_from(&CatalogMetadata::default());
    assert_eq!(b, m);
    let later = CatalogMetadata { tags: strings(&["c"]), doc_url: Some("u".into()), ..CatalogMetadata::default() };
    let mut once = m.clone();
    once.merge_from(&later);
    let mut twice = once.clone();
    twice.merge_from(&later);
    assert_eq!(once, twice);
}

#[test]
fn is_empty_sees_every_field() {
    assert!(CatalogMetadata::default().is_empty());
    assert!(!CatalogMetadata { requires_approval: true, ..CatalogMetadata::default() }.is_empty());
    assert!(!CatalogMetadata { attributes: vec![("a".into(), "b".into())], ..CatalogMetadata::default() }.is_empty());
    assert!(!CatalogMetadata { sample_arguments: Some("{}".into()), ..CatalogMetadata::default() }.is_empty());
}

#[test]
fn trust_levels_are_ordered() {
    let levels = ["anonymous", "header_asserted", "verified"];
    for (i, caller) in levels.iter().enumerate() {
        for (j, required) in levels.iter().enumerate() {
            assert_eq!(trust_level_meets(caller, required), i >= j);
        }
        assert!(!trust_level_meets(caller, "root"));
        assert!(!trust_level_meets("root", caller));
    }
    assert_eq!(trust_level_rank("header_asserted"), Some(1));
    assert_eq!(trust_level_rank("VERIFIED"), None);
}

#[test]
fn string_helpers() {
    assert!(str_eq("abc", "abc"));
    assert!(!str_eq("abc", "abd"));
    assert!(!str_eq("ab", "abc"));
    assert_eq!(compare_keys("ab", "abc"), KeyOrder::Less);
    assert_eq!(compare_keys("b", "abc"), KeyOrder::Greater);
    assert_eq!(compare_keys("é", "z"), KeyOrder::Greater);
    assert_eq!(compare_keys("", ""), KeyOrder::Equal);
    assert!(is_tag_char('-') && is_tag_char('7') && is_tag_char('q'));
    assert!(!is_tag_char('Q') && !is_tag_char('_') && !is_tag_char(' '));
}
