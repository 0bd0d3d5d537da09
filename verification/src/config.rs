//! The operator-supplied catalog configuration: per-tool entries kept in an
//! ordered map, strictness defaults, catalog-wide defaults, and the rules
//! that a configuration must meet before the plugin is built from it.

use vstd::prelude::*;
use crate::metadata::{CatalogMetadata, CatalogMetadataView};
use crate::text::{
    compare_keys, is_tag_char, lemma_lex_lt_irreflexive, lemma_lex_lt_transitive, lex_lt, str_eq,
    KeyOrder,
};
use crate::trust::{is_trust_level, trust_level_rank};

verus! {

// ---------------------------------------------------------------------------
// Outside error types carried by `ConfigError`
// ---------------------------------------------------------------------------

/// Declares `serde_json::Error` so that `ConfigError` can carry it; it is
/// opaque here and nothing is claimed of its contents.
#[verifier::external_type_specification]
#[verifier::external_body]
pub struct ExJsonError(serde_json::Error);

/// Declares `serde_yaml::Error` so that `ConfigError` can carry it; it is
/// opaque here and nothing is claimed of its contents.
#[verifier::external_type_specification]
#[verifier::external_body]
pub struct ExYamlError(serde_yaml::Error);

// ---------------------------------------------------------------------------
// Defaults and tool entries
// ---------------------------------------------------------------------------

/// Strictness knobs applied to tools that have no per-tool entry.
#[derive(Debug, Clone, Copy, PartialEq, Eq, Structural)]
pub struct Defaults {
    /// Drop every tool that has no entry (allowlist mode).
    pub hide_unknown: bool,
    /// Require `verified` trust for tools that have no entry.
    pub require_verified_for_unknown: bool,
}

impl Default for Defaults {
    fn default() -> (r: Self)
        ensures
            !r.hide_unknown,
            !r.require_verified_for_unknown,
    {
        Defaults { hide_unknown: false, require_verified_for_unknown: false }
    }
}

/// A per-tool catalog entry: the metadata surfaced to clients, and a flag
/// that drops the tool from the listing.
#[derive(Debug, PartialEq, Eq)]
pub struct ToolEntry {
    pub metadata: CatalogMetadata,
    pub hide: bool,
}

/// The mathematical value of a `ToolEntry`.
#[verifier::ext_equal]
pub struct ToolEntryView {
    pub metadata: CatalogMetadataView,
    pub hide: bool,
}

impl View for ToolEntry {
    type V = ToolEntryView;

    open spec fn view(&self) -> ToolEntryView {
        ToolEntryView { metadata: self.metadata@, hide: self.hide }
    }
}

impl Clone for ToolEntry {
    fn clone(&self) -> (r: Self)
        ensures
            r@ == self@,
    {
        ToolEntry { metadata: self.metadata.clone(), hide: self.hide }
    }
}

impl Default for ToolEntry {
    fn default() -> (r: Self)
        ensures
            r@ == (ToolEntryView { metadata: CatalogMetadataView::empty(), hide: false }),
    {
        ToolEntry { metadata: CatalogMetadata::default(), hide: false }
    }
}

// ---------------------------------------------------------------------------
// The ordered map of tool entries
// ---------------------------------------------------------------------------

/// Whether the keys of `s` are strictly increasing in `lex_lt` order.
pub open spec fn keys_sorted(s: Seq<(Seq<char>, ToolEntryView)>) -> bool {
    forall|i: int, j: int| 0 <= i < j < s.len() ==> lex_lt(#[trigger] s[i].0, #[trigger] s[j].0)
}

/// The entry stored under key `k`, if any.
pub open spec fn lookup(s: Seq<(Seq<char>, ToolEntryView)>, k: Seq<char>) -> Option<ToolEntryView> {
    if exists|i: int| 0 <= i < s.len() && #[trigger] s[i].0 == k {
        Some(s[choose|i: int| 0 <= i < s.len() && #[trigger] s[i].0 == k].1)
    } else {
        None
    }
}

/// The mathematical value of a list of keyed entries.
pub open spec fn pairs_view(s: Seq<(String, ToolEntry)>) -> Seq<(Seq<char>, ToolEntryView)> {
    s.map_values(|p: (String, ToolEntry)| (p.0@, p.1@))
}

/// In a sorted sequence no key occurs twice.
pub proof fn lemma_sorted_keys_distinct(s: Seq<(Seq<char>, ToolEntryView)>)
    requires
        keys_sorted(s),
    ensures
        forall|i: int, j: int| 0 <= i < s.len() && 0 <= j < s.len() && i != j ==> s[i].0 != s[j].0,
{
    assert forall|i: int, j: int| 0 <= i < s.len() && 0 <= j < s.len() && i != j implies s[i].0 != s[j].0 by {
        lemma_lex_lt_irreflexive(s[i].0);
        if i < j {
            assert(lex_lt(s[i].0, s[j].0));
        } else {
            assert(lex_lt(s[j].0, s[i].0));
        }
    }
}

/// In a sequence with distinct keys, looking up the key at index `i`
/// gives the entry at index `i`.
pub proof fn lemma_lookup_at(s: Seq<(Seq<char>, ToolEntryView)>, i: int)
    requires
        keys_sorted(s),
        0 <= i < s.len(),
    ensures
        lookup(s, s[i].0) == Some(s[i].1),
{
    lemma_sorted_keys_distinct(s);
    assert(s[i].0 == s[i].0);
}

/// An ordered map from tool ids to entries: keys are unique and kept in
/// increasing order, so walking it visits the tools by id.
#[derive(Debug)]
pub struct ToolMap {
    entries: Vec<(String, ToolEntry)>,
}

impl View for ToolMap {
    type V = Seq<(Seq<char>, ToolEntryView)>;

    closed spec fn view(&self) -> Seq<(Seq<char>, ToolEntryView)> {
        pairs_view(self.entries@)
    }
}

impl ToolMap {
    #[verifier::type_invariant]
    spec fn sorted(self) -> bool {
        keys_sorted(pairs_view(self.entries@))
    }

    /// The empty map.
    pub fn new() -> (r: Self)
        ensures
            r@ == Seq::<(Seq<char>, ToolEntryView)>::empty(),
            keys_sorted(r@),
    {
        let r = ToolMap { entries: Vec::new() };
        assert(r@ =~= Seq::<(Seq<char>, ToolEntryView)>::empty());
        r
    }

    /// The number of entries.
    pub fn len(&self) -> (n: usize)
        ensures
            n == self@.len(),
    {
        self.entries.len()
    }

    /// The entries, in increasing key order.
    pub fn as_slice(&self) -> (r: &[(String, ToolEntry)])
        ensures
            pairs_view(r@) == self@,
            keys_sorted(self@),
    {
        proof {
            use_type_invariant(self);
        }
        self.entries.as_slice()
    }

    /// The entry stored under `key`, found by binary search.
    pub fn get(&self, key: &str) -> (r: Option<&ToolEntry>)
        ensures
            match r {
                Some(e) => lookup(self@, key@) == Some(e@),
                None => lookup(self@, key@) is None,
            },
    {
        proof {
            use_type_invariant(self);
        }
        let ghost s = self@;
        let mut lo: usize = 0;
        let mut hi: usize = self.entries.len();
        while lo < hi
            invariant
                s == pairs_view(self.entries@),
                keys_sorted(s),
                lo <= hi <= s.len(),
                forall|j: int| 0 <= j < lo ==> lex_lt(#[trigger] s[j].0, key@),
                forall|j: int| hi <= j < s.len() ==> lex_lt(key@, #[trigger] s[j].0),
            decreases hi - lo,
        {
            let mid = lo + (hi - lo) / 2;
            assert(s[mid as int].0 == self.entries[mid as int].0@);
            match compare_keys(self.entries[mid].0.as_str(), key) {
                KeyOrder::Equal => {
                    proof {
                        lemma_lookup_at(s, mid as int);
                    }
                    return Some(&self.entries[mid].1);
                },
                KeyOrder::Less => {
                    assert forall|j: int| 0 <= j < mid + 1 implies lex_lt(#[trigger] s[j].0, key@) by {
                        if j < mid {
                            lemma_lex_lt_transitive(s[j].0, s[mid as int].0, key@);
                        }
                    }
                    lo = mid + 1;
                },
                KeyOrder::Greater => {
                    assert forall|j: int| mid <= j < s.len() implies lex_lt(key@, #[trigger] s[j].0) by {
                        if j > mid {
                            lemma_lex_lt_transitive(key@, s[mid as int].0, s[j].0);
                        }
                    }
                    hi = mid;
                },
            }
        }
        assert forall|j: int| 0 <= j < s.len() implies #[trigger] s[j].0 != key@ by {
            lemma_lex_lt_irreflexive(key@);
        }
        None
    }

    /// Stores `entry` under `key`, replacing and returning the entry that
    /// was stored there before, if any.
    pub fn insert(&mut self, key: String, entry: ToolEntry) -> (r: Option<ToolEntry>)
        ensures
            forall|k: Seq<char>|
                #![trigger lookup(final(self)@, k)]
                lookup(final(self)@, k) == if k == key@ {
                    Some(entry@)
                } else {
                    lookup(old(self)@, k)
                },
            match r {
                Some(e) => lookup(old(self)@, key@) == Some(e@),
                None => lookup(old(self)@, key@) is None,
            },
            final(self)@.len() == old(self)@.len() + if r is Some { 0int } else { 1int },
            keys_sorted(final(self)@),
    {
        proof {
            use_type_invariant(&*self);
        }
        let ghost key_v = key@;
        let ghost entry_v = entry@;
        let mut v: Vec<(String, ToolEntry)> = Vec::new();
        std::mem::swap(&mut v, &mut self.entries);
        let ghost s = pairs_view(v@);
        assert(s == old(self)@);
        proof {
            lemma_sorted_keys_distinct(s);
        }
        let mut i: usize = 0;
        let mut found_later = false;
        while !found_later && i < v.len()
            invariant
                s == pairs_view(v@),
                s == old(self)@,
                keys_sorted(s),
                i <= s.len(),
                forall|j: int| 0 <= j < i ==> lex_lt(#[trigger] s[j].0, key_v),
                found_later ==> i < s.len() && lex_lt(key_v, s[i as int].0),
                key@ == key_v,
                entry@ == entry_v,
            decreases s.len() - i, if found_later { 0int } else { 1int },
        {
            assert(s[i as int].0 == v[i as int].0@);
            match compare_keys(v[i].0.as_str(), key.as_str()) {
                KeyOrder::Less => {
                    i = i + 1;
                },
                KeyOrder::Equal => {
                    let old_pair = v.remove(i);
                    assert(old_pair.1@ == s[i as int].1);
                    v.insert(i, (key, entry));
                    let ghost t = pairs_view(v@);
                    assert(t =~= s.update(i as int, (key_v, entry_v)));
                    assert(keys_sorted(t));
                    proof {
                        lemma_sorted_keys_distinct(s);
                        lemma_sorted_keys_distinct(t);
                        lemma_lookup_at(s, i as int);
                        assert forall|k: Seq<char>| #[trigger] lookup(t, k) == if k == key_v {
                            Some(entry_v)
                        } else {
                            lookup(s, k)
                        } by {
                            if k == key_v {
                                lemma_lookup_at(t, i as int);
                            } else if exists|j: int| 0 <= j < s.len() && #[trigger] s[j].0 == k {
                                let j = choose|j: int| 0 <= j < s.len() && #[trigger] s[j].0 == k;
                                lemma_lookup_at(s, j);
                                lemma_lookup_at(t, j);
                            } else {
                                assert(!exists|j: int| 0 <= j < t.len() && #[trigger] t[j].0 == k);
                            }
                        }
                    }
                    self.entries = v;
                    return Some(old_pair.1);
                },
                KeyOrder::Greater => {
                    found_later = true;
                },
            }
        }
        // `i` is the first position whose key comes after `key`.
        proof {
            assert forall|j: int| i <= j < s.len() implies lex_lt(key_v, #[trigger] s[j].0) by {
                if j > i {
                    lemma_lex_lt_transitive(key_v, s[i as int].0, s[j].0);
                }
            }
        }
        v.insert(i, (key, entry));
        let ghost t = pairs_view(v@);
        assert(t =~= s.insert(i as int, (key_v, entry_v)));
        proof {
            assert forall|a: int, b: int| 0 <= a < b < t.len() implies lex_lt(#[trigger] t[a].0, #[trigger] t[b].0) by {
                if b < i {
                    assert(t[a] == s[a] && t[b] == s[b]);
                } else if b == i {
                    assert(t[a] == s[a]);
                } else if a < i {
                    assert(t[a] == s[a] && t[b] == s[b - 1]);
                } else if a == i {
                    assert(t[b] == s[b - 1]);
                } else {
                    assert(t[a] == s[a - 1] && t[b] == s[b - 1]);
                }
            }
            lemma_sorted_keys_distinct(t);
            assert forall|k: Seq<char>| #[trigger] lookup(t, k) == if k == key_v {
                Some(entry_v)
            } else {
                lookup(s, k)
            } by {
                if k == key_v {
                    lemma_lookup_at(t, i as int);
                } else if exists|j: int| 0 <= j < s.len() && #[trigger] s[j].0 == k {
                    let j = choose|j: int| 0 <= j < s.len() && #[trigger] s[j].0 == k;
                    lemma_lookup_at(s, j);
                    if j < i {
                        lemma_lookup_at(t, j);
                    } else {
                        assert(t[j + 1] == s[j]);
                        lemma_lookup_at(t, j + 1);
                    }
                } else {
                    assert forall|j: int| 0 <= j < t.len() implies #[trigger] t[j].0 != k by {
                        if j < i {
                            assert(t[j] == s[j]);
                        } else if j > i {
                            assert(t[j] == s[j - 1]);
                        }
                    }
                }
            }
            assert forall|j: int| 0 <= j < s.len() implies #[trigger] s[j].0 != key_v by {
                lemma_lex_lt_irreflexive(key_v);
            }
        }
        self.entries = v;
        None
    }
}

// ---------------------------------------------------------------------------
// The configuration
// ---------------------------------------------------------------------------

/// The catalog configuration of the plugin.
#[derive(Debug)]
pub struct CatalogConfig {
    /// Per-tool entries, keyed by tool id (the binding's `name`).
    pub tools: ToolMap,
    /// Rules for tools that have no entry.
    pub defaults: Defaults,
    /// Metadata used wherever an entry leaves a field unset.
    pub global_defaults: CatalogMetadata,
}

/// The mathematical value of a `CatalogConfig`.
#[verifier::ext_equal]
pub struct CatalogConfigView {
    pub tools: Seq<(Seq<char>, ToolEntryView)>,
    pub defaults: Defaults,
    pub global_defaults: CatalogMetadataView,
}

impl View for CatalogConfig {
    type V = CatalogConfigView;

    open spec fn view(&self) -> CatalogConfigView {
        CatalogConfigView {
            tools: self.tools@,
            defaults: self.defaults,
            global_defaults: self.global_defaults@,
        }
    }
}

impl Default for CatalogConfig {
    fn default() -> (r: Self)
        ensures
            r@.tools.len() == 0,
            !r@.defaults.hide_unknown,
            !r@.defaults.require_verified_for_unknown,
            r@.global_defaults == CatalogMetadataView::empty(),
    {
        CatalogConfig {
            tools: ToolMap::new(),
            defaults: Defaults::default(),
            global_defaults: CatalogMetadata::default(),
        }
    }
}

// ---------------------------------------------------------------------------
// Validation
// ---------------------------------------------------------------------------

/// Why a configuration is refused.
#[derive(Debug)]
pub enum ConfigError {
    /// The JSON text could not be parsed into a configuration.
    InvalidJson(serde_json::Error),
    /// The YAML text could not be parsed into a configuration.
    InvalidYaml(serde_yaml::Error),
    /// A per-tool entry has an empty tool id.
    EmptyToolId,
    /// A `trust_required` is not one of the three trust levels.
    InvalidTrustLevel { tool_id: String, value: String },
    /// A `maturity` is not one of the four maturities.
    InvalidMaturity { tool_id: String, value: String },
    /// A tag is empty or holds a character outside `[a-z0-9-]`.
    InvalidTag { tool_id: String, tag: String },
}

/// The mathematical value of a `ConfigError`; a parse error is known by
/// its kind only.
pub enum ConfigErrorView {
    InvalidJson,
    InvalidYaml,
    EmptyToolId,
    InvalidTrustLevel { tool_id: Seq<char>, value: Seq<char> },
    InvalidMaturity { tool_id: Seq<char>, value: Seq<char> },
    InvalidTag { tool_id: Seq<char>, tag: Seq<char> },
}

impl View for ConfigError {
    type V = ConfigErrorView;

    open spec fn view(&self) -> ConfigErrorView {
        match self {
            ConfigError::InvalidJson(_) => ConfigErrorView::InvalidJson,
            ConfigError::InvalidYaml(_) => ConfigErrorView::InvalidYaml,
            ConfigError::EmptyToolId => ConfigErrorView::EmptyToolId,
            ConfigError::InvalidTrustLevel { tool_id, value } => ConfigErrorView::InvalidTrustLevel {
                tool_id: tool_id@,
                value: value@,
            },
            ConfigError::InvalidMaturity { tool_id, value } => ConfigErrorView::InvalidMaturity {
                tool_id: tool_id@,
                value: value@,
            },
            ConfigError::InvalidTag { tool_id, tag } => ConfigErrorView::InvalidTag {
                tool_id: tool_id@,
                tag: tag@,
            },
        }
    }
}

/// Whether `s` names one of the four maturities.
pub open spec fn is_maturity(s: Seq<char>) -> bool {
    s == "experimental"@ || s == "beta"@ || s == "stable"@ || s == "deprecated"@
}

/// Whether `c` may stand in a tag: `[a-z0-9-]`.
pub open spec fn is_tag_char_spec(c: char) -> bool {
    ('a' <= c && c <= 'z') || ('0' <= c && c <= '9') || c == '-'
}

/// Whether `t` matches `[a-z0-9-]+`.
pub open spec fn is_valid_tag(t: Seq<char>) -> bool {
    t.len() > 0 && forall|i: int| 0 <= i < t.len() ==> is_tag_char_spec(#[trigger] t[i])
}

/// The first tag of `tags` that is not valid, if any.
pub open spec fn first_invalid_tag(tags: Seq<Seq<char>>) -> Option<Seq<char>>
    decreases tags.len(),
{
    if tags.len() == 0 {
        None
    } else {
        match first_invalid_tag(tags.drop_last()) {
            Some(t) => Some(t),
            None => if is_valid_tag(tags.last()) {
                None
            } else {
                Some(tags.last())
            },
        }
    }
}

/// The first rule that metadata under `tool_id` breaks: its trust level,
/// then its maturity, then its tags in order.
pub open spec fn metadata_error(tool_id: Seq<char>, m: CatalogMetadataView) -> Option<ConfigErrorView> {
    if m.trust_required is Some && !is_trust_level(m.trust_required->0) {
        Some(ConfigErrorView::InvalidTrustLevel { tool_id, value: m.trust_required->0 })
    } else if m.maturity is Some && !is_maturity(m.maturity->0) {
        Some(ConfigErrorView::InvalidMaturity { tool_id, value: m.maturity->0 })
    } else {
        match first_invalid_tag(m.tags) {
            Some(tag) => Some(ConfigErrorView::InvalidTag { tool_id, tag }),
            None => None,
        }
    }
}

/// The first rule that a per-tool entry breaks: an empty id, then its metadata.
pub open spec fn entry_error(tool_id: Seq<char>, e: ToolEntryView) -> Option<ConfigErrorView> {
    if tool_id.len() == 0 {
        Some(ConfigErrorView::EmptyToolId)
    } else {
        metadata_error(tool_id, e.metadata)
    }
}

/// The error of the first entry of `tools` that breaks a rule, if any.
pub open spec fn first_tool_error(tools: Seq<(Seq<char>, ToolEntryView)>) -> Option<ConfigErrorView>
    decreases tools.len(),
{
    if tools.len() == 0 {
        None
    } else {
        match first_tool_error(tools.drop_last()) {
            Some(e) => Some(e),
            None => entry_error(tools.last().0, tools.last().1),
        }
    }
}

/// The name under which errors in `global_defaults` are reported.
pub open spec fn global_defaults_id() -> Seq<char> {
    "<global_defaults>"@
}

/// The first rule that a configuration breaks: the tools in key order,
/// then the global defaults.
pub open spec fn config_error(c: CatalogConfigView) -> Option<ConfigErrorView> {
    match first_tool_error(c.tools) {
        Some(e) => Some(e),
        None => metadata_error(global_defaults_id(), c.global_defaults),
    }
}

/// Checks that `value` is one of `verified`, `header_asserted`, `anonymous`.
pub fn validate_trust_level(tool_id: &str, value: &str) -> (r: Result<(), ConfigError>)
    ensures
        r is Ok <==> is_trust_level(value@),
        r matches Err(e) ==> e@ == (ConfigErrorView::InvalidTrustLevel { tool_id: tool_id@, value: value@ }),
{
    match trust_level_rank(value) {
        Some(_) => Ok(()),
        None => Err(ConfigError::InvalidTrustLevel { tool_id: tool_id.to_owned(), value: value.to_owned() }),
    }
}

/// Checks that `value` is one of `experimental`, `beta`, `stable`, `deprecated`.
pub fn validate_maturity(tool_id: &str, value: &str) -> (r: Result<(), ConfigError>)
    ensures
        r is Ok <==> is_maturity(value@),
        r matches Err(e) ==> e@ == (ConfigErrorView::InvalidMaturity { tool_id: tool_id@, value: value@ }),
{
    if str_eq(value, "experimental") || str_eq(value, "beta") || str_eq(value, "stable") || str_eq(
        value,
        "deprecated",
    ) {
        Ok(())
    } else {
        Err(ConfigError::InvalidMaturity { tool_id: tool_id.to_owned(), value: value.to_owned() })
    }
}

/// Checks that `tag` matches `[a-z0-9-]+`.
pub fn validate_tag(tool_id: &str, tag: &str) -> (r: Result<(), ConfigError>)
    ensures
        r is Ok <==> is_valid_tag(tag@),
        r is Ok <==> (tag@.len() > 0 && forall|i: int|
            #![trigger tag@[i]]
            0 <= i < tag@.len() ==> (('a' <= tag@[i] && tag@[i] <= 'z') || ('0' <= tag@[i] && tag@[i] <= '9')
                || tag@[i] == '-')),
        r matches Err(e) ==> e@ == (ConfigErrorView::InvalidTag { tool_id: tool_id@, tag: tag@ }),
{
    proof {
        law_tag_charset(tag@);
    }
    let n = tag.unicode_len();
    let mut ok = n > 0;
    let mut i: usize = 0;
    while ok && i < n
        invariant
            n == tag@.len(),
            i <= n,
            ok ==> n > 0 && forall|j: int| 0 <= j < i ==> is_tag_char_spec(#[trigger] tag@[j]),
            !ok ==> !is_valid_tag(tag@),
        decreases n - i,
    {
        if !is_tag_char(tag.get_char(i)) {
            ok = false;
        }
        i = i + 1;
    }
    if ok {
        Ok(())
    } else {
        Err(ConfigError::InvalidTag { tool_id: tool_id.to_owned(), tag: tag.to_owned() })
    }
}

/// Checks the metadata filed under `tool_id`.
fn validate_metadata(tool_id: &str, m: &CatalogMetadata) -> (r: Result<(), ConfigError>)
    ensures
        match r {
            Ok(()) => metadata_error(tool_id@, m@) is None,
            Err(e) => metadata_error(tool_id@, m@) == Some(e@),
        },
{
    if let Some(level) = &m.trust_required {
        validate_trust_level(tool_id, level.as_str())?;
    }
    if let Some(maturity) = &m.maturity {
        validate_maturity(tool_id, maturity.as_str())?;
    }
    let mut i: usize = 0;
    while i < m.tags.len()
        invariant
            i <= m.tags.len(),
            first_invalid_tag(m@.tags.take(i as int)) is None,
            m@.trust_required matches Some(t) ==> is_trust_level(t),
            m@.maturity matches Some(t) ==> is_maturity(t),
        decreases m.tags.len() - i,
    {
        let ghost taken = m@.tags.take(i as int + 1);
        assert(taken.drop_last() =~= m@.tags.take(i as int));
        assert(taken.last() == m.tags[i as int]@);
        if let Err(e) = validate_tag(tool_id, m.tags[i].as_str()) {
            proof {
                assert(!is_valid_tag(m@.tags[i as int]));
                assert(first_invalid_tag(taken) == Some(m@.tags[i as int]));
                lemma_first_invalid_tag_prefix(m@.tags, i as int + 1);
                assert(first_invalid_tag(m@.tags) == Some(m@.tags[i as int]));
                assert(m@.trust_required matches Some(t) ==> is_trust_level(t));
                assert(m@.maturity matches Some(t) ==> is_maturity(t));
            }
            return Err(e);
        }
        i = i + 1;
    }
    assert(m@.tags.take(m.tags.len() as int) =~= m@.tags);
    Ok(())
}

/// The first invalid tag of a prefix is the first invalid tag of the whole.
proof fn lemma_first_invalid_tag_prefix(tags: Seq<Seq<char>>, n: int)
    requires
        0 <= n <= tags.len(),
        first_invalid_tag(tags.take(n)) is Some,
    ensures
        first_invalid_tag(tags) == first_invalid_tag(tags.take(n)),
    decreases tags.len() - n,
{
    if n < tags.len() {
        assert(tags.take(n + 1).drop_last() =~= tags.take(n));
        lemma_first_invalid_tag_prefix(tags, n + 1);
    } else {
        assert(tags.take(n) =~= tags);
    }
}

/// The first error of a prefix is the first error of the whole.
proof fn lemma_first_tool_error_prefix(tools: Seq<(Seq<char>, ToolEntryView)>, n: int)
    requires
        0 <= n <= tools.len(),
        first_tool_error(tools.take(n)) is Some,
    ensures
        first_tool_error(tools) == first_tool_error(tools.take(n)),
    decreases tools.len() - n,
{
    if n < tools.len() {
        assert(tools.take(n + 1).drop_last() =~= tools.take(n));
        lemma_first_tool_error_prefix(tools, n + 1);
    } else {
        assert(tools.take(n) =~= tools);
    }
}

impl CatalogConfig {
    /// Runs the configuration rules: every tool id is non-empty, every
    /// `trust_required` is a trust level, every `maturity` a maturity, and
    /// every tag matches `[a-z0-9-]+`, in the entries (by id) and in the
    /// global defaults. The first broken rule is reported.
    pub fn validate(&self) -> (r: Result<(), ConfigError>)
        ensures
            match r {
                Ok(()) => config_error(self@) is None,
                Err(e) => config_error(self@) == Some(e@),
            },
    {
        let entries = self.tools.as_slice();
        let ghost s = self.tools@;
        let mut i: usize = 0;
        while i < entries.len()
            invariant
                pairs_view(entries@) == s,
                s == self.tools@,
                i <= s.len(),
                first_tool_error(s.take(i as int)) is None,
            decreases s.len() - i,
        {
            let ghost taken = s.take(i as int + 1);
            assert(taken.drop_last() =~= s.take(i as int));
            assert(taken.last() == (entries[i as int].0@, entries[i as int].1@));
            let tool_id = entries[i].0.as_str();
            if tool_id.unicode_len() == 0 {
                proof {
                    lemma_first_tool_error_prefix(s, i as int + 1);
                }
                return Err(ConfigError::EmptyToolId);
            }
            if let Err(e) = validate_metadata(tool_id, &entries[i].1.metadata) {
                proof {
                    lemma_first_tool_error_prefix(s, i as int + 1);
                }
                return Err(e);
            }
            i = i + 1;
        }
        assert(s.take(s.len() as int) =~= s);
        validate_metadata("<global_defaults>", &self.global_defaults)
    }
}

/// A configuration that passes the rules is well formed: every tool id is
/// non-empty, and every trust level, maturity and tag in the entries and
/// in the global defaults is one that the rules accept.
pub proof fn law_accepted_config_is_well_formed(c: CatalogConfigView)
    requires
        config_error(c) is None,
    ensures
        forall|i: int| #![trigger c.tools[i]] 0 <= i < c.tools.len() ==> {
            &&& c.tools[i].0.len() > 0
            &&& metadata_well_formed(c.tools[i].1.metadata)
        },
        metadata_well_formed(c.global_defaults),
{
    lemma_no_tool_error(c.tools);
    lemma_no_metadata_error(global_defaults_id(), c.global_defaults);
}

/// Every trust level, maturity and tag of `m` is accepted by the rules.
pub open spec fn metadata_well_formed(m: CatalogMetadataView) -> bool {
    &&& m.trust_required matches Some(t) ==> is_trust_level(t)
    &&& m.maturity matches Some(v) ==> is_maturity(v)
    &&& forall|j: int| 0 <= j < m.tags.len() ==> is_valid_tag(#[trigger] m.tags[j])
}

proof fn lemma_no_invalid_tag(tags: Seq<Seq<char>>)
    requires
        first_invalid_tag(tags) is None,
    ensures
        forall|j: int| 0 <= j < tags.len() ==> is_valid_tag(#[trigger] tags[j]),
    decreases tags.len(),
{
    if tags.len() > 0 {
        lemma_no_invalid_tag(tags.drop_last());
        assert forall|j: int| 0 <= j < tags.len() implies is_valid_tag(#[trigger] tags[j]) by {
            if j < tags.len() - 1 {
                assert(tags.drop_last()[j] == tags[j]);
            }
        }
    }
}

proof fn lemma_no_metadata_error(tool_id: Seq<char>, m: CatalogMetadataView)
    requires
        metadata_error(tool_id, m) is None,
    ensures
        metadata_well_formed(m),
{
    lemma_no_invalid_tag(m.tags);
}

proof fn lemma_no_tool_error(tools: Seq<(Seq<char>, ToolEntryView)>)
    requires
        first_tool_error(tools) is None,
    ensures
        forall|i: int| #![trigger tools[i]] 0 <= i < tools.len() ==> {
            &&& tools[i].0.len() > 0
            &&& metadata_well_formed(tools[i].1.metadata)
        },
    decreases tools.len(),
{
    if tools.len() > 0 {
        lemma_no_tool_error(tools.drop_last());
        lemma_no_metadata_error(tools.last().0, tools.last().1.metadata);
        assert forall|i: int| #![trigger tools[i]] 0 <= i < tools.len() implies {
            &&& tools[i].0.len() > 0
            &&& metadata_well_formed(tools[i].1.metadata)
        } by {
            if i < tools.len() - 1 {
                assert(tools.drop_last()[i] == tools[i]);
            }
        }
    }
}

/// A tag is valid exactly when it is non-empty and every character is a
/// lower-case ASCII letter `a`..=`z`, an ASCII digit `0`..=`9` or `-`.
pub proof fn law_tag_charset(t: Seq<char>)
    ensures
        is_valid_tag(t) <==> (t.len() > 0 && forall|i: int|
            #![trigger t[i]]
            0 <= i < t.len() ==> (('a' <= t[i] && t[i] <= 'z') || ('0' <= t[i] && t[i] <= '9') || t[i] == '-')),
{
}

} // verus!
