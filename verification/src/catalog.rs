//! The builtin catalog provider: it drops hidden, unknown (in allowlist
//! mode) and too-trusted tools from a listing, annotates the rest with the
//! configured metadata, and answers catalog lookups.

use vstd::prelude::*;
use crate::config::{
    keys_sorted, lemma_lookup_at, lookup, CatalogConfig, CatalogConfigView, ToolEntry, ToolEntryView,
};
use crate::metadata::{clone_opt_string, law_merge_again_is_identity, CatalogMetadata, CatalogMetadataView};
use crate::trust::{trust_level_meets, trust_meets, trust_rank};

verus! {

// ---------------------------------------------------------------------------
// Tool descriptors and catalog entries
// ---------------------------------------------------------------------------

/// A tool as a `tools/list` response describes it. The schemas are JSON text.
#[derive(Debug, PartialEq, Eq)]
pub struct ToolDescriptor {
    pub name: String,
    pub title: Option<String>,
    pub description: String,
    pub input_schema: String,
    pub output_schema: Option<String>,
}

/// The mathematical value of a `ToolDescriptor`.
#[verifier::ext_equal]
pub struct ToolDescriptorView {
    pub name: Seq<char>,
    pub title: Option<Seq<char>>,
    pub description: Seq<char>,
    pub input_schema: Seq<char>,
    pub output_schema: Option<Seq<char>>,
}

impl View for ToolDescriptor {
    type V = ToolDescriptorView;

    open spec fn view(&self) -> ToolDescriptorView {
        ToolDescriptorView {
            name: self.name@,
            title: self.title.deep_view(),
            description: self.description@,
            input_schema: self.input_schema@,
            output_schema: self.output_schema.deep_view(),
        }
    }
}

impl Clone for ToolDescriptor {
    fn clone(&self) -> (r: Self)
        ensures
            r@ == self@,
    {
        ToolDescriptor {
            name: self.name.clone(),
            title: clone_opt_string(&self.title),
            description: self.description.clone(),
            input_schema: self.input_schema.clone(),
            output_schema: clone_opt_string(&self.output_schema),
        }
    }
}

/// A tool in a listing that passes along the provider chain, with the
/// catalog metadata that providers earlier in the chain attached.
#[derive(Debug, PartialEq, Eq)]
pub struct EnrichedToolDescriptor {
    pub base: ToolDescriptor,
    pub catalog: Option<CatalogMetadata>,
}

/// The mathematical value of an `EnrichedToolDescriptor`.
#[verifier::ext_equal]
pub struct EnrichedToolView {
    pub base: ToolDescriptorView,
    pub catalog: Option<CatalogMetadataView>,
}

impl View for EnrichedToolDescriptor {
    type V = EnrichedToolView;

    open spec fn view(&self) -> EnrichedToolView {
        EnrichedToolView {
            base: self.base@,
            catalog: match self.catalog {
                Some(m) => Some(m@),
                None => None,
            },
        }
    }
}

/// A copy of optional metadata.
fn clone_opt_metadata(m: &Option<CatalogMetadata>) -> (r: Option<CatalogMetadata>)
    ensures
        match (r, *m) {
            (Some(a), Some(b)) => a@ == b@,
            (None, None) => true,
            _ => false,
        },
{
    match m {
        Some(x) => Some(x.clone()),
        None => None,
    }
}

impl Clone for EnrichedToolDescriptor {
    fn clone(&self) -> (r: Self)
        ensures
            r@ == self@,
    {
        let r = EnrichedToolDescriptor { base: self.base.clone(), catalog: clone_opt_metadata(&self.catalog) };
        assert(r@ =~= self@);
        r
    }
}

impl EnrichedToolDescriptor {
    /// A tool that carries no catalog metadata yet.
    pub fn from_base(base: ToolDescriptor) -> (r: Self)
        ensures
            r@ == (EnrichedToolView { base: base@, catalog: None }),
    {
        EnrichedToolDescriptor { base, catalog: None }
    }
}

/// The mathematical value of a list of tools.
pub open spec fn tools_view(s: Seq<EnrichedToolDescriptor>) -> Seq<EnrichedToolView> {
    s.map_values(|t: EnrichedToolDescriptor| t@)
}

/// What a catalog lookup answers about one tool.
#[derive(Debug, PartialEq, Eq)]
pub struct CatalogEntry {
    pub tool_id: String,
    pub display_name: Option<String>,
    pub description: Option<String>,
    pub catalog: CatalogMetadata,
}

/// The mathematical value of a `CatalogEntry`.
#[verifier::ext_equal]
pub struct CatalogEntryView {
    pub tool_id: Seq<char>,
    pub display_name: Option<Seq<char>>,
    pub description: Option<Seq<char>>,
    pub catalog: CatalogMetadataView,
}

impl View for CatalogEntry {
    type V = CatalogEntryView;

    open spec fn view(&self) -> CatalogEntryView {
        CatalogEntryView {
            tool_id: self.tool_id@,
            display_name: self.display_name.deep_view(),
            description: self.description.deep_view(),
            catalog: self.catalog@,
        }
    }
}

// ---------------------------------------------------------------------------
// The plugin manifest
// ---------------------------------------------------------------------------

/// The class of a gateway plugin; this one is a catalog provider.
#[derive(Debug, Clone, Copy, PartialEq, Eq, Structural)]
pub enum PluginClass {
    CatalogProvider,
}

/// The description of the plugin that the gateway loads.
#[derive(Debug)]
pub struct PluginManifest {
    pub id: String,
    pub version: String,
    pub name: String,
    pub plugin_class: PluginClass,
    pub protocol_version: String,
    pub license: Option<String>,
    pub required_capabilities: Vec<String>,
    pub tags: Vec<String>,
    pub provides: Vec<String>,
    pub provides_schemes: Vec<String>,
    pub module_path_prefix: String,
    pub backend_profile: Option<String>,
}

/// The mathematical value of a `PluginManifest`.
#[verifier::ext_equal]
pub struct PluginManifestView {
    pub id: Seq<char>,
    pub version: Seq<char>,
    pub name: Seq<char>,
    pub plugin_class: PluginClass,
    pub protocol_version: Seq<char>,
    pub license: Option<Seq<char>>,
    pub required_capabilities: Seq<Seq<char>>,
    pub tags: Seq<Seq<char>>,
    pub provides: Seq<Seq<char>>,
    pub provides_schemes: Seq<Seq<char>>,
    pub module_path_prefix: Seq<char>,
    pub backend_profile: Option<Seq<char>>,
}

impl View for PluginManifest {
    type V = PluginManifestView;

    open spec fn view(&self) -> PluginManifestView {
        PluginManifestView {
            id: self.id@,
            version: self.version@,
            name: self.name@,
            plugin_class: self.plugin_class,
            protocol_version: self.protocol_version@,
            license: self.license.deep_view(),
            required_capabilities: self.required_capabilities.deep_view(),
            tags: self.tags.deep_view(),
            provides: self.provides.deep_view(),
            provides_schemes: self.provides_schemes.deep_view(),
            module_path_prefix: self.module_path_prefix@,
            backend_profile: self.backend_profile.deep_view(),
        }
    }
}

/// The manifest of this plugin: a catalog provider that asks for no
/// capabilities.
pub open spec fn default_manifest_view() -> PluginManifestView {
    PluginManifestView {
        id: "dev.mcpg.catalog.builtin"@,
        version: "0.1.0"@,
        name: "Builtin Catalog Provider"@,
        plugin_class: PluginClass::CatalogProvider,
        protocol_version: "1.0"@,
        license: None,
        required_capabilities: Seq::empty(),
        tags: Seq::empty(),
        provides: Seq::empty(),
        provides_schemes: Seq::empty(),
        module_path_prefix: "mcpg_plugin_catalog_builtin"@,
        backend_profile: None,
    }
}

/// Builds the manifest of this plugin.
pub fn default_manifest() -> (r: PluginManifest)
    ensures
        r@ == default_manifest_view(),
{
    let r = PluginManifest {
        id: "dev.mcpg.catalog.builtin".to_owned(),
        version: "0.1.0".to_owned(),
        name: "Builtin Catalog Provider".to_owned(),
        plugin_class: PluginClass::CatalogProvider,
        protocol_version: "1.0".to_owned(),
        license: None,
        required_capabilities: Vec::new(),
        tags: Vec::new(),
        provides: Vec::new(),
        provides_schemes: Vec::new(),
        module_path_prefix: "mcpg_plugin_catalog_builtin".to_owned(),
        backend_profile: None,
    };
    assert(r@ =~= default_manifest_view());
    r
}

// ---------------------------------------------------------------------------
// The rules of the provider, over mathematical values
// ---------------------------------------------------------------------------

/// The mathematical value of an optional borrowed entry.
pub open spec fn entry_view(e: Option<&ToolEntry>) -> Option<ToolEntryView> {
    match e {
        Some(x) => Some(x@),
        None => None,
    }
}

/// The trust level that a tool requires, in priority order: what an
/// earlier provider attached, the entry's own, the global default, and,
/// for a tool with no entry only, `verified` when the strict default is on.
pub open spec fn effective_trust(
    c: CatalogConfigView,
    incoming: Option<Seq<char>>,
    entry: Option<ToolEntryView>,
) -> Option<Seq<char>> {
    if incoming is Some {
        incoming
    } else if entry matches Some(e) && e.metadata.trust_required is Some {
        entry->0.metadata.trust_required
    } else if c.global_defaults.trust_required is Some {
        c.global_defaults.trust_required
    } else if entry is None && c.defaults.require_verified_for_unknown {
        Some("verified"@)
    } else {
        None
    }
}

/// The metadata this provider contributes for a tool: the entry's own,
/// completed from the global defaults.
pub open spec fn contribution(c: CatalogConfigView, entry: Option<ToolEntryView>) -> CatalogMetadataView {
    match entry {
        Some(e) => e.metadata,
        None => CatalogMetadataView::empty(),
    }.merged(c.global_defaults)
}

/// The trust level that an earlier provider attached to a tool.
pub open spec fn incoming_trust(t: EnrichedToolView) -> Option<Seq<char>> {
    match t.catalog {
        Some(m) => m.trust_required,
        None => None,
    }
}

/// Whether a caller at trust level `caller` is shown the tool `t`: it is
/// not hidden, not unknown in allowlist mode, and the caller meets the
/// trust level the tool requires.
pub open spec fn keeps_tool(c: CatalogConfigView, caller: Seq<char>, t: EnrichedToolView) -> bool {
    let entry = lookup(c.tools, t.base.name);
    &&& !(entry matches Some(e) && e.hide)
    &&& !(entry is None && c.defaults.hide_unknown)
    &&& match effective_trust(c, incoming_trust(t), entry) {
        Some(required) => trust_meets(caller, required),
        None => true,
    }
}

/// The tool `t` with this provider's contribution merged into its metadata;
/// unchanged when there is nothing to contribute.
pub open spec fn enriched_tool(c: CatalogConfigView, t: EnrichedToolView) -> EnrichedToolView {
    let added = contribution(c, lookup(c.tools, t.base.name));
    if added.is_empty() {
        t
    } else {
        EnrichedToolView {
            base: t.base,
            catalog: Some(
                match t.catalog {
                    Some(m) => m,
                    None => CatalogMetadataView::empty(),
                }.merged(added),
            ),
        }
    }
}

/// The listing a caller at trust level `caller` is given: the tools it is
/// shown, in their order, each enriched.
pub open spec fn listing(c: CatalogConfigView, caller: Seq<char>, tools: Seq<EnrichedToolView>) -> Seq<EnrichedToolView>
    decreases tools.len(),
{
    if tools.len() == 0 {
        Seq::empty()
    } else {
        let prev = listing(c, caller, tools.drop_last());
        if keeps_tool(c, caller, tools.last()) {
            prev.push(enriched_tool(c, tools.last()))
        } else {
            prev
        }
    }
}

/// The catalog entry for a tool with entry `e`.
pub open spec fn catalog_entry(c: CatalogConfigView, tool_id: Seq<char>, e: ToolEntryView) -> CatalogEntryView {
    CatalogEntryView {
        tool_id,
        display_name: None,
        description: None,
        catalog: e.metadata.merged(c.global_defaults),
    }
}

/// The answer to a lookup of `tool_id`.
pub open spec fn described(c: CatalogConfigView, tool_id: Seq<char>) -> Option<CatalogEntryView> {
    match lookup(c.tools, tool_id) {
        Some(e) => Some(catalog_entry(c, tool_id, e)),
        None => None,
    }
}

/// The whole catalog, one entry per configured tool, in tool id order.
pub open spec fn catalog_list(c: CatalogConfigView) -> Seq<CatalogEntryView> {
    Seq::new(c.tools.len(), |i: int| catalog_entry(c, c.tools[i].0, c.tools[i].1))
}

// ---------------------------------------------------------------------------
// The provider
// ---------------------------------------------------------------------------

/// The plugin instance: its manifest and its validated configuration.
pub struct BuiltinCatalog {
    manifest: PluginManifest,
    config: CatalogConfig,
}

impl BuiltinCatalog {
    /// The configuration the plugin was built from.
    pub closed spec fn config_view(&self) -> CatalogConfigView {
        self.config@
    }

    /// The plugin's manifest.
    pub closed spec fn manifest_view(&self) -> PluginManifestView {
        self.manifest@
    }

    /// Builds the plugin from a configuration.
    pub fn new(config: CatalogConfig) -> (r: Self)
        ensures
            r.config_view() == config@,
            r.manifest_view() == default_manifest_view(),
    {
        BuiltinCatalog { manifest: default_manifest(), config }
    }

    /// The plugin's manifest.
    pub fn manifest(&self) -> (r: &PluginManifest)
        ensures
            r@ == self.manifest_view(),
    {
        &self.manifest
    }

    /// The configuration the plugin was built from.
    pub fn config(&self) -> (r: &CatalogConfig)
        ensures
            r@ == self.config_view(),
    {
        &self.config
    }

    /// The trust level a tool requires, given what an earlier provider
    /// attached and the tool's entry.
    pub fn effective_trust_required(&self, incoming: Option<&str>, entry: Option<&ToolEntry>) -> (r: Option<String>)
        ensures
            r.deep_view() == effective_trust(self.config_view(), incoming.deep_view(), entry_view(entry)),
    {
        if let Some(level) = incoming {
            return Some(level.to_owned());
        }
        if let Some(e) = entry {
            if let Some(level) = &e.metadata.trust_required {
                return Some(level.clone());
            }
        }
        if let Some(level) = &self.config.global_defaults.trust_required {
            return Some(level.clone());
        }
        if entry.is_none() && self.config.defaults.require_verified_for_unknown {
            return Some("verified".to_owned());
        }
        None
    }

    /// The metadata this plugin contributes for a tool with entry `entry`.
    pub fn contribute(&self, entry: Option<&ToolEntry>) -> (r: CatalogMetadata)
        ensures
            r@ == contribution(self.config_view(), entry_view(entry)),
    {
        let mut result = match entry {
            Some(e) => e.metadata.clone(),
            None => CatalogMetadata::default(),
        };
        result.merge_from(&self.config.global_defaults);
        result
    }

    /// Filters and annotates a listing for a caller at trust level
    /// `caller_trust`: a tool is dropped when its entry hides it, when it has
    /// no entry in allowlist mode, or when the caller does not meet the trust
    /// level it requires; each remaining tool gets this provider's metadata
    /// merged into what it carries (earlier providers win on scalar fields).
    pub fn filter_and_enrich(&self, caller_trust: &str, in_progress: &[EnrichedToolDescriptor]) -> (r: Vec<
        EnrichedToolDescriptor,
    >)
        ensures
            tools_view(r@) == listing(self.config_view(), caller_trust@, tools_view(in_progress@)),
            forall|i: int|
                0 <= i < r@.len() ==> (effective_trust(
                    self.config_view(),
                    incoming_trust(#[trigger] r@[i]@),
                    lookup(self.config_view().tools, r@[i]@.base.name),
                ) matches Some(req) ==> trust_meets(caller_trust@, req)),
    {
        let ghost c = self.config_view();
        let ghost input = tools_view(in_progress@);
        let mut out: Vec<EnrichedToolDescriptor> = Vec::new();
        let mut i: usize = 0;
        assert(input.take(0) =~= Seq::<EnrichedToolView>::empty());
        assert(tools_view(out@) =~= Seq::<EnrichedToolView>::empty());
        while i < in_progress.len()
            invariant
                c == self.config_view(),
                input == tools_view(in_progress@),
                i <= in_progress.len(),
                tools_view(out@) == listing(c, caller_trust@, input.take(i as int)),
            decreases in_progress.len() - i,
        {
            let ghost taken = input.take(i as int + 1);
            assert(taken.drop_last() =~= input.take(i as int));
            assert(taken.last() == in_progress[i as int]@);
            let tool = &in_progress[i];
            let entry = self.config.tools.get(tool.base.name.as_str());
            assert(entry_view(entry) == lookup(c.tools, tool@.base.name));
            let hidden = match entry {
                Some(e) => e.hide,
                None => false,
            };
            let unknown_dropped = entry.is_none() && self.config.defaults.hide_unknown;
            if !hidden && !unknown_dropped {
                let incoming: Option<&str> = match &tool.catalog {
                    Some(m) => match &m.trust_required {
                        Some(level) => Some(level.as_str()),
                        None => None,
                    },
                    None => None,
                };
                assert(incoming.deep_view() == incoming_trust(tool@));
                let allowed = match self.effective_trust_required(incoming, entry) {
                    Some(required) => trust_level_meets(caller_trust, required.as_str()),
                    None => true,
                };
                if allowed {
                    let contribution = self.contribute(entry);
                    let base = tool.base.clone();
                    let mut catalog = clone_opt_metadata(&tool.catalog);
                    if !contribution.is_empty() {
                        let mut existing = match catalog {
                            Some(m) => m,
                            None => CatalogMetadata::default(),
                        };
                        existing.merge_from(&contribution);
                        catalog = Some(existing);
                    }
                    let refined = EnrichedToolDescriptor { base, catalog };
                    assert(refined@ =~= enriched_tool(c, tool@));
                    let ghost before = tools_view(out@);
                    out.push(refined);
                    assert(tools_view(out@) =~= before.push(enriched_tool(c, tool@)));
                }
            }
            i = i + 1;
        }
        assert(input.take(in_progress.len() as int) =~= input);
        proof {
            law_listed_tools_meet_their_trust(c, caller_trust@, input);
            assert forall|i: int| 0 <= i < out@.len() implies #[trigger] out@[i]@ == tools_view(out@)[i] by {}
        }
        out
    }

    /// The catalog entry of the tool `tool_id`, when it has an entry: its
    /// metadata completed from the global defaults.
    pub fn describe(&self, tool_id: &str) -> (r: Option<CatalogEntry>)
        ensures
            match r {
                Some(e) => described(self.config_view(), tool_id@) == Some(e@),
                None => described(self.config_view(), tool_id@) is None,
            },
    {
        match self.config.tools.get(tool_id) {
            Some(e) => {
                let mut m = e.metadata.clone();
                m.merge_from(&self.config.global_defaults);
                let r = CatalogEntry { tool_id: tool_id.to_owned(), display_name: None, description: None, catalog: m };
                assert(r@ =~= catalog_entry(self.config_view(), tool_id@, e@));
                Some(r)
            },
            None => None,
        }
    }

    /// The catalog entries of all configured tools, in tool id order.
    pub fn list_catalog(&self) -> (r: Vec<CatalogEntry>)
        ensures
            r@.len() == self.config_view().tools.len(),
            forall|i: int| 0 <= i < r@.len() ==> #[trigger] r@[i]@ == catalog_list(self.config_view())[i],
    {
        let ghost c = self.config_view();
        let entries = self.config.tools.as_slice();
        let mut out: Vec<CatalogEntry> = Vec::new();
        let mut i: usize = 0;
        while i < entries.len()
            invariant
                c == self.config_view(),
                crate::config::pairs_view(entries@) == c.tools,
                i <= entries.len(),
                out@.len() == i,
                forall|j: int| 0 <= j < i ==> #[trigger] out@[j]@ == catalog_list(c)[j],
            decreases entries.len() - i,
        {
            let mut m = entries[i].1.metadata.clone();
            m.merge_from(&self.config.global_defaults);
            let r = CatalogEntry {
                tool_id: entries[i].0.clone(),
                display_name: None,
                description: None,
                catalog: m,
            };
            assert(c.tools[i as int] == (entries[i as int].0@, entries[i as int].1@));
            assert(r@ =~= catalog_list(c)[i as int]);
            out.push(r);
            i = i + 1;
        }
        out
    }
}

// ---------------------------------------------------------------------------
// Laws of the provider
// ---------------------------------------------------------------------------

/// A tool this provider keeps is kept again once enriched, and enriching
/// it a second time changes nothing.
pub proof fn lemma_enriched_tool_is_stable(c: CatalogConfigView, caller: Seq<char>, t: EnrichedToolView)
    requires
        keeps_tool(c, caller, t),
    ensures
        keeps_tool(c, caller, enriched_tool(c, t)),
        enriched_tool(c, enriched_tool(c, t)) == enriched_tool(c, t),
{
    let entry = lookup(c.tools, t.base.name);
    let added = contribution(c, entry);
    if !added.is_empty() {
        let m0 = match t.catalog {
            Some(m) => m,
            None => CatalogMetadataView::empty(),
        };
        law_merge_again_is_identity(m0, added);
        let e = enriched_tool(c, t);
        assert(incoming_trust(e) == crate::metadata::first_set(incoming_trust(t), added.trust_required));
        assert(effective_trust(c, incoming_trust(e), entry) == effective_trust(c, incoming_trust(t), entry));
        assert(enriched_tool(c, e) =~= e);
    }
}

/// Listing a listing again changes nothing: what this provider shows a
/// caller is a fixed point of its own filter.
pub proof fn law_listing_is_idempotent(c: CatalogConfigView, caller: Seq<char>, tools: Seq<EnrichedToolView>)
    ensures
        listing(c, caller, listing(c, caller, tools)) == listing(c, caller, tools),
    decreases tools.len(),
{
    if tools.len() > 0 {
        let prev = listing(c, caller, tools.drop_last());
        law_listing_is_idempotent(c, caller, tools.drop_last());
        if keeps_tool(c, caller, tools.last()) {
            let e = enriched_tool(c, tools.last());
            lemma_enriched_tool_is_stable(c, caller, tools.last());
            assert(prev.push(e).drop_last() =~= prev);
            assert(prev.push(e).last() == e);
        }
    }
}

/// The listing is the input with the dropped tools taken out, in the
/// input's order, and each remaining tool enriched.
pub proof fn law_listing_is_filter_then_enrich(c: CatalogConfigView, caller: Seq<char>, tools: Seq<EnrichedToolView>)
    ensures
        listing(c, caller, tools) == tools.filter(|t: EnrichedToolView| keeps_tool(c, caller, t)).map_values(
            |t: EnrichedToolView| enriched_tool(c, t),
        ),
    decreases tools.len(),
{
    let keep = |t: EnrichedToolView| keeps_tool(c, caller, t);
    let enrich = |t: EnrichedToolView| enriched_tool(c, t);
    if tools.len() > 0 {
        law_listing_is_filter_then_enrich(c, caller, tools.drop_last());
        let sub = tools.drop_last().filter(keep);
        reveal_with_fuel(Seq::<EnrichedToolView>::filter, 1);
        assert(tools.filter(keep) == if keep(tools.last()) {
            sub.push(tools.last())
        } else {
            sub
        });
        if keep(tools.last()) {
            assert(sub.push(tools.last()).map_values(enrich) =~= sub.map_values(enrich).push(enrich(tools.last())));
        }
    } else {
        reveal_with_fuel(Seq::<EnrichedToolView>::filter, 1);
        assert(tools.filter(keep).map_values(enrich) =~= Seq::<EnrichedToolView>::empty());
    }
}

/// Every tool that a caller is shown passes the filter: no entry hides it,
/// it has an entry when unknown tools are hidden, and the caller meets the
/// trust level it requires.
pub proof fn law_listed_tools_pass_filter(c: CatalogConfigView, caller: Seq<char>, tools: Seq<EnrichedToolView>)
    ensures
        forall|i: int|
            0 <= i < listing(c, caller, tools).len() ==> keeps_tool(c, caller, #[trigger] listing(c, caller, tools)[i]),
        listing(c, caller, tools).len() <= tools.len(),
    decreases tools.len(),
{
    if tools.len() > 0 {
        law_listed_tools_pass_filter(c, caller, tools.drop_last());
        let prev = listing(c, caller, tools.drop_last());
        if keeps_tool(c, caller, tools.last()) {
            lemma_enriched_tool_is_stable(c, caller, tools.last());
            let l = prev.push(enriched_tool(c, tools.last()));
            assert forall|i: int| 0 <= i < l.len() implies keeps_tool(c, caller, #[trigger] l[i]) by {
                if i < prev.len() {
                    assert(l[i] == prev[i]);
                }
            }
        }
    }
}

/// A caller of higher trust is shown every tool that a caller of lower
/// trust is shown (a caller whose level is unknown ranks lowest).
pub proof fn law_higher_trust_sees_more(
    c: CatalogConfigView,
    low: Seq<char>,
    high: Seq<char>,
    tools: Seq<EnrichedToolView>,
)
    requires
        trust_rank(low) is Some ==> (trust_rank(high) is Some && trust_rank(low)->0 <= trust_rank(high)->0),
    ensures
        forall|t: EnrichedToolView| keeps_tool(c, low, t) ==> #[trigger] keeps_tool(c, high, t),
        forall|x: EnrichedToolView|
            #[trigger] listing(c, low, tools).contains(x) ==> listing(c, high, tools).contains(x),
    decreases tools.len(),
{
    if tools.len() > 0 {
        law_higher_trust_sees_more(c, low, high, tools.drop_last());
        let pl = listing(c, low, tools.drop_last());
        let ph = listing(c, high, tools.drop_last());
        let t = tools.last();
        assert forall|x: EnrichedToolView| #[trigger] listing(c, low, tools).contains(x) implies listing(
            c,
            high,
            tools,
        ).contains(x) by {
            let ll = listing(c, low, tools);
            let lh = listing(c, high, tools);
            let k = choose|k: int| 0 <= k < ll.len() && ll[k] == x;
            if k < pl.len() {
                assert(ll[k] == pl[k]);
                assert(pl.contains(x));
                let j = choose|j: int| 0 <= j < ph.len() && ph[j] == x;
                if keeps_tool(c, high, t) {
                    assert(lh[j] == ph[j]);
                }
                assert(lh[j] == x);
            } else {
                assert(keeps_tool(c, low, t));
                assert(keeps_tool(c, high, t));
                assert(lh[ph.len() as int] == x);
            }
        }
    }
}

/// With no entries, no strict defaults and no global defaults, a listing
/// of tools that carry no metadata comes back unchanged.
pub proof fn law_empty_config_passes_tools_through(c: CatalogConfigView, caller: Seq<char>, tools: Seq<EnrichedToolView>)
    requires
        c.tools.len() == 0,
        !c.defaults.hide_unknown,
        !c.defaults.require_verified_for_unknown,
        c.global_defaults == CatalogMetadataView::empty(),
        forall|i: int| 0 <= i < tools.len() ==> (#[trigger] tools[i]).catalog is None,
    ensures
        listing(c, caller, tools) == tools,
    decreases tools.len(),
{
    if tools.len() > 0 {
        law_empty_config_passes_tools_through(c, caller, tools.drop_last());
        let t = tools.last();
        assert(t.catalog is None);
        assert(lookup(c.tools, t.base.name) is None);
        crate::metadata::law_merge_empty_is_identity(CatalogMetadataView::empty());
        assert(keeps_tool(c, caller, t));
        assert(enriched_tool(c, t) == t);
        assert(tools.drop_last().push(t) =~= tools);
    }
}

/// The whole catalog and single lookups agree: the entry listed for each
/// configured tool is the one a lookup of its id gives, and a lookup gives
/// an answer only for an id that the catalog lists.
pub proof fn law_catalog_list_agrees_with_describe(c: CatalogConfigView, tool_id: Seq<char>)
    requires
        keys_sorted(c.tools),
    ensures
        forall|i: int| 0 <= i < c.tools.len() ==> described(c, c.tools[i].0) == Some(#[trigger] catalog_list(c)[i]),
        described(c, tool_id) is Some ==> exists|i: int|
            0 <= i < c.tools.len() && #[trigger] catalog_list(c)[i].tool_id == tool_id,
{
    assert forall|i: int| 0 <= i < c.tools.len() implies described(c, c.tools[i].0) == Some(
        #[trigger] catalog_list(c)[i],
    ) by {
        lemma_lookup_at(c.tools, i);
    }
    if described(c, tool_id) is Some {
        let i = choose|i: int| 0 <= i < c.tools.len() && #[trigger] c.tools[i].0 == tool_id;
        assert(catalog_list(c)[i].tool_id == tool_id);
    }
}

/// Every listed tool has the trust level it requires met by the caller:
/// whatever an earlier provider attached, else its entry's, else the global
/// default, else `verified` for an unknown tool under the strict default.
pub proof fn law_listed_tools_meet_their_trust(c: CatalogConfigView, caller: Seq<char>, tools: Seq<EnrichedToolView>)
    ensures
        forall|i: int|
            0 <= i < listing(c, caller, tools).len() ==> (effective_trust(
                c,
                incoming_trust(#[trigger] listing(c, caller, tools)[i]),
                lookup(c.tools, listing(c, caller, tools)[i].base.name),
            ) matches Some(r) ==> trust_meets(caller, r)),
{
    law_listed_tools_pass_filter(c, caller, tools);
}

/// What the provider contributes for a tool (its entry completed from the
/// global defaults) shows in the metadata of the listed tool: each scalar
/// field the contribution sets is set there too, and so is the approval flag.
pub proof fn law_listed_tools_carry_contribution(c: CatalogConfigView, caller: Seq<char>, tools: Seq<EnrichedToolView>)
    ensures
        forall|x: EnrichedToolView| #[trigger] listing(c, caller, tools).contains(x) ==> {
            &&& contribution(c, lookup(c.tools, x.base.name)).owner is Some ==> (x.catalog matches Some(m) && m.owner is Some)
            &&& contribution(c, lookup(c.tools, x.base.name)).doc_url is Some ==> (x.catalog matches Some(m) && m.doc_url is Some)
            &&& contribution(c, lookup(c.tools, x.base.name)).sample_arguments is Some ==> (x.catalog matches Some(m) && m.sample_arguments is Some)
            &&& contribution(c, lookup(c.tools, x.base.name)).trust_required is Some ==> (x.catalog matches Some(m) && m.trust_required is Some)
            &&& contribution(c, lookup(c.tools, x.base.name)).maturity is Some ==> (x.catalog matches Some(m) && m.maturity is Some)
            &&& contribution(c, lookup(c.tools, x.base.name)).requires_approval ==> (x.catalog matches Some(m)
                && m.requires_approval)
        },
    decreases tools.len(),
{
    if tools.len() > 0 {
        law_listed_tools_carry_contribution(c, caller, tools.drop_last());
        let prev = listing(c, caller, tools.drop_last());
        let t = tools.last();
        let added = contribution(c, lookup(c.tools, t.base.name));
        crate::metadata::law_is_empty_means_nothing_set(added);
        if keeps_tool(c, caller, t) {
            let l = prev.push(enriched_tool(c, t));
            assert forall|x: EnrichedToolView| #[trigger] l.contains(x) implies {
                &&& contribution(c, lookup(c.tools, x.base.name)).owner is Some ==> (x.catalog matches Some(m) && m.owner is Some)
                &&& contribution(c, lookup(c.tools, x.base.name)).doc_url is Some ==> (x.catalog matches Some(m) && m.doc_url is Some)
                &&& contribution(c, lookup(c.tools, x.base.name)).sample_arguments is Some ==> (x.catalog matches Some(m) && m.sample_arguments is Some)
                &&& contribution(c, lookup(c.tools, x.base.name)).trust_required is Some ==> (x.catalog matches Some(m) && m.trust_required is Some)
                &&& contribution(c, lookup(c.tools, x.base.name)).maturity is Some ==> (x.catalog matches Some(m) && m.maturity is Some)
                &&& contribution(c, lookup(c.tools, x.base.name)).requires_approval ==> (x.catalog matches Some(m)
                    && m.requires_approval)
            } by {
                let k = choose|k: int| 0 <= k < l.len() && l[k] == x;
                if k < prev.len() {
                    assert(prev[k] == x);
                    assert(prev.contains(x));
                }
            }
        }
    }
}

/// A catalog lookup keeps every field the tool's own entry sets; a global
/// default shows only where the entry leaves the field unset, and the
/// entry's tags come first.
pub proof fn law_described_entry_prefers_tool_fields(c: CatalogConfigView, tool_id: Seq<char>)
    ensures
        lookup(c.tools, tool_id) is Some <==> described(c, tool_id) is Some,
        lookup(c.tools, tool_id) matches Some(e) ==> described(c, tool_id) matches Some(d) && {
            &&& d.tool_id == tool_id
            &&& e.metadata.owner is Some ==> d.catalog.owner == e.metadata.owner
            &&& e.metadata.owner is None ==> d.catalog.owner == c.global_defaults.owner
            &&& e.metadata.doc_url is Some ==> d.catalog.doc_url == e.metadata.doc_url
            &&& e.metadata.doc_url is None ==> d.catalog.doc_url == c.global_defaults.doc_url
            &&& e.metadata.sample_arguments is Some ==> d.catalog.sample_arguments == e.metadata.sample_arguments
            &&& e.metadata.sample_arguments is None ==> d.catalog.sample_arguments == c.global_defaults.sample_arguments
            &&& e.metadata.trust_required is Some ==> d.catalog.trust_required == e.metadata.trust_required
            &&& e.metadata.trust_required is None ==> d.catalog.trust_required == c.global_defaults.trust_required
            &&& e.metadata.maturity is Some ==> d.catalog.maturity == e.metadata.maturity
            &&& e.metadata.maturity is None ==> d.catalog.maturity == c.global_defaults.maturity
            &&& d.catalog.tags.subrange(0, e.metadata.tags.len() as int) == e.metadata.tags
        },
{
    if let Some(e) = lookup(c.tools, tool_id) {
        crate::metadata::law_merge_is_union(e.metadata, c.global_defaults);
    }
}

/// Each entry of the whole catalog keeps every field its tool's entry
/// sets; a global default shows only where the entry leaves it unset.
pub proof fn law_catalog_list_prefers_tool_fields(c: CatalogConfigView)
    ensures
        catalog_list(c).len() == c.tools.len(),
        forall|i: int| #![trigger catalog_list(c)[i]] 0 <= i < c.tools.len() ==> {
            &&& catalog_list(c)[i].tool_id == c.tools[i].0
            &&& c.tools[i].1.metadata.owner is Some ==> catalog_list(c)[i].catalog.owner == c.tools[i].1.metadata.owner
            &&& c.tools[i].1.metadata.owner is None ==> catalog_list(c)[i].catalog.owner == c.global_defaults.owner
            &&& c.tools[i].1.metadata.doc_url is Some ==> catalog_list(c)[i].catalog.doc_url == c.tools[i].1.metadata.doc_url
            &&& c.tools[i].1.metadata.doc_url is None ==> catalog_list(c)[i].catalog.doc_url == c.global_defaults.doc_url
            &&& c.tools[i].1.metadata.sample_arguments is Some ==> catalog_list(c)[i].catalog.sample_arguments == c.tools[i].1.metadata.sample_arguments
            &&& c.tools[i].1.metadata.sample_arguments is None ==> catalog_list(c)[i].catalog.sample_arguments == c.global_defaults.sample_arguments
            &&& c.tools[i].1.metadata.trust_required is Some ==> catalog_list(c)[i].catalog.trust_required == c.tools[i].1.metadata.trust_required
            &&& c.tools[i].1.metadata.trust_required is None ==> catalog_list(c)[i].catalog.trust_required == c.global_defaults.trust_required
            &&& c.tools[i].1.metadata.maturity is Some ==> catalog_list(c)[i].catalog.maturity == c.tools[i].1.metadata.maturity
            &&& c.tools[i].1.metadata.maturity is None ==> catalog_list(c)[i].catalog.maturity == c.global_defaults.maturity
            &&& catalog_list(c)[i].catalog.tags.subrange(0, c.tools[i].1.metadata.tags.len() as int)
                == c.tools[i].1.metadata.tags
        },
{
    assert forall|i: int| #![trigger catalog_list(c)[i]] 0 <= i < c.tools.len() implies catalog_list(c)[i].catalog.tags.subrange(
        0,
        c.tools[i].1.metadata.tags.len() as int,
    ) == c.tools[i].1.metadata.tags by {
        crate::metadata::law_merge_is_union(c.tools[i].1.metadata, c.global_defaults);
    }
}

} // verus!
