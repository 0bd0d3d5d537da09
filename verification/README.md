# mcpg_plugin_catalog_builtin

A catalog provider for the MCPG gateway, written in Verus. Operators describe
each tool once (owner, tags, documentation URL, sample arguments, maturity,
approval and trust requirements); the provider drops the tools a caller should
not see from a `tools/list` result and annotates the rest.

Layout:

- `src/text.rs`: string equality and lexicographic order on characters.
- `src/trust.rs`: trust levels and their order.
- `src/metadata.rs`: catalog metadata and the chain merge rule, with its laws.
- `src/config.rs`: the ordered tool map, the configuration and its validation.
- `src/catalog.rs`: the provider itself (filtering, enrichment, lookups,
  manifest) and the laws of its listings.
- `app/lib.rs`: reading the configuration from JSON or YAML, the error type
  with messages, and the plugin factory.
- `tests/`: scenarios and concrete instances of the laws.
