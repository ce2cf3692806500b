# sf_compact

Converts Salesforce metadata XML to compact YAML (grouped or ordered) or
JSON and back, and keeps the bookkeeping around it: per-type formats in
`.sfcompact.yaml`, change tracking per git branch, the directive block in AI
instruction files, the hook settings entry and the MCP server entry.

The library in `src/` is verified with Verus: every public function states
its result in `ensures` over a mathematical model (`XNode` for XML trees,
`YVal` and `JVal` for the compact values, sequences and association lists
for everything else), and the laws the tool promises are proof functions:

| Law | Where |
|-----|-------|
| JSON form reads back as the element | `json_laws::law_json_roundtrip` |
| a tree read from XML keeps each attribute once, no `xmlns` attribute, no blank text; its JSON and grouped YAML forms read back | `parse_laws::law_parsed_tree_well_formed`, `law_parsed_json_roundtrip`, `law_parsed_yaml_grouped_roundtrip` |
| ordered YAML form reads back as the element | `yaml_laws::law_yaml_ordered_roundtrip`, `law_yaml_document_roundtrip` |
| grouped YAML form reads back grouped by tag, each tag's elements in order | `yaml_grouped_laws` |
| directive block: injecting twice is injecting once; removing undoes injecting | `instructions_laws` (`law_inject_directive_idempotent`, `law_remove_after_inject_directive` for the generated block) |
| hook settings and MCP entry: adding is idempotent, the rest is kept | `hook_settings`, `mcp_config` |
| tracking reports nothing that was not modified | `tracking::law_no_changes_*`, `law_rebased_unmodified` |
| compact file names map back to the XML names | `convert::law_file_names_map_back` |

Outside crates are called from `src/` through a few trusted wrappers:
`quick_xml` (tokenizing XML, in `xml_parser`), `glob` (the `--include`
filter) and `tiktoken-rs` (token counts), in `convert`. What `quick_xml`
reports for a text is named turn by turn (`xml_event_kind`, `xml_tag_name`,
...), and `parse_xml` states its result as what the tree builder makes of
those events (`spec_parse_xml`).

`app/` is the command line around the library: argument parsing, the file
system, git, the MCP server loop, and the serde conversions between the
library's values and YAML/JSON text.
