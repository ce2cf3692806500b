//! The reference text for AI tools (`sf-compact init instructions`).
use vstd::prelude::*;
use crate::manifest::{build_manifest, entry_view, manifest_entries};
use crate::strings::{push_str, to_owned_string};

verus! {

/// The reference text before the list of supported types.
pub const INSTRUCTIONS_HEADER: &'static str = "# sf-compact: Salesforce Metadata Compaction for AI\n\n## What is sf-compact?\n\nsf-compact converts Salesforce metadata XML files into compact YAML or JSON formats that are semantically equivalent but use significantly fewer tokens (42–54% reduction). This reduces cost and improves performance when AI tools read or analyze Salesforce metadata.\n\nThe conversion is **semantically lossless for Salesforce metadata** — you can always convert back to XML. Normalizations: element order may change (use `yaml-ordered` or `json` to preserve), leading/trailing whitespace in text nodes is trimmed, XML comments and CDATA sections are normalized, empty elements may change form (`<tag></tag>` ↔ `<tag/>`). All safe for Salesforce metadata.\n\n## Install\n\n```bash\nnpm install -g sf-compact-cli   # npm (downloads pre-built binary)\nbrew install vradko/tap/sf-compact  # Homebrew (macOS/Linux)\ncargo install sf-compact            # From source (Rust required)\n```\n\n## Output Formats\n\n- **json** (default) — compact single-line, ~54% savings, preserves element order\n- **yaml** — grouped arrays, ~49% savings, best for order-insensitive types (Profile, PermissionSet)\n- **yaml-ordered** — `_children` sequences, ~42% savings, preserves order in YAML format\n\n## Available Commands\n\n### Pack (XML to compact format)\n```bash\nsf-compact pack [source...] [-o output] [--format yaml|yaml-ordered|json] [--include pattern] [--incremental]\n```\n- `source` — one or more directories or files (default: `force-app`)\n- `-o output` — output directory (default: `.sf-compact`)\n- `--format` — output format override (default: from config or `json`)\n- `--include` — glob filter (e.g. `\"*.profile-meta.xml\"`)\n- `--incremental` — only repack files modified since last pack (by mtime)\n\n### Unpack (compact format to XML)\n```bash\nsf-compact unpack [source...] [-o output] [--include pattern]\n```\nAuto-detects format by file extension (`.yaml` or `.json`).\n\n### Stats\n```bash\nsf-compact stats [source...] [--include pattern] [--files]\n```\nPreview token/byte savings without writing files.\n\n### Configuration\n```bash\nsf-compact config init                              # create .sfcompact.yaml with smart defaults\nsf-compact config set flow json profile yaml        # batch set formats per type\nsf-compact config set default json                  # change default format\nsf-compact config skip customMetadata               # exclude a type\nsf-compact config show                              # display config\n```\n\n### Watch (auto-pack on changes)\n```bash\nsf-compact watch [source...] [-o output] [--format yaml|yaml-ordered|json] [--include pattern]\n```\nWatches source directories and auto-repacks when XML files change.\n\n### Diff (detect unpacked changes)\n```bash\nsf-compact diff [source...] [-o packed-dir] [--include pattern]\n```\nShows which XML files have changed since last pack (new, modified, deleted).\n\n### Lint (CI validation)\n```bash\nsf-compact lint [source...] [-o packed-dir] [--include pattern]\n```\nChecks that compact files are up-to-date. Exits with code 1 if any files are stale, new, or orphaned. Use in CI pipelines to enforce that compact files stay in sync.\n\n### Changes (track modified compact files)\n```bash\nsf-compact changes [-o compact-dir]                    # show all modified files (global)\nsf-compact changes --since-deploy                      # show changes since last deploy reset\nsf-compact changes --json                              # machine-readable JSON output\nsf-compact changes reset --global                      # clear all tracking\nsf-compact changes reset --since-deploy                # clear deployment tracking only\n```\nTracks which compact files were modified (by AI or human) since last `pack`. Per-branch tracking with two scopes: global (all changes) and deployment (delta since last deploy reset). Use to know what to deploy or retrieve before commit.\n\n### Other Commands\n- `sf-compact manifest` — output supported metadata types in JSON\n- `sf-compact mcp-serve` — start MCP server over stdio (exposes pack, unpack, stats, lint, changes as MCP tools)\n- `sf-compact init mcp` — create/update .mcp.json\n- `sf-compact init instructions` — generate AI instructions markdown\n\n## Workflow\n\n1. **Configure** (once): `sf-compact config init`\n2. **Run `sf-compact pack`** after pulling metadata from Salesforce.\n3. **Work with compact files** in `.sf-compact/` — let AI tools read/edit them.\n4. **Run `sf-compact unpack` before deploy** to restore XML.\n5. **Add `.sf-compact/` to `.gitignore`** if you prefer to treat it as a build artifact.\n\n## Supported Metadata Types\n\n";

/// One line of the type list: `- **Type** (`extension`) — category`.
pub open spec fn type_line(e: (Seq<char>, Seq<char>, Seq<char>, bool)) -> Seq<char> {
    "- **"@ + e.1 + "** (`"@ + e.0 + "`) — "@ + e.2 + "\n"@
}

/// The lines of the type list, in order.
pub open spec fn type_lines(es: Seq<(Seq<char>, Seq<char>, Seq<char>, bool)>) -> Seq<char>
    decreases es.len(),
{
    if es.len() == 0 {
        Seq::empty()
    } else {
        type_lines(es.drop_last()) + type_line(es.last())
    }
}

/// The reference text: the header, then one line per manifest entry.
pub open spec fn spec_instructions() -> Seq<char> {
    INSTRUCTIONS_HEADER@ + type_lines(manifest_entries())
}

/// Generates the reference text for AI tools (see `spec_instructions`).
pub fn generate_instructions() -> (r: String)
    ensures
        r@ == spec_instructions(),
{
    let manifest = build_manifest();
    let ghost es = Seq::new(manifest.supported_metadata@.len(), |i: int| entry_view(manifest.supported_metadata@[i]));
    assert(es == manifest_entries());
    let mut text = to_owned_string(INSTRUCTIONS_HEADER);
    let n = manifest.supported_metadata.len();
    let mut i: usize = 0;
    while i < n
        invariant
            n == manifest.supported_metadata@.len(),
            es == Seq::new(manifest.supported_metadata@.len(), |i: int| entry_view(manifest.supported_metadata@[i])),
            i <= n,
            text@ == INSTRUCTIONS_HEADER@ + type_lines(es.take(i as int)),
        decreases n - i,
    {
        assert(es.take(i + 1).drop_last() =~= es.take(i as int));
        let e = &manifest.supported_metadata[i];
        assert(es.take(i + 1).last() == entry_view(*e));
        push_str(&mut text, "- **");
        push_str(&mut text, e.meta_type.as_str());
        push_str(&mut text, "** (`");
        push_str(&mut text, e.extension.as_str());
        push_str(&mut text, "`) — ");
        push_str(&mut text, e.category.as_str());
        push_str(&mut text, "\n");
        assert(text@ =~= INSTRUCTIONS_HEADER@ + type_lines(es.take(i + 1)));
        i = i + 1;
    }
    assert(es.take(n as int) =~= es);
    text
}

} // verus!
