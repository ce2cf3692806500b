//! The read hook of a coding assistant: a POSIX shell script that sends reads of
//! XML metadata under the source directory to the compact file, when one
//! exists.
use vstd::prelude::*;
use crate::strings::push_str;

verus! {

/// The file name of the hook script.
pub const SCRIPT_NAME: &'static str = "sf-compact-read.sh";

/// What marks a settings entry as this tool's hook.
pub const HOOK_IDENTIFIER: &'static str = "sf-compact-read";

/// The tool the hook applies to.
pub const HOOK_MATCHER: &'static str = "Read";

/// The hook's time limit, in seconds.
pub const HOOK_TIMEOUT: u64 = 5;

/// The hook script for compact files in `output` mirroring `source`.
pub open spec fn spec_script(source: Seq<char>, output: Seq<char>) -> Seq<char> {
    Seq::<char>::empty()
        + "#!/bin/sh\n# sf-compact Read hook: redirects Salesforce XML reads to compact equivalents.\n# Installed by: sf-compact init hook\n# No external dependencies — pure POSIX shell.\n\nset -eu\n\nINPUT=$(cat)\n\n# Extract file_path from JSON input (lightweight — no jq dependency)\nFILE_PATH=$(printf '%s' \"$INPUT\" | sed -n 's/.*\"file_path\" *: *\"\\([^\"]*\\)\".*/\\1/p')\n\n# Exit early if no file path\n[ -z \"$FILE_PATH\" ] && exit 0\n\n# Only intercept *-meta.xml files under the source directory\ncase \"$FILE_PATH\" in\n  */"@
        + source
        + "/*-meta.xml | "@
        + source
        + "/*-meta.xml) ;;\n  *) exit 0 ;;\nesac\n\n# Compute compact path: replace source prefix with output prefix, swap extension\nRELATIVE=\"${FILE_PATH#*"@
        + source
        + "/}\"\n\n# Resolve prefix: if input is absolute, make compact path absolute too\nPREFIX=\""@
        + output
        + "\"\ncase \"$FILE_PATH\" in\n  /*) PREFIX=\"${FILE_PATH%%"@
        + source
        + "/*}"@
        + output
        + "\" ;;\nesac\n\n# Try YAML first (default format), then JSON\nfor EXT in yaml json; do\n  COMPACT=\"$PREFIX/${RELATIVE%-meta.xml}-meta.$EXT\"\n  if [ -f \"$COMPACT\" ]; then\n    printf '{\"hookSpecificOutput\":{\"hookEventName\":\"PreToolUse\",\"updatedInput\":{\"file_path\":\"%s\"},\"additionalContext\":\"Reading compact version instead of XML. Original: %s\"}}\\n' \"$COMPACT\" \"$FILE_PATH\"\n    exit 0\n  fi\ndone\n\n# No compact file found — let the original read proceed\nexit 0\n"@
}

/// Generates the hook script (see `spec_script`).
pub fn generate_script(source: &str, output: &str) -> (r: String)
    ensures
        r@ == spec_script(source@, output@),
{
    let mut s = String::new();
    push_str(&mut s, "#!/bin/sh\n# sf-compact Read hook: redirects Salesforce XML reads to compact equivalents.\n# Installed by: sf-compact init hook\n# No external dependencies — pure POSIX shell.\n\nset -eu\n\nINPUT=$(cat)\n\n# Extract file_path from JSON input (lightweight — no jq dependency)\nFILE_PATH=$(printf '%s' \"$INPUT\" | sed -n 's/.*\"file_path\" *: *\"\\([^\"]*\\)\".*/\\1/p')\n\n# Exit early if no file path\n[ -z \"$FILE_PATH\" ] && exit 0\n\n# Only intercept *-meta.xml files under the source directory\ncase \"$FILE_PATH\" in\n  */");
    push_str(&mut s, source);
    push_str(&mut s, "/*-meta.xml | ");
    push_str(&mut s, source);
    push_str(&mut s, "/*-meta.xml) ;;\n  *) exit 0 ;;\nesac\n\n# Compute compact path: replace source prefix with output prefix, swap extension\nRELATIVE=\"${FILE_PATH#*");
    push_str(&mut s, source);
    push_str(&mut s, "/}\"\n\n# Resolve prefix: if input is absolute, make compact path absolute too\nPREFIX=\"");
    push_str(&mut s, output);
    push_str(&mut s, "\"\ncase \"$FILE_PATH\" in\n  /*) PREFIX=\"${FILE_PATH%%");
    push_str(&mut s, source);
    push_str(&mut s, "/*}");
    push_str(&mut s, output);
    push_str(&mut s, "\" ;;\nesac\n\n# Try YAML first (default format), then JSON\nfor EXT in yaml json; do\n  COMPACT=\"$PREFIX/${RELATIVE%-meta.xml}-meta.$EXT\"\n  if [ -f \"$COMPACT\" ]; then\n    printf '{\"hookSpecificOutput\":{\"hookEventName\":\"PreToolUse\",\"updatedInput\":{\"file_path\":\"%s\"},\"additionalContext\":\"Reading compact version instead of XML. Original: %s\"}}\\n' \"$COMPACT\" \"$FILE_PATH\"\n    exit 0\n  fi\ndone\n\n# No compact file found — let the original read proceed\nexit 0\n");
    s
}

} // verus!
