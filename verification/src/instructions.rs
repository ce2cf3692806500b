//! The directive block that points AI tools at the compact files: its
//! text, and how it is put into, replaced in and removed from an
//! instruction file's content.
use vstd::prelude::*;
use crate::strings::{find_chars, find_first, push_char, push_str, spec_trim, str_eq, to_chars, to_owned_string, trim};

verus! {

/// The line that opens the directive block.
pub const MARKER_START: &'static str = "<!-- sf-compact:start -->";

/// The line that closes the directive block.
pub const MARKER_END: &'static str = "<!-- sf-compact:end -->";

/// A known AI tool and the instruction file it reads.
pub struct Target {
    pub name: &'static str,
    pub file_path: &'static str,
}

/// The known targets as (name, file path), in order.
pub open spec fn target_table() -> Seq<(Seq<char>, Seq<char>)> {
    seq![
        ("cursor"@, ".cursorrules"@),
        ("copilot"@, ".github/copilot-instructions.md"@),
        ("codex"@, "AGENTS.md"@),
        ("windsurf"@, ".windsurfrules"@),
        ("cline"@, ".clinerules"@),
        ("aider"@, ".aiderules"@),
    ]
}

/// The models of a list of targets.
pub open spec fn targets_view(ts: Seq<Target>) -> Seq<(Seq<char>, Seq<char>)> {
    Seq::new(ts.len(), |i: int| (ts[i].name@, ts[i].file_path@))
}

fn target(name: &'static str, file_path: &'static str) -> (r: Target)
    ensures
        r.name@ == name@,
        r.file_path@ == file_path@,
{
    Target { name, file_path }
}

/// The known targets (see `target_table`).
pub fn targets() -> (r: Vec<Target>)
    ensures
        targets_view(r@) == target_table(),
{
    let mut v: Vec<Target> = Vec::new();
    v.push(target("cursor", ".cursorrules"));
    v.push(target("copilot", ".github/copilot-instructions.md"));
    v.push(target("codex", "AGENTS.md"));
    v.push(target("windsurf", ".windsurfrules"));
    v.push(target("cline", ".clinerules"));
    v.push(target("aider", ".aiderules"));
    assert(targets_view(v@) =~= target_table());
    v
}

/// The file of the target named `name`.
pub open spec fn spec_target_file(name: Seq<char>) -> Option<Seq<char>> {
    crate::assoc::aget(target_table(), name)
}

/// The instruction file of a target name, if it names a target.
pub fn target_file(name: &str) -> (r: Option<&'static str>)
    ensures
        r matches Some(p) ==> spec_target_file(name@) == Some(p@),
        r is None ==> spec_target_file(name@) is None,
{
    let ts = targets();
    let ghost tv = target_table();
    let n = ts.len();
    let mut i: usize = 0;
    while i < n
        invariant
            n == ts@.len(),
            targets_view(ts@) == tv,
            tv == target_table(),
            i <= n,
            forall|j: int| 0 <= j < i ==> tv[j].0 != name@,
        decreases n - i,
    {
        assert(tv[i as int] == (ts@[i as int].name@, ts@[i as int].file_path@));
        if str_eq(ts[i].name, name) {
            proof { crate::assoc::lemma_afind_first(tv, name@, i as int); }
            return Some(ts[i].file_path);
        }
        i = i + 1;
    }
    proof { crate::assoc::lemma_afind_none(tv, name@); }
    None
}

/// The directive block for compact files in `out` mirroring `src`.
pub open spec fn spec_directive(out: Seq<char>, src: Seq<char>) -> Seq<char> {
    MARKER_START@
        + "\n## Salesforce Metadata — sf-compact\n\nThis project uses `sf-compact` to compress Salesforce metadata XML into compact YAML/JSON.\nCompact files are in `"@
        + out
        + "/` and mirror the `"@
        + src
        + "/` structure exactly (same\npaths, only the file extension changes: `-meta.xml` → `-meta.yaml` or `-meta.json`).\n\n**When reading Salesforce metadata** (objects, fields, profiles, permission sets, flows,\nlayouts, etc.), prefer `"@
        + out
        + "/` over `"@
        + src
        + "/` — the files are smaller and\ncontain identical information.\n\n**Path mapping**: replace `"@
        + src
        + "/` with `"@
        + out
        + "/` and `.xml` with `.yaml`/`.json`.\nExample: `"@
        + src
        + "/main/default/objects/Account/Account.object-meta.xml`\n→ `"@
        + out
        + "/main/default/objects/Account/Account.object-meta.json`\n\n**If `"@
        + out
        + "/` is missing or outdated**, run:\n```\nsf-compact pack\n```\n\n**If you need to modify metadata**, edit the compact file in `"@
        + out
        + "/`, then run:\n```\nsf-compact unpack\n```\n\n**Non-metadata files** (Apex classes `.cls`, triggers `.trigger`, LWC `.js/.html/.css`)\nshould still be read directly from `"@
        + src
        + "/`.\n"@
        + MARKER_END@
}

/// The directive block that tells AI tools to read the compact files in
/// `output_dir` in place of the XML in `source_dir`.
pub fn generate_directive(output_dir: &str, source_dir: &str) -> (r: String)
    ensures
        r@ == spec_directive(output_dir@, source_dir@),
{
    let mut d = to_owned_string(MARKER_START);
    push_str(&mut d, "\n## Salesforce Metadata — sf-compact\n\nThis project uses `sf-compact` to compress Salesforce metadata XML into compact YAML/JSON.\nCompact files are in `");
    push_str(&mut d, output_dir);
    push_str(&mut d, "/` and mirror the `");
    push_str(&mut d, source_dir);
    push_str(&mut d, "/` structure exactly (same\npaths, only the file extension changes: `-meta.xml` → `-meta.yaml` or `-meta.json`).\n\n**When reading Salesforce metadata** (objects, fields, profiles, permission sets, flows,\nlayouts, etc.), prefer `");
    push_str(&mut d, output_dir);
    push_str(&mut d, "/` over `");
    push_str(&mut d, source_dir);
    push_str(&mut d, "/` — the files are smaller and\ncontain identical information.\n\n**Path mapping**: replace `");
    push_str(&mut d, source_dir);
    push_str(&mut d, "/` with `");
    push_str(&mut d, output_dir);
    push_str(&mut d, "/` and `.xml` with `.yaml`/`.json`.\nExample: `");
    push_str(&mut d, source_dir);
    push_str(&mut d, "/main/default/objects/Account/Account.object-meta.xml`\n→ `");
    push_str(&mut d, output_dir);
    push_str(&mut d, "/main/default/objects/Account/Account.object-meta.json`\n\n**If `");
    push_str(&mut d, output_dir);
    push_str(&mut d, "/` is missing or outdated**, run:\n```\nsf-compact pack\n```\n\n**If you need to modify metadata**, edit the compact file in `");
    push_str(&mut d, output_dir);
    push_str(&mut d, "/`, then run:\n```\nsf-compact unpack\n```\n\n**Non-metadata files** (Apex classes `.cls`, triggers `.trigger`, LWC `.js/.html/.css`)\nshould still be read directly from `");
    push_str(&mut d, source_dir);
    push_str(&mut d, "/`.\n");
    push_str(&mut d, MARKER_END);
    d
}

/// The full reference text, for the standalone instructions file (see
/// `crate::mcp::spec_instructions`).
pub fn generate_legacy_instructions() -> (r: String)
    ensures
        r@ == crate::mcp::spec_instructions(),
{
    crate::mcp::generate_instructions()
}

// ─── Putting the block in and taking it out ─────────────────────────

/// Where the block between the markers ends: after the end marker and
/// the line break that follows it, if any.
pub open spec fn block_end(content: Seq<char>, e: int) -> int {
    let e2 = e + MARKER_END@.len();
    if e2 < content.len() && content[e2] == '\n' {
        e2 + 1
    } else {
        e2
    }
}

/// The positions of the start marker and of the end marker, when both
/// occur and the end marker does not come first.
pub open spec fn marker_span(content: Seq<char>) -> Option<(int, int)> {
    match (find_first(content, MARKER_START@), find_first(content, MARKER_END@)) {
        (Some(s), Some(e)) => if e < s {
            None
        } else {
            Some((s, e))
        },
        _ => None,
    }
}

/// `content` with the text from the start marker through the end marker
/// (and the line break after it) replaced by `replacement` and a line break.
pub open spec fn spec_replace_between(content: Seq<char>, replacement: Seq<char>) -> Option<Seq<char>> {
    match marker_span(content) {
        Some((s, e)) => Some(
            content.subrange(0, s) + replacement + seq!['\n'] + content.subrange(
                block_end(content, e),
                content.len() as int,
            ),
        ),
        None => None,
    }
}

/// `content` without the block (and without the line break before it, if any).
pub open spec fn spec_remove_block(content: Seq<char>) -> Option<Seq<char>> {
    match marker_span(content) {
        Some((s, e)) => {
            let s2 = if s > 0 && content[s - 1] == '\n' {
                s - 1
            } else {
                s
            };
            Some(content.subrange(0, s2) + content.subrange(block_end(content, e), content.len() as int))
        },
        None => None,
    }
}

/// `content` followed by a blank line (when it is not empty), `block` and a line break.
pub open spec fn spec_append_block(content: Seq<char>, block: Seq<char>) -> Seq<char> {
    let c1 = if content.len() > 0 && content.last() != '\n' {
        content.push('\n')
    } else {
        content
    };
    let c2 = if c1.len() > 0 {
        c1.push('\n')
    } else {
        c1
    };
    c2 + block + seq!['\n']
}

/// The content with the block replaced where there is one, else appended.
pub open spec fn spec_inject_block(content: Seq<char>, block: Seq<char>) -> Seq<char> {
    match spec_replace_between(content, block) {
        Some(r) => r,
        None => spec_append_block(content, block),
    }
}

fn marker_positions(cv: &Vec<char>) -> (r: Option<(usize, usize)>)
    ensures
        r matches Some((s, e)) ==> marker_span(cv@) == Some((s as int, e as int)) && e + MARKER_END@.len()
            <= cv@.len(),
        r is None ==> marker_span(cv@) is None,
{
    let sv = to_chars(MARKER_START);
    let ev = to_chars(MARKER_END);
    let s = match find_chars(cv, &sv) {
        Some(s) => s,
        None => return None,
    };
    let e = match find_chars(cv, &ev) {
        Some(e) => e,
        None => return None,
    };
    if e < s {
        return None;
    }
    proof { crate::strings::lemma_find_from(cv@, ev@, 0); }
    Some((s, e))
}

fn block_end_exec(cv: &Vec<char>, e: usize) -> (r: usize)
    requires
        e + MARKER_END@.len() <= cv@.len(),
    ensures
        r == block_end(cv@, e as int),
        r <= cv@.len(),
{
    let n = cv.len();
    let l = MARKER_END.unicode_len();
    assert(l == MARKER_END@.len());
    let e2 = e + l;
    if e2 < n && cv[e2] == '\n' {
        e2 + 1
    } else {
        e2
    }
}

fn push_chars(out: &mut String, cv: &Vec<char>, from: usize, to: usize)
    requires
        from <= to <= cv@.len(),
    ensures
        final(out)@ == old(out)@ + cv@.subrange(from as int, to as int),
{
    let ghost start = out@;
    let mut i: usize = from;
    while i < to
        invariant
            from <= i <= to,
            to <= cv@.len(),
            out@ == start + cv@.subrange(from as int, i as int),
        decreases to - i,
    {
        push_char(out, cv[i]);
        assert(out@ =~= start + cv@.subrange(from as int, i + 1));
        i = i + 1;
    }
}

/// Replaces everything from the start marker through the end marker with
/// `replacement` (see `spec_replace_between`); `None` when the markers are
/// not both there in order.
pub fn replace_between_markers(content: &str, replacement: &str) -> (r: Option<String>)
    ensures
        r matches Some(s) ==> spec_replace_between(content@, replacement@) == Some(s@),
        r is None ==> spec_replace_between(content@, replacement@) is None,
{
    let cv = to_chars(content);
    let (s, e) = match marker_positions(&cv) {
        Some(p) => p,
        None => return None,
    };
    let end = block_end_exec(&cv, e);
    let mut result = String::new();
    push_chars(&mut result, &cv, 0, s);
    push_str(&mut result, replacement);
    push_char(&mut result, '\n');
    push_chars(&mut result, &cv, end, cv.len());
    assert(result@ =~= spec_replace_between(content@, replacement@)->Some_0);
    Some(result)
}

/// Removes the block between the markers, both included, with the line
/// break after it and one before it (see `spec_remove_block`); `None` when
/// the markers are not both there in order.
pub fn remove_block(content: &str) -> (r: Option<String>)
    ensures
        r matches Some(s) ==> spec_remove_block(content@) == Some(s@),
        r is None ==> spec_remove_block(content@) is None,
{
    let cv = to_chars(content);
    let (s, e) = match marker_positions(&cv) {
        Some(p) => p,
        None => return None,
    };
    let end = block_end_exec(&cv, e);
    let s2 = if s > 0 && cv[s - 1] == '\n' {
        s - 1
    } else {
        s
    };
    let mut result = String::new();
    push_chars(&mut result, &cv, 0, s2);
    push_chars(&mut result, &cv, end, cv.len());
    assert(result@ =~= spec_remove_block(content@)->Some_0);
    Some(result)
}

/// Puts the block into existing content: in place of the block already
/// there, else after the content and a blank line (see `spec_inject_block`).
pub fn inject_block(existing_content: &str, block: &str) -> (r: String)
    ensures
        r@ == spec_inject_block(existing_content@, block@),
{
    match replace_between_markers(existing_content, block) {
        Some(replaced) => replaced,
        None => {
            let mut result = to_owned_string(existing_content);
            let n = existing_content.unicode_len();
            if n > 0 && existing_content.get_char(n - 1) != '\n' {
                push_char(&mut result, '\n');
            }
            if result.unicode_len() > 0 {
                push_char(&mut result, '\n');
            }
            push_str(&mut result, block);
            push_char(&mut result, '\n');
            result
        },
    }
}

/// What becomes of an instruction file when the block is taken out.
pub enum RemoveOutcome {
    /// The file has no block: it stays as it is.
    NoBlock,
    /// Nothing but white space is left: the file goes.
    Delete,
    /// The rest, trimmed and ending in a line break.
    Write(String),
}

/// What becomes of an instruction file with content `content` when the
/// block is taken out: nothing without a block; deletion when only white
/// space is left; else the rest, trimmed, with a line break.
pub fn remove_outcome(content: &str) -> (r: RemoveOutcome)
    ensures
        match spec_remove_block(content@) {
            None => r is NoBlock,
            Some(c) => if spec_trim(c).len() == 0 {
                r is Delete
            } else {
                r matches RemoveOutcome::Write(t) && t@ == spec_trim(c).push('\n')
            },
        },
{
    match remove_block(content) {
        None => RemoveOutcome::NoBlock,
        Some(cleaned) => {
            let mut t = trim(cleaned.as_str());
            if t.unicode_len() == 0 {
                RemoveOutcome::Delete
            } else {
                push_char(&mut t, '\n');
                RemoveOutcome::Write(t)
            }
        },
    }
}

} // verus!
