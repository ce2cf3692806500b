//! The `sf-explorer` agent definition, which has a coding assistant read
//! compact metadata in place of XML.
use vstd::prelude::*;

verus! {

/// The file name of the agent.
pub const AGENT_FILENAME: &'static str = "sf-explorer.md";

/// The agent's definition.
pub const AGENT_TEXT: &'static str = "---\nname: sf-explorer\nmodel: haiku\ndescription: Salesforce-aware file explorer that reads compact metadata from .sf-compact/\ntools: Read, Glob, Grep, Bash\n---\nYou are a fast codebase exploration agent for Salesforce projects.\n\nIMPORTANT: When reading Salesforce metadata (objects, fields, profiles, permission sets, flows, layouts, etc.), ALWAYS read from .sf-compact/ directory instead of force-app/. The .sf-compact/ files are compact equivalents with identical information. Path mapping: replace force-app/ with .sf-compact/ and -meta.xml with -meta.yaml (or -meta.json if .yaml does not exist).\n\nFor Apex code (.cls, .trigger) and LWC/Aura (.js, .html, .css), read directly from force-app/.\n";

/// The agent's definition (`AGENT_TEXT`).
pub fn generate_agent() -> (r: String)
    ensures
        r@ == AGENT_TEXT@,
{
    crate::strings::to_owned_string(AGENT_TEXT)
}

} // verus!
