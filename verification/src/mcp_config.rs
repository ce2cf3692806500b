//! The server entry of this tool in a project's MCP configuration (a JSON
//! object with the servers under `mcpServers`): created or replaced.
use vstd::prelude::*;
use crate::assoc::{lemma_aget_ainsert, lemma_ainsert_ainsert};
use crate::hook_settings::{entries_of, or_else};
use crate::json_value::{
    JVal, JsonValue, jentries_view, jget, jinsert, jvals_view, lemma_array_view, lemma_object_view, put_entry,
    take_entry,
};
use crate::strings::to_owned_string;

verus! {

/// Why the server entry cannot be added.
#[derive(Debug, PartialEq, Eq, Structural)]
pub enum McpConfigError {
    /// The configuration is not a JSON object.
    NotObject,
    /// `mcpServers` is not a JSON object.
    ServersNotObject,
}

impl McpConfigError {
    /// The error's text.
    pub fn message(&self) -> (r: &'static str)
        ensures
            self is NotObject ==> r@ == "Expected .mcp.json to be a JSON object"@,
            self is ServersNotObject ==> r@ == "Expected mcpServers to be a JSON object"@,
    {
        match self {
            McpConfigError::NotObject => "Expected .mcp.json to be a JSON object",
            McpConfigError::ServersNotObject => "Expected mcpServers to be a JSON object",
        }
    }
}

/// The name the server goes under.
pub const SERVER_NAME: &'static str = "sf-compact";

/// The server entry: run `sf-compact mcp-serve` over standard input and output.
pub open spec fn server_entry() -> JVal {
    JVal::Object(
        seq![
            ("type"@, JVal::Str("stdio"@)),
            ("command"@, JVal::Str("sf-compact"@)),
            ("args"@, JVal::Array(seq![JVal::Str("mcp-serve"@)], Seq::empty())),
        ],
        Seq::empty(),
    )
}

/// The configuration with the server entry under `mcpServers.sf-compact`
/// (in place of an earlier one, else last); `mcpServers` is created where
/// missing. Containers that change carry no JSON text.
pub open spec fn spec_add_server(s: JVal) -> Result<JVal, McpConfigError> {
    match s {
        JVal::Object(es, _) => match or_else(jget(es, "mcpServers"@), JVal::Object(Seq::empty(), Seq::empty())) {
            JVal::Object(ss, _) => Ok(
                JVal::Object(
                    jinsert(
                        es,
                        "mcpServers"@,
                        JVal::Object(jinsert(ss, SERVER_NAME@, server_entry()), Seq::empty()),
                    ),
                    Seq::empty(),
                ),
            ),
            _ => Err(McpConfigError::ServersNotObject),
        },
        _ => Err(McpConfigError::NotObject),
    }
}

/// The model of an outcome of adding.
pub open spec fn server_result_view(r: Result<JsonValue, McpConfigError>) -> Result<JVal, McpConfigError> {
    match r {
        Ok(v) => Ok(v.view()),
        Err(e) => Err(e),
    }
}

fn server_entry_value() -> (r: JsonValue)
    ensures
        r.view() == server_entry(),
{
    let mut args: Vec<JsonValue> = Vec::new();
    args.push(JsonValue::Str(to_owned_string("mcp-serve")));
    let ar = String::new();
    proof { lemma_array_view(args, ar); }
    assert(jvals_view(args@) =~= seq![JVal::Str("mcp-serve"@)]);
    let ghost av = JsonValue::Array(args, ar).view();
    let mut es: Vec<(String, JsonValue)> = Vec::new();
    es.push((to_owned_string("type"), JsonValue::Str(to_owned_string("stdio"))));
    es.push((to_owned_string("command"), JsonValue::Str(to_owned_string("sf-compact"))));
    es.push((to_owned_string("args"), JsonValue::Array(args, ar)));
    let er = String::new();
    proof { lemma_object_view(es, er); }
    assert(jentries_view(es@) =~= seq![
        ("type"@, JVal::Str("stdio"@)),
        ("command"@, JVal::Str("sf-compact"@)),
        ("args"@, av),
    ]);
    JsonValue::Object(es, er)
}

/// Adds the server entry (see `spec_add_server`).
pub fn add_mcp_server(config: JsonValue) -> (r: Result<JsonValue, McpConfigError>)
    ensures
        server_result_view(r) == spec_add_server(config.view()),
{
    let ghost cv = config.view();
    let (mut es, rr) = match config {
        JsonValue::Object(es, rr) => (es, rr),
        _ => return Err(McpConfigError::NotObject),
    };
    proof { lemma_object_view(es, rr); }
    let ghost es0 = es@;
    let (at, servers) = match take_entry(&mut es, "mcpServers") {
        Some((i, ks, v)) => (Some((i, ks)), v),
        None => {
            let (e, er) = (Vec::new(), String::new());
            proof { lemma_object_view(e, er); }
            assert(jentries_view(e@) =~= Seq::empty());
            (None, JsonValue::Object(e, er))
        },
    };
    let (mut ss, sr) = match servers {
        JsonValue::Object(ss, sr) => (ss, sr),
        _ => return Err(McpConfigError::ServersNotObject),
    };
    proof { lemma_object_view(ss, sr); }
    let ghost ss0 = ss@;
    let at2 = match take_entry(&mut ss, SERVER_NAME) {
        Some((i, ks, _)) => Some((i, ks)),
        None => None,
    };
    put_entry(&mut ss, at2, SERVER_NAME, server_entry_value(), Ghost(ss0));
    let sr2 = String::new();
    proof { lemma_object_view(ss, sr2); }
    put_entry(&mut es, at, "mcpServers", JsonValue::Object(ss, sr2), Ghost(es0));
    let er = String::new();
    proof { lemma_object_view(es, er); }
    assert(cv == JVal::Object(jentries_view(es0), rr@));
    Ok(JsonValue::Object(es, er))
}

/// The servers of a configuration (none where there is no such object).
pub open spec fn servers_of(s: JVal) -> Seq<(Seq<char>, JVal)> {
    match jget(entries_of(s), "mcpServers"@) {
        Some(JVal::Object(ss, _)) => ss,
        _ => Seq::empty(),
    }
}

/// Adding the server entry twice gives what adding it once gives.
pub proof fn law_add_server_idempotent(s: JVal)
    requires
        spec_add_server(s) is Ok,
    ensures
        spec_add_server(spec_add_server(s)->Ok_0) == spec_add_server(s),
{
    let es = s->Object_0;
    let ss = or_else(jget(es, "mcpServers"@), JVal::Object(Seq::empty(), Seq::empty()))->Object_0;
    let ss2 = jinsert(ss, SERVER_NAME@, server_entry());
    let h = JVal::Object(ss2, Seq::empty());
    lemma_aget_ainsert(es, "mcpServers"@, h, "mcpServers"@);
    lemma_ainsert_ainsert(ss, SERVER_NAME@, server_entry(), server_entry());
    lemma_ainsert_ainsert(es, "mcpServers"@, h, h);
}

/// Adding the server entry leaves the rest of the configuration, and the
/// other servers, as they were, and puts the entry under its name.
pub proof fn law_add_server_keeps_rest(s: JVal, k: Seq<char>, name: Seq<char>)
    requires
        spec_add_server(s) is Ok,
    ensures
        k != "mcpServers"@ ==> jget(entries_of(spec_add_server(s)->Ok_0), k) == jget(entries_of(s), k),
        jget(servers_of(spec_add_server(s)->Ok_0), name) == if name == SERVER_NAME@ {
            Some(server_entry())
        } else {
            jget(servers_of(s), name)
        },
{
    let es = s->Object_0;
    let ss = or_else(jget(es, "mcpServers"@), JVal::Object(Seq::empty(), Seq::empty()))->Object_0;
    let ss2 = jinsert(ss, SERVER_NAME@, server_entry());
    let h = JVal::Object(ss2, Seq::empty());
    lemma_aget_ainsert(es, "mcpServers"@, h, k);
    lemma_aget_ainsert(es, "mcpServers"@, h, "mcpServers"@);
    lemma_aget_ainsert(ss, SERVER_NAME@, server_entry(), name);
    if jget(es, "mcpServers"@) is None {
        assert(servers_of(s) == Seq::<(Seq<char>, JVal)>::empty());
        assert(ss == Seq::<(Seq<char>, JVal)>::empty());
    }
}

} // verus!
