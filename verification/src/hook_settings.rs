//! The entry that puts the read hook into a coding assistant's settings (a
//! JSON object): adding it in place of an earlier one, and taking it out.
use vstd::prelude::*;
use crate::assoc::{lemma_aget_ainsert, lemma_ainsert_ainsert};
use crate::hook::{HOOK_IDENTIFIER, HOOK_MATCHER, HOOK_TIMEOUT};
use crate::json_value::{
    JVal, JsonValue, jentries_view, jget, jinsert, jvals_view, lemma_array_view, lemma_object_view, obj_get, put_entry,
    take_entry,
};
use crate::strings::{decimal, decimal_string, find_chars, find_first, to_chars, to_owned_string};

verus! {

/// Why the entry cannot be added.
#[derive(Debug, PartialEq, Eq, Structural)]
pub enum SettingsError {
    /// The settings are not a JSON object.
    NotObject,
    /// `hooks` is not a JSON object.
    HooksNotObject,
    /// `hooks.PreToolUse` is not an array.
    PreToolUseNotArray,
}

impl SettingsError {
    /// The error's text.
    pub fn message(&self) -> (r: &'static str)
        ensures
            self is NotObject ==> r@ == "Expected settings to be a JSON object"@,
            self is HooksNotObject ==> r@ == "Expected hooks to be a JSON object"@,
            self is PreToolUseNotArray ==> r@ == "Expected PreToolUse to be an array"@,
    {
        match self {
            SettingsError::NotObject => "Expected settings to be a JSON object",
            SettingsError::HooksNotObject => "Expected hooks to be a JSON object",
            SettingsError::PreToolUseNotArray => "Expected PreToolUse to be an array",
        }
    }
}

// ─── Entries of this tool ──────────────────────────────────────────

/// What the pointer step `/0` selects: the key `0` of an object, the first
/// item of an array.
pub open spec fn first_hook(h: JVal) -> Option<JVal> {
    match h {
        JVal::Object(es, _) => jget(es, "0"@),
        JVal::Array(items, _) => if items.len() > 0 {
            Some(items[0])
        } else {
            None
        },
        _ => None,
    }
}

/// The string at `/hooks/0/command` of a settings entry.
pub open spec fn entry_command(e: JVal) -> Option<Seq<char>> {
    match e {
        JVal::Object(es, _) => match jget(es, "hooks"@) {
            Some(h) => match first_hook(h) {
                Some(JVal::Object(hs, _)) => match jget(hs, "command"@) {
                    Some(JVal::Str(c)) => Some(c),
                    _ => None,
                },
                _ => None,
            },
            None => None,
        },
        _ => None,
    }
}

/// An entry of this tool: its command names the hook.
pub open spec fn is_own_entry(e: JVal) -> bool {
    match entry_command(e) {
        Some(c) => find_first(c, HOOK_IDENTIFIER@) is Some,
        None => false,
    }
}

/// The entries that are not this tool's, in order.
pub open spec fn without_own(items: Seq<JVal>) -> Seq<JVal>
    decreases items.len(),
{
    if items.len() == 0 {
        Seq::empty()
    } else {
        let rest = without_own(items.drop_last());
        if is_own_entry(items.last()) {
            rest
        } else {
            rest.push(items.last())
        }
    }
}

/// The entry that runs the hook script at `command` before each read.
pub open spec fn hook_entry(command: Seq<char>) -> JVal {
    JVal::Object(
        seq![
            ("matcher"@, JVal::Str(HOOK_MATCHER@)),
            (
                "hooks"@,
                JVal::Array(
                    seq![
                        JVal::Object(
                            seq![
                                ("type"@, JVal::Str("command"@)),
                                ("command"@, JVal::Str(command)),
                                ("timeout"@, JVal::Number(decimal(HOOK_TIMEOUT as nat))),
                            ],
                            Seq::empty(),
                        ),
                    ],
                    Seq::empty(),
                ),
            ),
        ],
        Seq::empty(),
    )
}

// ─── Adding and taking out ─────────────────────────────────────────

/// `v`, or `d` where there is none.
pub open spec fn or_else(v: Option<JVal>, d: JVal) -> JVal {
    match v {
        Some(x) => x,
        None => d,
    }
}

/// The settings object `es` with `hooks.PreToolUse` set to `items`, within
/// the hooks object `hs` (containers that change carry no JSON text).
pub open spec fn with_pre_tool_use(
    es: Seq<(Seq<char>, JVal)>,
    hs: Seq<(Seq<char>, JVal)>,
    items: Seq<JVal>,
) -> JVal {
    JVal::Object(
        jinsert(
            es,
            "hooks"@,
            JVal::Object(jinsert(hs, "PreToolUse"@, JVal::Array(items, Seq::empty())), Seq::empty()),
        ),
        Seq::empty(),
    )
}

/// The settings with this tool's entries under `hooks.PreToolUse` replaced
/// by one entry for `command` at the end; `hooks` and `PreToolUse` are
/// created where missing.
pub open spec fn spec_add_hook(s: JVal, command: Seq<char>) -> Result<JVal, SettingsError> {
    match s {
        JVal::Object(es, _) => match or_else(jget(es, "hooks"@), JVal::Object(Seq::empty(), Seq::empty())) {
            JVal::Object(hs, _) => match or_else(jget(hs, "PreToolUse"@), JVal::Array(Seq::empty(), Seq::empty())) {
                JVal::Array(items, _) => Ok(with_pre_tool_use(es, hs, without_own(items).push(hook_entry(command)))),
                _ => Err(SettingsError::PreToolUseNotArray),
            },
            _ => Err(SettingsError::HooksNotObject),
        },
        _ => Err(SettingsError::NotObject),
    }
}

/// The settings without this tool's entries under `hooks.PreToolUse`;
/// settings without that array are left as they are.
pub open spec fn spec_remove_hook(s: JVal) -> JVal {
    match s {
        JVal::Object(es, _) => match jget(es, "hooks"@) {
            Some(JVal::Object(hs, _)) => match jget(hs, "PreToolUse"@) {
                Some(JVal::Array(items, _)) => with_pre_tool_use(es, hs, without_own(items)),
                _ => s,
            },
            _ => s,
        },
        _ => s,
    }
}

/// The items of `hooks.PreToolUse`, where the settings have that array.
pub open spec fn pre_tool_use(s: JVal) -> Option<Seq<JVal>> {
    match s {
        JVal::Object(es, _) => match jget(es, "hooks"@) {
            Some(JVal::Object(hs, _)) => match jget(hs, "PreToolUse"@) {
                Some(JVal::Array(items, _)) => Some(items),
                _ => None,
            },
            _ => None,
        },
        _ => None,
    }
}

/// The model of an outcome of adding.
pub open spec fn add_result_view(r: Result<JsonValue, SettingsError>) -> Result<JVal, SettingsError> {
    match r {
        Ok(v) => Ok(v.view()),
        Err(e) => Err(e),
    }
}

fn contains(s: &str, n: &str) -> (r: bool)
    ensures
        r == (find_first(s@, n@) is Some),
{
    let sv = to_chars(s);
    let nv = to_chars(n);
    find_chars(&sv, &nv).is_some()
}

fn first_hook_of(h: &JsonValue) -> (r: Option<&JsonValue>)
    ensures
        r matches Some(v) ==> first_hook(h.view()) == Some(v.view()),
        r is None ==> first_hook(h.view()) is None,
{
    match h {
        JsonValue::Object(es, rr) => {
            proof { lemma_object_view(*es, *rr); }
            obj_get(es, "0")
        },
        JsonValue::Array(items, rr) => {
            proof { lemma_array_view(*items, *rr); }
            if items.len() > 0 {
                Some(&items[0])
            } else {
                None
            }
        },
        _ => None,
    }
}

fn command_of(e: &JsonValue) -> (r: Option<&String>)
    ensures
        r matches Some(c) ==> entry_command(e.view()) == Some(c@),
        r is None ==> entry_command(e.view()) is None,
{
    match e {
        JsonValue::Object(es, rr) => {
            proof { lemma_object_view(*es, *rr); }
            match obj_get(es, "hooks") {
                Some(h) => match first_hook_of(h) {
                    Some(JsonValue::Object(hs, hr)) => {
                        proof { lemma_object_view(*hs, *hr); }
                        match obj_get(hs, "command") {
                            Some(JsonValue::Str(c)) => Some(c),
                            _ => None,
                        }
                    },
                    _ => None,
                },
                None => None,
            }
        },
        _ => None,
    }
}

/// Whether a settings entry is this tool's (see `is_own_entry`).
pub fn is_own_entry_value(e: &JsonValue) -> (r: bool)
    ensures
        r == is_own_entry(e.view()),
{
    match command_of(e) {
        Some(c) => contains(c.as_str(), HOOK_IDENTIFIER),
        None => false,
    }
}

fn without_own_entries(items: Vec<JsonValue>) -> (r: Vec<JsonValue>)
    ensures
        jvals_view(r@) == without_own(jvals_view(items@)),
{
    let ghost orig = jvals_view(items@);
    let mut items = items;
    let mut out: Vec<JsonValue> = Vec::new();
    let n = items.len();
    let mut i: usize = 0;
    assert(jvals_view(items@) =~= orig.skip(0));
    assert(orig.take(0) =~= Seq::<JVal>::empty());
    while i < n
        invariant
            n == orig.len(),
            i <= n,
            jvals_view(items@) == orig.skip(i as int),
            jvals_view(out@) == without_own(orig.take(i as int)),
        decreases n - i,
    {
        assert(jvals_view(items@).len() == items@.len());
        assert(jvals_view(items@)[0] == orig[i as int]);
        let ghost before = items@;
        assert(jvals_view(before) == orig.skip(i as int));
        let e = items.remove(0);
        assert(jvals_view(items@) =~= orig.skip(i + 1)) by {
            assert forall|k: int| 0 <= k < items@.len() implies jvals_view(items@)[k] == orig.skip(i + 1)[k] by {
                assert(items@[k] == before[k + 1]);
                assert(jvals_view(before)[k + 1] == before[k + 1].view());
                assert(orig.skip(i as int)[k + 1] == orig[i + 1 + k]);
            }
        }
        assert(orig.take(i + 1).drop_last() =~= orig.take(i as int));
        if !is_own_entry_value(&e) {
            out.push(e);
            assert(jvals_view(out@) =~= without_own(orig.take(i as int)).push(orig[i as int]));
        }
        i = i + 1;
    }
    assert(orig.take(n as int) =~= orig);
    out
}

fn hook_entry_value(command: &str) -> (r: JsonValue)
    ensures
        r.view() == hook_entry(command@),
{
    let mut inner: Vec<(String, JsonValue)> = Vec::new();
    inner.push((to_owned_string("type"), JsonValue::Str(to_owned_string("command"))));
    inner.push((to_owned_string("command"), JsonValue::Str(to_owned_string(command))));
    inner.push((to_owned_string("timeout"), JsonValue::Number(decimal_string(HOOK_TIMEOUT))));
    let ir = String::new();
    proof { lemma_object_view(inner, ir); }
    let ghost iv = JsonValue::Object(inner, ir).view();
    assert(iv->Object_0 =~= seq![
        ("type"@, JVal::Str("command"@)),
        ("command"@, JVal::Str(command@)),
        ("timeout"@, JVal::Number(decimal(HOOK_TIMEOUT as nat))),
    ]);
    let mut hooks: Vec<JsonValue> = Vec::new();
    hooks.push(JsonValue::Object(inner, ir));
    let hr = String::new();
    proof { lemma_array_view(hooks, hr); }
    assert(jvals_view(hooks@) =~= seq![iv]);
    let ghost hv = JsonValue::Array(hooks, hr).view();
    let mut outer: Vec<(String, JsonValue)> = Vec::new();
    outer.push((to_owned_string("matcher"), JsonValue::Str(to_owned_string(HOOK_MATCHER))));
    outer.push((to_owned_string("hooks"), JsonValue::Array(hooks, hr)));
    let orr = String::new();
    proof { lemma_object_view(outer, orr); }
    assert(jentries_view(outer@) =~= seq![("matcher"@, JVal::Str(HOOK_MATCHER@)), ("hooks"@, hv)]);
    JsonValue::Object(outer, orr)
}

/// Adds the hook entry for the script at `command` (see `spec_add_hook`).
pub fn add_hook_entry(settings: JsonValue, command: &str) -> (r: Result<JsonValue, SettingsError>)
    ensures
        add_result_view(r) == spec_add_hook(settings.view(), command@),
{
    let ghost sv = settings.view();
    let (mut es, rr) = match settings {
        JsonValue::Object(es, rr) => (es, rr),
        _ => return Err(SettingsError::NotObject),
    };
    proof { lemma_object_view(es, rr); }
    let ghost es0 = es@;
    let (hooks_at, hooks) = match take_entry(&mut es, "hooks") {
        Some((i, ks, v)) => (Some((i, ks)), v),
        None => {
            let (e, er) = (Vec::new(), String::new());
            proof { lemma_object_view(e, er); }
            assert(jentries_view(e@) =~= Seq::empty());
            (None, JsonValue::Object(e, er))
        },
    };
    let (mut hs, hr) = match hooks {
        JsonValue::Object(hs, hr) => (hs, hr),
        _ => return Err(SettingsError::HooksNotObject),
    };
    proof { lemma_object_view(hs, hr); }
    let ghost hs0 = hs@;
    let (pre_at, pre) = match take_entry(&mut hs, "PreToolUse") {
        Some((i, ks, v)) => (Some((i, ks)), v),
        None => {
            let (e, er) = (Vec::new(), String::new());
            proof { lemma_array_view(e, er); }
            assert(jvals_view(e@) =~= Seq::empty());
            (None, JsonValue::Array(e, er))
        },
    };
    let (items, pr) = match pre {
        JsonValue::Array(items, pr) => (items, pr),
        _ => return Err(SettingsError::PreToolUseNotArray),
    };
    proof { lemma_array_view(items, pr); }
    let ghost iv = jvals_view(items@);
    let mut kept = without_own_entries(items);
    let ghost k0 = kept@;
    let entry = hook_entry_value(command);
    let ghost ev = entry.view();
    kept.push(entry);
    let ghost kv = jvals_view(kept@);
    assert(kv =~= without_own(iv).push(hook_entry(command@))) by {
        assert(jvals_view(k0) == without_own(iv));
        assert forall|j: int| 0 <= j < kv.len() implies kv[j] == without_own(iv).push(hook_entry(command@))[j] by {
            if j < k0.len() {
                assert(kept@[j] == k0[j]);
            }
        }
    }
    let kr = String::new();
    proof { lemma_array_view(kept, kr); }
    put_entry(&mut hs, pre_at, "PreToolUse", JsonValue::Array(kept, kr), Ghost(hs0));
    let hr2 = String::new();
    proof { lemma_object_view(hs, hr2); }
    put_entry(&mut es, hooks_at, "hooks", JsonValue::Object(hs, hr2), Ghost(es0));
    let er = String::new();
    proof { lemma_object_view(es, er); }
    assert(sv == JVal::Object(jentries_view(es0), rr@));
    assert(spec_add_hook(sv, command@) == Ok::<JVal, SettingsError>(
        with_pre_tool_use(jentries_view(es0), jentries_view(hs0), kv),
    ));
    Ok(JsonValue::Object(es, er))
}

/// Takes this tool's entries out (see `spec_remove_hook`).
pub fn remove_hook_entries(settings: JsonValue) -> (r: JsonValue)
    ensures
        r.view() == spec_remove_hook(settings.view()),
{
    let ghost sv = settings.view();
    if !has_pre_tool_use(&settings) {
        return settings;
    }
    let (mut es, rr) = match settings {
        JsonValue::Object(es, rr) => (es, rr),
        _ => return settings,
    };
    proof { lemma_object_view(es, rr); }
    let ghost es0 = es@;
    let (hooks_at, hooks) = match take_entry(&mut es, "hooks") {
        Some((i, ks, v)) => (Some((i, ks)), v),
        None => return JsonValue::Object(es, rr),
    };
    let (mut hs, hr) = match hooks {
        JsonValue::Object(hs, hr) => (hs, hr),
        _ => return JsonValue::Object(es, rr),
    };
    proof { lemma_object_view(hs, hr); }
    let ghost hs0 = hs@;
    let (pre_at, pre) = match take_entry(&mut hs, "PreToolUse") {
        Some((i, ks, v)) => (Some((i, ks)), v),
        None => return JsonValue::Object(es, rr),
    };
    let (items, pr) = match pre {
        JsonValue::Array(items, pr) => (items, pr),
        _ => return JsonValue::Object(es, rr),
    };
    proof { lemma_array_view(items, pr); }
    let kept = without_own_entries(items);
    let kr = String::new();
    proof { lemma_array_view(kept, kr); }
    put_entry(&mut hs, pre_at, "PreToolUse", JsonValue::Array(kept, kr), Ghost(hs0));
    let hr2 = String::new();
    proof { lemma_object_view(hs, hr2); }
    put_entry(&mut es, hooks_at, "hooks", JsonValue::Object(hs, hr2), Ghost(es0));
    let er = String::new();
    proof { lemma_object_view(es, er); }
    JsonValue::Object(es, er)
}

/// Whether the settings have the array `hooks.PreToolUse`.
fn has_pre_tool_use(s: &JsonValue) -> (r: bool)
    ensures
        r == (pre_tool_use(s.view()) is Some),
{
    match s {
        JsonValue::Object(es, rr) => {
            proof { lemma_object_view(*es, *rr); }
            match obj_get(es, "hooks") {
                Some(JsonValue::Object(hs, hr)) => {
                    proof { lemma_object_view(*hs, *hr); }
                    match obj_get(hs, "PreToolUse") {
                        Some(JsonValue::Array(_, _)) => true,
                        _ => false,
                    }
                },
                _ => false,
            }
        },
        _ => false,
    }
}

// ─── Laws ──────────────────────────────────────────────────────────

/// The entries of a settings object (none for any other value).
pub open spec fn entries_of(s: JVal) -> Seq<(Seq<char>, JVal)> {
    match s {
        JVal::Object(es, _) => es,
        _ => Seq::empty(),
    }
}

/// The items of `hooks.PreToolUse`, none where there is no such array.
pub open spec fn pre_items(s: JVal) -> Seq<JVal> {
    match pre_tool_use(s) {
        Some(items) => items,
        None => Seq::empty(),
    }
}

proof fn lemma_without_own(items: Seq<JVal>)
    ensures
        without_own(without_own(items)) == without_own(items),
        forall|j: int| 0 <= j < without_own(items).len() ==> !is_own_entry(#[trigger] without_own(items)[j]),
    decreases items.len(),
{
    if items.len() > 0 {
        let rest = without_own(items.drop_last());
        lemma_without_own(items.drop_last());
        if !is_own_entry(items.last()) {
            let w = rest.push(items.last());
            assert(w.drop_last() =~= rest);
        }
    }
}

proof fn lemma_hook_entry_own(command: Seq<char>)
    ensures
        is_own_entry(hook_entry(command)) == (find_first(command, HOOK_IDENTIFIER@) is Some),
{
    reveal_strlit("matcher");
    reveal_strlit("hooks");
    reveal_strlit("type");
    reveal_strlit("command");
    reveal_strlit("0");
    assert("matcher"@.len() == 7 && "hooks"@.len() == 5 && "type"@.len() == 4 && "command"@.len() == 7);
    assert("matcher"@ != "hooks"@);
    assert("type"@ != "command"@);
    let e = hook_entry(command);
    let es = e->Object_0;
    crate::assoc::lemma_afind_first(es, "hooks"@, 1);
    let h = es[1].1;
    let inner = h->Array_0[0];
    let ies = inner->Object_0;
    crate::assoc::lemma_afind_first(ies, "command"@, 1);
    assert(first_hook(h) == Some(inner));
    assert(entry_command(e) == Some(command));
}

proof fn lemma_with_pre_tool_use(es: Seq<(Seq<char>, JVal)>, hs: Seq<(Seq<char>, JVal)>, items: Seq<JVal>)
    ensures
        pre_tool_use(with_pre_tool_use(es, hs, items)) == Some(items),
        forall|k: Seq<char>|
            k != "hooks"@ ==> #[trigger] jget(entries_of(with_pre_tool_use(es, hs, items)), k) == jget(es, k),
{
    let h = JVal::Object(jinsert(hs, "PreToolUse"@, JVal::Array(items, Seq::empty())), Seq::empty());
    lemma_aget_ainsert(es, "hooks"@, h, "hooks"@);
    lemma_aget_ainsert(hs, "PreToolUse"@, JVal::Array(items, Seq::empty()), "PreToolUse"@);
    assert forall|k: Seq<char>| k != "hooks"@ implies #[trigger] jget(
        entries_of(with_pre_tool_use(es, hs, items)),
        k,
    ) == jget(es, k) by {
        lemma_aget_ainsert(es, "hooks"@, h, k);
    }
}

/// Adding the hook twice gives what adding it once gives, for a command
/// that names the hook: the second addition replaces the first.
pub proof fn law_add_hook_idempotent(s: JVal, command: Seq<char>)
    requires
        spec_add_hook(s, command) is Ok,
        find_first(command, HOOK_IDENTIFIER@) is Some,
    ensures
        spec_add_hook(spec_add_hook(s, command)->Ok_0, command) == spec_add_hook(s, command),
{
    let es = s->Object_0;
    let hs = or_else(jget(es, "hooks"@), JVal::Object(Seq::empty(), Seq::empty()))->Object_0;
    let items = or_else(jget(hs, "PreToolUse"@), JVal::Array(Seq::empty(), Seq::empty()))->Array_0;
    let e = hook_entry(command);
    let l = without_own(items).push(e);
    let a = JVal::Array(l, Seq::empty());
    let hs2 = jinsert(hs, "PreToolUse"@, a);
    let h = JVal::Object(hs2, Seq::empty());
    let es2 = jinsert(es, "hooks"@, h);
    let t = spec_add_hook(s, command)->Ok_0;
    assert(t == JVal::Object(es2, Seq::empty()));
    lemma_hook_entry_own(command);
    lemma_without_own(items);
    assert(l.drop_last() =~= without_own(items));
    assert(without_own(l) == without_own(items));
    lemma_aget_ainsert(es, "hooks"@, h, "hooks"@);
    lemma_aget_ainsert(hs, "PreToolUse"@, a, "PreToolUse"@);
    lemma_ainsert_ainsert(hs, "PreToolUse"@, a, a);
    lemma_ainsert_ainsert(es, "hooks"@, h, h);
    assert(with_pre_tool_use(es2, hs2, l) == t);
}

/// Adding the hook leaves the rest of the settings as they were, and puts
/// the new entry last after the entries that are not this tool's.
pub proof fn law_add_hook_keeps_rest(s: JVal, command: Seq<char>)
    requires
        spec_add_hook(s, command) is Ok,
    ensures
        pre_tool_use(spec_add_hook(s, command)->Ok_0) == Some(without_own(pre_items(s)).push(hook_entry(command))),
        forall|k: Seq<char>|
            k != "hooks"@ ==> #[trigger] jget(entries_of(spec_add_hook(s, command)->Ok_0), k) == jget(
                entries_of(s),
                k,
            ),
{
    let es = s->Object_0;
    let hs = or_else(jget(es, "hooks"@), JVal::Object(Seq::empty(), Seq::empty()))->Object_0;
    let items = or_else(jget(hs, "PreToolUse"@), JVal::Array(Seq::empty(), Seq::empty()))->Array_0;
    assert(pre_items(s) == items);
    lemma_with_pre_tool_use(es, hs, without_own(items).push(hook_entry(command)));
}

/// Taking the hook out of settings it was added to leaves, under
/// `hooks.PreToolUse`, the entries that were there and are not this
/// tool's, in their order; the rest of the settings is as it was.
pub proof fn law_remove_after_add(s: JVal, command: Seq<char>)
    requires
        spec_add_hook(s, command) is Ok,
        find_first(command, HOOK_IDENTIFIER@) is Some,
    ensures
        pre_tool_use(spec_remove_hook(spec_add_hook(s, command)->Ok_0)) == Some(without_own(pre_items(s))),
        forall|k: Seq<char>|
            k != "hooks"@ ==> #[trigger] jget(
                entries_of(spec_remove_hook(spec_add_hook(s, command)->Ok_0)),
                k,
            ) == jget(entries_of(s), k),
{
    let t = spec_add_hook(s, command)->Ok_0;
    law_add_hook_keeps_rest(s, command);
    let l = without_own(pre_items(s)).push(hook_entry(command));
    lemma_hook_entry_own(command);
    lemma_without_own(pre_items(s));
    assert(l.drop_last() =~= without_own(pre_items(s)));
    let es = t->Object_0;
    let hs = jget(es, "hooks"@)->Some_0->Object_0;
    lemma_with_pre_tool_use(es, hs, without_own(l));
    assert forall|k: Seq<char>| k != "hooks"@ implies #[trigger] jget(entries_of(spec_remove_hook(t)), k) == jget(
        entries_of(s),
        k,
    ) by {
        assert(jget(entries_of(t), k) == jget(entries_of(s), k));
    }
}

/// Taking the hook out leaves no entry of this tool under `hooks.PreToolUse`.
pub proof fn law_remove_leaves_none(s: JVal)
    ensures
        forall|j: int|
            0 <= j < pre_items(spec_remove_hook(s)).len() ==> !is_own_entry(
                #[trigger] pre_items(spec_remove_hook(s))[j],
            ),
{
    match pre_tool_use(s) {
        Some(items) => {
            let es = s->Object_0;
            let hs = jget(es, "hooks"@)->Some_0->Object_0;
            lemma_with_pre_tool_use(es, hs, without_own(items));
            lemma_without_own(items);
        },
        None => {
            assert(spec_remove_hook(s) == s);
        },
    }
}

/// Taking the hook out twice gives what taking it out once gives.
pub proof fn law_remove_idempotent(s: JVal)
    ensures
        spec_remove_hook(spec_remove_hook(s)) == spec_remove_hook(s),
{
    match pre_tool_use(s) {
        Some(items) => {
            let es = s->Object_0;
            let hs = jget(es, "hooks"@)->Some_0->Object_0;
            let w = without_own(items);
            let a = JVal::Array(w, Seq::empty());
            let hs2 = jinsert(hs, "PreToolUse"@, a);
            let h = JVal::Object(hs2, Seq::empty());
            let es2 = jinsert(es, "hooks"@, h);
            lemma_without_own(items);
            lemma_aget_ainsert(es, "hooks"@, h, "hooks"@);
            lemma_aget_ainsert(hs, "PreToolUse"@, a, "PreToolUse"@);
            lemma_ainsert_ainsert(hs, "PreToolUse"@, a, a);
            lemma_ainsert_ainsert(es, "hooks"@, h, h);
            assert(spec_remove_hook(s) == JVal::Object(es2, Seq::empty()));
        },
        None => {
            assert(spec_remove_hook(s) == s);
        },
    }
}

} // verus!
