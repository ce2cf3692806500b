//! The checks and configuration edits behind the command line: format
//! arguments, `config set`, `config skip`, `init instructions` and the
//! files that `watch` reacts to.
use vstd::prelude::*;
use crate::config::{SfCompactConfig, is_valid_format, is_valid_format_name, spec_skipped};
use crate::instructions::{spec_target_file, target_file};
use crate::str_map::lookup;
use crate::strings::{ends_with, ends_with_exec, push_str, str_eq, to_owned_string};

verus! {

/// Why a command-line request was refused.
#[derive(Debug)]
pub enum CliError {
    /// A format argument that names no format.
    InvalidFormat(String),
    /// `config set` with an odd number of arguments (their count).
    OddPairs(usize),
    /// An empty type name.
    EmptyTypeName,
    /// `config set` with a value that names no format (value, key).
    InvalidFormatFor(String, String),
    /// `config set indent` with a value that is not a number from 0 to 255.
    InvalidIndent(String),
    /// `--name` together with `--remove`.
    NameWithRemove,
    /// `--name` together with `--target`.
    NameWithTarget,
    /// `--remove` together with `--target`.
    RemoveWithTarget,
    /// An unknown instruction target.
    UnknownTarget(String),
}

impl CliError {
    /// The message that reports the error.
    pub fn message(&self) -> (r: String)
        ensures
            self matches CliError::InvalidFormat(f) ==> r@ == "Invalid format '"@ + f@
                + "'. Valid formats: yaml, yaml-ordered, json"@,
            self matches CliError::EmptyTypeName ==> r@ == "Type name cannot be empty"@,
            self matches CliError::InvalidFormatFor(v, k) ==> r@ == "Invalid format '"@ + v@ + "' for '"@ + k@
                + "'. Valid formats: yaml, yaml-ordered, json"@,
            self matches CliError::InvalidIndent(v) ==> r@ == "Invalid indent value '"@ + v@
                + "', expected a number"@,
            self matches CliError::NameWithRemove ==> r@ == "Cannot use --name and --remove together"@,
            self matches CliError::NameWithTarget ==> r@ == "Cannot use --name and --target together"@,
            self matches CliError::RemoveWithTarget ==> r@ == "Cannot use --remove and --target together"@,
            self matches CliError::UnknownTarget(t) ==> r@ == "Unknown target '"@ + t@
                + "'. Valid targets: auto, stdout, cursor, copilot, codex, windsurf, cline, aider"@,
    {
        match self {
            CliError::InvalidFormat(f) => {
                let mut m = to_owned_string("Invalid format '");
                push_str(&mut m, f.as_str());
                push_str(&mut m, "'. Valid formats: yaml, yaml-ordered, json");
                m
            },
            CliError::OddPairs(n) => {
                to_owned_string("Expected key-value pairs (even number of arguments)")
            },
            CliError::EmptyTypeName => to_owned_string("Type name cannot be empty"),
            CliError::InvalidFormatFor(v, k) => {
                let mut m = to_owned_string("Invalid format '");
                push_str(&mut m, v.as_str());
                push_str(&mut m, "' for '");
                push_str(&mut m, k.as_str());
                push_str(&mut m, "'. Valid formats: yaml, yaml-ordered, json");
                m
            },
            CliError::InvalidIndent(v) => {
                let mut m = to_owned_string("Invalid indent value '");
                push_str(&mut m, v.as_str());
                push_str(&mut m, "', expected a number");
                m
            },
            CliError::NameWithRemove => to_owned_string("Cannot use --name and --remove together"),
            CliError::NameWithTarget => to_owned_string("Cannot use --name and --target together"),
            CliError::RemoveWithTarget => to_owned_string("Cannot use --remove and --target together"),
            CliError::UnknownTarget(t) => {
                let mut m = to_owned_string("Unknown target '");
                push_str(&mut m, t.as_str());
                push_str(
                    &mut m,
                    "'. Valid targets: auto, stdout, cursor, copilot, codex, windsurf, cline, aider",
                );
                m
            },
        }
    }
}

/// Checks a `--format` argument: none, or a format.
pub fn validate_format(format: &Option<String>) -> (r: Result<(), CliError>)
    ensures
        r is Ok <==> (format matches Some(f) ==> is_valid_format(f@)),
        r matches Err(CliError::InvalidFormat(f)) ==> format matches Some(g) && f@ == g@,
        r is Err ==> r->Err_0 is InvalidFormat,
{
    match format {
        Some(fmt) => if is_valid_format_name(fmt.as_str()) {
            Ok(())
        } else {
            Err(CliError::InvalidFormat(fmt.clone()))
        },
        None => Ok(()),
    }
}

// ─── Numbers ───────────────────────────────────────────────────────

/// The value of a decimal digit.
pub open spec fn digit_value(c: char) -> int {
    (c as int) - ('0' as int)
}

/// A decimal digit.
pub open spec fn is_digit(c: char) -> bool {
    '0' <= c && c <= '9'
}

/// The value of a sequence of digits.
pub open spec fn digits_value(s: Seq<char>) -> int
    decreases s.len(),
{
    if s.len() == 0 {
        0
    } else {
        digits_value(s.drop_last()) * 10 + digit_value(s.last())
    }
}

/// The digits after an optional `+`.
pub open spec fn unsigned_digits(s: Seq<char>) -> Seq<char> {
    if s.len() > 0 && s[0] == '+' {
        s.drop_first()
    } else {
        s
    }
}

/// What `u8::from_str` gives: an optional `+` then at least one digit,
/// with a value that fits in a byte.
pub open spec fn spec_parse_u8(s: Seq<char>) -> Option<u8> {
    let d = unsigned_digits(s);
    if d.len() > 0 && (forall|i: int| 0 <= i < d.len() ==> is_digit(#[trigger] d[i])) && digits_value(d) <= 255 {
        Some(digits_value(d) as u8)
    } else {
        None
    }
}

proof fn lemma_digits_value_nonneg(s: Seq<char>)
    requires
        forall|i: int| 0 <= i < s.len() ==> is_digit(#[trigger] s[i]),
    ensures
        digits_value(s) >= 0,
        s.len() > 0 ==> digits_value(s) >= digits_value(s.drop_last()),
    decreases s.len(),
{
    if s.len() > 0 {
        assert(is_digit(s[s.len() - 1]));
        lemma_digits_value_nonneg(s.drop_last());
    }
}

/// Parses a byte as `u8::from_str` does (see `spec_parse_u8`).
pub fn parse_u8(s: &str) -> (r: Option<u8>)
    ensures
        r == spec_parse_u8(s@),
{
    let cv = crate::strings::to_chars(s);
    let n = cv.len();
    let start: usize = if n > 0 && cv[0] == '+' {
        1
    } else {
        0
    };
    let ghost d = unsigned_digits(s@);
    assert(d =~= s@.subrange(start as int, n as int));
    if start == n {
        return None;
    }
    let mut v: u32 = 0;
    let mut i: usize = start;
    while i < n
        invariant
            cv@ == s@,
            n == s@.len(),
            start <= i <= n,
            d == s@.subrange(start as int, n as int),
            d == unsigned_digits(s@),
            forall|k: int| 0 <= k < i - start ==> is_digit(#[trigger] d[k]),
            v == digits_value(d.take(i - start)),
            v <= 255,
        decreases n - i,
    {
        let c = cv[i];
        assert(d[i - start] == c);
        if !('0' <= c && c <= '9') {
            assert(!is_digit(d[i - start]));
            return None;
        }
        let dv = (c as u32) - ('0' as u32);
        assert(dv == digit_value(c));
        let ghost pre = d.take(i - start);
        let ghost cur = d.take(i - start + 1);
        assert(cur.drop_last() =~= pre);
        assert(forall|k: int| 0 <= k < cur.len() ==> is_digit(#[trigger] cur[k]));
        proof { lemma_digits_value_nonneg(cur); }
        assert(digits_value(cur) == v * 10 + dv);
        if v * 10 + dv > 255 {
            proof {
                assert(digits_value(cur) > 255);
                lemma_prefix_value_grows(d, i - start + 1);
            }
            return None;
        }
        v = v * 10 + dv;
        i = i + 1;
    }
    assert(d.take(n - start) =~= d);
    Some(v as u8)
}

proof fn lemma_prefix_value_grows(d: Seq<char>, k: int)
    requires
        0 < k <= d.len(),
        digits_value(d.take(k)) > 255,
        forall|i: int| 0 <= i < k ==> is_digit(#[trigger] d[i]),
    ensures
        !(d.len() > 0 && (forall|i: int| 0 <= i < d.len() ==> is_digit(#[trigger] d[i])) && digits_value(d) <= 255),
    decreases d.len() - k,
{
    if k < d.len() {
        if forall|i: int| 0 <= i < d.len() ==> is_digit(#[trigger] d[i]) {
            let cur = d.take(k + 1);
            assert(cur.drop_last() =~= d.take(k));
            assert(forall|i: int| 0 <= i < cur.len() ==> is_digit(#[trigger] cur[i]));
            lemma_digits_value_nonneg(cur);
            lemma_prefix_value_grows(d, k + 1);
        }
    } else {
        assert(d.take(k) =~= d);
    }
}

// ─── config set / config skip ──────────────────────────────────────

/// A `config set` pair that is accepted: a non-empty key, a valid format
/// unless the key is `preserve_comments` or `indent`, and for `indent` a
/// number from 0 to 255.
pub open spec fn pair_ok(key: Seq<char>, value: Seq<char>) -> bool {
    &&& key.len() > 0
    &&& (key == "preserve_comments"@ || key == "indent"@ || is_valid_format(value))
    &&& (key == "indent"@ ==> spec_parse_u8(value) is Some)
}

/// The key of pair `j` (argument `2j`).
pub open spec fn pkey(pairs: Seq<String>, j: int) -> Seq<char> {
    pairs[2 * j]@
}

/// The value of pair `j` (argument `2j + 1`).
pub open spec fn pval(pairs: Seq<String>, j: int) -> Seq<char> {
    pairs[2 * j + 1]@
}

/// How many of the first `j` pairs are accepted before the first one that is not.
pub open spec fn ok_prefix(pairs: Seq<String>, j: int) -> int
    decreases j,
{
    if j <= 0 {
        0
    } else if ok_prefix(pairs, j - 1) == j - 1 && pair_ok(pkey(pairs, j - 1), pval(pairs, j - 1)) {
        j
    } else {
        ok_prefix(pairs, j - 1)
    }
}

/// The value of the last of the first `j` pairs with key `k`.
pub open spec fn last_set(pairs: Seq<String>, j: int, k: Seq<char>) -> Option<Seq<char>>
    decreases j,
{
    if j <= 0 {
        None
    } else if pkey(pairs, j - 1) == k {
        Some(pval(pairs, j - 1))
    } else {
        last_set(pairs, j - 1, k)
    }
}

/// `e` is the error that a refused pair is reported with: an empty key, a
/// value that names no format (value and key), or an indentation that is
/// not a number (value).
pub open spec fn pair_error(e: CliError, key: Seq<char>, value: Seq<char>) -> bool {
    if key.len() == 0 {
        e is EmptyTypeName
    } else if key != "preserve_comments"@ && key != "indent"@ && !is_valid_format(value) {
        e matches CliError::InvalidFormatFor(v, k) && v@ == value && k@ == key
    } else {
        e matches CliError::InvalidIndent(v) && v@ == value
    }
}

/// A key that `config set` keeps outside the per-type formats.
pub open spec fn special_key(k: Seq<char>) -> bool {
    k == "default"@ || k == "preserve_comments"@ || k == "indent"@
}

/// The text of a string, if any.
pub open spec fn opt_view(o: Option<String>) -> Option<Seq<char>> {
    match o {
        Some(s) => Some(s@),
        None => None,
    }
}

/// The configuration after applying the first `q` pairs to `old`.
pub open spec fn set_by_pairs(old: SfCompactConfig, new: SfCompactConfig, pairs: Seq<String>, q: int) -> bool {
    &&& forall|k: Seq<char>|
        #[trigger] opt_view(lookup(new.formats@, k)) == if !special_key(k) && last_set(pairs, q, k) is Some {
            last_set(pairs, q, k)
        } else {
            opt_view(lookup(old.formats@, k))
        }
    &&& new.default_format@ == match last_set(pairs, q, "default"@) {
        Some(v) => v,
        None => old.default_format@,
    }
    &&& new.preserve_comments == match last_set(pairs, q, "preserve_comments"@) {
        Some(v) => v == "true"@,
        None => old.preserve_comments,
    }
    &&& new.indent == match last_set(pairs, q, "indent"@) {
        Some(v) => spec_parse_u8(v)->Some_0,
        None => old.indent,
    }
    &&& new.skip@ == old.skip@
}

proof fn lemma_ok_prefix_stops(pairs: Seq<String>, j: int, m: int)
    requires
        0 <= j < m,
        ok_prefix(pairs, j) == j,
        !pair_ok(pkey(pairs, j), pval(pairs, j)),
    ensures
        ok_prefix(pairs, m) == j,
    decreases m,
{
    if m > j + 1 {
        lemma_ok_prefix_stops(pairs, j, m - 1);
    }
}

/// Applies `config set` arguments, taken as key-value pairs in order: the
/// pairs before the first refused one are applied and that one is
/// reported; with none refused, all are applied and the result is `Ok`.
pub fn apply_config_pairs(cfg: &mut SfCompactConfig, pairs: &[String]) -> (r: Result<(), CliError>)
    ensures
        pairs@.len() % 2 == 1 ==> (r matches Err(CliError::OddPairs(n)) && n == pairs@.len()) && *final(cfg) == *old(cfg),
        pairs@.len() % 2 == 0 ==> ({
            let q = ok_prefix(pairs@, (pairs@.len() / 2) as int);
            &&& (r is Ok <==> q == pairs@.len() / 2)
            &&& (r matches Err(e) ==> q < pairs@.len() / 2 && pair_error(e, pkey(pairs@, q), pval(pairs@, q)))
            &&& set_by_pairs(*old(cfg), *final(cfg), pairs@, q)
        }),
{
    let n = pairs.len();
    if n % 2 == 1 {
        return Err(CliError::OddPairs(n));
    }
    proof {
        reveal_strlit("default");
        reveal_strlit("indent");
        reveal_strlit("preserve_comments");
        reveal_strlit("true");
    }
    let ghost c0 = *cfg;
    let mut j: usize = 0;
    while j < n / 2
        invariant
            n == pairs@.len(),
            n % 2 == 0,
            j <= n / 2,
            c0 == *old(cfg),
            ok_prefix(pairs@, j as int) == j,
            set_by_pairs(c0, *cfg, pairs@, j as int),
        decreases n / 2 - j,
    {
        proof {
            reveal_strlit("default");
            reveal_strlit("indent");
            reveal_strlit("preserve_comments");
        }
        let key = &pairs[2 * j];
        let value = &pairs[2 * j + 1];
        assert(key@ == pkey(pairs@, j as int) && value@ == pval(pairs@, j as int));
        if key.unicode_len() == 0 {
            proof { lemma_ok_prefix_stops(pairs@, j as int, (n / 2) as int); }
            return Err(CliError::EmptyTypeName);
        }
        let special = str_eq(key.as_str(), "preserve_comments") || str_eq(key.as_str(), "indent");
        if !special && !is_valid_format_name(value.as_str()) {
            proof { lemma_ok_prefix_stops(pairs@, j as int, (n / 2) as int); }
            return Err(CliError::InvalidFormatFor(value.clone(), key.clone()));
        }
        let ghost before = *cfg;
        if str_eq(key.as_str(), "default") {
            cfg.default_format = value.clone();
        } else if str_eq(key.as_str(), "preserve_comments") {
            cfg.preserve_comments = str_eq(value.as_str(), "true");
        } else if str_eq(key.as_str(), "indent") {
            match parse_u8(value.as_str()) {
                Some(v) => cfg.indent = v,
                None => {
                    proof { lemma_ok_prefix_stops(pairs@, j as int, (n / 2) as int); }
                    return Err(CliError::InvalidIndent(value.clone()));
                },
            }
        } else {
            cfg.formats.insert(key.clone(), value.clone());
        }
        assert(pair_ok(pkey(pairs@, j as int), pval(pairs@, j as int)));
        assert(ok_prefix(pairs@, j + 1) == j + 1);
        assert forall|k: Seq<char>| #[trigger] last_set(pairs@, j + 1, k) == if pkey(pairs@, j as int) == k {
            Some(pval(pairs@, j as int))
        } else {
            last_set(pairs@, j as int, k)
        } by {}
        assert(set_by_pairs(c0, *cfg, pairs@, j + 1));
        j = j + 1;
    }
    Ok(())
}

/// Adds a type to the skip list (once): refused for an empty name.
pub fn add_skip(cfg: &mut SfCompactConfig, ty: &str) -> (r: Result<(), CliError>)
    ensures
        ty@.len() == 0 <==> r is Err,
        r is Err ==> r->Err_0 is EmptyTypeName && final(cfg).skip@ == old(cfg).skip@,
        r is Ok && spec_skipped(old(cfg).skip@, ty@) ==> final(cfg).skip@ == old(cfg).skip@,
        r is Ok && !spec_skipped(old(cfg).skip@, ty@) ==> final(cfg).skip@.len() == old(cfg).skip@.len() + 1
            && final(cfg).skip@.take(old(cfg).skip@.len() as int) == old(cfg).skip@ && final(cfg).skip@.last()@ == ty@,
        final(cfg).default_format == old(cfg).default_format,
        final(cfg).formats@ == old(cfg).formats@,
{
    if ty.unicode_len() == 0 {
        return Err(CliError::EmptyTypeName);
    }
    if !cfg.should_skip(ty) {
        let ghost before = cfg.skip@;
        cfg.skip.push(to_owned_string(ty));
        assert(cfg.skip@.take(before.len() as int) =~= before);
    }
    Ok(())
}

// ─── init instructions ─────────────────────────────────────────────

/// What `init instructions` is to do.
pub enum InstructionsPlan {
    /// Write the full reference text into the named file.
    Standalone(String),
    /// Remove the directive block from every instruction file.
    Remove,
    /// Print the directive block.
    Stdout,
    /// Put the directive into the instruction files that exist (the
    /// default file when none does).
    Auto,
    /// Put the directive into this instruction file.
    File(&'static str),
}

/// Decides what `init instructions` does from its arguments: `--name`,
/// `--remove` and a `--target` other than `auto` exclude each other.
pub fn plan_instructions(target: &str, name: Option<&str>, remove: bool) -> (r: Result<InstructionsPlan, CliError>)
    ensures
        name is Some && remove ==> r matches Err(CliError::NameWithRemove),
        name is Some && !remove && target@ != "auto"@ ==> r matches Err(CliError::NameWithTarget),
        name is None && remove && target@ != "auto"@ ==> r matches Err(CliError::RemoveWithTarget),
        name is Some && !remove && target@ == "auto"@ ==> (r matches Ok(InstructionsPlan::Standalone(f)) && f@
            == name->Some_0@),
        name is None && remove && target@ == "auto"@ ==> r matches Ok(InstructionsPlan::Remove),
        name is None && !remove && target@ == "stdout"@ ==> r matches Ok(InstructionsPlan::Stdout),
        name is None && !remove && target@ == "auto"@ ==> r matches Ok(InstructionsPlan::Auto),
        name is None && !remove && target@ != "auto"@ && target@ != "stdout"@ ==> match spec_target_file(target@) {
            Some(p) => (r matches Ok(InstructionsPlan::File(q)) && q@ == p),
            None => (r matches Err(CliError::UnknownTarget(t)) && t@ == target@),
        },
{
    proof {
        reveal_strlit("stdout");
        reveal_strlit("auto");
    }
    let auto = str_eq(target, "auto");
    if name.is_some() && remove {
        return Err(CliError::NameWithRemove);
    }
    if name.is_some() && !auto {
        return Err(CliError::NameWithTarget);
    }
    if remove && !auto {
        return Err(CliError::RemoveWithTarget);
    }
    if let Some(n) = name {
        return Ok(InstructionsPlan::Standalone(to_owned_string(n)));
    }
    if remove {
        return Ok(InstructionsPlan::Remove);
    }
    if str_eq(target, "stdout") {
        assert("stdout"@.len() == 6 && "auto"@.len() == 4);
        return Ok(InstructionsPlan::Stdout);
    }
    if auto {
        return Ok(InstructionsPlan::Auto);
    }
    match target_file(target) {
        Some(p) => Ok(InstructionsPlan::File(p)),
        None => Err(CliError::UnknownTarget(to_owned_string(target))),
    }
}

// ─── watch ─────────────────────────────────────────────────────────

/// A file whose change makes `watch` repack: its name ends with `.xml`.
pub open spec fn spec_is_watched(file_name: Seq<char>) -> bool {
    ends_with(file_name, "-meta.xml"@) || ends_with(file_name, ".xml"@)
}

/// Whether a change to a file of this name makes `watch` repack.
pub fn is_watched_file(file_name: &str) -> (r: bool)
    ensures
        r == spec_is_watched(file_name@),
{
    ends_with_exec(file_name, "-meta.xml") || ends_with_exec(file_name, ".xml")
}

} // verus!
