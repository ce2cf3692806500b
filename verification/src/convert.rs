//! The decisions of packing and unpacking that do not touch the file
//! system: the metadata type of a file, the format it is written in, the
//! names of the files on either side, the `--include` filter, and the
//! statistics gathered along the way.
use vstd::prelude::*;
use crate::assoc::{afind, lemma_afind_first, lemma_afind_none};
use crate::config::{SfCompactConfig, format_override, spec_format_for, spec_skipped};
use crate::strings::{
    ends_with, ends_with_exec, find_chars, find_first, occurs_at, occurs_at_exec, replace_all, spec_replace_all,
    str_eq, to_chars, to_owned_string,
};

verus! {

// ─── Outside calls ─────────────────────────────────────────────────

/// Whether `glob::Pattern::new` accepts `pattern`.
pub uninterp spec fn glob_compiles(pattern: Seq<char>) -> bool;

/// What `glob::Pattern::matches_with` answers for the compiled `pattern`
/// and `text`, matching case-sensitively with no literal separator or
/// leading dot required.
pub uninterp spec fn glob_matches(pattern: Seq<char>, text: Seq<char>) -> bool;

/// Compiles `pattern` with `glob::Pattern::new` and, when it compiles,
/// matches `text` with `glob::Pattern::matches_with` (case-sensitive, no
/// literal separator or leading dot required). The contract claims only
/// that each answer is the same function of its arguments.
#[verifier::external_body]
fn glob_match_with(pattern: &str, text: &str) -> (r: Option<bool>)
    ensures
        r is Some == glob_compiles(pattern@),
        r matches Some(b) ==> b == glob_matches(pattern@, text@),
{
    let options = glob::MatchOptions {
        case_sensitive: true,
        require_literal_separator: false,
        require_literal_leading_dot: false,
    };
    match glob::Pattern::new(pattern) {
        Ok(p) => Some(p.matches_with(text, options)),
        Err(_) => None,
    }
}

/// What loading the cl100k tokenizer and counting the tokens of `text`
/// gives with `tiktoken_rs`: the number of tokens, or `None` when the
/// tokenizer does not load.
pub uninterp spec fn cl100k_token_count(text: Seq<char>) -> Option<nat>;

/// The width of the windows in which `tokenizable` asks for a space and a letter.
pub const TOKEN_WINDOW: usize = 100000;

/// Whether `c` is an ASCII letter.
pub open spec fn is_ascii_letter(c: char) -> bool {
    ('a' <= c && c <= 'z') || ('A' <= c && c <= 'Z')
}

/// Some character of `s` at a position in `[i, i + w)` is a space.
pub open spec fn space_within(s: Seq<char>, i: int, w: int) -> bool {
    exists|k: int| i <= k < i + w && s[k] == ' '
}

/// Some character of `s` at a position in `[i, i + w)` is an ASCII letter.
pub open spec fn letter_within(s: Seq<char>, i: int, w: int) -> bool {
    exists|k: int| i <= k < i + w && is_ascii_letter(s[k])
}

/// Every `TOKEN_WINDOW` consecutive characters of `s` hold a space and an
/// ASCII letter, so that no run of letters, of white space, or of other
/// characters and line breaks is `TOKEN_WINDOW` long.
pub open spec fn tokenizable(s: Seq<char>) -> bool {
    &&& forall|i: int| 0 <= i && i + TOKEN_WINDOW <= s.len() ==> #[trigger] space_within(s, i, TOKEN_WINDOW as int)
    &&& forall|i: int| 0 <= i && i + TOKEN_WINDOW <= s.len() ==> #[trigger] letter_within(s, i, TOKEN_WINDOW as int)
}

/// Whether `text` is `tokenizable`.
pub fn tokenizable_text(text: &str) -> (r: bool)
    ensures
        r == tokenizable(text@),
{
    let cv = crate::strings::to_chars(text);
    let ghost s = cv@;
    let w: usize = TOKEN_WINDOW;
    let n = cv.len();
    let mut since_space: usize = 0;
    let mut since_letter: usize = 0;
    let mut j: usize = 0;
    while j < n
        invariant
            s == cv@,
            s == text@,
            n == s.len(),
            w == TOKEN_WINDOW,
            j <= n,
            since_space < w,
            since_letter < w,
            since_space <= j,
            since_letter <= j,
            forall|k: int| j - since_space <= k < j ==> s[k] != ' ',
            forall|k: int| j - since_letter <= k < j ==> !is_ascii_letter(s[k]),
            since_space < j ==> s[j - since_space - 1] == ' ',
            since_letter < j ==> is_ascii_letter(s[j - since_letter - 1]),
            forall|i: int| 0 <= i && i + w <= j ==> #[trigger] space_within(s, i, w as int),
            forall|i: int| 0 <= i && i + w <= j ==> #[trigger] letter_within(s, i, w as int),
        decreases n - j,
    {
        let c = cv[j];
        if c == ' ' {
            since_space = 0;
        } else {
            since_space = since_space + 1;
        }
        if ('a' <= c && c <= 'z') || ('A' <= c && c <= 'Z') {
            since_letter = 0;
        } else {
            since_letter = since_letter + 1;
        }
        let ghost i0: int = j + 1 - w;
        if since_space >= w {
            assert(0 <= i0 && i0 + w <= s.len());
            assert forall|k: int| i0 <= k < i0 + w implies s[k] != ' ' by {
                if k < j {
                    assert(j - (since_space - 1) <= k);
                }
            }
            assert(!space_within(s, i0, w as int));
            assert(!tokenizable(s));
            return false;
        }
        if since_letter >= w {
            assert(0 <= i0 && i0 + w <= s.len());
            assert forall|k: int| i0 <= k < i0 + w implies !is_ascii_letter(s[k]) by {
                if k < j {
                    assert(j - (since_letter - 1) <= k);
                }
            }
            assert(!letter_within(s, i0, w as int));
            assert(!tokenizable(s));
            return false;
        }
        proof {
            if 0 <= i0 {
                if c == ' ' {
                    assert(s[j as int] == ' ');
                } else {
                    assert(s[j - since_space] == ' ');
                }
                assert(space_within(s, i0, w as int));
                if is_ascii_letter(c) {
                    assert(is_ascii_letter(s[j as int]));
                } else {
                    assert(is_ascii_letter(s[j - since_letter]));
                }
                assert(letter_within(s, i0, w as int));
            }
            assert forall|i: int| 0 <= i && i + w <= j + 1 implies #[trigger] space_within(s, i, w as int) by {
                if i + w > j {
                    assert(i == i0);
                }
            }
            assert forall|i: int| 0 <= i && i + w <= j + 1 implies #[trigger] letter_within(s, i, w as int) by {
                if i + w > j {
                    assert(i == i0);
                }
            }
        }
        j = j + 1;
    }
    true
}

/// Loads the cl100k tokenizer (`tiktoken_rs::cl100k_base`, built from data
/// compiled into the crate) and counts the tokens of `text`
/// (`CoreBPE::encode_with_special_tokens`). The contract claims that the
/// outcome, the count or `None` when the tokenizer does not load, is a
/// function of the text; it leaves unsaid whether the tokenizer loads.
///
/// The encoder unwraps the results of its `fancy_regex` searches, which
/// fail once one search holds a million backtracking entries or backtracks
/// a million times. Each alternative of the cl100k pattern is a chain of
/// single-character loops without nesting, each pushing at most one entry
/// per character it consumes, and a loop consumes only a run of letters,
/// of white space, or of other characters followed by line breaks. One
/// search tries the seven alternatives at one position, each scanning at
/// most one such run and a character more, so with every run under
/// `TOKEN_WINDOW` characters it pushes, and so pops, fewer than
/// 7 × (`TOKEN_WINDOW` + 2) entries and a few more for the alternations,
/// inside those limits.
#[verifier::external_body]
fn count_tokens(text: &str) -> (r: Option<usize>)
    requires
        tokenizable(text@),
    ensures
        r matches Some(n) ==> cl100k_token_count(text@) == Some(n as nat),
        r is None ==> cl100k_token_count(text@) is None,
{
    match tiktoken_rs::cl100k_base() {
        Ok(bpe) => Some(bpe.encode_with_special_tokens(text).len()),
        Err(_) => None,
    }
}

/// The token counts of an XML text and of its compact form; `None` when
/// the tokenizer does not load. Both texts must be `tokenizable` (see
/// `tokenizable_text`).
pub fn token_counts(xml: &str, compact: &str) -> (r: Option<(usize, usize)>)
    requires
        tokenizable(xml@),
        tokenizable(compact@),
    ensures
        r matches Some((a, b)) ==> cl100k_token_count(xml@) == Some(a as nat) && cl100k_token_count(compact@) == Some(
            b as nat,
        ),
        r is None <==> cl100k_token_count(xml@) is None || cl100k_token_count(compact@) is None,
{
    let a = match count_tokens(xml) {
        Some(a) => a,
        None => return None,
    };
    let b = match count_tokens(compact) {
        Some(b) => b,
        None => return None,
    };
    Some((a, b))
}

// ─── File names ────────────────────────────────────────────────────

/// The last position, before `i`, at which `needle` occurs in `s`.
pub open spec fn find_last_before(s: Seq<char>, needle: Seq<char>, i: int) -> Option<int>
    decreases i,
{
    if i <= 0 {
        None
    } else if occurs_at(s, needle, i - 1) {
        Some(i - 1)
    } else {
        find_last_before(s, needle, i - 1)
    }
}

/// The last position at which `needle` occurs in `s` (`str::rfind`).
pub open spec fn find_last(s: Seq<char>, needle: Seq<char>) -> Option<int> {
    find_last_before(s, needle, s.len() + 1int)
}

proof fn lemma_find_last_before(s: Seq<char>, needle: Seq<char>, i: int)
    ensures
        find_last_before(s, needle, i) matches Some(j) ==> 0 <= j < i && occurs_at(s, needle, j),
    decreases i,
{
    if i > 0 && !occurs_at(s, needle, i - 1) {
        lemma_find_last_before(s, needle, i - 1);
    }
}

fn rfind_chars(hay: &Vec<char>, needle: &Vec<char>) -> (r: Option<usize>)
    ensures
        r matches Some(i) ==> find_last(hay@, needle@) == Some(i as int) && i + needle@.len() <= hay@.len(),
        r is None ==> find_last(hay@, needle@) is None,
{
    let n = hay.len();
    if occurs_at_exec(hay, needle, n) {
        return Some(n);
    }
    let mut i: usize = n;
    while i > 0
        invariant
            i <= n,
            n == hay@.len(),
            find_last(hay@, needle@) == find_last_before(hay@, needle@, i as int),
        decreases i,
    {
        if occurs_at_exec(hay, needle, i - 1) {
            return Some(i - 1);
        }
        i = i - 1;
    }
    None
}

/// The short metadata type of a file name: the part between the last `.`
/// before the last occurrence of `suffix` and that occurrence (`object` in
/// `Account.object-meta.xml`), else `unknown`.
pub open spec fn spec_type_for_name(name: Seq<char>, suffix: Seq<char>) -> Seq<char> {
    match find_last(name, suffix) {
        Some(pos) => match find_last(name.subrange(0, pos), seq!['.']) {
            Some(dot) => name.subrange(dot + 1, pos),
            None => "unknown"@,
        },
        None => "unknown"@,
    }
}

/// The short metadata type of a file name with the given suffix (see `spec_type_for_name`).
pub fn metadata_type_for_ext(name: &str, suffix: &str) -> (r: String)
    ensures
        r@ == spec_type_for_name(name@, suffix@),
{
    let cv = to_chars(name);
    let sv = to_chars(suffix);
    match rfind_chars(&cv, &sv) {
        Some(pos) => {
            proof {
                lemma_find_last_before(name@, suffix@, name@.len() + 1int);
            }
            let before = name.substring_char(0, pos);
            let bv = to_chars(before);
            let mut dotv: Vec<char> = Vec::new();
            dotv.push('.');
            assert(dotv@ =~= seq!['.']);
            match rfind_chars(&bv, &dotv) {
                Some(dot) => name.substring_char(dot + 1, pos).to_string(),
                None => to_owned_string("unknown"),
            }
        },
        None => to_owned_string("unknown"),
    }
}

/// The short metadata type of an XML metadata file name (`flow` for `X.flow-meta.xml`).
pub fn metadata_type_for(name: &str) -> (r: String)
    ensures
        r@ == spec_type_for_name(name@, "-meta.xml"@),
{
    metadata_type_for_ext(name, "-meta.xml")
}

/// A compact file name ends with `-meta.yaml` or `-meta.json`.
pub open spec fn spec_is_compact_name(name: Seq<char>) -> bool {
    ends_with(name, "-meta.yaml"@) || ends_with(name, "-meta.json"@)
}

/// Whether a file name is that of a compact file.
pub fn is_sf_compact_file_name(name: &str) -> (r: bool)
    ensures
        r == spec_is_compact_name(name@),
{
    ends_with_exec(name, "-meta.yaml") || ends_with_exec(name, "-meta.json")
}

/// The suffix of a compact file in a format: `-meta.json` for JSON, else `-meta.yaml`.
pub open spec fn compact_suffix(format: Seq<char>) -> Seq<char> {
    if format == "json"@ {
        "-meta.json"@
    } else {
        "-meta.yaml"@
    }
}

/// How a compact file is written.
pub enum CompactStyle {
    Json,
    YamlOrdered,
    Yaml,
}

/// The style for a format name: `json` and `yaml-ordered` name theirs,
/// anything else is plain YAML.
pub open spec fn spec_compact_style(format: Seq<char>) -> CompactStyle {
    if format == "json"@ {
        CompactStyle::Json
    } else if format == "yaml-ordered"@ {
        CompactStyle::YamlOrdered
    } else {
        CompactStyle::Yaml
    }
}

/// The style for a format name (see `spec_compact_style`).
pub fn compact_style(format: &str) -> (r: CompactStyle)
    ensures
        r == spec_compact_style(format@),
{
    if str_eq(format, "json") {
        CompactStyle::Json
    } else if str_eq(format, "yaml-ordered") {
        CompactStyle::YamlOrdered
    } else {
        CompactStyle::Yaml
    }
}

/// The extension of the compact file for a format: `json` for JSON,
/// `yaml` for either YAML style.
pub fn compact_extension(format: &str) -> (r: &'static str)
    ensures
        r@ == (if format@ == "json"@ { "json"@ } else { "yaml"@ }),
{
    if str_eq(format, "json") {
        "json"
    } else {
        "yaml"
    }
}

/// The extension of the compact file that a file written in `format`
/// replaces: the other one of `json` and `yaml`.
pub fn stale_extension(format: &str) -> (r: &'static str)
    ensures
        r@ == (if format@ == "json"@ { "yaml"@ } else { "json"@ }),
{
    if str_eq(format, "json") {
        "yaml"
    } else {
        "json"
    }
}

/// Whether files of a type are skipped: the configuration skips its type
/// name or its short type.
pub fn skips_type(cfg: &SfCompactConfig, full_type: &str, short_type: &str) -> (r: bool)
    ensures
        r == (spec_skipped(cfg.skip@, full_type@) || spec_skipped(cfg.skip@, short_type@)),
{
    cfg.should_skip(full_type) || cfg.should_skip(short_type)
}

/// The compact file name for an XML file name.
pub open spec fn spec_compact_name(name: Seq<char>, format: Seq<char>) -> Seq<char> {
    spec_replace_all(name, "-meta.xml"@, compact_suffix(format))
}

/// The compact file name for an XML file name in a format (see `spec_compact_name`).
pub fn compact_file_name(name: &str, format: &str) -> (r: String)
    ensures
        r@ == spec_compact_name(name@, format@),
{
    proof { reveal_strlit("-meta.xml"); }
    let suffix = if str_eq(format, "json") {
        "-meta.json"
    } else {
        "-meta.yaml"
    };
    replace_all(name, "-meta.xml", suffix)
}

/// The XML file name for a compact file name.
pub open spec fn spec_xml_name(name: Seq<char>) -> Seq<char> {
    spec_replace_all(spec_replace_all(name, "-meta.yaml"@, "-meta.xml"@), "-meta.json"@, "-meta.xml"@)
}

/// The XML file name for a compact file name (see `spec_xml_name`).
pub fn xml_file_name(name: &str) -> (r: String)
    ensures
        r@ == spec_xml_name(name@),
{
    proof {
        reveal_strlit("-meta.yaml");
        reveal_strlit("-meta.json");
    }
    let a = replace_all(name, "-meta.yaml", "-meta.xml");
    replace_all(a.as_str(), "-meta.json", "-meta.xml")
}

// ─── File names map back ───────────────────────────────────────────

/// `p` starts with a character that occurs nowhere else in it.
pub open spec fn lone_first(p: Seq<char>) -> bool {
    p.len() > 0 && forall|k: int| 0 < k < p.len() ==> #[trigger] p[k] != p[0]
}

/// No occurrence of `p` in `a + q` when there is none in `a` nor in `q`,
/// and `q` starts with `p`'s lone first character.
proof fn lemma_no_occurrence(a: Seq<char>, q: Seq<char>, p: Seq<char>)
    requires
        lone_first(p),
        q.len() > 0,
        q[0] == p[0],
        crate::strings::find_first(a, p) is None,
        crate::strings::find_first(q, p) is None,
    ensures
        crate::strings::find_first(a + q, p) is None,
{
    crate::instructions_laws::lemma_first(a, p);
    crate::instructions_laws::lemma_first(q, p);
    let s = a + q;
    assert forall|i: int| 0 <= i implies !crate::strings::occurs_at(s, p, i) by {
        if i + p.len() <= a.len() {
            crate::instructions_laws::lemma_common_prefix(s, a, p, a.len() as int, i);
        } else if i < a.len() {
            if crate::strings::occurs_at(s, p, i) {
                let o = a.len() - i;
                assert(s.subrange(i, i + p.len())[o] == s[a.len() as int]);
                assert(s[a.len() as int] == q[0]);
            }
        } else {
            crate::instructions_laws::lemma_shift(a, q, p, i - a.len());
        }
    }
    crate::instructions_laws::lemma_first_none(s, p);
}

/// Replacing `p` by `q` in `a + p`, where `a` holds no `p`: `a + q`.
proof fn lemma_replace_last(a: Seq<char>, p: Seq<char>, q: Seq<char>)
    requires
        lone_first(p),
        crate::strings::find_first(a, p) is None,
    ensures
        spec_replace_all(a + p, p, q) == a + q,
{
    crate::instructions_laws::lemma_first(a, p);
    let s = a + p;
    assert forall|i: int| 0 <= i < a.len() implies !crate::strings::occurs_at(s, p, i) by {
        if i + p.len() <= a.len() {
            crate::instructions_laws::lemma_common_prefix(s, a, p, a.len() as int, i);
        } else if crate::strings::occurs_at(s, p, i) {
            let o = a.len() - i;
            assert(s.subrange(i, i + p.len())[o] == s[a.len() as int]);
            assert(s[a.len() as int] == p[0]);
        }
    }
    assert(s.subrange(a.len() as int, (a.len() + p.len()) as int) =~= p);
    crate::instructions_laws::lemma_first_at(s, p, a.len() as int);
    let rest = s.skip((a.len() + p.len()) as int);
    assert(rest =~= Seq::<char>::empty());
    crate::strings::lemma_find_from(rest, p, 0);
    assert(crate::strings::find_first(rest, p) is None);
    assert(spec_replace_all(rest, p, q) == rest);
    assert(s.subrange(0, a.len() as int) =~= a);
    assert(crate::strings::find_first(s, p) == Some(a.len() as int));
    assert(a + q + rest =~= a + q);
}

/// The XML file name of the compact file name of `base` + `-meta.xml` is
/// that name again, in either format, when `base` holds none of the three
/// suffixes.
pub proof fn law_file_names_map_back(base: Seq<char>, format: Seq<char>)
    requires
        crate::strings::find_first(base, "-meta.xml"@) is None,
        crate::strings::find_first(base, "-meta.yaml"@) is None,
        crate::strings::find_first(base, "-meta.json"@) is None,
    ensures
        spec_compact_name(base + "-meta.xml"@, format) == base + compact_suffix(format),
        spec_xml_name(spec_compact_name(base + "-meta.xml"@, format)) == base + "-meta.xml"@,
{
    reveal_strlit("-meta.xml");
    reveal_strlit("-meta.yaml");
    reveal_strlit("-meta.json");
    let x = "-meta.xml"@;
    let y = "-meta.yaml"@;
    let j = "-meta.json"@;
    assert(lone_first(x) && lone_first(y) && lone_first(j));
    lemma_replace_last(base, x, compact_suffix(format));
    // A suffix does not hold another.
    assert(crate::strings::find_first(x, y) is None) by {
        crate::instructions_laws::lemma_first(x, y);
    }
    assert(crate::strings::find_first(x, j) is None) by {
        crate::instructions_laws::lemma_first(x, j);
    }
    assert(crate::strings::find_first(j, y) is None) by {
        crate::instructions_laws::lemma_first(j, y);
        if crate::strings::occurs_at(j, y, 0) {
            assert(j.subrange(0, 10)[6] == y[6]);
        }
        assert forall|i: int| 0 <= i implies !crate::strings::occurs_at(j, y, i) by {
            if i == 0 && crate::strings::occurs_at(j, y, 0) {
                assert(j.subrange(0, 10)[6] == y[6]);
            }
        }
        crate::instructions_laws::lemma_first_none(j, y);
    }
    if format == "json"@ {
        lemma_no_occurrence(base, j, y);
        lemma_replace_last(base, j, x);
    } else {
        lemma_replace_last(base, y, x);
        lemma_no_occurrence(base, x, j);
    }
}

// ─── Choices ───────────────────────────────────────────────────────

/// The format a file is written in: the command line's, else the override
/// set for its type name when that is not `yaml`, else the override for its
/// short type, else the default.
pub open spec fn spec_effective_format(short: Seq<char>, ty: Seq<char>, cfg: SfCompactConfig, cli: Option<Seq<char>>) -> Seq<
    char,
> {
    match cli {
        Some(f) => f,
        None => match format_override(cfg.formats@, ty) {
            Some(f) => if f != "yaml"@ {
                f
            } else {
                spec_format_for(cfg, short)
            },
            None => spec_format_for(cfg, short),
        },
    }
}

/// The format a file is written in (see `spec_effective_format`).
pub fn effective_format_for(short_type: &str, ty: &str, cfg: &SfCompactConfig, cli_override: &Option<String>) -> (r:
    String)
    ensures
        r@ == spec_effective_format(
            short_type@,
            ty@,
            *cfg,
            match cli_override {
                Some(f) => Some(f@),
                None => None,
            },
        ),
{
    if let Some(fmt) = cli_override {
        return fmt.clone();
    }
    match cfg.formats.get(ty) {
        Some(f) => if !str_eq(f.as_str(), "yaml") {
            f.clone()
        } else {
            to_owned_string(cfg.format_for_type(short_type))
        },
        None => to_owned_string(cfg.format_for_type(short_type)),
    }
}

/// Whether a path passes the `--include` filter: the glob matches the
/// whole path or its file name; a pattern that does not compile is looked
/// for as text in the path.
pub open spec fn spec_glob_match(pattern: Seq<char>, path: Seq<char>, file_name: Option<Seq<char>>) -> bool {
    if glob_compiles(pattern) {
        glob_matches(pattern, path) || match file_name {
            Some(n) => glob_matches(pattern, n),
            None => false,
        }
    } else {
        find_first(path, pattern) is Some
    }
}

/// Whether a path passes the `--include` filter (see `spec_glob_match`);
/// `file_name` is the path's last component.
pub fn glob_match(pattern: &str, path: &str, file_name: Option<&str>) -> (r: bool)
    ensures
        r == spec_glob_match(
            pattern@,
            path@,
            match file_name {
                Some(n) => Some(n@),
                None => None,
            },
        ),
{
    match glob_match_with(pattern, path) {
        Some(true) => true,
        Some(false) => match file_name {
            Some(n) => match glob_match_with(pattern, n) {
                Some(b) => b,
                None => false,
            },
            None => false,
        },
        None => {
            let pv = to_chars(path);
            let nv = to_chars(pattern);
            find_chars(&pv, &nv).is_some()
        },
    }
}

// ─── Statistics ────────────────────────────────────────────────────

/// What was gathered for one file.
pub struct FileStats {
    pub relative_path: String,
    pub original_tokens: usize,
    pub compact_tokens: usize,
}

/// What was gathered for one metadata type.
#[derive(Clone, Copy)]
pub struct TypeStats {
    pub count: usize,
    pub original_bytes: u64,
    pub compact_bytes: u64,
    pub original_tokens: usize,
    pub compact_tokens: usize,
}

/// What a pack, an unpack or a stats run gathered: totals, per type (in
/// the order the types were first seen), per file, and the packed files.
pub struct ConvertStats {
    pub files_processed: usize,
    pub original_bytes: u64,
    pub compact_bytes: u64,
    pub original_tokens: usize,
    pub compact_tokens: usize,
    pub by_type: Vec<(String, TypeStats)>,
    pub per_file: Vec<FileStats>,
    pub packed_files: Vec<crate::tracking::PackedFileInfo>,
}

/// The per-type statistics keyed by type name.
pub open spec fn by_type_view(v: Seq<(String, TypeStats)>) -> Seq<(Seq<char>, TypeStats)> {
    Seq::new(v.len(), |i: int| (v[i].0@, v[i].1))
}

/// No type's figures exceed the totals (so adding to a total never
/// overflows a type's figure).
pub open spec fn stats_wf(s: ConvertStats) -> bool {
    forall|i: int|
        0 <= i < s.by_type@.len() ==> {
            let t = (#[trigger] s.by_type@[i]).1;
            &&& t.count <= s.files_processed
            &&& t.original_bytes <= s.original_bytes
            &&& t.compact_bytes <= s.compact_bytes
            &&& t.original_tokens <= s.original_tokens
            &&& t.compact_tokens <= s.compact_tokens
        }
}

/// The figures of a type after one more file.
pub open spec fn add_file(t: TypeStats, xb: u64, cb: u64, xt: usize, ct: usize) -> TypeStats {
    TypeStats {
        count: (t.count + 1) as usize,
        original_bytes: (t.original_bytes + xb) as u64,
        compact_bytes: (t.compact_bytes + cb) as u64,
        original_tokens: (t.original_tokens + xt) as usize,
        compact_tokens: (t.compact_tokens + ct) as usize,
    }
}

/// The figures of a type seen for the first time.
pub open spec fn first_file(xb: u64, cb: u64, xt: usize, ct: usize) -> TypeStats {
    TypeStats { count: 1, original_bytes: xb, compact_bytes: cb, original_tokens: xt, compact_tokens: ct }
}

fn find_type(v: &Vec<(String, TypeStats)>, name: &str) -> (r: Option<usize>)
    ensures
        r matches Some(i) ==> i < v@.len() && afind(by_type_view(v@), name@) == Some(i as int),
        r is None ==> afind(by_type_view(v@), name@) is None,
{
    let ghost bv = by_type_view(v@);
    let n = v.len();
    let mut i: usize = 0;
    while i < n
        invariant
            n == v@.len(),
            bv == by_type_view(v@),
            i <= n,
            forall|j: int| 0 <= j < i ==> bv[j].0 != name@,
        decreases n - i,
    {
        if str_eq(v[i].0.as_str(), name) {
            proof { lemma_afind_first(bv, name@, i as int); }
            return Some(i);
        }
        i = i + 1;
    }
    proof { lemma_afind_none(bv, name@); }
    None
}

impl ConvertStats {
    /// Nothing gathered yet.
    pub fn new() -> (r: Self)
        ensures
            r.files_processed == 0,
            r.original_bytes == 0,
            r.compact_bytes == 0,
            r.original_tokens == 0,
            r.compact_tokens == 0,
            r.by_type@.len() == 0,
            r.per_file@.len() == 0,
            r.packed_files@.len() == 0,
            stats_wf(r),
    {
        ConvertStats {
            files_processed: 0,
            original_bytes: 0,
            compact_bytes: 0,
            original_tokens: 0,
            compact_tokens: 0,
            by_type: Vec::new(),
            per_file: Vec::new(),
            packed_files: Vec::new(),
        }
    }

    /// The tokens saved: original minus compact, or zero.
    pub fn tokens_saved(&self) -> (r: usize)
        ensures
            r == if self.original_tokens >= self.compact_tokens {
                (self.original_tokens - self.compact_tokens) as usize
            } else {
                0
            },
    {
        self.original_tokens.saturating_sub(self.compact_tokens)
    }

    /// Adds a file: to the totals, to its type's figures (a new type goes
    /// last) and to the per-file list.
    pub fn accumulate(
        &mut self,
        relative_path: String,
        meta_type: String,
        xml_bytes: u64,
        compact_bytes: u64,
        xml_tokens: usize,
        compact_tokens: usize,
    )
        requires
            stats_wf(*old(self)),
            old(self).files_processed + 1 <= usize::MAX,
            old(self).original_bytes + xml_bytes <= u64::MAX,
            old(self).compact_bytes + compact_bytes <= u64::MAX,
            old(self).original_tokens + xml_tokens <= usize::MAX,
            old(self).compact_tokens + compact_tokens <= usize::MAX,
        ensures
            stats_wf(*final(self)),
            final(self).files_processed == old(self).files_processed + 1,
            final(self).original_bytes == old(self).original_bytes + xml_bytes,
            final(self).compact_bytes == old(self).compact_bytes + compact_bytes,
            final(self).original_tokens == old(self).original_tokens + xml_tokens,
            final(self).compact_tokens == old(self).compact_tokens + compact_tokens,
            final(self).per_file@ == old(self).per_file@.push(
                FileStats { relative_path, original_tokens: xml_tokens, compact_tokens },
            ),
            final(self).packed_files@ == old(self).packed_files@,
            by_type_view(final(self).by_type@) == match afind(by_type_view(old(self).by_type@), meta_type@) {
                Some(i) => by_type_view(old(self).by_type@).update(
                    i,
                    (meta_type@, add_file(old(self).by_type@[i].1, xml_bytes, compact_bytes, xml_tokens, compact_tokens)),
                ),
                None => by_type_view(old(self).by_type@).push(
                    (meta_type@, first_file(xml_bytes, compact_bytes, xml_tokens, compact_tokens)),
                ),
            },
    {
        let ghost bv = by_type_view(self.by_type@);
        let ghost old_self = *self;
        let found = find_type(&self.by_type, meta_type.as_str());
        match found {
            Some(p) => {
                let t = self.by_type[p].1;
                let nt = TypeStats {
                    count: t.count + 1,
                    original_bytes: t.original_bytes + xml_bytes,
                    compact_bytes: t.compact_bytes + compact_bytes,
                    original_tokens: t.original_tokens + xml_tokens,
                    compact_tokens: t.compact_tokens + compact_tokens,
                };
                let key = meta_type.clone();
                self.by_type.set(p, (key, nt));
                assert(by_type_view(self.by_type@) =~= bv.update(p as int, (meta_type@, nt)));
            },
            None => {
                let nt = TypeStats {
                    count: 1,
                    original_bytes: xml_bytes,
                    compact_bytes: compact_bytes,
                    original_tokens: xml_tokens,
                    compact_tokens: compact_tokens,
                };
                let key = meta_type.clone();
                self.by_type.push((key, nt));
                assert(by_type_view(self.by_type@) =~= bv.push((meta_type@, nt)));
            },
        }
        self.per_file.push(FileStats { relative_path, original_tokens: xml_tokens, compact_tokens });
        self.files_processed = self.files_processed + 1;
        self.original_bytes = self.original_bytes + xml_bytes;
        self.compact_bytes = self.compact_bytes + compact_bytes;
        self.original_tokens = self.original_tokens + xml_tokens;
        self.compact_tokens = self.compact_tokens + compact_tokens;
    }

    /// Adds an unpacked file to the totals: one more file, its compact
    /// bytes read and its XML bytes written.
    pub fn add_unpacked(&mut self, compact_bytes: u64, xml_bytes: u64)
        requires
            stats_wf(*old(self)),
            old(self).files_processed + 1 <= usize::MAX,
            old(self).original_bytes + xml_bytes <= u64::MAX,
            old(self).compact_bytes + compact_bytes <= u64::MAX,
        ensures
            stats_wf(*final(self)),
            final(self).files_processed == old(self).files_processed + 1,
            final(self).original_bytes == old(self).original_bytes + xml_bytes,
            final(self).compact_bytes == old(self).compact_bytes + compact_bytes,
            final(self).original_tokens == old(self).original_tokens,
            final(self).compact_tokens == old(self).compact_tokens,
            final(self).by_type@ == old(self).by_type@,
            final(self).per_file@ == old(self).per_file@,
            final(self).packed_files@ == old(self).packed_files@,
    {
        self.files_processed = self.files_processed + 1;
        self.compact_bytes = self.compact_bytes + compact_bytes;
        self.original_bytes = self.original_bytes + xml_bytes;
    }
}

} // verus!
