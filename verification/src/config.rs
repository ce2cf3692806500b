//! The project configuration (`.sfcompact.yaml`): the default output
//! format, format overrides per metadata type, skipped types and options.
use vstd::prelude::*;
use crate::str_map::{StrMap, lookup};
use crate::strings::{push_str, str_eq, to_owned_string};

verus! {

/// The name of the configuration file.
pub const CONFIG_FILENAME: &'static str = ".sfcompact.yaml";

/// The formats a file can be written in.
pub open spec fn is_valid_format(f: Seq<char>) -> bool {
    f == "yaml"@ || f == "yaml-ordered"@ || f == "json"@
}

/// Whether `f` names a format (`yaml`, `yaml-ordered` or `json`).
pub fn is_valid_format_name(f: &str) -> (r: bool)
    ensures
        r == is_valid_format(f@),
{
    str_eq(f, "yaml") || str_eq(f, "yaml-ordered") || str_eq(f, "json")
}

/// The configuration of a project.
pub struct SfCompactConfig {
    pub default_format: String,
    pub formats: StrMap<String>,
    pub skip: Vec<String>,
    pub preserve_comments: bool,
    pub indent: u8,
}

impl Default for SfCompactConfig {
    fn default() -> (r: Self)
        ensures
            r.default_format@ == "yaml"@,
            r.formats@.len() == 0,
            r.skip@.len() == 0,
            !r.preserve_comments,
            r.indent == 4,
    {
        SfCompactConfig {
            default_format: to_owned_string("yaml"),
            formats: StrMap::new(),
            skip: Vec::new(),
            preserve_comments: false,
            indent: 4,
        }
    }
}

/// The override for a type, if any.
pub open spec fn format_override(formats: Seq<(Seq<char>, String)>, ty: Seq<char>) -> Option<Seq<char>> {
    match lookup(formats, ty) {
        Some(f) => Some(f@),
        None => None,
    }
}

/// The format for a type: its override, else the default format.
pub open spec fn spec_format_for(c: SfCompactConfig, ty: Seq<char>) -> Seq<char> {
    match format_override(c.formats@, ty) {
        Some(f) => f,
        None => c.default_format@,
    }
}

/// Some entry names `k` and is order-sensitive.
pub open spec fn ordered_named(entries: Seq<(String, bool, Vec<String>)>, k: Seq<char>) -> bool {
    exists|i: int| 0 <= i < entries.len() && (#[trigger] entries[i]).0@ == k && entries[i].1
}

/// Some entry of `skip` is `k`.
pub open spec fn spec_skipped(skip: Seq<String>, k: Seq<char>) -> bool {
    exists|i: int| 0 <= i < skip.len() && (#[trigger] skip[i])@ == k
}

/// Why a configuration is not valid.
#[derive(Debug)]
pub enum ConfigError {
    /// `default_format` is not a format.
    InvalidDefaultFormat(String),
    /// The override for a type (second) is not a format (first).
    InvalidFormat(String, String),
}

/// `format` is the first value, in key order, that is not a format.
pub open spec fn first_invalid(es: Seq<(Seq<char>, String)>, i: int) -> bool {
    &&& 0 <= i < es.len()
    &&& !is_valid_format(es[i].1@)
    &&& forall|j: int| 0 <= j < i ==> is_valid_format(#[trigger] es[j].1@)
}

impl ConfigError {
    /// The message that reports the error.
    pub fn message(&self) -> (r: String)
        ensures
            self matches ConfigError::InvalidDefaultFormat(f) ==> r@ == "Invalid default_format '"@ + f@
                + "' in config. Valid formats: yaml, yaml-ordered, json"@,
            self matches ConfigError::InvalidFormat(f, t) ==> r@ == "Invalid format '"@ + f@ + "' for type '"@
                + t@ + "' in config. Valid formats: yaml, yaml-ordered, json"@,
    {
        match self {
            ConfigError::InvalidDefaultFormat(f) => {
                let mut m = to_owned_string("Invalid default_format '");
                push_str(&mut m, f.as_str());
                push_str(&mut m, "' in config. Valid formats: yaml, yaml-ordered, json");
                m
            },
            ConfigError::InvalidFormat(f, t) => {
                let mut m = to_owned_string("Invalid format '");
                push_str(&mut m, f.as_str());
                push_str(&mut m, "' for type '");
                push_str(&mut m, t.as_str());
                push_str(&mut m, "' in config. Valid formats: yaml, yaml-ordered, json");
                m
            },
        }
    }
}

impl SfCompactConfig {
    /// The configuration for `config init`: the default format is `yaml`,
    /// and every order-sensitive type of `entries` (name, order
    /// sensitivity, supported formats) is written `yaml-ordered`.
    pub fn with_smart_defaults(entries: &[(String, bool, Vec<String>)]) -> (r: Self)
        ensures
            r.default_format@ == "yaml"@,
            r.skip@.len() == 0,
            !r.preserve_comments,
            r.indent == 4,
            forall|k: Seq<char>| #[trigger] format_override(r.formats@, k) == if ordered_named(entries@, k) {
                Some("yaml-ordered"@)
            } else {
                None
            },
            forall|k: Seq<char>| #[trigger] spec_format_for(r, k) == if ordered_named(entries@, k) {
                "yaml-ordered"@
            } else {
                "yaml"@
            },
    {
        let mut formats = StrMap::new();
        let n = entries.len();
        let mut i: usize = 0;
        while i < n
            invariant
                n == entries@.len(),
                i <= n,
                forall|k: Seq<char>| #[trigger] format_override(formats@, k) == if ordered_named(entries@.take(i as int), k) {
                    Some("yaml-ordered"@)
                } else {
                    None
                },
            decreases n - i,
        {
            let ghost pre = entries@.take(i as int);
            let ghost cur = entries@.take(i + 1);
            assert forall|k: Seq<char>| ordered_named(cur, k) == (ordered_named(pre, k) || (entries@[i as int].0@ == k
                && entries@[i as int].1)) by {
                if ordered_named(cur, k) {
                    let j = choose|j: int| 0 <= j < cur.len() && (#[trigger] cur[j]).0@ == k && cur[j].1;
                    if j < i {
                        assert(pre[j] == cur[j]);
                    }
                }
                if ordered_named(pre, k) {
                    let j = choose|j: int| 0 <= j < pre.len() && (#[trigger] pre[j]).0@ == k && pre[j].1;
                    assert(cur[j] == pre[j]);
                }
                if entries@[i as int].0@ == k && entries@[i as int].1 {
                    assert(cur[i as int] == entries@[i as int]);
                }
            }
            let ghost before = formats@;
            if entries[i].1 {
                let key = entries[i].0.clone();
                let val = to_owned_string("yaml-ordered");
                assert(key@ == entries@[i as int].0@);
                formats.insert(key, val);
            }
            assert forall|k: Seq<char>| #[trigger] format_override(formats@, k) == if ordered_named(cur, k) {
                Some("yaml-ordered"@)
            } else {
                None
            } by {
                assert(format_override(before, k) == if ordered_named(pre, k) {
                    Some("yaml-ordered"@)
                } else {
                    None
                });
            }
            i = i + 1;
        }
        assert(entries@.take(n as int) =~= entries@);
        let r = SfCompactConfig {
            default_format: to_owned_string("yaml"),
            formats,
            skip: Vec::new(),
            preserve_comments: false,
            indent: 4,
        };
        r
    }

    /// The format configured for a metadata type: its override, else the
    /// default format.
    pub fn format_for_type(&self, ty: &str) -> (r: &str)
        ensures
            r@ == spec_format_for(*self, ty@),
    {
        match self.formats.get(ty) {
            Some(f) => f.as_str(),
            None => self.default_format.as_str(),
        }
    }

    /// Whether a metadata type is to be skipped.
    pub fn should_skip(&self, ty: &str) -> (r: bool)
        ensures
            r == spec_skipped(self.skip@, ty@),
    {
        let n = self.skip.len();
        let mut i: usize = 0;
        while i < n
            invariant
                n == self.skip@.len(),
                i <= n,
                forall|j: int| 0 <= j < i ==> (#[trigger] self.skip@[j])@ != ty@,
            decreases n - i,
        {
            if str_eq(self.skip[i].as_str(), ty) {
                return true;
            }
            i = i + 1;
        }
        false
    }

    /// Checks that the default format and every override name a format;
    /// the first failure, in key order, is reported.
    pub fn validate(&self) -> (r: Result<(), ConfigError>)
        ensures
            r is Ok <==> is_valid_format(self.default_format@) && forall|i: int|
                0 <= i < self.formats@.len() ==> is_valid_format(#[trigger] self.formats@[i].1@),
            r matches Err(ConfigError::InvalidDefaultFormat(f)) ==> !is_valid_format(self.default_format@)
                && f@ == self.default_format@,
            !is_valid_format(self.default_format@) ==> r is Err && r->Err_0 is InvalidDefaultFormat,
            r matches Err(ConfigError::InvalidFormat(f, t)) ==> is_valid_format(self.default_format@) && exists|i: int|
                first_invalid(self.formats@, i) && self.formats@[i].0 == t@ && self.formats@[i].1@ == f@,
    {
        if !is_valid_format_name(self.default_format.as_str()) {
            return Err(ConfigError::InvalidDefaultFormat(self.default_format.clone()));
        }
        let es = self.formats.entries();
        let n = es.len();
        let mut i: usize = 0;
        while i < n
            invariant
                n == es@.len(),
                crate::str_map::keyed_view(es@) == self.formats@,
                is_valid_format(self.default_format@),
                i <= n,
                forall|j: int| 0 <= j < i ==> is_valid_format(#[trigger] self.formats@[j].1@),
            decreases n - i,
        {
            assert(self.formats@[i as int] == (es@[i as int].0@, es@[i as int].1));
            if !is_valid_format_name(es[i].1.as_str()) {
                assert(first_invalid(self.formats@, i as int));
                return Err(ConfigError::InvalidFormat(es[i].1.clone(), es[i].0.clone()));
            }
            i = i + 1;
        }
        Ok(())
    }
}

} // verus!
