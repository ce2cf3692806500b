//! The manifest of supported metadata types (`sf-compact manifest`).
use vstd::prelude::*;
use crate::metadata_types::{classify, metadata_types, rows_view, spec_classify, strings_view, type_table};
use crate::strings::to_owned_string;

verus! {

/// The version of this tool.
pub const VERSION: &'static str = "0.1.0";

/// The manifest: the tool's version and one entry per known extension.
pub struct Manifest {
    pub version: String,
    pub supported_metadata: Vec<MetadataEntry>,
}

/// A supported extension with its type name, category, order sensitivity
/// and the formats it can be written in.
pub struct MetadataEntry {
    pub extension: String,
    pub meta_type: String,
    pub category: String,
    pub order_sensitive: bool,
    pub supported_formats: Vec<String>,
}

/// The model of an entry: extension, type name, category, order sensitivity.
pub open spec fn entry_view(e: MetadataEntry) -> (Seq<char>, Seq<char>, Seq<char>, bool) {
    (e.extension@, e.meta_type@, e.category@, e.order_sensitive)
}

/// The entries of the manifest: one per row of the table, in order, as
/// `classify` describes its extension.
pub open spec fn manifest_entries() -> Seq<(Seq<char>, Seq<char>, Seq<char>, bool)> {
    Seq::new(
        type_table().len(),
        |i: int|
            {
                let c = spec_classify(type_table()[i].ext);
                (type_table()[i].ext, c.0, c.1, c.2)
            },
    )
}

/// The formats listed for every entry of the manifest.
pub open spec fn manifest_formats() -> Seq<Seq<char>> {
    seq!["yaml"@, "yaml-ordered"@, "json"@]
}

fn manifest_format_names() -> (r: Vec<String>)
    ensures
        strings_view(r@) == manifest_formats(),
{
    let mut v: Vec<String> = Vec::new();
    v.push(to_owned_string("yaml"));
    v.push(to_owned_string("yaml-ordered"));
    v.push(to_owned_string("json"));
    assert(strings_view(v@) =~= manifest_formats());
    v
}

/// Builds the manifest (see `manifest_entries`).
pub fn build_manifest() -> (r: Manifest)
    ensures
        r.version@ == VERSION@,
        Seq::new(r.supported_metadata@.len(), |i: int| entry_view(r.supported_metadata@[i])) == manifest_entries(),
        forall|i: int| 0 <= i < r.supported_metadata@.len() ==> strings_view(
            (#[trigger] r.supported_metadata@[i]).supported_formats@,
        ) == manifest_formats(),
{
    let defs = metadata_types();
    let ghost t = type_table();
    let mut entries: Vec<MetadataEntry> = Vec::new();
    let n = defs.len();
    let mut i: usize = 0;
    while i < n
        invariant
            n == defs@.len(),
            rows_view(defs@) == t,
            t == type_table(),
            i <= n,
            entries@.len() == i,
            forall|j: int| 0 <= j < i ==> entry_view(#[trigger] entries@[j]) == manifest_entries()[j],
            forall|j: int| 0 <= j < i ==> strings_view((#[trigger] entries@[j]).supported_formats@)
                == manifest_formats(),
        decreases n - i,
    {
        assert(t[i as int] == defs@[i as int].view());
        let (meta_type, category, order_sensitive) = classify(defs[i].extension);
        entries.push(
            MetadataEntry {
                extension: to_owned_string(defs[i].extension),
                meta_type: to_owned_string(meta_type),
                category: to_owned_string(category),
                order_sensitive,
                supported_formats: manifest_format_names(),
            },
        );
        i = i + 1;
    }
    let r = Manifest { version: to_owned_string(VERSION), supported_metadata: entries };
    assert(Seq::new(r.supported_metadata@.len(), |i: int| entry_view(r.supported_metadata@[i])) =~= manifest_entries());
    r
}

} // verus!
