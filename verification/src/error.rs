//! Why a compact document could not be turned back into an XML tree.
use vstd::prelude::*;

verus! {

/// The reason a compact (JSON or YAML) value is not an sf-compact document.
#[derive(Clone, Copy, Debug, PartialEq, Eq, Structural)]
pub enum ConvertError {
    /// The root of a JSON document is not an object.
    ExpectedJsonObject,
    /// A JSON element object has no string `_tag`.
    MissingJsonTag,
    /// An entry of a JSON `_children` array is not an object.
    ExpectedJsonObjectInChildren,
    /// An entry of a JSON `_children` array has no string `_tag`.
    MissingJsonChildTag,
    /// A YAML element is not a mapping.
    ExpectedYamlMapping,
    /// A YAML element mapping (grouped form) has no string `_tag`.
    MissingYamlTag,
    /// A YAML element mapping (ordered form) has no string `_tag`.
    MissingYamlOrderedTag,
    /// An entry of a YAML `_children` sequence is not a mapping.
    ExpectedMappingInChildren,
    /// An entry of a YAML `_children` sequence has this many keys instead of one.
    NotSingleKey(usize),
    /// The key of an entry of a YAML `_children` sequence is not a string.
    ExpectedStringKey,
}

} // verus!
