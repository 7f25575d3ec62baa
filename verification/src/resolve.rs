//! The export tag: which attributes mark a declaration for lookup, and under
//! which key.

use crate::model::inherent_name;
use crate::model::name_ident;
use crate::model::AttrStyle;
use crate::model::Attribute;
use crate::model::AttributeView;
use crate::model::Item;
use crate::model::ItemView;
use crate::text::opt_text;
use vstd::prelude::*;

verus! {

/// The name that the last segment of an export tag's path has.
pub open spec fn tag_name() -> Seq<char> {
    "export"@
}

/// The name of the namespace under which the tag may be written.
pub open spec fn namespace_name() -> Seq<char> {
    "docify"@
}

/// Whether an attribute is an export tag: an outer attribute whose path ends in
/// the tag name and either is that one segment, or has the tag name or the
/// namespace name as its segment before the last.
pub open spec fn export_tag(a: AttributeView) -> bool {
    &&& a.style == AttrStyle::Outer
    &&& a.path.len() >= 1
    &&& a.path[a.path.len() - 1] == tag_name()
    &&& (a.path.len() == 1 || a.path[a.path.len() - 2] == tag_name() || a.path[a.path.len() - 2]
        == namespace_name())
}

/// The key that a tag names by itself: its argument.
pub open spec fn explicit_key(a: AttributeView) -> Option<Seq<char>> {
    a.argument
}

/// The key under which a tag exports its declaration: the key that the tag
/// names, else the inherent name of the declaration, else none.
pub open spec fn export_key(item: ItemView, a: AttributeView) -> Option<Seq<char>> {
    match explicit_key(a) {
        Some(key) => Some(key),
        None => inherent_name(item),
    }
}

/// Whether the attribute is an export tag.
pub fn is_export_tag(attr: &Attribute) -> (r: bool)
    ensures
        r == export_tag(attr@),
{
    let n: usize = attr.path.len();
    if n == 0 {
        return false;
    }
    match attr.style {
        AttrStyle::Inner => {
            return false;
        },
        AttrStyle::Outer => {},
    }
    let tag = "export".to_owned();
    if attr.path[n - 1] != tag {
        return false;
    }
    if n == 1 {
        return true;
    }
    let namespace = "docify".to_owned();
    attr.path[n - 2] == tag || attr.path[n - 2] == namespace
}

/// The key under which `attr` exports `item`, if there is one.
pub fn resolve_key(item: &Item, attr: &Attribute) -> (r: Option<String>)
    ensures
        opt_text(r) == export_key(item@, attr@),
{
    match &attr.argument {
        Some(ident) => Some(ident.clone()),
        None => name_ident(item),
    }
}

} // verus!
