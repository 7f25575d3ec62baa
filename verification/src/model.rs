//! The uniform declaration model: one shape for every kind of declaration,
//! with read and write access to its inherent name and its attribute list.

use crate::outside::parse_ident;
use crate::text::copy_texts;
use crate::text::opt_text;
use crate::text::texts;
use vstd::prelude::*;

verus! {

/// Where an attribute stands relative to the declaration that it annotates.
#[derive(Clone, Copy, Debug, PartialEq, Eq, Structural)]
pub enum AttrStyle {
    Outer,
    Inner,
}

/// One attribute annotation of a declaration.
#[derive(Debug, PartialEq, Eq)]
pub struct Attribute {
    pub style: AttrStyle,
    /// The names of the path's segments, in order.
    pub path: Vec<String>,
    /// The identifier that the tokens between the attribute's delimiters read
    /// as: `greet` in `#[export(greet)]`. None where the attribute has no such
    /// tokens, or they do not read as one identifier.
    pub argument: Option<String>,
    /// The attribute as it is written, delimiters included.
    pub tokens: String,
}

/// An attribute as a mathematical value: its texts as sequences of characters.
pub struct AttributeView {
    pub style: AttrStyle,
    pub path: Seq<Seq<char>>,
    pub argument: Option<Seq<char>>,
    pub tokens: Seq<char>,
}

impl View for Attribute {
    type V = AttributeView;

    open spec fn view(&self) -> AttributeView {
        AttributeView {
            style: self.style,
            path: texts(self.path@),
            argument: opt_text(self.argument),
            tokens: self.tokens@,
        }
    }
}

impl Clone for Attribute {
    fn clone(&self) -> (r: Self)
        ensures
            r@ == self@,
    {
        Attribute {
            style: self.style,
            path: copy_texts(&self.path),
            argument: match &self.argument {
                Some(ident) => Some(ident.clone()),
                None => None,
            },
            tokens: self.tokens.clone(),
        }
    }
}

impl Attribute {
    /// The attribute with the given style, path and text. Where the attribute
    /// has tokens between delimiters, `list` holds them, and the argument is
    /// the identifier that the parser reads them as, if it reads them as one.
    pub fn new(style: AttrStyle, path: Vec<String>, list: Option<&str>, tokens: String) -> (r:
        Self)
        ensures
            r@.style == style,
            r@.path == texts(path@),
            r@.tokens == tokens@,
            list is None ==> r@.argument is None,
    {
        let argument = match list {
            Some(list_tokens) => parse_ident(list_tokens),
            None => None,
        };
        Attribute { style, path, argument, tokens }
    }
}

/// The views of a sequence of attributes, in order.
pub open spec fn attr_views(v: Seq<Attribute>) -> Seq<AttributeView> {
    v.map_values(|a: Attribute| a@)
}

/// A copy of the attributes, in order.
pub fn copy_attributes(v: &[Attribute]) -> (r: Vec<Attribute>)
    ensures
        attr_views(r@) == attr_views(v@),
{
    let mut out: Vec<Attribute> = Vec::new();
    let mut i: usize = 0;
    while i < v.len()
        invariant
            i <= v.len(),
            attr_views(out@) == attr_views(v@).take(i as int),
        decreases v.len() - i,
    {
        let a = v[i].clone();
        proof {
            assert(attr_views(out@.push(a)) =~= attr_views(out@).push(a@));
            assert(attr_views(v@).take(i + 1) =~= attr_views(v@).take(i as int).push(
                v@[i as int]@,
            ));
        }
        out.push(a);
        i = i + 1;
    }
    proof {
        assert(attr_views(v@).take(v.len() as int) =~= attr_views(v@));
    }
    out
}

/// The kinds of declaration.
#[derive(Clone, Copy, Debug, PartialEq, Eq, Structural)]
pub enum ItemKind {
    Const,
    Enum,
    ExternCrate,
    Fn,
    ForeignMod,
    Impl,
    Macro,
    Mod,
    Static,
    Struct,
    Trait,
    TraitAlias,
    Type,
    Union,
    Use,
    /// Tokens that fit no other kind; such a declaration carries no attributes.
    Verbatim,
}

/// One declaration of a parsed source file.
///
/// As source text a declaration is, in this order: its outer attributes, its
/// `head`, its inner attributes, its `tail`.
#[derive(Debug, PartialEq, Eq)]
pub struct Item {
    pub kind: ItemKind,
    /// The identifier that the declaration is written with, if any.
    pub ident: Option<String>,
    /// Outer and inner attributes, in the order of the source.
    pub attrs: Vec<Attribute>,
    /// The tokens between the outer and the inner attributes.
    pub head: String,
    /// The tokens after the inner attributes.
    pub tail: String,
    /// The declarations directly inside this one, in the order of the source.
    pub nested: Vec<Item>,
}

/// A declaration as a mathematical value, with all that is nested in it.
pub struct ItemView {
    pub kind: ItemKind,
    pub ident: Option<Seq<char>>,
    pub attrs: Seq<AttributeView>,
    pub head: Seq<char>,
    pub tail: Seq<char>,
    pub nested: Seq<ItemView>,
}

/// The view of a declaration, with the views of all that is nested in it.
pub open spec fn view_of(item: Item) -> ItemView
    decreases item,
{
    ItemView {
        kind: item.kind,
        ident: opt_text(item.ident),
        attrs: attr_views(item.attrs@),
        head: item.head@,
        tail: item.tail@,
        nested: Seq::new(
            item.nested@.len(),
            |i: int|
                if 0 <= i < item.nested@.len() {
                    view_of(item.nested@[i])
                } else {
                    arbitrary()
                },
        ),
    }
}

impl View for Item {
    type V = ItemView;

    open spec fn view(&self) -> ItemView {
        view_of(*self)
    }
}

/// The views of a sequence of declarations, in order.
pub open spec fn item_views(v: Seq<Item>) -> Seq<ItemView> {
    v.map_values(|d: Item| d@)
}

/// The view of a declaration lists the views of its nested declarations.
pub proof fn lemma_nested_views(item: Item)
    ensures
        item@.nested == item_views(item.nested@),
{
    let a = item@.nested;
    let b = item_views(item.nested@);
    assert(a.len() == b.len());
    assert forall|i: int| 0 <= i < a.len() implies a[i] == b[i] by {
        assert(a[i] == item.nested@[i]@);
    }
    assert(a =~= b);
}

/// Whether declarations of this kind are written with a name of their own.
pub open spec fn kind_has_name(kind: ItemKind) -> bool {
    match kind {
        ItemKind::ForeignMod | ItemKind::Impl | ItemKind::Use | ItemKind::Verbatim => false,
        _ => true,
    }
}

/// The inherent name of a declaration: its identifier where its kind is written
/// with one and it has one, none otherwise.
pub open spec fn inherent_name(item: ItemView) -> Option<Seq<char>> {
    if kind_has_name(item.kind) {
        item.ident
    } else {
        None
    }
}

/// The attributes that a declaration carries: none where its kind cannot carry
/// any, its attribute list otherwise.
pub open spec fn attributes_of(item: ItemView) -> Seq<AttributeView> {
    if item.kind == ItemKind::Verbatim {
        Seq::empty()
    } else {
        item.attrs
    }
}

/// A copy of the inherent name of a declaration, if it has one.
pub fn name_ident(item: &Item) -> (r: Option<String>)
    ensures
        opt_text(r) == inherent_name(item@),
{
    match item.kind {
        ItemKind::Const
        | ItemKind::Enum
        | ItemKind::ExternCrate
        | ItemKind::Fn
        | ItemKind::Macro
        | ItemKind::Mod
        | ItemKind::Static
        | ItemKind::Struct
        | ItemKind::Trait
        | ItemKind::TraitAlias
        | ItemKind::Type
        | ItemKind::Union => match &item.ident {
            Some(ident) => Some(ident.clone()),
            None => None,
        },
        ItemKind::ForeignMod | ItemKind::Impl | ItemKind::Use | ItemKind::Verbatim => None,
    }
}

/// The attributes of a declaration. A declaration of a kind that cannot carry
/// attributes has none.
pub fn item_attributes(item: &Item) -> (r: &[Attribute])
    ensures
        attr_views(r@) == attributes_of(item@),
        item.kind != ItemKind::Verbatim ==> r@ == item.attrs@,
{
    match item.kind {
        ItemKind::Verbatim => {
            let r = vstd::slice::slice_subrange(item.attrs.as_slice(), 0, 0);
            proof {
                assert(attr_views(r@) =~= Seq::empty());
            }
            r
        },
        _ => item.attrs.as_slice(),
    }
}

/// Replaces the attributes of a declaration and leaves the rest of it as it is.
/// A declaration of a kind that cannot carry attributes is not written to.
pub fn set_item_attributes(item: &mut Item, attrs: Vec<Attribute>)
    requires
        old(item).kind != ItemKind::Verbatim,
    ensures
        final(item)@ == (ItemView { attrs: attr_views(attrs@), ..old(item)@ }),
        attributes_of(final(item)@) == attr_views(attrs@),
{
    item.attrs = attrs;
    proof {
        assert(item@.nested =~= old(item)@.nested);
    }
}

/// A copy of a declaration with all that is nested in it.
pub fn copy_item(item: &Item) -> (r: Item)
    ensures
        r@ == item@,
    decreases item,
{
    let mut nested: Vec<Item> = Vec::new();
    let mut i: usize = 0;
    while i < item.nested.len()
        invariant
            i <= item.nested.len(),
            item_views(nested@) == item_views(item.nested@).take(i as int),
        decreases item.nested.len() - i,
    {
        let d = copy_item(&item.nested[i]);
        proof {
            assert(item_views(nested@.push(d)) =~= item_views(nested@).push(d@));
            assert(item_views(item.nested@).take(i + 1) =~= item_views(item.nested@).take(
                i as int,
            ).push(item.nested@[i as int]@));
        }
        nested.push(d);
        i = i + 1;
    }
    let ident = match &item.ident {
        Some(s) => Some(s.clone()),
        None => None,
    };
    let r = Item {
        kind: item.kind,
        ident,
        attrs: copy_attributes(item.attrs.as_slice()),
        head: item.head.clone(),
        tail: item.tail.clone(),
        nested,
    };
    proof {
        assert(item_views(item.nested@).take(item.nested.len() as int) =~= item_views(
            item.nested@,
        ));
        lemma_nested_views(r);
        lemma_nested_views(*item);
    }
    r
}

impl Clone for Item {
    fn clone(&self) -> (r: Self)
        ensures
            r@ == self@,
    {
        copy_item(self)
    }
}

} // verus!
