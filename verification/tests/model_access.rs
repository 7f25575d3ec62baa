use docify_embed::model::item_attributes;
use docify_embed::model::name_ident;
use docify_embed::model::set_item_attributes;
use docify_embed::model::AttrStyle;
use docify_embed::model::Attribute;
use docify_embed::model::Item;
use docify_embed::model::ItemKind;

fn attribute(tokens: &str, segments: &[&str]) -> Attribute {
    Attribute {
        style: AttrStyle::Outer,
        path: segments.iter().map(|s| s.to_string()).collect(),
        argument: None,
        tokens: tokens.to_string(),
    }
}

fn item(kind: ItemKind, ident: Option<&str>, attrs: Vec<Attribute>) -> Item {
    Item {
        kind,
        ident: ident.map(String::from),
        attrs,
        head: String::from("head"),
        tail: String::from("tail"),
        nested: Vec::new(),
    }
}

#[test]
fn named_kinds_give_their_identifier() {
    let kinds = [
        ItemKind::Const,
        ItemKind::Enum,
        ItemKind::ExternCrate,
        ItemKind::Fn,
        ItemKind::Macro,
        ItemKind::Mod,
        ItemKind::Static,
        ItemKind::Struct,
        ItemKind::Trait,
        ItemKind::TraitAlias,
        ItemKind::Type,
        ItemKind::Union,
    ];
    for kind in kinds {
        let d = item(kind, Some("thing"), Vec::new());
        assert_eq!(name_ident(&d), Some(String::from("thing")), "{:?}", kind);
    }
}

#[test]
fn unnamed_kinds_give_no_identifier() {
    let kinds = [ItemKind::ForeignMod, ItemKind::Impl, ItemKind::Use, ItemKind::Verbatim];
    for kind in kinds {
        let d = item(kind, Some("thing"), Vec::new());
        assert_eq!(name_ident(&d), None, "{:?}", kind);
    }
}

#[test]
fn macro_invocation_may_lack_a_name() {
    let d = item(ItemKind::Macro, None, Vec::new());
    assert_eq!(name_ident(&d), None);
}

#[test]
fn attributes_are_read_in_order() {
    let attrs = vec![attribute("#[a]", &["a"]), attribute("#[b]", &["b"])];
    let d = item(ItemKind::Impl, None, attrs.clone());
    assert_eq!(item_attributes(&d), attrs.as_slice());
}

#[test]
fn verbatim_declaration_reads_as_without_attributes() {
    let d = item(ItemKind::Verbatim, None, vec![attribute("#[a]", &["a"])]);
    assert!(item_attributes(&d).is_empty());
}

#[test]
fn attributes_are_replaced_and_the_rest_stays() {
    let mut d = item(ItemKind::Struct, Some("S"), vec![attribute("#[a]", &["a"])]);
    d.nested.push(item(ItemKind::Fn, Some("inner"), vec![attribute("#[x]", &["x"])]));
    let before = d.clone();
    let replacement = vec![attribute("#[b]", &["b"]), attribute("#[c]", &["c"])];
    set_item_attributes(&mut d, replacement.clone());
    assert_eq!(d.attrs, replacement);
    assert_eq!(d.kind, before.kind);
    assert_eq!(d.ident, before.ident);
    assert_eq!(d.head, before.head);
    assert_eq!(d.tail, before.tail);
    assert_eq!(d.nested, before.nested);
}

#[test]
fn clone_copies_the_whole_tree() {
    let mut d = item(ItemKind::Mod, Some("outer"), vec![attribute("#[a]", &["a"])]);
    let mut middle = item(ItemKind::Mod, Some("middle"), Vec::new());
    middle.nested.push(item(ItemKind::Fn, Some("leaf"), vec![attribute("#[x]", &["x"])]));
    d.nested.push(middle);
    d.nested.push(item(ItemKind::Use, None, Vec::new()));
    let copy = d.clone();
    assert_eq!(copy, d);
    let attr_copy = d.attrs[0].clone();
    assert_eq!(attr_copy, d.attrs[0]);
    let mut named = attribute("#[export(name)]", &["export"]);
    named.argument = Some(String::from("name"));
    assert_eq!(named.clone(), named);
}
