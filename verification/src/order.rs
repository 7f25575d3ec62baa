//! What holds of every search: a search finds exactly the matching declarations
//! of the tree, in the order of the source, and a match loses its tag and
//! nothing else.

use crate::matcher::all_matches;
use crate::matcher::first_selected;
use crate::matcher::matches_from;
use crate::matcher::matches_in;
use crate::matcher::matching_tag;
use crate::matcher::own_match;
use crate::matcher::selects;
use crate::matcher::stripped;
use crate::model::attributes_of;
use crate::model::inherent_name;
use crate::model::AttrStyle;
use crate::model::AttributeView;
use crate::model::ItemView;
use crate::render::attrs_text;
use crate::render::source_text;
use crate::resolve::explicit_key;
use crate::resolve::export_tag;
use vstd::prelude::*;

verus! {

/// The declarations of the tree under `item` in the order of the source: the
/// declaration itself, then what is nested in it.
pub open spec fn flatten(item: ItemView) -> Seq<ItemView>
    decreases item, 0nat,
{
    seq![item] + flatten_from(item.nested, 0)
}

/// The declarations of the trees under `items[from..]`, tree after tree.
pub open spec fn flatten_from(items: Seq<ItemView>, from: int) -> Seq<ItemView>
    decreases items, items.len() - from,
{
    if 0 <= from < items.len() {
        flatten(items[from]) + flatten_from(items, from + 1)
    } else {
        Seq::empty()
    }
}

/// All declarations of a file in the order of the source.
pub open spec fn document_order(items: Seq<ItemView>) -> Seq<ItemView> {
    flatten_from(items, 0)
}

/// The matches among the declarations `flat`, each taken by itself, in order.
pub open spec fn selected(flat: Seq<ItemView>, search: Seq<char>) -> Seq<ItemView>
    decreases flat.len(),
{
    if flat.len() == 0 {
        Seq::empty()
    } else {
        selected(flat.drop_last(), search) + own_match(flat.last(), search)
    }
}

/// The place that the match of `flat[k]` has in the result: the number of
/// matches among the declarations before it.
pub open spec fn place(flat: Seq<ItemView>, search: Seq<char>, k: int) -> int {
    selected(flat.take(k), search).len() as int
}

/// The first selecting position is in range, selects, and no earlier one does.
pub proof fn lemma_first_selected(item: ItemView, search: Seq<char>, from: int)
    requires
        0 <= from,
    ensures
        match first_selected(item, search, from) {
            Some(i) => from <= i && selects(item, i, search) && forall|k: int|
                from <= k < i ==> !selects(item, k, search),
            None => forall|k: int| from <= k ==> !selects(item, k, search),
        },
    decreases attributes_of(item).len() - from,
{
    if from < attributes_of(item).len() && !selects(item, from, search) {
        lemma_first_selected(item, search, from + 1);
    }
}

/// A declaration with a selecting attribute has a matching tag.
pub proof fn lemma_selecting_attribute_matches(item: ItemView, search: Seq<char>, i: int)
    requires
        selects(item, i, search),
    ensures
        matching_tag(item, search) is Some,
        0 <= matching_tag(item, search)->0 <= i,
        selects(item, matching_tag(item, search)->0, search),
{
    lemma_first_selected(item, search, 0);
}

proof fn lemma_selected_concat(a: Seq<ItemView>, b: Seq<ItemView>, search: Seq<char>)
    ensures
        selected(a + b, search) == selected(a, search) + selected(b, search),
    decreases b.len(),
{
    if b.len() == 0 {
        assert(a + b =~= a);
        assert(selected(a, search) + selected(b, search) =~= selected(a, search));
    } else {
        lemma_selected_concat(a, b.drop_last(), search);
        assert((a + b).drop_last() =~= a + b.drop_last());
        assert((a + b).last() == b.last());
        assert(selected(a + b, search) =~= selected(a, search) + selected(b, search));
    }
}

proof fn lemma_selected_one(item: ItemView, search: Seq<char>)
    ensures
        selected(seq![item], search) == own_match(item, search),
{
    assert(seq![item].drop_last() =~= Seq::<ItemView>::empty());
    assert(seq![item].last() == item);
    assert(selected(Seq::<ItemView>::empty(), search) =~= Seq::<ItemView>::empty());
    assert(selected(seq![item], search) =~= own_match(item, search));
}

/// The matches in a tree are the matches among its declarations in the order of
/// the source.
pub proof fn lemma_matches_in_order(item: ItemView, search: Seq<char>)
    ensures
        matches_in(item, search) == selected(flatten(item), search),
    decreases item, 0nat,
{
    lemma_matches_from_order(item.nested, search, 0);
    lemma_selected_one(item, search);
    lemma_selected_concat(seq![item], flatten_from(item.nested, 0), search);
}

/// The matches in a row of trees are the matches among their declarations in the
/// order of the source.
pub proof fn lemma_matches_from_order(items: Seq<ItemView>, search: Seq<char>, from: int)
    ensures
        matches_from(items, search, from) == selected(flatten_from(items, from), search),
    decreases items, items.len() - from,
{
    if 0 <= from < items.len() {
        lemma_matches_in_order(items[from], search);
        lemma_matches_from_order(items, search, from + 1);
        lemma_selected_concat(flatten(items[from]), flatten_from(items, from + 1), search);
    }
}

/// A search gives the matching declarations of the file in the order of the
/// source, and nothing else.
pub proof fn lemma_search_follows_document_order(items: Seq<ItemView>, search: Seq<char>)
    ensures
        all_matches(items, search) == selected(document_order(items), search),
{
    lemma_matches_from_order(items, search, 0);
}

proof fn lemma_selected_split(flat: Seq<ItemView>, search: Seq<char>, k: int)
    requires
        0 <= k < flat.len(),
    ensures
        selected(flat, search) == selected(flat.take(k), search) + own_match(flat[k], search)
            + selected(flat.skip(k + 1), search),
{
    assert(flat =~= flat.take(k) + seq![flat[k]] + flat.skip(k + 1));
    lemma_selected_concat(flat.take(k) + seq![flat[k]], flat.skip(k + 1), search);
    lemma_selected_concat(flat.take(k), seq![flat[k]], search);
    lemma_selected_one(flat[k], search);
}

/// A matching declaration at position `k` of the order of the source stands in
/// the result at its place, without its matching tag.
pub proof fn lemma_match_has_its_place(flat: Seq<ItemView>, search: Seq<char>, k: int)
    requires
        0 <= k < flat.len(),
        matching_tag(flat[k], search) is Some,
    ensures
        0 <= place(flat, search, k) < selected(flat, search).len(),
        selected(flat, search)[place(flat, search, k)] == stripped(
            flat[k],
            matching_tag(flat[k], search)->0,
        ),
{
    lemma_selected_split(flat, search, k);
}

/// An earlier declaration that matches has an earlier place.
pub proof fn lemma_place_grows(flat: Seq<ItemView>, search: Seq<char>, k1: int, k2: int)
    requires
        0 <= k1 < k2 <= flat.len(),
        matching_tag(flat[k1], search) is Some,
    ensures
        place(flat, search, k1) < place(flat, search, k2),
{
    let head = flat.take(k2);
    assert(head.take(k1) =~= flat.take(k1));
    lemma_selected_split(head, search, k1);
}

/// A declaration that carries an export tag with the explicit key `search` is
/// found by a search for `search`, whatever its inherent name is. It stands in
/// the result without the first of its tags that match.
pub proof fn lemma_explicit_key_is_found(
    items: Seq<ItemView>,
    search: Seq<char>,
    k: int,
    i: int,
)
    requires
        0 <= k < document_order(items).len(),
        0 <= i < attributes_of(document_order(items)[k]).len(),
        export_tag(attributes_of(document_order(items)[k])[i]),
        explicit_key(attributes_of(document_order(items)[k])[i]) == Some(search),
    ensures
        matching_tag(document_order(items)[k], search) is Some,
        all_matches(items, search).contains(
            stripped(document_order(items)[k], matching_tag(document_order(items)[k], search)->0),
        ),
{
    let flat = document_order(items);
    assert(selects(flat[k], i, search));
    lemma_selecting_attribute_matches(flat[k], search, i);
    lemma_search_follows_document_order(items, search);
    lemma_match_has_its_place(flat, search, k);
}

/// A declaration with the inherent name `search` that carries an export tag
/// without a key of its own is found by a search for `search`. It stands in the
/// result without the first of its tags that match.
pub proof fn lemma_inherent_name_is_found(
    items: Seq<ItemView>,
    search: Seq<char>,
    k: int,
    i: int,
)
    requires
        0 <= k < document_order(items).len(),
        0 <= i < attributes_of(document_order(items)[k]).len(),
        export_tag(attributes_of(document_order(items)[k])[i]),
        explicit_key(attributes_of(document_order(items)[k])[i]) is None,
        inherent_name(document_order(items)[k]) == Some(search),
    ensures
        matching_tag(document_order(items)[k], search) is Some,
        all_matches(items, search).contains(
            stripped(document_order(items)[k], matching_tag(document_order(items)[k], search)->0),
        ),
{
    let flat = document_order(items);
    assert(selects(flat[k], i, search));
    lemma_selecting_attribute_matches(flat[k], search, i);
    lemma_search_follows_document_order(items, search);
    lemma_match_has_its_place(flat, search, k);
}

/// Of two matching declarations, the one that stands earlier in the source
/// stands earlier in the result.
pub proof fn lemma_matches_keep_document_order(
    items: Seq<ItemView>,
    search: Seq<char>,
    k1: int,
    k2: int,
)
    requires
        0 <= k1 < k2 < document_order(items).len(),
        matching_tag(document_order(items)[k1], search) is Some,
        matching_tag(document_order(items)[k2], search) is Some,
    ensures
        ({
            let flat = document_order(items);
            let found = all_matches(items, search);
            let p = place(flat, search, k1);
            let q = place(flat, search, k2);
            &&& 0 <= p < q < found.len()
            &&& found[p] == stripped(flat[k1], matching_tag(flat[k1], search)->0)
            &&& found[q] == stripped(flat[k2], matching_tag(flat[k2], search)->0)
        }),
{
    let flat = document_order(items);
    lemma_search_follows_document_order(items, search);
    lemma_match_has_its_place(flat, search, k1);
    lemma_match_has_its_place(flat, search, k2);
    lemma_place_grows(flat, search, k1, k2);
}

/// Every declaration that a search gives is a matching declaration of the file
/// without its matching tag.
pub proof fn lemma_every_result_is_a_match(items: Seq<ItemView>, search: Seq<char>, p: int)
    requires
        0 <= p < all_matches(items, search).len(),
    ensures
        exists|k: int|
            0 <= k < document_order(items).len() && matching_tag(
                #[trigger] document_order(items)[k],
                search,
            ) is Some && all_matches(items, search)[p] == stripped(
                document_order(items)[k],
                matching_tag(document_order(items)[k], search)->0,
            ),
{
    lemma_search_follows_document_order(items, search);
    lemma_selected_origin(document_order(items), search, p);
}

proof fn lemma_selected_origin(flat: Seq<ItemView>, search: Seq<char>, p: int)
    requires
        0 <= p < selected(flat, search).len(),
    ensures
        exists|k: int|
            0 <= k < flat.len() && matching_tag(#[trigger] flat[k], search) is Some && selected(
                flat,
                search,
            )[p] == stripped(flat[k], matching_tag(flat[k], search)->0),
    decreases flat.len(),
{
    let before = selected(flat.drop_last(), search);
    if p < before.len() {
        lemma_selected_origin(flat.drop_last(), search, p);
        let k = choose|k: int|
            0 <= k < flat.drop_last().len() && matching_tag(
                #[trigger] flat.drop_last()[k],
                search,
            ) is Some && before[p] == stripped(
                flat.drop_last()[k],
                matching_tag(flat.drop_last()[k], search)->0,
            );
        assert(flat[k] == flat.drop_last()[k]);
    } else {
        let k = flat.len() - 1;
        assert(flat[k] == flat.last());
    }
}

proof fn lemma_selected_empty(flat: Seq<ItemView>, search: Seq<char>)
    ensures
        selected(flat, search).len() == 0 <==> forall|k: int|
            0 <= k < flat.len() ==> matching_tag(#[trigger] flat[k], search) is None,
    decreases flat.len(),
{
    if flat.len() > 0 {
        let front = flat.drop_last();
        lemma_selected_empty(front, search);
        if selected(flat, search).len() == 0 {
            assert forall|k: int| 0 <= k < flat.len() implies matching_tag(
                #[trigger] flat[k],
                search,
            ) is None by {
                if k < front.len() {
                    assert(front[k] == flat[k]);
                }
            }
        } else if selected(front, search).len() > 0 {
            let k = choose|k: int|
                0 <= k < front.len() && matching_tag(#[trigger] front[k], search) is Some;
            assert(flat[k] == front[k]);
        } else {
            assert(matching_tag(flat[flat.len() - 1], search) is Some);
        }
    }
}

/// A search finds nothing exactly where no declaration of the file, at any
/// depth, carries an export tag whose key is the one that is looked for.
pub proof fn lemma_nothing_found_where_nothing_matches(items: Seq<ItemView>, search: Seq<char>)
    ensures
        all_matches(items, search).len() == 0 <==> forall|k: int|
            0 <= k < document_order(items).len() ==> matching_tag(
                #[trigger] document_order(items)[k],
                search,
            ) is None,
{
    lemma_search_follows_document_order(items, search);
    lemma_selected_empty(document_order(items), search);
}

proof fn lemma_attrs_text_concat(a: Seq<AttributeView>, b: Seq<AttributeView>, style: AttrStyle)
    ensures
        attrs_text(a + b, style) == attrs_text(a, style) + attrs_text(b, style),
    decreases b.len(),
{
    if b.len() == 0 {
        assert(a + b =~= a);
        assert(attrs_text(a, style) + attrs_text(b, style) =~= attrs_text(a, style));
    } else {
        lemma_attrs_text_concat(a, b.drop_last(), style);
        assert((a + b).drop_last() =~= a + b.drop_last());
        assert((a + b).last() == b.last());
        assert(attrs_text(a + b, style) =~= attrs_text(a, style) + attrs_text(b, style));
    }
}

proof fn lemma_attrs_text_one(a: AttributeView, style: AttrStyle)
    ensures
        attrs_text(seq![a], style) == if a.style == style {
            a.tokens + seq![' ']
        } else {
            Seq::empty()
        },
{
    assert(seq![a].drop_last() =~= Seq::<AttributeView>::empty());
    assert(attrs_text(Seq::<AttributeView>::empty(), style) =~= Seq::<char>::empty());
    if a.style == style {
        assert(attrs_text(seq![a], style) =~= a.tokens + seq![' ']);
    }
}

/// A match differs from the declaration that it was made of in one thing: the
/// matching tag is gone. Its other attributes are there in their order, and its
/// source text is that of the declaration without the tokens of that tag.
pub proof fn lemma_match_loses_only_its_tag(item: ItemView, search: Seq<char>)
    requires
        matching_tag(item, search) is Some,
    ensures
        ({
            let i = matching_tag(item, search)->0;
            let attrs = attributes_of(item);
            let result = stripped(item, i);
            &&& 0 <= i < attrs.len()
            &&& attributes_of(result) == attrs.take(i) + attrs.skip(i + 1)
            &&& result.kind == item.kind
            &&& result.ident == item.ident
            &&& result.head == item.head
            &&& result.tail == item.tail
            &&& result.nested == item.nested
            &&& source_text(item) == attrs_text(attrs.take(i), AttrStyle::Outer) + attrs[i].tokens
                + seq![' '] + attrs_text(attrs.skip(i + 1), AttrStyle::Outer) + item.head
                + seq![' '] + attrs_text(attrs, AttrStyle::Inner) + item.tail
            &&& source_text(result) == attrs_text(attrs.take(i), AttrStyle::Outer) + attrs_text(
                attrs.skip(i + 1),
                AttrStyle::Outer,
            ) + item.head + seq![' '] + attrs_text(attrs, AttrStyle::Inner) + item.tail
        }),
{
    lemma_first_selected(item, search, 0);
    let i = matching_tag(item, search)->0;
    let attrs = attributes_of(item);
    let result = stripped(item, i);
    let before = attrs.take(i);
    let after = attrs.skip(i + 1);
    assert(attrs =~= before + seq![attrs[i]] + after);
    assert(attributes_of(result) =~= before + after);
    lemma_attrs_text_one(attrs[i], AttrStyle::Outer);
    lemma_attrs_text_one(attrs[i], AttrStyle::Inner);
    lemma_attrs_text_concat(before, seq![attrs[i]], AttrStyle::Outer);
    lemma_attrs_text_concat(before + seq![attrs[i]], after, AttrStyle::Outer);
    lemma_attrs_text_concat(before, seq![attrs[i]], AttrStyle::Inner);
    lemma_attrs_text_concat(before + seq![attrs[i]], after, AttrStyle::Inner);
    lemma_attrs_text_concat(before, after, AttrStyle::Outer);
    lemma_attrs_text_concat(before, after, AttrStyle::Inner);
    assert(attrs_text(attrs, AttrStyle::Outer) =~= attrs_text(before, AttrStyle::Outer)
        + attrs[i].tokens + seq![' '] + attrs_text(after, AttrStyle::Outer));
    assert(attrs_text(attrs, AttrStyle::Inner) =~= attrs_text(before + after, AttrStyle::Inner));
    assert(source_text(item) =~= attrs_text(before, AttrStyle::Outer) + attrs[i].tokens
        + seq![' '] + attrs_text(after, AttrStyle::Outer) + item.head + seq![' '] + attrs_text(
        attrs,
        AttrStyle::Inner,
    ) + item.tail);
    assert(source_text(result) =~= attrs_text(before, AttrStyle::Outer) + attrs_text(
        after,
        AttrStyle::Outer,
    ) + item.head + seq![' '] + attrs_text(attrs, AttrStyle::Inner) + item.tail);
}

/// Where no other attribute of the declaration is written like its matching
/// tag, no attribute of the match is written like that tag.
pub proof fn lemma_tag_is_gone(item: ItemView, search: Seq<char>)
    requires
        matching_tag(item, search) is Some,
        forall|k: int|
            0 <= k < attributes_of(item).len() && k != matching_tag(item, search)->0
                ==> #[trigger] attributes_of(item)[k].tokens != attributes_of(
                item,
            )[matching_tag(item, search)->0].tokens,
    ensures
        ({
            let i = matching_tag(item, search)->0;
            let result = stripped(item, i);
            forall|k: int|
                0 <= k < attributes_of(result).len() ==> #[trigger] attributes_of(result)[k].tokens
                    != attributes_of(item)[i].tokens
        }),
{
    lemma_first_selected(item, search, 0);
    let i = matching_tag(item, search)->0;
    let attrs = attributes_of(item);
    let result = stripped(item, i);
    assert forall|k: int| 0 <= k < attributes_of(result).len() implies #[trigger] attributes_of(
        result,
    )[k].tokens != attrs[i].tokens by {
        if k < i {
            assert(attributes_of(result)[k] == attrs[k]);
        } else {
            assert(attributes_of(result)[k] == attrs[k + 1]);
        }
    }
}

} // verus!
