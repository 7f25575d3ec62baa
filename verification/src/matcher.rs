//! The search through the tree of declarations: every declaration that a tag
//! exports under the requested key, in the order of the source, each without
//! the tag that matched.

use crate::model::attr_views;
use crate::model::attributes_of;
use crate::model::item_attributes;
use crate::model::item_views;
use crate::model::lemma_nested_views;
use crate::model::set_item_attributes;
use crate::model::Attribute;
use crate::model::Item;
use crate::model::ItemView;
use crate::resolve::export_key;
use crate::resolve::export_tag;
use crate::resolve::is_export_tag;
use crate::resolve::resolve_key;
use vstd::prelude::*;

verus! {

/// Whether the attribute at position `i` of `item` is an export tag whose key
/// is `search`.
pub open spec fn selects(item: ItemView, i: int, search: Seq<char>) -> bool {
    &&& 0 <= i < attributes_of(item).len()
    &&& export_tag(attributes_of(item)[i])
    &&& export_key(item, attributes_of(item)[i]) == Some(search)
}

/// The first position at or after `from` whose attribute selects `item` for
/// `search`, if there is one.
pub open spec fn first_selected(item: ItemView, search: Seq<char>, from: int) -> Option<int>
    decreases attributes_of(item).len() - from,
{
    if from < 0 || from >= attributes_of(item).len() {
        None
    } else if selects(item, from, search) {
        Some(from)
    } else {
        first_selected(item, search, from + 1)
    }
}

/// The position of the tag by which `item` matches `search`: that of its first
/// attribute that is an export tag with that key.
pub open spec fn matching_tag(item: ItemView, search: Seq<char>) -> Option<int> {
    first_selected(item, search, 0)
}

/// The declaration without its attribute at position `i`; nothing else of it
/// changes, and nothing of what is nested in it.
pub open spec fn stripped(item: ItemView, i: int) -> ItemView {
    ItemView { attrs: item.attrs.remove(i), ..item }
}

/// What the declaration itself adds to a search: itself without the matching
/// tag if it matches, nothing otherwise.
pub open spec fn own_match(item: ItemView, search: Seq<char>) -> Seq<ItemView> {
    match matching_tag(item, search) {
        Some(i) => seq![stripped(item, i)],
        None => Seq::empty(),
    }
}

/// The matches in the tree under `item`: its own match first, then those of the
/// declarations nested in it, in their order.
pub open spec fn matches_in(item: ItemView, search: Seq<char>) -> Seq<ItemView>
    decreases item, 0nat,
{
    own_match(item, search) + matches_from(item.nested, search, 0)
}

/// The matches in the trees under `items[from..]`, tree after tree.
pub open spec fn matches_from(items: Seq<ItemView>, search: Seq<char>, from: int) -> Seq<
    ItemView,
>
    decreases items, items.len() - from,
{
    if 0 <= from < items.len() {
        matches_in(items[from], search) + matches_from(items, search, from + 1)
    } else {
        Seq::empty()
    }
}

/// The result of a search through the top-level declarations of a file.
pub open spec fn all_matches(items: Seq<ItemView>, search: Seq<char>) -> Seq<ItemView> {
    matches_from(items, search, 0)
}

/// The position of the tag by which `item` matches `search`, if it matches.
pub fn find_matching_tag(item: &Item, search: &String) -> (r: Option<usize>)
    ensures
        match r {
            Some(i) => matching_tag(item@, search@) == Some(i as int) && selects(
                item@,
                i as int,
                search@,
            ),
            None => matching_tag(item@, search@) is None,
        },
{
    let attrs = item_attributes(item);
    let mut i: usize = 0;
    while i < attrs.len()
        invariant
            i <= attrs.len(),
            attr_views(attrs@) == attributes_of(item@),
            first_selected(item@, search@, i as int) == matching_tag(item@, search@),
        decreases attrs.len() - i,
    {
        let attr = &attrs[i];
        proof {
            assert(attributes_of(item@)[i as int] == attr@);
        }
        if is_export_tag(attr) {
            match resolve_key(item, attr) {
                Some(key) => {
                    if key == *search {
                        return Some(i);
                    }
                },
                None => {},
            }
        }
        i = i + 1;
    }
    None
}

/// A copy of `item` without its attribute at position `i`.
pub fn without_attribute(item: &Item, i: usize) -> (r: Item)
    requires
        i < attributes_of(item@).len(),
    ensures
        r@ == stripped(item@, i as int),
{
    let attrs = item_attributes(item);
    let mut kept: Vec<Attribute> = Vec::new();
    let mut n: usize = 0;
    while n < attrs.len()
        invariant
            n <= attrs.len(),
            i < attrs.len(),
            attr_views(kept@) == if n <= i {
                attr_views(attrs@).take(n as int)
            } else {
                attr_views(attrs@).take(n as int).remove(i as int)
            },
        decreases attrs.len() - n,
    {
        if n != i {
            let a = attrs[n].clone();
            proof {
                let all = attr_views(attrs@);
                assert(attr_views(kept@.push(a)) =~= attr_views(kept@).push(a@));
                assert(all.take(n + 1) =~= all.take(n as int).push(all[n as int]));
                if n > i {
                    assert(all.take(n + 1).remove(i as int) =~= all.take(n as int).remove(
                        i as int,
                    ).push(all[n as int]));
                }
            }
            kept.push(a);
        } else {
            proof {
                let all = attr_views(attrs@);
                assert(all.take(n + 1).remove(i as int) =~= all.take(n as int));
            }
        }
        n = n + 1;
    }
    proof {
        assert(attr_views(attrs@).take(attrs.len() as int) =~= attr_views(attrs@));
    }
    let mut r = item.clone();
    set_item_attributes(&mut r, kept);
    r
}

/// A search in progress: the key that is looked for, and the matches so far.
pub struct ItemVisitor {
    pub search: String,
    pub results: Vec<Item>,
}

impl ItemVisitor {
    /// A search for `search` that has found nothing yet.
    pub fn new(search: String) -> (r: Self)
        ensures
            r.search == search,
            r.results@.len() == 0,
    {
        ItemVisitor { search, results: Vec::new() }
    }

    /// Visits `node` and then all that is nested in it. Appends to the results
    /// the matches in the tree under `node`, in the order of the source.
    pub fn visit_item(&mut self, node: &Item)
        ensures
            final(self).search == old(self).search,
            item_views(final(self).results@) == item_views(old(self).results@) + matches_in(
                node@,
                old(self).search@,
            ),
        decreases node,
    {
        let ghost before = item_views(self.results@);
        let ghost search = self.search@;
        match find_matching_tag(node, &self.search) {
            Some(i) => {
                let item = without_attribute(node, i);
                proof {
                    assert(item_views(self.results@.push(item)) =~= before + own_match(
                        node@,
                        search,
                    ));
                }
                self.results.push(item);
            },
            None => {
                assert(before =~= before + own_match(node@, search));
            },
        }
        proof {
            lemma_nested_views(*node);
        }
        let mut k: usize = 0;
        while k < node.nested.len()
            invariant
                k <= node.nested.len(),
                self.search@ == search,
                self.search == old(self).search,
                node@.nested == item_views(node.nested@),
                item_views(self.results@) + matches_from(node@.nested, search, k as int) == before
                    + matches_in(node@, search),
            decreases node.nested.len() - k,
        {
            let ghost so_far = item_views(self.results@);
            let child = &node.nested[k];
            proof {
                assert(node@.nested[k as int] == child@);
            }
            self.visit_item(child);
            proof {
                assert((so_far + matches_in(child@, search)) + matches_from(
                    node@.nested,
                    search,
                    k + 1,
                ) =~= so_far + matches_from(node@.nested, search, k as int));
            }
            k = k + 1;
        }
        proof {
            assert(item_views(self.results@) + Seq::<ItemView>::empty() =~= item_views(
                self.results@,
            ));
        }
    }

    /// Visits the top-level declarations of a file in their order.
    pub fn visit_file(&mut self, items: &Vec<Item>)
        ensures
            final(self).search == old(self).search,
            item_views(final(self).results@) == item_views(old(self).results@) + all_matches(
                item_views(items@),
                old(self).search@,
            ),
    {
        let ghost before = item_views(self.results@);
        let ghost search = self.search@;
        let ghost views = item_views(items@);
        let mut k: usize = 0;
        while k < items.len()
            invariant
                k <= items.len(),
                self.search@ == search,
                self.search == old(self).search,
                views == item_views(items@),
                item_views(self.results@) + matches_from(views, search, k as int) == before
                    + all_matches(views, search),
            decreases items.len() - k,
        {
            let ghost so_far = item_views(self.results@);
            let child = &items[k];
            self.visit_item(child);
            proof {
                assert((so_far + matches_in(child@, search)) + matches_from(views, search, k + 1)
                    =~= so_far + matches_from(views, search, k as int));
            }
            k = k + 1;
        }
        proof {
            assert(item_views(self.results@) + Seq::<ItemView>::empty() =~= item_views(
                self.results@,
            ));
        }
    }
}

/// All declarations of the file that are exported under `search`: found by a
/// walk through the whole tree, parents before what is nested in them and
/// neighbours in the order of the source, each without the tag that matched.
pub fn find_all(items: &Vec<Item>, search: &str) -> (r: Vec<Item>)
    ensures
        item_views(r@) == all_matches(item_views(items@), search@),
{
    let mut visitor = ItemVisitor::new(search.to_owned());
    visitor.visit_file(items);
    proof {
        assert(Seq::<ItemView>::empty() + all_matches(item_views(items@), search@) =~= all_matches(
            item_views(items@),
            search@,
        ));
        assert(item_views(Seq::<Item>::empty()) =~= Seq::<ItemView>::empty());
    }
    visitor.results
}

} // verus!
