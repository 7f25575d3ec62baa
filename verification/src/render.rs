//! Rendering: a text as a fenced block that a documentation page can show, and
//! a declaration as the source text that a formatter lays out.

use crate::model::attr_views;
use crate::model::attributes_of;
use crate::model::item_attributes;
use crate::model::AttrStyle;
use crate::model::Attribute;
use crate::model::AttributeView;
use crate::model::Item;
use crate::model::ItemView;
use crate::text::join;
use crate::text::joined;
use crate::text::lemma_joined_prepend;
use crate::text::lemma_joined_push;
use crate::text::lemma_lines_rejoin;
use crate::text::lines;
use crate::text::plain_line_ends;
use crate::text::split_lines;
use crate::text::texts;
use crate::text::without_final_line_feed;
use vstd::prelude::*;
use vstd::string::StringExecFns;

verus! {

/// The line that opens a block: marked as not to be run where `ignore` holds,
/// unmarked otherwise.
pub open spec fn fence_open(ignore: bool) -> Seq<char> {
    if ignore {
        "```ignore"@
    } else {
        "```"@
    }
}

/// The line that closes a block.
pub open spec fn fence_close() -> Seq<char> {
    "```"@
}

/// What separates the lines of a block.
pub open spec fn line_feed() -> Seq<char> {
    seq!['\n']
}

/// What separates two blocks: the end of a line and one empty line.
pub open spec fn blank_line() -> Seq<char> {
    seq!['\n', '\n']
}

/// The block for `text`: the opening line, the lines of `text` as they are, the
/// closing line, each on a line of its own.
pub open spec fn example_text(text: Seq<char>, ignore: bool) -> Seq<char> {
    joined(seq![fence_open(ignore)] + split_lines(text) + seq![fence_close()], line_feed())
}

/// The tokens of the attributes of the given style, in order, each followed by
/// a space.
pub open spec fn attrs_text(attrs: Seq<AttributeView>, style: AttrStyle) -> Seq<char>
    decreases attrs.len(),
{
    if attrs.len() == 0 {
        Seq::empty()
    } else if attrs.last().style == style {
        attrs_text(attrs.drop_last(), style) + attrs.last().tokens + seq![' ']
    } else {
        attrs_text(attrs.drop_last(), style)
    }
}

/// A declaration as source text: its outer attributes, its head, its inner
/// attributes and its tail, separated by spaces.
pub open spec fn source_text(item: ItemView) -> Seq<char> {
    attrs_text(attributes_of(item), AttrStyle::Outer) + item.head + seq![' '] + attrs_text(
        attributes_of(item),
        AttrStyle::Inner,
    ) + item.tail
}

/// The blocks for the texts, in order.
pub open spec fn blocks_of(layouts: Seq<Seq<char>>, ignore: bool) -> Seq<Seq<char>> {
    layouts.map_values(|layout: Seq<char>| example_text(layout, ignore))
}

/// The blocks for the texts, in order and separated by a blank line.
pub open spec fn rendered(layouts: Seq<Seq<char>>, ignore: bool) -> Seq<char> {
    joined(blocks_of(layouts, ignore), blank_line())
}

/// A block is one opening line, the lines of the text, and one closing line.
pub proof fn lemma_example_is_one_block(text: Seq<char>, ignore: bool)
    ensures
        example_text(text, ignore) == fence_open(ignore) + line_feed() + (if split_lines(
            text,
        ).len() == 0 {
            Seq::<char>::empty()
        } else {
            joined(split_lines(text), line_feed()) + line_feed()
        }) + fence_close(),
{
    let body = split_lines(text);
    let nl = line_feed();
    lemma_joined_prepend(fence_open(ignore), body + seq![fence_close()], nl);
    assert(seq![fence_open(ignore)] + body + seq![fence_close()] =~= seq![fence_open(ignore)] + (
    body + seq![fence_close()]));
    lemma_joined_push(body, nl, fence_close());
    assert(body.push(fence_close()) =~= body + seq![fence_close()]);
    if body.len() == 0 {
        assert(example_text(text, ignore) =~= fence_open(ignore) + nl + Seq::<char>::empty()
            + fence_close());
    } else {
        assert(example_text(text, ignore) =~= fence_open(ignore) + nl + (joined(body, nl) + nl)
            + fence_close());
    }
}

/// The block for a text holds the text as it is, between the two fence lines:
/// but for a final line feed, which the closing line takes the place of. This
/// holds where no carriage return stands before a line feed.
pub proof fn lemma_example_is_verbatim(text: Seq<char>, ignore: bool)
    requires
        plain_line_ends(text),
    ensures
        example_text(text, ignore) == fence_open(ignore) + line_feed() + (if text.len() == 0 {
            Seq::<char>::empty()
        } else {
            without_final_line_feed(text) + line_feed()
        }) + fence_close(),
{
    lemma_example_is_one_block(text, ignore);
    lemma_lines_rejoin(text);
}

/// The block for the text `st`, whose lines are taken as they are.
pub fn into_example(st: String, ignore: bool) -> (r: String)
    ensures
        r@ == example_text(st@, ignore),
{
    let text = st.as_str();
    let mut parts: Vec<String> = Vec::new();
    if ignore {
        parts.push("```ignore".to_owned());
    } else {
        parts.push("```".to_owned());
    }
    let body = lines(text);
    let mut i: usize = 0;
    while i < body.len()
        invariant
            i <= body.len(),
            texts(parts@) == seq![fence_open(ignore)] + texts(body@).take(i as int),
        decreases body.len() - i,
    {
        let line = body[i].clone();
        proof {
            assert(texts(parts@.push(line)) =~= texts(parts@).push(line@));
            assert(texts(body@).take(i + 1) =~= texts(body@).take(i as int).push(line@));
            assert(texts(parts@).push(line@) =~= seq![fence_open(ignore)] + texts(body@).take(
                i + 1,
            ));
        }
        parts.push(line);
        i = i + 1;
    }
    let close = "```".to_owned();
    proof {
        assert(texts(body@).take(body.len() as int) =~= texts(body@));
        assert(texts(parts@.push(close)) =~= texts(parts@).push(close@));
        assert(texts(parts@).push(close@) =~= seq![fence_open(ignore)] + split_lines(text@)
            + seq![fence_close()]);
        reveal_strlit("\n");
        assert("\n"@ =~= line_feed());
    }
    parts.push(close);
    join(&parts, "\n")
}

/// Appends to `out` the tokens of the attributes of the given style.
fn push_attrs(out: &mut String, attrs: &[Attribute], outer: bool)
    ensures
        final(out)@ == old(out)@ + attrs_text(
            attr_views(attrs@),
            if outer {
                AttrStyle::Outer
            } else {
                AttrStyle::Inner
            },
        ),
{
    let ghost style = if outer {
        AttrStyle::Outer
    } else {
        AttrStyle::Inner
    };
    let ghost all = attr_views(attrs@);
    let mut i: usize = 0;
    proof {
        assert(out@ + attrs_text(all.take(0), style) =~= out@);
    }
    while i < attrs.len()
        invariant
            i <= attrs.len(),
            all == attr_views(attrs@),
            style == if outer {
                AttrStyle::Outer
            } else {
                AttrStyle::Inner
            },
            out@ == old(out)@ + attrs_text(all.take(i as int), style),
        decreases attrs.len() - i,
    {
        let attr = &attrs[i];
        let wanted = match attr.style {
            AttrStyle::Outer => outer,
            AttrStyle::Inner => !outer,
        };
        proof {
            assert(all.take(i + 1).drop_last() =~= all.take(i as int));
            assert(all.take(i + 1).last() == attr@);
        }
        if wanted {
            let ghost prev = out@;
            out.append(attr.tokens.as_str());
            out.push(' ');
            proof {
                assert(out@ =~= old(out)@ + (attrs_text(all.take(i as int), style) + attr@.tokens
                    + seq![' ']));
            }
        }
        i = i + 1;
    }
    proof {
        assert(all.take(attrs.len() as int) =~= all);
    }
}

/// The declaration as source text.
pub fn item_source(item: &Item) -> (r: String)
    ensures
        r@ == source_text(item@),
{
    let attrs = item_attributes(item);
    let mut out = String::new();
    push_attrs(&mut out, attrs, true);
    out.append(item.head.as_str());
    out.push(' ');
    push_attrs(&mut out, attrs, false);
    out.append(item.tail.as_str());
    proof {
        assert(out@ =~= source_text(item@));
    }
    out
}

/// The blocks for the texts, in order and separated by a blank line.
pub fn render_many(layouts: &Vec<String>, ignore: bool) -> (r: String)
    ensures
        r@ == rendered(texts(layouts@), ignore),
{
    let ghost wanted = blocks_of(texts(layouts@), ignore);
    let mut blocks: Vec<String> = Vec::new();
    let mut i: usize = 0;
    while i < layouts.len()
        invariant
            i <= layouts.len(),
            wanted == blocks_of(texts(layouts@), ignore),
            texts(blocks@) == wanted.take(i as int),
        decreases layouts.len() - i,
    {
        let block = into_example(layouts[i].clone(), ignore);
        proof {
            assert(texts(blocks@.push(block)) =~= texts(blocks@).push(block@));
            assert(wanted.take(i + 1) =~= wanted.take(i as int).push(block@));
        }
        blocks.push(block);
        i = i + 1;
    }
    proof {
        assert(wanted.take(layouts.len() as int) =~= wanted);
        reveal_strlit("\n\n");
        assert("\n\n"@ =~= blank_line());
    }
    join(&blocks, "\n\n")
}

/// A rendering of at least one text is not empty: it begins with the whole
/// block of the first text and ends with the whole block of the last.
pub proof fn lemma_rendered_holds_whole_blocks(layouts: Seq<Seq<char>>, ignore: bool)
    requires
        layouts.len() > 0,
    ensures
        rendered(layouts, ignore).len() > 0,
        example_text(layouts[0], ignore).is_prefix_of(rendered(layouts, ignore)),
        example_text(layouts.last(), ignore).is_suffix_of(rendered(layouts, ignore)),
{
    let blocks = blocks_of(layouts, ignore);
    let all = rendered(layouts, ignore);
    let first = example_text(layouts[0], ignore);
    let last = example_text(layouts.last(), ignore);
    assert(blocks[0] == first);
    assert(blocks.last() == last);
    lemma_example_is_one_block(layouts.last(), ignore);
    reveal_strlit("```");
    assert(last.len() > 0);
    assert(blocks =~= seq![first] + blocks.skip(1));
    lemma_joined_prepend(first, blocks.skip(1), blank_line());
    if blocks.len() == 1 {
        assert(all == first);
        assert(all == last);
    } else {
        assert(all == joined(blocks.drop_last(), blank_line()) + blank_line() + last);
        assert(all.subrange(all.len() - last.len(), all.len() as int) =~= last);
        assert(all.subrange(0, first.len() as int) =~= first);
    }
}

} // verus!
