//! The lookup as a whole, in two steps around the formatter. The first takes
//! the outcome of reading and parsing a file, and the name asked for, and gives
//! the text to embed, the source texts of the matches, or the reason why there
//! is neither. The second takes what the formatter made of those source texts
//! and gives the text to embed. The formatter itself is the caller's.

use crate::matcher::all_matches;
use crate::matcher::find_all;
use crate::model::inherent_name;
use crate::model::item_views;
use crate::model::name_ident;
use crate::model::Item;
use crate::model::ItemView;
use crate::matcher::matching_tag;
use crate::matcher::stripped;
use crate::order::document_order;
use crate::order::lemma_matches_keep_document_order;
use crate::order::lemma_nothing_found_where_nothing_matches;
use crate::order::place;
use crate::render::blank_line;
use crate::render::blocks_of;
use crate::render::example_text;
use crate::render::into_example;
use crate::render::item_source;
use crate::render::lemma_rendered_holds_whole_blocks;
use crate::render::render_many;
use crate::render::rendered;
use crate::render::source_text;
use crate::text::joined;
use crate::text::opt_text;
use crate::text::texts;
use vstd::prelude::*;
use vstd::string::StringExecFns;

verus! {

/// What a lookup is asked for: the path of the file and, unless the whole file
/// is wanted, the key of the declarations to embed.
#[derive(Clone, Debug, PartialEq, Eq)]
pub struct EmbedArgs {
    pub file_path: String,
    pub item_ident: Option<String>,
}

/// What a lookup is asked for, as a mathematical value.
pub struct EmbedArgsView {
    pub file_path: Seq<char>,
    pub item_ident: Option<Seq<char>>,
}

impl View for EmbedArgs {
    type V = EmbedArgsView;

    open spec fn view(&self) -> EmbedArgsView {
        EmbedArgsView { file_path: self.file_path@, item_ident: opt_text(self.item_ident) }
    }
}

/// How reading and parsing the file went.
#[derive(Clone, Debug, PartialEq, Eq)]
pub enum Source {
    /// The file could not be read; the directory that the path was relative to.
    Unreadable { working_dir: String },
    /// The file was read, and the parser rejected it with this message.
    Malformed { diagnostic: String },
    /// The text of the file and its top-level declarations.
    Parsed { text: String, items: Vec<Item> },
}

/// How reading and parsing the file went, as a mathematical value.
pub enum SourceView {
    Unreadable { working_dir: Seq<char> },
    Malformed { diagnostic: Seq<char> },
    Parsed { text: Seq<char>, items: Seq<ItemView> },
}

impl View for Source {
    type V = SourceView;

    open spec fn view(&self) -> SourceView {
        match self {
            Source::Unreadable { working_dir } => SourceView::Unreadable {
                working_dir: working_dir@,
            },
            Source::Malformed { diagnostic } => SourceView::Malformed { diagnostic: diagnostic@ },
            Source::Parsed { text, items } => SourceView::Parsed {
                text: text@,
                items: item_views(items@),
            },
        }
    }
}

/// Why a lookup gives no text.
#[derive(Clone, Debug, PartialEq, Eq)]
pub enum EmbedError {
    Unreadable { path: String, working_dir: String },
    Malformed { diagnostic: String },
    NotFound { ident: String, path: String },
}

/// Why a lookup gives no text, as a mathematical value.
pub enum EmbedErrorView {
    Unreadable { path: Seq<char>, working_dir: Seq<char> },
    Malformed { diagnostic: Seq<char> },
    NotFound { ident: Seq<char>, path: Seq<char> },
}

impl View for EmbedError {
    type V = EmbedErrorView;

    open spec fn view(&self) -> EmbedErrorView {
        match self {
            EmbedError::Unreadable { path, working_dir } => EmbedErrorView::Unreadable {
                path: path@,
                working_dir: working_dir@,
            },
            EmbedError::Malformed { diagnostic } => EmbedErrorView::Malformed {
                diagnostic: diagnostic@,
            },
            EmbedError::NotFound { ident, path } => EmbedErrorView::NotFound {
                ident: ident@,
                path: path@,
            },
        }
    }
}

/// The message of an error, as the author of the lookup reads it.
pub open spec fn embed_message(e: EmbedErrorView) -> Seq<char> {
    match e {
        EmbedErrorView::Unreadable { path, working_dir } => "Could not read the specified path '"@
            + path + "' relative to '"@ + working_dir + "'."@,
        EmbedErrorView::Malformed { diagnostic } => diagnostic,
        EmbedErrorView::NotFound { ident, path } => "Could not find docify export item '"@ + ident
            + "' in '"@ + path + "'."@,
    }
}

impl EmbedError {
    /// The message of the error.
    pub fn message(&self) -> (r: String)
        ensures
            r@ == embed_message(self@),
    {
        match self {
            EmbedError::Unreadable { path, working_dir } => {
                let mut out = "Could not read the specified path '".to_owned();
                out.append(path.as_str());
                out.append("' relative to '");
                out.append(working_dir.as_str());
                out.append("'.");
                out
            },
            EmbedError::Malformed { diagnostic } => diagnostic.clone(),
            EmbedError::NotFound { ident, path } => {
                let mut out = "Could not find docify export item '".to_owned();
                out.append(ident.as_str());
                out.append("' in '");
                out.append(path.as_str());
                out.append("'.");
                out
            },
        }
    }
}

/// Why a declaration cannot be exported.
#[derive(Clone, Copy, Debug, PartialEq, Eq)]
pub enum ExportError {
    /// The tag names no key and the declaration has no inherent name.
    NoIdent,
}

/// The message of the export error.
pub open spec fn no_ident_message() -> Seq<char> {
    "Cannot automatically detect ident from this item. You will need to specify a name manually as the argument for the #[export] attribute, i.e. #[export(my_name)]."@
}

impl ExportError {
    /// The message of the error.
    pub fn message(&self) -> (r: String)
        ensures
            r@ == no_ident_message(),
    {
        "Cannot automatically detect ident from this item. You will need to specify a name manually as the argument for the #[export] attribute, i.e. #[export(my_name)].".to_owned()
    }
}

/// The key under which a tag exports `item`: the name that the tag gives, else
/// the inherent name of the declaration, else none.
pub open spec fn requested_key(attr: Option<Seq<char>>, item: ItemView) -> Option<Seq<char>> {
    match attr {
        Some(ident) => Some(ident),
        None => inherent_name(item),
    }
}

/// The key under which a tag exports `item`, where `attr` is the name that the
/// tag gives, if it gives one. A tag without a name on a declaration without
/// an inherent name is an error.
pub fn export_ident(attr: Option<String>, item: &Item) -> (r: Result<String, ExportError>)
    ensures
        match r {
            Ok(key) => requested_key(opt_text(attr), item@) == Some(key@),
            Err(_) => requested_key(opt_text(attr), item@) is None,
        },
{
    match attr {
        Some(ident) => Ok(ident),
        None => match name_ident(item) {
            Some(ident) => Ok(ident),
            None => Err(ExportError::NoIdent),
        },
    }
}

/// Checks that a tag exports `item` under some key, where `attr` is the name
/// that the tag gives, and gives the declaration back as source text,
/// unchanged.
pub fn export_internal(attr: Option<String>, item: &Item) -> (r: Result<String, ExportError>)
    ensures
        match r {
            Ok(text) => requested_key(opt_text(attr), item@) is Some && text@ == source_text(
                item@,
            ),
            Err(_) => requested_key(opt_text(attr), item@) is None,
        },
{
    match export_ident(attr, item) {
        Ok(_) => Ok(item_source(item)),
        Err(e) => Err(e),
    }
}

/// Marks a declaration for export: see `export_internal`.
pub fn export(attr: Option<String>, item: &Item) -> (r: Result<String, ExportError>)
    ensures
        match r {
            Ok(text) => requested_key(opt_text(attr), item@) is Some && text@ == source_text(
                item@,
            ),
            Err(_) => requested_key(opt_text(attr), item@) is None,
        },
{
    export_internal(attr, item)
}

/// What the first step of a lookup gives where it gives no error.
#[derive(Clone, Debug, PartialEq, Eq)]
pub enum Lookup {
    /// The text to embed: nothing is left to do.
    Block(String),
    /// The source texts of the matches, in the order of the source, each to be
    /// laid out by the formatter and then handed to `embed_matches`.
    Matches(Vec<String>),
}

/// What the first step of a lookup gives, as a mathematical value.
pub enum LookupView {
    Block(Seq<char>),
    Matches(Seq<Seq<char>>),
}

impl View for Lookup {
    type V = LookupView;

    open spec fn view(&self) -> LookupView {
        match self {
            Lookup::Block(text) => LookupView::Block(text@),
            Lookup::Matches(sources) => LookupView::Matches(texts(sources@)),
        }
    }
}

/// The view of the outcome of the first step.
pub open spec fn lookup_view(r: Result<Lookup, EmbedError>) -> Result<LookupView, EmbedErrorView> {
    match r {
        Ok(lookup) => Ok(lookup@),
        Err(e) => Err(e@),
    }
}

/// The view of the outcome of the second step.
pub open spec fn text_view(r: Result<String, EmbedError>) -> Result<Seq<char>, EmbedErrorView> {
    match r {
        Ok(text) => Ok(text@),
        Err(e) => Err(e@),
    }
}

/// The source texts of the declarations, in order.
pub open spec fn sources_of(items: Seq<ItemView>) -> Seq<Seq<char>> {
    items.map_values(|d: ItemView| source_text(d))
}

/// What the first step of a lookup gives. A file that could not be read or
/// parsed gives that error. Without a name the whole text of the file is one
/// block, as it is. With a name, the matches give their source texts; that
/// there is none is an error that names the key and the file.
pub open spec fn lookup_result(args: EmbedArgsView, source: SourceView, ignore: bool) -> Result<
    LookupView,
    EmbedErrorView,
> {
    match source {
        SourceView::Unreadable { working_dir } => Err(
            EmbedErrorView::Unreadable { path: args.file_path, working_dir },
        ),
        SourceView::Malformed { diagnostic } => Err(EmbedErrorView::Malformed { diagnostic }),
        SourceView::Parsed { text, items } => match args.item_ident {
            None => Ok(LookupView::Block(example_text(text, ignore))),
            Some(name) => {
                let found = all_matches(items, name);
                if found.len() == 0 {
                    Err(EmbedErrorView::NotFound { ident: name, path: args.file_path })
                } else {
                    Ok(LookupView::Matches(sources_of(found)))
                }
            },
        },
    }
}

/// What the formatter made of one source text: its layout, or what the parser
/// said of a text that it could not read.
pub open spec fn outcome_view(outcome: Result<String, String>) -> Result<Seq<char>, Seq<char>> {
    match outcome {
        Ok(layout) => Ok(layout@),
        Err(diagnostic) => Err(diagnostic@),
    }
}

/// The views of the outcomes, in order.
pub open spec fn outcome_views(outcomes: Seq<Result<String, String>>) -> Seq<
    Result<Seq<char>, Seq<char>>,
> {
    outcomes.map_values(|outcome: Result<String, String>| outcome_view(outcome))
}

/// The message of the first outcome that is no layout, if there is one.
pub open spec fn first_failure(outcomes: Seq<Result<Seq<char>, Seq<char>>>) -> Option<Seq<char>>
    decreases outcomes.len(),
{
    if outcomes.len() == 0 {
        None
    } else {
        match first_failure(outcomes.drop_last()) {
            Some(diagnostic) => Some(diagnostic),
            None => match outcomes.last() {
                Ok(_) => None,
                Err(diagnostic) => Some(diagnostic),
            },
        }
    }
}

/// The layouts among the outcomes, in order.
pub open spec fn layouts_of(outcomes: Seq<Result<Seq<char>, Seq<char>>>) -> Seq<Seq<char>>
    decreases outcomes.len(),
{
    if outcomes.len() == 0 {
        Seq::empty()
    } else {
        match outcomes.last() {
            Ok(layout) => layouts_of(outcomes.drop_last()).push(layout),
            Err(_) => layouts_of(outcomes.drop_last()),
        }
    }
}

/// What the second step of a lookup gives: the blocks of the layouts, in order
/// and separated by a blank line; or, where a source text has no layout, an
/// error for malformed source with the message of the first such text.
pub open spec fn matches_result(outcomes: Seq<Result<Seq<char>, Seq<char>>>, ignore: bool) -> Result<
    Seq<char>,
    EmbedErrorView,
> {
    match first_failure(outcomes) {
        Some(diagnostic) => Err(EmbedErrorView::Malformed { diagnostic }),
        None => Ok(rendered(layouts_of(outcomes), ignore)),
    }
}

/// The first step of a lookup: see `lookup_result`.
pub fn embed_internal(args: &EmbedArgs, source: &Source, ignore: bool) -> (r: Result<
    Lookup,
    EmbedError,
>)
    ensures
        lookup_view(r) == lookup_result(args@, source@, ignore),
{
    match source {
        Source::Unreadable { working_dir } => Err(
            EmbedError::Unreadable {
                path: args.file_path.clone(),
                working_dir: working_dir.clone(),
            },
        ),
        Source::Malformed { diagnostic } => Err(
            EmbedError::Malformed { diagnostic: diagnostic.clone() },
        ),
        Source::Parsed { text, items } => match &args.item_ident {
            None => Ok(Lookup::Block(into_example(text.clone(), ignore))),
            Some(name) => {
                let found = find_all(items, name.as_str());
                if found.len() == 0 {
                    Err(EmbedError::NotFound { ident: name.clone(), path: args.file_path.clone() })
                } else {
                    Ok(Lookup::Matches(sources(&found)))
                }
            },
        },
    }
}

/// The source texts of the declarations, in order.
pub fn sources(items: &Vec<Item>) -> (r: Vec<String>)
    ensures
        texts(r@) == sources_of(item_views(items@)),
{
    let ghost wanted = sources_of(item_views(items@));
    let mut out: Vec<String> = Vec::new();
    let mut i: usize = 0;
    while i < items.len()
        invariant
            i <= items.len(),
            wanted == sources_of(item_views(items@)),
            texts(out@) == wanted.take(i as int),
        decreases items.len() - i,
    {
        let text = item_source(&items[i]);
        proof {
            assert(texts(out@.push(text)) =~= texts(out@).push(text@));
            assert(wanted.take(i + 1) =~= wanted.take(i as int).push(text@));
        }
        out.push(text);
        i = i + 1;
    }
    proof {
        assert(wanted.take(items.len() as int) =~= wanted);
    }
    out
}

/// The first step of a lookup whose blocks are marked as not to be run.
pub fn embed(args: &EmbedArgs, source: &Source) -> (r: Result<Lookup, EmbedError>)
    ensures
        lookup_view(r) == lookup_result(args@, source@, true),
{
    embed_internal(args, source, true)
}

/// The first step of a lookup whose blocks carry no such mark.
pub fn embed_run(args: &EmbedArgs, source: &Source) -> (r: Result<Lookup, EmbedError>)
    ensures
        lookup_view(r) == lookup_result(args@, source@, false),
{
    embed_internal(args, source, false)
}

/// The second step of a lookup: see `matches_result`. The outcomes are what the
/// formatter made of the source texts of the matches, in their order.
pub fn embed_matches(outcomes: &Vec<Result<String, String>>, ignore: bool) -> (r: Result<
    String,
    EmbedError,
>)
    ensures
        text_view(r) == matches_result(outcome_views(outcomes@), ignore),
{
    let ghost views = outcome_views(outcomes@);
    let mut layouts: Vec<String> = Vec::new();
    let mut i: usize = 0;
    while i < outcomes.len()
        invariant
            i <= outcomes.len(),
            views == outcome_views(outcomes@),
            first_failure(views.take(i as int)) is None,
            texts(layouts@) == layouts_of(views.take(i as int)),
        decreases outcomes.len() - i,
    {
        proof {
            assert(views.take(i + 1).drop_last() =~= views.take(i as int));
            assert(views.take(i + 1).last() == outcome_view(outcomes@[i as int]));
        }
        match &outcomes[i] {
            Ok(layout) => {
                let copy = layout.clone();
                proof {
                    assert(texts(layouts@.push(copy)) =~= texts(layouts@).push(copy@));
                }
                layouts.push(copy);
            },
            Err(diagnostic) => {
                proof {
                    lemma_first_failure_stays(views, i + 1);
                }
                return Err(EmbedError::Malformed { diagnostic: diagnostic.clone() });
            },
        }
        i = i + 1;
    }
    proof {
        assert(views.take(outcomes.len() as int) =~= views);
    }
    Ok(render_many(&layouts, ignore))
}

/// The first failure among the first `n` outcomes is the first failure of all.
pub proof fn lemma_first_failure_stays(outcomes: Seq<Result<Seq<char>, Seq<char>>>, n: int)
    requires
        0 <= n <= outcomes.len(),
        first_failure(outcomes.take(n)) is Some,
    ensures
        first_failure(outcomes) == first_failure(outcomes.take(n)),
    decreases outcomes.len() - n,
{
    if n < outcomes.len() {
        assert(outcomes.take(n + 1).drop_last() =~= outcomes.take(n));
        lemma_first_failure_stays(outcomes, n + 1);
    } else {
        assert(outcomes.take(n) =~= outcomes);
    }
}

/// The layouts of outcomes without a failure are the outcomes themselves.
pub proof fn lemma_layouts_without_failure(outcomes: Seq<Result<Seq<char>, Seq<char>>>)
    requires
        first_failure(outcomes) is None,
    ensures
        layouts_of(outcomes).len() == outcomes.len(),
        forall|i: int|
            0 <= i < outcomes.len() ==> outcomes[i] == Ok::<Seq<char>, Seq<char>>(
                #[trigger] layouts_of(outcomes)[i],
            ),
    decreases outcomes.len(),
{
    if outcomes.len() > 0 {
        let front = outcomes.drop_last();
        lemma_layouts_without_failure(front);
        assert forall|i: int| 0 <= i < outcomes.len() implies outcomes[i] == Ok::<
            Seq<char>,
            Seq<char>,
        >(#[trigger] layouts_of(outcomes)[i]) by {
            if i < front.len() {
                assert(front[i] == outcomes[i]);
                assert(layouts_of(outcomes)[i] == layouts_of(front)[i]);
            }
        }
    }
}

/// A lookup by name fails in its first step exactly where no declaration of
/// the file, at any depth, carries an export tag with that name as its key.
/// Where it does not fail, it gives the source text of at least one match.
pub proof fn lemma_named_lookup_fails_only_without_match(
    path: Seq<char>,
    name: Seq<char>,
    text: Seq<char>,
    items: Seq<ItemView>,
    ignore: bool,
)
    ensures
        ({
            let args = EmbedArgsView { file_path: path, item_ident: Some(name) };
            let r = lookup_result(args, SourceView::Parsed { text, items }, ignore);
            let none_matches = forall|k: int|
                0 <= k < document_order(items).len() ==> matching_tag(
                    #[trigger] document_order(items)[k],
                    name,
                ) is None;
            &&& r is Err <==> none_matches
            &&& r is Err ==> r == Err::<LookupView, EmbedErrorView>(
                EmbedErrorView::NotFound { ident: name, path },
            )
            &&& r matches Ok(lookup) ==> lookup matches LookupView::Matches(found) && found.len()
                > 0
        }),
{
    lemma_nothing_found_where_nothing_matches(items, name);
}

/// Of two matching declarations, the source text of the one that stands
/// earlier in the file comes earlier out of the first step of a lookup by
/// name, each without its matching tag.
pub proof fn lemma_lookup_keeps_document_order(
    path: Seq<char>,
    name: Seq<char>,
    text: Seq<char>,
    items: Seq<ItemView>,
    ignore: bool,
    k1: int,
    k2: int,
)
    requires
        0 <= k1 < k2 < document_order(items).len(),
        matching_tag(document_order(items)[k1], name) is Some,
        matching_tag(document_order(items)[k2], name) is Some,
    ensures
        ({
            let args = EmbedArgsView { file_path: path, item_ident: Some(name) };
            let flat = document_order(items);
            let p = place(flat, name, k1);
            let q = place(flat, name, k2);
            &&& lookup_result(args, SourceView::Parsed { text, items }, ignore) matches Ok(
                LookupView::Matches(found),
            )
            &&& 0 <= p < q < found.len()
            &&& found[p] == source_text(stripped(flat[k1], matching_tag(flat[k1], name)->0))
            &&& found[q] == source_text(stripped(flat[k2], matching_tag(flat[k2], name)->0))
        }),
{
    lemma_matches_keep_document_order(items, name, k1, k2);
}

/// Where the formatter laid out every source text, and there was at least one,
/// the second step of a lookup gives a text that is not empty: one whole block
/// for each layout, in the order of the layouts.
pub proof fn lemma_matches_give_whole_blocks(
    outcomes: Seq<Result<Seq<char>, Seq<char>>>,
    ignore: bool,
)
    requires
        outcomes.len() > 0,
        first_failure(outcomes) is None,
    ensures
        ({
            let layouts = layouts_of(outcomes);
            &&& layouts.len() == outcomes.len()
            &&& forall|i: int|
                0 <= i < outcomes.len() ==> outcomes[i] == Ok::<Seq<char>, Seq<char>>(
                    #[trigger] layouts[i],
                )
            &&& matches_result(outcomes, ignore) == Ok::<Seq<char>, EmbedErrorView>(
                joined(blocks_of(layouts, ignore), blank_line()),
            )
            &&& blocks_of(layouts, ignore).len() == outcomes.len()
            &&& forall|i: int|
                0 <= i < outcomes.len() ==> #[trigger] blocks_of(layouts, ignore)[i]
                    == example_text(layouts[i], ignore)
            &&& rendered(layouts, ignore).len() > 0
            &&& example_text(layouts[0], ignore).is_prefix_of(rendered(layouts, ignore))
            &&& example_text(layouts.last(), ignore).is_suffix_of(rendered(layouts, ignore))
        }),
{
    lemma_layouts_without_failure(outcomes);
    lemma_rendered_holds_whole_blocks(layouts_of(outcomes), ignore);
}

} // verus!
