use docify_embed::model::AttrStyle;
use docify_embed::model::Attribute;
use docify_embed::model::Item;
use docify_embed::model::ItemKind;
use docify_embed::render::into_example;
use docify_embed::render::item_source;
use docify_embed::render::render_many;

fn attribute(style: AttrStyle, tokens: &str, segments: &[&str]) -> Attribute {
    Attribute {
        style,
        path: segments.iter().map(|s| s.to_string()).collect(),
        argument: None,
        tokens: tokens.to_string(),
    }
}

fn function(name: &str, body: &str, attrs: Vec<Attribute>) -> Item {
    Item {
        kind: ItemKind::Fn,
        ident: Some(name.to_string()),
        attrs,
        head: format!("fn {}() {{", name),
        tail: format!("{} }}", body),
        nested: Vec::new(),
    }
}

fn layout(source: &str) -> String {
    prettyplease::unparse(&syn::parse_file(source).unwrap())
}

fn block(text: &str, ignore: bool) -> String {
    into_example(text.to_string(), ignore)
}

#[test]
fn into_example_wraps_the_lines_in_a_fence() {
    assert_eq!(block("fn a() {}\n", true), "```ignore\nfn a() {}\n```");
    assert_eq!(block("fn a() {}\n", false), "```\nfn a() {}\n```");
}

#[test]
fn into_example_of_the_empty_text() {
    assert_eq!(block("", true), "```ignore\n```");
    assert_eq!(block("", false), "```\n```");
}

#[test]
fn into_example_keeps_the_text_as_it_is() {
    let text = "fn   odd( ) {\n\n        let x=1 ;\n}\n// trailing";
    assert_eq!(block(text, true), format!("```ignore\n{}\n```", text));
}

#[test]
fn into_example_takes_a_final_line_feed_as_the_end_of_the_last_line() {
    assert_eq!(block("a\nb\n", true), "```ignore\na\nb\n```");
    assert_eq!(block("a\nb\n\n", true), "```ignore\na\nb\n\n```");
}

#[test]
fn into_example_drops_carriage_returns_of_line_ends() {
    assert_eq!(block("a\r\nb\r\n", false), "```\na\nb\n```");
}

#[test]
fn into_example_of_a_layout() {
    assert_eq!(
        block(&layout("fn   hello ( ) { println ! ( \"hi\" ) ; }"), true),
        "```ignore\nfn hello() {\n    println!(\"hi\");\n}\n```"
    );
    assert_eq!(
        block(&layout("struct Point { x : i32 , y : i32 }"), false),
        "```\nstruct Point {\n    x: i32,\n    y: i32,\n}\n```"
    );
}

#[test]
fn into_example_is_deterministic() {
    let source = "mod m { pub fn f ( a : u8 ) -> u8 { a + 1 } }";
    let first = block(&layout(source), true);
    let second = block(&layout(source), true);
    assert_eq!(first, second);
    assert_eq!(first, "```ignore\nmod m {\n    pub fn f(a: u8) -> u8 {\n        a + 1\n    }\n}\n```");
}

#[test]
fn item_source_puts_outer_attributes_first() {
    let d = function(
        "f",
        "g();",
        vec![
            attribute(AttrStyle::Outer, "#[inline]", &["inline"]),
            attribute(AttrStyle::Outer, "#[cold]", &["cold"]),
        ],
    );
    assert_eq!(item_source(&d), "#[inline] #[cold] fn f() { g(); }");
}

#[test]
fn item_source_puts_inner_attributes_between_head_and_tail() {
    let d = function(
        "f",
        "g();",
        vec![
            attribute(AttrStyle::Outer, "#[inline]", &["inline"]),
            attribute(AttrStyle::Inner, "#![allow(unused)]", &["allow"]),
            attribute(AttrStyle::Outer, "#[cold]", &["cold"]),
        ],
    );
    assert_eq!(item_source(&d), "#[inline] #[cold] fn f() { #![allow(unused)] g(); }");
}

#[test]
fn item_source_without_attributes() {
    assert_eq!(item_source(&function("f", "", Vec::new())), "fn f() {  }");
}

#[test]
fn item_source_of_a_verbatim_declaration_has_no_attributes() {
    let d = Item {
        kind: ItemKind::Verbatim,
        ident: None,
        attrs: vec![attribute(AttrStyle::Outer, "#[inline]", &["inline"])],
        head: String::from("raw"),
        tail: String::from("tokens"),
        nested: Vec::new(),
    };
    assert_eq!(item_source(&d), "raw tokens");
}

#[test]
fn item_source_is_laid_out_like_the_declaration() {
    let d = function("f", "g();", vec![attribute(AttrStyle::Outer, "#[inline]", &["inline"])]);
    assert_eq!(layout(&item_source(&d)), "#[inline]\nfn f() {\n    g();\n}\n");
}

#[test]
fn render_many_of_one_text() {
    assert_eq!(render_many(&vec![String::from("fn hello() {}\n")], true), "```ignore\nfn hello() {}\n```");
}

#[test]
fn render_many_separates_blocks_by_a_blank_line() {
    let layouts = vec![String::from("#[inline]\nfn one() {}\n"), String::from("fn two() {\n    x();\n}\n")];
    assert_eq!(
        render_many(&layouts, false),
        "```\n#[inline]\nfn one() {}\n```\n\n```\nfn two() {\n    x();\n}\n```"
    );
}

#[test]
fn render_many_keeps_the_order_of_the_texts() {
    let layouts = vec![String::from("c"), String::from("a"), String::from("b")];
    assert_eq!(
        render_many(&layouts, true),
        "```ignore\nc\n```\n\n```ignore\na\n```\n\n```ignore\nb\n```"
    );
}

#[test]
fn render_many_of_nothing_is_empty() {
    assert_eq!(render_many(&Vec::new(), true), "");
}
