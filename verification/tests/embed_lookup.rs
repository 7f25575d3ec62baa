use docify_embed::embed::embed;
use docify_embed::embed::embed_internal;
use docify_embed::embed::embed_matches;
use docify_embed::embed::embed_run;
use docify_embed::embed::export;
use docify_embed::embed::export_ident;
use docify_embed::embed::export_internal;
use docify_embed::embed::sources;
use docify_embed::embed::EmbedArgs;
use docify_embed::embed::EmbedError;
use docify_embed::embed::ExportError;
use docify_embed::embed::Lookup;
use docify_embed::embed::Source;
use docify_embed::model::AttrStyle;
use docify_embed::model::Attribute;
use docify_embed::model::Item;
use docify_embed::model::ItemKind;

fn export_tag() -> Attribute {
    Attribute {
        style: AttrStyle::Outer,
        path: vec![String::from("export")],
        argument: None,
        tokens: String::from("#[export]"),
    }
}

fn docify_export_as(name: &str) -> Attribute {
    Attribute {
        style: AttrStyle::Outer,
        path: vec![String::from("docify"), String::from("export")],
        argument: Some(name.to_string()),
        tokens: format!("#[docify::export({})]", name),
    }
}

fn export_as(name: &str) -> Attribute {
    Attribute {
        style: AttrStyle::Outer,
        path: vec![String::from("export")],
        argument: Some(name.to_string()),
        tokens: format!("#[export({})]", name),
    }
}

fn plain(name: &str) -> Attribute {
    Attribute {
        style: AttrStyle::Outer,
        path: vec![name.to_string()],
        argument: None,
        tokens: format!("#[{}]", name),
    }
}

fn format(source: &str) -> Result<String, String> {
    match syn::parse_file(source) {
        Ok(file) => Ok(prettyplease::unparse(&file)),
        Err(err) => Err(err.to_string()),
    }
}

fn finish(step: Result<Lookup, EmbedError>, ignore: bool) -> Result<String, EmbedError> {
    match step? {
        Lookup::Block(text) => Ok(text),
        Lookup::Matches(sources) => {
            let outcomes: Vec<Result<String, String>> = sources.iter().map(|s| format(s)).collect();
            embed_matches(&outcomes, ignore)
        }
    }
}

fn lookup(args: &EmbedArgs, source: &Source, ignore: bool) -> Result<String, EmbedError> {
    finish(embed_internal(args, source, ignore), ignore)
}

fn function(name: &str, body: &str, attrs: Vec<Attribute>) -> Item {
    Item {
        kind: ItemKind::Fn,
        ident: Some(name.to_string()),
        attrs,
        head: format!("fn {}() {{", name),
        tail: format!("{} }}", body),
        nested: Vec::new(),
    }
}

fn args(path: &str, name: Option<&str>) -> EmbedArgs {
    EmbedArgs { file_path: path.to_string(), item_ident: name.map(String::from) }
}

fn parsed(text: &str, items: Vec<Item>) -> Source {
    Source::Parsed { text: text.to_string(), items }
}

#[test]
fn whole_file_is_embedded_as_it_is() {
    let text = "use std::fmt;\n\nfn  main() {\n    println!(\"x\") ;\n}\n";
    let source = parsed(text, vec![function("main", "println!(\"x\");", Vec::new())]);
    assert_eq!(
        lookup(&args("src/main.rs", None), &source, true),
        Ok(String::from("```ignore\nuse std::fmt;\n\nfn  main() {\n    println!(\"x\") ;\n}\n```"))
    );
}

#[test]
fn whole_file_with_tags_keeps_the_tags() {
    let text = "#[export]\nfn hello() {}\n";
    let source = parsed(text, vec![function("hello", "", vec![export_tag()])]);
    assert_eq!(
        lookup(&args("a.rs", None), &source, false),
        Ok(String::from("```\n#[export]\nfn hello() {}\n```"))
    );
}

#[test]
fn lookup_by_inherent_name_and_by_override() {
    let text = "#[export] fn hello() {} #[export(greet)] fn hello() {}";
    let source = parsed(
        text,
        vec![function("hello", "", vec![export_tag()]), function("hello", "", vec![export_as("greet")])],
    );
    let block = String::from("```ignore\nfn hello() {}\n```");
    assert_eq!(lookup(&args("a.rs", Some("hello")), &source, true), Ok(block.clone()));
    assert_eq!(lookup(&args("a.rs", Some("greet")), &source, true), Ok(block));
}

#[test]
fn lookup_by_override_renders_the_overridden_declaration() {
    let source = parsed(
        "",
        vec![
            function("hello", "first();", vec![export_tag()]),
            function("hello", "second();", vec![export_as("greet")]),
        ],
    );
    assert_eq!(
        lookup(&args("a.rs", Some("hello")), &source, true),
        Ok(String::from("```ignore\nfn hello() {\n    first();\n}\n```"))
    );
    assert_eq!(
        lookup(&args("a.rs", Some("greet")), &source, true),
        Ok(String::from("```ignore\nfn hello() {\n    second();\n}\n```"))
    );
}

#[test]
fn lookup_of_a_nested_declaration_renders_it_alone() {
    let inner = function("inner", "work();", vec![docify_export_as("deep")]);
    let outer = Item {
        kind: ItemKind::Mod,
        ident: Some(String::from("outer")),
        attrs: Vec::new(),
        head: String::from("mod outer {"),
        tail: String::from("#[docify::export(deep)] fn inner() { work(); } }"),
        nested: vec![inner],
    };
    let source = parsed("", vec![outer]);
    assert_eq!(
        lookup(&args("lib.rs", Some("deep")), &source, true),
        Ok(String::from("```ignore\nfn inner() {\n    work();\n}\n```"))
    );
}

#[test]
fn lookup_renders_all_matches_in_order() {
    let source = parsed(
        "",
        vec![
            function("a", "", vec![export_as("both")]),
            function("skipped", "", vec![export_tag()]),
            function("b", "", vec![export_as("both")]),
        ],
    );
    assert_eq!(
        finish(embed_run(&args("a.rs", Some("both")), &source), false),
        Ok(String::from("```\nfn a() {}\n```\n\n```\nfn b() {}\n```"))
    );
}

#[test]
fn lookup_keeps_the_other_attributes_in_the_block() {
    let source =
        parsed("", vec![function("f", "", vec![plain("inline"), export_tag(), plain("cold")])]);
    let block = finish(embed(&args("a.rs", Some("f")), &source), true).unwrap();
    assert_eq!(block, "```ignore\n#[inline]\n#[cold]\nfn f() {}\n```");
    assert!(!block.contains("export"));
}

#[test]
fn lookup_of_an_absent_name_fails() {
    let source = parsed("fn hello() {}", vec![function("hello", "", vec![export_tag()])]);
    let outcome = lookup(&args("src/lib.rs", Some("missing")), &source, true);
    assert_eq!(
        outcome,
        Err(EmbedError::NotFound {
            ident: String::from("missing"),
            path: String::from("src/lib.rs"),
        })
    );
    assert_eq!(
        outcome.unwrap_err().message(),
        "Could not find docify export item 'missing' in 'src/lib.rs'."
    );
}

#[test]
fn lookup_in_an_unreadable_file_fails() {
    let source = Source::Unreadable { working_dir: String::from("/work") };
    let outcome = lookup(&args("nowhere.rs", Some("x")), &source, true);
    assert_eq!(
        outcome,
        Err(EmbedError::Unreadable {
            path: String::from("nowhere.rs"),
            working_dir: String::from("/work"),
        })
    );
    assert_eq!(
        outcome.unwrap_err().message(),
        "Could not read the specified path 'nowhere.rs' relative to '/work'."
    );
    assert!(lookup(&args("nowhere.rs", None), &source, false).is_err());
}

#[test]
fn lookup_in_a_malformed_file_fails() {
    let source = Source::Malformed { diagnostic: String::from("expected item") };
    let outcome = embed(&args("bad.rs", None), &source);
    assert_eq!(outcome, Err(EmbedError::Malformed { diagnostic: String::from("expected item") }));
    assert_eq!(embed_run(&args("bad.rs", Some("x")), &source), outcome);
    assert_eq!(outcome.unwrap_err().message(), "expected item");
}

#[test]
fn lookup_of_a_match_without_layout_fails() {
    let mut broken = function("f", "", vec![export_tag()]);
    broken.tail = String::from("]");
    let source = parsed("", vec![broken]);
    let outcome = finish(embed(&args("a.rs", Some("f")), &source), true);
    assert!(matches!(outcome, Err(EmbedError::Malformed { .. })));
}

#[test]
fn embed_marks_blocks_and_embed_run_does_not() {
    let source = parsed("fn f() {}\n", Vec::new());
    assert_eq!(
        embed(&args("a.rs", None), &source),
        Ok(Lookup::Block(String::from("```ignore\nfn f() {}\n```")))
    );
    assert_eq!(
        embed_run(&args("a.rs", None), &source),
        Ok(Lookup::Block(String::from("```\nfn f() {}\n```")))
    );
}

#[test]
fn lookup_twice_gives_the_same_text() {
    let source = parsed("", vec![function("f", "let v = vec![1, 2, 3];", vec![export_tag()])]);
    let first = finish(embed(&args("a.rs", Some("f")), &source), true);
    let second = finish(embed(&args("a.rs", Some("f")), &source), true);
    assert_eq!(first, second);
    assert_eq!(first, Ok(String::from("```ignore\nfn f() {\n    let v = vec![1, 2, 3];\n}\n```")));
}

#[test]
fn first_step_gives_the_sources_of_the_matches_in_order() {
    let source = parsed(
        "",
        vec![
            function("b", "two();", vec![plain("inline"), export_as("k")]),
            function("skipped", "", vec![export_tag()]),
            function("a", "one();", vec![docify_export_as("k"), plain("cold")]),
        ],
    );
    assert_eq!(
        embed_internal(&args("a.rs", Some("k")), &source, true),
        Ok(Lookup::Matches(vec![
            String::from("#[inline] fn b() { two(); }"),
            String::from("#[cold] fn a() { one(); }"),
        ]))
    );
}

#[test]
fn sources_are_the_source_texts_in_order() {
    let items = vec![function("x", "", Vec::new()), function("y", "z();", vec![plain("cold")])];
    assert_eq!(
        sources(&items),
        vec![String::from("fn x() {  }"), String::from("#[cold] fn y() { z(); }")]
    );
    assert_eq!(sources(&Vec::new()), Vec::<String>::new());
}

#[test]
fn second_step_joins_the_blocks_of_the_layouts() {
    let outcomes = vec![Ok(String::from("fn a() {}\n")), Ok(String::from("fn b() {}\n"))];
    assert_eq!(
        embed_matches(&outcomes, true),
        Ok(String::from("```ignore\nfn a() {}\n```\n\n```ignore\nfn b() {}\n```"))
    );
    assert_eq!(
        embed_matches(&outcomes, false),
        Ok(String::from("```\nfn a() {}\n```\n\n```\nfn b() {}\n```"))
    );
}

#[test]
fn second_step_reports_the_first_text_without_layout() {
    let outcomes = vec![
        Ok(String::from("fn a() {}\n")),
        Err(String::from("first message")),
        Ok(String::from("fn b() {}\n")),
        Err(String::from("second message")),
    ];
    let outcome = embed_matches(&outcomes, true);
    assert_eq!(outcome, Err(EmbedError::Malformed { diagnostic: String::from("first message") }));
    assert_eq!(outcome.unwrap_err().message(), "first message");
}

#[test]
fn two_matches_give_two_blocks_in_the_order_of_the_file() {
    let source = parsed(
        "#[docify::export(k)]\nfn a() {}\n#[docify::export(k)]\nfn b() {}\n",
        vec![
            function("a", "", vec![docify_export_as("k")]),
            function("b", "", vec![docify_export_as("k")]),
        ],
    );
    assert_eq!(
        lookup(&args("f.rs", Some("k")), &source, true),
        Ok(String::from("```ignore\nfn a() {}\n```\n\n```ignore\nfn b() {}\n```"))
    );
}

#[test]
fn export_with_a_bare_tag_uses_the_inherent_name() {
    let d = function("hello", "", Vec::new());
    assert_eq!(export_ident(None, &d), Ok(String::from("hello")));
    assert_eq!(export_internal(None, &d), Ok(String::from("fn hello() {  }")));
    assert_eq!(export(None, &d), Ok(String::from("fn hello() {  }")));
}

#[test]
fn export_with_an_explicit_name() {
    let d = function("hello", "", Vec::new());
    assert_eq!(export_ident(Some(String::from("SomeName")), &d), Ok(String::from("SomeName")));
    assert_eq!(export(Some(String::from("SomeName")), &d), Ok(String::from("fn hello() {  }")));
}

#[test]
fn export_of_a_nameless_declaration_needs_a_name() {
    let d = Item {
        kind: ItemKind::Impl,
        ident: None,
        attrs: Vec::new(),
        head: String::from("impl T for S {"),
        tail: String::from("}"),
        nested: Vec::new(),
    };
    assert_eq!(export_ident(None, &d), Err(ExportError::NoIdent));
    assert_eq!(export_internal(None, &d), Err(ExportError::NoIdent));
    assert_eq!(export(None, &d), Err(ExportError::NoIdent));
    assert_eq!(
        ExportError::NoIdent.message(),
        "Cannot automatically detect ident from this item. You will need to specify a name manually as the argument for the #[export] attribute, i.e. #[export(my_name)]."
    );
    assert_eq!(export_ident(Some(String::from("some_name")), &d), Ok(String::from("some_name")));
    assert_eq!(export(Some(String::from("some_name")), &d), Ok(String::from("impl T for S { }")));
}
