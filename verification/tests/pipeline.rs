use scratch::ast::{build, build_query, render_dom_query, Program};
use scratch::codegen::execute;
use scratch::grammar::{parse, parse_dom_query};

#[test]
fn whole_pipeline_exact_output() {
    let script = "navigateTo('pg') {
        t = from (h1 having id('title')) getTextContent;
        write(t, 'x');
    }";
    let program = build(&parse(script).unwrap()).unwrap();
    let out = execute(&program).unwrap();
    assert_eq!(
        out,
        "let document = Document::from(include_str!(\"pg\"));\n\
         let t = document.find(And(Name(\"h1\"), Attr(\"id\", \"title\"))).next().unwrap().text();\n\
         println!(\"{} {} \", t,\"x\");"
    );
}

#[test]
fn one_block_per_navigation_in_order() {
    let program = Program::from_str("navigateTo('a') {} navigateTo('b') {}").unwrap();
    assert_eq!(program.navs.len(), 2);
    let out = execute(&program).unwrap();
    assert_eq!(
        out,
        "let document = Document::from(include_str!(\"a\"));\n\
         \nlet document = Document::from(include_str!(\"b\"));\n"
    );
}

#[test]
fn empty_blocks_compile_to_empty_sequences() {
    let program = Program::from_str("navigateTo('x'){}").unwrap();
    let out = execute(&program).unwrap();
    assert_eq!(out, "let document = Document::from(include_str!(\"x\"));\n");

    let program = Program::from_str("navigateTo('x') { in (table) { }; }").unwrap();
    let out = execute(&program).unwrap();
    assert_eq!(
        out,
        "let document = Document::from(include_str!(\"x\"));\n\
         for node in document.find(Name(\"table\")) {\n\t\n}"
    );
}

#[test]
fn wildcard_with_selector_compiles_to_selector_alone() {
    let program = Program::from_str("navigateTo('x') { in (_ having class('abc')) { }; }").unwrap();
    let out = execute(&program).unwrap();
    assert_eq!(
        out,
        "let document = Document::from(include_str!(\"x\"));\n\
         for node in document.find(Class(\"abc\")) {\n\t\n}"
    );
}

#[test]
fn bare_wildcard_reads_current_scope() {
    let program = Program::from_str("navigateTo('x') { write(from (_) getTextContent); }").unwrap();
    let out = execute(&program).unwrap();
    assert_eq!(
        out,
        "let document = Document::from(include_str!(\"x\"));\n\
         println!(\"{} \", document.text());"
    );
}

#[test]
fn child_composition_restricts_descendants() {
    let program = Program::from_str(
        "navigateTo('x') { in child(tr having id('qu')) of (table having class('abc')) { }; }",
    )
    .unwrap();
    let out = execute(&program).unwrap();
    assert_eq!(
        out,
        "let document = Document::from(include_str!(\"x\"));\n\
         for node in document.find(Descendant(And(Name(\"table\"), Class(\"abc\")), \
         And(Name(\"tr\"), Attr(\"id\", \"qu\")))) {\n\t\n}"
    );
}

#[test]
fn parent_form_takes_first_match_parent() {
    let program =
        Program::from_str("navigateTo('x') { in parent of (h1 having id('title')) { }; }").unwrap();
    let out = execute(&program).unwrap();
    assert_eq!(
        out,
        "let document = Document::from(include_str!(\"x\"));\n\
         for node in document.find(And(Name(\"h1\"), Attr(\"id\", \"title\")))\
         .next().unwrap().parent() {\n\t\n}"
    );
}

#[test]
fn nested_in_blocks_narrow_the_root() {
    let script = "navigateTo('u') {
        in (div having class('a')) {
            in (span having class('b')) {
                in (p having class('c')) {
                };
            };
        };
    }";
    let program = Program::from_str(script).unwrap();
    let out = execute(&program).unwrap();
    assert_eq!(
        out,
        "let document = Document::from(include_str!(\"u\"));\n\
         for node in document.find(And(Name(\"div\"), Class(\"a\"))) {\n\t\
         for node in node.find(And(Name(\"span\"), Class(\"b\"))) {\n\t\
         for node in node.find(And(Name(\"p\"), Class(\"c\"))) {\n\t\n}\n}\n}"
    );
}

#[test]
fn attribute_content_reads_named_attribute() {
    let program = Program::from_str(
        "navigateTo('x') { write(from (a having id('lnk')) getAttribute('href')); }",
    )
    .unwrap();
    let out = execute(&program).unwrap();
    assert_eq!(
        out,
        "let document = Document::from(include_str!(\"x\"));\n\
         println!(\"{} \", document.find(And(Name(\"a\"), Attr(\"id\", \"lnk\")))\
         .attr(\"href\").unwrap());"
    );
}

#[test]
fn binding_visible_in_nested_scope() {
    let script = "navigateTo('x') {
        t = 'v';
        in (tr) {
            write(t);
        };
    }";
    assert!(execute(&Program::from_str(script).unwrap()).is_ok());
}

#[test]
fn query_roundtrip_through_canonical_rendering() {
    let q1 = build_query(&parse_dom_query("tr having id('qu')").unwrap()).unwrap();
    let text = render_dom_query(&q1);
    assert_eq!(text, "tr having id('qu')");
    let q2 = build_query(&parse_dom_query(text.as_str()).unwrap()).unwrap();
    assert_eq!(q1, q2);

    let q1 = build_query(&parse_dom_query("_ having class('a''b')").unwrap()).unwrap();
    let text = render_dom_query(&q1);
    let q2 = build_query(&parse_dom_query(text.as_str()).unwrap()).unwrap();
    assert_eq!(q1, q2);

    let q1 = build_query(&parse_dom_query("h1").unwrap()).unwrap();
    let text = render_dom_query(&q1);
    assert_eq!(text, "h1");
    let q2 = build_query(&parse_dom_query(text.as_str()).unwrap()).unwrap();
    assert_eq!(q1, q2);
}

#[test]
fn string_escapes_decode_into_the_output() {
    let program = Program::from_str("navigateTo('a''b'){}").unwrap();
    assert_eq!(
        execute(&program).unwrap(),
        "let document = Document::from(include_str!(\"a'b\"));\n"
    );

    let program = Program::from_str("navigateTo('a\\'b'){}").unwrap();
    assert_eq!(
        execute(&program).unwrap(),
        "let document = Document::from(include_str!(\"a'b\"));\n"
    );
}

#[test]
fn program_empty_has_no_blocks() {
    let p = Program::empty();
    assert_eq!(p.navs.len(), 0);
    assert_eq!(execute(&p).unwrap(), "");
}
