use scratch::ast::{build, Content, Element, Program, Selector};
use scratch::codegen::execute;
use scratch::cst::{CstProgram, CstQuery, CstSelector, CstStatement, CstSubQuery};
use scratch::grammar::{parse, parse_in_statement};

#[test]
fn unresolved_reference_is_a_generation_error() {
    let program = Program::from_str("navigateTo('x') { write(y); }").unwrap();
    let err = execute(&program).unwrap_err();
    assert_eq!(err.reason, "unresolved reference: y");
}

#[test]
fn binding_resolves_in_same_scope() {
    let program = Program::from_str("navigateTo('x') { y = 'v'; write(y); }").unwrap();
    assert!(execute(&program).is_ok());
}

#[test]
fn inner_binding_invisible_after_its_block() {
    let script = "navigateTo('x') {
        in (tr) {
            q = 'v';
        };
        write(q);
    }";
    let err = execute(&Program::from_str(script).unwrap()).unwrap_err();
    assert_eq!(err.reason, "unresolved reference: q");
}

#[test]
fn missing_having_fails_at_keyword_position() {
    let err = parse_in_statement("in (h1 id('bc')) { }").unwrap_err();
    assert_eq!(err.line, 1);
    assert_eq!(err.col, 8);

    let err = Program::from_str("navigateTo('x') {\nin (h1 id('bc')) {\n};\n}").unwrap_err();
    assert_eq!(err.line, 2);
    assert_eq!(err.col, 8);
}

#[test]
fn trailing_garbage_is_a_syntax_error() {
    assert!(parse("navigateTo('x') {} ?").is_err());
    assert!(parse("navigateTo 'x' {}").is_err());
    assert!(parse("navigateTo('x') { write(); }").is_err());
}

#[test]
fn unterminated_string_is_a_syntax_error() {
    assert!(parse("navigateTo('x) {}").is_err());
}

#[test]
fn unknown_selector_keyword_is_a_validation_error() {
    let err = Selector::from("foo", "x").unwrap_err();
    assert_eq!(err.reason, "Unrecognised selector: foo");
    assert!(Selector::from("class", "x").is_ok());
    assert!(Selector::from("id", "x").is_ok());
}

#[test]
fn unknown_content_keyword_is_a_validation_error() {
    let err = Content::from("getHtml", None).unwrap_err();
    assert_eq!(err.reason, "Unknown content type: getHtml");
    assert!(Content::from("getTextContent", None).is_ok());
    let arg = String::from("href");
    assert!(Content::from("getAttribute", Some(&arg)).is_ok());
    assert!(Content::from("getAttribute", None).is_err());
    assert!(Content::from("getTextContent", Some(&arg)).is_err());
}

#[test]
fn element_token_resolution_is_open() {
    assert_eq!(Element::from("_"), Element::Empty);
    assert_eq!(Element::from("h1"), Element::DOMElement(String::from("h1")));
    assert_eq!(
        Element::from("customtag"),
        Element::DOMElement(String::from("customtag"))
    );
}

#[test]
fn builder_rejects_tree_the_grammar_cannot_produce() {
    let tree = CstProgram {
        blocks: vec![scratch::cst::CstNav {
            url: String::from("x"),
            statements: vec![CstStatement::In {
                sub: Some(CstSubQuery::Parent),
                query: CstQuery {
                    element: String::from("h1"),
                    selector: Some(CstSelector {
                        keyword: String::from("foo"),
                        ident: String::from("a"),
                    }),
                },
                body: vec![],
            }],
        }],
    };
    assert!(build(&tree).is_err());
}

#[test]
fn builder_accepts_every_parsed_tree() {
    let tree = parse("navigateTo('x') { in (h1 having class('a')) { write('b'); }; }").unwrap();
    assert!(build(&tree).is_ok());
}
