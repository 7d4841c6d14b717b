use scratch::grammar::{
    parse_assignment_statement, parse_from_expression, parse_ident, parse_in_statement,
    parse_navigate_block, parse_statements, parse_string, parse_write_statement,
};

#[test]
fn parse_string_literal() {
    assert!(parse_string("'Hello World'").is_ok());
    assert!(parse_string("'Hell''o World'").is_ok());
    assert!(parse_string("'Hell\'o World'").is_ok());
}

#[test]
fn parse_parse_ident() {
    assert!(parse_ident("variable").is_ok());
    assert!(parse_ident("vari21able").is_ok());
    assert!(parse_ident("v_ari21_able").is_ok());
    assert!(parse_ident("1v_ari21_able").is_err());
}

#[test]
fn parse_parse_from_expression() {
    assert!(parse_from_expression("from    (h1 having id('title')) getTextContent").is_ok());

    assert!(parse_from_expression(
        "from
      (h1
      having
      class('title')
      )
      getTextContent"
    )
    .is_ok());
}

#[test]
fn parse_parse_write_statement() {
    assert!(parse_write_statement("write(id)").is_ok());
    assert!(parse_write_statement("write(title, c, a, b)").is_ok());
    assert!(parse_write_statement("write('ab', 'sd', a)").is_ok());
}

#[test]
fn parse_parse_assignment_statement() {
    assert!(parse_assignment_statement("x = from (h1 having id('title')) getTextContent",).is_ok());
}

#[test]
fn parse_parse_in_statement() {
    assert!(parse_in_statement(
        "in (div having id('title')) {
        write(x);
      }"
    )
    .is_ok());

    assert!(parse_in_statement(
        "in (div having class('title')) {
        x = from(h1 having id('abc')) getTextContent;
        write(x);
      }"
    )
    .is_ok());

    assert!(parse_in_statement(
        "in (table having id('title')) {
        in (span having class('question')) {
          write(x, y);
        };
        write(x);
      }"
    )
    .is_ok());
}

#[test]
fn parse_parse_statements() {
    assert!(parse_statements(
        "write(x, y);
      "
    )
    .is_ok());

    assert!(parse_statements(
        "question = from(tr having class('question')) getTextContent;
      answer = from(tr having class('question')) getTextContent;
      write(question, answer);
      "
    )
    .is_ok());
}

#[test]
fn parse_parse_navigate_block() {
    assert!(parse_navigate_block(
        "navigateTo('www.example.com') {
        write(question, answer);
      }"
    )
    .is_ok());
}
