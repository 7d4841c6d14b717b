//! The concrete parse tree. Each node mirrors one grammar production and
//! carries its tokens as raw text: keywords are not yet resolved to typed
//! values, which is the AST builder's task.

use vstd::prelude::*;

verus! {

/// `program := navigate_block* end-of-input`
#[derive(Debug, PartialEq, Eq)]
pub struct CstProgram {
    pub blocks: Vec<CstNav>,
}

/// `navigate_block := "navigateTo" "(" string ")" "{" statements "}"`
/// `url` is the string literal's decoded content.
#[derive(Debug, PartialEq, Eq)]
pub struct CstNav {
    pub url: String,
    pub statements: Vec<CstStatement>,
}

/// `statement := in_statement | assignment_statement | write_statement`
#[derive(Debug, PartialEq, Eq)]
pub enum CstStatement {
    Assign { ident: String, value: CstExpression },
    In { sub: Option<CstSubQuery>, query: CstQuery, body: Vec<CstStatement> },
    Write { args: Vec<CstExpression> },
}

/// `dom_sub_query := "parent" "of" | "child" "(" dom_query ")" "of"`
#[derive(Debug, Clone, PartialEq, Eq)]
pub enum CstSubQuery {
    Parent,
    Child(CstQuery),
}

/// `dom_query := element ["having" selector]`, the element as its raw token.
#[derive(Debug, Clone, PartialEq, Eq)]
pub struct CstQuery {
    pub element: String,
    pub selector: Option<CstSelector>,
}

/// `selector := ("class"|"id") "(" string ")"`, keyword still raw.
#[derive(Debug, Clone, PartialEq, Eq)]
pub struct CstSelector {
    pub keyword: String,
    pub ident: String,
}

/// `expression := from_expression | ident | string`
#[derive(Debug, Clone, PartialEq, Eq)]
pub enum CstExpression {
    From { query: CstQuery, content: CstContent },
    Ident(String),
    Str(String),
}

/// `content_kind := "getTextContent" | "getAttribute" "(" string ")"`,
/// keyword still raw, the attribute name as the string's decoded content.
#[derive(Debug, Clone, PartialEq, Eq)]
pub struct CstContent {
    pub keyword: String,
    pub arg: Option<String>,
}

// ---------------------------------------------------------------------------
// Well-formedness: the shapes the grammar can produce. The parser only emits
// well-formed trees; the builder accepts exactly these without error.
// ---------------------------------------------------------------------------

pub open spec fn wf_cst_selector(s: CstSelector) -> bool {
    s.keyword@ == "class"@ || s.keyword@ == "id"@
}

pub open spec fn wf_cst_query(q: CstQuery) -> bool {
    match q.selector {
        Some(s) => wf_cst_selector(s),
        None => true,
    }
}

pub open spec fn wf_cst_content(c: CstContent) -> bool {
    ||| c.keyword@ == "getTextContent"@ && c.arg is None
    ||| c.keyword@ == "getAttribute"@ && c.arg is Some
}

pub open spec fn wf_cst_sub(s: CstSubQuery) -> bool {
    match s {
        CstSubQuery::Parent => true,
        CstSubQuery::Child(q) => wf_cst_query(q),
    }
}

pub open spec fn wf_cst_expr(e: CstExpression) -> bool {
    match e {
        CstExpression::From { query, content } => wf_cst_query(query) && wf_cst_content(content),
        CstExpression::Ident(_) => true,
        CstExpression::Str(_) => true,
    }
}

pub open spec fn wf_cst_exprs(es: Seq<CstExpression>) -> bool {
    forall|i: int| 0 <= i < es.len() ==> wf_cst_expr(#[trigger] es[i])
}

pub open spec fn wf_cst_stmt(s: CstStatement) -> bool
    decreases s,
{
    match s {
        CstStatement::Assign { value, .. } => wf_cst_expr(value),
        CstStatement::In { sub, query, body } => {
            &&& match sub {
                Some(cs) => wf_cst_sub(cs),
                None => true,
            }
            &&& wf_cst_query(query)
            &&& wf_cst_stmts(body@)
        },
        CstStatement::Write { args } => args@.len() >= 1 && wf_cst_exprs(args@),
    }
}

pub open spec fn wf_cst_stmts(ss: Seq<CstStatement>) -> bool
    decreases ss,
{
    forall|i: int| 0 <= i < ss.len() ==> wf_cst_stmt(#[trigger] ss[i])
}

pub open spec fn wf_cst_nav(n: CstNav) -> bool {
    wf_cst_stmts(n.statements@)
}

pub open spec fn wf_cst_program(p: CstProgram) -> bool {
    forall|i: int| 0 <= i < p.blocks@.len() ==> wf_cst_nav(#[trigger] p.blocks@[i])
}

} // verus!
