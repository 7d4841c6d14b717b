//! The typed abstract syntax tree and the builder that produces it from a
//! concrete parse tree. The builder resolves raw keyword tokens (`class`,
//! `id`, `getTextContent`, ...) to typed values and rejects, with a
//! `ValidationError`, any tree shape the grammar cannot produce.
//!
//! Each AST type has a ghost model (`ElemV`, `QueryV`, `StmtV`, ...) reached
//! through `view`; all contracts of the builder and of the code generator are
//! stated over these models.

use vstd::prelude::*;

use crate::cst::{
    wf_cst_expr, wf_cst_exprs, wf_cst_nav, wf_cst_program, wf_cst_stmt, wf_cst_stmts, CstContent,
    CstExpression, CstNav, CstProgram, CstQuery, CstSelector, CstStatement, CstSubQuery,
};
use crate::error::{ParseError, ValidationError};
use crate::text::{str_eq, str_to_string};
use vstd::pervasive::unreached;
use vstd::string::StringExecFns;

verus! {

broadcast use vstd::seq::group_seq_axioms;

// ---------------------------------------------------------------------------
// AST types
// ---------------------------------------------------------------------------

/// Root artifact: the ordered sequence of navigation blocks of a script.
#[derive(Debug, PartialEq)]
pub struct Program {
    pub navs: Vec<NavigateBlock>,
}

/// One `navigateTo('url') { ... }` construct.
#[derive(Debug, PartialEq)]
pub struct NavigateBlock {
    pub url: String,
    pub statements: Statements,
}

/// Ordered sequence of statements; order is significant.
pub type Statements = Vec<Statement>;

/// A statement: a binding, a traversal scope, or an output instruction.
#[derive(Debug, PartialEq)]
pub enum Statement {
    AssignmentStatement { ident: String, value: Expression },
    InStatement { sub_query: Option<DomSubQuery>, query: DomQuery, statements: Statements },
    WriteStatement { expressions: Vec<Expression> },
}

/// An expression: content extraction, a name reference, or a constant.
#[derive(Debug, Clone, PartialEq)]
pub enum Expression {
    FromExpression { query: DomQuery, content: Content },
    Ident(String),
    Str(String),
}

/// A predicate selecting element nodes by tag and optional class/id.
#[derive(Debug, Clone, PartialEq)]
pub struct DomQuery {
    pub element: Element,
    pub selector: Option<Selector>,
}

/// Redirection of a query's match set: "parent of" (`is_parent` true, no
/// nested query) or "child ... of" (`is_parent` false, nested query present).
/// The two shapes are mutually exclusive; see [`wf_sub_v`].
#[derive(Debug, Clone, PartialEq)]
pub struct DomSubQuery {
    pub is_parent: bool,
    pub query: Option<DomQuery>,
}

/// A concrete tag name, or the wildcard (`_`) matching any element. The tag
/// set is open: any identifier-shaped token is accepted as a tag name.
#[derive(Debug, Clone, PartialEq)]
pub enum Element {
    DOMElement(String),
    Empty,
}

/// Narrows a query by class or id.
#[derive(Debug, Clone, PartialEq)]
pub enum Selector {
    ClassSelector { ident: String },
    IdSelector { ident: String },
}

/// Extraction mode: inner text, or the value of a named attribute.
#[derive(Debug, Clone, PartialEq)]
pub enum Content {
    GetTextContent,
    Attr(String),
}

// ---------------------------------------------------------------------------
// Ghost models
// ---------------------------------------------------------------------------

pub enum ElemV {
    Tag(Seq<char>),
    Any,
}

pub enum SelV {
    Class(Seq<char>),
    Id(Seq<char>),
}

pub struct QueryV {
    pub element: ElemV,
    pub selector: Option<SelV>,
}

pub struct SubV {
    pub is_parent: bool,
    pub query: Option<QueryV>,
}

pub enum ContentV {
    Text,
    Attr(Seq<char>),
}

pub enum ExprV {
    From { query: QueryV, content: ContentV },
    Ident(Seq<char>),
    Str(Seq<char>),
}

pub enum StmtV {
    Assign { ident: Seq<char>, value: ExprV },
    In { sub: Option<SubV>, query: QueryV, body: Seq<StmtV> },
    Write { args: Seq<ExprV> },
}

pub struct NavV {
    pub url: Seq<char>,
    pub statements: Seq<StmtV>,
}

pub struct ProgramV {
    pub navs: Seq<NavV>,
}

// ---------------------------------------------------------------------------
// Views from the AST into the models
// ---------------------------------------------------------------------------

impl View for Element {
    type V = ElemV;

    open spec fn view(&self) -> ElemV {
        match self {
            Element::DOMElement(s) => ElemV::Tag(s@),
            Element::Empty => ElemV::Any,
        }
    }
}

impl View for Selector {
    type V = SelV;

    open spec fn view(&self) -> SelV {
        match self {
            Selector::ClassSelector { ident } => SelV::Class(ident@),
            Selector::IdSelector { ident } => SelV::Id(ident@),
        }
    }
}

impl View for DomQuery {
    type V = QueryV;

    open spec fn view(&self) -> QueryV {
        QueryV {
            element: self.element@,
            selector: match self.selector {
                Some(s) => Some(s@),
                None => None,
            },
        }
    }
}

impl View for DomSubQuery {
    type V = SubV;

    open spec fn view(&self) -> SubV {
        SubV {
            is_parent: self.is_parent,
            query: match self.query {
                Some(q) => Some(q@),
                None => None,
            },
        }
    }
}

impl View for Content {
    type V = ContentV;

    open spec fn view(&self) -> ContentV {
        match self {
            Content::GetTextContent => ContentV::Text,
            Content::Attr(s) => ContentV::Attr(s@),
        }
    }
}

impl View for Expression {
    type V = ExprV;

    open spec fn view(&self) -> ExprV {
        match self {
            Expression::FromExpression { query, content } => ExprV::From {
                query: query@,
                content: content@,
            },
            Expression::Ident(s) => ExprV::Ident(s@),
            Expression::Str(s) => ExprV::Str(s@),
        }
    }
}

pub open spec fn stmt_v(s: Statement) -> StmtV
    decreases s,
{
    match s {
        Statement::AssignmentStatement { ident, value } => StmtV::Assign {
            ident: ident@,
            value: value@,
        },
        Statement::InStatement { sub_query, query, statements } => StmtV::In {
            sub: match sub_query {
                Some(sq) => Some(sq@),
                None => None,
            },
            query: query@,
            body: stmts_v(statements@),
        },
        Statement::WriteStatement { expressions } => StmtV::Write {
            args: expressions.deep_view(),
        },
    }
}

pub open spec fn stmts_v(ss: Seq<Statement>) -> Seq<StmtV>
    decreases ss,
{
    if ss.len() == 0 {
        Seq::empty()
    } else {
        seq![stmt_v(ss[0])] + stmts_v(ss.drop_first())
    }
}

impl View for Statement {
    type V = StmtV;

    open spec fn view(&self) -> StmtV {
        stmt_v(*self)
    }
}

impl DeepView for Statement {
    type V = StmtV;

    open spec fn deep_view(&self) -> StmtV {
        stmt_v(*self)
    }
}

impl DeepView for Expression {
    type V = ExprV;

    open spec fn deep_view(&self) -> ExprV {
        self@
    }
}

impl View for NavigateBlock {
    type V = NavV;

    open spec fn view(&self) -> NavV {
        NavV { url: self.url@, statements: stmts_v(self.statements@) }
    }
}

impl DeepView for NavigateBlock {
    type V = NavV;

    open spec fn deep_view(&self) -> NavV {
        self@
    }
}

impl View for Program {
    type V = ProgramV;

    open spec fn view(&self) -> ProgramV {
        ProgramV { navs: self.navs.deep_view() }
    }
}

/// The length and elements of `stmts_v` follow its input pointwise.
pub proof fn lemma_stmts_v(ss: Seq<Statement>)
    ensures
        stmts_v(ss).len() == ss.len(),
        forall|i: int| 0 <= i < ss.len() ==> stmts_v(ss)[i] == stmt_v(ss[i]),
    decreases ss,
{
    if ss.len() > 0 {
        lemma_stmts_v(ss.drop_first());
    }
}

// ---------------------------------------------------------------------------
// Model well-formedness: the structural invariant of a built AST
// ---------------------------------------------------------------------------

/// A sub-query is exactly one of the two shapes: "parent of" carries no
/// nested query, "child ... of" always carries one.
pub open spec fn wf_sub_v(s: SubV) -> bool {
    s.is_parent <==> s.query is None
}

pub open spec fn wf_stmt_v(s: StmtV) -> bool
    decreases s,
{
    match s {
        StmtV::Assign { .. } => true,
        StmtV::In { sub, body, .. } => {
            &&& match sub {
                Some(sv) => wf_sub_v(sv),
                None => true,
            }
            &&& wf_stmts_v(body)
        },
        StmtV::Write { .. } => true,
    }
}

pub open spec fn wf_stmts_v(ss: Seq<StmtV>) -> bool
    decreases ss,
{
    forall|i: int| 0 <= i < ss.len() ==> wf_stmt_v(#[trigger] ss[i])
}

pub open spec fn wf_program_v(p: ProgramV) -> bool {
    forall|i: int| 0 <= i < p.navs.len() ==> wf_stmts_v(#[trigger] p.navs[i].statements)
}

// ---------------------------------------------------------------------------
// The builder's meaning: a partial map from parse trees to models
// ---------------------------------------------------------------------------

/// The wildcard token maps to "any element"; every other token is an open-set
/// tag name.
pub open spec fn sb_element(e: Seq<char>) -> ElemV {
    if e == "_"@ {
        ElemV::Any
    } else {
        ElemV::Tag(e)
    }
}

pub open spec fn sb_selector_kw(kw: Seq<char>, ident: Seq<char>) -> Option<SelV> {
    if kw == "class"@ {
        Some(SelV::Class(ident))
    } else if kw == "id"@ {
        Some(SelV::Id(ident))
    } else {
        None
    }
}

pub open spec fn sb_content_kw(kw: Seq<char>, arg: Option<Seq<char>>) -> Option<ContentV> {
    if kw == "getTextContent"@ && arg is None {
        Some(ContentV::Text)
    } else if kw == "getAttribute"@ && arg is Some {
        Some(ContentV::Attr(arg->0))
    } else {
        None
    }
}

pub open spec fn sb_query(q: CstQuery) -> Option<QueryV> {
    match q.selector {
        None => Some(QueryV { element: sb_element(q.element@), selector: None }),
        Some(cs) => match sb_selector_kw(cs.keyword@, cs.ident@) {
            Some(sv) => Some(QueryV { element: sb_element(q.element@), selector: Some(sv) }),
            None => None,
        },
    }
}

pub open spec fn sb_sub(s: CstSubQuery) -> Option<SubV> {
    match s {
        CstSubQuery::Parent => Some(SubV { is_parent: true, query: None }),
        CstSubQuery::Child(q) => match sb_query(q) {
            Some(qv) => Some(SubV { is_parent: false, query: Some(qv) }),
            None => None,
        },
    }
}

pub open spec fn sb_expr(e: CstExpression) -> Option<ExprV> {
    match e {
        CstExpression::From { query, content } => match (
            sb_query(query),
            sb_content_kw(content.keyword@, match content.arg {
                Some(a) => Some(a@),
                None => None,
            }),
        ) {
            (Some(qv), Some(cv)) => Some(ExprV::From { query: qv, content: cv }),
            _ => None,
        },
        CstExpression::Ident(s) => Some(ExprV::Ident(s@)),
        CstExpression::Str(s) => Some(ExprV::Str(s@)),
    }
}

pub open spec fn sb_exprs(es: Seq<CstExpression>) -> Option<Seq<ExprV>>
    decreases es,
{
    if es.len() == 0 {
        Some(Seq::empty())
    } else {
        match (sb_expr(es[0]), sb_exprs(es.drop_first())) {
            (Some(h), Some(t)) => Some(seq![h] + t),
            _ => None,
        }
    }
}

pub open spec fn sb_stmt(s: CstStatement) -> Option<StmtV>
    decreases s,
{
    match s {
        CstStatement::Assign { ident, value } => match sb_expr(value) {
            Some(ev) => Some(StmtV::Assign { ident: ident@, value: ev }),
            None => None,
        },
        CstStatement::In { sub, query, body } => {
            let sv = match sub {
                Some(cs) => match sb_sub(cs) {
                    Some(v) => Some(Some(v)),
                    None => None,
                },
                None => Some(None),
            };
            match (sv, sb_query(query), sb_stmts(body@)) {
                (Some(sub_v), Some(qv), Some(bv)) => Some(StmtV::In {
                    sub: sub_v,
                    query: qv,
                    body: bv,
                }),
                _ => None,
            }
        },
        CstStatement::Write { args } => match sb_exprs(args@) {
            Some(avs) => Some(StmtV::Write { args: avs }),
            None => None,
        },
    }
}

pub open spec fn sb_stmts(ss: Seq<CstStatement>) -> Option<Seq<StmtV>>
    decreases ss,
{
    if ss.len() == 0 {
        Some(Seq::empty())
    } else {
        match (sb_stmt(ss[0]), sb_stmts(ss.drop_first())) {
            (Some(h), Some(t)) => Some(seq![h] + t),
            _ => None,
        }
    }
}

pub open spec fn sb_nav(n: CstNav) -> Option<NavV> {
    match sb_stmts(n.statements@) {
        Some(b) => Some(NavV { url: n.url@, statements: b }),
        None => None,
    }
}

pub open spec fn sb_navs(ns: Seq<CstNav>) -> Option<Seq<NavV>>
    decreases ns,
{
    if ns.len() == 0 {
        Some(Seq::empty())
    } else {
        match (sb_nav(ns[0]), sb_navs(ns.drop_first())) {
            (Some(h), Some(t)) => Some(seq![h] + t),
            _ => None,
        }
    }
}

pub open spec fn sb_program(c: CstProgram) -> Option<ProgramV> {
    match sb_navs(c.blocks@) {
        Some(ns) => Some(ProgramV { navs: ns }),
        None => None,
    }
}

// ---------------------------------------------------------------------------
// Executable builder
// ---------------------------------------------------------------------------

impl Program {
    /// A program with no navigation blocks.
    pub fn empty() -> (r: Program)
        ensures
            r@.navs == Seq::<NavV>::empty(),
    {
        Program { navs: Vec::new() }
    }

    /// The whole front half of the pipeline: parses the script text and
    /// builds the typed program. It succeeds exactly on grammatical text and
    /// returns exactly the program model the text denotes. By
    /// [`lemma_wf_cst_builds`], building cannot fail on a tree the parser
    /// produced, so the only error is a syntax error. A produced program
    /// satisfies the structural invariant [`wf_program_v`].
    pub fn from_str(input: &str) -> (r: Result<Program, ParseError>)
        requires
            input@.len() < usize::MAX,
        ensures
            r is Ok <==> crate::grammar::sp_p_program(input@) is Some,
            r matches Ok(p) ==> p@ == crate::grammar::sp_p_program(input@)->0 && wf_program_v(p@),
            r matches Err(e) ==> e.line >= 1 && e.col >= 1,
    {
        let tree = match crate::grammar::parse(input) {
            Ok(t) => t,
            Err(e) => {
                return Err(e);
            },
        };
        proof {
            lemma_wf_cst_builds(tree);
        }
        match build(&tree) {
            Ok(p) => Ok(p),
            Err(_) => unreached(),
        }
    }
}

impl Element {
    /// Resolves an element token: the wildcard token `_` maps to the "any
    /// element" marker, every other token is taken as a tag name.
    pub fn from(elem: &str) -> (r: Element)
        ensures
            r@ == sb_element(elem@),
    {
        if str_eq(elem, "_") {
            Element::Empty
        } else {
            Element::DOMElement(str_to_string(elem))
        }
    }
}

impl Selector {
    /// Resolves a selector keyword; an unrecognized keyword is a validation
    /// error naming the offending keyword.
    pub fn from(selector: &str, ident: &str) -> (r: Result<Selector, ValidationError>)
        ensures
            r is Ok <==> sb_selector_kw(selector@, ident@) is Some,
            r is Ok ==> r->Ok_0@ == sb_selector_kw(selector@, ident@)->0,
            r is Err ==> r->Err_0.reason@ == "Unrecognised selector: "@ + selector@,
    {
        if str_eq(selector, "class") {
            Ok(Selector::ClassSelector { ident: str_to_string(ident) })
        } else if str_eq(selector, "id") {
            Ok(Selector::IdSelector { ident: str_to_string(ident) })
        } else {
            let mut reason = str_to_string("Unrecognised selector: ");
            reason.append(selector);
            Err(ValidationError { reason })
        }
    }
}

impl Content {
    /// Resolves a content-accessor keyword; an unrecognized keyword, or an
    /// argument shape that does not fit the keyword, is a validation error.
    pub fn from(id: &str, arg: Option<&String>) -> (r: Result<Content, ValidationError>)
        ensures
            r is Ok <==> sb_content_kw(id@, match arg {
                Some(a) => Some(a@),
                None => None,
            }) is Some,
            r is Ok ==> r->Ok_0@ == sb_content_kw(id@, match arg {
                Some(a) => Some(a@),
                None => None,
            })->0,
            r is Err ==> r->Err_0.reason@ == "Unknown content type: "@ + id@,
    {
        if str_eq(id, "getTextContent") && arg.is_none() {
            Ok(Content::GetTextContent)
        } else if str_eq(id, "getAttribute") && arg.is_some() {
            match arg {
                Some(a) => Ok(Content::Attr(a.clone())),
                None => unreached(),
            }
        } else {
            let mut reason = str_to_string("Unknown content type: ");
            reason.append(id);
            Err(ValidationError { reason })
        }
    }
}

/// Builds a typed query from its parse-tree node.
pub fn build_query(q: &CstQuery) -> (r: Result<DomQuery, ValidationError>)
    ensures
        r is Ok <==> sb_query(*q) is Some,
        r is Ok ==> r->Ok_0@ == sb_query(*q)->0,
{
    let element = Element::from(q.element.as_str());
    match &q.selector {
        None => Ok(DomQuery { element, selector: None }),
        Some(cs) => {
            let sel = Selector::from(cs.keyword.as_str(), cs.ident.as_str())?;
            Ok(DomQuery { element, selector: Some(sel) })
        },
    }
}

/// Builds a typed sub-query, disambiguating the parent and child shapes.
pub fn build_sub_query(s: &CstSubQuery) -> (r: Result<DomSubQuery, ValidationError>)
    ensures
        r is Ok <==> sb_sub(*s) is Some,
        r is Ok ==> r->Ok_0@ == sb_sub(*s)->0,
        r is Ok ==> wf_sub_v(r->Ok_0@),
{
    match s {
        CstSubQuery::Parent => Ok(DomSubQuery { is_parent: true, query: None }),
        CstSubQuery::Child(q) => {
            let qq = build_query(q)?;
            Ok(DomSubQuery { is_parent: false, query: Some(qq) })
        },
    }
}

/// Builds a typed expression from its parse-tree node.
pub fn build_expression(e: &CstExpression) -> (r: Result<Expression, ValidationError>)
    ensures
        r is Ok <==> sb_expr(*e) is Some,
        r is Ok ==> r->Ok_0@ == sb_expr(*e)->0,
{
    match e {
        CstExpression::From { query, content } => {
            let q = build_query(query)?;
            let c = Content::from(content.keyword.as_str(), content.arg.as_ref())?;
            Ok(Expression::FromExpression { query: q, content: c })
        },
        CstExpression::Ident(s) => Ok(Expression::Ident(s.clone())),
        CstExpression::Str(s) => Ok(Expression::Str(s.clone())),
    }
}

/// Builds one typed statement from its parse-tree node.
pub fn build_statement(s: &CstStatement) -> (r: Result<Statement, ValidationError>)
    ensures
        r is Ok <==> sb_stmt(*s) is Some,
        r is Ok ==> r->Ok_0@ == sb_stmt(*s)->0,
        r is Ok ==> wf_stmt_v(r->Ok_0@),
    decreases *s,
{
    match s {
        CstStatement::Assign { ident, value } => {
            let v = build_expression(value)?;
            Ok(Statement::AssignmentStatement { ident: ident.clone(), value: v })
        },
        CstStatement::In { sub, query, body } => {
            let sub_b = match sub {
                Some(cs) => Some(build_sub_query(cs)?),
                None => None,
            };
            let q = build_query(query)?;
            let b = build_statements(body)?;
            Ok(Statement::InStatement { sub_query: sub_b, query: q, statements: b })
        },
        CstStatement::Write { args } => {
            proof {
                assert(args@.subrange(0, args@.len() as int) =~= args@);
            }
            let es = build_expressions(args, 0)?;
            Ok(Statement::WriteStatement { expressions: es })
        },
    }
}

/// Builds the statements of one scope, in order.
pub fn build_statements(ss: &Vec<CstStatement>) -> (r: Result<Statements, ValidationError>)
    ensures
        r is Ok <==> sb_stmts(ss@) is Some,
        r is Ok ==> stmts_v(r->Ok_0@) == sb_stmts(ss@)->0,
        r is Ok ==> wf_stmts_v(stmts_v(r->Ok_0@)),
    decreases ss@, ss@.len() + 1,
{
    proof {
        assert(ss@.subrange(0, ss@.len() as int) =~= ss@);
    }
    build_statements_from(ss, 0)
}

fn build_statements_from(ss: &Vec<CstStatement>, i: usize) -> (r: Result<
    Statements,
    ValidationError,
>)
    requires
        i <= ss@.len(),
    ensures
        r is Ok <==> sb_stmts(ss@.subrange(i as int, ss@.len() as int)) is Some,
        r is Ok ==> stmts_v(r->Ok_0@) == sb_stmts(ss@.subrange(i as int, ss@.len() as int))->0,
        r is Ok ==> wf_stmts_v(stmts_v(r->Ok_0@)),
    decreases ss@, ss@.len() - i,
{
    let ghost tail = ss@.subrange(i as int, ss@.len() as int);
    if i == ss.len() {
        assert(tail.len() == 0);
        Ok(Vec::new())
    } else {
        assert(tail.len() > 0 && tail[0] == ss@[i as int]);
        assert(tail.drop_first() =~= ss@.subrange(i as int + 1, ss@.len() as int));
        let head = build_statement(&ss[i])?;
        let mut rest = build_statements_from(ss, i + 1)?;
        let ghost prev = rest@;
        rest.insert(0, head);
        proof {
            assert(rest@.drop_first() =~= prev);
            assert(rest@[0] == head);
            assert(stmts_v(rest@) == seq![stmt_v(head)] + stmts_v(prev));
            assert(stmts_v(rest@) =~= sb_stmts(tail)->0);
            assert forall|k: int| 0 <= k < stmts_v(rest@).len() implies wf_stmt_v(
                #[trigger] stmts_v(rest@)[k],
            ) by {
                if k == 0 {
                    assert(stmts_v(rest@)[0] == stmt_v(head));
                } else {
                    assert(stmts_v(rest@)[k] == stmts_v(prev)[k - 1]);
                    assert(wf_stmt_v(stmts_v(prev)[k - 1]));
                }
            }
        }
        Ok(rest)
    }
}

fn build_expressions(es: &Vec<CstExpression>, i: usize) -> (r: Result<
    Vec<Expression>,
    ValidationError,
>)
    requires
        i <= es@.len(),
    ensures
        r is Ok <==> sb_exprs(es@.subrange(i as int, es@.len() as int)) is Some,
        r is Ok ==> r->Ok_0.deep_view() == sb_exprs(es@.subrange(i as int, es@.len() as int))->0,
    decreases es@.len() - i,
{
    let ghost tail = es@.subrange(i as int, es@.len() as int);
    if i == es.len() {
        assert(tail.len() == 0);
        let r: Vec<Expression> = Vec::new();
        assert(r.deep_view() =~= Seq::<ExprV>::empty());
        Ok(r)
    } else {
        assert(tail.len() > 0 && tail[0] == es@[i as int]);
        assert(tail.drop_first() =~= es@.subrange(i as int + 1, es@.len() as int));
        let head = build_expression(&es[i])?;
        let mut rest = build_expressions(es, i + 1)?;
        let ghost prev = rest@;
        let ghost prev_dv = rest.deep_view();
        rest.insert(0, head);
        proof {
            assert(rest@[0] == head);
            assert(forall|k: int| 1 <= k < rest@.len() ==> rest@[k] == prev[k - 1]);
            assert(rest.deep_view() =~= seq![head@] + prev_dv);
            assert(rest.deep_view() =~= sb_exprs(tail)->0);
        }
        Ok(rest)
    }
}

/// Builds one navigation block.
pub fn build_nav(n: &CstNav) -> (r: Result<NavigateBlock, ValidationError>)
    ensures
        r is Ok <==> sb_nav(*n) is Some,
        r is Ok ==> r->Ok_0@ == sb_nav(*n)->0,
        r is Ok ==> wf_stmts_v(r->Ok_0@.statements),
{
    let b = build_statements(&n.statements)?;
    Ok(NavigateBlock { url: n.url.clone(), statements: b })
}

fn build_navs(ns: &Vec<CstNav>, i: usize) -> (r: Result<Vec<NavigateBlock>, ValidationError>)
    requires
        i <= ns@.len(),
    ensures
        r is Ok <==> sb_navs(ns@.subrange(i as int, ns@.len() as int)) is Some,
        r is Ok ==> r->Ok_0.deep_view() == sb_navs(ns@.subrange(i as int, ns@.len() as int))->0,
        r is Ok ==> forall|k: int|
            0 <= k < r->Ok_0.deep_view().len() ==> wf_stmts_v(
                #[trigger] r->Ok_0.deep_view()[k].statements,
            ),
    decreases ns@.len() - i,
{
    let ghost tail = ns@.subrange(i as int, ns@.len() as int);
    if i == ns.len() {
        assert(tail.len() == 0);
        let r: Vec<NavigateBlock> = Vec::new();
        assert(r.deep_view() =~= Seq::<NavV>::empty());
        Ok(r)
    } else {
        assert(tail.len() > 0 && tail[0] == ns@[i as int]);
        assert(tail.drop_first() =~= ns@.subrange(i as int + 1, ns@.len() as int));
        let head = build_nav(&ns[i])?;
        let mut rest = build_navs(ns, i + 1)?;
        let ghost prev = rest@;
        let ghost prev_dv = rest.deep_view();
        rest.insert(0, head);
        proof {
            assert(rest@[0] == head);
            assert(forall|k: int| 1 <= k < rest@.len() ==> rest@[k] == prev[k - 1]);
            assert(rest.deep_view() =~= seq![head@] + prev_dv);
            assert(rest.deep_view() =~= sb_navs(tail)->0);
        }
        Ok(rest)
    }
}

// ---------------------------------------------------------------------------
// Canonical rendering of a query: the textual form that re-parses to it
// ---------------------------------------------------------------------------

/// One character of a string literal's canonical escaping: a quote is
/// doubled, a backslash is escaped, everything else stands for itself.
pub open spec fn esc_char(c: char) -> Seq<char> {
    if c == '\'' {
        seq!['\'', '\'']
    } else if c == '\\' {
        seq!['\\', '\\']
    } else {
        seq![c]
    }
}

/// The canonical escaping of a string literal's content.
pub open spec fn esc(content: Seq<char>) -> Seq<char>
    decreases content.len(),
{
    if content.len() == 0 {
        Seq::empty()
    } else {
        esc_char(content[0]) + esc(content.drop_first())
    }
}

pub open spec fn render_elem(e: ElemV) -> Seq<char> {
    match e {
        ElemV::Tag(t) => t,
        ElemV::Any => "_"@,
    }
}

pub open spec fn render_sel(s: SelV) -> Seq<char> {
    match s {
        SelV::Class(i) => "class('"@ + esc(i) + "')"@,
        SelV::Id(i) => "id('"@ + esc(i) + "')"@,
    }
}

/// The canonical textual form of a query: the element token, and the
/// selector as `having class('...')` or `having id('...')` when present.
pub open spec fn render_query(q: QueryV) -> Seq<char> {
    match q.selector {
        None => render_elem(q.element),
        Some(s) => render_elem(q.element) + " having "@ + render_sel(s),
    }
}

/// Escaping distributes over appending one character at the end.
proof fn lemma_esc_snoc(a: Seq<char>, c: char)
    ensures
        esc(a.push(c)) == esc(a) + esc_char(c),
    decreases a.len(),
{
    assert(a.push(c).len() == a.len() + 1);
    assert(esc(a.push(c)) == esc_char(a.push(c)[0]) + esc(a.push(c).drop_first()));
    if a.len() == 0 {
        assert(a.push(c)[0] == c);
        assert(a.push(c).drop_first() =~= Seq::<char>::empty());
        assert(esc(a.push(c).drop_first()) == Seq::<char>::empty());
        assert(esc_char(c) + Seq::<char>::empty() =~= esc_char(c));
        assert(esc(a) == Seq::<char>::empty());
        assert(esc(a) + esc_char(c) =~= esc_char(c));
        assert(esc(a.push(c)) == esc(a) + esc_char(c));
    } else {
        assert(a.push(c)[0] == a[0]);
        assert(a.push(c).drop_first() =~= a.drop_first().push(c));
        lemma_esc_snoc(a.drop_first(), c);
        assert(esc(a.push(c).drop_first()) == esc(a.drop_first()) + esc_char(c));
        assert(esc_char(a[0]) + (esc(a.drop_first()) + esc_char(c)) =~= (esc_char(a[0]) + esc(
            a.drop_first(),
        )) + esc_char(c));
        assert(esc(a) == esc_char(a[0]) + esc(a.drop_first()));
        assert(esc(a.push(c)) == esc(a) + esc_char(c));
    }
}

fn escape_into(out: &mut String, content: &str)
    ensures
        final(out)@ == old(out)@ + esc(content@),
{
    let n = content.unicode_len();
    let mut i: usize = 0;
    proof {
        assert(content@.subrange(0, 0) =~= Seq::<char>::empty());
        assert(old(out)@ + Seq::<char>::empty() =~= old(out)@);
    }
    while i < n
        invariant
            n == content@.len(),
            i <= n,
            out@ == old(out)@ + esc(content@.subrange(0, i as int)),
        decreases n - i,
    {
        let c = content.get_char(i);
        if c == '\'' {
            crate::text::push_char(out, '\'');
            crate::text::push_char(out, '\'');
        } else if c == '\\' {
            crate::text::push_char(out, '\\');
            crate::text::push_char(out, '\\');
        } else {
            crate::text::push_char(out, c);
        }
        proof {
            let ghost pre = content@.subrange(0, i as int);
            assert(content@.subrange(0, i + 1 as int) =~= pre.push(content@[i as int]));
            lemma_esc_snoc(pre, content@[i as int]);
            assert((old(out)@ + esc(pre)).push(c) =~= old(out)@ + (esc(pre) + seq![c]));
            assert((old(out)@ + esc(pre)).push(c).push(c) =~= old(out)@ + (esc(pre) + seq![c, c]));
            assert(esc_char(content@[i as int]) == if c == '\'' {
                seq!['\'', '\'']
            } else if c == '\\' {
                seq!['\\', '\\']
            } else {
                seq![c]
            });
            assert(seq![c, c] =~= seq![c] + seq![c]);
        }
        i += 1;
    }
    proof {
        assert(content@.subrange(0, n as int) =~= content@);
    }
}

/// The canonical textual form of a query; re-parsing it yields an equal
/// query (see `lemma_query_roundtrip` in the grammar module).
pub fn render_dom_query(query: &DomQuery) -> (r: String)
    ensures
        r@ == render_query(query@),
{
    let mut r = String::new();
    match &query.element {
        Element::DOMElement(t) => {
            r.append(t.as_str());
        },
        Element::Empty => {
            r.append("_");
        },
    }
    match &query.selector {
        None => r,
        Some(sel) => {
            r.append(" having ");
            match sel {
                Selector::ClassSelector { ident } => {
                    r.append("class('");
                    escape_into(&mut r, ident.as_str());
                    r.append("')");
                },
                Selector::IdSelector { ident } => {
                    r.append("id('");
                    escape_into(&mut r, ident.as_str());
                    r.append("')");
                },
            }
            r
        },
    }
}

// ---------------------------------------------------------------------------
// Grammar/AST lockstep: building cannot fail on a tree the grammar produced
// ---------------------------------------------------------------------------

proof fn lemma_wf_expr_builds(e: CstExpression)
    requires
        wf_cst_expr(e),
    ensures
        sb_expr(e) is Some,
{
}

proof fn lemma_wf_exprs_build(es: Seq<CstExpression>)
    requires
        wf_cst_exprs(es),
    ensures
        sb_exprs(es) is Some,
    decreases es,
{
    if es.len() > 0 {
        lemma_wf_expr_builds(es[0]);
        assert(forall|i: int|
            0 <= i < es.drop_first().len() ==> #[trigger] es.drop_first()[i] == es[i + 1]);
        lemma_wf_exprs_build(es.drop_first());
    }
}

proof fn lemma_wf_stmt_builds(s: CstStatement)
    requires
        wf_cst_stmt(s),
    ensures
        sb_stmt(s) is Some,
    decreases s,
{
    match s {
        CstStatement::Assign { value, .. } => lemma_wf_expr_builds(value),
        CstStatement::In { sub: _, query: _, body } => {
            lemma_wf_stmts_build(body@);
        },
        CstStatement::Write { args } => lemma_wf_exprs_build(args@),
    }
}

proof fn lemma_wf_stmts_build(ss: Seq<CstStatement>)
    requires
        wf_cst_stmts(ss),
    ensures
        sb_stmts(ss) is Some,
    decreases ss,
{
    if ss.len() > 0 {
        lemma_wf_stmt_builds(ss[0]);
        assert(forall|i: int|
            0 <= i < ss.drop_first().len() ==> #[trigger] ss.drop_first()[i] == ss[i + 1]);
        lemma_wf_stmts_build(ss.drop_first());
    }
}

proof fn lemma_wf_navs_build(ns: Seq<CstNav>)
    requires
        forall|i: int| 0 <= i < ns.len() ==> wf_cst_nav(#[trigger] ns[i]),
    ensures
        sb_navs(ns) is Some,
    decreases ns,
{
    if ns.len() > 0 {
        lemma_wf_stmts_build(ns[0].statements@);
        assert(forall|i: int|
            0 <= i < ns.drop_first().len() ==> #[trigger] ns.drop_first()[i] == ns[i + 1]);
        lemma_wf_navs_build(ns.drop_first());
    }
}

/// The parser and the builder stay in lockstep: on every well-formed parse
/// tree — every tree the grammar can produce — the builder succeeds.
pub proof fn lemma_wf_cst_builds(p: CstProgram)
    requires
        wf_cst_program(p),
    ensures
        sb_program(p) is Some,
{
    lemma_wf_navs_build(p.blocks@);
}

/// Builds the typed, validated program from a concrete parse tree.
pub fn build(tree: &CstProgram) -> (r: Result<Program, ValidationError>)
    ensures
        r is Ok <==> sb_program(*tree) is Some,
        r is Ok ==> r->Ok_0@ == sb_program(*tree)->0,
        r is Ok ==> wf_program_v(r->Ok_0@),
{
    let ghost whole = tree.blocks@;
    proof {
        assert(whole.subrange(0, whole.len() as int) =~= whole);
    }
    let navs = build_navs(&tree.blocks, 0)?;
    Ok(Program { navs })
}

} // verus!
