//! The code generator. It walks a validated program and emits, for each
//! navigation block, an ordered sequence of traversal and extraction
//! instructions, rendered as text against a DOM-query engine that offers
//! `find`, `parent`, iteration, text/attribute access and formatted output.
//!
//! The meaning of every function is given by the `sp_*`/`out_*` spec
//! functions over the ghost models; `resolves_*` says when generation
//! succeeds: exactly when every identifier expression has a visible binding.
//!
//! A query that matches no node at evaluation time is a hard failure of the
//! generated instructions, not of generation: where a single node is needed,
//! the emitted code unwraps the first match and panics when there is none.

use vstd::prelude::*;

use crate::ast::{
    stmt_v, stmts_v, wf_program_v, wf_stmt_v, wf_stmts_v, wf_sub_v, Content, ContentV, DomQuery,
    DomSubQuery, Element, ElemV, ExprV, Expression, NavV, NavigateBlock, Program, ProgramV,
    QueryV, Selector, SelV, Statement, Statements, StmtV, SubV,
};
use crate::error::GenerationError;
use crate::text::{str_eq, str_to_string};
use vstd::string::StringExecFns;

verus! {

broadcast use vstd::seq::group_seq_axioms;

// ---------------------------------------------------------------------------
// Emission, as spec functions over the models
// ---------------------------------------------------------------------------

/// The element-name predicate: a tag name matches by name, the wildcard
/// matches anything.
pub open spec fn sp_elem_pred(e: ElemV) -> Seq<char> {
    match e {
        ElemV::Tag(t) => "Name(\""@ + t + "\")"@,
        ElemV::Any => "Any"@,
    }
}

/// The class/id predicate of a selector.
pub open spec fn sp_sel_pred(s: SelV) -> Seq<char> {
    match s {
        SelV::Class(i) => "Class(\""@ + i + "\")"@,
        SelV::Id(i) => "Attr(\"id\", \""@ + i + "\")"@,
    }
}

/// The combined predicate of a query: element alone, selector alone when the
/// element is the wildcard, or the conjunction of the two.
pub open spec fn sp_query_pred(q: QueryV) -> Seq<char> {
    match q.selector {
        None => sp_elem_pred(q.element),
        Some(s) => if q.element is Any {
            sp_sel_pred(s)
        } else {
            "And("@ + sp_elem_pred(q.element) + ", "@ + sp_sel_pred(s) + ")"@
        },
    }
}

/// A query that matches the current scope as-is: wildcard, no selector.
pub open spec fn is_bare_query(q: QueryV) -> bool {
    q.element is Any && q.selector is None
}

/// Node-address resolution: the node set denoted by a query, an optional
/// sub-query and a traversal root.
pub open spec fn sp_nodes(root: Seq<char>, q: QueryV, sub: Option<SubV>) -> Seq<char> {
    match sub {
        Some(sv) => if sv.is_parent {
            root + ".find("@ + sp_query_pred(q) + ").next().unwrap().parent()"@
        } else {
            match sv.query {
                Some(inner) => root + ".find(Descendant("@ + sp_query_pred(q) + ", "@
                    + sp_query_pred(inner) + "))"@,
                None => root,
            }
        },
        None => if is_bare_query(q) {
            root
        } else {
            root + ".find("@ + sp_query_pred(q) + ")"@
        },
    }
}

/// A content extraction rooted at the current traversal root.
pub open spec fn sp_from(root: Seq<char>, q: QueryV, c: ContentV) -> Seq<char> {
    let nodes = sp_nodes(root, q, None);
    let acc = match c {
        ContentV::Text => if nodes == root {
            "text()"@
        } else {
            "next().unwrap().text()"@
        },
        ContentV::Attr(a) => "attr(\""@ + a + "\").unwrap()"@,
    };
    nodes + "."@ + acc
}

/// An expression resolves when every identifier it mentions is bound.
pub open spec fn resolves_expr(scope: Seq<Seq<char>>, e: ExprV) -> bool {
    match e {
        ExprV::Ident(x) => scope.contains(x),
        _ => true,
    }
}

/// The instruction text of an expression.
pub open spec fn out_expr(root: Seq<char>, e: ExprV) -> Seq<char> {
    match e {
        ExprV::From { query, content } => sp_from(root, query, content),
        ExprV::Ident(x) => x,
        ExprV::Str(s) => "\""@ + s + "\""@,
    }
}

/// The format placeholder of a write statement: one `{} ` per expression.
pub open spec fn sp_placeholder(n: int) -> Seq<char>
    decreases n,
{
    if n <= 0 {
        Seq::empty()
    } else {
        sp_placeholder(n - 1) + "{} "@
    }
}

/// The arguments of a write statement from index `i` on, comma-joined.
pub open spec fn out_args(root: Seq<char>, es: Seq<ExprV>, i: int) -> Seq<char>
    decreases es.len() - i,
{
    if i < 0 || i >= es.len() {
        Seq::empty()
    } else if i == es.len() - 1 {
        out_expr(root, es[i])
    } else {
        out_expr(root, es[i]) + ","@ + out_args(root, es, i + 1)
    }
}

/// The scope after a statement: an assignment binds its name, every other
/// statement leaves the scope unchanged.
pub open spec fn scope_after(scope: Seq<Seq<char>>, s: StmtV) -> Seq<Seq<char>> {
    match s {
        StmtV::Assign { ident, .. } => scope.push(ident),
        _ => scope,
    }
}

/// Whether the arguments of a write statement from index `i` on resolve.
pub open spec fn resolves_args(scope: Seq<Seq<char>>, es: Seq<ExprV>, i: int) -> bool
    decreases es.len() - i,
{
    if i < 0 || i >= es.len() {
        true
    } else {
        resolves_expr(scope, es[i]) && resolves_args(scope, es, i + 1)
    }
}

/// Whether a statement resolves under a scope. The body of an `in` statement
/// sees the enclosing scope; its own bindings stay inside.
pub open spec fn resolves_stmt(scope: Seq<Seq<char>>, s: StmtV) -> bool
    decreases s,
{
    match s {
        StmtV::Assign { value, .. } => resolves_expr(scope, value),
        StmtV::In { body, .. } => resolves_stmts(scope, body, 0),
        StmtV::Write { args } => resolves_args(scope, args, 0),
    }
}

/// Whether the statements from index `i` on resolve, each under the scope
/// left by its predecessors.
pub open spec fn resolves_stmts(scope: Seq<Seq<char>>, ss: Seq<StmtV>, i: int) -> bool
    decreases ss, ss.len() - i,
{
    if i < 0 || i >= ss.len() {
        true
    } else {
        resolves_stmt(scope, ss[i]) && resolves_stmts(scope_after(scope, ss[i]), ss, i + 1)
    }
}

/// The scope left by the statements from index `i` on.
pub open spec fn scope_after_stmts(scope: Seq<Seq<char>>, ss: Seq<StmtV>, i: int) -> Seq<Seq<char>>
    decreases ss.len() - i,
{
    if i < 0 || i >= ss.len() {
        scope
    } else {
        scope_after_stmts(scope_after(scope, ss[i]), ss, i + 1)
    }
}

/// The instruction text of one statement under a traversal root.
pub open spec fn out_stmt(root: Seq<char>, s: StmtV) -> Seq<char>
    decreases s,
{
    match s {
        StmtV::Assign { ident, value } => "let "@ + ident + " = "@ + out_expr(root, value) + ";"@,
        StmtV::In { sub, query, body } => "for node in "@ + sp_nodes(root, query, sub) + " {\n\t"@
            + out_stmts("node"@, body, 0) + "\n}"@,
        StmtV::Write { args } => "println!(\""@ + sp_placeholder(args.len() as int) + "\", "@
            + out_args(root, args, 0) + ");"@,
    }
}

/// The statements from index `i` on, newline-joined.
pub open spec fn out_stmts(root: Seq<char>, ss: Seq<StmtV>, i: int) -> Seq<char>
    decreases ss, ss.len() - i,
{
    if i < 0 || i >= ss.len() {
        Seq::empty()
    } else if i == ss.len() - 1 {
        out_stmt(root, ss[i])
    } else {
        out_stmt(root, ss[i]) + "\n"@ + out_stmts(root, ss, i + 1)
    }
}

/// The instruction block of one navigation block: load the document, then
/// run the statements rooted at it. Each block starts from an empty scope.
pub open spec fn out_nav(n: NavV) -> Seq<char> {
    "let document = Document::from(include_str!(\""@ + n.url + "\"));\n"@ + out_stmts(
        "document"@,
        n.statements,
        0,
    )
}

pub open spec fn resolves_nav(n: NavV) -> bool {
    resolves_stmts(Seq::empty(), n.statements, 0)
}

/// Whether the navigation blocks from index `i` on all resolve.
pub open spec fn resolves_navs(ns: Seq<NavV>, i: int) -> bool
    decreases ns.len() - i,
{
    if i < 0 || i >= ns.len() {
        true
    } else {
        resolves_nav(ns[i]) && resolves_navs(ns, i + 1)
    }
}

/// The instruction blocks from index `i` on, newline-joined.
pub open spec fn out_navs(ns: Seq<NavV>, i: int) -> Seq<char>
    decreases ns.len() - i,
{
    if i < 0 || i >= ns.len() {
        Seq::empty()
    } else if i == ns.len() - 1 {
        out_nav(ns[i])
    } else {
        out_nav(ns[i]) + "\n"@ + out_navs(ns, i + 1)
    }
}

/// One instruction block per navigation block, in source order.
pub open spec fn out_blocks(p: ProgramV) -> Seq<Seq<char>> {
    Seq::new(p.navs.len(), |i: int| out_nav(p.navs[i]))
}

pub open spec fn out_program(p: ProgramV) -> Seq<char> {
    out_navs(p.navs, 0)
}

pub open spec fn resolves_program(p: ProgramV) -> bool {
    resolves_navs(p.navs, 0)
}

// ---------------------------------------------------------------------------
// Executable generator
// ---------------------------------------------------------------------------

/// The two shapes a sub-query generates: a parent lookup, or a nested
/// descendant predicate.
#[derive(Debug, PartialEq)]
pub enum MiscNode {
    Parent,
    Child { node: String },
}

/// The element-name predicate of an element.
pub fn generate_predicate_from_elem(element: &Element) -> (r: String)
    ensures
        r@ == sp_elem_pred(element@),
{
    match element {
        Element::DOMElement(elem) => {
            let mut r = str_to_string("Name(\"");
            r.append(elem.as_str());
            r.append("\")");
            r
        },
        Element::Empty => str_to_string("Any"),
    }
}

/// The class/id predicate of a selector.
pub fn generate_predicate_from_selector(selector: &Selector) -> (r: String)
    ensures
        r@ == sp_sel_pred(selector@),
{
    match selector {
        Selector::ClassSelector { ident } => {
            let mut r = str_to_string("Class(\"");
            r.append(ident.as_str());
            r.append("\")");
            r
        },
        Selector::IdSelector { ident } => {
            let mut r = str_to_string("Attr(\"id\", \"");
            r.append(ident.as_str());
            r.append("\")");
            r
        },
    }
}

/// The combined predicate of a query. A wildcard element combined with a
/// selector compiles to the selector alone, not to `And(Any, ...)`.
pub fn generate_dom_query(query: &DomQuery) -> (r: String)
    ensures
        r@ == sp_query_pred(query@),
{
    let element_node = generate_predicate_from_elem(&query.element);
    match &query.selector {
        Some(selector) => {
            let selector_node = generate_predicate_from_selector(selector);
            match &query.element {
                Element::Empty => selector_node,
                Element::DOMElement(_) => {
                    let mut r = str_to_string("And(");
                    r.append(element_node.as_str());
                    r.append(", ");
                    r.append(selector_node.as_str());
                    r.append(")");
                    r
                },
            }
        },
        None => element_node,
    }
}

/// Disambiguates a sub-query into its generated shape.
pub fn generate_dom_sub_query(sub_query: &DomSubQuery) -> (r: MiscNode)
    requires
        wf_sub_v(sub_query@),
    ensures
        sub_query.is_parent ==> r == MiscNode::Parent,
        !sub_query.is_parent ==> (r matches MiscNode::Child { node } && node@ == sp_query_pred(
            sub_query@.query->0,
        )),
{
    if sub_query.is_parent {
        MiscNode::Parent
    } else {
        match &sub_query.query {
            Some(dom_query) => MiscNode::Child { node: generate_dom_query(dom_query) },
            None => unreached(),
        }
    }
}

/// Node-address resolution: emits the node set denoted by `dom_query` and
/// `dom_sub_query`, starting from the traversal root `node`.
pub fn generate_nodes(node: &str, dom_query: &DomQuery, dom_sub_query: &Option<DomSubQuery>) -> (r:
    String)
    requires
        match dom_sub_query {
            Some(sq) => wf_sub_v(sq@),
            None => true,
        },
    ensures
        r@ == sp_nodes(
            node@,
            dom_query@,
            match dom_sub_query {
                Some(sq) => Some(sq@),
                None => None,
            },
        ),
{
    let query = generate_dom_query(dom_query);
    match dom_sub_query {
        Some(dom_sub_query) => match generate_dom_sub_query(dom_sub_query) {
            MiscNode::Parent => {
                let mut r = str_to_string(node);
                r.append(".find(");
                r.append(query.as_str());
                r.append(").next().unwrap().parent()");
                r
            },
            MiscNode::Child { node: selector } => {
                let mut r = str_to_string(node);
                r.append(".find(Descendant(");
                r.append(query.as_str());
                r.append(", ");
                r.append(selector.as_str());
                r.append("))");
                r
            },
        },
        None => match (&dom_query.element, &dom_query.selector) {
            (Element::Empty, None) => str_to_string(node),
            _ => {
                let mut r = str_to_string(node);
                r.append(".find(");
                r.append(query.as_str());
                r.append(")");
                r
            },
        },
    }
}

/// Whether `name` is bound in the scope.
fn scope_contains(scope: &Vec<String>, name: &String) -> (r: bool)
    ensures
        r == scope.deep_view().contains(name@),
{
    let n = scope.len();
    let mut i: usize = 0;
    while i < n
        invariant
            n == scope@.len(),
            i <= n,
            forall|k: int| 0 <= k < i ==> scope.deep_view()[k] != name@,
        decreases n - i,
    {
        if str_eq(scope[i].as_str(), name.as_str()) {
            assert(scope.deep_view()[i as int] == name@);
            return true;
        }
        i += 1;
    }
    proof {
        assert forall|k: int| 0 <= k < scope.deep_view().len() implies scope.deep_view()[k]
            != name@ by {}
    }
    false
}

/// Emits one expression under the traversal root `node`. Fails exactly on an
/// identifier with no visible binding, naming the identifier.
pub fn visit_expression(expr: &Expression, node: &str, scope: &Vec<String>) -> (r: Result<
    String,
    GenerationError,
>)
    ensures
        r is Ok <==> resolves_expr(scope.deep_view(), expr@),
        r is Ok ==> r->Ok_0@ == out_expr(node@, expr@),
        r is Err ==> expr@ is Ident && r->Err_0.reason@ == "unresolved reference: "@
            + expr@->Ident_0,
{
    match expr {
        Expression::FromExpression { query, content } => {
            let q = generate_nodes(node, query, &None);
            let mut r = q.clone();
            r.append(".");
            match content {
                Content::GetTextContent => {
                    if str_eq(q.as_str(), node) {
                        r.append("text()");
                    } else {
                        r.append("next().unwrap().text()");
                    }
                },
                Content::Attr(ident) => {
                    r.append("attr(\"");
                    r.append(ident.as_str());
                    r.append("\").unwrap()");
                },
            }
            Ok(r)
        },
        Expression::Ident(ident) => {
            if scope_contains(scope, ident) {
                Ok(ident.clone())
            } else {
                let mut reason = str_to_string("unresolved reference: ");
                reason.append(ident.as_str());
                Err(GenerationError { reason })
            }
        },
        Expression::Str(s) => {
            let mut r = str_to_string("\"");
            r.append(s.as_str());
            r.append("\"");
            Ok(r)
        },
    }
}

fn visit_write_args(expressions: &Vec<Expression>, i: usize, node: &str, scope: &Vec<String>) -> (r:
    Result<String, GenerationError>)
    requires
        i <= expressions@.len(),
    ensures
        r is Ok <==> resolves_args(scope.deep_view(), expressions.deep_view(), i as int),
        r is Ok ==> r->Ok_0@ == out_args(node@, expressions.deep_view(), i as int),
    decreases expressions@.len() - i,
{
    let n = expressions.len();
    if i == n {
        Ok(String::new())
    } else {
        assert(expressions.deep_view()[i as int] == expressions@[i as int]@);
        let first = visit_expression(&expressions[i], node, scope)?;
        if i == n - 1 {
            assert(resolves_args(scope.deep_view(), expressions.deep_view(), i as int + 1));
            Ok(first)
        } else {
            let rest = visit_write_args(expressions, i + 1, node, scope)?;
            let mut r = first;
            r.append(",");
            r.append(rest.as_str());
            Ok(r)
        }
    }
}

/// Emits one statement under the traversal root `node`, extending the scope
/// with the binding of an assignment.
pub fn visit_statement(statement: &Statement, node: &str, scope: &mut Vec<String>) -> (r: Result<
    String,
    GenerationError,
>)
    requires
        wf_stmt_v(statement@),
    ensures
        r is Ok <==> resolves_stmt(old(scope).deep_view(), statement@),
        r is Ok ==> r->Ok_0@ == out_stmt(node@, statement@),
        r is Ok ==> final(scope).deep_view() == scope_after(old(scope).deep_view(), statement@),
        r is Err ==> final(scope)@ == old(scope)@,
        final(scope)@.len() >= old(scope)@.len(),
        final(scope)@.subrange(0, old(scope)@.len() as int) == old(scope)@,
    decreases *statement,
{
    proof {
        assert(old(scope)@.subrange(0, old(scope)@.len() as int) =~= old(scope)@);
    }
    match statement {
        Statement::InStatement { query, sub_query, statements } => {
            let nodes = generate_nodes(node, query, sub_query);
            let len0 = scope.len();
            let ghost scope0 = scope@;
            let body = visit_statements(statements, "node", scope);
            scope.truncate(len0);
            proof {
                assert(scope@ =~= scope0);
            }
            match body {
                Ok(statement_nodes) => {
                    let mut r = str_to_string("for node in ");
                    r.append(nodes.as_str());
                    r.append(" {\n\t");
                    r.append(statement_nodes.as_str());
                    r.append("\n}");
                    Ok(r)
                },
                Err(e) => Err(e),
            }
        },
        Statement::AssignmentStatement { ident, value } => {
            let value_node = visit_expression(value, node, scope)?;
            let mut r = str_to_string("let ");
            r.append(ident.as_str());
            r.append(" = ");
            r.append(value_node.as_str());
            r.append(";");
            let ghost scope0 = scope.deep_view();
            let ghost scope0v = scope@;
            scope.push(ident.clone());
            proof {
                assert(scope.deep_view() =~= scope0.push(ident@));
                assert(scope@.subrange(0, scope0v.len() as int) =~= scope0v);
            }
            Ok(r)
        },
        Statement::WriteStatement { expressions } => {
            let args = visit_write_args(expressions, 0, node, scope)?;
            let n = expressions.len();
            let mut r = str_to_string("println!(\"");
            let mut k: usize = 0;
            while k < n
                invariant
                    k <= n,
                    r@ == "println!(\""@ + sp_placeholder(k as int),
                decreases n - k,
            {
                r.append("{} ");
                k += 1;
            }
            r.append("\", ");
            r.append(args.as_str());
            r.append(");");
            Ok(r)
        },
    }
}

/// Emits the statements of one scope under the traversal root `node`,
/// newline-joined, threading the bindings left by earlier statements into
/// later ones.
pub fn visit_statements(statements: &Statements, node: &str, scope: &mut Vec<String>) -> (r: Result<
    String,
    GenerationError,
>)
    requires
        wf_stmts_v(stmts_v(statements@)),
    ensures
        r is Ok <==> resolves_stmts(old(scope).deep_view(), stmts_v(statements@), 0),
        r is Ok ==> r->Ok_0@ == out_stmts(node@, stmts_v(statements@), 0),
        r is Ok ==> final(scope).deep_view() == scope_after_stmts(
            old(scope).deep_view(),
            stmts_v(statements@),
            0,
        ),
        final(scope)@.len() >= old(scope)@.len(),
        final(scope)@.subrange(0, old(scope)@.len() as int) == old(scope)@,
    decreases statements@, statements@.len() + 1,
{
    visit_statements_from(statements, 0, node, scope)
}

fn visit_statements_from(
    statements: &Statements,
    i: usize,
    node: &str,
    scope: &mut Vec<String>,
) -> (r: Result<String, GenerationError>)
    requires
        i <= statements@.len(),
        wf_stmts_v(stmts_v(statements@)),
    ensures
        r is Ok <==> resolves_stmts(old(scope).deep_view(), stmts_v(statements@), i as int),
        r is Ok ==> r->Ok_0@ == out_stmts(node@, stmts_v(statements@), i as int),
        r is Ok ==> final(scope).deep_view() == scope_after_stmts(
            old(scope).deep_view(),
            stmts_v(statements@),
            i as int,
        ),
        final(scope)@.len() >= old(scope)@.len(),
        final(scope)@.subrange(0, old(scope)@.len() as int) == old(scope)@,
    decreases statements@, statements@.len() - i,
{
    let n = statements.len();
    proof {
        crate::ast::lemma_stmts_v(statements@);
        assert(old(scope)@.subrange(0, old(scope)@.len() as int) =~= old(scope)@);
    }
    if i == n {
        Ok(String::new())
    } else {
        proof {
            assert(wf_stmt_v(stmts_v(statements@)[i as int]));
            assert(stmts_v(statements@)[i as int] == stmt_v(statements@[i as int]));
        }
        let first = match visit_statement(&statements[i], node, scope) {
            Ok(s) => s,
            Err(e) => {
                return Err(e);
            },
        };
        if i == n - 1 {
            proof {
                let ghost ss = stmts_v(statements@);
                let ghost sc1 = scope_after(old(scope).deep_view(), ss[i as int]);
                assert(resolves_stmts(sc1, ss, i as int + 1));
                assert(scope_after_stmts(sc1, ss, i as int + 1) == sc1);
            }
            Ok(first)
        } else {
            let ghost mid = scope@;
            let rest = match visit_statements_from(statements, i + 1, node, scope) {
                Ok(s) => s,
                Err(e) => {
                    proof {
                        assert(forall|j: int|
                            0 <= j < old(scope)@.len() ==> scope@[j] == old(scope)@[j]);
                        assert(scope@.subrange(0, old(scope)@.len() as int) =~= old(scope)@);
                    }
                    return Err(e);
                },
            };
            proof {
                assert(forall|j: int| 0 <= j < old(scope)@.len() ==> scope@[j] == old(scope)@[j]);
                assert(scope@.subrange(0, old(scope)@.len() as int) =~= old(scope)@);
            }
            let mut r = first;
            r.append("\n");
            r.append(rest.as_str());
            Ok(r)
        }
    }
}

/// Emits the instruction block of one navigation block: each block starts
/// from the document root and an empty scope.
pub fn visit_nav_block(nav: &NavigateBlock) -> (r: Result<String, GenerationError>)
    requires
        wf_stmts_v(nav@.statements),
    ensures
        r is Ok <==> resolves_nav(nav@),
        r is Ok ==> r->Ok_0@ == out_nav(nav@),
{
    let mut scope: Vec<String> = Vec::new();
    proof {
        assert(scope.deep_view() =~= Seq::<Seq<char>>::empty());
    }
    let stmts = visit_statements(&nav.statements, "document", &mut scope)?;
    let mut r = str_to_string("let document = Document::from(include_str!(\"");
    r.append(nav.url.as_str());
    r.append("\"));\n");
    r.append(stmts.as_str());
    Ok(r)
}

fn execute_navs(navs: &Vec<NavigateBlock>, i: usize) -> (r: Result<String, GenerationError>)
    requires
        i <= navs@.len(),
        wf_program_v(ProgramV { navs: navs.deep_view() }),
    ensures
        r is Ok <==> resolves_navs(navs.deep_view(), i as int),
        r is Ok ==> r->Ok_0@ == out_navs(navs.deep_view(), i as int),
    decreases navs@.len() - i,
{
    let n = navs.len();
    if i == n {
        Ok(String::new())
    } else {
        proof {
            let ghost p = ProgramV { navs: navs.deep_view() };
            assert(wf_stmts_v(p.navs[i as int].statements));
            assert(navs.deep_view()[i as int] == navs@[i as int]@);
        }
        let first = visit_nav_block(&navs[i])?;
        if i == n - 1 {
            assert(resolves_navs(navs.deep_view(), i as int + 1));
            Ok(first)
        } else {
            let rest = execute_navs(navs, i + 1)?;
            let mut r = first;
            r.append("\n");
            r.append(rest.as_str());
            Ok(r)
        }
    }
}

// ---------------------------------------------------------------------------
// Laws of the generator
// ---------------------------------------------------------------------------

/// A generated program holds exactly one instruction block per navigation
/// block, in source order; the program text is their newline-join.
pub proof fn lemma_one_block_per_nav(p: ProgramV)
    ensures
        out_blocks(p).len() == p.navs.len(),
        forall|i: int| 0 <= i < p.navs.len() ==> out_blocks(p)[i] == out_nav(#[trigger] p.navs[i]),
        p.navs.len() == 1 ==> out_program(p) == out_blocks(p)[0],
        p.navs.len() > 1 ==> out_program(p) == out_blocks(p)[0] + "\n"@ + out_navs(p.navs, 1),
{
}

/// The whole pipeline succeeds on every valid script: text that is
/// grammatical and whose identifier references all resolve denotes a program
/// whose generated output holds exactly one instruction block per navigation
/// block, in source order, newline-joined. `Program::from_str` returns
/// exactly this program and `execute` exactly this output.
pub proof fn lemma_pipeline_succeeds(s: Seq<char>)
    requires
        crate::grammar::sp_p_program(s) is Some,
        resolves_program(crate::grammar::sp_p_program(s)->0),
    ensures
        out_blocks(crate::grammar::sp_p_program(s)->0).len() == crate::grammar::sp_p_program(
            s,
        )->0.navs.len(),
        forall|i: int|
            0 <= i < crate::grammar::sp_p_program(s)->0.navs.len() ==> out_blocks(
                crate::grammar::sp_p_program(s)->0,
            )[i] == out_nav(#[trigger] crate::grammar::sp_p_program(s)->0.navs[i]),
{
    lemma_one_block_per_nav(crate::grammar::sp_p_program(s)->0);
}

/// An assignment to a name followed by a write of that name resolves, under
/// any scope, as soon as the assigned expression does.
pub proof fn lemma_assignment_then_write_resolves(scope: Seq<Seq<char>>, x: Seq<char>, e: ExprV)
    requires
        resolves_expr(scope, e),
    ensures
        resolves_stmts(
            scope,
            seq![
                StmtV::Assign { ident: x, value: e },
                StmtV::Write { args: seq![ExprV::Ident(x)] },
            ],
            0,
        ),
{
    let args = seq![ExprV::Ident(x)];
    let ss = seq![StmtV::Assign { ident: x, value: e }, StmtV::Write { args: args }];
    let sc1 = scope.push(x);
    assert(sc1[scope.len() as int] == x);
    assert(sc1.contains(x));
    assert(args[0] == ExprV::Ident(x));
    assert(resolves_args(sc1, args, 1));
    assert(resolves_args(sc1, args, 0));
    assert(ss[0] == StmtV::Assign { ident: x, value: e });
    assert(ss[1] == StmtV::Write { args: args });
    assert(resolves_stmt(sc1, ss[1]));
    assert(resolves_stmts(sc1, ss, 2));
    assert(resolves_stmts(sc1, ss, 1));
    assert(scope_after(scope, ss[0]) == sc1);
    assert(resolves_stmt(scope, ss[0]));
    assert(resolves_stmts(scope, ss, 0));
}

/// A write of a name with no visible binding does not resolve.
pub proof fn lemma_unbound_write_fails(scope: Seq<Seq<char>>, x: Seq<char>)
    requires
        !scope.contains(x),
    ensures
        !resolves_stmt(scope, StmtV::Write { args: seq![ExprV::Ident(x)] }),
{
    let args = seq![ExprV::Ident(x)];
    assert(!resolves_expr(scope, args[0]));
    assert(!resolves_args(scope, args, 0));
}

/// Child composition: `in child(Y) of (X)` resolves the outer query first
/// and restricts to descendants satisfying the nested one.
pub proof fn lemma_child_composition(root: Seq<char>, q: QueryV, inner: QueryV)
    ensures
        sp_nodes(root, q, Some(SubV { is_parent: false, query: Some(inner) })) == root
            + ".find(Descendant("@ + sp_query_pred(q) + ", "@ + sp_query_pred(inner) + "))"@,
{
}

/// Parent form: `in parent of (X)` resolves to the immediate parent of the
/// first match of `X`.
pub proof fn lemma_parent_form(root: Seq<char>, q: QueryV)
    ensures
        sp_nodes(root, q, Some(SubV { is_parent: true, query: None })) == root + ".find("@
            + sp_query_pred(q) + ").next().unwrap().parent()"@,
{
}

/// A wildcard element combined with a selector compiles to the selector
/// alone, never to a conjunction with the any-element predicate.
pub proof fn lemma_wildcard_selector_elided(sel: SelV)
    ensures
        sp_query_pred(QueryV { element: ElemV::Any, selector: Some(sel) }) == sp_sel_pred(sel),
{
}

/// An empty scope body compiles to an empty instruction sequence and always
/// resolves, and an empty navigation block emits only its document header.
pub proof fn lemma_empty_block(root: Seq<char>, scope: Seq<Seq<char>>, url: Seq<char>)
    ensures
        out_stmts(root, Seq::empty(), 0) == Seq::<char>::empty(),
        resolves_stmts(scope, Seq::empty(), 0),
        out_nav(NavV { url: url, statements: Seq::empty() }) == "let document = Document::from(include_str!(\""@
            + url + "\"));\n"@,
        resolves_nav(NavV { url: url, statements: Seq::empty() }),
{
    assert(out_nav(NavV { url: url, statements: Seq::empty() })
        == "let document = Document::from(include_str!(\""@ + url + "\"));\n"@ + Seq::<
        char,
    >::empty());
    assert("let document = Document::from(include_str!(\""@ + url + "\"));\n"@ + Seq::<
        char,
    >::empty() =~= "let document = Document::from(include_str!(\""@ + url + "\"));\n"@);
}

/// An `in` statement narrows the traversal root: its node set is resolved
/// against the enclosing root, and its body is emitted under the bound node
/// and sees the enclosing scope.
pub proof fn lemma_in_narrows_root(
    root: Seq<char>,
    scope: Seq<Seq<char>>,
    sub: Option<SubV>,
    q: QueryV,
    body: Seq<StmtV>,
)
    ensures
        out_stmt(root, StmtV::In { sub, query: q, body }) == "for node in "@ + sp_nodes(
            root,
            q,
            sub,
        ) + " {\n\t"@ + out_stmts("node"@, body, 0) + "\n}"@,
        resolves_stmt(scope, StmtV::In { sub, query: q, body }) == resolves_stmts(scope, body, 0),
        scope_after(scope, StmtV::In { sub, query: q, body }) == scope,
{
}

/// Generates the whole program: one instruction block per navigation block,
/// in source order, newline-joined. Succeeds exactly when every identifier
/// reference in the program has a visible binding.
pub fn execute(ast: &Program) -> (r: Result<String, GenerationError>)
    requires
        wf_program_v(ast@),
    ensures
        r is Ok <==> resolves_program(ast@),
        r is Ok ==> r->Ok_0@ == out_program(ast@),
{
    proof {
        assert(ProgramV { navs: ast.navs.deep_view() } == ast@);
    }
    execute_navs(&ast.navs, 0)
}

} // verus!
