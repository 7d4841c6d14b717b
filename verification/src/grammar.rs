//! The grammar and the parser: a recursive-descent reading of the script
//! language, producing a concrete parse tree or a syntax error with the
//! 1-based line and column of the first unrecoverable mismatch.
//!
//! The grammar, in PEG style (whitespace between tokens is insignificant;
//! ordered choice; no comments):
//!
//! ```text
//! program              := navigate_block* end-of-input
//! navigate_block       := "navigateTo" "(" string ")" "{" statements "}"
//! statements           := (in_statement ";"? | assignment_statement ";" | write_statement ";")*
//! in_statement         := "in" [dom_sub_query] "(" dom_query ")" "{" statements "}"
//! dom_sub_query        := "parent" "of" | "child" "(" dom_query ")" "of"
//! dom_query            := element ["having" selector]
//! element              := ident                       (`_` is the wildcard)
//! selector             := ("class" | "id") "(" string ")"
//! expression           := from_expression | ident | string
//! from_expression      := "from" "(" dom_query ")" content_kind
//! content_kind         := "getTextContent" | "getAttribute" "(" string ")"
//! write_statement      := "write" "(" expression ("," expression)* ")"
//! assignment_statement := ident "=" expression
//! ident                := (letter | "_") (letter | digit | "_")*
//! string               := "'" ("''" | "\" any | any-but-"'")* "'"
//! ```
//!
//! A semicolon after the closing brace of an `in` statement is accepted and
//! ignored. Inside a string literal a quote is written doubled (`''`) or
//! escaped (`\'`); an escaped character stands for itself.
//!
//! The keywords `in` and `write` are recognized by lookahead: `in` always
//! opens an `in` statement, and `write` followed by `(` always opens a write
//! statement, unless the name is followed by `=`, which opens an assignment.

use vstd::prelude::*;

use crate::cst::{
    wf_cst_content, wf_cst_expr, wf_cst_exprs, wf_cst_nav, wf_cst_program, wf_cst_query,
    wf_cst_selector, wf_cst_stmt, wf_cst_stmts, CstContent, CstExpression, CstNav,
    CstProgram, CstQuery, CstSelector, CstStatement, CstSubQuery,
};
use crate::ast::{
    esc, esc_char, render_elem, render_query, render_sel, sb_content_kw, sb_element, sb_expr,
    sb_exprs, sb_nav, sb_navs, sb_program, sb_query, sb_selector_kw, sb_stmt, sb_stmts, sb_sub,
    ContentV, ElemV, ExprV, NavV, ProgramV, QueryV, SelV, StmtV, SubV,
};
use crate::error::ParseError;
use crate::text::{chars_of, push_char, str_eq, str_to_string, string_of_range};

verus! {

broadcast use vstd::seq::group_seq_axioms;

// ---------------------------------------------------------------------------
// Character classes
// ---------------------------------------------------------------------------

pub open spec fn is_ws(c: char) -> bool {
    c == ' ' || c == '\t' || c == '\n' || c == '\r'
}

pub open spec fn is_ident_start(c: char) -> bool {
    (97 <= c as u32 && c as u32 <= 122) || (65 <= c as u32 && c as u32 <= 90) || c == '_'
}

pub open spec fn is_ident_cont(c: char) -> bool {
    is_ident_start(c) || (48 <= c as u32 && c as u32 <= 57)
}

fn ws_char(c: char) -> (r: bool)
    ensures
        r == is_ws(c),
{
    c == ' ' || c == '\t' || c == '\n' || c == '\r'
}

fn ident_start_char(c: char) -> (r: bool)
    ensures
        r == is_ident_start(c),
{
    let u = c as u32;
    (97 <= u && u <= 122) || (65 <= u && u <= 90) || c == '_'
}

fn ident_cont_char(c: char) -> (r: bool)
    ensures
        r == is_ident_cont(c),
{
    let u = c as u32;
    ident_start_char(c) || (48 <= u && u <= 57)
}

// ---------------------------------------------------------------------------
// Leaf rules, as spec functions: the reference meaning of the lexical grammar
// ---------------------------------------------------------------------------

/// The position of the first non-whitespace character at or after `i`.
pub open spec fn sp_ws_end(s: Seq<char>, i: int) -> int
    decreases s.len() - i,
{
    if 0 <= i < s.len() && is_ws(s[i]) {
        sp_ws_end(s, i + 1)
    } else {
        i
    }
}

/// The position right after the identifier characters starting at `i`.
pub open spec fn sp_ident_end(s: Seq<char>, i: int) -> int
    decreases s.len() - i,
{
    if 0 <= i < s.len() && is_ident_cont(s[i]) {
        sp_ident_end(s, i + 1)
    } else {
        i
    }
}

/// An identifier at exactly `pos`: its text and the position after it.
pub open spec fn sp_ident(s: Seq<char>, pos: int) -> Option<(Seq<char>, int)> {
    if 0 <= pos < s.len() && is_ident_start(s[pos]) {
        Some((s.subrange(pos, sp_ident_end(s, pos + 1)), sp_ident_end(s, pos + 1)))
    } else {
        None
    }
}

/// The decoded body of a string literal from `i` (right after the opening
/// quote) to its closing quote: `''` and `\x` stand for `'` and `x`.
pub open spec fn sp_scan_str(s: Seq<char>, i: int) -> Option<(Seq<char>, int)>
    decreases s.len() - i,
{
    if i < 0 || i >= s.len() {
        None
    } else if s[i] == '\'' && i + 1 < s.len() && s[i + 1] == '\'' {
        match sp_scan_str(s, i + 2) {
            Some((c, e)) => Some((seq!['\''] + c, e)),
            None => None,
        }
    } else if s[i] == '\'' {
        Some((Seq::empty(), i + 1))
    } else if s[i] == '\\' && i + 1 < s.len() {
        match sp_scan_str(s, i + 2) {
            Some((c, e)) => Some((seq![s[i + 1]] + c, e)),
            None => None,
        }
    } else {
        match sp_scan_str(s, i + 1) {
            Some((c, e)) => Some((seq![s[i]] + c, e)),
            None => None,
        }
    }
}

/// A string literal after optional whitespace: its decoded content and the
/// position after the closing quote.
pub open spec fn sp_string(s: Seq<char>, pos: int) -> Option<(Seq<char>, int)> {
    let p = sp_ws_end(s, pos);
    if p < s.len() && s[p] == '\'' {
        sp_scan_str(s, p + 1)
    } else {
        None
    }
}

/// A selector after optional whitespace: its keyword (`class` or `id`), the
/// string argument, and the position after the closing parenthesis.
pub open spec fn sp_selector(s: Seq<char>, pos: int) -> Option<((Seq<char>, Seq<char>), int)> {
    let p = sp_ws_end(s, pos);
    match sp_ident(s, p) {
        None => None,
        Some((kw, p1)) => if kw == "class"@ || kw == "id"@ {
            let p2 = sp_ws_end(s, p1);
            if p2 < s.len() && s[p2] == '(' {
                match sp_string(s, p2 + 1) {
                    None => None,
                    Some((content, p3)) => {
                        let p4 = sp_ws_end(s, p3);
                        if p4 < s.len() && s[p4] == ')' {
                            Some(((kw, content), p4 + 1))
                        } else {
                            None
                        }
                    },
                }
            } else {
                None
            }
        } else {
            None
        },
    }
}

/// A query after optional whitespace: the element token, the optional
/// selector (keyword and argument), and the position after the query. When
/// no `having` follows the element, the query ends right after the element.
pub open spec fn sp_dom_query(s: Seq<char>, pos: int) -> Option<
    ((Seq<char>, Option<(Seq<char>, Seq<char>)>), int),
> {
    let p = sp_ws_end(s, pos);
    match sp_ident(s, p) {
        None => None,
        Some((elem, p1)) => {
            let p2 = sp_ws_end(s, p1);
            if p2 < s.len() && is_ident_start(s[p2]) {
                match sp_ident(s, p2) {
                    None => None,
                    Some((kw, p3)) => if kw == "having"@ {
                        match sp_selector(s, p3) {
                            None => None,
                            Some((sel, p4)) => Some(((elem, Some(sel)), p4)),
                        }
                    } else {
                        None
                    },
                }
            } else {
                Some(((elem, None), p1))
            }
        },
    }
}

// ---------------------------------------------------------------------------
// Executable leaf parsers, each equal to its spec mirror
// ---------------------------------------------------------------------------

fn skip_ws(s: &Vec<char>, pos: usize) -> (r: usize)
    requires
        pos <= s@.len(),
    ensures
        r as int == sp_ws_end(s@, pos as int),
        pos <= r <= s@.len(),
{
    let mut i = pos;
    while i < s.len() && ws_char(s[i])
        invariant
            pos <= i <= s@.len(),
            sp_ws_end(s@, pos as int) == sp_ws_end(s@, i as int),
        decreases s@.len() - i,
    {
        i += 1;
    }
    i
}

fn parse_ident_at(s: &Vec<char>, pos: usize) -> (r: Result<(String, usize), usize>)
    requires
        pos <= s@.len(),
    ensures
        r is Ok <==> sp_ident(s@, pos as int) is Some,
        r matches Ok((t, p)) ==> sp_ident(s@, pos as int) == Some((t@, p as int)) && pos < p
            <= s@.len(),
        r is Err ==> r->Err_0 == pos,
{
    if pos < s.len() && ident_start_char(s[pos]) {
        let mut i = pos + 1;
        while i < s.len() && ident_cont_char(s[i])
            invariant
                pos + 1 <= i <= s@.len(),
                sp_ident_end(s@, pos + 1 as int) == sp_ident_end(s@, i as int),
            decreases s@.len() - i,
        {
            i += 1;
        }
        let t = string_of_range(s, pos, i);
        Ok((t, i))
    } else {
        Err(pos)
    }
}

fn scan_string_body(s: &Vec<char>, start: usize) -> (r: Result<(String, usize), usize>)
    requires
        start <= s@.len(),
    ensures
        r is Ok <==> sp_scan_str(s@, start as int) is Some,
        r matches Ok((t, p)) ==> sp_scan_str(s@, start as int) == Some((t@, p as int)) && start < p
            <= s@.len(),
        r matches Err(ep) ==> ep <= s@.len(),
{
    let mut acc = String::new();
    let mut i = start;
    loop
        invariant
            start <= i <= s@.len(),
            sp_scan_str(s@, start as int) is Some <==> sp_scan_str(s@, i as int) is Some,
            sp_scan_str(s@, i as int) matches Some((c, e)) ==> sp_scan_str(s@, start as int)
                == Some((acc@ + c, e)),
        decreases s@.len() - i,
    {
        if i >= s.len() {
            return Err(i);
        }
        let c = s[i];
        if c == '\'' {
            if i + 1 < s.len() && s[i + 1] == '\'' {
                push_char(&mut acc, '\'');
                proof {
                    match sp_scan_str(s@, i + 2 as int) {
                        Some((c2, e2)) => {
                            assert(acc@ + (seq!['\''] + c2) =~= (acc@ + seq!['\'']) + c2);
                        },
                        None => {},
                    }
                }
                i += 2;
            } else {
                proof {
                    assert(acc@ + Seq::<char>::empty() =~= acc@);
                }
                return Ok((acc, i + 1));
            }
        } else if c == '\\' && i + 1 < s.len() {
            let d = s[i + 1];
            push_char(&mut acc, d);
            proof {
                match sp_scan_str(s@, i + 2 as int) {
                    Some((c2, e2)) => {
                        assert(acc@ + (seq![d] + c2) =~= (acc@ + seq![d]) + c2);
                    },
                    None => {},
                }
            }
            i += 2;
        } else {
            push_char(&mut acc, c);
            proof {
                match sp_scan_str(s@, i + 1 as int) {
                    Some((c2, e2)) => {
                        assert(acc@ + (seq![c] + c2) =~= (acc@ + seq![c]) + c2);
                    },
                    None => {},
                }
            }
            i += 1;
        }
    }
}

fn parse_string_at(s: &Vec<char>, pos: usize) -> (r: Result<(String, usize), usize>)
    requires
        pos <= s@.len(),
    ensures
        r is Ok <==> sp_string(s@, pos as int) is Some,
        r matches Ok((t, p)) ==> sp_string(s@, pos as int) == Some((t@, p as int)) && pos < p
            <= s@.len(),
        r matches Err(ep) ==> ep <= s@.len(),
{
    let p = skip_ws(s, pos);
    if p < s.len() && s[p] == '\'' {
        scan_string_body(s, p + 1)
    } else {
        Err(p)
    }
}

fn parse_selector_at(s: &Vec<char>, pos: usize) -> (r: Result<(CstSelector, usize), usize>)
    requires
        pos <= s@.len(),
    ensures
        r is Ok <==> sp_selector(s@, pos as int) is Some,
        r matches Ok((cs, p)) ==> sp_selector(s@, pos as int) == Some(((cs.keyword@, cs.ident@),
        p as int)) && pos < p <= s@.len() && wf_cst_selector(cs),
        r matches Err(ep) ==> ep <= s@.len(),
{
    let p = skip_ws(s, pos);
    let (kw, p1) = match parse_ident_at(s, p) {
        Ok(x) => x,
        Err(e) => {
            return Err(e);
        },
    };
    let is_class = str_eq(kw.as_str(), "class");
    let is_id = str_eq(kw.as_str(), "id");
    if !(is_class || is_id) {
        return Err(p);
    }
    let p2 = skip_ws(s, p1);
    if !(p2 < s.len() && s[p2] == '(') {
        return Err(p2);
    }
    let (content, p3) = match parse_string_at(s, p2 + 1) {
        Ok(x) => x,
        Err(e) => {
            return Err(e);
        },
    };
    let p4 = skip_ws(s, p3);
    if !(p4 < s.len() && s[p4] == ')') {
        return Err(p4);
    }
    Ok((CstSelector { keyword: kw, ident: content }, p4 + 1))
}

fn parse_dom_query_at(s: &Vec<char>, pos: usize) -> (r: Result<(CstQuery, usize), usize>)
    requires
        pos <= s@.len(),
    ensures
        r is Ok <==> sp_dom_query(s@, pos as int) is Some,
        r matches Ok((q, p)) ==> sp_dom_query(s@, pos as int) == Some(((q.element@, match q
            .selector {
            Some(cs) => Some((cs.keyword@, cs.ident@)),
            None => None,
        }), p as int)) && pos < p <= s@.len() && wf_cst_query(q),
        r matches Ok((q, p)) ==> sb_query(q) is Some && sp_p_query(s@, pos as int) == Some(
            (sb_query(q)->0, p as int),
        ),
        r is Err ==> sp_p_query(s@, pos as int) is None,
        r matches Err(ep) ==> ep <= s@.len(),
{
    let p = skip_ws(s, pos);
    let (elem, p1) = match parse_ident_at(s, p) {
        Ok(x) => x,
        Err(e) => {
            return Err(e);
        },
    };
    let p2 = skip_ws(s, p1);
    if p2 < s.len() && ident_start_char(s[p2]) {
        let (kw, p3) = match parse_ident_at(s, p2) {
            Ok(x) => x,
            Err(e) => {
                return Err(e);
            },
        };
        if !str_eq(kw.as_str(), "having") {
            return Err(p2);
        }
        let (sel, p4) = match parse_selector_at(s, p3) {
            Ok(x) => x,
            Err(e) => {
                return Err(e);
            },
        };
        Ok((CstQuery { element: elem, selector: Some(sel) }, p4))
    } else {
        Ok((CstQuery { element: elem, selector: None }, p1))
    }
}

// ---------------------------------------------------------------------------
// Composite rules, as spec functions. Each gives the rule's meaning directly
// at the model level: the typed value its text denotes, with keyword tokens
// already resolved, and the position after the rule. They are the reference
// the executable parser and the builder are proved against, together.
// ---------------------------------------------------------------------------

/// A query, with its tokens resolved.
pub open spec fn sp_p_query(s: Seq<char>, pos: int) -> Option<(QueryV, int)> {
    match sp_dom_query(s, pos) {
        None => None,
        Some(((elem, sel), p)) => match sel {
            None => Some((QueryV { element: sb_element(elem), selector: None }, p)),
            Some((kw, ident)) => match sb_selector_kw(kw, ident) {
                Some(sv) => Some((QueryV { element: sb_element(elem), selector: Some(sv) }, p)),
                None => None,
            },
        },
    }
}

/// A content accessor, with its keyword resolved.
pub open spec fn sp_p_content(s: Seq<char>, pos: int) -> Option<(ContentV, int)> {
    let p = sp_ws_end(s, pos);
    match sp_ident(s, p) {
        None => None,
        Some((kw, p1)) => if kw == "getTextContent"@ {
            Some((ContentV::Text, p1))
        } else if kw == "getAttribute"@ {
            let q = sp_ws_end(s, p1);
            if q < s.len() && s[q] == '(' {
                match sp_string(s, q + 1) {
                    None => None,
                    Some((a, p2)) => {
                        let p3 = sp_ws_end(s, p2);
                        if p3 < s.len() && s[p3] == ')' {
                            Some((ContentV::Attr(a), p3 + 1))
                        } else {
                            None
                        }
                    },
                }
            } else {
                None
            }
        } else {
            None
        },
    }
}

/// An expression: a string constant, a `from` extraction, or a name.
pub open spec fn sp_p_expression(s: Seq<char>, pos: int) -> Option<(ExprV, int)> {
    let p = sp_ws_end(s, pos);
    if p < s.len() && s[p] == '\'' {
        match sp_scan_str(s, p + 1) {
            None => None,
            Some((t, p1)) => Some((ExprV::Str(t), p1)),
        }
    } else {
        match sp_ident(s, p) {
            None => None,
            Some((kw, p1)) => if kw == "from"@ {
                let q = sp_ws_end(s, p1);
                if q < s.len() && s[q] == '(' {
                    match sp_p_query(s, q + 1) {
                        None => None,
                        Some((qv, p2)) => {
                            let p3 = sp_ws_end(s, p2);
                            if p3 < s.len() && s[p3] == ')' {
                                match sp_p_content(s, p3 + 1) {
                                    None => None,
                                    Some((cv, p4)) => Some(
                                        (ExprV::From { query: qv, content: cv }, p4),
                                    ),
                                }
                            } else {
                                None
                            }
                        },
                    }
                } else {
                    Some((ExprV::Ident(kw), p1))
                }
            } else {
                Some((ExprV::Ident(kw), p1))
            },
        }
    }
}

/// The comma-separated arguments of a write statement, up to and including
/// the closing parenthesis.
pub open spec fn sp_p_write_args(s: Seq<char>, pos: int) -> Option<(Seq<ExprV>, int)>
    decreases s.len() - pos,
{
    match sp_p_expression(s, pos) {
        None => None,
        Some((e, p1)) => {
            let p2 = sp_ws_end(s, p1);
            if p2 < s.len() && s[p2] == ',' {
                if p2 + 1 > pos {
                    match sp_p_write_args(s, p2 + 1) {
                        None => None,
                        Some((rest, p3)) => Some((seq![e] + rest, p3)),
                    }
                } else {
                    None
                }
            } else if p2 < s.len() && s[p2] == ')' {
                Some((seq![e], p2 + 1))
            } else {
                None
            }
        },
    }
}

/// The tail of an `in` statement: `"(" dom_query ")" "{" statements "}"`,
/// with `cur` at the opening parenthesis and `sub` the sub-query read so far.
pub open spec fn sp_p_in_tail(s: Seq<char>, pos: int, cur: int, sub: Option<SubV>) -> Option<
    (StmtV, int),
>
    decreases s.len() - pos, 0int,
{
    match sp_p_query(s, cur + 1) {
        None => None,
        Some((qv, p8)) => {
            let p9 = sp_ws_end(s, p8);
            if p9 < s.len() && s[p9] == ')' {
                let p10 = sp_ws_end(s, p9 + 1);
                if p10 < s.len() && s[p10] == '{' {
                    if p10 + 1 > pos {
                        match sp_p_statements(s, p10 + 1) {
                            None => None,
                            Some((body, p11)) => {
                                let p12 = sp_ws_end(s, p11);
                                if p12 < s.len() && s[p12] == '}' {
                                    Some((StmtV::In { sub, query: qv, body }, p12 + 1))
                                } else {
                                    None
                                }
                            },
                        }
                    } else {
                        None
                    }
                } else {
                    None
                }
            } else {
                None
            }
        },
    }
}

/// An `in` statement from right after its `in` keyword.
pub open spec fn sp_p_in_statement(s: Seq<char>, pos: int) -> Option<(StmtV, int)>
    decreases s.len() - pos, 1int,
{
    let q = sp_ws_end(s, pos);
    if q < s.len() && s[q] == '(' {
        sp_p_in_tail(s, pos, q, None)
    } else {
        match sp_ident(s, q) {
            None => None,
            Some((kw2, p2)) => if kw2 == "parent"@ {
                let p3 = sp_ws_end(s, p2);
                match sp_ident(s, p3) {
                    None => None,
                    Some((kw3, p4)) => if kw3 == "of"@ {
                        let cur = sp_ws_end(s, p4);
                        if cur < s.len() && s[cur] == '(' {
                            sp_p_in_tail(s, pos, cur, Some(SubV { is_parent: true, query: None }))
                        } else {
                            None
                        }
                    } else {
                        None
                    },
                }
            } else if kw2 == "child"@ {
                let p3 = sp_ws_end(s, p2);
                if p3 < s.len() && s[p3] == '(' {
                    match sp_p_query(s, p3 + 1) {
                        None => None,
                        Some((qq, p4)) => {
                            let p5 = sp_ws_end(s, p4);
                            if p5 < s.len() && s[p5] == ')' {
                                let p6 = sp_ws_end(s, p5 + 1);
                                match sp_ident(s, p6) {
                                    None => None,
                                    Some((kw3, p7)) => if kw3 == "of"@ {
                                        let cur = sp_ws_end(s, p7);
                                        if cur < s.len() && s[cur] == '(' {
                                            sp_p_in_tail(
                                                s,
                                                pos,
                                                cur,
                                                Some(SubV { is_parent: false, query: Some(qq) }),
                                            )
                                        } else {
                                            None
                                        }
                                    } else {
                                        None
                                    },
                                }
                            } else {
                                None
                            }
                        },
                    }
                } else {
                    None
                }
            } else {
                None
            },
        }
    }
}

/// A statement: assignment by lookahead on `=`, else `in` or `write`.
pub open spec fn sp_p_statement(s: Seq<char>, pos: int) -> Option<(StmtV, int)>
    decreases s.len() - pos, 2int,
{
    let p = sp_ws_end(s, pos);
    match sp_ident(s, p) {
        None => None,
        Some((kw, p1)) => {
            let q = sp_ws_end(s, p1);
            if q < s.len() && s[q] == '=' {
                match sp_p_expression(s, q + 1) {
                    None => None,
                    Some((ev, p2)) => Some((StmtV::Assign { ident: kw, value: ev }, p2)),
                }
            } else if kw == "in"@ {
                if p1 > pos && p1 <= s.len() {
                    sp_p_in_statement(s, p1)
                } else {
                    None
                }
            } else if kw == "write"@ && q < s.len() && s[q] == '(' {
                match sp_p_write_args(s, q + 1) {
                    None => None,
                    Some((args, p2)) => Some((StmtV::Write { args }, p2)),
                }
            } else {
                None
            }
        },
    }
}

/// A statement sequence, ending before `}` or at end of input. A semicolon
/// terminates every statement; after an `in` statement it is optional.
pub open spec fn sp_p_statements(s: Seq<char>, pos: int) -> Option<(Seq<StmtV>, int)>
    decreases s.len() - pos, 3int,
{
    let p = sp_ws_end(s, pos);
    if p >= s.len() || s[p] == '}' {
        Some((Seq::empty(), p))
    } else {
        match sp_p_statement(s, pos) {
            None => None,
            Some((st, p1)) => {
                let p2 = sp_ws_end(s, p1);
                if p2 < s.len() && s[p2] == ';' {
                    if p2 + 1 > pos {
                        match sp_p_statements(s, p2 + 1) {
                            None => None,
                            Some((rest, p3)) => Some((seq![st] + rest, p3)),
                        }
                    } else {
                        None
                    }
                } else if st is In {
                    if p1 > pos && p1 <= s.len() {
                        match sp_p_statements(s, p1) {
                            None => None,
                            Some((rest, p3)) => Some((seq![st] + rest, p3)),
                        }
                    } else {
                        None
                    }
                } else {
                    None
                }
            },
        }
    }
}

/// A navigation block.
pub open spec fn sp_p_nav(s: Seq<char>, pos: int) -> Option<(NavV, int)> {
    let p = sp_ws_end(s, pos);
    match sp_ident(s, p) {
        None => None,
        Some((kw, p1)) => if kw == "navigateTo"@ {
            let p2 = sp_ws_end(s, p1);
            if p2 < s.len() && s[p2] == '(' {
                match sp_string(s, p2 + 1) {
                    None => None,
                    Some((url, p3)) => {
                        let p4 = sp_ws_end(s, p3);
                        if p4 < s.len() && s[p4] == ')' {
                            let p5 = sp_ws_end(s, p4 + 1);
                            if p5 < s.len() && s[p5] == '{' {
                                match sp_p_statements(s, p5 + 1) {
                                    None => None,
                                    Some((body, p6)) => {
                                        let p7 = sp_ws_end(s, p6);
                                        if p7 < s.len() && s[p7] == '}' {
                                            Some((NavV { url, statements: body }, p7 + 1))
                                        } else {
                                            None
                                        }
                                    },
                                }
                            } else {
                                None
                            }
                        } else {
                            None
                        }
                    },
                }
            } else {
                None
            }
        } else {
            None
        },
    }
}

/// Zero or more navigation blocks, then end of input.
pub open spec fn sp_p_blocks(s: Seq<char>, pos: int) -> Option<Seq<NavV>>
    decreases s.len() - pos,
{
    let p = sp_ws_end(s, pos);
    if p >= s.len() {
        Some(Seq::empty())
    } else {
        match sp_p_nav(s, p) {
            None => None,
            Some((nv, p2)) => if p2 > pos && p2 <= s.len() {
                match sp_p_blocks(s, p2) {
                    None => None,
                    Some(rest) => Some(seq![nv] + rest),
                }
            } else {
                None
            },
        }
    }
}

/// The meaning of a whole script: the program model it denotes, or nothing
/// when the text is not grammatical.
pub open spec fn sp_p_program(s: Seq<char>) -> Option<ProgramV> {
    match sp_p_blocks(s, 0) {
        None => None,
        Some(ns) => Some(ProgramV { navs: ns }),
    }
}

// ---------------------------------------------------------------------------
// Executable composite rules. Each returns its parse-tree node and the
// position after it, or the position of the first mismatch; a produced node
// is always well-formed, and builds to exactly the model its spec mirror
// gives.
// ---------------------------------------------------------------------------

fn parse_content_at(s: &Vec<char>, pos: usize) -> (r: Result<(CstContent, usize), usize>)
    requires
        pos <= s@.len(),
    ensures
        r matches Ok((c, p)) ==> wf_cst_content(c) && pos < p <= s@.len(),
        r matches Ok((c, p)) ==> sb_content_kw(c.keyword@, match c.arg {
            Some(a) => Some(a@),
            None => None,
        }) is Some && sp_p_content(s@, pos as int) == Some(
            (
                sb_content_kw(c.keyword@, match c.arg {
                    Some(a) => Some(a@),
                    None => None,
                })->0,
                p as int,
            ),
        ),
        r is Err ==> sp_p_content(s@, pos as int) is None,
        r matches Err(ep) ==> ep <= s@.len(),
{
    let p = skip_ws(s, pos);
    let (kw, p1) = match parse_ident_at(s, p) {
        Ok(x) => x,
        Err(e) => {
            return Err(e);
        },
    };
    if str_eq(kw.as_str(), "getTextContent") {
        Ok((CstContent { keyword: kw, arg: None }, p1))
    } else if str_eq(kw.as_str(), "getAttribute") {
        let q = skip_ws(s, p1);
        if !(q < s.len() && s[q] == '(') {
            return Err(q);
        }
        let (a, p2) = match parse_string_at(s, q + 1) {
            Ok(x) => x,
            Err(e) => {
                return Err(e);
            },
        };
        let p3 = skip_ws(s, p2);
        if !(p3 < s.len() && s[p3] == ')') {
            return Err(p3);
        }
        Ok((CstContent { keyword: kw, arg: Some(a) }, p3 + 1))
    } else {
        Err(p)
    }
}

fn parse_expression_at(s: &Vec<char>, pos: usize) -> (r: Result<(CstExpression, usize), usize>)
    requires
        pos <= s@.len(),
    ensures
        r matches Ok((e, p)) ==> wf_cst_expr(e) && pos < p <= s@.len(),
        r matches Ok((e, p)) ==> sb_expr(e) is Some && sp_p_expression(s@, pos as int) == Some(
            (sb_expr(e)->0, p as int),
        ),
        r is Err ==> sp_p_expression(s@, pos as int) is None,
        r matches Err(ep) ==> ep <= s@.len(),
{
    let p = skip_ws(s, pos);
    if p < s.len() && s[p] == '\'' {
        let (t, p1) = match scan_string_body(s, p + 1) {
            Ok(x) => x,
            Err(e) => {
                return Err(e);
            },
        };
        return Ok((CstExpression::Str(t), p1));
    }
    let (kw, p1) = match parse_ident_at(s, p) {
        Ok(x) => x,
        Err(e) => {
            return Err(e);
        },
    };
    if str_eq(kw.as_str(), "from") {
        let q = skip_ws(s, p1);
        if q < s.len() && s[q] == '(' {
            let (query, p2) = match parse_dom_query_at(s, q + 1) {
                Ok(x) => x,
                Err(e) => {
                    return Err(e);
                },
            };
            let p3 = skip_ws(s, p2);
            if !(p3 < s.len() && s[p3] == ')') {
                return Err(p3);
            }
            let (content, p4) = match parse_content_at(s, p3 + 1) {
                Ok(x) => x,
                Err(e) => {
                    return Err(e);
                },
            };
            return Ok((CstExpression::From { query, content }, p4));
        }
        return Ok((CstExpression::Ident(kw), p1));
    }
    Ok((CstExpression::Ident(kw), p1))
}

fn parse_write_args_at(s: &Vec<char>, pos: usize) -> (r: Result<(Vec<CstExpression>, usize), usize>)
    requires
        pos <= s@.len(),
    ensures
        r matches Ok((es, p)) ==> wf_cst_exprs(es@) && es@.len() >= 1 && pos < p <= s@.len(),
        r matches Ok((es, p)) ==> sb_exprs(es@) is Some && sp_p_write_args(s@, pos as int) == Some(
            (sb_exprs(es@)->0, p as int),
        ),
        r is Err ==> sp_p_write_args(s@, pos as int) is None,
        r matches Err(ep) ==> ep <= s@.len(),
    decreases s@.len() - pos,
{
    let (e, p1) = match parse_expression_at(s, pos) {
        Ok(x) => x,
        Err(ep) => {
            return Err(ep);
        },
    };
    let p2 = skip_ws(s, p1);
    if p2 < s.len() && s[p2] == ',' {
        let (mut rest, p3) = match parse_write_args_at(s, p2 + 1) {
            Ok(x) => x,
            Err(ep) => {
                return Err(ep);
            },
        };
        let ghost prev = rest@;
        rest.insert(0, e);
        proof {
            assert(rest@[0] == e);
            assert(forall|k: int| 1 <= k < rest@.len() ==> rest@[k] == prev[k - 1]);
            assert forall|k: int| 0 <= k < rest@.len() implies wf_cst_expr(
                #[trigger] rest@[k],
            ) by {
                if k > 0 {
                    assert(wf_cst_expr(prev[k - 1]));
                }
            }
            assert(rest@.drop_first() =~= prev);
            assert(sb_exprs(rest@) is Some && sb_exprs(rest@)->0 =~= seq![sb_expr(e)->0]
                + sb_exprs(prev)->0);
        }
        Ok((rest, p3))
    } else if p2 < s.len() && s[p2] == ')' {
        let mut v: Vec<CstExpression> = Vec::new();
        v.push(e);
        proof {
            assert(v@ =~= seq![e]);
            assert(v@[0] == e);
            assert(v@.drop_first() =~= Seq::<CstExpression>::empty());
            assert(sb_exprs(v@.drop_first()) == Some(Seq::<ExprV>::empty()));
            assert(sb_exprs(v@) is Some);
            assert(sb_exprs(v@)->0 =~= seq![sb_expr(e)->0] + Seq::<ExprV>::empty());
            assert(sb_exprs(v@)->0 =~= seq![sb_expr(e)->0]);
        }
        Ok((v, p2 + 1))
    } else {
        Err(p2)
    }
}

proof fn lemma_ws_end_idem(s: Seq<char>, pos: int)
    ensures
        sp_ws_end(s, sp_ws_end(s, pos)) == sp_ws_end(s, pos),
    decreases s.len() - pos,
{
    if 0 <= pos < s.len() && is_ws(s[pos]) {
        lemma_ws_end_idem(s, pos + 1);
    }
}

proof fn lemma_ident_end_bounds(s: Seq<char>, i: int)
    requires
        0 <= i <= s.len(),
    ensures
        i <= sp_ident_end(s, i) <= s.len(),
    decreases s.len() - i,
{
    if i < s.len() && is_ident_cont(s[i]) {
        lemma_ident_end_bounds(s, i + 1);
    }
}

proof fn lemma_sp_statement_ws(s: Seq<char>, pos: int)
    requires
        0 <= pos <= s.len(),
    ensures
        sp_p_statement(s, sp_ws_end(s, pos)) == sp_p_statement(s, pos),
{
    lemma_ws_end_idem(s, pos);
    lemma_ws_end_bounds(s, pos);
    let w = sp_ws_end(s, pos);
    match sp_ident(s, w) {
        None => {},
        Some((kw, p1)) => {
            lemma_ident_end_bounds(s, w + 1);
            assert(p1 >= w + 1);
            assert(p1 > pos && p1 > w && p1 <= s.len());
        },
    }
}

fn parse_in_statement_at(s: &Vec<char>, pos: usize) -> (r: Result<(CstStatement, usize), usize>)
    requires
        pos <= s@.len(),
    ensures
        r matches Ok((st, p)) ==> wf_cst_stmt(st) && pos <= p <= s@.len(),
        r matches Ok((st, p)) ==> sb_stmt(st) is Some && sp_p_in_statement(s@, pos as int) == Some(
            (sb_stmt(st)->0, p as int),
        ),
        r is Err ==> sp_p_in_statement(s@, pos as int) is None,
        r matches Err(ep) ==> ep <= s@.len(),
    decreases s@.len() - pos, 0int,
{
    let q = skip_ws(s, pos);
    let mut sub: Option<CstSubQuery> = None;
    let mut cur: usize = q;
    if q < s.len() && s[q] == '(' {
        sub = None;
        cur = q;
    } else {
        let (kw2, p2) = match parse_ident_at(s, q) {
            Ok(x) => x,
            Err(ep) => {
                return Err(ep);
            },
        };
        if str_eq(kw2.as_str(), "parent") {
            let p3 = skip_ws(s, p2);
            let (kw3, p4) = match parse_ident_at(s, p3) {
                Ok(x) => x,
                Err(ep) => {
                    return Err(ep);
                },
            };
            if !str_eq(kw3.as_str(), "of") {
                return Err(p3);
            }
            sub = Some(CstSubQuery::Parent);
            cur = skip_ws(s, p4);
            if !(cur < s.len() && s[cur] == '(') {
                return Err(cur);
            }
        } else if str_eq(kw2.as_str(), "child") {
            let p3 = skip_ws(s, p2);
            if !(p3 < s.len() && s[p3] == '(') {
                return Err(p3);
            }
            let (qq, p4) = match parse_dom_query_at(s, p3 + 1) {
                Ok(x) => x,
                Err(ep) => {
                    return Err(ep);
                },
            };
            let p5 = skip_ws(s, p4);
            if !(p5 < s.len() && s[p5] == ')') {
                return Err(p5);
            }
            let p6 = skip_ws(s, p5 + 1);
            let (kw3, p7) = match parse_ident_at(s, p6) {
                Ok(x) => x,
                Err(ep) => {
                    return Err(ep);
                },
            };
            if !str_eq(kw3.as_str(), "of") {
                return Err(p6);
            }
            sub = Some(CstSubQuery::Child(qq));
            cur = skip_ws(s, p7);
            if !(cur < s.len() && s[cur] == '(') {
                return Err(cur);
            }
        } else {
            return Err(q);
        }
    }
    let (query, p8) = match parse_dom_query_at(s, cur + 1) {
        Ok(x) => x,
        Err(ep) => {
            return Err(ep);
        },
    };
    let p9 = skip_ws(s, p8);
    if !(p9 < s.len() && s[p9] == ')') {
        return Err(p9);
    }
    let p10 = skip_ws(s, p9 + 1);
    if !(p10 < s.len() && s[p10] == '{') {
        return Err(p10);
    }
    let (body, p11) = match parse_statements_at(s, p10 + 1) {
        Ok(x) => x,
        Err(ep) => {
            return Err(ep);
        },
    };
    let p12 = skip_ws(s, p11);
    if !(p12 < s.len() && s[p12] == '}') {
        return Err(p12);
    }
    Ok((CstStatement::In { sub, query, body }, p12 + 1))
}

fn parse_statement_at(s: &Vec<char>, pos: usize) -> (r: Result<(CstStatement, usize), usize>)
    requires
        pos <= s@.len(),
    ensures
        r matches Ok((st, p)) ==> wf_cst_stmt(st) && pos < p <= s@.len(),
        r matches Ok((st, p)) ==> sb_stmt(st) is Some && sp_p_statement(s@, pos as int) == Some(
            (sb_stmt(st)->0, p as int),
        ),
        r is Err ==> sp_p_statement(s@, pos as int) is None,
        r matches Err(ep) ==> ep <= s@.len(),
    decreases s@.len() - pos, 1int,
{
    let p = skip_ws(s, pos);
    let (kw, p1) = match parse_ident_at(s, p) {
        Ok(x) => x,
        Err(ep) => {
            return Err(ep);
        },
    };
    let q = skip_ws(s, p1);
    if q < s.len() && s[q] == '=' {
        let (value, p2) = match parse_expression_at(s, q + 1) {
            Ok(x) => x,
            Err(ep) => {
                return Err(ep);
            },
        };
        Ok((CstStatement::Assign { ident: kw, value }, p2))
    } else if str_eq(kw.as_str(), "in") {
        parse_in_statement_at(s, p1)
    } else if str_eq(kw.as_str(), "write") && q < s.len() && s[q] == '(' {
        let (args, p2) = match parse_write_args_at(s, q + 1) {
            Ok(x) => x,
            Err(ep) => {
                return Err(ep);
            },
        };
        Ok((CstStatement::Write { args }, p2))
    } else {
        Err(q)
    }
}

fn parse_statements_at(s: &Vec<char>, pos: usize) -> (r: Result<(Vec<CstStatement>, usize), usize>)
    requires
        pos <= s@.len(),
    ensures
        r matches Ok((ss, p)) ==> wf_cst_stmts(ss@) && pos <= p <= s@.len(),
        r matches Ok((ss, p)) ==> sb_stmts(ss@) is Some && sp_p_statements(s@, pos as int) == Some(
            (sb_stmts(ss@)->0, p as int),
        ),
        r is Err ==> sp_p_statements(s@, pos as int) is None,
        r matches Err(ep) ==> ep <= s@.len(),
    decreases s@.len() - pos, 2int,
{
    let p = skip_ws(s, pos);
    if p >= s.len() || s[p] == '}' {
        let v: Vec<CstStatement> = Vec::new();
        proof {
            assert(v@ =~= Seq::<CstStatement>::empty());
        }
        return Ok((v, p));
    }
    proof {
        lemma_sp_statement_ws(s@, pos as int);
    }
    let (st, p1) = match parse_statement_at(s, p) {
        Ok(x) => x,
        Err(ep) => {
            return Err(ep);
        },
    };
    let p2 = skip_ws(s, p1);
    let is_in = match &st {
        CstStatement::In { .. } => true,
        _ => false,
    };
    let after: usize;
    if p2 < s.len() && s[p2] == ';' {
        after = p2 + 1;
    } else if is_in {
        after = p1;
    } else {
        return Err(p2);
    }
    let (mut rest, p3) = match parse_statements_at(s, after) {
        Ok(x) => x,
        Err(ep) => {
            return Err(ep);
        },
    };
    let ghost prev = rest@;
    rest.insert(0, st);
    proof {
        assert(rest@[0] == st);
        assert(forall|k: int| 1 <= k < rest@.len() ==> rest@[k] == prev[k - 1]);
        assert forall|k: int| 0 <= k < rest@.len() implies wf_cst_stmt(#[trigger] rest@[k]) by {
            if k > 0 {
                assert(wf_cst_stmt(prev[k - 1]));
            }
        }
        assert(rest@.drop_first() =~= prev);
        assert(sb_stmts(rest@) is Some && sb_stmts(rest@)->0 =~= seq![sb_stmt(st)->0] + sb_stmts(
            prev,
        )->0);
    }
    Ok((rest, p3))
}

fn parse_nav_block_at(s: &Vec<char>, pos: usize) -> (r: Result<(CstNav, usize), usize>)
    requires
        pos <= s@.len(),
    ensures
        r matches Ok((nav, p)) ==> wf_cst_nav(nav) && pos < p <= s@.len(),
        r matches Ok((nav, p)) ==> sb_nav(nav) is Some && sp_p_nav(s@, pos as int) == Some(
            (sb_nav(nav)->0, p as int),
        ),
        r is Err ==> sp_p_nav(s@, pos as int) is None,
        r matches Err(ep) ==> ep <= s@.len(),
{
    let p = skip_ws(s, pos);
    let (kw, p1) = match parse_ident_at(s, p) {
        Ok(x) => x,
        Err(ep) => {
            return Err(ep);
        },
    };
    if !str_eq(kw.as_str(), "navigateTo") {
        return Err(p);
    }
    let p2 = skip_ws(s, p1);
    if !(p2 < s.len() && s[p2] == '(') {
        return Err(p2);
    }
    let (url, p3) = match parse_string_at(s, p2 + 1) {
        Ok(x) => x,
        Err(ep) => {
            return Err(ep);
        },
    };
    let p4 = skip_ws(s, p3);
    if !(p4 < s.len() && s[p4] == ')') {
        return Err(p4);
    }
    let p5 = skip_ws(s, p4 + 1);
    if !(p5 < s.len() && s[p5] == '{') {
        return Err(p5);
    }
    let (body, p6) = match parse_statements_at(s, p5 + 1) {
        Ok(x) => x,
        Err(ep) => {
            return Err(ep);
        },
    };
    let p7 = skip_ws(s, p6);
    if !(p7 < s.len() && s[p7] == '}') {
        return Err(p7);
    }
    Ok((CstNav { url, statements: body }, p7 + 1))
}

// ---------------------------------------------------------------------------
// Error positions as 1-based line and column
// ---------------------------------------------------------------------------

/// The 1-based line of the character position `pos`.
pub open spec fn sp_line(s: Seq<char>, pos: int) -> int
    decreases pos,
{
    if pos <= 0 {
        1
    } else if s[pos - 1] == '\n' {
        sp_line(s, pos - 1) + 1
    } else {
        sp_line(s, pos - 1)
    }
}

/// The 1-based column of the character position `pos`.
pub open spec fn sp_col(s: Seq<char>, pos: int) -> int
    decreases pos,
{
    if pos <= 0 {
        1
    } else if s[pos - 1] == '\n' {
        1
    } else {
        sp_col(s, pos - 1) + 1
    }
}

fn line_col(s: &Vec<char>, pos: usize) -> (r: (usize, usize))
    requires
        pos <= s@.len(),
        s@.len() < usize::MAX,
    ensures
        r.0 as int == sp_line(s@, pos as int),
        r.1 as int == sp_col(s@, pos as int),
{
    let mut line: usize = 1;
    let mut col: usize = 1;
    let mut i: usize = 0;
    while i < pos
        invariant
            i <= pos <= s@.len(),
            s@.len() < usize::MAX,
            line as int == sp_line(s@, i as int),
            col as int == sp_col(s@, i as int),
            line <= i + 1,
            col <= i + 1,
        decreases pos - i,
    {
        if s[i] == '\n' {
            line += 1;
            col = 1;
        } else {
            col += 1;
        }
        i += 1;
    }
    (line, col)
}

fn syntax_error(s: &Vec<char>, ep: usize) -> (r: ParseError)
    requires
        ep <= s@.len(),
        s@.len() < usize::MAX,
    ensures
        r.line as int == sp_line(s@, ep as int),
        r.col as int == sp_col(s@, ep as int),
        r.line >= 1 && r.col >= 1,
{
    let (line, col) = line_col(s, ep);
    proof {
        lemma_line_col_positive(s@, ep as int);
    }
    ParseError { reason: str_to_string("syntax error"), line, col }
}

proof fn lemma_line_col_positive(s: Seq<char>, pos: int)
    ensures
        sp_line(s, pos) >= 1,
        sp_col(s, pos) >= 1,
    decreases pos,
{
    if pos > 0 {
        lemma_line_col_positive(s, pos - 1);
    }
}

// ---------------------------------------------------------------------------
// The whole-program rule
// ---------------------------------------------------------------------------

fn parse_blocks_at(s: &Vec<char>, pos: usize) -> (r: Result<Vec<CstNav>, usize>)
    requires
        pos <= s@.len(),
    ensures
        r matches Ok(ns) ==> (forall|k: int|
            0 <= k < ns@.len() ==> wf_cst_nav(#[trigger] ns@[k])),
        r matches Ok(ns) ==> sb_navs(ns@) is Some && sp_p_blocks(s@, pos as int) == Some(
            sb_navs(ns@)->0,
        ),
        r is Err ==> sp_p_blocks(s@, pos as int) is None,
        r matches Err(ep) ==> ep <= s@.len(),
    decreases s@.len() - pos,
{
    let p = skip_ws(s, pos);
    if p >= s.len() {
        let v: Vec<CstNav> = Vec::new();
        proof {
            assert(v@ =~= Seq::<CstNav>::empty());
        }
        return Ok(v);
    }
    let (nav, p2) = match parse_nav_block_at(s, p) {
        Ok(x) => x,
        Err(ep) => {
            return Err(ep);
        },
    };
    let mut rest = match parse_blocks_at(s, p2) {
        Ok(x) => x,
        Err(ep) => {
            return Err(ep);
        },
    };
    let ghost prev = rest@;
    rest.insert(0, nav);
    proof {
        assert(rest@[0] == nav);
        assert(forall|k: int| 1 <= k < rest@.len() ==> rest@[k] == prev[k - 1]);
        assert forall|k: int| 0 <= k < rest@.len() implies wf_cst_nav(#[trigger] rest@[k]) by {
            if k > 0 {
                assert(wf_cst_nav(prev[k - 1]));
            }
        }
        assert(rest@.drop_first() =~= prev);
        assert(sb_navs(rest@) is Some && sb_navs(rest@)->0 =~= seq![sb_nav(nav)->0] + sb_navs(
            prev,
        )->0);
    }
    Ok(rest)
}

/// Parses a script into its concrete parse tree: zero or more navigation
/// blocks followed by end of input. The tree builds to exactly the program
/// model the text denotes; on a mismatch, the error carries the 1-based line
/// and column of the first unrecoverable mismatch.
pub fn parse(source: &str) -> (r: Result<CstProgram, ParseError>)
    requires
        source@.len() < usize::MAX,
    ensures
        r is Ok <==> sp_p_program(source@) is Some,
        r matches Ok(p) ==> wf_cst_program(p) && sb_program(p) is Some && sp_p_program(source@)
            == Some(sb_program(p)->0),
        r matches Err(e) ==> e.line >= 1 && e.col >= 1,
{
    let s = chars_of(source);
    match parse_blocks_at(&s, 0) {
        Ok(blocks) => Ok(CstProgram { blocks }),
        Err(ep) => Err(syntax_error(&s, ep)),
    }
}

// ---------------------------------------------------------------------------
// Single-rule entry points. Each parses its rule at the start of the input
// (after optional whitespace) and succeeds when the rule matches a prefix.
// ---------------------------------------------------------------------------

/// Parses one string literal at the start of the input.
pub fn parse_string(source: &str) -> (r: Result<String, ParseError>)
    requires
        source@.len() < usize::MAX,
    ensures
        r is Ok <==> sp_string(source@, 0) is Some,
        r matches Ok(t) ==> (sp_string(source@, 0) matches Some((c, _)) && t@ == c),
{
    let s = chars_of(source);
    match parse_string_at(&s, 0) {
        Ok((t, _)) => Ok(t),
        Err(ep) => Err(syntax_error(&s, ep)),
    }
}

/// Parses one identifier at the start of the input.
pub fn parse_ident(source: &str) -> (r: Result<String, ParseError>)
    requires
        source@.len() < usize::MAX,
    ensures
        r is Ok <==> sp_ident(source@, sp_ws_end(source@, 0)) is Some,
        r matches Ok(t) ==> (sp_ident(source@, sp_ws_end(source@, 0)) matches Some((c, _)) && t@
            == c),
{
    let s = chars_of(source);
    let p = skip_ws(&s, 0);
    match parse_ident_at(&s, p) {
        Ok((t, _)) => Ok(t),
        Err(ep) => Err(syntax_error(&s, ep)),
    }
}

/// Parses one query at the start of the input.
pub fn parse_dom_query(source: &str) -> (r: Result<CstQuery, ParseError>)
    requires
        source@.len() < usize::MAX,
    ensures
        r is Ok <==> sp_p_query(source@, 0) is Some,
        r matches Ok(q) ==> wf_cst_query(q) && sb_query(q) is Some && (sp_p_query(source@, 0)
            matches Some((m, _)) && sb_query(q)->0 == m),
{
    let s = chars_of(source);
    match parse_dom_query_at(&s, 0) {
        Ok((q, _)) => Ok(q),
        Err(ep) => Err(syntax_error(&s, ep)),
    }
}

/// Parses one expression at the start of the input.
pub fn parse_expression(source: &str) -> (r: Result<CstExpression, ParseError>)
    requires
        source@.len() < usize::MAX,
    ensures
        r is Ok <==> sp_p_expression(source@, 0) is Some,
        r matches Ok(e) ==> wf_cst_expr(e) && sb_expr(e) is Some && (sp_p_expression(source@, 0)
            matches Some((m, _)) && sb_expr(e)->0 == m),
{
    let s = chars_of(source);
    match parse_expression_at(&s, 0) {
        Ok((e, _)) => Ok(e),
        Err(ep) => Err(syntax_error(&s, ep)),
    }
}

/// Parses one `from` expression at the start of the input; a bare identifier
/// or string is not accepted here.
pub fn parse_from_expression(source: &str) -> (r: Result<CstExpression, ParseError>)
    requires
        source@.len() < usize::MAX,
    ensures
        r is Ok <==> (sp_p_expression(source@, 0) matches Some((m, _)) && m is From),
        r matches Ok(e) ==> wf_cst_expr(e) && e is From && sb_expr(e) is Some && (sp_p_expression(
            source@,
            0,
        ) matches Some((m, _)) && sb_expr(e)->0 == m),
{
    let s = chars_of(source);
    match parse_expression_at(&s, 0) {
        Ok((e, _)) => match e {
            CstExpression::From { query, content } => Ok(CstExpression::From { query, content }),
            _ => Err(syntax_error(&s, 0)),
        },
        Err(ep) => Err(syntax_error(&s, ep)),
    }
}

/// Parses one write statement at the start of the input.
pub fn parse_write_statement(source: &str) -> (r: Result<CstStatement, ParseError>)
    requires
        source@.len() < usize::MAX,
    ensures
        r is Ok <==> (sp_p_statement(source@, 0) matches Some((m, _)) && m is Write),
        r matches Ok(st) ==> wf_cst_stmt(st) && st is Write && sb_stmt(st) is Some && (
        sp_p_statement(source@, 0) matches Some((m, _)) && sb_stmt(st)->0 == m),
{
    let s = chars_of(source);
    match parse_statement_at(&s, 0) {
        Ok((st, _)) => match st {
            CstStatement::Write { args } => Ok(CstStatement::Write { args }),
            _ => Err(syntax_error(&s, 0)),
        },
        Err(ep) => Err(syntax_error(&s, ep)),
    }
}

/// Parses one assignment statement at the start of the input.
pub fn parse_assignment_statement(source: &str) -> (r: Result<CstStatement, ParseError>)
    requires
        source@.len() < usize::MAX,
    ensures
        r is Ok <==> (sp_p_statement(source@, 0) matches Some((m, _)) && m is Assign),
        r matches Ok(st) ==> wf_cst_stmt(st) && st is Assign && sb_stmt(st) is Some && (
        sp_p_statement(source@, 0) matches Some((m, _)) && sb_stmt(st)->0 == m),
{
    let s = chars_of(source);
    match parse_statement_at(&s, 0) {
        Ok((st, _)) => match st {
            CstStatement::Assign { ident, value } => Ok(CstStatement::Assign { ident, value }),
            _ => Err(syntax_error(&s, 0)),
        },
        Err(ep) => Err(syntax_error(&s, ep)),
    }
}

/// Parses one `in` statement at the start of the input.
pub fn parse_in_statement(source: &str) -> (r: Result<CstStatement, ParseError>)
    requires
        source@.len() < usize::MAX,
    ensures
        r is Ok <==> (sp_p_statement(source@, 0) matches Some((m, _)) && m is In),
        r matches Ok(st) ==> wf_cst_stmt(st) && st is In && sb_stmt(st) is Some && (sp_p_statement(
            source@,
            0,
        ) matches Some((m, _)) && sb_stmt(st)->0 == m),
{
    let s = chars_of(source);
    match parse_statement_at(&s, 0) {
        Ok((st, _)) => match st {
            CstStatement::In { sub, query, body } => Ok(CstStatement::In { sub, query, body }),
            _ => Err(syntax_error(&s, 0)),
        },
        Err(ep) => Err(syntax_error(&s, ep)),
    }
}

/// Parses a statement sequence at the start of the input (possibly empty).
pub fn parse_statements(source: &str) -> (r: Result<Vec<CstStatement>, ParseError>)
    requires
        source@.len() < usize::MAX,
    ensures
        r is Ok <==> sp_p_statements(source@, 0) is Some,
        r matches Ok(ss) ==> wf_cst_stmts(ss@) && sb_stmts(ss@) is Some && (sp_p_statements(
            source@,
            0,
        ) matches Some((m, _)) && sb_stmts(ss@)->0 == m),
{
    let s = chars_of(source);
    match parse_statements_at(&s, 0) {
        Ok((ss, _)) => Ok(ss),
        Err(ep) => Err(syntax_error(&s, ep)),
    }
}

// ---------------------------------------------------------------------------
// Round trip: the canonical rendering of a query re-parses to an equal query
// ---------------------------------------------------------------------------

/// An identifier-shaped token: what the `ident` rule can produce.
pub open spec fn ident_shaped(t: Seq<char>) -> bool {
    &&& 0 < t.len()
    &&& is_ident_start(t[0])
    &&& forall|i: int| 0 <= i < t.len() ==> is_ident_cont(#[trigger] t[i])
}

/// A query whose canonical rendering is grammatical: a tag must be an
/// identifier other than the wildcard token.
pub open spec fn renderable_query(q: QueryV) -> bool {
    match q.element {
        ElemV::Tag(t) => ident_shaped(t) && t != "_"@,
        ElemV::Any => true,
    }
}

proof fn lemma_ws_end_at(s: Seq<char>, i: int)
    requires
        i >= s.len() || !is_ws(s[i]),
    ensures
        sp_ws_end(s, i) == i,
{
}

proof fn lemma_ident_end_range(s: Seq<char>, from: int, to: int)
    requires
        0 <= from <= to <= s.len(),
        forall|k: int| from <= k < to ==> is_ident_cont(#[trigger] s[k]),
        to == s.len() || !is_ident_cont(s[to]),
    ensures
        sp_ident_end(s, from) == to,
    decreases to - from,
{
    if from < to {
        lemma_ident_end_range(s, from + 1, to);
    }
}

proof fn lemma_ident_at(s: Seq<char>, pos: int, t: Seq<char>)
    requires
        ident_shaped(t),
        0 <= pos,
        pos + t.len() <= s.len(),
        s.subrange(pos, pos + t.len()) == t,
        pos + t.len() == s.len() || !is_ident_cont(s[pos + t.len()]),
    ensures
        sp_ident(s, pos) == Some((t, pos + t.len())),
{
    assert(s[pos] == s.subrange(pos, pos + t.len())[0]);
    assert(s[pos] == t[0]);
    assert forall|k: int| pos + 1 <= k < pos + t.len() implies is_ident_cont(#[trigger] s[k]) by {
        assert(s[k] == s.subrange(pos, pos + t.len())[k - pos]);
        assert(s[k] == t[k - pos]);
        assert(is_ident_cont(t[k - pos]));
    }
    lemma_ident_end_range(s, pos + 1, pos + t.len());
}

proof fn lemma_scan_escaped(s: Seq<char>, i: int, content: Seq<char>, j: int)
    requires
        0 <= i <= j < s.len(),
        j - i == esc(content).len(),
        s.subrange(i, j) == esc(content),
        s[j] == '\'',
        j + 1 == s.len() || s[j + 1] != '\'',
    ensures
        sp_scan_str(s, i) == Some((content, j + 1)),
    decreases content.len(),
{
    let e = esc(content);
    if content.len() == 0 {
        assert(e.len() == 0);
        assert(j == i);
        assert(content =~= Seq::<char>::empty());
        assert(sp_scan_str(s, i) == Some((Seq::<char>::empty(), i + 1)));
    } else {
        let c0 = content[0];
        let rest = content.drop_first();
        let ec = esc_char(c0);
        assert(e == ec + esc(rest));
        assert(forall|k: int| 0 <= k < j - i ==> s[i + k] == #[trigger] e[k]);
        if c0 == '\'' {
            assert(ec == seq!['\'', '\'']);
            assert(s[i] == e[0] && s[i + 1] == e[1]);
            assert(s[i] == '\'' && s[i + 1] == '\'');
            assert forall|m: int| 0 <= m < j - (i + 2) implies s.subrange(i + 2, j)[m]
                == esc(rest)[m] by {
                assert(s[i + (m + 2)] == e[m + 2]);
                assert(e[m + 2] == esc(rest)[m]);
            }
            assert(s.subrange(i + 2, j) =~= esc(rest));
            lemma_scan_escaped(s, i + 2, rest, j);
            assert(seq!['\''] + rest =~= content);
        } else if c0 == '\\' {
            assert(ec == seq!['\\', '\\']);
            assert(s[i] == e[0] && s[i + 1] == e[1]);
            assert(s[i] == '\\' && s[i + 1] == '\\');
            assert forall|m: int| 0 <= m < j - (i + 2) implies s.subrange(i + 2, j)[m]
                == esc(rest)[m] by {
                assert(s[i + (m + 2)] == e[m + 2]);
                assert(e[m + 2] == esc(rest)[m]);
            }
            assert(s.subrange(i + 2, j) =~= esc(rest));
            lemma_scan_escaped(s, i + 2, rest, j);
            assert(seq![s[i + 1]] + rest =~= content);
        } else {
            assert(ec == seq![c0]);
            assert(s[i] == e[0]);
            assert(s[i] == c0);
            assert forall|m: int| 0 <= m < j - (i + 1) implies s.subrange(i + 1, j)[m]
                == esc(rest)[m] by {
                assert(s[i + (m + 1)] == e[m + 1]);
                assert(e[m + 1] == esc(rest)[m]);
            }
            assert(s.subrange(i + 1, j) =~= esc(rest));
            lemma_scan_escaped(s, i + 1, rest, j);
            assert(seq![s[i]] + rest =~= content);
        }
    }
}

proof fn lemma_ws_end_bounds(s: Seq<char>, i: int)
    requires
        0 <= i <= s.len(),
    ensures
        i <= sp_ws_end(s, i) <= s.len(),
    decreases s.len() - i,
{
    if i < s.len() && is_ws(s[i]) {
        lemma_ws_end_bounds(s, i + 1);
    }
}

proof fn lemma_keyword_shapes()
    ensures
        ident_shaped("class"@),
        ident_shaped("id"@),
        ident_shaped("having"@),
        ident_shaped("_"@),
        "class"@.len() == 5 && "id"@.len() == 2 && "having"@.len() == 6 && "_"@.len() == 1,
        "class"@[0] == 'c' && "id"@[0] == 'i' && "having"@[0] == 'h' && "_"@[0] == '_',
{
    reveal_strlit("class");
    reveal_strlit("id");
    reveal_strlit("having");
    reveal_strlit("_");
    assert forall|i: int| 0 <= i < "class"@.len() implies is_ident_cont(
        #[trigger] "class"@[i],
    ) by {
        if i == 0 {
            assert("class"@[0] == 'c');
        } else if i == 1 {
            assert("class"@[1] == 'l');
        } else if i == 2 {
            assert("class"@[2] == 'a');
        } else if i == 3 {
            assert("class"@[3] == 's');
        } else {
            assert("class"@[4] == 's');
        }
    }
    assert forall|i: int| 0 <= i < "id"@.len() implies is_ident_cont(#[trigger] "id"@[i]) by {
        if i == 0 {
            assert("id"@[0] == 'i');
        } else {
            assert("id"@[1] == 'd');
        }
    }
    assert forall|i: int| 0 <= i < "having"@.len() implies is_ident_cont(
        #[trigger] "having"@[i],
    ) by {
        if i == 0 {
            assert("having"@[0] == 'h');
        } else if i == 1 {
            assert("having"@[1] == 'a');
        } else if i == 2 {
            assert("having"@[2] == 'v');
        } else if i == 3 {
            assert("having"@[3] == 'i');
        } else if i == 4 {
            assert("having"@[4] == 'n');
        } else {
            assert("having"@[5] == 'g');
        }
    }
    assert(is_ident_cont("_"@[0]));
}

proof fn lemma_selector_literals()
    ensures
        "class('"@ == "class"@ + "('"@,
        "id('"@ == "id"@ + "('"@,
        "('"@.len() == 2 && "('"@[0] == '(' && "('"@[1] == '\'',
        "')"@.len() == 2 && "')"@[0] == '\'' && "')"@[1] == ')',
        " having "@.len() == 8,
        " having "@[0] == ' ' && " having "@[7] == ' ',
        forall|k: int| 0 <= k < 6 ==> #[trigger] " having "@[k + 1] == "having"@[k],
{
    reveal_strlit("class('");
    reveal_strlit("id('");
    reveal_strlit("class");
    reveal_strlit("id");
    reveal_strlit("('");
    reveal_strlit("')");
    reveal_strlit(" having ");
    reveal_strlit("having");
    assert forall|k: int| 0 <= k < "class('"@.len() implies #[trigger] "class('"@[k] == ("class"@
        + "('"@)[k] by {
        if k == 0 {
            assert("class('"@[0] == 'c' && "class"@[0] == 'c');
        } else if k == 1 {
            assert("class('"@[1] == 'l' && "class"@[1] == 'l');
        } else if k == 2 {
            assert("class('"@[2] == 'a' && "class"@[2] == 'a');
        } else if k == 3 {
            assert("class('"@[3] == 's' && "class"@[3] == 's');
        } else if k == 4 {
            assert("class('"@[4] == 's' && "class"@[4] == 's');
        } else if k == 5 {
            assert("class('"@[5] == '(' && "('"@[0] == '(');
        } else {
            assert("class('"@[6] == '\'' && "('"@[1] == '\'');
        }
    }
    assert("class('"@ =~= "class"@ + "('"@);
    assert forall|k: int| 0 <= k < "id('"@.len() implies #[trigger] "id('"@[k] == ("id"@
        + "('"@)[k] by {
        if k == 0 {
            assert("id('"@[0] == 'i' && "id"@[0] == 'i');
        } else if k == 1 {
            assert("id('"@[1] == 'd' && "id"@[1] == 'd');
        } else if k == 2 {
            assert("id('"@[2] == '(' && "('"@[0] == '(');
        } else {
            assert("id('"@[3] == '\'' && "('"@[1] == '\'');
        }
    }
    assert("id('"@ =~= "id"@ + "('"@);
    assert forall|k: int| 0 <= k < 6 implies #[trigger] " having "@[k + 1] == "having"@[k] by {
        if k == 0 {
            assert(" having "@[1] == 'h' && "having"@[0] == 'h');
        } else if k == 1 {
            assert(" having "@[2] == 'a' && "having"@[1] == 'a');
        } else if k == 2 {
            assert(" having "@[3] == 'v' && "having"@[2] == 'v');
        } else if k == 3 {
            assert(" having "@[4] == 'i' && "having"@[3] == 'i');
        } else if k == 4 {
            assert(" having "@[5] == 'n' && "having"@[4] == 'n');
        } else {
            assert(" having "@[6] == 'g' && "having"@[5] == 'g');
        }
    }
}

proof fn lemma_selector_at(s: Seq<char>, pos: int, kw: Seq<char>, ident: Seq<char>)
    requires
        0 <= pos <= s.len(),
        kw == "class"@ || kw == "id"@,
        s.subrange(sp_ws_end(s, pos), s.len() as int) == kw + "('"@ + esc(ident)
            + "')"@,
    ensures
        sp_selector(s, pos) == Some(((kw, ident), s.len() as int)),
{
    lemma_keyword_shapes();
    lemma_selector_literals();
    lemma_ws_end_bounds(s, pos);
    let w = sp_ws_end(s, pos);
    let e = esc(ident);
    let t = kw + "('"@ + e + "')"@;
    let n = kw.len() as int;
    assert(s.len() - w == t.len());
    assert(t.len() == n + 4 + e.len());
    assert forall|m: int| 0 <= m < t.len() implies s[w + m] == #[trigger] t[m] by {
        assert(s.subrange(w, s.len() as int)[m] == s[w + m]);
    }
    // the keyword identifier
    assert forall|k: int| 0 <= k < n implies s.subrange(w, w + n)[k] == kw[k] by {
        assert(s[w + k] == t[k]);
        assert(t[k] == kw[k]);
    }
    assert(s.subrange(w, w + n) =~= kw);
    assert(s[w + n] == t[n] && t[n] == "('"@[0]);
    assert(!is_ident_cont('('));
    lemma_ident_at(s, w, kw);
    // the opening parenthesis and quote
    let p1 = w + n;
    assert(!is_ws('('));
    lemma_ws_end_at(s, p1);
    assert(s[p1 + 1] == t[n + 1] && t[n + 1] == "('"@[1]);
    assert(!is_ws('\''));
    lemma_ws_end_at(s, p1 + 1);
    // the escaped content and its closing quote
    let j = p1 + 2 + e.len();
    assert forall|m: int| 0 <= m < e.len() implies s.subrange(p1 + 2, j)[m] == e[m] by {
        assert(s[w + (n + 2 + m)] == t[n + 2 + m]);
        assert(t[n + 2 + m] == e[m]);
    }
    assert(s.subrange(p1 + 2, j) =~= e);
    assert(s[j] == t[n + 2 + e.len()] && t[n + 2 + e.len()] == "')"@[0]);
    assert(s[j + 1] == t[n + 3 + e.len()] && t[n + 3 + e.len()] == "')"@[1]);
    lemma_scan_escaped(s, p1 + 2, ident, j);
    // the closing parenthesis
    assert(!is_ws(')'));
    lemma_ws_end_at(s, j + 1);
    assert(j + 2 == s.len());
}

/// Re-parsing the canonical rendering of a query yields an equal query, and
/// consumes the whole rendering.
pub proof fn lemma_query_roundtrip(q: QueryV)
    requires
        renderable_query(q),
    ensures
        sp_p_query(render_query(q), 0) == Some((q, render_query(q).len() as int)),
{
    lemma_keyword_shapes();
    lemma_selector_literals();
    let src = render_query(q);
    let et = render_elem(q.element);
    assert(ident_shaped(et));
    assert(sb_element(et) == q.element);
    assert(!is_ws(et[0])) by {
        assert(is_ident_start(et[0]));
    }
    match q.selector {
        None => {
            assert(src == et);
            lemma_ws_end_at(src, 0);
            assert(src.subrange(0, et.len() as int) =~= et);
            lemma_ident_at(src, 0, et);
            assert(sp_ws_end(src, et.len() as int) == et.len()) by {
                lemma_ws_end_at(src, et.len() as int);
            }
            assert(sp_dom_query(src, 0) == Some(((et, None::<(Seq<char>, Seq<char>)>), et.len() as int)));
        },
        Some(sel) => {
            let st = render_sel(sel);
            assert(src == et + " having "@ + st);
            let n = et.len() as int;
            assert forall|m: int| 0 <= m < src.len() implies src[m] == #[trigger] (et + " having "@
                + st)[m] by {}
            // the element identifier
            assert forall|k: int| 0 <= k < n implies src.subrange(0, n)[k] == et[k] by {
                assert(src[k] == et[k]);
            }
            assert(src.subrange(0, n) =~= et);
            lemma_ws_end_at(src, 0);
            assert(src[n] == " having "@[0]);
            assert(!is_ident_cont(' '));
            lemma_ident_at(src, 0, et);
            // one space, then the `having` keyword
            assert(is_ws(' '));
            assert(src[n + 1] == " having "@[1] && " having "@[1] == "having"@[0]);
            assert(!is_ws('h'));
            assert(sp_ws_end(src, n) == sp_ws_end(src, n + 1));
            lemma_ws_end_at(src, n + 1);
            assert(sp_ws_end(src, n) == n + 1);
            let p2 = n + 1;
            assert(is_ident_start(src[p2]));
            assert forall|k: int| 0 <= k < 6 implies src.subrange(p2, p2 + 6)[k]
                == "having"@[k] by {
                assert(src[p2 + k] == " having "@[k + 1]);
                assert(" having "@[k + 1] == "having"@[k]);
            }
            assert(src.subrange(p2, p2 + 6) =~= "having"@);
            assert(src[p2 + 6] == " having "@[7] && " having "@[7] == ' ');
            lemma_ident_at(src, p2, "having"@);
            let p3 = p2 + 6;
            // the selector tail
            assert(sp_ws_end(src, p3) == sp_ws_end(src, p3 + 1));
            match sel {
                SelV::Class(ident) => {
                    assert(st == "class('"@ + esc(ident) + "')"@);
                    assert(st == "class"@ + "('"@ + esc(ident) + "')"@) by {
                        assert("class('"@ + esc(ident) + "')"@ =~= ("class"@ + "('"@)
                            + esc(ident) + "')"@);
                    }
                    assert(src[p3 + 1] == st[0] && st[0] == "class"@[0]);
                    assert(!is_ws('c'));
                    lemma_ws_end_at(src, p3 + 1);
                    assert forall|m: int| 0 <= m < st.len() implies src.subrange(
                        p3 + 1,
                        src.len() as int,
                    )[m] == st[m] by {
                        assert(src[p3 + 1 + m] == st[m]);
                    }
                    assert(src.subrange(sp_ws_end(src, p3), src.len() as int) =~= st);
                    lemma_selector_at(src, p3, "class"@, ident);
                    assert(sb_selector_kw("class"@, ident) == Some(
                        SelV::Class(ident),
                    ));
                },
                SelV::Id(ident) => {
                    assert(st == "id('"@ + esc(ident) + "')"@);
                    assert(st == "id"@ + "('"@ + esc(ident) + "')"@) by {
                        assert("id('"@ + esc(ident) + "')"@ =~= ("id"@ + "('"@)
                            + esc(ident) + "')"@);
                    }
                    assert(src[p3 + 1] == st[0] && st[0] == "id"@[0]);
                    assert(!is_ws('i'));
                    lemma_ws_end_at(src, p3 + 1);
                    assert forall|m: int| 0 <= m < st.len() implies src.subrange(
                        p3 + 1,
                        src.len() as int,
                    )[m] == st[m] by {
                        assert(src[p3 + 1 + m] == st[m]);
                    }
                    assert(src.subrange(sp_ws_end(src, p3), src.len() as int) =~= st);
                    lemma_selector_at(src, p3, "id"@, ident);
                    assert(sb_selector_kw("id"@, ident) == Some(
                        SelV::Id(ident),
                    ));
                },
            }
            assert(sp_dom_query(src, 0) matches Some(((elem, selraw), p)) && elem == et && p
                == src.len());
        },
    }
}

/// Parses one navigation block at the start of the input.
pub fn parse_navigate_block(source: &str) -> (r: Result<CstNav, ParseError>)
    requires
        source@.len() < usize::MAX,
    ensures
        r is Ok <==> sp_p_nav(source@, 0) is Some,
        r matches Ok(nav) ==> wf_cst_nav(nav) && sb_nav(nav) is Some && (sp_p_nav(source@, 0)
            matches Some((m, _)) && sb_nav(nav)->0 == m),
{
    let s = chars_of(source);
    match parse_nav_block_at(&s, 0) {
        Ok((nav, _)) => Ok(nav),
        Err(ep) => Err(syntax_error(&s, ep)),
    }
}

} // verus!
