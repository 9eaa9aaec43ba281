//! Backtracking recursive-descent parsing.
//!
//! Each grammar rule tries its productions in a fixed priority order.  A
//! rule that does not match restores the cursor to its entry position and
//! reports a soft failure, so the caller's next alternative sees the same
//! input; a construct that partially matched and cannot complete is a hard
//! parse error carrying the offending position.
//!
//! The grammar itself is written once, as the mutually recursive spec
//! functions `s_ident` through `s_statements`; every executable rule is
//! proved to return exactly what its spec rule says.  Termination of the
//! spec recursion is measured by the number of lexical items left, paired
//! with a fixed rank per rule; the `step_in` clamp keeps the measure
//! visibly well-founded at positions that in fact only move forward.

use crate::ast::{lemma_nodes_view, lemma_nodes_view_push, node_view, nodes_view, Node, NodeV};
use crate::cursor::VecCursor;
use crate::lexer::{Lexem, LexemKind, LexemKindV, LexemV};
use vstd::prelude::*;

verus! {

#[derive(Debug, PartialEq)]
pub enum ParseErrorKind {
    UnexpectedToken(LexemKind),
    UnexpectedEndOfInput,
}

/// The mathematical value of a parse-error kind.
pub ghost enum ParseErrorKindV {
    UnexpectedToken(LexemKindV),
    UnexpectedEndOfInput,
}

impl View for ParseErrorKind {
    type V = ParseErrorKindV;

    open spec fn view(&self) -> ParseErrorKindV {
        match self {
            ParseErrorKind::UnexpectedToken(k) => ParseErrorKindV::UnexpectedToken(k@),
            ParseErrorKind::UnexpectedEndOfInput => ParseErrorKindV::UnexpectedEndOfInput,
        }
    }
}

/// A structured parse error: the offending position and what was found
/// there.  Hard failures of the grammar all surface as one of these.
#[derive(Debug, PartialEq)]
pub struct ParseError {
    pub line: usize,
    pub column: usize,
    pub kind: ParseErrorKind,
}

pub ghost struct ParseErrorV {
    pub line: nat,
    pub column: nat,
    pub kind: ParseErrorKindV,
}

impl View for ParseError {
    type V = ParseErrorV;

    open spec fn view(&self) -> ParseErrorV {
        ParseErrorV { line: self.line as nat, column: self.column as nat, kind: self.kind@ }
    }
}

/// The outcome of one grammar rule: no match (with the position restored),
/// a node together with the position after it, or a hard parse error.
pub ghost enum PStep {
    Fail,
    Match(NodeV, int),
    Error(ParseErrorV),
}

/// The outcome of a rule producing a list of nodes; such a rule never
/// fails softly.
pub ghost enum PList {
    Match(Seq<NodeV>, int),
    Error(ParseErrorV),
}

/// The outcome of one statement attempt: no further statement (with the
/// position after an optionally consumed semicolon), a statement, or a
/// hard parse error.
pub ghost enum PStmt {
    Stop(int),
    Match(NodeV, int),
    Error(ParseErrorV),
}

/// The lexical item kind at a position, if any.
pub open spec fn at_kind(lx: Seq<LexemV>, p: int) -> Option<LexemKindV> {
    if 0 <= p < lx.len() {
        Some(lx[p].kind)
    } else {
        None
    }
}

/// The parse error reported at a position: the unexpected item there, or
/// unexpected end of input located at the last item (line 1, column 1 for
/// empty input).
pub open spec fn err_at(lx: Seq<LexemV>, p: int) -> ParseErrorV {
    if 0 <= p < lx.len() {
        ParseErrorV {
            line: lx[p].line,
            column: lx[p].column,
            kind: ParseErrorKindV::UnexpectedToken(lx[p].kind),
        }
    } else if lx.len() > 0 {
        ParseErrorV {
            line: lx[lx.len() - 1].line,
            column: lx[lx.len() - 1].column,
            kind: ParseErrorKindV::UnexpectedEndOfInput,
        }
    } else {
        ParseErrorV { line: 1, column: 1, kind: ParseErrorKindV::UnexpectedEndOfInput }
    }
}

/// A sub-rule's end position, clamped into `(p, len]`.  Every matching rule
/// in fact ends strictly after the position it started at and inside the
/// input, so the clamping changes nothing where it is applied; it keeps the
/// recursion measure of the rules below visibly decreasing.
pub open spec fn step_in(p: int, p2: int, len: int) -> int {
    if p2 <= p {
        p + 1
    } else if p2 > len {
        len
    } else {
        p2
    }
}

/// A statement list that reduces to exactly one node is that bare node;
/// otherwise the list is wrapped as a program.
pub open spec fn collapse(stmts: Seq<NodeV>) -> NodeV {
    if stmts.len() == 1 {
        stmts[0]
    } else {
        NodeV::Program(stmts)
    }
}

/// Rule `ident`: one identifier item.
pub open spec fn s_ident(lx: Seq<LexemV>, p: int) -> PStep {
    match at_kind(lx, p) {
        Some(LexemKindV::Ident(name)) => PStep::Match(NodeV::Ident(name), p + 1),
        _ => PStep::Fail,
    }
}

/// Rule `string`: one string-literal item.
pub open spec fn s_string(lx: Seq<LexemV>, p: int) -> PStep {
    match at_kind(lx, p) {
        Some(LexemKindV::StringLiteral(s)) => PStep::Match(NodeV::String(s), p + 1),
        _ => PStep::Fail,
    }
}

/// Rule `number`: one numeric-literal item.
pub open spec fn s_number(lx: Seq<LexemV>, p: int) -> PStep {
    match at_kind(lx, p) {
        Some(LexemKindV::Number(d)) => PStep::Match(NodeV::Number(d), p + 1),
        _ => PStep::Fail,
    }
}

/// Rule `call`: an identifier, `(`, a comma-separated argument list, and
/// `)`.  A missing identifier or `(` is a soft failure; a missing `)` after
/// the `(` has been consumed is a hard error.
pub open spec fn s_call(lx: Seq<LexemV>, p: int) -> PStep
    decreases lx.len() - p, 1int,
        when 0 <= p <= lx.len()
{
    if p >= lx.len() {
        PStep::Fail
    } else {
        match at_kind(lx, p) {
            Some(LexemKindV::Ident(name)) => {
                if at_kind(lx, p + 1) == Some(LexemKindV::LParen) {
                    match s_comma_list(lx, step_in(p, p + 2, lx.len() as int)) {
                        PList::Error(e) => PStep::Error(e),
                        PList::Match(args, p3) => {
                            if at_kind(lx, p3) == Some(LexemKindV::RParen) {
                                PStep::Match(
                                    NodeV::Call {
                                        callee: Box::new(NodeV::Ident(name)),
                                        arguments: args,
                                    },
                                    p3 + 1,
                                )
                            } else {
                                PStep::Error(err_at(lx, p3))
                            }
                        },
                    }
                } else {
                    PStep::Fail
                }
            },
            _ => PStep::Fail,
        }
    }
}

/// Rule `atom`: the first of call, identifier, string, number that matches.
pub open spec fn s_atom(lx: Seq<LexemV>, p: int) -> PStep
    decreases lx.len() - p, 2int,
        when 0 <= p <= lx.len()
{
    if p >= lx.len() {
        PStep::Fail
    } else {
        match s_call(lx, p) {
            PStep::Error(e) => PStep::Error(e),
            PStep::Match(n, p2) => PStep::Match(n, p2),
            PStep::Fail => match s_ident(lx, p) {
                PStep::Match(n, p2) => PStep::Match(n, p2),
                _ => match s_string(lx, p) {
                    PStep::Match(n, p2) => PStep::Match(n, p2),
                    _ => s_number(lx, p),
                },
            },
        }
    }
}

/// Rule `attr-resolve`: an atom, optionally followed by `.` and a chained
/// expression, right-associatively.  A `.` with nothing parseable after it
/// is a hard error.
pub open spec fn s_attr_resolve(lx: Seq<LexemV>, p: int) -> PStep
    decreases lx.len() - p, 3int,
        when 0 <= p <= lx.len()
{
    if p >= lx.len() {
        PStep::Fail
    } else {
        match s_atom(lx, p) {
            PStep::Error(e) => PStep::Error(e),
            PStep::Fail => PStep::Fail,
            PStep::Match(obj, p2) => {
                if at_kind(lx, p2) == Some(LexemKindV::Dot) {
                    match s_chained(lx, step_in(p, p2 + 1, lx.len() as int)) {
                        PStep::Match(attr, p3) => PStep::Match(
                            NodeV::AttributeResolve {
                                parent: Box::new(obj),
                                value: Box::new(attr),
                            },
                            p3,
                        ),
                        PStep::Fail => PStep::Error(err_at(lx, p2 + 1)),
                        PStep::Error(e) => PStep::Error(e),
                    }
                } else {
                    PStep::Match(obj, p2)
                }
            },
        }
    }
}

/// Rule `chained`: an attribute resolution, else a bare atom.
pub open spec fn s_chained(lx: Seq<LexemV>, p: int) -> PStep
    decreases lx.len() - p, 4int,
        when 0 <= p <= lx.len()
{
    if p >= lx.len() {
        PStep::Fail
    } else {
        match s_attr_resolve(lx, p) {
            PStep::Match(n, p2) => PStep::Match(n, p2),
            PStep::Error(e) => PStep::Error(e),
            PStep::Fail => s_atom(lx, p),
        }
    }
}

/// Rule `expr-level-1`: a chained value, optionally followed by `==` (two
/// equals items) and a recursive right-hand side.  A single `=` in
/// expression position is a hard error, as is `==` without a value on
/// either side.
pub open spec fn s_expr_level_1(lx: Seq<LexemV>, p: int) -> PStep
    decreases lx.len() - p, 5int,
        when 0 <= p <= lx.len()
{
    if p >= lx.len() {
        PStep::Fail
    } else {
        match s_chained(lx, p) {
            PStep::Error(e) => PStep::Error(e),
            cn => {
                let q = match cn {
                    PStep::Match(n, p2) => p2,
                    _ => p,
                };
                if at_kind(lx, q) == Some(LexemKindV::Equals) {
                    if at_kind(lx, q + 1) == Some(LexemKindV::Equals) {
                        match cn {
                            PStep::Match(l, p2) => {
                                match s_expr_level_1(lx, step_in(p, q + 2, lx.len() as int)) {
                                    PStep::Match(r, p3) => PStep::Match(
                                        NodeV::Equals(Box::new(l), Box::new(r)),
                                        p3,
                                    ),
                                    PStep::Fail => PStep::Error(err_at(lx, q + 2)),
                                    PStep::Error(e) => PStep::Error(e),
                                }
                            },
                            _ => PStep::Error(err_at(lx, p)),
                        }
                    } else {
                        PStep::Error(err_at(lx, q + 1))
                    }
                } else {
                    cn
                }
            },
        }
    }
}

/// Rule `expression`: an `expr-level-1`, optionally followed by `||` (two
/// or items), `+`, or `-`, with the right-hand side again an
/// `expr-level-1`.  A suffix without a value on either side is a hard
/// error; a single `|` leaves the bare left-hand value.
pub open spec fn s_expression(lx: Seq<LexemV>, p: int) -> PStep
    decreases lx.len() - p, 6int,
        when 0 <= p <= lx.len()
{
    if p >= lx.len() {
        PStep::Fail
    } else {
        match s_expr_level_1(lx, p) {
            PStep::Error(e) => PStep::Error(e),
            lhs => {
                let q = match lhs {
                    PStep::Match(n, p2) => p2,
                    _ => p,
                };
                if at_kind(lx, q) == Some(LexemKindV::Or) && at_kind(lx, q + 1) == Some(
                    LexemKindV::Or,
                ) {
                    match lhs {
                        PStep::Match(l, p2) => {
                            match s_expr_level_1(lx, step_in(p, q + 2, lx.len() as int)) {
                                PStep::Match(r, p3) => PStep::Match(
                                    NodeV::Or(Box::new(l), Box::new(r)),
                                    p3,
                                ),
                                PStep::Fail => PStep::Error(err_at(lx, q + 2)),
                                PStep::Error(e) => PStep::Error(e),
                            }
                        },
                        _ => PStep::Error(err_at(lx, q)),
                    }
                } else if at_kind(lx, q) == Some(LexemKindV::Plus) {
                    match lhs {
                        PStep::Match(l, p2) => {
                            match s_expr_level_1(lx, step_in(p, q + 1, lx.len() as int)) {
                                PStep::Match(r, p3) => PStep::Match(
                                    NodeV::Add(Box::new(l), Box::new(r)),
                                    p3,
                                ),
                                PStep::Fail => PStep::Error(err_at(lx, q + 1)),
                                PStep::Error(e) => PStep::Error(e),
                            }
                        },
                        _ => PStep::Error(err_at(lx, q)),
                    }
                } else if at_kind(lx, q) == Some(LexemKindV::Minus) {
                    match lhs {
                        PStep::Match(l, p2) => {
                            match s_expr_level_1(lx, step_in(p, q + 1, lx.len() as int)) {
                                PStep::Match(r, p3) => PStep::Match(
                                    NodeV::Subtract(Box::new(l), Box::new(r)),
                                    p3,
                                ),
                                PStep::Fail => PStep::Error(err_at(lx, q + 1)),
                                PStep::Error(e) => PStep::Error(e),
                            }
                        },
                        _ => PStep::Error(err_at(lx, q)),
                    }
                } else {
                    lhs
                }
            },
        }
    }
}

/// Rule `comma-list`: expressions separated by commas.  The list stops,
/// without error, at the first failed expression or missing comma, so a
/// trailing comma before a closer is tolerated.
pub open spec fn s_comma_list(lx: Seq<LexemV>, p: int) -> PList
    decreases lx.len() - p, 7int,
        when 0 <= p <= lx.len()
{
    if p >= lx.len() {
        PList::Match(Seq::<NodeV>::empty(), p)
    } else {
        match s_expression(lx, p) {
            PStep::Error(e) => PList::Error(e),
            PStep::Fail => PList::Match(Seq::<NodeV>::empty(), p),
            PStep::Match(v, p2) => {
                if at_kind(lx, p2) == Some(LexemKindV::Comma) {
                    match s_comma_list(lx, step_in(p, p2 + 1, lx.len() as int)) {
                        PList::Match(rest, p3) => PList::Match(seq![v] + rest, p3),
                        PList::Error(e) => PList::Error(e),
                    }
                } else {
                    PList::Match(seq![v], p2)
                }
            },
        }
    }
}

/// Rule `return`: the `return` keyword, an expression, and an optional
/// trailing semicolon.  A missing expression is a hard error.
pub open spec fn s_return(lx: Seq<LexemV>, p: int) -> PStep
    decreases lx.len() - p, 8int,
        when 0 <= p <= lx.len()
{
    if p >= lx.len() {
        PStep::Fail
    } else if at_kind(lx, p) == Some(LexemKindV::Ident("return"@)) {
        match s_expression(lx, p + 1) {
            PStep::Error(e) => PStep::Error(e),
            PStep::Fail => PStep::Error(err_at(lx, p + 1)),
            PStep::Match(v, p2) => {
                let p3 = if at_kind(lx, p2) == Some(LexemKindV::Semicolon) {
                    p2 + 1
                } else {
                    p2
                };
                PStep::Match(NodeV::Return(Box::new(v)), p3)
            },
        }
    } else {
        PStep::Fail
    }
}

/// Rule `declaration`: the `let` keyword, a name, an optional `=`, and an
/// expression, with an optional trailing semicolon.  When the `=` is
/// absent the position is restored to the `let` itself before the value is
/// parsed, as the grammar prescribes; a missing name or value is a hard
/// error.
pub open spec fn s_declaration(lx: Seq<LexemV>, p: int) -> PStep
    decreases lx.len() - p, 9int,
        when 0 <= p <= lx.len()
{
    if p >= lx.len() {
        PStep::Fail
    } else if at_kind(lx, p) == Some(LexemKindV::Ident("let"@)) {
        let q = match at_kind(lx, p + 1) {
            Some(LexemKindV::Ident(nm)) => p + 2,
            _ => p + 1,
        };
        let estart = if at_kind(lx, q) == Some(LexemKindV::Equals) {
            step_in(p, q + 1, lx.len() as int)
        } else {
            p
        };
        match s_expression(lx, estart) {
            PStep::Error(e) => PStep::Error(e),
            PStep::Fail => PStep::Error(err_at(lx, estart)),
            PStep::Match(v, p2) => {
                let p3 = if at_kind(lx, p2) == Some(LexemKindV::Semicolon) {
                    p2 + 1
                } else {
                    p2
                };
                match at_kind(lx, p + 1) {
                    Some(LexemKindV::Ident(nm)) => PStep::Match(
                        NodeV::Assignment { name: nm, value: Box::new(v) },
                        p3,
                    ),
                    _ => PStep::Error(err_at(lx, p + 1)),
                }
            },
        }
    } else {
        PStep::Fail
    }
}

/// Rule `if`: the `if` keyword, a condition expression, and a block.  The
/// alternative of the produced node is always an empty program: no `else`
/// is parsed.  A missing condition or block is a hard error.
pub open spec fn s_if(lx: Seq<LexemV>, p: int) -> PStep
    decreases lx.len() - p, 10int,
        when 0 <= p <= lx.len()
{
    if p >= lx.len() {
        PStep::Fail
    } else if at_kind(lx, p) == Some(LexemKindV::Ident("if"@)) {
        match s_expression(lx, p + 1) {
            PStep::Error(e) => PStep::Error(e),
            PStep::Fail => PStep::Error(err_at(lx, p + 1)),
            PStep::Match(cond, p2) => {
                match s_block(lx, step_in(p, p2, lx.len() as int)) {
                    PStep::Match(b, p3) => PStep::Match(
                        NodeV::If {
                            condition: Box::new(cond),
                            alternative: Box::new(NodeV::Program(Seq::<NodeV>::empty())),
                            block: Box::new(b),
                        },
                        p3,
                    ),
                    PStep::Fail => PStep::Error(err_at(lx, p2)),
                    PStep::Error(e) => PStep::Error(e),
                }
            },
        }
    } else {
        PStep::Fail
    }
}

/// Rule `function`: the `func` keyword, a name, a parenthesized argument
/// list, and a block.  Once `func` has matched, anything missing is a hard
/// error.
pub open spec fn s_function(lx: Seq<LexemV>, p: int) -> PStep
    decreases lx.len() - p, 11int,
        when 0 <= p <= lx.len()
{
    if p >= lx.len() {
        PStep::Fail
    } else if at_kind(lx, p) == Some(LexemKindV::Ident("func"@)) {
        match at_kind(lx, p + 1) {
            Some(LexemKindV::Ident(nm)) => {
                if at_kind(lx, p + 2) == Some(LexemKindV::LParen) {
                    match s_comma_list(lx, step_in(p, p + 3, lx.len() as int)) {
                        PList::Error(e) => PStep::Error(e),
                        PList::Match(args, p4) => {
                            if at_kind(lx, p4) == Some(LexemKindV::RParen) {
                                match s_block(lx, step_in(p, p4 + 1, lx.len() as int)) {
                                    PStep::Match(b, p5) => PStep::Match(
                                        NodeV::Function {
                                            name: nm,
                                            arguments: args,
                                            code: Box::new(b),
                                        },
                                        p5,
                                    ),
                                    PStep::Fail => PStep::Error(err_at(lx, p4 + 1)),
                                    PStep::Error(e) => PStep::Error(e),
                                }
                            } else {
                                PStep::Error(err_at(lx, p4))
                            }
                        },
                    }
                } else {
                    PStep::Error(err_at(lx, p + 2))
                }
            },
            _ => PStep::Error(err_at(lx, p + 1)),
        }
    } else {
        PStep::Fail
    }
}

/// Rule `block`: `{`, a statement list, and `}`.  A missing `{` is a soft
/// failure; so is a missing `}` after the body, which restores the entry
/// position.  The body collapses to a bare node when it is a single
/// statement.
pub open spec fn s_block(lx: Seq<LexemV>, p: int) -> PStep
    decreases lx.len() - p, 12int,
        when 0 <= p <= lx.len()
{
    if p >= lx.len() {
        PStep::Fail
    } else if at_kind(lx, p) == Some(LexemKindV::LBrace) {
        match s_statements(lx, p + 1) {
            PList::Error(e) => PStep::Error(e),
            PList::Match(stmts, p2) => {
                if at_kind(lx, p2) == Some(LexemKindV::RBrace) {
                    PStep::Match(collapse(stmts), p2 + 1)
                } else {
                    PStep::Fail
                }
            },
        }
    } else {
        PStep::Fail
    }
}

/// Rule `statement`: the first of block, if, function, declaration,
/// return, expression that matches.  When none matches, a following `}`
/// means the end of a block, a `;` separates statements and the attempt
/// starts over after it, and any other leftover item is a hard error
/// reporting that item.
pub open spec fn s_statement(lx: Seq<LexemV>, p: int) -> PStmt
    decreases lx.len() - p, 13int,
        when 0 <= p <= lx.len()
{
    if p >= lx.len() {
        PStmt::Stop(p)
    } else {
        match s_block(lx, p) {
            PStep::Error(e) => PStmt::Error(e),
            PStep::Match(n, p2) => PStmt::Match(n, p2),
            PStep::Fail => match s_if(lx, p) {
                PStep::Error(e) => PStmt::Error(e),
                PStep::Match(n, p2) => PStmt::Match(n, p2),
                PStep::Fail => match s_function(lx, p) {
                    PStep::Error(e) => PStmt::Error(e),
                    PStep::Match(n, p2) => PStmt::Match(n, p2),
                    PStep::Fail => match s_declaration(lx, p) {
                        PStep::Error(e) => PStmt::Error(e),
                        PStep::Match(n, p2) => PStmt::Match(n, p2),
                        PStep::Fail => match s_return(lx, p) {
                            PStep::Error(e) => PStmt::Error(e),
                            PStep::Match(n, p2) => PStmt::Match(n, p2),
                            PStep::Fail => match s_expression(lx, p) {
                                PStep::Error(e) => PStmt::Error(e),
                                PStep::Match(n, p2) => PStmt::Match(n, p2),
                                PStep::Fail => {
                                    if at_kind(lx, p) == Some(LexemKindV::RBrace) {
                                        PStmt::Stop(p)
                                    } else if at_kind(lx, p) == Some(LexemKindV::Semicolon) {
                                        s_statement(lx, p + 1)
                                    } else {
                                        PStmt::Error(err_at(lx, p))
                                    }
                                },
                            },
                        },
                    },
                },
            },
        }
    }
}

/// Rule `program`: statements collected until the input is exhausted or a
/// statement attempt yields none.
pub open spec fn s_statements(lx: Seq<LexemV>, p: int) -> PList
    decreases lx.len() - p, 14int,
        when 0 <= p <= lx.len()
{
    if p >= lx.len() {
        PList::Match(Seq::<NodeV>::empty(), p)
    } else {
        match s_statement(lx, p) {
            PStmt::Error(e) => PList::Error(e),
            PStmt::Stop(p2) => PList::Match(Seq::<NodeV>::empty(), p2),
            PStmt::Match(n, p2) => {
                match s_statements(lx, step_in(p, p2, lx.len() as int)) {
                    PList::Match(rest, p3) => PList::Match(seq![n] + rest, p3),
                    PList::Error(e) => PList::Error(e),
                }
            },
        }
    }
}

/// The whole parse: the statement list from a position, collapsed to one
/// node, or the first hard error.
pub open spec fn s_parse(lx: Seq<LexemV>, p: int) -> Result<(NodeV, int), ParseErrorV> {
    match s_statements(lx, p) {
        PList::Error(e) => Err(e),
        PList::Match(stmts, p2) => Ok((collapse(stmts), p2)),
    }
}

/// What a leaf rule's result must be: exactly what its spec rule says, with
/// the position restored on a failed match.
pub open spec fn leaf_post(pre: Parser, post: Parser, r: Option<Node>, step: PStep) -> bool {
    &&& post.lexems() == pre.lexems()
    &&& post.wf()
    &&& match r {
        None => step is Fail && post.pos() == pre.pos(),
        Some(n) => step == PStep::Match(node_view(&n), post.pos()) && pre.pos() < post.pos()
            <= pre.lexems().len(),
    }
}

/// What a composite rule's result must be: exactly what its spec rule says.
pub open spec fn rule_post(
    pre: Parser,
    post: Parser,
    r: Result<Option<Node>, ParseError>,
    step: PStep,
) -> bool {
    &&& post.lexems() == pre.lexems()
    &&& post.wf()
    &&& match r {
        Ok(None) => step is Fail && post.pos() == pre.pos(),
        Ok(Some(n)) => step == PStep::Match(node_view(&n), post.pos()) && pre.pos() < post.pos()
            <= pre.lexems().len(),
        Err(e) => step matches PStep::Error(ev) && e@ == ev,
    }
}

/// What the comma-list rule's result must be.
pub open spec fn list_post(
    pre: Parser,
    post: Parser,
    r: Result<Vec<Node>, ParseError>,
    step: PList,
) -> bool {
    &&& post.lexems() == pre.lexems()
    &&& post.wf()
    &&& match r {
        Ok(v) => step == PList::Match(nodes_view(v@), post.pos()) && pre.pos() <= post.pos()
            <= pre.lexems().len(),
        Err(e) => step matches PList::Error(ev) && e@ == ev,
    }
}

/// What one statement attempt's result must be.
pub open spec fn stmt_post(
    pre: Parser,
    post: Parser,
    r: Result<Option<Node>, ParseError>,
    step: PStmt,
) -> bool {
    &&& post.lexems() == pre.lexems()
    &&& post.wf()
    &&& match r {
        Ok(None) => step == PStmt::Stop(post.pos()) && pre.pos() <= post.pos()
            <= pre.lexems().len(),
        Ok(Some(n)) => step == PStmt::Match(node_view(&n), post.pos()) && pre.pos() < post.pos()
            <= pre.lexems().len(),
        Err(e) => step matches PStmt::Error(ev) && e@ == ev,
    }
}

/// The parser: a cursor over the materialized lexical items, consumed with
/// backtracking by the grammar rules above.
pub struct Parser {
    input: VecCursor<Lexem>,
}

impl Parser {
    /// The fixed sequence of lexical items, by mathematical value.
    pub closed spec fn lexems(&self) -> Seq<LexemV> {
        self.input.items().map_values(|l: Lexem| l@)
    }

    /// The cursor position.
    pub closed spec fn pos(&self) -> int {
        self.input.pos()
    }

    pub open spec fn wf(&self) -> bool {
        0 <= self.pos() <= self.lexems().len()
    }

    pub fn new(input: Vec<Lexem>) -> (r: Self)
        ensures
            r.lexems() == input@.map_values(|l: Lexem| l@),
            r.pos() == 0,
            r.wf(),
    {
        Self { input: VecCursor::new(input) }
    }

    /// The parse error reported at position `p`, per `err_at`.  The cursor
    /// is left wherever the lookup put it: every hard error aborts the
    /// whole parse, so no caller reads the position afterwards.
    fn error_here(&mut self, p: usize) -> (e: ParseError)
        requires
            old(self).wf(),
        ensures
            final(self).lexems() == old(self).lexems(),
            final(self).wf(),
            e@ == err_at(old(self).lexems(), p as int),
    {
        self.input.set_position(p);
        match self.input.current() {
            Some(l) => ParseError {
                line: l.line(),
                column: l.column(),
                kind: ParseErrorKind::UnexpectedToken(l.token().clone()),
            },
            None => {
                let n = self.input.len();
                if n > 0 {
                    self.input.set_position(n - 1);
                    match self.input.current() {
                        Some(l) => ParseError {
                            line: l.line(),
                            column: l.column(),
                            kind: ParseErrorKind::UnexpectedEndOfInput,
                        },
                        None => ParseError {
                            line: 1,
                            column: 1,
                            kind: ParseErrorKind::UnexpectedEndOfInput,
                        },
                    }
                } else {
                    ParseError { line: 1, column: 1, kind: ParseErrorKind::UnexpectedEndOfInput }
                }
            },
        }
    }

    /// Consumes a trailing semicolon if one is there; anything else is left
    /// untouched.
    fn consume_semicolon(&mut self) -> (r: bool)
        requires
            old(self).wf(),
        ensures
            final(self).lexems() == old(self).lexems(),
            final(self).wf(),
            r == (at_kind(old(self).lexems(), old(self).pos()) == Some(LexemKindV::Semicolon)),
            final(self).pos() == if r {
                old(self).pos() + 1
            } else {
                old(self).pos()
            },
    {
        let semi = match self.input.current() {
            Some(l) => matches!(l.token(), LexemKind::Semicolon),
            None => false,
        };
        if semi {
            self.input.next();
        }
        semi
    }

    /// Rule `ident`: consumes one identifier item, and otherwise leaves the
    /// position where it was.
    pub fn parse_ident(&mut self) -> (r: Option<Node>)
        requires
            old(self).wf(),
        ensures
            leaf_post(
                *old(self),
                *final(self),
                r,
                s_ident(old(self).lexems(), old(self).pos()),
            ),
    {
        let name = match self.input.current() {
            Some(l) => match l.token() {
                LexemKind::Ident(s) => Some(s.clone()),
                _ => None,
            },
            None => None,
        };
        match name {
            Some(s) => {
                self.input.next();
                Some(Node::Ident(s))
            },
            None => None,
        }
    }

    /// Rule `string`: consumes one string-literal item, and otherwise
    /// leaves the position where it was.
    pub fn parse_string(&mut self) -> (r: Option<Node>)
        requires
            old(self).wf(),
        ensures
            leaf_post(
                *old(self),
                *final(self),
                r,
                s_string(old(self).lexems(), old(self).pos()),
            ),
    {
        let text = match self.input.current() {
            Some(l) => match l.token() {
                LexemKind::StringLiteral(s) => Some(s.clone()),
                _ => None,
            },
            None => None,
        };
        match text {
            Some(s) => {
                self.input.next();
                Some(Node::String(s))
            },
            None => None,
        }
    }

    /// Rule `number`: consumes one numeric-literal item, and otherwise
    /// leaves the position where it was.
    pub fn parse_number(&mut self) -> (r: Option<Node>)
        requires
            old(self).wf(),
        ensures
            leaf_post(
                *old(self),
                *final(self),
                r,
                s_number(old(self).lexems(), old(self).pos()),
            ),
    {
        let digits = match self.input.current() {
            Some(l) => match l.token() {
                LexemKind::Number(s) => Some(s.clone()),
                _ => None,
            },
            None => None,
        };
        match digits {
            Some(s) => {
                self.input.next();
                Some(Node::Number(s))
            },
            None => None,
        }
    }

    /// Rule `call`: an identifier, `(`, arguments, `)`.
    #[verifier::rlimit(100)]
    #[verifier::spinoff_prover]
    pub fn parse_call(&mut self) -> (r: Result<Option<Node>, ParseError>)
        requires
            old(self).wf(),
        ensures
            rule_post(*old(self), *final(self), r, s_call(old(self).lexems(), old(self).pos())),
        decreases self.lexems().len() - self.pos(), 1int,
    {
        if self.input.reached_end() {
            return Ok(None);
        }
        let initial_position = self.input.position();
        let name = match self.parse_ident() {
            Some(n) => n,
            None => {
                return Ok(None);
            },
        };
        let lp = match self.input.current() {
            Some(l) => matches!(l.token(), LexemKind::LParen),
            None => false,
        };
        if !lp {
            self.input.set_position(initial_position);
            return Ok(None);
        }
        self.input.next();
        let arguments = match self.parse_comma_separated() {
            Ok(v) => v,
            Err(e) => {
                return Err(e);
            },
        };
        let p3 = self.input.position();
        let rp = match self.input.current() {
            Some(l) => matches!(l.token(), LexemKind::RParen),
            None => false,
        };
        if !rp {
            return Err(self.error_here(p3));
        }
        self.input.next();
        Ok(Some(Node::Call { callee: Box::new(name), arguments }))
    }

    /// Rule `atom`: call, else identifier, else string, else number.
    #[verifier::spinoff_prover]
    pub fn parse_atom(&mut self) -> (r: Result<Option<Node>, ParseError>)
        requires
            old(self).wf(),
        ensures
            rule_post(*old(self), *final(self), r, s_atom(old(self).lexems(), old(self).pos())),
        decreases self.lexems().len() - self.pos(), 2int,
    {
        if self.input.reached_end() {
            return Ok(None);
        }
        match self.parse_call() {
            Err(e) => {
                return Err(e);
            },
            Ok(Some(call)) => {
                return Ok(Some(call));
            },
            Ok(None) => {},
        }
        if let Some(ident) = self.parse_ident() {
            return Ok(Some(ident));
        }
        if let Some(string) = self.parse_string() {
            return Ok(Some(string));
        }
        Ok(self.parse_number())
    }

    /// Rule `attr-resolve`: an atom, optionally `.` and a chained value.
    #[verifier::spinoff_prover]
    pub fn parse_attr_resolve(&mut self) -> (r: Result<Option<Node>, ParseError>)
        requires
            old(self).wf(),
        ensures
            rule_post(
                *old(self),
                *final(self),
                r,
                s_attr_resolve(old(self).lexems(), old(self).pos()),
            ),
        decreases self.lexems().len() - self.pos(), 3int,
    {
        let ghost lx = self.lexems();
        let n_items = self.input.len();
        proof {
            assert(lx.len() == n_items as int);
        }
        if self.input.reached_end() {
            return Ok(None);
        }
        let object = match self.parse_atom() {
            Err(e) => {
                return Err(e);
            },
            Ok(None) => {
                return Ok(None);
            },
            Ok(Some(n)) => n,
        };
        let p2 = self.input.position();
        let dot = match self.input.current() {
            Some(l) => matches!(l.token(), LexemKind::Dot),
            None => false,
        };
        if !dot {
            return Ok(Some(object));
        }
        self.input.next();
        match self.parse_chained() {
            Err(e) => Err(e),
            Ok(Some(attr)) => Ok(
                Some(Node::AttributeResolve { parent: Box::new(object), value: Box::new(attr) }),
            ),
            Ok(None) => Err(self.error_here(p2 + 1)),
        }
    }

    /// Rule `chained`: an attribute resolution, else a bare atom.
    #[verifier::spinoff_prover]
    pub fn parse_chained(&mut self) -> (r: Result<Option<Node>, ParseError>)
        requires
            old(self).wf(),
        ensures
            rule_post(
                *old(self),
                *final(self),
                r,
                s_chained(old(self).lexems(), old(self).pos()),
            ),
        decreases self.lexems().len() - self.pos(), 4int,
    {
        if self.input.reached_end() {
            return Ok(None);
        }
        match self.parse_attr_resolve() {
            Err(e) => Err(e),
            Ok(Some(res)) => Ok(Some(res)),
            Ok(None) => self.parse_atom(),
        }
    }

    /// Rule `expr-level-1`: a chained value, optionally `==` and a
    /// right-hand side.
    #[verifier::rlimit(100)]
    #[verifier::spinoff_prover]
    pub fn parse_expression_level_1(&mut self) -> (r: Result<Option<Node>, ParseError>)
        requires
            old(self).wf(),
        ensures
            rule_post(
                *old(self),
                *final(self),
                r,
                s_expr_level_1(old(self).lexems(), old(self).pos()),
            ),
        decreases self.lexems().len() - self.pos(), 5int,
    {
        if self.input.reached_end() {
            return Ok(None);
        }
        let ghost lx = self.lexems();
        let n_items = self.input.len();
        proof {
            assert(lx.len() == n_items as int);
        }
        let ghost p0 = self.pos();
        let pos0 = self.input.position();
        let current_node = match self.parse_chained() {
            Err(e) => {
                return Err(e);
            },
            Ok(c) => c,
        };
        let q = self.input.position();
        let eq1 = match self.input.current() {
            Some(l) => matches!(l.token(), LexemKind::Equals),
            None => false,
        };
        if !eq1 {
            return Ok(current_node);
        }
        proof {
            assert((q as int) < lx.len());
        }
        self.input.next();
        let eq2 = match self.input.current() {
            Some(l) => matches!(l.token(), LexemKind::Equals),
            None => false,
        };
        if !eq2 {
            // a single `=` in expression position is not a supported
            // expression
            return Err(self.error_here(q + 1));
        }
        proof {
            assert(((q + 1) as int) < lx.len());
        }
        self.input.next();
        let lhs = match current_node {
            Some(n) => n,
            None => {
                return Err(self.error_here(pos0));
            },
        };
        match self.parse_expression_level_1() {
            Err(e) => Err(e),
            Ok(Some(rhs)) => Ok(Some(Node::Equals(Box::new(lhs), Box::new(rhs)))),
            Ok(None) => Err(self.error_here(q + 2)),
        }
    }

    /// Rule `expression`: an `expr-level-1`, optionally `||`, `+`, or `-`
    /// and a right-hand side.
    #[verifier::rlimit(100)]
    #[verifier::spinoff_prover]
    pub fn parse_expression(&mut self) -> (r: Result<Option<Node>, ParseError>)
        requires
            old(self).wf(),
        ensures
            rule_post(
                *old(self),
                *final(self),
                r,
                s_expression(old(self).lexems(), old(self).pos()),
            ),
        decreases self.lexems().len() - self.pos(), 6int,
    {
        let ghost lx = self.lexems();
        let n_items = self.input.len();
        proof {
            assert(lx.len() == n_items as int);
        }
        let ghost p0 = self.pos();
        if self.input.reached_end() {
            return Ok(None);
        }
        let lhs = match self.parse_expression_level_1() {
            Err(e) => {
                return Err(e);
            },
            Ok(c) => c,
        };
        let q = self.input.position();
        let after_or = match self.input.current() {
            Some(l) => matches!(l.token(), LexemKind::Or),
            None => false,
        };
        let after_plus = match self.input.current() {
            Some(l) => matches!(l.token(), LexemKind::Plus),
            None => false,
        };
        let after_minus = match self.input.current() {
            Some(l) => matches!(l.token(), LexemKind::Minus),
            None => false,
        };
        if after_or {
            proof {
                assert((q as int) < lx.len());
            }
            self.input.next();
            let or2 = match self.input.current() {
                Some(l) => matches!(l.token(), LexemKind::Or),
                None => false,
            };
            if !or2 {
                self.input.set_position(q);
                return Ok(lhs);
            }
            proof {
                assert(((q + 1) as int) < lx.len());
            }
            self.input.next();
            let l_node = match lhs {
                Some(n) => n,
                None => {
                    return Err(self.error_here(q));
                },
            };
            match self.parse_expression_level_1() {
                Err(e) => Err(e),
                Ok(Some(rhs)) => Ok(Some(Node::Or(Box::new(l_node), Box::new(rhs)))),
                Ok(None) => Err(self.error_here(q + 2)),
            }
        } else if after_plus {
            proof {
                assert((q as int) < lx.len());
            }
            self.input.next();
            let l_node = match lhs {
                Some(n) => n,
                None => {
                    return Err(self.error_here(q));
                },
            };
            match self.parse_expression_level_1() {
                Err(e) => Err(e),
                Ok(Some(rhs)) => Ok(Some(Node::Add(Box::new(l_node), Box::new(rhs)))),
                Ok(None) => Err(self.error_here(q + 1)),
            }
        } else if after_minus {
            proof {
                assert((q as int) < lx.len());
            }
            self.input.next();
            let l_node = match lhs {
                Some(n) => n,
                None => {
                    return Err(self.error_here(q));
                },
            };
            match self.parse_expression_level_1() {
                Err(e) => Err(e),
                Ok(Some(rhs)) => Ok(Some(Node::Subtract(Box::new(l_node), Box::new(rhs)))),
                Ok(None) => Err(self.error_here(q + 1)),
            }
        } else {
            Ok(lhs)
        }
    }

    /// Rule `comma-list`: expressions separated by commas, stopping without
    /// error at the first failed expression or missing comma.
    #[verifier::rlimit(100)]
    #[verifier::spinoff_prover]
    pub fn parse_comma_separated(&mut self) -> (r: Result<Vec<Node>, ParseError>)
        requires
            old(self).wf(),
        ensures
            list_post(
                *old(self),
                *final(self),
                r,
                s_comma_list(old(self).lexems(), old(self).pos()),
            ),
        decreases self.lexems().len() - self.pos(), 7int,
    {
        let ghost lx = self.lexems();
        let n_items = self.input.len();
        proof {
            assert(lx.len() == n_items as int);
        }
        let ghost p0 = self.pos();
        let mut values: Vec<Node> = Vec::new();
        proof {
            match s_comma_list(lx, p0) {
                PList::Match(rest, pe) => {
                    assert(Seq::<NodeV>::empty() + rest =~= rest);
                },
                PList::Error(e) => {},
            }
        }
        loop
            invariant
                self.wf(),
                self.lexems() == lx,
                lx == old(self).lexems(),
                p0 == old(self).pos(),
                p0 <= self.pos() <= lx.len(),
                ({
                    match s_comma_list(lx, self.pos()) {
                        PList::Match(rest, pe) => s_comma_list(lx, p0) == PList::Match(
                            nodes_view(values@) + rest,
                            pe,
                        ),
                        PList::Error(e) => s_comma_list(lx, p0) == PList::Error(e),
                    }
                }),
            decreases lx.len() - self.pos(),
        {
            let ghost pi = self.pos();
            let ghost vs0 = values@;
            let value = match self.parse_expression() {
                Ok(v) => v,
                Err(e) => {
                    return Err(e);
                },
            };
            match value {
                None => {
                    proof {
                        match s_comma_list(lx, pi) {
                            PList::Match(rest, pe) => {
                                assert(nodes_view(values@) + rest =~= nodes_view(values@));
                            },
                            PList::Error(e) => {},
                        }
                    }
                    return Ok(values);
                },
                Some(val) => {
                    let ghost vv = node_view(&val);
                    values.push(val);
                    proof {
                        lemma_nodes_view_push(vs0, values@[values@.len() - 1]);
                    }
                    let got_comma = match self.input.current() {
                        Some(l) => matches!(l.token(), LexemKind::Comma),
                        None => false,
                    };
                    if !got_comma {
                        proof {
                            assert(nodes_view(vs0) + seq![vv] =~= nodes_view(values@));
                        }
                        return Ok(values);
                    }
                    self.input.next();
                    proof {
                        match s_comma_list(lx, self.pos()) {
                            PList::Match(rest, pe) => {
                                assert(nodes_view(vs0) + (seq![vv] + rest) =~= nodes_view(values@)
                                    + rest);
                            },
                            PList::Error(e) => {},
                        }
                    }
                },
            }
        }
    }

    /// Rule `return`: the keyword, an expression, and an optional `;`.
    #[verifier::rlimit(100)]
    #[verifier::spinoff_prover]
    pub fn parse_return(&mut self) -> (r: Result<Option<Node>, ParseError>)
        requires
            old(self).wf(),
        ensures
            rule_post(
                *old(self),
                *final(self),
                r,
                s_return(old(self).lexems(), old(self).pos()),
            ),
        decreases self.lexems().len() - self.pos(), 8int,
    {
        if self.input.reached_end() {
            return Ok(None);
        }
        let ghost lx = self.lexems();
        let n_items = self.input.len();
        proof {
            assert(lx.len() == n_items as int);
        }
        let pos0 = self.input.position();
        let is_return_token = match self.input.current() {
            Some(l) => l.is_ident_equals("return"),
            None => false,
        };
        if !is_return_token {
            return Ok(None);
        }
        proof {
            assert((pos0 as int) < lx.len());
        }
        self.input.next();
        let expression = match self.parse_expression() {
            Err(e) => {
                return Err(e);
            },
            Ok(x) => x,
        };
        match expression {
            None => Err(self.error_here(pos0 + 1)),
            Some(v) => {
                self.consume_semicolon();
                Ok(Some(Node::Return(Box::new(v))))
            },
        }
    }

    /// Rule `declaration`: `let`, a name, an optional `=`, a value
    /// expression, and an optional `;`.  When the `=` is absent the
    /// position is restored to the `let` itself before the value is
    /// parsed.
    #[verifier::rlimit(100)]
    #[verifier::spinoff_prover]
    pub fn parse_declaration(&mut self) -> (r: Result<Option<Node>, ParseError>)
        requires
            old(self).wf(),
        ensures
            rule_post(
                *old(self),
                *final(self),
                r,
                s_declaration(old(self).lexems(), old(self).pos()),
            ),
        decreases self.lexems().len() - self.pos(), 9int,
    {
        if self.input.reached_end() {
            return Ok(None);
        }
        let ghost lx = self.lexems();
        let n_items = self.input.len();
        proof {
            assert(lx.len() == n_items as int);
        }
        let pos0 = self.input.position();
        let is_let_token = match self.input.current() {
            Some(l) => l.is_ident_equals("let"),
            None => false,
        };
        if !is_let_token {
            return Ok(None);
        }
        proof {
            assert((pos0 as int) < lx.len());
            assert(at_kind(lx, pos0 as int) == Some(LexemKindV::Ident("let"@)));
        }
        self.input.next();
        let name = match self.input.current() {
            Some(l) => match l.token() {
                LexemKind::Ident(s) => Some(s.clone()),
                _ => None,
            },
            None => None,
        };
        if name.is_some() {
            self.input.next();
        }
        let q = self.input.position();
        proof {
            let qs = match at_kind(lx, pos0 as int + 1) {
                Some(LexemKindV::Ident(nm)) => pos0 as int + 2,
                _ => pos0 as int + 1,
            };
            assert(q as int == qs);
            assert(match name {
                Some(nm) => at_kind(lx, pos0 as int + 1) == Some(LexemKindV::Ident(nm@)),
                None => !(at_kind(lx, pos0 as int + 1) matches Some(LexemKindV::Ident(x))),
            });
        }
        let is_equal_sign = match self.input.current() {
            Some(l) => matches!(l.token(), LexemKind::Equals),
            None => false,
        };
        proof {
            assert(is_equal_sign == (at_kind(lx, q as int) == Some(LexemKindV::Equals)));
        }
        if is_equal_sign {
            proof {
                assert((q as int) < lx.len());
            }
            self.input.next();
        } else {
            self.input.set_position(pos0);
        }
        let ghost estart: int = if is_equal_sign {
            step_in(pos0 as int, q as int + 1, lx.len() as int)
        } else {
            pos0 as int
        };
        proof {
            assert(self.pos() == estart);
        }
        let expression = match self.parse_expression() {
            Err(e) => {
                return Err(e);
            },
            Ok(x) => x,
        };
        match expression {
            None => {
                let ep = if is_equal_sign {
                    q + 1
                } else {
                    pos0
                };
                proof {
                    assert(s_expression(lx, estart) is Fail);
                    assert(s_declaration(lx, pos0 as int) == PStep::Error(err_at(lx, ep as int)));
                }
                Err(self.error_here(ep))
            },
            Some(v) => {
                proof {
                    assert(s_expression(lx, estart) == PStep::Match(node_view(&v), self.pos()));
                }
                self.consume_semicolon();
                match name {
                    Some(nm) => Ok(Some(Node::Assignment { name: nm, value: Box::new(v) })),
                    None => Err(self.error_here(pos0 + 1)),
                }
            },
        }
    }

    /// Builds an `if` node: the alternative is always an empty program, as
    /// no `else` is parsed.
    fn make_if(condition: Node, block: Node) -> (r: Node)
        ensures
            node_view(&r) == (NodeV::If {
                condition: Box::new(node_view(&condition)),
                alternative: Box::new(NodeV::Program(Seq::<NodeV>::empty())),
                block: Box::new(node_view(&block)),
            }),
    {
        let vs: Vec<Node> = Vec::new();
        let alternative = Node::Program(vs);
        proof {
            assert(nodes_view(Seq::<Node>::empty()) =~= Seq::<NodeV>::empty());
            assert(node_view(&alternative) == NodeV::Program(Seq::<NodeV>::empty()));
        }
        Node::If {
            condition: Box::new(condition),
            alternative: Box::new(alternative),
            block: Box::new(block),
        }
    }

    /// Rule `if`: the keyword, a condition, and a block; the alternative is
    /// always an empty program, as no `else` is parsed.
    #[verifier::rlimit(100)]
    #[verifier::spinoff_prover]
    pub fn parse_if(&mut self) -> (r: Result<Option<Node>, ParseError>)
        requires
            old(self).wf(),
        ensures
            rule_post(*old(self), *final(self), r, s_if(old(self).lexems(), old(self).pos())),
        decreases self.lexems().len() - self.pos(), 10int,
    {
        if self.input.reached_end() {
            return Ok(None);
        }
        let ghost lx = self.lexems();
        let n_items = self.input.len();
        proof {
            assert(lx.len() == n_items as int);
        }
        let pos0 = self.input.position();
        let is_if_token = match self.input.current() {
            Some(l) => l.is_ident_equals("if"),
            None => false,
        };
        if !is_if_token {
            return Ok(None);
        }
        proof {
            assert((pos0 as int) < lx.len());
        }
        self.input.next();
        let condition = match self.parse_expression() {
            Err(e) => {
                return Err(e);
            },
            Ok(x) => x,
        };
        let cond = match condition {
            Some(c) => c,
            None => {
                return Err(self.error_here(pos0 + 1));
            },
        };
        let p2 = self.input.position();
        match self.parse_block() {
            Err(e) => Err(e),
            Ok(Some(b)) => Ok(Some(Self::make_if(cond, b))),
            Ok(None) => Err(self.error_here(p2)),
        }
    }

    /// Rule `function`: `func`, a name, a parenthesized argument list, and
    /// a block; anything missing after `func` is a hard error.
    #[verifier::rlimit(100)]
    #[verifier::spinoff_prover]
    pub fn parse_function(&mut self) -> (r: Result<Option<Node>, ParseError>)
        requires
            old(self).wf(),
        ensures
            rule_post(
                *old(self),
                *final(self),
                r,
                s_function(old(self).lexems(), old(self).pos()),
            ),
        decreases self.lexems().len() - self.pos(), 11int,
    {
        if self.input.reached_end() {
            return Ok(None);
        }
        let ghost lx = self.lexems();
        let n_items = self.input.len();
        proof {
            assert(lx.len() == n_items as int);
        }
        let pos0 = self.input.position();
        let is_func_token = match self.input.current() {
            Some(l) => l.is_ident_equals("func"),
            None => false,
        };
        if !is_func_token {
            return Ok(None);
        }
        proof {
            assert((pos0 as int) < lx.len());
            assert(at_kind(lx, pos0 as int) == Some(LexemKindV::Ident("func"@)));
        }
        self.input.next();
        let name = match self.input.current() {
            Some(l) => match l.token() {
                LexemKind::Ident(s) => Some(s.clone()),
                _ => None,
            },
            None => None,
        };
        let nm = match name {
            Some(s) => s,
            None => {
                proof {
                    assert(!(at_kind(lx, pos0 as int + 1) matches Some(LexemKindV::Ident(x))));
                    assert(s_function(lx, pos0 as int) == PStep::Error(
                        err_at(lx, pos0 as int + 1),
                    ));
                }
                return Err(self.error_here(pos0 + 1));
            },
        };
        proof {
            assert(at_kind(lx, pos0 as int + 1) == Some(LexemKindV::Ident(nm@)));
            assert(((pos0 + 1) as int) < lx.len());
        }
        self.input.next();
        let lp = match self.input.current() {
            Some(l) => matches!(l.token(), LexemKind::LParen),
            None => false,
        };
        if !lp {
            proof {
                assert(s_function(lx, pos0 as int) == PStep::Error(err_at(lx, pos0 as int + 2)));
            }
            return Err(self.error_here(pos0 + 2));
        }
        proof {
            assert(at_kind(lx, pos0 as int + 2) == Some(LexemKindV::LParen));
        }
        self.input.next();
        let arguments = match self.parse_comma_separated() {
            Ok(v) => v,
            Err(e) => {
                return Err(e);
            },
        };
        proof {
            assert(s_comma_list(lx, pos0 as int + 3) == PList::Match(
                nodes_view(arguments@),
                self.pos(),
            ));
        }
        let p4 = self.input.position();
        let rp = match self.input.current() {
            Some(l) => matches!(l.token(), LexemKind::RParen),
            None => false,
        };
        if !rp {
            proof {
                assert(s_function(lx, pos0 as int) == PStep::Error(err_at(lx, p4 as int)));
            }
            return Err(self.error_here(p4));
        }
        proof {
            assert(at_kind(lx, p4 as int) == Some(LexemKindV::RParen));
        }
        self.input.next();
        let p5 = self.input.position();
        match self.parse_block() {
            Err(e) => Err(e),
            Ok(Some(b)) => Ok(
                Some(Node::Function { name: nm, arguments, code: Box::new(b) }),
            ),
            Ok(None) => Err(self.error_here(p5)),
        }
    }

    /// Rule `block`: `{`, a statement list, and `}`.  A missing `{`, or a
    /// missing `}` after the body, is a soft failure restoring the entry
    /// position.
    #[verifier::rlimit(100)]
    #[verifier::spinoff_prover]
    pub fn parse_block(&mut self) -> (r: Result<Option<Node>, ParseError>)
        requires
            old(self).wf(),
        ensures
            rule_post(*old(self), *final(self), r, s_block(old(self).lexems(), old(self).pos())),
        decreases self.lexems().len() - self.pos(), 12int,
    {
        if self.input.reached_end() {
            return Ok(None);
        }
        let current_position = self.input.position();
        let lbrace = match self.input.current() {
            Some(l) => matches!(l.token(), LexemKind::LBrace),
            None => false,
        };
        if !lbrace {
            return Ok(None);
        }
        self.input.next();
        let value = match self.parse() {
            Ok(v) => v,
            Err(e) => {
                return Err(e);
            },
        };
        let rbrace = match self.input.current() {
            Some(l) => matches!(l.token(), LexemKind::RBrace),
            None => false,
        };
        if !rbrace {
            self.input.set_position(current_position);
            return Ok(None);
        }
        self.input.next();
        Ok(Some(value))
    }

    /// One statement attempt: block, if, function, declaration, return,
    /// expression, in that order; a following `}` means the end of a
    /// block, a `;` separates statements and the attempt starts over after
    /// it, and any other leftover item is a hard error.
    #[verifier::rlimit(100)]
    #[verifier::spinoff_prover]
    pub fn parse_once(&mut self) -> (r: Result<Option<Node>, ParseError>)
        requires
            old(self).wf(),
        ensures
            stmt_post(
                *old(self),
                *final(self),
                r,
                s_statement(old(self).lexems(), old(self).pos()),
            ),
        decreases self.lexems().len() - self.pos(), 13int,
    {
        let ghost lx = self.lexems();
        let ghost p0 = self.pos();
        loop
            invariant
                self.wf(),
                self.lexems() == lx,
                lx == old(self).lexems(),
                p0 == old(self).pos(),
                p0 <= self.pos() <= lx.len(),
                s_statement(lx, self.pos()) == s_statement(lx, p0),
            decreases lx.len() - self.pos(),
        {
            if self.input.reached_end() {
                return Ok(None);
            }
            match self.parse_block() {
                Err(e) => {
                    return Err(e);
                },
                Ok(Some(block)) => {
                    return Ok(Some(block));
                },
                Ok(None) => {},
            }
            match self.parse_if() {
                Err(e) => {
                    return Err(e);
                },
                Ok(Some(condition)) => {
                    return Ok(Some(condition));
                },
                Ok(None) => {},
            }
            match self.parse_function() {
                Err(e) => {
                    return Err(e);
                },
                Ok(Some(func)) => {
                    return Ok(Some(func));
                },
                Ok(None) => {},
            }
            match self.parse_declaration() {
                Err(e) => {
                    return Err(e);
                },
                Ok(Some(decl)) => {
                    return Ok(Some(decl));
                },
                Ok(None) => {},
            }
            match self.parse_return() {
                Err(e) => {
                    return Err(e);
                },
                Ok(Some(ret)) => {
                    return Ok(Some(ret));
                },
                Ok(None) => {},
            }
            match self.parse_expression() {
                Err(e) => {
                    return Err(e);
                },
                Ok(Some(expr)) => {
                    return Ok(Some(expr));
                },
                Ok(None) => {},
            }
            let block_exit = match self.input.current() {
                Some(l) => matches!(l.token(), LexemKind::RBrace),
                None => false,
            };
            if block_exit {
                return Ok(None);
            }
            if !self.consume_semicolon() {
                let p2 = self.input.position();
                return Err(self.error_here(p2));
            }
        }
    }

    /// The whole parse: statements collected until the input is exhausted
    /// or a statement attempt yields none; a single statement is returned
    /// bare, any other count wrapped as a program.
    #[verifier::spinoff_prover]
    pub fn parse(&mut self) -> (r: Result<Node, ParseError>)
        requires
            old(self).wf(),
        ensures
            final(self).lexems() == old(self).lexems(),
            final(self).wf(),
            match r {
                Ok(n) => s_parse(old(self).lexems(), old(self).pos()) == Ok::<
                    (NodeV, int),
                    ParseErrorV,
                >((node_view(&n), final(self).pos())) && old(self).pos() <= final(self).pos()
                    <= old(self).lexems().len(),
                Err(e) => s_parse(old(self).lexems(), old(self).pos()) matches Err(ev) && e@ == ev,
            },
        decreases self.lexems().len() - self.pos(), 14int,
    {
        let ghost lx = self.lexems();
        let n_items = self.input.len();
        proof {
            assert(lx.len() == n_items as int);
        }
        let ghost p0 = self.pos();
        let mut actions: Vec<Node> = Vec::new();
        proof {
            match s_statements(lx, p0) {
                PList::Match(rest, pe) => {
                    assert(Seq::<NodeV>::empty() + rest =~= rest);
                },
                PList::Error(e) => {},
            }
        }
        loop
            invariant_except_break
                self.wf(),
                self.lexems() == lx,
                lx == old(self).lexems(),
                p0 == old(self).pos(),
                p0 <= self.pos() <= lx.len(),
                ({
                    match s_statements(lx, self.pos()) {
                        PList::Match(rest, pe) => s_statements(lx, p0) == PList::Match(
                            nodes_view(actions@) + rest,
                            pe,
                        ),
                        PList::Error(e) => s_statements(lx, p0) == PList::Error(e),
                    }
                }),
            ensures
                self.wf(),
                self.lexems() == lx,
                s_statements(lx, p0) == PList::Match(nodes_view(actions@), self.pos()),
                p0 <= self.pos() <= lx.len(),
            decreases lx.len() - self.pos(),
        {
            let ghost pi = self.pos();
            if self.input.reached_end() {
                proof {
                    assert(nodes_view(actions@) + Seq::<NodeV>::empty() =~= nodes_view(actions@));
                }
                break ;
            }
            let ghost vs0 = actions@;
            let node = match self.parse_once() {
                Ok(x) => x,
                Err(e) => {
                    return Err(e);
                },
            };
            match node {
                None => {
                    proof {
                        assert(nodes_view(actions@) + Seq::<NodeV>::empty() =~= nodes_view(
                            actions@,
                        ));
                    }
                    break ;
                },
                Some(n) => {
                    let ghost nv = node_view(&n);
                    actions.push(n);
                    proof {
                        lemma_nodes_view_push(vs0, actions@[actions@.len() - 1]);
                        match s_statements(lx, self.pos()) {
                            PList::Match(rest, pe) => {
                                assert(nodes_view(vs0) + (seq![nv] + rest) =~= nodes_view(
                                    actions@,
                                ) + rest);
                            },
                            PList::Error(e) => {},
                        }
                    }
                },
            }
        }
        proof {
            lemma_nodes_view(actions@);
        }
        if actions.len() == 1 {
            Ok(actions.remove(0))
        } else {
            Ok(Node::Program(actions))
        }
    }
}

} // verus!
