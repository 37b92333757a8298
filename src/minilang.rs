//! A small line-oriented integer language: `let x = e`, `x = e` and `print e` over
//! `+ - * /`, unary minus, parentheses, integer literals and variables.
use vstd::prelude::*;

use crate::numtext::{decimal, int_to_string, parse_i64, parse_i64_text};
use crate::text::{is_alpha_char, is_digit_char};

verus! {

/// The kinds of token.
#[derive(Clone, Copy, Debug, PartialEq, Eq, Structural)]
pub enum TokenKind {
    Plus,
    Minus,
    Star,
    Slash,
    LParen,
    RParen,
    Equal,
    Number,
    Ident,
    Let,
    Print,
    Newline,
    Eof,
}

/// A token: its kind, its text and where it starts.
#[derive(Debug)]
pub struct Token {
    pub kind: TokenKind,
    pub text: String,
    pub pos: i64,
}

impl Token {
    pub fn new(kind: TokenKind, text: String, pos: i64) -> (r: Token)
        ensures
            r.kind == kind,
            r.text@ == text@,
            r.pos == pos,
    {
        Token { kind, text, pos }
    }
}

/// The kinds of expression node.
#[derive(Clone, Copy, Debug, PartialEq, Eq, Structural)]
pub enum ExprKind {
    Lit,
    Var,
    Neg,
    Bin,
}

/// The binary operators.
#[derive(Clone, Copy, Debug, PartialEq, Eq, Structural)]
pub enum BinOp {
    Add,
    Sub,
    Mul,
    Div,
}

/// An expression node; children are indices of earlier nodes in the same list.
#[derive(Debug)]
pub struct ExprNode {
    pub kind: ExprKind,
    pub value: i64,
    pub name: String,
    pub op: BinOp,
    pub left: usize,
    pub right: usize,
}

impl ExprNode {
    pub fn new(kind: ExprKind, value: i64, name: String, op: BinOp, left: usize, right: usize) -> (r:
        ExprNode)
        ensures
            r.kind == kind,
            r.value == value,
            r.name@ == name@,
            r.op == op,
            r.left == left,
            r.right == right,
    {
        ExprNode { kind, value, name, op, left, right }
    }
}

/// The kinds of statement.
#[derive(Clone, Copy, Debug, PartialEq, Eq, Structural)]
pub enum StmtKind {
    Let,
    Assign,
    Print,
}

/// A statement: its kind, the variable it binds (empty for `print`) and the index of
/// its expression.
#[derive(Debug)]
pub struct StmtNode {
    pub kind: StmtKind,
    pub name: String,
    pub expr_index: usize,
}

impl StmtNode {
    pub fn new(kind: StmtKind, name: String, expr_index: usize) -> (r: StmtNode)
        ensures
            r.kind == kind,
            r.name@ == name@,
            r.expr_index == expr_index,
    {
        StmtNode { kind, name, expr_index }
    }
}

/// Why a token list does not parse: the position of the offending token.
#[derive(Debug, PartialEq, Eq, Structural)]
pub enum ParseError {
    Expected { pos: i64, expected: TokenKind, got: TokenKind },
    Primary { pos: i64, got: TokenKind },
    Number { pos: i64 },
}

/// Every node refers only to nodes before it.
pub open spec fn nodes_ordered(nodes: Seq<ExprNode>) -> bool {
    forall|i: int|
        0 <= i < nodes.len() ==> {
            let n = #[trigger] nodes[i];
            &&& (n.kind == ExprKind::Neg ==> n.left < i)
            &&& (n.kind == ExprKind::Bin ==> n.left < i && n.right < i)
        }
}

/// The kind of token `p`; past either end, `Eof`.
pub open spec fn kind_at(t: Seq<Token>, p: int) -> TokenKind {
    if 0 <= p < t.len() {
        t[p].kind
    } else {
        TokenKind::Eof
    }
}

/// Where a primary that starts at token `p` ends: a number whose text reads as an
/// `i64`, a name, or a parenthesised expression.
pub open spec fn primary_end(t: Seq<Token>, p: int) -> Option<int>
    decreases t.len() - p, 0int,
{
    if p < 0 || p >= t.len() {
        None
    } else if t[p].kind == TokenKind::Number {
        if parse_i64(t[p].text@) is Some {
            Some(p + 1)
        } else {
            None
        }
    } else if t[p].kind == TokenKind::Ident {
        Some(p + 1)
    } else if t[p].kind == TokenKind::LParen {
        match expr_end(t, p + 1) {
            Some(q) => if q > p && kind_at(t, q) == TokenKind::RParen {
                Some(q + 1)
            } else {
                None
            },
            None => None,
        }
    } else {
        None
    }
}

/// Where a factor with any number of leading `-` that starts at `p` ends.
pub open spec fn unary_end(t: Seq<Token>, p: int) -> Option<int>
    decreases t.len() - p, 1int,
{
    if p < 0 || p >= t.len() {
        None
    } else if t[p].kind == TokenKind::Minus {
        unary_end(t, p + 1)
    } else {
        primary_end(t, p)
    }
}

/// Where a run of `* factor` and `/ factor` that starts at `q` ends.
pub open spec fn mul_tail(t: Seq<Token>, q: int) -> Option<int>
    decreases t.len() - q, 2int,
{
    if q < 0 || q >= t.len() {
        None
    } else if t[q].kind == TokenKind::Star || t[q].kind == TokenKind::Slash {
        match unary_end(t, q + 1) {
            Some(r) => if q < r <= t.len() {
                mul_tail(t, r)
            } else {
                None
            },
            None => None,
        }
    } else {
        Some(q)
    }
}

/// Where a term that starts at `p` ends.
pub open spec fn mul_end(t: Seq<Token>, p: int) -> Option<int>
    decreases t.len() - p, 3int,
{
    if p < 0 || p >= t.len() {
        None
    } else {
        match unary_end(t, p) {
            Some(q) => if p < q <= t.len() {
                mul_tail(t, q)
            } else {
                None
            },
            None => None,
        }
    }
}

/// Where a run of `+ term` and `- term` that starts at `q` ends.
pub open spec fn add_tail(t: Seq<Token>, q: int) -> Option<int>
    decreases t.len() - q, 4int,
{
    if q < 0 || q >= t.len() {
        None
    } else if t[q].kind == TokenKind::Plus || t[q].kind == TokenKind::Minus {
        match mul_end(t, q + 1) {
            Some(r) => if q < r <= t.len() {
                add_tail(t, r)
            } else {
                None
            },
            None => None,
        }
    } else {
        Some(q)
    }
}

/// Where an expression that starts at `p` ends.
pub open spec fn expr_end(t: Seq<Token>, p: int) -> Option<int>
    decreases t.len() - p, 5int,
{
    if p < 0 || p >= t.len() {
        None
    } else {
        match mul_end(t, p) {
            Some(q) => if p < q <= t.len() {
                add_tail(t, q)
            } else {
                None
            },
            None => None,
        }
    }
}

/// Where a statement that starts at `p` ends: `let name = e`, `print e` or `name = e`.
pub open spec fn stmt_end(t: Seq<Token>, p: int) -> Option<int> {
    if kind_at(t, p) == TokenKind::Let {
        if kind_at(t, p + 1) == TokenKind::Ident && kind_at(t, p + 2) == TokenKind::Equal {
            expr_end(t, p + 3)
        } else {
            None
        }
    } else if kind_at(t, p) == TokenKind::Print {
        expr_end(t, p + 1)
    } else if kind_at(t, p) == TokenKind::Ident && kind_at(t, p + 1) == TokenKind::Equal {
        expr_end(t, p + 2)
    } else {
        None
    }
}

/// The first token at or after `p` that is not a newline.
pub open spec fn skip_newlines_from(t: Seq<Token>, p: int) -> int
    decreases t.len() - p,
{
    if 0 <= p < t.len() && t[p].kind == TokenKind::Newline {
        skip_newlines_from(t, p + 1)
    } else {
        p
    }
}

/// Whether the tokens from `p` on are statements separated by newlines up to `Eof`.
pub open spec fn program_from(t: Seq<Token>, p: int) -> bool
    decreases t.len() - p,
{
    let q = skip_newlines_from(t, p);
    if q < p || q >= t.len() {
        false
    } else if t[q].kind == TokenKind::Eof {
        true
    } else {
        match stmt_end(t, q) {
            Some(r) => q < r <= t.len() && program_from(t, r),
            None => false,
        }
    }
}

/// A recursive-descent parser over a token list that ends with `Eof`.
pub struct Parser {
    pub tokens: Vec<Token>,
    pub pos: usize,
    pub expr_nodes: Vec<ExprNode>,
}

proof fn lemma_skip_newlines(t: Seq<Token>, p: int)
    ensures
        skip_newlines_from(t, p) >= p,
        skip_newlines_from(t, skip_newlines_from(t, p)) == skip_newlines_from(t, p),
    decreases t.len() - p,
{
    if 0 <= p < t.len() && t[p].kind == TokenKind::Newline {
        lemma_skip_newlines(t, p + 1);
    }
}

/// Whether statements follow depends only on the first token that is not a newline.
proof fn lemma_program_skips(t: Seq<Token>, p: int)
    ensures
        program_from(t, p) == program_from(t, skip_newlines_from(t, p)),
{
    lemma_skip_newlines(t, p);
}

impl Parser {
    /// The parser is positioned on a token, the list ends with its only `Eof`, and the
    /// nodes built so far are ordered.
    pub open spec fn wf(&self) -> bool {
        &&& self.tokens@.len() > 0
        &&& self.pos < self.tokens@.len()
        &&& self.tokens@.last().kind == TokenKind::Eof
        &&& forall|i: int| 0 <= i < self.tokens@.len() - 1 ==> #[trigger] self.tokens@[i].kind != TokenKind::Eof
        &&& nodes_ordered(self.expr_nodes@)
        &&& self.expr_nodes@.len() <= self.pos
    }

    /// What a parse step keeps: the same tokens, a position no earlier, and the earlier
    /// nodes unchanged.
    pub open spec fn extends(&self, before: &Parser) -> bool {
        &&& self.wf()
        &&& self.tokens@ == before.tokens@
        &&& self.pos >= before.pos
        &&& self.expr_nodes@.len() >= before.expr_nodes@.len()
        &&& forall|i: int| 0 <= i < before.expr_nodes@.len() ==> #[trigger] self.expr_nodes@[i] == before.expr_nodes@[i]
        &&& self.expr_nodes@.len() - before.expr_nodes@.len() <= self.pos - before.pos
    }

    /// Tokens left to read, the measure of every parse step.
    pub open spec fn remaining(&self) -> int {
        self.tokens@.len() - self.pos
    }

    /// A parser at the start of `tokens`, which must end with their only `Eof`.
    pub fn new(tokens: Vec<Token>) -> (r: Parser)
        requires
            tokens@.len() > 0,
            tokens@.last().kind == TokenKind::Eof,
            forall|i: int| 0 <= i < tokens@.len() - 1 ==> #[trigger] tokens@[i].kind != TokenKind::Eof,
        ensures
            r.wf(),
            r.pos == 0,
            r.tokens@ == tokens@,
            r.expr_nodes@.len() == 0,
    {
        let mut p = Parser { tokens, pos: 0, expr_nodes: Vec::new() };
        p.expr_nodes = p.new_expr_nodes();
        p
    }

    /// An empty node list.
    pub fn new_expr_nodes(&mut self) -> (r: Vec<ExprNode>)
        ensures
            r@.len() == 0,
            *final(self) == *old(self),
    {
        Vec::new()
    }

    /// The kind of the current token.
    pub fn peek_kind(&self) -> (r: TokenKind)
        requires
            self.wf(),
        ensures
            r == self.tokens@[self.pos as int].kind,
    {
        self.tokens[self.pos].kind
    }

    /// Moves past the current token when it is of kind `kind`.
    pub fn py_match(&mut self, kind: TokenKind) -> (r: bool)
        requires
            old(self).wf(),
            kind != TokenKind::Eof,
        ensures
            r == (old(self).tokens@[old(self).pos as int].kind == kind),
            final(self).tokens@ == old(self).tokens@,
            final(self).expr_nodes@ == old(self).expr_nodes@,
            final(self).pos == if r {
                old(self).pos + 1
            } else {
                old(self).pos as int
            },
            final(self).wf(),
    {
        let n = self.tokens.len();
        if self.peek_kind() == kind {
            assert(self.pos != n - 1);
            self.pos = self.pos + 1;
            true
        } else {
            false
        }
    }

    /// The current token's text when it is of kind `kind`, moving past it; else the
    /// error that names both kinds.
    pub fn expect(&mut self, kind: TokenKind) -> (r: Result<String, ParseError>)
        requires
            old(self).wf(),
            kind != TokenKind::Eof,
        ensures
            final(self).tokens@ == old(self).tokens@,
            final(self).expr_nodes@ == old(self).expr_nodes@,
            final(self).wf(),
            old(self).tokens@[old(self).pos as int].kind == kind ==> (r matches Ok(t) && t@
                == old(self).tokens@[old(self).pos as int].text@ && final(self).pos == old(
                self,
            ).pos + 1),
            old(self).tokens@[old(self).pos as int].kind != kind ==> r == Err::<String, ParseError>(
                ParseError::Expected {
                    pos: old(self).tokens@[old(self).pos as int].pos,
                    expected: kind,
                    got: old(self).tokens@[old(self).pos as int].kind,
                },
            ) && final(self).pos == old(self).pos,
    {
        let t = &self.tokens[self.pos];
        if t.kind != kind {
            return Err(ParseError::Expected { pos: t.pos, expected: kind, got: t.kind });
        }
        let text = t.text.as_str().to_owned();
        let n = self.tokens.len();
        assert(self.pos != n - 1);
        self.pos = self.pos + 1;
        Ok(text)
    }

    /// Moves past any newline tokens.
    pub fn skip_newlines(&mut self)
        requires
            old(self).wf(),
        ensures
            final(self).extends(old(self)),
            final(self).expr_nodes@ == old(self).expr_nodes@,
            final(self).pos == skip_newlines_from(old(self).tokens@, old(self).pos as int),
    {
        let ghost start = self.pos;
        while self.py_match(TokenKind::Newline)
            invariant
                self.wf(),
                self.tokens@ == old(self).tokens@,
                self.expr_nodes@ == old(self).expr_nodes@,
                start == old(self).pos,
                self.pos >= start,
                skip_newlines_from(self.tokens@, start as int) == skip_newlines_from(
                    self.tokens@,
                    self.pos as int,
                ),
            decreases self.tokens@.len() - self.pos,
        {
        }
    }

    /// Appends `node` and returns its index.
    pub fn add_expr(&mut self, node: ExprNode) -> (r: usize)
        requires
            old(self).wf(),
            node.kind == ExprKind::Neg ==> node.left < old(self).expr_nodes@.len(),
            node.kind == ExprKind::Bin ==> node.left < old(self).expr_nodes@.len() && node.right
                < old(self).expr_nodes@.len(),
            old(self).expr_nodes@.len() < old(self).pos,
        ensures
            final(self).tokens@ == old(self).tokens@,
            final(self).pos == old(self).pos,
            final(self).expr_nodes@ == old(self).expr_nodes@.push(node),
            final(self).wf(),
            r == old(self).expr_nodes@.len(),
    {
        self.expr_nodes.push(node);
        self.expr_nodes.len() - 1
    }

    /// Statements up to `Eof`, newlines between them skipped.
    pub fn parse_program(&mut self) -> (r: Result<Vec<StmtNode>, ParseError>)
        requires
            old(self).wf(),
        ensures
            final(self).extends(old(self)),
            r matches Ok(stmts) ==> forall|i: int|
                0 <= i < stmts@.len() ==> #[trigger] stmts@[i].expr_index
                    < final(self).expr_nodes@.len(),
            r is Ok <==> program_from(old(self).tokens@, old(self).pos as int),
    {
        let mut stmts: Vec<StmtNode> = Vec::new();
        let ghost p0 = self.pos as int;
        self.skip_newlines();
        proof {
            lemma_program_skips(self.tokens@, p0);
            lemma_skip_newlines(self.tokens@, p0);
        }
        while self.peek_kind() != TokenKind::Eof
            invariant
                self.extends(old(self)),
                p0 == old(self).pos,
                forall|i: int|
                    0 <= i < stmts@.len() ==> #[trigger] stmts@[i].expr_index
                        < self.expr_nodes@.len(),
                program_from(self.tokens@, p0) == program_from(self.tokens@, self.pos as int),
                skip_newlines_from(self.tokens@, self.pos as int) == self.pos,
            decreases self.remaining(),
        {
            let stmt = match self.parse_stmt() {
                Ok(s) => s,
                Err(e) => return Err(e),
            };
            stmts.push(stmt);
            let ghost r = self.pos as int;
            self.skip_newlines();
            proof {
                lemma_program_skips(self.tokens@, r);
                lemma_skip_newlines(self.tokens@, r);
            }
        }
        Ok(stmts)
    }

    /// One statement: `let name = e`, `print e` or `name = e`.
    pub fn parse_stmt(&mut self) -> (r: Result<StmtNode, ParseError>)
        requires
            old(self).wf(),
        ensures
            final(self).extends(old(self)),
            r matches Ok(st) ==> st.expr_index < final(self).expr_nodes@.len(),
            r is Ok <==> stmt_end(old(self).tokens@, old(self).pos as int) is Some,
            r is Ok ==> final(self).pos == stmt_end(old(self).tokens@, old(self).pos as int)->0,
            r is Ok ==> final(self).pos > old(self).pos,
    {
        if self.py_match(TokenKind::Let) {
            let name = match self.expect(TokenKind::Ident) {
                Ok(t) => t,
                Err(e) => return Err(e),
            };
            match self.expect(TokenKind::Equal) {
                Ok(_) => {},
                Err(e) => return Err(e),
            }
            let index = match self.parse_expr() {
                Ok(i) => i,
                Err(e) => return Err(e),
            };
            return Ok(StmtNode::new(StmtKind::Let, name, index));
        }
        if self.py_match(TokenKind::Print) {
            let index = match self.parse_expr() {
                Ok(i) => i,
                Err(e) => return Err(e),
            };
            return Ok(StmtNode::new(StmtKind::Print, String::new(), index));
        }
        let name = match self.expect(TokenKind::Ident) {
            Ok(t) => t,
            Err(e) => return Err(e),
        };
        match self.expect(TokenKind::Equal) {
            Ok(_) => {},
            Err(e) => return Err(e),
        }
        let index = match self.parse_expr() {
            Ok(i) => i,
            Err(e) => return Err(e),
        };
        Ok(StmtNode::new(StmtKind::Assign, name, index))
    }

    /// An expression.
    pub fn parse_expr(&mut self) -> (r: Result<usize, ParseError>)
        requires
            old(self).wf(),
        ensures
            final(self).extends(old(self)),
            r matches Ok(i) ==> i < final(self).expr_nodes@.len(),
            r is Ok <==> expr_end(old(self).tokens@, old(self).pos as int) is Some,
            r is Ok ==> final(self).pos == expr_end(old(self).tokens@, old(self).pos as int)->0,
            r is Ok ==> final(self).pos > old(self).pos,
        decreases old(self).remaining(), 4int,
    {
        self.parse_add()
    }

    /// Terms joined by `+` and `-`, left to right.
    pub fn parse_add(&mut self) -> (r: Result<usize, ParseError>)
        requires
            old(self).wf(),
        ensures
            final(self).extends(old(self)),
            r matches Ok(i) ==> i < final(self).expr_nodes@.len(),
            r is Ok <==> expr_end(old(self).tokens@, old(self).pos as int) is Some,
            r is Ok ==> final(self).pos == expr_end(old(self).tokens@, old(self).pos as int)->0,
            r is Ok ==> final(self).pos > old(self).pos,
        decreases old(self).remaining(), 3int,
    {
        let mut left = match self.parse_mul() {
            Ok(i) => i,
            Err(e) => return Err(e),
        };
        loop
            invariant
                self.extends(old(self)),
                self.pos > old(self).pos,
                left < self.expr_nodes@.len(),
                expr_end(self.tokens@, old(self).pos as int) == add_tail(self.tokens@, self.pos as int),
            ensures
                add_tail(self.tokens@, self.pos as int) == Some(self.pos as int),
            decreases self.remaining(),
        {
            let op = if self.py_match(TokenKind::Plus) {
                BinOp::Add
            } else if self.py_match(TokenKind::Minus) {
                BinOp::Sub
            } else {
                break;
            };
            let right = match self.parse_mul() {
                Ok(i) => i,
                Err(e) => return Err(e),
            };
            left = self.add_expr(ExprNode::new(ExprKind::Bin, 0, String::new(), op, left, right));
        }
        Ok(left)
    }

    /// Factors joined by `*` and `/`, left to right.
    pub fn parse_mul(&mut self) -> (r: Result<usize, ParseError>)
        requires
            old(self).wf(),
        ensures
            final(self).extends(old(self)),
            r matches Ok(i) ==> i < final(self).expr_nodes@.len(),
            r is Ok <==> mul_end(old(self).tokens@, old(self).pos as int) is Some,
            r is Ok ==> final(self).pos == mul_end(old(self).tokens@, old(self).pos as int)->0,
            r is Ok ==> final(self).pos > old(self).pos,
        decreases old(self).remaining(), 2int,
    {
        let mut left = match self.parse_unary() {
            Ok(i) => i,
            Err(e) => return Err(e),
        };
        loop
            invariant
                self.extends(old(self)),
                self.pos > old(self).pos,
                left < self.expr_nodes@.len(),
                mul_end(self.tokens@, old(self).pos as int) == mul_tail(self.tokens@, self.pos as int),
            ensures
                mul_tail(self.tokens@, self.pos as int) == Some(self.pos as int),
            decreases self.remaining(),
        {
            let op = if self.py_match(TokenKind::Star) {
                BinOp::Mul
            } else if self.py_match(TokenKind::Slash) {
                BinOp::Div
            } else {
                break;
            };
            let right = match self.parse_unary() {
                Ok(i) => i,
                Err(e) => return Err(e),
            };
            left = self.add_expr(ExprNode::new(ExprKind::Bin, 0, String::new(), op, left, right));
        }
        Ok(left)
    }

    /// A factor, negated once for each leading `-`.
    pub fn parse_unary(&mut self) -> (r: Result<usize, ParseError>)
        requires
            old(self).wf(),
        ensures
            final(self).extends(old(self)),
            r matches Ok(i) ==> i < final(self).expr_nodes@.len(),
            r is Ok <==> unary_end(old(self).tokens@, old(self).pos as int) is Some,
            r is Ok ==> final(self).pos == unary_end(old(self).tokens@, old(self).pos as int)->0,
            r is Ok ==> final(self).pos > old(self).pos,
        decreases old(self).remaining(), 1int,
    {
        if self.py_match(TokenKind::Minus) {
            let child = match self.parse_unary() {
                Ok(i) => i,
                Err(e) => return Err(e),
            };
            let r = self.add_expr(ExprNode::new(ExprKind::Neg, 0, String::new(), BinOp::Add, child, 0));
            return Ok(r);
        }
        self.parse_primary()
    }

    /// A number, a variable, or a parenthesised expression.
    pub fn parse_primary(&mut self) -> (r: Result<usize, ParseError>)
        requires
            old(self).wf(),
        ensures
            final(self).extends(old(self)),
            r matches Ok(i) ==> i < final(self).expr_nodes@.len(),
            r is Ok <==> primary_end(old(self).tokens@, old(self).pos as int) is Some,
            r is Ok ==> final(self).pos == primary_end(old(self).tokens@, old(self).pos as int)->0,
            r is Ok ==> final(self).pos > old(self).pos,
        decreases old(self).remaining(), 0int,
    {
        if self.py_match(TokenKind::Number) {
            let t = &self.tokens[self.pos - 1];
            let value = match parse_i64_text(t.text.as_str()) {
                Some(v) => v,
                None => return Err(ParseError::Number { pos: t.pos }),
            };
            let r = self.add_expr(ExprNode::new(ExprKind::Lit, value, String::new(), BinOp::Add, 0, 0));
            return Ok(r);
        }
        if self.py_match(TokenKind::Ident) {
            let name = self.tokens[self.pos - 1].text.as_str().to_owned();
            let r = self.add_expr(ExprNode::new(ExprKind::Var, 0, name, BinOp::Add, 0, 0));
            return Ok(r);
        }
        if self.py_match(TokenKind::LParen) {
            let index = match self.parse_expr() {
                Ok(i) => i,
                Err(e) => return Err(e),
            };
            match self.expect(TokenKind::RParen) {
                Ok(_) => {},
                Err(e) => return Err(e),
            }
            return Ok(index);
        }
        let t = &self.tokens[self.pos];
        Err(ParseError::Primary { pos: t.pos, got: t.kind })
    }
}

/// Variable bindings, each name bound once.
pub struct Env {
    names: Vec<String>,
    values: Vec<i64>,
}

impl View for Env {
    type V = Map<Seq<char>, i64>;

    closed spec fn view(&self) -> Map<Seq<char>, i64> {
        Map::new(
            |k: Seq<char>| exists|i: int| 0 <= i < self.names@.len() && #[trigger] self.names@[i]@ == k,
            |k: Seq<char>|
                self.values@[choose|i: int| 0 <= i < self.names@.len() && #[trigger] self.names@[i]@ == k],
        )
    }
}

impl Env {
    /// Names and values pair up and no name repeats.
    pub closed spec fn wf(&self) -> bool {
        &&& self.names@.len() == self.values@.len()
        &&& forall|i: int, j: int|
            0 <= i < j < self.names@.len() ==> #[trigger] self.names@[i]@ != #[trigger] self.names@[j]@
    }

    /// No bindings.
    pub fn new() -> (r: Env)
        ensures
            r.wf(),
            r@ == Map::<Seq<char>, i64>::empty(),
    {
        let r = Env { names: Vec::new(), values: Vec::new() };
        assert(r@ =~= Map::<Seq<char>, i64>::empty());
        r
    }

    fn find(&self, name: &str) -> (r: Option<usize>)
        requires
            self.wf(),
        ensures
            r matches Some(i) ==> i < self.names@.len() && self.names@[i as int]@ == name@,
            r is None ==> forall|i: int| 0 <= i < self.names@.len() ==> #[trigger] self.names@[i]@ != name@,
    {
        let key = name.to_owned();
        let mut i: usize = 0;
        while i < self.names.len()
            invariant
                i <= self.names@.len(),
                key@ == name@,
                forall|k: int| 0 <= k < i ==> #[trigger] self.names@[k]@ != name@,
            decreases self.names@.len() - i,
        {
            if self.names[i] == key {
                return Some(i);
            }
            i = i + 1;
        }
        None
    }

    /// The value bound to `name`, if any.
    pub fn get(&self, name: &str) -> (r: Option<i64>)
        requires
            self.wf(),
        ensures
            r == (if self@.contains_key(name@) {
                Some(self@[name@])
            } else {
                None::<i64>
            }),
    {
        match self.find(name) {
            Some(i) => {
                assert(self@.contains_key(name@));
                let ghost j = choose|j: int| 0 <= j < self.names@.len() && #[trigger] self.names@[j]@ == name@;
                assert(j == i);
                Some(self.values[i])
            },
            None => None,
        }
    }

    /// Binds `name` to `value`, replacing an earlier binding.
    pub fn set(&mut self, name: &str, value: i64)
        requires
            old(self).wf(),
        ensures
            final(self).wf(),
            final(self)@ == old(self)@.insert(name@, value),
    {
        match self.find(name) {
            Some(i) => {
                self.values.set(i, value);
                assert forall|k: Seq<char>| #[trigger] self@.contains_key(k) implies self@[k] == old(self)@.insert(name@, value)[k] by {
                    let j = choose|j: int| 0 <= j < self.names@.len() && #[trigger] self.names@[j]@ == k;
                    let j0 = choose|j: int| 0 <= j < old(self).names@.len() && #[trigger] old(self).names@[j]@ == k;
                    assert(j == j0);
                }
                assert(self@ =~= old(self)@.insert(name@, value));
            },
            None => {
                self.names.push(name.to_owned());
                self.values.push(value);
                let ghost n = old(self).names@.len() as int;
                assert(self.names@[n]@ == name@);
                assert forall|k: Seq<char>| #[trigger] self@.contains_key(k) implies self@[k] == old(self)@.insert(name@, value)[k] by {
                    let j = choose|j: int| 0 <= j < self.names@.len() && #[trigger] self.names@[j]@ == k;
                    if k == name@ {
                        assert(j == n);
                    } else {
                        let j0 = choose|j: int| 0 <= j < old(self).names@.len() && #[trigger] old(self).names@[j]@ == k;
                        assert(self.names@[j0]@ == k);
                        assert(j == j0);
                    }
                }
                assert forall|k: Seq<char>| #[trigger] old(self)@.insert(name@, value).contains_key(k) implies self@.contains_key(k) by {
                    if k == name@ {
                        assert(self.names@[n]@ == k);
                    } else {
                        let j0 = choose|j: int| 0 <= j < old(self).names@.len() && #[trigger] old(self).names@[j]@ == k;
                        assert(self.names@[j0]@ == k);
                    }
                }
                assert forall|k: Seq<char>| #[trigger] self@.contains_key(k) implies old(self)@.insert(name@, value).contains_key(k) by {
                    let j = choose|j: int| 0 <= j < self.names@.len() && #[trigger] self.names@[j]@ == k;
                    if j < n {
                        assert(old(self).names@[j]@ == k);
                    }
                }
                assert(self@ =~= old(self)@.insert(name@, value));
            },
        }
    }
}

/// The modulus of the run checksum.
pub const CHECKSUM_MOD: i64 = 1_000_000_007;

/// Division rounding toward zero.
pub open spec fn trunc_div(a: int, b: int) -> int {
    let q = (if a < 0 {
        -a
    } else {
        a
    }) / (if b < 0 {
        -b
    } else {
        b
    });
    if (a < 0) == (b < 0) {
        q
    } else {
        -q
    }
}

/// The result of a binary operator on 64-bit operands: `None` on division by zero or
/// when the result leaves the 64-bit range.
pub open spec fn apply_op(op: BinOp, a: int, b: int) -> Option<int> {
    let r = match op {
        BinOp::Add => a + b,
        BinOp::Sub => a - b,
        BinOp::Mul => a * b,
        BinOp::Div => if b == 0 {
            0
        } else {
            trunc_div(a, b)
        },
    };
    if (op == BinOp::Div && b == 0) || r < i64::MIN || r > i64::MAX {
        None
    } else {
        Some(r)
    }
}

/// The value of node `i` under the bindings `env`; `None` when a variable is unbound,
/// a division is by zero, a result leaves the 64-bit range, or a child is not earlier.
pub open spec fn eval_value(nodes: Seq<ExprNode>, i: int, env: Map<Seq<char>, i64>) -> Option<int>
    decreases i,
{
    if i < 0 || i >= nodes.len() {
        None
    } else {
        let n = nodes[i];
        match n.kind {
            ExprKind::Lit => Some(n.value as int),
            ExprKind::Var => if env.contains_key(n.name@) {
                Some(env[n.name@] as int)
            } else {
                None
            },
            ExprKind::Neg => if n.left < i {
                match eval_value(nodes, n.left as int, env) {
                    Some(v) => if -v <= i64::MAX {
                        Some(-v)
                    } else {
                        None
                    },
                    None => None,
                }
            } else {
                None
            },
            ExprKind::Bin => if n.left < i && n.right < i {
                match (eval_value(nodes, n.left as int, env), eval_value(nodes, n.right as int, env)) {
                    (Some(a), Some(b)) => apply_op(n.op, a, b),
                    _ => None,
                }
            } else {
                None
            },
        }
    }
}

/// Why evaluation stopped.
#[derive(Debug, PartialEq, Eq, Structural)]
pub enum EvalError {
    UndefinedVariable,
    DivisionByZero,
    Overflow,
    AssignToUndefined,
}

proof fn lemma_eval_in_range(nodes: Seq<ExprNode>, i: int, env: Map<Seq<char>, i64>)
    ensures
        eval_value(nodes, i, env) matches Some(v) ==> i64::MIN <= v <= i64::MAX,
    decreases i,
{
    if 0 <= i < nodes.len() {
        let n = nodes[i];
        if n.kind == ExprKind::Neg && n.left < i {
            lemma_eval_in_range(nodes, n.left as int, env);
        }
    }
}

/// Applies `op`, failing where `apply_op` has no value.
fn apply_checked(op: BinOp, a: i64, b: i64) -> (r: Result<i64, EvalError>)
    ensures
        match r {
            Ok(v) => apply_op(op, a as int, b as int) == Some(v as int),
            Err(_) => apply_op(op, a as int, b as int) is None,
        },
{
    let (wa, wb) = (a as i128, b as i128);
    assert(-0x8000_0000_0000_0000 * 0x8000_0000_0000_0000 <= wa * wb <= 0x8000_0000_0000_0000
        * 0x8000_0000_0000_0000) by (nonlinear_arith)
        requires
            -0x8000_0000_0000_0000 <= wa <= 0x7FFF_FFFF_FFFF_FFFF,
            -0x8000_0000_0000_0000 <= wb <= 0x7FFF_FFFF_FFFF_FFFF,
    ;
    let wide: i128 = match op {
        BinOp::Add => wa + wb,
        BinOp::Sub => wa - wb,
        BinOp::Mul => wa * wb,
        BinOp::Div => {
            if b == 0 {
                return Err(EvalError::DivisionByZero);
            }
            let ua: u128 = if wa < 0 {
                (0 - wa) as u128
            } else {
                wa as u128
            };
            let ub: u128 = if wb < 0 {
                (0 - wb) as u128
            } else {
                wb as u128
            };
            let q = ua / ub;
            assert(q <= ua) by {
                vstd::arithmetic::div_mod::lemma_div_is_ordered_by_denominator(ua as int, 1, ub as int);
            }
            if (wa < 0) == (wb < 0) {
                q as i128
            } else {
                0 - (q as i128)
            }
        },
    };
    if wide < -0x8000_0000_0000_0000 || wide > 0x7FFF_FFFF_FFFF_FFFF {
        return Err(EvalError::Overflow);
    }
    Ok(wide as i64)
}

/// The value of node `expr_index` under `env`, as `eval_value` gives it.
pub fn eval_expr(expr_index: usize, expr_nodes: &Vec<ExprNode>, env: &Env) -> (r: Result<i64, EvalError>)
    requires
        env.wf(),
    ensures
        match r {
            Ok(v) => eval_value(expr_nodes@, expr_index as int, env@) == Some(v as int),
            Err(_) => eval_value(expr_nodes@, expr_index as int, env@) is None,
        },
    decreases expr_index,
{
    if expr_index >= expr_nodes.len() {
        return Err(EvalError::UndefinedVariable);
    }
    let node = &expr_nodes[expr_index];
    match node.kind {
        ExprKind::Lit => Ok(node.value),
        ExprKind::Var => match env.get(node.name.as_str()) {
            Some(v) => Ok(v),
            None => Err(EvalError::UndefinedVariable),
        },
        ExprKind::Neg => {
            if node.left >= expr_index {
                return Err(EvalError::UndefinedVariable);
            }
            let v = match eval_expr(node.left, expr_nodes, env) {
                Ok(v) => v,
                Err(e) => return Err(e),
            };
            if v == i64::MIN {
                Err(EvalError::Overflow)
            } else {
                Ok(-v)
            }
        },
        ExprKind::Bin => {
            if node.left >= expr_index || node.right >= expr_index {
                return Err(EvalError::UndefinedVariable);
            }
            let lhs = match eval_expr(node.left, expr_nodes, env) {
                Ok(v) => v,
                Err(e) => return Err(e),
            };
            let rhs = match eval_expr(node.right, expr_nodes, env) {
                Ok(v) => v,
                Err(e) => return Err(e),
            };
            apply_checked(node.op, lhs, rhs)
        },
    }
}

/// The checksum step for a printed value: `(c * 131 + (v mod M)) mod M`.
pub open spec fn checksum_step(c: int, v: int) -> int {
    (c * 131 + v % (CHECKSUM_MOD as int)) % (CHECKSUM_MOD as int)
}

/// The bindings, checksum and printed values after the first `k` statements, or `None`
/// when one of them fails.
pub open spec fn run_prefix(stmts: Seq<StmtNode>, nodes: Seq<ExprNode>, k: int) -> Option<
    (Map<Seq<char>, i64>, int, Seq<i64>),
>
    decreases k,
{
    if k <= 0 {
        Some((Map::empty(), 0, Seq::empty()))
    } else {
        match run_prefix(stmts, nodes, k - 1) {
            None => None,
            Some((env, c, printed)) => {
                let st = stmts[k - 1];
                match eval_value(nodes, st.expr_index as int, env) {
                    None => None,
                    Some(v) => match st.kind {
                        StmtKind::Let => Some((env.insert(st.name@, v as i64), c, printed)),
                        StmtKind::Assign => if env.contains_key(st.name@) {
                            Some((env.insert(st.name@, v as i64), c, printed))
                        } else {
                            None
                        },
                        StmtKind::Print => Some((env, checksum_step(c, v), printed.push(v as i64))),
                    },
                }
            },
        }
    }
}

proof fn lemma_run_stays_failed(stmts: Seq<StmtNode>, nodes: Seq<ExprNode>, k: int, j: int)
    requires
        1 <= k <= j,
        run_prefix(stmts, nodes, k) is None,
    ensures
        run_prefix(stmts, nodes, j) is None,
    decreases j - k,
{
    if k < j {
        lemma_run_stays_failed(stmts, nodes, k, j - 1);
    }
}

/// Runs statement `k` on the state reached after the first `k`.
fn run_statement(
    stmts: &Vec<StmtNode>,
    expr_nodes: &Vec<ExprNode>,
    k: usize,
    env: &mut Env,
    checksum: &mut i64,
    printed: &mut Vec<i64>,
) -> (r: Result<(), EvalError>)
    requires
        k < stmts@.len(),
        old(env).wf(),
        0 <= *old(checksum) < CHECKSUM_MOD,
        run_prefix(stmts@, expr_nodes@, k as int) == Some((old(env)@, *old(checksum) as int, old(printed)@)),
    ensures
        final(env).wf(),
        0 <= *final(checksum) < CHECKSUM_MOD,
        r is Ok ==> run_prefix(stmts@, expr_nodes@, k + 1) == Some((final(env)@, *final(checksum) as int, final(printed)@)),
        r is Err ==> run_prefix(stmts@, expr_nodes@, k + 1) is None,
{
    let st = &stmts[k];
    if st.kind == StmtKind::Assign && env.get(st.name.as_str()).is_none() {
        return Err(EvalError::AssignToUndefined);
    }
    let value = match eval_expr(st.expr_index, expr_nodes, env) {
        Ok(v) => v,
        Err(e) => return Err(e),
    };
    proof {
        lemma_eval_in_range(expr_nodes@, st.expr_index as int, env@);
    }
    match st.kind {
        StmtKind::Let => {
            env.set(st.name.as_str(), value);
        },
        StmtKind::Assign => {
            env.set(st.name.as_str(), value);
        },
        StmtKind::Print => {
            let mut norm = value % CHECKSUM_MOD;
            if norm < 0 {
                norm = norm + CHECKSUM_MOD;
            }
            assert(norm == value as int % (CHECKSUM_MOD as int));
            *checksum = ((*checksum as i128 * 131 + norm as i128) % (CHECKSUM_MOD as i128)) as i64;
            printed.push(value);
        },
    }
    Ok(())
}

/// Runs the statements from empty bindings: the checksum of the printed values and the
/// values in print order.
pub fn execute(stmts: &Vec<StmtNode>, expr_nodes: &Vec<ExprNode>) -> (r: Result<(i64, Vec<i64>), EvalError>)
    ensures
        match r {
            Ok((c, printed)) => run_prefix(stmts@, expr_nodes@, stmts@.len() as int) matches Some(
                (_, c2, p2),
            ) && c2 == c && p2 == printed@,
            Err(_) => run_prefix(stmts@, expr_nodes@, stmts@.len() as int) is None,
        },
{
    let mut env = Env::new();
    let mut checksum: i64 = 0;
    let mut printed: Vec<i64> = Vec::new();
    let mut k: usize = 0;
    while k < stmts.len()
        invariant
            k <= stmts@.len(),
            env.wf(),
            0 <= checksum < CHECKSUM_MOD,
            run_prefix(stmts@, expr_nodes@, k as int) == Some((env@, checksum as int, printed@)),
        decreases stmts@.len() - k,
    {
        match run_statement(stmts, expr_nodes, k, &mut env, &mut checksum, &mut printed) {
            Ok(()) => {},
            Err(e) => {
                proof {
                    lemma_run_stays_failed(stmts@, expr_nodes@, k + 1, stmts@.len() as int);
                }
                return Err(e);
            },
        }
        k = k + 1;
    }
    Ok((checksum, printed))
}

/// The kind of a one-character token.
pub open spec fn single_kind(c: char) -> Option<TokenKind> {
    if c == '+' {
        Some(TokenKind::Plus)
    } else if c == '-' {
        Some(TokenKind::Minus)
    } else if c == '*' {
        Some(TokenKind::Star)
    } else if c == '/' {
        Some(TokenKind::Slash)
    } else if c == '(' {
        Some(TokenKind::LParen)
    } else if c == ')' {
        Some(TokenKind::RParen)
    } else if c == '=' {
        Some(TokenKind::Equal)
    } else {
        None
    }
}

/// A character that may appear in a program line.
pub open spec fn lexable(c: char) -> bool {
    c == ' ' || single_kind(c) is Some || is_digit_char(c) || is_alpha_char(c) || c == '_'
}

/// A character that may continue a name.
pub open spec fn name_char(c: char) -> bool {
    is_alpha_char(c) || c == '_' || is_digit_char(c)
}

/// Where tokenizing stopped: the line and the character index of a character that no
/// token may hold.
#[derive(Debug, PartialEq, Eq, Structural)]
pub struct TokenizeError {
    pub line: i64,
    pub pos: i64,
}

fn single_token_kind(c: char) -> (r: Option<TokenKind>)
    ensures
        r == single_kind(c),
{
    if c == '+' {
        Some(TokenKind::Plus)
    } else if c == '-' {
        Some(TokenKind::Minus)
    } else if c == '*' {
        Some(TokenKind::Star)
    } else if c == '/' {
        Some(TokenKind::Slash)
    } else if c == '(' {
        Some(TokenKind::LParen)
    } else if c == ')' {
        Some(TokenKind::RParen)
    } else if c == '=' {
        Some(TokenKind::Equal)
    } else {
        None
    }
}

/// Tokens that are not the end marker.
pub open spec fn no_eof(tokens: Seq<Token>) -> bool {
    forall|i: int| 0 <= i < tokens.len() ==> #[trigger] tokens[i].kind != TokenKind::Eof
}

/// A token as kind, text and position.
pub open spec fn token_view(t: Token) -> (TokenKind, Seq<char>, int) {
    (t.kind, t.text@, t.pos as int)
}

/// The kind, text and position of each token.
pub open spec fn tokens_view(tokens: Seq<Token>) -> Seq<(TokenKind, Seq<char>, int)> {
    Seq::new(tokens.len(), |i: int| token_view(tokens[i]))
}

/// The end of the run of digits that starts at `i`.
pub open spec fn digits_end(s: Seq<char>, i: int) -> int
    decreases s.len() - i,
{
    if 0 <= i < s.len() && is_digit_char(s[i]) {
        digits_end(s, i + 1)
    } else {
        i
    }
}

/// The end of the run of name characters that starts at `i`.
pub open spec fn name_end(s: Seq<char>, i: int) -> int
    decreases s.len() - i,
{
    if 0 <= i < s.len() && name_char(s[i]) {
        name_end(s, i + 1)
    } else {
        i
    }
}

/// The kind of a name: the keywords `let` and `print`, else an identifier.
pub open spec fn name_kind(text: Seq<char>) -> TokenKind {
    if text == "let"@ {
        TokenKind::Let
    } else if text == "print"@ {
        TokenKind::Print
    } else {
        TokenKind::Ident
    }
}

/// The tokens of line `s` from character `i` on: spaces skipped, one-character
/// operators, digit runs as numbers, and names that start with a letter or `_`; it
/// stops at a character that no token may hold.
pub open spec fn line_tokens_from(s: Seq<char>, i: int) -> Seq<(TokenKind, Seq<char>, int)>
    decreases s.len() - i,
{
    if i < 0 || i >= s.len() {
        Seq::empty()
    } else if s[i] == ' ' {
        line_tokens_from(s, i + 1)
    } else if single_kind(s[i]) is Some {
        seq![(single_kind(s[i])->0, seq![s[i]], i)] + line_tokens_from(s, i + 1)
    } else if is_digit_char(s[i]) {
        let j = digits_end(s, i);
        if i < j <= s.len() {
            seq![(TokenKind::Number, s.subrange(i, j), i)] + line_tokens_from(s, j)
        } else {
            Seq::empty()
        }
    } else if is_alpha_char(s[i]) || s[i] == '_' {
        let j = name_end(s, i);
        if i < j <= s.len() {
            seq![(name_kind(s.subrange(i, j)), s.subrange(i, j), i)] + line_tokens_from(s, j)
        } else {
            Seq::empty()
        }
    } else {
        Seq::empty()
    }
}

/// The tokens of the first `k` lines, each line closed by a newline token at its length.
pub open spec fn lines_tokens(lines: Seq<String>, k: int) -> Seq<(TokenKind, Seq<char>, int)>
    decreases k,
{
    if k <= 0 {
        Seq::empty()
    } else {
        lines_tokens(lines, k - 1) + line_tokens_from(lines[k - 1]@, 0) + seq![
            (TokenKind::Newline, Seq::<char>::empty(), lines[k - 1]@.len() as int),
        ]
    }
}

proof fn lemma_run_ends(s: Seq<char>, i: int)
    requires
        0 <= i <= s.len(),
    ensures
        i <= digits_end(s, i) <= s.len(),
        i <= name_end(s, i) <= s.len(),
        forall|k: int| i <= k < digits_end(s, i) ==> is_digit_char(#[trigger] s[k]),
        forall|k: int| i <= k < name_end(s, i) ==> name_char(#[trigger] s[k]),
    decreases s.len() - i,
{
    if i < s.len() {
        lemma_run_ends(s, i + 1);
    }
}

/// Splits the lines into tokens: one-character operators, digit runs as numbers, runs
/// of letters, digits and `_` that start with a letter or `_` as names (`let` and
/// `print` as keywords), a newline token after each line and an end marker after all.
/// Fails exactly when some line holds a character that no token may hold.
pub fn tokenize(lines: &Vec<String>) -> (r: Result<Vec<Token>, TokenizeError>)
    requires
        lines@.len() <= i64::MAX,
        forall|l: int| 0 <= l < lines@.len() ==> #[trigger] lines@[l]@.len() <= i64::MAX,
    ensures
        r is Ok <==> forall|l: int, i: int|
            0 <= l < lines@.len() && 0 <= i < lines@[l]@.len() ==> lexable(#[trigger] lines@[l]@[i]),
        r matches Ok(tokens) ==> tokens_view(tokens@) == lines_tokens(lines@, lines@.len() as int)
            + seq![(TokenKind::Eof, Seq::<char>::empty(), lines@.len() as int)],
        r matches Ok(tokens) ==> tokens@.len() > 0 && tokens@.last().kind == TokenKind::Eof
            && no_eof(tokens@.drop_last()),
        r matches Err(e) ==> 0 <= e.line < lines@.len() && 0 <= e.pos < lines@[e.line as int]@.len()
            && !lexable(lines@[e.line as int]@[e.pos as int]),
{
    let mut tokens: Vec<Token> = Vec::new();
    let mut li: usize = 0;
    while li < lines.len()
        invariant
            li <= lines@.len(),
            lines@.len() <= i64::MAX,
            forall|l: int| 0 <= l < lines@.len() ==> #[trigger] lines@[l]@.len() <= i64::MAX,
            forall|l: int, i: int|
                0 <= l < li && 0 <= i < lines@[l]@.len() ==> lexable(#[trigger] lines@[l]@[i]),
            no_eof(tokens@),
            tokens_view(tokens@) == lines_tokens(lines@, li as int),
        decreases lines@.len() - li,
    {
        let source = lines[li].as_str();
        let n = source.unicode_len();
        let ghost s = source@;
        let ghost done = tokens_view(tokens@);
        let mut i: usize = 0;
        while i < n
            invariant
                i <= n,
                n == source@.len(),
                s == source@,
                source@ == lines@[li as int]@,
                li < lines@.len(),
                n <= i64::MAX,
                lines@.len() <= i64::MAX,
                forall|k: int| 0 <= k < i ==> lexable(#[trigger] source@[k]),
                no_eof(tokens@),
                tokens_view(tokens@) + line_tokens_from(s, i as int) == done + line_tokens_from(s, 0),
            decreases n - i,
        {
            let ghost before = tokens@;
            let c = source.get_char(i);
            if c == ' ' {
                i = i + 1;
                continue;
            }
            match single_token_kind(c) {
                Some(kind) => {
                    let text = source.substring_char(i, i + 1).to_owned();
                    assert(text@ =~= seq![c]);
                    tokens.push(Token::new(kind, text, i as i64));
                    proof {
                        assert(tokens@.drop_last() == before);
                        assert(tokens_view(tokens@) =~= tokens_view(before) + seq![
                            (kind, seq![c], i as int),
                        ]);
                    }
                    i = i + 1;
                    continue;
                },
                None => {},
            }
            if '0' <= c && c <= '9' {
                let start = i;
                proof {
                    lemma_run_ends(s, start as int);
                }
                while i < n && ('0' <= source.get_char(i) && source.get_char(i) <= '9')
                    invariant
                        start <= i <= n,
                        n == source@.len(),
                        s == source@,
                        digits_end(s, start as int) == digits_end(s, i as int),
                        forall|k: int| 0 <= k < i ==> lexable(#[trigger] source@[k]),
                    decreases n - i,
                {
                    i = i + 1;
                }
                let text = source.substring_char(start, i).to_owned();
                tokens.push(Token::new(TokenKind::Number, text, start as i64));
                proof {
                    assert(tokens@.drop_last() == before);
                    assert(tokens_view(tokens@) =~= tokens_view(before) + seq![
                        (TokenKind::Number, s.subrange(start as int, i as int), start as int),
                    ]);
                }
                continue;
            }
            if ('a' <= c && c <= 'z') || ('A' <= c && c <= 'Z') || c == '_' {
                let start = i;
                proof {
                    lemma_run_ends(s, start as int);
                }
                while i < n && is_name_char(source.get_char(i))
                    invariant
                        start <= i <= n,
                        n == source@.len(),
                        s == source@,
                        name_end(s, start as int) == name_end(s, i as int),
                        forall|k: int| 0 <= k < i ==> lexable(#[trigger] source@[k]),
                    decreases n - i,
                {
                    i = i + 1;
                }
                let text = source.substring_char(start, i).to_owned();
                let kw_let = "let".to_owned();
                let kw_print = "print".to_owned();
                let kind = if text == kw_let {
                    TokenKind::Let
                } else if text == kw_print {
                    TokenKind::Print
                } else {
                    TokenKind::Ident
                };
                let ghost tv = text@;
                tokens.push(Token::new(kind, text, start as i64));
                proof {
                    assert(kind == name_kind(tv));
                    assert(tokens@.drop_last() == before);
                    assert(tokens_view(tokens@) =~= tokens_view(before) + seq![
                        (kind, s.subrange(start as int, i as int), start as int),
                    ]);
                }
                continue;
            }
            assert(!lexable(lines@[li as int]@[i as int]));
            return Err(TokenizeError { line: li as i64, pos: i as i64 });
        }
        let ghost before = tokens@;
        tokens.push(Token::new(TokenKind::Newline, String::new(), n as i64));
        proof {
            assert(tokens@.drop_last() == before);
            assert(line_tokens_from(s, n as int) == Seq::<(TokenKind, Seq<char>, int)>::empty());
            assert(tokens_view(before) =~= done + line_tokens_from(s, 0));
            assert(tokens_view(tokens@) =~= lines_tokens(lines@, li + 1));
        }
        li = li + 1;
    }
    let ghost before = tokens@;
    tokens.push(Token::new(TokenKind::Eof, String::new(), lines.len() as i64));
    assert(tokens@.drop_last() =~= before);
    assert(tokens_view(tokens@) =~= tokens_view(before) + seq![
        (TokenKind::Eof, Seq::<char>::empty(), lines@.len() as int),
    ]);
    Ok(tokens)
}

fn is_name_char(c: char) -> (r: bool)
    ensures
        r == name_char(c),
{
    ('a' <= c && c <= 'z') || ('A' <= c && c <= 'Z') || c == '_' || ('0' <= c && c <= '9')
}

/// `let v<i> = <i + 1>`.
pub open spec fn let_line(i: int) -> Seq<char> {
    "let v"@ + decimal(i) + " = "@ + decimal(i + 1)
}

/// `v<x> = (v<x> * <c1> + v<y> + 10000) / <c2>` for step `i` over `var_count` variables.
pub open spec fn update_line(i: int, var_count: int) -> Seq<char> {
    let x = i % var_count;
    let y = (i + 3) % var_count;
    "v"@ + decimal(x) + " = (v"@ + decimal(x) + " * "@ + decimal(i % 7 + 1) + " + v"@ + decimal(y)
        + " + 10000) / "@ + decimal(i % 11 + 2)
}

/// The lines of step `i`: the update, and every 97th step a print of the updated variable.
pub open spec fn step_lines(i: int, var_count: int) -> Seq<Seq<char>> {
    if i % 97 == 0 {
        seq![update_line(i, var_count), "print v"@ + decimal(i % var_count)]
    } else {
        seq![update_line(i, var_count)]
    }
}

/// The lines of the first `k` steps.
pub open spec fn steps_lines(k: int, var_count: int) -> Seq<Seq<char>>
    decreases k,
{
    if k <= 0 {
        Seq::empty()
    } else {
        steps_lines(k - 1, var_count) + step_lines(k - 1, var_count)
    }
}

/// The benchmark program: the declarations, the steps, and a closing print of the sum
/// of the first four variables.
pub open spec fn benchmark_lines(var_count: int, loops: int) -> Seq<Seq<char>> {
    Seq::new(var_count as nat, |i: int| let_line(i)) + steps_lines(loops, var_count) + seq![
        "print (v0 + v1 + v2 + v3)"@,
    ]
}

/// The text of each line.
pub open spec fn line_texts(lines: Seq<String>) -> Seq<Seq<char>> {
    lines.map_values(|s: String| s@)
}

/// Generates the benchmark program for `var_count` variables and `loops` steps.
pub fn build_benchmark_source(var_count: i64, loops: i64) -> (r: Vec<String>)
    requires
        0 <= var_count < i64::MAX,
        0 <= loops < i64::MAX - 3,
        loops > 0 ==> var_count > 0,
    ensures
        line_texts(r@) == benchmark_lines(var_count as int, loops as int),
{
    let mut lines: Vec<String> = Vec::new();
    let mut i: i64 = 0;
    while i < var_count
        invariant
            0 <= i <= var_count < i64::MAX,
            line_texts(lines@) =~= Seq::new(i as nat, |k: int| let_line(k)),
        decreases var_count - i,
    {
        let line = "let v".to_owned().concat(int_to_string(i).as_str()).concat(" = ").concat(
            int_to_string(i + 1).as_str(),
        );
        assert(line@ == let_line(i as int));
        let ghost prev = lines@;
        lines.push(line);
        assert(lines@ == prev.push(line));
        assert(line_texts(lines@) =~= line_texts(prev).push(line@));
        i = i + 1;
        assert(line_texts(lines@) =~= Seq::new(i as nat, |k: int| let_line(k)));
    }
    let ghost decls = line_texts(lines@);
    let mut j: i64 = 0;
    while j < loops
        invariant
            0 <= j <= loops < i64::MAX - 3,
            loops > 0 ==> var_count > 0,
            decls == Seq::new(var_count as nat, |k: int| let_line(k)),
            line_texts(lines@) =~= decls + steps_lines(j as int, var_count as int),
        decreases loops - j,
    {
        let x = j % var_count;
        let y = (j + 3) % var_count;
        let c1 = j % 7 + 1;
        let c2 = j % 11 + 2;
        let xs = int_to_string(x);
        let line = "v".to_owned().concat(xs.as_str()).concat(" = (v").concat(xs.as_str()).concat(
            " * ",
        ).concat(int_to_string(c1).as_str()).concat(" + v").concat(int_to_string(y).as_str()).concat(
            " + 10000) / ",
        ).concat(int_to_string(c2).as_str());
        assert(line@ == update_line(j as int, var_count as int));
        let ghost prev = lines@;
        lines.push(line);
        assert(line_texts(lines@) =~= line_texts(prev).push(line@));
        if j % 97 == 0 {
            let p = "print v".to_owned().concat(xs.as_str());
            let ghost mid = lines@;
            lines.push(p);
            assert(line_texts(lines@) =~= line_texts(mid).push(p@));
        }
        assert(line_texts(lines@) =~= line_texts(prev) + step_lines(j as int, var_count as int));
        j = j + 1;
        assert(line_texts(lines@) =~= decls + steps_lines(j as int, var_count as int));
    }
    lines.push("print (v0 + v1 + v2 + v3)".to_owned());
    assert(line_texts(lines@) =~= benchmark_lines(var_count as int, loops as int));
    lines
}

} // verus!
