use vstd::prelude::*;

use crate::ast::{lemma_views, lemma_views_push, views, Ast, AstKind, BinOpKind, Node, NodeKind, UniOpKind};
use crate::grammar::{
    assign, at, block, decl_var, expect, primary, product, product_rest, program, stmt, sum, sum_rest,
    unary,
};
use crate::token::{Token, TokenKind};

verus! {

/// Why a token sequence is not a program; each names the token at fault.
#[derive(Debug, Clone, PartialEq, Eq, Hash)]
pub enum ParseError {
    UnexpectedToken(Token),
    NotExpression(Token),
    NotOperator(Token),
    UnclosedOpenParen(Token),
    RedundantExpression(Token),
    NoSemicolon,
    Eof,
}

/// What a rule returned, with the position after it, in the terms of the grammar.
pub open spec fn outcome(r: Result<Ast, ParseError>, q: int) -> Result<(Node, int), ParseError> {
    match r {
        Ok(a) => Ok((a@, q)),
        Err(e) => Err(e),
    }
}

/// A recursive-descent parser over a token sequence, with one token of lookahead.
pub struct Parser<'a> {
    tokens: &'a Vec<Token>,
    pos: usize,
}

impl<'a> Parser<'a> {
    /// The tokens being parsed.
    pub closed spec fn tokens(&self) -> Seq<Token> {
        self.tokens@
    }

    /// The position of the next token to read.
    pub closed spec fn position(&self) -> int {
        self.pos as int
    }

    pub open spec fn wf(&self) -> bool {
        0 <= self.position() <= self.tokens().len()
    }

    pub fn new(tokens: &'a Vec<Token>) -> (r: Self)
        ensures
            r.wf(),
            r.tokens() == tokens@,
            r.position() == 0,
    {
        Parser { tokens, pos: 0 }
    }

    /// Whether the next token is of the payload-free kind `k`.
    fn peek_is(&self, k: &TokenKind) -> (r: bool)
        requires
            self.wf(),
            k.is_mark(),
        ensures
            r == at(self.tokens(), self.position(), *k),
    {
        if self.tokens.len() == self.pos {
            return false;
        }
        self.tokens[self.pos].value.is_kind(k)
    }

    /// Take a look at the next token.
    fn peek(&self) -> (r: Option<&Token>)
        requires
            self.wf(),
        ensures
            match r {
                Some(t) => self.position() < self.tokens().len() && *t == self.tokens()[self.position()],
                None => self.position() == self.tokens().len(),
            },
    {
        if self.tokens.len() == self.pos {
            return None;
        }
        Some(&self.tokens[self.pos])
    }

    /// Return the next token and move past it.
    fn next(&mut self) -> (r: Option<Token>)
        requires
            old(self).wf(),
        ensures
            final(self).wf(),
            final(self).tokens() == old(self).tokens(),
            match r {
                Some(t) => old(self).position() < old(self).tokens().len()
                    && t == old(self).tokens()[old(self).position()]
                    && final(self).position() == old(self).position() + 1,
                None => old(self).position() == old(self).tokens().len()
                    && final(self).position() == old(self).position(),
            },
    {
        if self.tokens.len() == self.pos {
            return None;
        }
        let token = self.tokens[self.pos].duplicate();
        self.pos += 1;
        Some(token)
    }

    /// Read the payload-free token `k` and move past it, even when it is not `k`.
    /// The grammar only ever expects a keyword or a punctuation mark here
    /// (`(`, `)`, `=`, `;`): numbers and names are read by the rules that build
    /// nodes from them, which match on the token instead.
    fn expect_token(&mut self, k: TokenKind) -> (r: Result<(), ParseError>)
        requires
            old(self).wf(),
            k.is_mark(),
        ensures
            final(self).wf(),
            final(self).tokens() == old(self).tokens(),
            match expect(old(self).tokens(), old(self).position(), k) {
                Ok(q) => r is Ok && final(self).position() == q,
                Err(e) => r == Err::<(), ParseError>(e),
            },
            old(self).position() < old(self).tokens().len() ==> final(self).position() == old(self).position() + 1,
            old(self).position() == old(self).tokens().len() ==> final(self).position() == old(self).position(),
    {
        match self.next() {
            None => Err(ParseError::Eof),
            Some(token) => {
                if token.value.is_kind(&k) {
                    Ok(())
                } else {
                    Err(ParseError::UnexpectedToken(token))
                }
            },
        }
    }
}

} // verus!

verus! {

impl<'a> Parser<'a> {
    /// Primary ::= Number | Identifier | "(" Add ")"
    fn parse_primary(&mut self) -> (r: Result<Ast, ParseError>)
        requires
            old(self).wf(),
        ensures
            final(self).wf(),
            final(self).tokens() == old(self).tokens(),
            outcome(r, final(self).position()) == primary(old(self).tokens(), old(self).position()),
            r is Ok ==> old(self).position() < final(self).position(),
        decreases old(self).tokens().len() - old(self).position(), 0int,
    {
        let token = match self.next() {
            Some(t) => t,
            None => return Err(ParseError::Eof),
        };
        match &token.value {
            TokenKind::Number(n) => Ok(Ast::num(*n, token.loc)),
            TokenKind::Identifier(var) => Ok(Ast::variable(var.clone(), token.loc)),
            TokenKind::LParen => {
                let node = match self.parse_add() {
                    Ok(a) => a,
                    Err(e) => return Err(e),
                };
                match self.next() {
                    Some(t) => {
                        if t.value.is_kind(&TokenKind::RParen) {
                            Ok(node)
                        } else {
                            Err(ParseError::RedundantExpression(t))
                        }
                    },
                    None => Err(ParseError::UnclosedOpenParen(token)),
                }
            },
            _ => Err(ParseError::NotExpression(token)),
        }
    }

    /// Unary ::= ("+" | "-")? Primary
    fn parse_unary(&mut self) -> (r: Result<Ast, ParseError>)
        requires
            old(self).wf(),
        ensures
            final(self).wf(),
            final(self).tokens() == old(self).tokens(),
            outcome(r, final(self).position()) == unary(old(self).tokens(), old(self).position()),
            r is Ok ==> old(self).position() < final(self).position(),
        decreases old(self).tokens().len() - old(self).position(), 1int,
    {
        let is_plus = self.peek_is(&TokenKind::Plus);
        let is_minus = self.peek_is(&TokenKind::Minus);
        if is_plus || is_minus {
            let sign_loc = self.tokens[self.pos].loc;
            self.next();
            let op = if is_plus { UniOpKind::Plus } else { UniOpKind::Minus };
            match self.parse_primary() {
                Ok(node) => {
                    let loc = sign_loc.merge(&node.loc);
                    Ok(Ast::uniop(op, node, loc))
                },
                Err(e) => Err(e),
            }
        } else {
            self.parse_primary()
        }
    }

    /// Mul ::= Unary (("*" | "/") Unary)*
    fn parse_mul(&mut self) -> (r: Result<Ast, ParseError>)
        requires
            old(self).wf(),
        ensures
            final(self).wf(),
            final(self).tokens() == old(self).tokens(),
            outcome(r, final(self).position()) == product(old(self).tokens(), old(self).position()),
            r is Ok ==> old(self).position() < final(self).position(),
        decreases old(self).tokens().len() - old(self).position(), 3int,
    {
        let ghost toks = self.tokens();
        let ghost p0 = self.position();
        let mut lhs = match self.parse_unary() {
            Ok(a) => a,
            Err(e) => return Err(e),
        };
        loop
            invariant
                self.wf(),
                self.tokens() == toks,
                toks == old(self).tokens(),
                p0 == old(self).position(),
                p0 < self.position(),
                product(toks, p0) == product_rest(toks, lhs@, self.position()),
            ensures
                !at(toks, self.position(), TokenKind::Asterisk),
                !at(toks, self.position(), TokenKind::Slash),
            decreases toks.len() - self.position(),
        {
            let is_mul = self.peek_is(&TokenKind::Asterisk);
            let is_div = self.peek_is(&TokenKind::Slash);
            if !(is_mul || is_div) {
                break;
            }
            self.next();
            let op = if is_mul { BinOpKind::Mul } else { BinOpKind::Div };
            let rhs = match self.parse_unary() {
                Ok(a) => a,
                Err(e) => return Err(e),
            };
            let loc = lhs.loc.merge(&rhs.loc);
            lhs = Ast::binop(op, lhs, rhs, loc);
        }
        Ok(lhs)
    }

    /// Add ::= Mul (("+" | "-") Mul)*
    fn parse_add(&mut self) -> (r: Result<Ast, ParseError>)
        requires
            old(self).wf(),
        ensures
            final(self).wf(),
            final(self).tokens() == old(self).tokens(),
            outcome(r, final(self).position()) == sum(old(self).tokens(), old(self).position()),
            r is Ok ==> old(self).position() < final(self).position(),
        decreases old(self).tokens().len() - old(self).position(), 5int,
    {
        let ghost toks = self.tokens();
        let ghost p0 = self.position();
        let mut lhs = match self.parse_mul() {
            Ok(a) => a,
            Err(e) => return Err(e),
        };
        loop
            invariant
                self.wf(),
                self.tokens() == toks,
                toks == old(self).tokens(),
                p0 == old(self).position(),
                p0 < self.position(),
                sum(toks, p0) == sum_rest(toks, lhs@, self.position()),
            ensures
                !at(toks, self.position(), TokenKind::Plus),
                !at(toks, self.position(), TokenKind::Minus),
            decreases toks.len() - self.position(),
        {
            let is_add = self.peek_is(&TokenKind::Plus);
            let is_sub = self.peek_is(&TokenKind::Minus);
            if !(is_add || is_sub) {
                break;
            }
            self.next();
            let op = if is_add { BinOpKind::Add } else { BinOpKind::Sub };
            let rhs = match self.parse_mul() {
                Ok(a) => a,
                Err(e) => return Err(e),
            };
            let loc = lhs.loc.merge(&rhs.loc);
            lhs = Ast::binop(op, lhs, rhs, loc);
        }
        Ok(lhs)
    }
}

} // verus!

verus! {

impl<'a> Parser<'a> {
    /// Assign ::= Add ("=" Assign)?
    fn parse_assign(&mut self) -> (r: Result<Ast, ParseError>)
        requires
            old(self).wf(),
        ensures
            final(self).wf(),
            final(self).tokens() == old(self).tokens(),
            outcome(r, final(self).position()) == assign(old(self).tokens(), old(self).position()),
            r is Ok ==> old(self).position() < final(self).position(),
        decreases old(self).tokens().len() - old(self).position(), 6int,
    {
        let lhs = match self.parse_add() {
            Ok(a) => a,
            Err(e) => return Err(e),
        };
        if self.peek_is(&TokenKind::Assignment) {
            self.next();
            let rhs = match self.parse_assign() {
                Ok(a) => a,
                Err(e) => return Err(e),
            };
            let loc = lhs.loc.merge(&rhs.loc);
            Ok(Ast::assignment(lhs, rhs, loc))
        } else {
            Ok(lhs)
        }
    }

    /// DeclVar ::= "int" Identifier "=" Add ";"
    fn parse_decl_var(&mut self) -> (r: Result<Ast, ParseError>)
        requires
            old(self).wf(),
            at(old(self).tokens(), old(self).position(), TokenKind::Int),
        ensures
            final(self).wf(),
            final(self).tokens() == old(self).tokens(),
            outcome(r, final(self).position()) == decl_var(old(self).tokens(), old(self).position()),
            r is Ok ==> old(self).position() < final(self).position(),
        decreases old(self).tokens().len() - old(self).position(), 7int,
    {
        self.next();
        let token = match self.next() {
            Some(t) => t,
            None => return Err(ParseError::Eof),
        };
        match &token.value {
            TokenKind::Identifier(var) => {
                let lhs = Ast::new(AstKind::Variable(var.clone()), token.loc);
                assert(lhs@ == Node { kind: NodeKind::Variable(*var), loc: token.loc });
                match self.expect_token(TokenKind::Assignment) {
                    Ok(()) => {},
                    Err(e) => return Err(e),
                }
                let rhs = match self.parse_add() {
                    Ok(a) => a,
                    Err(e) => return Err(e),
                };
                let loc = lhs.loc.merge(&rhs.loc);
                match self.expect_token(TokenKind::Semicolon) {
                    Ok(()) => {},
                    Err(e) => return Err(e),
                }
                let r = Ast::new(AstKind::Decl { lhs: Box::new(lhs), rhs: Box::new(rhs) }, loc);
                assert(r@.loc == loc);
                assert(r@.kind == NodeKind::Decl { lhs: Box::new(lhs@), rhs: Box::new(rhs@) });
                Ok(r)
            },
            _ => Err(ParseError::UnexpectedToken(token)),
        }
    }

    /// Stmt ::= DeclVar | "if" "(" Assign ")" Stmt | "{" Stmt* "}" | "return" Assign ";" | Assign ";"
    fn parse_stmt(&mut self) -> (r: Result<Ast, ParseError>)
        requires
            old(self).wf(),
        ensures
            final(self).wf(),
            final(self).tokens() == old(self).tokens(),
            outcome(r, final(self).position()) == stmt(old(self).tokens(), old(self).position()),
            r is Ok ==> old(self).position() < final(self).position(),
        decreases old(self).tokens().len() - old(self).position(), 8int,
    {
        let ghost toks = self.tokens();
        let ghost p0 = self.position();
        if self.peek_is(&TokenKind::Int) {
            self.parse_decl_var()
        } else if self.peek_is(&TokenKind::If) {
            self.next();
            match self.expect_token(TokenKind::LParen) {
                Ok(()) => {},
                Err(e) => return Err(e),
            }
            let cond = match self.parse_assign() {
                Ok(a) => a,
                Err(e) => return Err(e),
            };
            match self.expect_token(TokenKind::RParen) {
                Ok(()) => {},
                Err(e) => return Err(e),
            }
            let then = match self.parse_stmt() {
                Ok(a) => a,
                Err(e) => return Err(e),
            };
            let loc = cond.loc.merge(&then.loc);
            Ok(Ast::new(AstKind::If { cond: Box::new(cond), then: Box::new(then), els: None }, loc))
        } else if self.peek_is(&TokenKind::LBrace) {
            let mut loc = self.tokens[self.pos].loc;
            self.next();
            let mut stmts: Vec<Ast> = Vec::new();
            loop
                invariant
                    self.wf(),
                    self.tokens() == toks,
                    toks == old(self).tokens(),
                    p0 == old(self).position(),
                    p0 < self.position(),
                    stmt(toks, p0) == block(toks, self.position(), views(stmts@), loc),
                ensures
                    at(toks, self.position(), TokenKind::RBrace),
                decreases toks.len() - self.position(),
            {
                if self.peek_is(&TokenKind::RBrace) {
                    break;
                }
                let s = match self.parse_stmt() {
                    Ok(a) => a,
                    Err(e) => return Err(e),
                };
                loc = if stmts.len() == 0 { s.loc } else { loc.merge(&s.loc) };
                proof {
                    lemma_views(stmts@);
                    lemma_views_push(stmts@, s);
                }
                stmts.push(s);
            }
            let close = self.tokens[self.pos].loc;
            self.next();
            proof {
                lemma_views(stmts@);
            }
            let span = if stmts.len() == 0 { loc.merge(&close) } else { loc };
            Ok(Ast::new(AstKind::CompStmt { stmts }, span))
        } else if self.peek_is(&TokenKind::Return) {
            self.next();
            let expr = match self.parse_assign() {
                Ok(a) => a,
                Err(e) => return Err(e),
            };
            let loc = expr.loc;
            match self.expect_token(TokenKind::Semicolon) {
                Ok(()) => {},
                Err(e) => return Err(e),
            }
            Ok(Ast::new(AstKind::Return { expr: Box::new(expr) }, loc))
        } else {
            let ast = match self.parse_assign() {
                Ok(a) => a,
                Err(e) => return Err(e),
            };
            match self.expect_token(TokenKind::Semicolon) {
                Ok(()) => {},
                Err(e) => return Err(e),
            }
            Ok(ast)
        }
    }

    /// Parse the tokens from the current position to the end into the
    /// program's statements, in order; the first error ends the parse.
    pub fn parse(&mut self) -> (r: Result<Vec<Ast>, ParseError>)
        requires
            old(self).wf(),
        ensures
            final(self).wf(),
            final(self).tokens() == old(self).tokens(),
            match program(old(self).tokens(), old(self).position(), Seq::empty()) {
                Ok(ns) => r is Ok && views(r->Ok_0@) == ns && final(self).position() == final(self).tokens().len(),
                Err(e) => r == Err::<Vec<Ast>, ParseError>(e),
            },
    {
        let ghost toks = self.tokens();
        let ghost p0 = self.position();
        let mut asts: Vec<Ast> = Vec::new();
        proof {
            lemma_views(asts@);
            assert(views(asts@) =~= Seq::<Node>::empty());
        }
        loop
            invariant_except_break
                program(toks, p0, Seq::empty()) == program(toks, self.position(), views(asts@)),
            invariant
                self.wf(),
                self.tokens() == toks,
                toks == old(self).tokens(),
                p0 == old(self).position(),
            ensures
                program(toks, p0, Seq::empty()) == Ok::<Seq<Node>, ParseError>(views(asts@)),
                self.position() == toks.len(),
            decreases toks.len() - self.position(),
        {
            if self.peek().is_none() {
                break;
            }
            let ast = match self.parse_stmt() {
                Ok(a) => a,
                Err(e) => return Err(e),
            };
            proof {
                lemma_views_push(asts@, ast);
            }
            asts.push(ast);
        }
        Ok(asts)
    }
}

} // verus!
