use vstd::prelude::*;

use crate::ast::{BinOpKind, Node, NodeKind, UniOpKind};
use crate::loc::Loc;
use crate::parser::ParseError;
use crate::token::{Token, TokenKind};

verus! {

// The language, one rule per function. Each takes the whole token sequence and
// the position where the rule starts, and gives the node it builds with the
// position after it, or the first error met. Where a rule goes on after a
// sub-rule, it first tests that the position moved forward: this makes the
// recursion well-founded, and the `lemma_*_advances` below prove that the test
// holds of every rule that succeeds.

/// The payload-free token `k` at `p`: the position after it, or the error.
/// Every rule expects a keyword or punctuation mark this way, never a number
/// or a name.
pub open spec fn expect(toks: Seq<Token>, p: int, k: TokenKind) -> Result<int, ParseError> {
    if 0 <= p < toks.len() {
        if toks[p].value == k {
            Ok(p + 1)
        } else {
            Err(ParseError::UnexpectedToken(toks[p]))
        }
    } else {
        Err(ParseError::Eof)
    }
}

/// Whether the token at `p` exists and is of kind `k`.
pub open spec fn at(toks: Seq<Token>, p: int, k: TokenKind) -> bool {
    0 <= p < toks.len() && toks[p].value == k
}

pub open spec fn moved(toks: Seq<Token>, p: int, q: int) -> bool {
    p < q <= toks.len()
}

/// Primary ::= Number | Identifier | "(" Add ")"
pub open spec fn primary(toks: Seq<Token>, p: int) -> Result<(Node, int), ParseError>
    decreases toks.len() - p, 0int,
{
    if 0 <= p < toks.len() {
        let t = toks[p];
        match t.value {
            TokenKind::Number(n) => Ok((Node { kind: NodeKind::Num(n), loc: t.loc }, p + 1)),
            TokenKind::Identifier(s) => Ok((Node { kind: NodeKind::Variable(s), loc: t.loc }, p + 1)),
            TokenKind::LParen => match sum(toks, p + 1) {
                Ok((e, q)) => if 0 <= q < toks.len() {
                    if toks[q].value == TokenKind::RParen {
                        Ok((e, q + 1))
                    } else {
                        Err(ParseError::RedundantExpression(toks[q]))
                    }
                } else {
                    Err(ParseError::UnclosedOpenParen(t))
                },
                Err(err) => Err(err),
            },
            _ => Err(ParseError::NotExpression(t)),
        }
    } else {
        Err(ParseError::Eof)
    }
}

/// Unary ::= ("+" | "-")? Primary; the node spans the sign and its operand.
pub open spec fn unary(toks: Seq<Token>, p: int) -> Result<(Node, int), ParseError>
    decreases toks.len() - p, 1int,
{
    if at(toks, p, TokenKind::Plus) || at(toks, p, TokenKind::Minus) {
        let op = if at(toks, p, TokenKind::Plus) { UniOpKind::Plus } else { UniOpKind::Minus };
        match primary(toks, p + 1) {
            Ok((e, q)) => Ok((
                Node { kind: NodeKind::UniOp { op, node: Box::new(e) }, loc: toks[p].loc.join(e.loc) },
                q,
            )),
            Err(err) => Err(err),
        }
    } else {
        primary(toks, p)
    }
}

pub open spec fn binary(op: BinOpKind, lhs: Node, rhs: Node) -> Node {
    Node {
        kind: NodeKind::BinOp { op, lhs: Box::new(lhs), rhs: Box::new(rhs) },
        loc: lhs.loc.join(rhs.loc),
    }
}

/// The operators `* /` that follow `lhs` at `p`, folded to the left.
pub open spec fn product_rest(toks: Seq<Token>, lhs: Node, p: int) -> Result<(Node, int), ParseError>
    decreases toks.len() - p, 2int,
{
    if at(toks, p, TokenKind::Asterisk) || at(toks, p, TokenKind::Slash) {
        let op = if at(toks, p, TokenKind::Asterisk) { BinOpKind::Mul } else { BinOpKind::Div };
        match unary(toks, p + 1) {
            Ok((rhs, q)) => if moved(toks, p, q) {
                product_rest(toks, binary(op, lhs, rhs), q)
            } else {
                Err(ParseError::Eof)
            },
            Err(err) => Err(err),
        }
    } else {
        Ok((lhs, p))
    }
}

/// Mul ::= Unary (("*" | "/") Unary)*
pub open spec fn product(toks: Seq<Token>, p: int) -> Result<(Node, int), ParseError>
    decreases toks.len() - p, 3int,
{
    match unary(toks, p) {
        Ok((lhs, q)) => if moved(toks, p, q) {
            product_rest(toks, lhs, q)
        } else {
            Err(ParseError::Eof)
        },
        Err(err) => Err(err),
    }
}

/// The operators `+ -` that follow `lhs` at `p`, folded to the left.
pub open spec fn sum_rest(toks: Seq<Token>, lhs: Node, p: int) -> Result<(Node, int), ParseError>
    decreases toks.len() - p, 4int,
{
    if at(toks, p, TokenKind::Plus) || at(toks, p, TokenKind::Minus) {
        let op = if at(toks, p, TokenKind::Plus) { BinOpKind::Add } else { BinOpKind::Sub };
        match product(toks, p + 1) {
            Ok((rhs, q)) => if moved(toks, p, q) {
                sum_rest(toks, binary(op, lhs, rhs), q)
            } else {
                Err(ParseError::Eof)
            },
            Err(err) => Err(err),
        }
    } else {
        Ok((lhs, p))
    }
}

/// Add ::= Mul (("+" | "-") Mul)*
pub open spec fn sum(toks: Seq<Token>, p: int) -> Result<(Node, int), ParseError>
    decreases toks.len() - p, 5int,
{
    match product(toks, p) {
        Ok((lhs, q)) => if moved(toks, p, q) {
            sum_rest(toks, lhs, q)
        } else {
            Err(ParseError::Eof)
        },
        Err(err) => Err(err),
    }
}

/// Assign ::= Add ("=" Assign)?, nesting to the right.
pub open spec fn assign(toks: Seq<Token>, p: int) -> Result<(Node, int), ParseError>
    decreases toks.len() - p, 6int,
{
    match sum(toks, p) {
        Ok((lhs, q)) => if at(toks, q, TokenKind::Assignment) && p < q {
            match assign(toks, q + 1) {
                Ok((rhs, q2)) => Ok((
                    Node {
                        kind: NodeKind::Assignment { lhs: Box::new(lhs), rhs: Box::new(rhs) },
                        loc: lhs.loc.join(rhs.loc),
                    },
                    q2,
                )),
                Err(err) => Err(err),
            }
        } else {
            Ok((lhs, q))
        },
        Err(err) => Err(err),
    }
}

/// DeclVar ::= "int" Identifier "=" Add ";", with `p` at the keyword.
pub open spec fn decl_var(toks: Seq<Token>, p: int) -> Result<(Node, int), ParseError>
    decreases toks.len() - p, 7int,
{
    if 0 <= p && p + 1 < toks.len() {
        let t = toks[p + 1];
        match t.value {
            TokenKind::Identifier(s) => {
                let lhs = Node { kind: NodeKind::Variable(s), loc: t.loc };
                match expect(toks, p + 2, TokenKind::Assignment) {
                    Ok(q0) => match sum(toks, q0) {
                        Ok((rhs, q)) => match expect(toks, q, TokenKind::Semicolon) {
                            Ok(q2) => Ok((
                                Node {
                                    kind: NodeKind::Decl { lhs: Box::new(lhs), rhs: Box::new(rhs) },
                                    loc: lhs.loc.join(rhs.loc),
                                },
                                q2,
                            )),
                            Err(err) => Err(err),
                        },
                        Err(err) => Err(err),
                    },
                    Err(err) => Err(err),
                }
            },
            _ => Err(ParseError::UnexpectedToken(t)),
        }
    } else {
        Err(ParseError::Eof)
    }
}

/// The statements of a block up to its closing brace, with `p` after the
/// statements `stmts` read so far. `loc` is the opening brace's span while no
/// statement has been read, then the join of the statements' spans. A block
/// spans its statements; an empty one spans its two braces.
pub open spec fn block(toks: Seq<Token>, p: int, stmts: Seq<Node>, loc: Loc) -> Result<(Node, int), ParseError>
    decreases toks.len() - p, 9int,
{
    if at(toks, p, TokenKind::RBrace) {
        let span = if stmts.len() == 0 { loc.join(toks[p].loc) } else { loc };
        Ok((Node { kind: NodeKind::CompStmt { stmts }, loc: span }, p + 1))
    } else {
        match stmt(toks, p) {
            Ok((s, q)) => if moved(toks, p, q) {
                block(toks, q, stmts.push(s), if stmts.len() == 0 { s.loc } else { loc.join(s.loc) })
            } else {
                Err(ParseError::Eof)
            },
            Err(err) => Err(err),
        }
    }
}

/// Stmt ::= DeclVar | "if" "(" Assign ")" Stmt | "{" Stmt* "}" | "return" Assign ";" | Assign ";"
pub open spec fn stmt(toks: Seq<Token>, p: int) -> Result<(Node, int), ParseError>
    decreases toks.len() - p, 8int,
{
    if at(toks, p, TokenKind::Int) {
        decl_var(toks, p)
    } else if at(toks, p, TokenKind::If) {
        match expect(toks, p + 1, TokenKind::LParen) {
            Ok(q0) => match assign(toks, q0) {
                Ok((cond, q)) => match expect(toks, q, TokenKind::RParen) {
                    Ok(q1) => if p < q {
                        match stmt(toks, q1) {
                            Ok((then, q2)) => Ok((
                                Node {
                                    kind: NodeKind::If {
                                        cond: Box::new(cond),
                                        then: Box::new(then),
                                        els: None,
                                    },
                                    loc: cond.loc.join(then.loc),
                                },
                                q2,
                            )),
                            Err(err) => Err(err),
                        }
                    } else {
                        Err(ParseError::Eof)
                    },
                    Err(err) => Err(err),
                },
                Err(err) => Err(err),
            },
            Err(err) => Err(err),
        }
    } else if at(toks, p, TokenKind::LBrace) {
        block(toks, p + 1, Seq::empty(), toks[p].loc)
    } else if at(toks, p, TokenKind::Return) {
        match assign(toks, p + 1) {
            Ok((e, q)) => match expect(toks, q, TokenKind::Semicolon) {
                Ok(q1) => Ok((Node { kind: NodeKind::Return { expr: Box::new(e) }, loc: e.loc }, q1)),
                Err(err) => Err(err),
            },
            Err(err) => Err(err),
        }
    } else {
        match assign(toks, p) {
            Ok((e, q)) => match expect(toks, q, TokenKind::Semicolon) {
                Ok(q1) => Ok((e, q1)),
                Err(err) => Err(err),
            },
            Err(err) => Err(err),
        }
    }
}

/// Program ::= Stmt*, with `p` after the statements `done` read so far;
/// statements are read until the end of the tokens.
pub open spec fn program(toks: Seq<Token>, p: int, done: Seq<Node>) -> Result<Seq<Node>, ParseError>
    decreases toks.len() - p,
{
    if p >= toks.len() {
        Ok(done)
    } else {
        match stmt(toks, p) {
            Ok((s, q)) => if moved(toks, p, q) {
                program(toks, q, done.push(s))
            } else {
                Err(ParseError::Eof)
            },
            Err(err) => Err(err),
        }
    }
}

} // verus!

verus! {

// Every rule that succeeds moves the position forward and stays within the
// tokens; the folding rules may stop where they start.

pub proof fn lemma_primary_advances(toks: Seq<Token>, p: int)
    requires
        0 <= p <= toks.len(),
    ensures
        primary(toks, p) is Ok ==> moved(toks, p, primary(toks, p)->Ok_0.1),
    decreases toks.len() - p, 0int,
{
    if 0 <= p < toks.len() && toks[p].value == TokenKind::LParen {
        lemma_sum_advances(toks, p + 1);
    }
}

pub proof fn lemma_unary_advances(toks: Seq<Token>, p: int)
    requires
        0 <= p <= toks.len(),
    ensures
        unary(toks, p) is Ok ==> moved(toks, p, unary(toks, p)->Ok_0.1),
    decreases toks.len() - p, 1int,
{
    if at(toks, p, TokenKind::Plus) || at(toks, p, TokenKind::Minus) {
        lemma_primary_advances(toks, p + 1);
    } else {
        lemma_primary_advances(toks, p);
    }
}

pub proof fn lemma_product_rest_advances(toks: Seq<Token>, lhs: Node, p: int)
    requires
        0 <= p <= toks.len(),
    ensures
        product_rest(toks, lhs, p) is Ok ==> p <= product_rest(toks, lhs, p)->Ok_0.1 <= toks.len(),
    decreases toks.len() - p, 2int,
{
    if at(toks, p, TokenKind::Asterisk) || at(toks, p, TokenKind::Slash) {
        let op = if at(toks, p, TokenKind::Asterisk) { BinOpKind::Mul } else { BinOpKind::Div };
        lemma_unary_advances(toks, p + 1);
        if unary(toks, p + 1) is Ok {
            let (rhs, q) = unary(toks, p + 1)->Ok_0;
            lemma_product_rest_advances(toks, binary(op, lhs, rhs), q);
        }
    }
}

pub proof fn lemma_product_advances(toks: Seq<Token>, p: int)
    requires
        0 <= p <= toks.len(),
    ensures
        product(toks, p) is Ok ==> moved(toks, p, product(toks, p)->Ok_0.1),
    decreases toks.len() - p, 3int,
{
    lemma_unary_advances(toks, p);
    if unary(toks, p) is Ok {
        let (lhs, q) = unary(toks, p)->Ok_0;
        lemma_product_rest_advances(toks, lhs, q);
    }
}

pub proof fn lemma_sum_rest_advances(toks: Seq<Token>, lhs: Node, p: int)
    requires
        0 <= p <= toks.len(),
    ensures
        sum_rest(toks, lhs, p) is Ok ==> p <= sum_rest(toks, lhs, p)->Ok_0.1 <= toks.len(),
    decreases toks.len() - p, 4int,
{
    if at(toks, p, TokenKind::Plus) || at(toks, p, TokenKind::Minus) {
        let op = if at(toks, p, TokenKind::Plus) { BinOpKind::Add } else { BinOpKind::Sub };
        lemma_product_advances(toks, p + 1);
        if product(toks, p + 1) is Ok {
            let (rhs, q) = product(toks, p + 1)->Ok_0;
            lemma_sum_rest_advances(toks, binary(op, lhs, rhs), q);
        }
    }
}

pub proof fn lemma_sum_advances(toks: Seq<Token>, p: int)
    requires
        0 <= p <= toks.len(),
    ensures
        sum(toks, p) is Ok ==> moved(toks, p, sum(toks, p)->Ok_0.1),
    decreases toks.len() - p, 5int,
{
    lemma_product_advances(toks, p);
    if product(toks, p) is Ok {
        let (lhs, q) = product(toks, p)->Ok_0;
        lemma_sum_rest_advances(toks, lhs, q);
    }
}

pub proof fn lemma_assign_advances(toks: Seq<Token>, p: int)
    requires
        0 <= p <= toks.len(),
    ensures
        assign(toks, p) is Ok ==> moved(toks, p, assign(toks, p)->Ok_0.1),
    decreases toks.len() - p, 6int,
{
    lemma_sum_advances(toks, p);
    if sum(toks, p) is Ok {
        let q = sum(toks, p)->Ok_0.1;
        if at(toks, q, TokenKind::Assignment) && p < q {
            lemma_assign_advances(toks, q + 1);
        }
    }
}

pub proof fn lemma_decl_var_advances(toks: Seq<Token>, p: int)
    requires
        0 <= p <= toks.len(),
    ensures
        decl_var(toks, p) is Ok ==> moved(toks, p, decl_var(toks, p)->Ok_0.1),
    decreases toks.len() - p, 7int,
{
    if 0 <= p && p + 1 < toks.len() && expect(toks, p + 2, TokenKind::Assignment) is Ok {
        lemma_sum_advances(toks, p + 3);
    }
}

pub proof fn lemma_stmt_advances(toks: Seq<Token>, p: int)
    requires
        0 <= p <= toks.len(),
    ensures
        stmt(toks, p) is Ok ==> moved(toks, p, stmt(toks, p)->Ok_0.1),
    decreases toks.len() - p, 8int,
{
    if at(toks, p, TokenKind::Int) {
        lemma_decl_var_advances(toks, p);
    } else if at(toks, p, TokenKind::If) {
        if expect(toks, p + 1, TokenKind::LParen) is Ok {
            lemma_assign_advances(toks, p + 2);
            if assign(toks, p + 2) is Ok {
                let q = assign(toks, p + 2)->Ok_0.1;
                if expect(toks, q, TokenKind::RParen) is Ok && p < q {
                    lemma_stmt_advances(toks, q + 1);
                }
            }
        }
    } else if at(toks, p, TokenKind::LBrace) {
        lemma_block_advances(toks, p + 1, Seq::empty(), toks[p].loc);
    } else if at(toks, p, TokenKind::Return) {
        lemma_assign_advances(toks, p + 1);
    } else {
        lemma_assign_advances(toks, p);
    }
}

pub proof fn lemma_block_advances(toks: Seq<Token>, p: int, stmts: Seq<Node>, loc: Loc)
    requires
        0 <= p <= toks.len(),
    ensures
        block(toks, p, stmts, loc) is Ok ==> moved(toks, p, block(toks, p, stmts, loc)->Ok_0.1),
    decreases toks.len() - p, 9int,
{
    if !at(toks, p, TokenKind::RBrace) {
        lemma_stmt_advances(toks, p);
        if stmt(toks, p) is Ok {
            let (s, q) = stmt(toks, p)->Ok_0;
            if moved(toks, p, q) {
                lemma_block_advances(toks, q, stmts.push(s), if stmts.len() == 0 { s.loc } else { loc.join(s.loc) });
            }
        }
    }
}

} // verus!
