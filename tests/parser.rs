use mini_compiler::{Ast, AstKind, BinOpKind, Loc, ParseError, Parser, Token, TokenKind, UniOpKind};

/// Splits source text into tokens, each with its byte span.
fn lex(code: &str) -> Vec<Token> {
    let bytes = code.as_bytes();
    let mut tokens = Vec::new();
    let mut i = 0;
    while i < bytes.len() {
        let c = bytes[i];
        if c.is_ascii_whitespace() {
            i += 1;
            continue;
        }
        let start = i;
        let value = if c.is_ascii_digit() {
            let mut n = 0usize;
            while i < bytes.len() && bytes[i].is_ascii_digit() {
                n = n * 10 + (bytes[i] - b'0') as usize;
                i += 1;
            }
            TokenKind::Number(n)
        } else if c.is_ascii_alphabetic() || c == b'_' {
            while i < bytes.len() && (bytes[i].is_ascii_alphanumeric() || bytes[i] == b'_') {
                i += 1;
            }
            match &code[start..i] {
                "int" => TokenKind::Int,
                "if" => TokenKind::If,
                "return" => TokenKind::Return,
                word => TokenKind::Identifier(word.to_string()),
            }
        } else {
            i += 1;
            match c {
                b'{' => TokenKind::LBrace,
                b'}' => TokenKind::RBrace,
                b'(' => TokenKind::LParen,
                b')' => TokenKind::RParen,
                b';' => TokenKind::Semicolon,
                b'=' => TokenKind::Assignment,
                b'+' => TokenKind::Plus,
                b'-' => TokenKind::Minus,
                b'*' => TokenKind::Asterisk,
                b'/' => TokenKind::Slash,
                _ => panic!("unexpected character {}", c as char),
            }
        };
        tokens.push(Token { value, loc: Loc(start, i) });
    }
    tokens
}

fn parse(code: &str) -> Result<Vec<Ast>, ParseError> {
    let tokens = lex(code);
    let mut parser = Parser::new(&tokens);
    parser.parse()
}

fn tok(value: TokenKind, start: usize, end: usize) -> Token {
    Token { value, loc: Loc(start, end) }
}

#[test]
fn test_calculate() {
    let code = "(5 + 2) * 31 - -10;";
    let tokens = lex(code);
    let mut parser = Parser::new(&tokens);
    let ast = parser.parse();
    assert_eq!(
        ast,
        Ok(vec![Ast::binop(
            BinOpKind::Sub,
            Ast::binop(
                BinOpKind::Mul,
                Ast::binop(
                    BinOpKind::Add,
                    Ast::num(5, Loc(1, 2)),
                    Ast::num(2, Loc(5, 6)),
                    Loc(1, 6),
                ),
                Ast::num(31, Loc(10, 12)),
                Loc(1, 12),
            ),
            Ast::uniop(UniOpKind::Minus, Ast::num(10, Loc(16, 18)), Loc(15, 18)),
            Loc(1, 18),
        )])
    )
}

#[test]
fn parser_test_assignment() {
    let code = "abc = 3; def = 5; abc + def;";
    let tokens = lex(code);
    let mut parser = Parser::new(&tokens);
    let ast = parser.parse();
    assert_eq!(
        ast,
        Ok(vec![
            Ast::assignment(
                Ast::variable("abc".to_string(), Loc(0, 3)),
                Ast::num(3, Loc(6, 7)),
                Loc(0, 7),
            ),
            Ast::assignment(
                Ast::variable("def".to_string(), Loc(9, 12)),
                Ast::num(5, Loc(15, 16)),
                Loc(9, 16),
            ),
            Ast::binop(
                BinOpKind::Add,
                Ast::variable("abc".to_string(), Loc(18, 21)),
                Ast::variable("def".to_string(), Loc(24, 27)),
                Loc(18, 27),
            ),
        ])
    )
}

#[test]
fn chained_assignment_nests_to_the_right() {
    assert_eq!(
        parse("a = b = 1;"),
        Ok(vec![Ast::assignment(
            Ast::variable("a".to_string(), Loc(0, 1)),
            Ast::assignment(
                Ast::variable("b".to_string(), Loc(4, 5)),
                Ast::num(1, Loc(8, 9)),
                Loc(4, 9),
            ),
            Loc(0, 9),
        )])
    );
}

#[test]
fn subtraction_folds_to_the_left() {
    assert_eq!(
        parse("8 - 3 - 1;"),
        Ok(vec![Ast::binop(
            BinOpKind::Sub,
            Ast::binop(BinOpKind::Sub, Ast::num(8, Loc(0, 1)), Ast::num(3, Loc(4, 5)), Loc(0, 5)),
            Ast::num(1, Loc(8, 9)),
            Loc(0, 9),
        )])
    );
}

#[test]
fn division_binds_tighter_than_addition() {
    assert_eq!(
        parse("1 + 6 / +2;"),
        Ok(vec![Ast::binop(
            BinOpKind::Add,
            Ast::num(1, Loc(0, 1)),
            Ast::binop(
                BinOpKind::Div,
                Ast::num(6, Loc(4, 5)),
                Ast::uniop(UniOpKind::Plus, Ast::num(2, Loc(9, 10)), Loc(8, 10)),
                Loc(4, 10),
            ),
            Loc(0, 10),
        )])
    );
}

#[test]
fn declaration_binds_variable() {
    assert_eq!(
        parse("int a = 3;"),
        Ok(vec![Ast::new(
            AstKind::Decl {
                lhs: Box::new(Ast::variable("a".to_string(), Loc(4, 5))),
                rhs: Box::new(Ast::num(3, Loc(8, 9))),
            },
            Loc(4, 9),
        )])
    );
}

#[test]
fn declaration_without_equals_is_unexpected_token() {
    assert_eq!(parse("int a 3;"), Err(ParseError::UnexpectedToken(tok(TokenKind::Number(3), 6, 7))));
}

#[test]
fn declaration_without_semicolon_is_eof() {
    assert_eq!(parse("int a = 3"), Err(ParseError::Eof));
}

#[test]
fn declaration_of_a_number_is_unexpected_token() {
    assert_eq!(parse("int 4 = 3;"), Err(ParseError::UnexpectedToken(tok(TokenKind::Number(4), 4, 5))));
}

#[test]
fn unclosed_paren_names_the_open_paren() {
    assert_eq!(parse("(1 + 2"), Err(ParseError::UnclosedOpenParen(tok(TokenKind::LParen, 0, 1))));
}

#[test]
fn token_after_parenthesized_expression_is_redundant() {
    assert_eq!(parse("(1 2);"), Err(ParseError::RedundantExpression(tok(TokenKind::Number(2), 3, 4))));
}

#[test]
fn double_sign_is_not_an_expression() {
    assert_eq!(parse("--1;"), Err(ParseError::NotExpression(tok(TokenKind::Minus, 1, 2))));
}

#[test]
fn expression_without_semicolon_is_unexpected_token() {
    assert_eq!(parse("1 2;"), Err(ParseError::UnexpectedToken(tok(TokenKind::Number(2), 2, 3))));
}

#[test]
fn empty_input_is_empty_program() {
    assert_eq!(parse(""), Ok(vec![]));
}

#[test]
fn if_block_and_return() {
    assert_eq!(
        parse("if (x) { y = 1; return y; }"),
        Ok(vec![Ast::new(
            AstKind::If {
                cond: Box::new(Ast::variable("x".to_string(), Loc(4, 5))),
                then: Box::new(Ast::new(
                    AstKind::CompStmt {
                        stmts: vec![
                            Ast::assignment(
                                Ast::variable("y".to_string(), Loc(9, 10)),
                                Ast::num(1, Loc(13, 14)),
                                Loc(9, 14),
                            ),
                            Ast::new(
                                AstKind::Return {
                                    expr: Box::new(Ast::variable("y".to_string(), Loc(23, 24))),
                                },
                                Loc(23, 24),
                            ),
                        ],
                    },
                    Loc(9, 24),
                )),
                els: None,
            },
            Loc(4, 24),
        )])
    );
}

#[test]
fn empty_block_spans_its_braces() {
    assert_eq!(parse("{}"), Ok(vec![Ast::new(AstKind::CompStmt { stmts: vec![] }, Loc(0, 2))]));
}

#[test]
fn unclosed_block_is_eof() {
    assert_eq!(parse("{ 1;"), Err(ParseError::Eof));
}

#[test]
fn merge_covers_both_spans() {
    assert_eq!(Loc(3, 5).merge(&Loc(1, 4)), Loc(1, 5));
}

#[test]
fn block_spans_its_statements() {
    assert_eq!(
        parse("{ 1; 2; }"),
        Ok(vec![Ast::new(
            AstKind::CompStmt { stmts: vec![Ast::num(1, Loc(2, 3)), Ast::num(2, Loc(5, 6))] },
            Loc(2, 6),
        )])
    );
}
