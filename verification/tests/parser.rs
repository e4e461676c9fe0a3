use expr_frontend::lexer::token::{Position, SourceSpan, Token};
use expr_frontend::lexer::token_type::TokenKind;
use expr_frontend::lexer::tokenize;
use expr_frontend::nodes::exprs::{
    BinaryExpr, BinaryOp, Expr, LiteralExpr, LiteralValue, UnaryExpr, UnaryOp,
};
use expr_frontend::nodes::types::Type;
use expr_frontend::nodes::visitor::TypeVisitor;
use expr_frontend::parser::engine::Parser;
use expr_frontend::parser::errors::{labelled, LookUpError, ParserError};
use expr_frontend::parser::literal::parse_i128;
use expr_frontend::parser::lookups::{get_led_fn, get_nud_fn, BindingPower, LedFn, NudFn};

const ALL_KINDS: [TokenKind; 30] = [
    TokenKind::FLOAT,
    TokenKind::INTEGER,
    TokenKind::PLUS,
    TokenKind::STAR,
    TokenKind::EQUAL,
    TokenKind::MODULO,
    TokenKind::SLASH,
    TokenKind::DASH,
    TokenKind::AMPER,
    TokenKind::GREATER,
    TokenKind::LESS,
    TokenKind::NEGATION,
    TokenKind::VERTICAL_BAR,
    TokenKind::SEMICOLON,
    TokenKind::IF,
    TokenKind::ELSE,
    TokenKind::FOR,
    TokenKind::WHILE,
    TokenKind::FUNCTION,
    TokenKind::RETURN,
    TokenKind::LPAREN,
    TokenKind::RPAREN,
    TokenKind::LBRACE,
    TokenKind::RBRACE,
    TokenKind::LBRACKET,
    TokenKind::RBRACKET,
    TokenKind::COMMA,
    TokenKind::COLON,
    TokenKind::IDENTIFIER,
    TokenKind::LITERALSTRING,
];

fn span(from: usize, to: usize) -> SourceSpan {
    SourceSpan::new(Position::new(1, from), Position::new(1, to))
}

fn literal(value: i128, from: usize, to: usize) -> Expr {
    Expr::Literal(LiteralExpr::new(LiteralValue::Int(value), span(from, to)))
}

fn binary(left: Expr, op: BinaryOp, right: Expr) -> Expr {
    Expr::Binary(BinaryExpr { left: Box::new(left), op, right: Box::new(right), type_info: None })
}

fn parse(source: &str) -> (Result<Expr, ParserError>, usize) {
    let tokens = tokenize(source, "test").unwrap();
    let mut parser = Parser::new(&tokens, 0);
    let result = Parser::parse_expr(&mut parser, BindingPower::Primary);
    (result, parser.pos)
}

fn holds_unary(expr: &Expr) -> bool {
    match expr {
        Expr::Literal(_) => false,
        Expr::Binary(node) => holds_unary(&node.left) || holds_unary(&node.right),
        Expr::Unary(_) => true,
    }
}

#[test]
fn multiplication_nests_inside_addition() {
    let (result, pos) = parse("1+2*3");
    assert_eq!(
        result,
        Ok(binary(
            literal(1, 1, 2),
            BinaryOp::Add,
            binary(literal(2, 3, 4), BinaryOp::Mul, literal(3, 5, 6))
        ))
    );
    assert_eq!(pos, 5);
}

#[test]
fn multiplication_before_addition_groups_first() {
    let (result, _) = parse("1*2+3");
    assert_eq!(
        result,
        Ok(binary(
            binary(literal(1, 1, 2), BinaryOp::Mul, literal(2, 3, 4)),
            BinaryOp::Add,
            literal(3, 5, 6)
        ))
    );
}

#[test]
fn operators_of_one_level_group_to_the_left() {
    let (result, _) = parse("1-2-3");
    assert_eq!(
        result,
        Ok(binary(
            binary(literal(1, 1, 2), BinaryOp::Sub, literal(2, 3, 4)),
            BinaryOp::Sub,
            literal(3, 5, 6)
        ))
    );
    let (result, _) = parse("8/4%3*2");
    assert_eq!(
        result,
        Ok(binary(
            binary(
                binary(literal(8, 1, 2), BinaryOp::Div, literal(4, 3, 4)),
                BinaryOp::Mod,
                literal(3, 5, 6)
            ),
            BinaryOp::Mul,
            literal(2, 7, 8)
        ))
    );
}

#[test]
fn logical_operators_bind_most_loosely() {
    let (result, _) = parse("1|2&3+4");
    assert_eq!(
        result,
        Ok(binary(
            literal(1, 1, 2),
            BinaryOp::Or,
            binary(
                literal(2, 3, 4),
                BinaryOp::And,
                binary(literal(3, 5, 6), BinaryOp::Add, literal(4, 7, 8))
            )
        ))
    );
    let (result, _) = parse("1+2&3|4");
    assert_eq!(
        result,
        Ok(binary(
            binary(
                binary(literal(1, 1, 2), BinaryOp::Add, literal(2, 3, 4)),
                BinaryOp::And,
                literal(3, 5, 6)
            ),
            BinaryOp::Or,
            literal(4, 7, 8)
        ))
    );
}

#[test]
fn a_single_literal_is_an_expression() {
    assert_eq!(parse("42"), (Ok(literal(42, 1, 3)), 1));
}

#[test]
fn parsing_stops_before_a_token_that_is_no_infix_operator() {
    assert_eq!(parse("1 < 2"), (Ok(literal(1, 1, 2)), 1));
    assert_eq!(parse("1 2"), (Ok(literal(1, 1, 2)), 1));
    assert_eq!(
        parse("1+2)"),
        (Ok(binary(literal(1, 1, 2), BinaryOp::Add, literal(2, 3, 4))), 3)
    );
}

#[test]
fn operator_cannot_start_an_expression() {
    let (result, pos) = parse("+1");
    assert_eq!(
        result,
        Err(ParserError::UnexpectedToken("Unsupported primary expression token: PLUS".to_string()))
    );
    assert_eq!(pos, 0);
}

#[test]
fn only_an_integer_starts_an_expression() {
    for source in ["x", "1.5", "\"s\"", "(1)", "if", "-1", "!1"] {
        let tokens = tokenize(source, "test").unwrap();
        let mut parser = Parser::new(&tokens, 0);
        let result = Parser::parse_expr(&mut parser, BindingPower::Primary);
        assert_eq!(
            result,
            Err(ParserError::UnexpectedToken(format!(
                "Unsupported primary expression token: {:?}",
                tokens[0].kind
            )))
        );
        assert_eq!(parser.pos, 0);
    }
}

#[test]
fn a_missing_operand_is_an_unexpected_token() {
    assert_eq!(
        parse(""),
        (Err(ParserError::UnexpectedToken("Expected a primary expression".to_string())), 0)
    );
    assert_eq!(
        parse("1+"),
        (Err(ParserError::UnexpectedToken("Expected a primary expression".to_string())), 2)
    );
    assert_eq!(
        parse("1+2*+"),
        (
            Err(ParserError::UnexpectedToken(
                "Unsupported primary expression token: PLUS".to_string()
            )),
            4
        )
    );
}

#[test]
fn integer_that_does_not_fit_is_an_invalid_expression() {
    let (result, pos) = parse("1+170141183460469231731687303715884105728");
    assert_eq!(
        result,
        Err(ParserError::InvalidExpression(
            "Failed to parse integer literal: 170141183460469231731687303715884105728".to_string()
        ))
    );
    assert_eq!(pos, 2);
    let (result, _) = parse("170141183460469231731687303715884105727");
    assert_eq!(result, Ok(literal(i128::MAX, 1, 40)));
}

#[test]
fn hand_made_token_with_sign_parses_like_the_standard_library() {
    let place = span(1, 3);
    for text in ["-5", "+5", "-", "+", "", "5a", "-170141183460469231731687303715884105728", "007"] {
        let tokens = [Token::new(TokenKind::INTEGER, text, place)];
        let mut parser = Parser::new(&tokens, 0);
        let result = Parser::parse_primary_expr(&mut parser);
        match text.parse::<i128>() {
            Ok(value) => {
                assert_eq!(
                    result,
                    Ok(Expr::Literal(LiteralExpr::new(LiteralValue::Int(value), place)))
                );
                assert_eq!(parser.pos, 1);
            }
            Err(_) => {
                assert_eq!(
                    result,
                    Err(ParserError::InvalidExpression(format!(
                        "Failed to parse integer literal: {}",
                        text
                    )))
                );
                assert_eq!(parser.pos, 0);
            }
        }
    }
}

#[test]
fn decimal_integers() {
    assert_eq!(parse_i128("0"), Some(0));
    assert_eq!(parse_i128("-0"), Some(0));
    assert_eq!(parse_i128("+17"), Some(17));
    assert_eq!(parse_i128("-17"), Some(-17));
    assert_eq!(parse_i128("000123"), Some(123));
    assert_eq!(parse_i128("170141183460469231731687303715884105727"), Some(i128::MAX));
    assert_eq!(parse_i128("-170141183460469231731687303715884105728"), Some(i128::MIN));
    assert_eq!(parse_i128("170141183460469231731687303715884105728"), None);
    assert_eq!(parse_i128("-170141183460469231731687303715884105729"), None);
    assert_eq!(parse_i128("99999999999999999999999999999999999999999999"), None);
    for text in ["", "+", "-", "--1", "+-1", "1-", "1 ", " 1", "1_000", "0x10", "1.0", "\u{663}", "12a"]
    {
        assert_eq!(parse_i128(text), None);
        assert!(text.parse::<i128>().is_err());
    }
}

#[test]
fn the_parser_builds_no_unary_node() {
    for source in ["1", "1+2", "1*2-3/4", "1|2&3", "1-2-3-4-5"] {
        let (result, _) = parse(source);
        assert!(!holds_unary(&result.unwrap()));
    }
}

#[test]
fn binary_operation_parses_its_right_operand_at_its_own_level() {
    let tokens = tokenize("+2*3-4", "test").unwrap();
    let mut parser = Parser::new(&tokens, 0);
    let left = literal(1, 1, 2);
    let result = Parser::parse_binary_expr(&mut parser, BindingPower::Primary, left);
    assert_eq!(
        result,
        Ok(binary(
            literal(1, 1, 2),
            BinaryOp::Add,
            binary(literal(2, 2, 3), BinaryOp::Mul, literal(3, 4, 5))
        ))
    );
    assert_eq!(parser.pos, 4);
}

#[test]
fn binary_operation_takes_a_comparison_operator() {
    let tokens = tokenize("<2", "test").unwrap();
    let mut parser = Parser::new(&tokens, 0);
    let result = Parser::parse_binary_expr(&mut parser, BindingPower::Primary, literal(1, 1, 2));
    assert_eq!(result, Ok(binary(literal(1, 1, 2), BinaryOp::Less, literal(2, 2, 3))));
}

#[test]
fn binary_operation_needs_an_operator() {
    let tokens: Vec<Token> = Vec::new();
    let mut parser = Parser::new(&tokens, 0);
    let result = Parser::parse_binary_expr(&mut parser, BindingPower::Add, literal(1, 1, 2));
    assert_eq!(
        result,
        Err(ParserError::UnexpectedToken("Expected a binary operator".to_string()))
    );
    assert_eq!(parser.pos, 0);
}

#[test]
fn cursor_moves_within_the_tokens() {
    let tokens = tokenize("1 + 2", "test").unwrap();
    let mut parser = Parser::new(&tokens, 0);
    assert_eq!(parser.get_current_token(), Some(&tokens[0]));
    assert_eq!(parser.get_k_token(0), Some(&tokens[0]));
    assert_eq!(parser.get_k_token(2), Some(&tokens[2]));
    assert_eq!(parser.get_k_token(3), None);
    assert_eq!(parser.get_k_token(usize::MAX), None);
    parser.advance();
    assert_eq!(parser.pos, 1);
    assert_eq!(parser.get_current_token(), Some(&tokens[1]));
    assert_eq!(parser.get_k_token(1), Some(&tokens[2]));
    assert_eq!(parser.get_k_token(usize::MAX), None);
    parser.advance();
    parser.advance();
    assert_eq!(parser.pos, 3);
    assert_eq!(parser.get_current_token(), None);
    parser.advance();
    assert_eq!(parser.pos, 3);
    let beyond = Parser::new(&tokens, 7);
    assert_eq!(beyond.get_current_token(), None);
    assert_eq!(beyond.get_k_token(0), None);
}

#[test]
fn binding_powers_of_tokens() {
    assert_eq!(BindingPower::from_token(TokenKind::PLUS), BindingPower::Add);
    assert_eq!(BindingPower::from_token(TokenKind::DASH), BindingPower::Add);
    assert_eq!(BindingPower::from_token(TokenKind::STAR), BindingPower::Mul);
    assert_eq!(BindingPower::from_token(TokenKind::SLASH), BindingPower::Mul);
    assert_eq!(BindingPower::from_token(TokenKind::MODULO), BindingPower::Mul);
    assert_eq!(BindingPower::from_token(TokenKind::VERTICAL_BAR), BindingPower::Or);
    assert_eq!(BindingPower::from_token(TokenKind::AMPER), BindingPower::And);
    for kind in [TokenKind::INTEGER, TokenKind::LESS, TokenKind::GREATER, TokenKind::LPAREN] {
        assert_eq!(BindingPower::from_token(kind), BindingPower::Primary);
    }
}

#[test]
fn tighter_operators_rank_higher() {
    assert_eq!(BindingPower::Primary.rank(), 0);
    assert!(BindingPower::Primary.rank() < BindingPower::Or.rank());
    assert!(BindingPower::Or.rank() < BindingPower::And.rank());
    assert!(BindingPower::And.rank() < BindingPower::Add.rank());
    assert!(BindingPower::Add.rank() < BindingPower::Sub.rank());
    assert!(BindingPower::Sub.rank() < BindingPower::Mul.rank());
    assert!(BindingPower::Mul.rank() < BindingPower::Div.rank());
}

#[test]
fn dispatch_tables() {
    for kind in ALL_KINDS {
        let nud = get_nud_fn(kind);
        if kind == TokenKind::INTEGER {
            assert_eq!(nud, Ok(NudFn::PrimaryExpr));
        } else {
            assert_eq!(
                nud,
                Err(LookUpError::NotFound(format!(
                    "Nud function for token kind {:?} not found",
                    kind
                )))
            );
        }
        let led = get_led_fn(kind);
        if BindingPower::from_token(kind) != BindingPower::Primary {
            assert_eq!(led, Ok(LedFn::BinaryExpr));
        } else {
            assert_eq!(
                led,
                Err(LookUpError::NotFound(format!(
                    "Led function for token kind {:?} not found",
                    kind
                )))
            );
        }
    }
}

#[test]
fn binary_operators_of_tokens() {
    assert_eq!(BinaryOp::from_token(TokenKind::PLUS), BinaryOp::Add);
    assert_eq!(BinaryOp::from_token(TokenKind::DASH), BinaryOp::Sub);
    assert_eq!(BinaryOp::from_token(TokenKind::STAR), BinaryOp::Mul);
    assert_eq!(BinaryOp::from_token(TokenKind::SLASH), BinaryOp::Div);
    assert_eq!(BinaryOp::from_token(TokenKind::MODULO), BinaryOp::Mod);
    assert_eq!(BinaryOp::from_token(TokenKind::LESS), BinaryOp::Less);
    assert_eq!(BinaryOp::from_token(TokenKind::GREATER), BinaryOp::Greater);
    assert_eq!(BinaryOp::from_token(TokenKind::AMPER), BinaryOp::And);
    assert_eq!(BinaryOp::from_token(TokenKind::VERTICAL_BAR), BinaryOp::Or);
}

#[test]
fn error_messages() {
    let lookup = LookUpError::NotFound("x".to_string());
    assert_eq!(lookup.message(), "Lookup error: x");
    assert_eq!(ParserError::UnexpectedToken("a".to_string()).message(), "Unexpected token: a");
    assert_eq!(ParserError::MissingToken("b".to_string()).message(), "Missing token: b");
    assert_eq!(ParserError::InvalidExpression("c".to_string()).message(), "Invalid expression: c");
    assert_eq!(ParserError::TypeError("d".to_string()).message(), "Type error: d");
    assert_eq!(
        ParserError::LookupError(lookup.clone()).message(),
        "Lookup error: Lookup error: x"
    );
    assert_eq!(ParserError::from(lookup.clone()), ParserError::LookupError(lookup));
    assert_eq!(labelled("ab", "cd"), "abcd");
    let error = ParserError::TypeError("d".to_string());
    assert_eq!(error.clone(), error);
}

#[test]
fn spans_reach_from_first_to_last_token() {
    let (result, _) = parse("12 + 3 * 456 - 7");
    let expr = result.unwrap();
    assert_eq!(expr.span(), span(1, 17));
    match &expr {
        Expr::Binary(node) => {
            assert_eq!(node.span(), span(1, 17));
            assert_eq!(node.left.span(), span(1, 13));
            assert_eq!(node.right.span(), span(16, 17));
        }
        _ => panic!("a binary node was expected"),
    }
    let unary = UnaryExpr { op: UnaryOp::Neg, expr: Box::new(literal(5, 2, 3)), type_info: None };
    assert_eq!(unary.span(), span(2, 3));
    assert_eq!(Expr::Unary(unary).span(), span(2, 3));
}

#[test]
fn type_slot_is_empty_until_set() {
    let mut number = LiteralExpr::new(LiteralValue::Int(5), span(1, 2));
    assert_eq!(number.type_info(), None);
    assert_eq!(number.span(), span(1, 2));
    number.set_type_info(Type::Int64(5));
    assert_eq!(number.type_info(), Some(Type::Int64(5)));
    assert_eq!(number.value, LiteralValue::Int(5));
    assert_eq!(number.clone(), number);

    let (result, _) = parse("1+2");
    let mut sum = result.unwrap();
    assert_eq!(sum.type_info(), None);
    sum.set_type_info(Type::String("text".to_string()));
    assert_eq!(sum.type_info(), Some(Type::String("text".to_string())));
    sum.set_type_info(Type::Float64(1.5f64.to_bits()));
    assert_eq!(sum.type_info(), Some(Type::Float64(0x3ff8_0000_0000_0000)));
    match sum {
        Expr::Binary(node) => {
            assert_eq!(*node.left, literal(1, 1, 2));
            assert_eq!(node.left.type_info(), None);
        }
        _ => panic!("a binary node was expected"),
    }

    let mut negation =
        UnaryExpr { op: UnaryOp::Not, expr: Box::new(literal(0, 2, 3)), type_info: None };
    negation.set_type_info(Type::Int16(0));
    assert_eq!(negation.type_info(), Some(Type::Int16(0)));
    assert_eq!(Type::Int128(7).clone(), Type::Int128(7));
    assert_eq!(LiteralValue::Str("s".to_string()).clone(), LiteralValue::Str("s".to_string()));
}

struct Widest {
    visited: usize,
}

impl TypeVisitor for Widest {
    fn visit_literal(&mut self, expr: &LiteralExpr) -> Type {
        self.visited += 1;
        match &expr.value {
            LiteralValue::Int(value) => Type::Int128(*value),
            LiteralValue::Float(bits) => Type::Float64(*bits),
            LiteralValue::Bool(value) => Type::Int16(*value as i16),
            LiteralValue::Str(value) => Type::String(value.clone()),
        }
    }

    fn visit_binary(&mut self, expr: &BinaryExpr) -> Type {
        self.visited += 1;
        match &*expr.left {
            Expr::Literal(literal) => self.visit_literal(literal),
            Expr::Binary(node) => self.visit_binary(node),
            Expr::Unary(_) => Type::Int16(0),
        }
    }
}

#[test]
fn a_visitor_walks_the_tree() {
    let (result, _) = parse("7*2+1");
    let mut visitor = Widest { visited: 0 };
    match result.unwrap() {
        Expr::Binary(node) => assert_eq!(visitor.visit_binary(&node), Type::Int128(7)),
        _ => panic!("a binary node was expected"),
    }
    assert_eq!(visitor.visited, 3);
}

#[test]
fn a_long_expression_parses_in_one_pass() {
    let mut source = String::from("1");
    for i in 0..20000 {
        source.push_str(["+", "*", "-", "|", "&", "/", "%"][i % 7]);
        source.push_str("23");
    }
    let tokens = tokenize(&source, "long").unwrap();
    assert_eq!(tokens.len(), 40001);
    let mut parser = Parser::new(&tokens, 0);
    let result = Parser::parse_expr(&mut parser, BindingPower::Primary);
    assert!(result.is_ok());
    assert_eq!(parser.pos, 40001);
}
