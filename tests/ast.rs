use interpreters::ast_printer::RPN;
use interpreters::expr::Expr::{self, Binary, Grouping, LiteralExpr, Ternary, Unary};
use interpreters::expr::Visitor;
use interpreters::number::Num;
use interpreters::token::Literal::{self, Number};
use interpreters::token::{Token, TokenType};
use interpreters::token::TokenType::{MINUS, PLUS, QUESTION, STAR};

fn num(text: &str) -> Num {
    Num::parse(text).unwrap()
}

#[test]
fn ast_printer_basics() {
    let tok_star = Token::new(TokenType::STAR, "*", None, 1);
    let tok_minus = Token::new(TokenType::MINUS, "-", None, 1);

    let expression = Binary(
        Box::new(Unary(tok_minus, Box::new(LiteralExpr(Some(Number(num("123"))))))),
        tok_star,
        Box::new(Grouping(Box::new(LiteralExpr(Some(Number(num("45.67"))))))),
    );

    assert_eq!("(* (- 123) (group 45.67))", expression.print());
}

#[test]
fn ast_printer_rpn() {
    let tok_star = Token::new(TokenType::STAR, "*", None, 1);
    let tok_plus = Token::new(TokenType::PLUS, "+", None, 1);
    let tok_minus = Token::new(TokenType::MINUS, "-", None, 1);
    let expression = Binary(
        Box::new(Binary(
            Box::new(LiteralExpr(Some(Number(num("1"))))),
            tok_plus,
            Box::new(LiteralExpr(Some(Number(num("2"))))),
        )),
        tok_star,
        Box::new(Binary(
            Box::new(LiteralExpr(Some(Number(num("4"))))),
            tok_minus,
            Box::new(LiteralExpr(Some(Number(num("3"))))),
        )),
    );

    assert_eq!("1 2 + 4 3 - *", expression.print_rpn());
}

#[test]
fn basic() {
    let tok_minus = Token::new(MINUS, "-", None, 1);
    let tok_star = Token::new(STAR, "*", None, 1);
    let expression = Expr::Binary(
        Box::new(Expr::Unary(
            tok_minus,
            Box::new(Expr::LiteralExpr(Some(Literal::Number(num("123"))))),
        )),
        tok_star,
        Box::new(Expr::Grouping(Box::new(Expr::LiteralExpr(Some(Literal::Number(num(
            "45.67",
        ))))))),
    );

    let stringified_expr: String = expression.visit_string();
    assert_eq!("(* (- 123) (group 45.67))", stringified_expr);
}

#[test]
fn more_ast_test() {
    let expression = Binary(
        Box::new(Unary(
            Token::new(MINUS, "-", None, 1),
            Box::new(LiteralExpr(Some(Number(num("123"))))),
        )),
        Token::new(STAR, "*", None, 1),
        Box::new(Grouping(Box::new(LiteralExpr(Some(Number(num("45.67"))))))),
    );
    let stringified_expr: String = expression.visit_string();
    assert_eq!("(* (- 123) (group 45.67))", stringified_expr);
}

#[test]
fn more_ast_test2() {
    let tok_minus = Token::new(MINUS, "-", None, 1);
    let tok_star = Token::new(STAR, "*", None, 1);
    let tok_plus = Token::new(PLUS, "+", None, 1);

    let expression = Binary(
        Box::new(Grouping(Box::new(Binary(
            Box::new(Grouping(Box::new(Binary(
                Box::new(Unary(tok_minus.clone(), Box::new(LiteralExpr(Some(Number(num("1.2"))))))),
                tok_plus,
                Box::new(LiteralExpr(Some(Number(num("3.0"))))),
            )))),
            tok_star.clone(),
            Box::new(Grouping(Box::new(Binary(
                Box::new(LiteralExpr(Some(Number(num("4.1"))))),
                tok_minus.clone(),
                Box::new(LiteralExpr(Some(Number(num("3.1"))))),
            )))),
        )))),
        tok_star,
        Box::new(LiteralExpr(Some(Number(num("4.1"))))),
    );

    let stringified_expr: String = expression.visit_string();
    assert_eq!(
        "(* (group (* (group (+ (- 1.2) 3)) (group (- 4.1 3.1)))) 4.1)",
        stringified_expr
    );
}

#[test]
fn ternary_comma() {
    // EXPRESSION: 1 ? 2 : 0 ? 1 ? 0 : 3: 33
    let token = Token::new(QUESTION, "?..:", None, 33);
    let expr = Ternary(
        Box::new(LiteralExpr(Some(Number(num("1.0"))))),
        Box::new(LiteralExpr(Some(Number(num("2.0"))))),
        Box::new(Ternary(
            Box::new(LiteralExpr(Some(Number(num("0.0"))))),
            Box::new(Ternary(
                Box::new(LiteralExpr(Some(Number(num("1.0"))))),
                Box::new(LiteralExpr(Some(Number(num("0.0"))))),
                Box::new(LiteralExpr(Some(Number(num("3.0"))))),
                token.clone(),
            )),
            Box::new(LiteralExpr(Some(Number(num("33.0"))))),
            token.clone(),
        )),
        token,
    );

    let stringified_expr: String = expr.visit_string();
    assert_eq!(
        "(ternary 1 2 (ternary 0 (ternary 1 0 3) 33))",
        stringified_expr
    );
}

#[test]
fn rpn_of_grouping_ternary_and_assignment() {
    let name = Token::new(TokenType::IDENTIFIER, "x", None, 1);
    let grouped = Grouping(Box::new(LiteralExpr(Some(Number(num("7"))))));
    assert_eq!("7 ", grouped.print_rpn());
    let t = Ternary(
        Box::new(LiteralExpr(Some(Literal::Bool(true)))),
        Box::new(LiteralExpr(Some(Literal::Str("a".to_string())))),
        Box::new(LiteralExpr(Some(Literal::Nil))),
        Token::new(QUESTION, "?", None, 1),
    );
    assert_eq!("true a Nil ternary", t.print_rpn());
    let a = Expr::Assign { name: name.clone(), value: Box::new(Expr::Variable(name)) };
    assert_eq!("x x", a.print_rpn());
    assert_eq!("(x (x))", a.visit_string());
}

#[test]
fn visitor_gives_prefix_form() {
    let e = Unary(Token::new(TokenType::BANG, "!", None, 1), Box::new(LiteralExpr(Some(Literal::Bool(false)))));
    let text: String = Visitor::<String>::visit(&e);
    assert_eq!(text, "(! false)");
    assert_eq!(LiteralExpr(None).visit_string(), "None");
}
