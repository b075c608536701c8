use interpreters::environment::Environment;
use interpreters::error::Error;
use interpreters::interpreter::{evaluate, Interpreter};
use interpreters::parser::Parser;
use interpreters::scanner::{scan, Scanner};
use interpreters::stmt::Stmt;
use interpreters::token::{Literal, Token, TokenType};
use interpreters::typer::Typer;
use interpreters::Runner;

fn run(src: &str) -> (Vec<String>, Vec<Error>) {
    let mut runner = Runner::new();
    runner.run(src.to_string())
}

fn printed(src: &str) -> Vec<String> {
    let (out, errors) = run(src);
    assert!(errors.is_empty(), "unexpected errors for {src}: {errors:?}");
    out
}

fn runtime_message(src: &str) -> String {
    let (_, errors) = run(src);
    assert_eq!(errors.len(), 1, "{src}");
    match &errors[0] {
        Error::RuntimeError { message, .. } => message.clone(),
        other => panic!("expected a runtime error, got {other:?}"),
    }
}

fn compile_messages(src: &str) -> Vec<String> {
    let (out, errors) = run(src);
    assert!(out.is_empty());
    errors
        .iter()
        .map(|e| match e {
            Error::CompileTimeError { message, .. } => message.clone(),
            other => panic!("expected a compile-time error, got {other:?}"),
        })
        .collect()
}

#[test]
fn scanning_a_number_gives_one_number_token() {
    for text in ["123", "45.67", "0.5", "1.", "007"] {
        let tokens = scan(text.to_string()).unwrap();
        assert_eq!(tokens.len(), 2, "{text}");
        assert_eq!(tokens[0].token_type, TokenType::NUMBER);
        assert_eq!(tokens[0].lexeme, text);
        let expected = interpreters::number::Num::parse(text).unwrap();
        match &tokens[0].literal {
            Some(Literal::Number(n)) => assert!(n.equals(&expected)),
            _ => panic!("no number literal"),
        }
        assert_eq!(tokens[1].token_type, TokenType::EOF);
        assert_eq!(tokens[1].lexeme, "");
        assert_eq!(tokens[1].line, 1);
    }
}

#[test]
fn scanner_handles_operators_comments_and_keywords() {
    let src = "var x = 1 != 2; // note\n/* long\ncomment */ print x >= y;";
    let mut scanner = Scanner::new(src.to_string());
    let tokens = scanner.scan_tokens().unwrap();
    let kinds: Vec<TokenType> = tokens.iter().map(|t| t.token_type).collect();
    assert_eq!(
        kinds,
        vec![
            TokenType::VAR,
            TokenType::IDENTIFIER,
            TokenType::EQUAL,
            TokenType::NUMBER,
            TokenType::BANG_EQUAL,
            TokenType::NUMBER,
            TokenType::SEMICOLON,
            TokenType::PRINT,
            TokenType::IDENTIFIER,
            TokenType::GREATER_EQUAL,
            TokenType::IDENTIFIER,
            TokenType::SEMICOLON,
            TokenType::EOF,
        ]
    );
    assert_eq!(tokens[7].line, 3);
    assert_eq!(tokens[12].line, 3);
}

#[test]
fn string_literal_keeps_quotes_in_lexeme() {
    let tokens = scan("\"a\nb\"".to_string()).unwrap();
    assert_eq!(tokens[0].token_type, TokenType::STRING);
    assert_eq!(tokens[0].lexeme, "\"a\nb\"");
    match &tokens[0].literal {
        Some(Literal::Str(s)) => assert_eq!(s, "a\nb"),
        _ => panic!("no string literal"),
    }
    assert_eq!(tokens[0].line, 2);
}

#[test]
fn unterminated_string_reports_its_starting_line() {
    match scan("\"abc".to_string()) {
        Err(Error::CompileTimeError { token: Some(t), message }) => {
            assert_eq!(message, "Unterminated string");
            assert_eq!(t.line, 1);
        }
        _ => panic!("expected a lexical error"),
    }
    match scan("print 1;\n\n\"abc\ndef".to_string()) {
        Err(Error::CompileTimeError { token: Some(t), message }) => {
            assert_eq!(message, "Unterminated string");
            assert_eq!(t.line, 3);
        }
        _ => panic!("expected a lexical error"),
    }
}

#[test]
fn unexpected_character_and_malformed_number() {
    match scan("1 + @".to_string()) {
        Err(Error::CompileTimeError { token: Some(t), message }) => {
            assert_eq!(message, "Unexpected character");
            assert_eq!(t.lexeme, "@");
        }
        _ => panic!("expected a lexical error"),
    }
    match scan("12abc".to_string()) {
        Err(Error::CompileTimeError { token: Some(t), message }) => {
            assert_eq!(message, "Unexpected character. check your number");
            assert_eq!(t.lexeme, "a");
        }
        _ => panic!("expected a lexical error"),
    }
    assert_eq!(printed("print 99999999999999999999;"), vec!["99999999999999999999"]);
}

#[test]
fn arithmetic_follows_precedence() {
    assert_eq!(printed("print 10000000000 * 10000000000;"), vec!["100000000000000000000"]);
    assert_eq!(printed("print 9999999999 * 9999999999 - 1;"), vec!["99999999980000000000"]);
    assert_eq!(printed("print (3 / 2 * 6 + 9 - 5) + (4 * 1.2) * 7;"), vec!["46.6"]);
    assert_eq!(printed("print 4;"), vec!["4"]);
    assert_eq!(printed("print 4 + 5 ;"), vec!["9"]);
    assert_eq!(printed("print 1 - 2 - 3;"), vec!["-4"]);
    assert_eq!(printed("print 2 + 3 * 4;"), vec!["14"]);
    assert_eq!(printed("print 12 / 2 / 3;"), vec!["2"]);
    assert_eq!(printed("print 1.3 + 45 * 2;"), vec!["91.3"]);
}

#[test]
fn parsing_twice_gives_the_same_tree() {
    let tokens = scan("print -(1 + 2) * 3 == 4 ? \"a\" : \"b\";".to_string()).unwrap();
    let first = Parser::new(tokens.clone()).parse().unwrap();
    let second = Parser::new(tokens).parse().unwrap();
    assert_eq!(format!("{first:?}"), format!("{second:?}"));
    match &first[0] {
        Stmt::Print(e) => {
            assert_eq!(e.visit_string(), "(ternary (== (* (- (group (+ 1 2))) 3) 4) \"a\" \"b\")".replace("\"", ""));
        }
        _ => panic!("expected a print statement"),
    }
}

#[test]
fn string_concatenation() {
    assert_eq!(printed("print \"hello\" + 56.9;"), vec!["hello56.9"]);
    assert_eq!(printed("print \"hello\" + true;"), vec!["hellotrue"]);
    assert_eq!(printed("print \"abc\" + \", yo\";"), vec!["abc, yo"]);
    assert_eq!(runtime_message("print 1 + \"a\";"), "Mismatched types. Cannot add the two operands");
    assert_eq!(runtime_message("print \"a\" + nil;"), "Mismatched types. Cannot add the two operands");
}

#[test]
fn division_by_zero_is_a_runtime_error() {
    assert_eq!(
        runtime_message("print 4 / 0;"),
        "Divide by zero error. The denominator is equal to zero!"
    );
}

#[test]
fn equality_across_types_is_a_runtime_error() {
    assert_eq!(
        runtime_message("print 1 == \"1\";"),
        "Mismatched types, cannot compare the two operands"
    );
    assert_eq!(printed("print nil == nil; print nil == 1; print 1 == nil; print 2 != 3;"), vec!["true", "false", "false", "true"]);
    assert_eq!(printed("print 0.1 + 0.2 == 0.3; print \"a\" == \"a\"; print true == false;"), vec!["true", "true", "false"]);
}

#[test]
fn ternary_evaluates_both_branches() {
    assert_eq!(
        runtime_message("print true ? 1 : (4/0);"),
        "Divide by zero error. The denominator is equal to zero!"
    );
    assert_eq!(printed("print true ? 1 : 2; print nil ? 1 : 2; print false ? 1 : 2;"), vec!["1", "2", "2"]);
    assert_eq!(runtime_message("print 3 ? 1 : 2;"), "ternary operation failed.");
}

#[test]
fn block_declaration_does_not_leak() {
    assert_eq!(printed("var x = 1; { var x = 2; } print x;"), vec!["1"]);
    assert_eq!(printed("var x = 1; { x = 2; } print x;"), vec!["2"]);
    assert_eq!(printed("var x = 1; { var x = 2; print x; x = 3; print x; } print x;"), vec!["2", "3", "1"]);
}

#[test]
fn comparisons_and_unary_operators() {
    assert_eq!(printed("print \"hello\" > \"hell\";"), vec!["true"]);
    assert_eq!(printed("print \"thing\" > \"thug\";"), vec!["false"]);
    assert_eq!(printed("print 1 < 2; print 2 <= 2; print 3 >= 4;"), vec!["true", "true", "false"]);
    assert_eq!(printed("print -4;"), vec!["-4"]);
    assert_eq!(printed("print !true;"), vec!["false"]);
    assert_eq!(printed("print !nil;"), vec!["true"]);
    assert_eq!(printed("print !0;"), vec!["false"]);
    assert_eq!(
        runtime_message("print -\"a\";"),
        "Mismatched unary operation. Cannot perform operation on the following."
    );
    assert_eq!(runtime_message("print 1 < \"a\";"), "Mismatched types. Cannot compare the two operands");
    assert_eq!(runtime_message("print 1 - true;"), "Mismatched types. Cannot subtract the two operands");
    assert_eq!(runtime_message("print 1 * nil;"), "Mismatched types. Cannot multiply the two operands");
    assert_eq!(runtime_message("print 1 / \"x\";"), "Mismatched types. Cannot divide the two operands");
    assert_eq!(
        runtime_message("print (1, 2);"),
        "Cannot fathom the binary operation. Check your code again"
    );
}

#[test]
fn variables_and_assignment() {
    assert_eq!(printed("var a = 1; var b = a + 1; a = b = 5; print a; print b;"), vec!["5", "5"]);
    assert_eq!(runtime_message("print y;"), "Undefined variable 'y'.");
    assert_eq!(runtime_message("y = 1;"), "Undefined variable: y");
    assert_eq!(runtime_message("var z; print z;"), "Undefined variable 'z'.");
    assert_eq!(printed("var n = nil; print n;"), vec!["Nil"]);
}

#[test]
fn output_before_a_runtime_error_is_kept() {
    let (out, errors) = run("print 1; print 2 / 0; print 3;");
    assert_eq!(out, vec!["1"]);
    assert_eq!(errors.len(), 1);
}

#[test]
fn syntax_errors_are_all_reported() {
    assert_eq!(
        compile_messages("print (1 + 2; var = 3; print 4;"),
        vec!["Expect ')' after expression", "Expect variable name"]
    );
    assert_eq!(compile_messages("1 + 2 = 3;"), vec!["Invalid assignment target"]);
    assert_eq!(compile_messages("print 1"), vec!["Expect ';' after expression"]);
    assert_eq!(compile_messages("{ print 1;"), vec!["Expect '}' after block"]);
    assert_eq!(compile_messages("print true ? 1;"), vec!["Expect ':' in ternary expression"]);
    assert_eq!(compile_messages("print ;"), vec!["Unable to resolve token here"]);
    assert_eq!(compile_messages("var x = 1"), vec!["Expect ';' after variable declaration"]);
}

#[test]
fn runner_flags_and_reports() {
    let mut runner = Runner::new();
    let _ = runner.run("print 1 +;".to_string());
    assert!(runner.had_error);
    assert!(!runner.had_runtime_error);
    let _ = runner.run("print 1 / 0;".to_string());
    assert!(runner.had_runtime_error);

    let mut r = Runner::new();
    let at_end = Token::new(TokenType::EOF, "", None, 3);
    assert_eq!(r.error(&at_end, "Expect expression"), "[line 3] Error  at end  : Expect expression");
    assert!(r.had_error);
    let at_plus = Token::new(TokenType::PLUS, "+", None, 12);
    assert_eq!(r.error(&at_plus, "oops"), "[line 12] Error  at '+' : oops");
    let mut r2 = Runner::new();
    let e = Error::RuntimeError { token: None, message: "m".to_string() };
    r2.runtime_error(&e);
    assert!(r2.had_runtime_error);
    assert!(!r2.had_error);
}

#[test]
fn environment_scopes() {
    let name = Token::new(TokenType::IDENTIFIER, "v", None, 1);
    let mut env = Environment::new_empty_env();
    assert!(env.get(&name).is_err());
    assert!(env.assign(&name, Typer::Nil).is_err());
    env.define("v".to_string(), Some(Typer::Boolean(true)));
    env.define("w".to_string(), None);
    let mut inner = Environment::new(env.copy());
    inner.define("v".to_string(), Some(Typer::Str("inner".to_string())));
    assert_eq!(inner.get(&name).unwrap().to_string(), "inner");
    inner.pop_scope();
    assert_eq!(inner.get(&name).unwrap().to_string(), "true");
    inner.push_scope();
    inner.assign(&name, Typer::Boolean(false)).unwrap();
    inner.pop_scope();
    assert_eq!(inner.get(&name).unwrap().to_string(), "false");
    assert_eq!(env.get(&name).unwrap().to_string(), "true");
    let w = Token::new(TokenType::IDENTIFIER, "w", None, 1);
    assert!(env.get(&w).is_err());
}

#[test]
fn interpreter_executes_and_evaluates() {
    let tokens = scan("var a = 2; { var b = a * 3; print b; a = b; } print a;".to_string()).unwrap();
    let stmts = Parser::new(tokens).parse().unwrap();
    let mut interp = Interpreter::new();
    interp.interpret(&stmts).unwrap();
    assert_eq!(interp.take_output(), vec!["6", "6"]);
    let saved = interp.get_environment();
    let fresh = Environment::new_empty_env();
    interp.set_environment(fresh).unwrap();
    let a = Token::new(TokenType::IDENTIFIER, "a", None, 1);
    assert!(interp.environment.get(&a).is_err());
    interp.set_environment(saved).unwrap();
    assert_eq!(interp.environment.get(&a).unwrap().to_string(), "6");

    let tokens = scan("(1 + 2) * 3;".to_string()).unwrap();
    let stmts = Parser::new(tokens).parse().unwrap();
    match &stmts[0] {
        Stmt::Expression(e) => {
            let mut env = Environment::new_empty_env();
            assert_eq!(evaluate(e, &mut env).unwrap().to_string(), "9");
        }
        _ => panic!("expected an expression statement"),
    }
}
