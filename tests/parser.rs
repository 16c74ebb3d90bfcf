use script_parser::ast::AstNode;
use script_parser::parser::Parser;

fn text(s: &str) -> String {
    s.to_string()
}

fn expr(n: AstNode) -> AstNode {
    AstNode::Expression(Box::new(n))
}

fn stmt(n: AstNode) -> AstNode {
    AstNode::Statement(Box::new(n))
}

fn num(s: &str) -> AstNode {
    AstNode::Number(text(s))
}

#[test]
fn identifier_takes_letter_run() {
    let mut p = Parser::new("abc1");
    assert_eq!(p.identifier(), Some(AstNode::Identifier(text("abc"))));
    assert_eq!(p.position(), 3);
}

#[test]
fn identifier_at_end_of_input() {
    let mut p = Parser::new("Hello");
    assert_eq!(p.identifier(), Some(AstNode::Identifier(text("Hello"))));
    assert_eq!(p.position(), 5);
}

#[test]
fn identifier_stops_at_underscore_and_non_ascii() {
    let mut p = Parser::new("ab_c");
    assert_eq!(p.identifier(), Some(AstNode::Identifier(text("ab"))));
    assert_eq!(p.position(), 2);
    let mut q = Parser::new("éa");
    assert_eq!(q.identifier(), None);
    assert_eq!(q.position(), 0);
}

#[test]
fn identifier_no_match_consumes_nothing() {
    let mut p = Parser::new("1abc");
    assert_eq!(p.identifier(), None);
    assert_eq!(p.position(), 0);
}

#[test]
fn string_takes_quoted_text() {
    let mut p = Parser::new("\"hello world\" rest");
    assert_eq!(p.string(), Some(AstNode::String(text("hello world"))));
    assert_eq!(p.position(), 13);
}

#[test]
fn string_empty() {
    let mut p = Parser::new("\"\";");
    assert_eq!(p.string(), Some(AstNode::String(text(""))));
    assert_eq!(p.position(), 2);
}

#[test]
fn string_unterminated_runs_to_end() {
    let mut p = Parser::new("\"abc");
    assert_eq!(p.string(), Some(AstNode::String(text("abc"))));
    assert_eq!(p.position(), 4);
}

#[test]
fn string_keeps_backslash_and_dollar() {
    let mut p = Parser::new("\"a\\n $x\"");
    assert_eq!(p.string(), Some(AstNode::String(text("a\\n $x"))));
    assert_eq!(p.position(), 8);
}

#[test]
fn string_needs_opening_quote() {
    let mut p = Parser::new("abc\"");
    assert_eq!(p.string(), None);
    assert_eq!(p.position(), 0);
}

#[test]
fn number_stops_before_letters() {
    let mut p = Parser::new("3.14abc");
    let n = p.number();
    assert_eq!(n, Some(num("3.14")));
    assert_eq!(p.position(), 4);
    match n {
        Some(AstNode::Number(t)) => assert_eq!(t.parse::<f64>().unwrap(), 3.14),
        _ => panic!("not a number"),
    }
}

#[test]
fn number_integer_and_trailing_point() {
    let mut p = Parser::new("42;");
    assert_eq!(p.number(), Some(num("42")));
    assert_eq!(p.position(), 2);
    let mut q = Parser::new("12.)");
    assert_eq!(q.number(), Some(num("12.")));
    assert_eq!(q.position(), 3);
}

#[test]
fn number_second_point_not_taken() {
    let mut p = Parser::new("1.2.3");
    assert_eq!(p.number(), Some(num("1.2")));
    assert_eq!(p.position(), 3);
}

#[test]
fn number_exponent_not_taken() {
    let mut p = Parser::new("1e5");
    assert_eq!(p.number(), Some(num("1")));
    assert_eq!(p.position(), 1);
}

#[test]
fn number_needs_leading_digit() {
    let mut p = Parser::new(".5");
    assert_eq!(p.number(), None);
    assert_eq!(p.position(), 0);
    let mut q = Parser::new("-1");
    assert_eq!(q.number(), None);
    assert_eq!(q.position(), 0);
}

#[test]
fn skip_whitespace_unicode() {
    let mut p = Parser::new(" \t\n\u{3000}\u{a0}x");
    p.skip_whitespace();
    assert_eq!(p.position(), 5);
    p.skip_whitespace();
    assert_eq!(p.position(), 5);
}

#[test]
fn expect_char_consumes_only_a_match() {
    let mut p = Parser::new("(x");
    assert_eq!(p.expect_char('x'), None);
    assert_eq!(p.position(), 0);
    assert_eq!(p.expect_char('('), Some('('));
    assert_eq!(p.position(), 1);
    let mut q = Parser::new("");
    assert_eq!(q.expect_char(';'), None);
    assert_eq!(q.position(), 0);
}

#[test]
fn expression_function_call() {
    let mut p = Parser::new("foo(1, 2)");
    assert_eq!(
        p.expression(),
        Some(expr(AstNode::FunctionCall {
            name: text("foo"),
            args: vec![expr(num("1")), expr(num("2"))],
        }))
    );
    assert_eq!(p.position(), 9);
}

#[test]
fn expression_let_binding() {
    let mut p = Parser::new("let x = 3");
    assert_eq!(
        p.expression(),
        Some(expr(AstNode::Let {
            lhs: Box::new(AstNode::Identifier(text("x"))),
            rhs: Box::new(expr(num("3"))),
        }))
    );
    assert_eq!(p.position(), 9);
}

#[test]
fn expression_call_without_arguments() {
    let mut p = Parser::new("f ( )");
    assert_eq!(
        p.expression(),
        Some(expr(AstNode::FunctionCall { name: text("f"), args: vec![] }))
    );
    assert_eq!(p.position(), 5);
}

#[test]
fn expression_nested_call() {
    let mut p = Parser::new("f(g(x), \"s\")");
    let inner = expr(AstNode::FunctionCall {
        name: text("g"),
        args: vec![expr(AstNode::Variable(text("x")))],
    });
    assert_eq!(
        p.expression(),
        Some(expr(AstNode::FunctionCall {
            name: text("f"),
            args: vec![inner, expr(AstNode::String(text("s")))],
        }))
    );
    assert_eq!(p.position(), 12);
}

#[test]
fn expression_unclosed_call_fails() {
    let mut p = Parser::new("f(1;");
    assert_eq!(p.expression(), None);
    assert_eq!(p.position(), 3);
}

#[test]
fn expression_empty_input() {
    let mut p = Parser::new("   ");
    assert_eq!(p.expression(), None);
    assert_eq!(p.position(), 3);
}

#[test]
fn statement_let() {
    let mut p = Parser::new("let x = 3;");
    assert_eq!(
        p.statement(),
        Some(stmt(expr(AstNode::Let {
            lhs: Box::new(AstNode::Identifier(text("x"))),
            rhs: Box::new(expr(num("3"))),
        })))
    );
    assert_eq!(p.position(), 10);
}

#[test]
fn statement_print_call() {
    let mut p = Parser::new("print(\"hi\");");
    assert_eq!(
        p.statement(),
        Some(stmt(expr(AstNode::FunctionCall {
            name: text("print"),
            args: vec![expr(AstNode::String(text("hi")))],
        })))
    );
    assert_eq!(p.position(), 12);
}

#[test]
fn statement_needs_terminator() {
    let mut p = Parser::new("x");
    assert_eq!(p.statement(), None);
    assert_eq!(p.statement(), None);
}

#[test]
fn statement_exhausted_input_stays_exhausted() {
    let mut p = Parser::new("x;");
    assert!(p.statement().is_some());
    assert_eq!(p.position(), 2);
    assert_eq!(p.statement(), None);
    assert_eq!(p.statement(), None);
    assert_eq!(p.position(), 2);
}

#[test]
fn statement_variable() {
    let mut p = Parser::new("x;");
    assert_eq!(p.statement(), Some(stmt(expr(AstNode::Variable(text("x"))))));
}

#[test]
fn statement_let_without_name_fails() {
    let mut p = Parser::new("let = 3;");
    assert_eq!(p.statement(), None);
    assert_eq!(p.position(), 4);
}

#[test]
fn statements_in_sequence() {
    let mut p = Parser::new("\n  let x = 3;\n  print(\"n is $x\");\n");
    assert_eq!(
        p.statement(),
        Some(stmt(expr(AstNode::Let {
            lhs: Box::new(AstNode::Identifier(text("x"))),
            rhs: Box::new(expr(num("3"))),
        })))
    );
    assert_eq!(
        p.statement(),
        Some(stmt(expr(AstNode::FunctionCall {
            name: text("print"),
            args: vec![expr(AstNode::String(text("n is $x")))],
        })))
    );
    assert_eq!(p.statement(), None);
}
