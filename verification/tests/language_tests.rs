//! Scenario tests for the language's documented behaviour: precedence,
//! operator typing, scoping, closures, bounds, map keys, arity, the
//! non-mutating built-ins, display round trips, and the explicit policies
//! for division by zero, overflow and unbounded recursion.
use ronkey::evaluator::{Environment, Response};
use ronkey::lexer::Lexer;
use ronkey::object::Object;
use ronkey::parser::Parser;

fn test_eval(input: &str) -> Response {
    let mut lexer = Lexer::new(input);
    let mut parser = Parser::new(&mut lexer);
    let program = parser.parse_program();
    assert_eq!(parser.get_errors().len(), 0);
    let mut env = Environment::new();
    env.eval(program)
}

fn assert_object(input: &str, expected: Object) {
    match test_eval(input) {
        Response::Reply(result) => assert_eq!(result, expected),
        _ => unreachable!(),
    }
}

fn assert_error(input: &str, expected: &str) {
    match test_eval(input) {
        Response::Error(message) => assert_eq!(message, expected),
        _ => unreachable!(),
    }
}

#[test]
fn test_arithmetic_precedence() {
    assert_object("2 + 3 * 4", Object::Integer(14));
    assert_object("(2 + 3) * 4", Object::Integer(20));
}

#[test]
fn test_prefix_operator_typing() {
    assert_error("-true", "unknown operator: -Boolean");
    assert_object("!5", Object::Boolean(false));
    assert_object("!!5", Object::Boolean(true));
    assert_object("!0", Object::Boolean(false));
}

#[test]
fn test_scoping_shadow_does_not_mutate_outer() {
    assert_object(
        "let a = 1; let f = fn() { let a = 2; a; }; f(); a;",
        Object::Integer(1),
    );
}

#[test]
fn test_closure_capture_by_snapshot() {
    assert_object(
        "let x = 1; let f = fn() { x; }; let x = 2; f();",
        Object::Integer(1),
    );
}

#[test]
fn test_array_bounds_yield_null() {
    assert_object("[1, 2, 3][5]", Object::Null);
    assert_object("[1, 2, 3][-1]", Object::Null);
}

#[test]
fn test_map_key_rejection() {
    assert_error(
        r#"{"name": "Monkey"}[fn(x) { x }]"#,
        "unusable as map key: Function",
    );
    assert_error("{fn(x) { x }: 1}", "unusable as map key: Function");
    assert_error("[1][[2]]", "index operator not supported: Array");
    assert_error("5[0]", "index operator not supported: Integer");
}

#[test]
fn test_arity_enforcement() {
    assert_error(
        "let add = fn(x, y) { x + y; }; add(1);",
        "expected arity to be 2, got 1 instead",
    );
    assert_error(
        "let id = fn(x) { x; }; id(1, 2);",
        "expected arity to be 1, got 2 instead",
    );
}

#[test]
fn test_push_does_not_mutate() {
    assert_object(
        "let a = [1]; let b = push(a, 2); a;",
        Object::Array(vec![Object::Integer(1)]),
    );
    assert_object(
        "let a = [1]; push(a, 2);",
        Object::Array(vec![Object::Integer(1), Object::Integer(2)]),
    );
    assert_object("first([])", Object::Null);
    assert_object("last([])", Object::Null);
    assert_object("rest([])", Object::Null);
    assert_object(
        "rest([1, 2, 3])",
        Object::Array(vec![Object::Integer(2), Object::Integer(3)]),
    );
    assert_object("first([7, 8])", Object::Integer(7));
    assert_object("last([7, 8])", Object::Integer(8));
}

#[test]
fn test_buildin_type_errors() {
    assert_error("first(1)", "argument to `first` must be Array, got Integer");
    assert_error("last(1)", "argument to `last` must be Array, got Integer");
    assert_error("rest(1)", "argument to `rest` must be Array, got Integer");
    assert_error("push(1, 2)", "argument to `push` must be Array, got Integer");
    assert_error("push([1])", "wrong number of arguments. got=1, want=2");
}

#[test]
fn test_round_trip_display() {
    let printed_forms = [
        "((-a) * b)",
        "(!(-a))",
        "((a + b) + c)",
        "(((a + (b * c)) + (d / e)) - f)",
        "((5 > 4) == (3 < 4))",
        "((3 + (4 * 5)) == ((3 * 1) + (4 * 5)))",
        "true",
        "(!(true == true))",
        "((a + add((b * c))) + d)",
        "add(a, b, 1, (2 * 3), (4 + 5), add(6, (7 * 8)))",
        "[1, (2 * 2), (3 + 3)]",
        "([a, b][1])",
        "{a: 1, b: (2 * 2)}",
    ];
    for form in printed_forms {
        let mut lexer = Lexer::new(form);
        let mut parser = Parser::new(&mut lexer);
        let program = parser.parse_program();
        assert_eq!(parser.get_errors().len(), 0);
        assert_eq!(program.statements.len(), 1);
        assert_eq!(program.statements[0].to_string(), form);
    }
}

#[test]
fn test_division_by_zero_is_an_error() {
    assert_error("5 / 0", "division by zero");
    assert_error("let x = 0; 10 / x;", "division by zero");
}

#[test]
fn test_division_truncates_toward_zero() {
    assert_object("7 / 2", Object::Integer(3));
    assert_object("-7 / 2", Object::Integer(-3));
    assert_object("7 / -2", Object::Integer(-3));
    assert_object("-7 / -2", Object::Integer(3));
}

#[test]
fn test_integer_overflow_is_an_error() {
    assert_error("9223372036854775807 + 1", "integer overflow");
    assert_error("9223372036854775807 * 2", "integer overflow");
    assert_error("0 - 9223372036854775807 - 2", "integer overflow");
}

#[test]
fn test_unbounded_recursion_is_an_error() {
    assert_error("let f = fn(x) { x(x) }; f(f);", "stack overflow");
}

#[test]
fn test_empty_literals() {
    assert_object("[]", Object::Array(vec![]));
    assert_object("{}", Object::Hash(vec![]));
}

#[test]
fn test_let_yields_no_reply() {
    match test_eval("let a = 1;") {
        Response::NoReply => {}
        _ => unreachable!(),
    }
}

#[test]
fn test_parse_error_diagnostics() {
    let mut lexer = Lexer::new("let 5 = 5;");
    let mut parser = Parser::new(&mut lexer);
    let _program = parser.parse_program();
    assert!(parser.exists_errors());
    let errors = parser.get_errors();
    assert_eq!(errors[0], "expected next token to be Ident, got Int(5) instead");

    let mut lexer2 = Lexer::new("let x 5;");
    let mut parser2 = Parser::new(&mut lexer2);
    let _program2 = parser2.parse_program();
    let errors2 = parser2.get_errors();
    assert_eq!(errors2[0], "expected next token to be =, got Int(5) instead");
}

#[test]
fn test_parse_error_on_illegal_character() {
    let mut lexer = Lexer::new("1 + @;");
    let mut parser = Parser::new(&mut lexer);
    let _program = parser.parse_program();
    assert!(parser.exists_errors());
    let errors = parser.get_errors();
    assert_eq!(errors[0], "no prefix parse function for Illegal(@) found");
}

#[test]
fn test_shadowing_builtins() {
    assert_object("let len = fn(x) { 42 }; len(\"abc\");", Object::Integer(42));
    assert_object("len(\"abc\")", Object::Integer(3));
}

#[test]
fn test_block_scoping_is_flat() {
    assert_object("if (true) { let a = 5; a } else { 0 }", Object::Integer(5));
    assert_object("if (true) { let a = 5; 0 }; a;", Object::Integer(5));
}

#[test]
fn test_statement_display() {
    let forms = [("let x = 5;", "let x = 5;"), ("return a + b;", "return (a + b);")];
    for (input, expected) in forms {
        let mut lexer = Lexer::new(input);
        let mut parser = Parser::new(&mut lexer);
        let program = parser.parse_program();
        assert_eq!(parser.get_errors().len(), 0);
        assert_eq!(program.statements[0].to_string(), expected);
    }
}

#[test]
fn test_len_counts_bytes() {
    assert_object("len(\"h\u{e9}llo\")", Object::Integer(6));
    assert_object("len(\"\u{e9}\")", Object::Integer(2));
}

#[test]
fn test_unterminated_string_evaluates() {
    assert_object("\"abc", Object::String("abc".to_string()));
}
