use ronkey::ast::{Expression, Statement};
use ronkey::evaluator::{Environment, Response};
use ronkey::lexer::Lexer;
use ronkey::object::{MapKey, MapPair, Object};
use ronkey::parser::Parser;
use ronkey::token::Token;

fn test_eval(input: &str) -> Response {
    let mut lexer = Lexer::new(input);
    let mut parser = Parser::new(&mut lexer);
    let program = parser.parse_program();
    let mut env = Environment::new();
    env.eval(program)
}

fn assert_object(input: &str, expected: Object) {
    match test_eval(input) {
        Response::Reply(result) => assert_eq!(result, expected),
        _ => unreachable!(),
    }
}

fn assert_objects(tests: Vec<(&str, Object)>) {
    for (input, expected) in tests {
        assert_object(input, expected);
    }
}

fn assert_errors(tests: Vec<(&str, &str)>) {
    for (input, expected) in tests {
        match test_eval(input) {
            Response::Error(message) => assert_eq!(message, expected),
            _ => unreachable!(),
        }
    }
}

#[test]
fn test_eval_integer_expressions() {
    let tests = vec![
        ("5", Object::Integer(5)),
        ("10", Object::Integer(10)),
        ("-5", Object::Integer(-5)),
        ("-10", Object::Integer(-10)),
        ("5 + 5 + 5 + 5 - 10", Object::Integer(10)),
        ("2 * 2 * 2 * 2 * 2", Object::Integer(32)),
        ("-50 + 100 + -50", Object::Integer(0)),
        ("5 * 2 + 10", Object::Integer(20)),
        ("5 + 2 * 10", Object::Integer(25)),
        ("20 + 2 * -10", Object::Integer(0)),
        ("50 / 2 * 2 + 10", Object::Integer(60)),
        ("2 * (5 + 10)", Object::Integer(30)),
        ("3 * 3 * 3 + 10", Object::Integer(37)),
        ("3 * (3 * 3) + 10", Object::Integer(37)),
        ("(5 + 10 * 2 + 15 / 3) * 2 + -10", Object::Integer(50)),
    ];

    assert_objects(tests);
}

#[test]
fn test_eval_boolean_expressions() {
    let tests = vec![
        ("true", Object::Boolean(true)),
        ("false", Object::Boolean(false)),
        ("1 < 2", Object::Boolean(true)),
        ("1 > 2", Object::Boolean(false)),
        ("1 < 1", Object::Boolean(false)),
        ("1 > 1", Object::Boolean(false)),
        ("1 == 1", Object::Boolean(true)),
        ("1 != 1", Object::Boolean(false)),
        ("1 == 2", Object::Boolean(false)),
        ("1 != 2", Object::Boolean(true)),
        ("true == true", Object::Boolean(true)),
        ("false == false", Object::Boolean(true)),
        ("true == false", Object::Boolean(false)),
        ("true != false", Object::Boolean(true)),
        ("false != true", Object::Boolean(true)),
        ("(1 < 2) == true", Object::Boolean(true)),
        ("(1 < 2) == false", Object::Boolean(false)),
        ("(1 > 2) == true", Object::Boolean(false)),
        ("(1 > 2) == false", Object::Boolean(true)),
        (r#""Hello World!" == "Hello World!""#, Object::Boolean(true)),
        (
            r#""Hello World!" != "Hello World!""#,
            Object::Boolean(false),
        ),
    ];

    assert_objects(tests);
}

#[test]
fn test_eval_bang_prefix_expressions() {
    let tests = vec![
        ("!true", Object::Boolean(false)),
        ("!false", Object::Boolean(true)),
        ("!5", Object::Boolean(false)),
        ("!!true", Object::Boolean(true)),
        ("!!false", Object::Boolean(false)),
        ("!!5", Object::Boolean(true)),
    ];

    assert_objects(tests);
}

#[test]
fn evaluator_test_if_else_expressions() {
    let tests = vec![
        ("if (true) { 10 }", Object::Integer(10)),
        ("if (false) { 10 }", Object::Null),
        ("if (1) { 10 }", Object::Integer(10)),
        ("if (1 < 2) { 10 }", Object::Integer(10)),
        ("if (1 > 2) { 10 }", Object::Null),
        ("if (1 > 2) { 10 } else { 20 }", Object::Integer(20)),
        ("if (1 < 2) { 10 } else { 20 }", Object::Integer(10)),
    ];

    assert_objects(tests);
}

#[test]
fn evaluator_test_return_statements() {
    let tests = vec![
        ("return 10;", Object::Integer(10)),
        ("return 10; 9;", Object::Integer(10)),
        ("return 2 * 5; 9;", Object::Integer(10)),
        ("9; return 2 * 5; 9;", Object::Integer(10)),
        (
            "if (10 > 1) { if (10 > 1) { return 10; } return 1; }",
            Object::Integer(10),
        ),
    ];

    assert_objects(tests);
}

#[test]
fn test_error_handling() {
    let tests = vec![
        ("5 + true;", "type mismatch: Integer + Boolean"),
        ("5 + true; 5;", "type mismatch: Integer + Boolean"),
        ("-true;", "unknown operator: -Boolean"),
        ("true + false;", "unknown operator: Boolean + Boolean"),
        ("5; true + false; 5;", "unknown operator: Boolean + Boolean"),
        (
            "if (10 > 1) { true + false; }",
            "unknown operator: Boolean + Boolean",
        ),
        (
            "if (10 > 1) { if (10 > 1) { return true + false; } return 1; }",
            "unknown operator: Boolean + Boolean",
        ),
        ("foobar", "identifier not found: foobar"),
        (r#""Hello" - "World""#, "unknown operator: String - String"),
        ("len(1)", "argument to `len` not supported, got Integer"),
        (
            r#"len("one", "two")"#,
            "wrong number of arguments. got=2, want=1",
        ),
        (
            r#"{"name": "Monkey"}[fn(x) { x }]"#,
            "unusable as map key: Function",
        ),
    ];

    assert_errors(tests);
}

#[test]
fn evaluator_test_let_statements() {
    let tests = vec![
        ("let a = 5; a;", Object::Integer(5)),
        ("let a = 5 * 5; a;", Object::Integer(25)),
        ("let a = 5; let b = a; b;", Object::Integer(5)),
        (
            "let a = 5; let b = a; let c = a + b + 5; c;",
            Object::Integer(15),
        ),
    ];

    assert_objects(tests);
}

#[test]
fn evaluator_test_function_expressions() {
    let input = "fn(x) { x + 2; };";

    let expected_parameters = vec![Expression::Identifier("x".to_string())];
    let expected_body = Statement::Block(vec![Statement::Expression(Expression::Infix {
        left: Box::new(Expression::Identifier("x".to_string())),
        operator: Token::Plus,
        right: Box::new(Expression::Integer(2)),
    })]);

    match test_eval(input) {
        Response::Reply(Object::Function {
            parameters, body, ..
        }) => {
            assert_eq!(parameters, expected_parameters);
            assert_eq!(body, expected_body);
        }
        _ => unreachable!(),
    }
}

#[test]
fn test_function_applications() {
    let tests = vec![
        (
            "let identity = fn(x) { x; }; identity(5);",
            Object::Integer(5),
        ),
        (
            "let identity = fn(x) { return x; }; identity(5);",
            Object::Integer(5),
        ),
        (
            "let double = fn(x) { x * 2; }; double(5);",
            Object::Integer(10),
        ),
        (
            "let add = fn(x, y) { x + y; }; add(5, 5);",
            Object::Integer(10),
        ),
        (
            "let add = fn(x, y) { x + y; }; add(5 + 5, add(5, 5));",
            Object::Integer(20),
        ),
        ("fn(x) { x; }(5)", Object::Integer(5)),
    ];

    assert_objects(tests);
}

#[test]
fn test_closures() {
    let input = r"
let newAdder = fn(x) {
    fn(y) { x + y };
};
let addTwo = newAdder(2);
addTwo(2);
";

    let expected = Object::Integer(4);

    assert_object(input, expected);
}

#[test]
fn evaluator_test_string_expressions() {
    let tests = vec![
        (
            r#""Hello World!""#,
            Object::String("Hello World!".to_string()),
        ),
        (
            r#""Hello" + " " + "World!""#,
            Object::String("Hello World!".to_string()),
        ),
    ];

    assert_objects(tests);
}

#[test]
fn test_buildin_functions() {
    let tests = vec![
        (r#"len("")"#, Object::Integer(0)),
        (r#"len("four")"#, Object::Integer(4)),
        (r#"len("hello world")"#, Object::Integer(11)),
    ];

    assert_objects(tests);
}

#[test]
fn evaluator_test_array_expressions() {
    let input = "[1, 2 * 2, 3 + 3]";

    let expected = Object::Array(vec![
        Object::Integer(1),
        Object::Integer(4),
        Object::Integer(6),
    ]);

    assert_object(input, expected);
}

#[test]
fn test_array_index_expressions() {
    let tests = vec![
        ("[1, 2, 3][0]", Object::Integer(1)),
        ("[1, 2, 3][1]", Object::Integer(2)),
        ("[1, 2, 3][2]", Object::Integer(3)),
        ("let i = 0; [1][i]", Object::Integer(1)),
        ("[1, 2, 3][1 + 1]", Object::Integer(3)),
        ("let myArray = [1, 2, 3]; myArray[2]", Object::Integer(3)),
        (
            "let myArray = [1, 2, 3]; myArray[0] + myArray[1] + myArray[2]",
            Object::Integer(6),
        ),
        (
            "let myArray = [1, 2, 3]; let i = myArray[0]; myArray[i]",
            Object::Integer(2),
        ),
        ("[1, 2, 3][3]", Object::Null),
        ("[1, 2, 3][-1]", Object::Null),
    ];

    assert_objects(tests);
}

#[test]
fn test_map_expressions() {
    let input = r#"
let two = "two";
{"one": 10 - 9, two: 1 + 1, "thr" + "ee": 6 / 2, 4: 4, true: 5, false: 6};
"#;

    let mut pairs = Vec::new();

    pairs.push((
        MapKey::String("one".to_string()),
        MapPair::new(Object::String("one".to_string()), Object::Integer(1)),
    ));
    pairs.push((
        MapKey::String("two".to_string()),
        MapPair::new(Object::String("two".to_string()), Object::Integer(2)),
    ));
    pairs.push((
        MapKey::String("three".to_string()),
        MapPair::new(Object::String("three".to_string()), Object::Integer(3)),
    ));
    pairs.push((
        MapKey::Integer(4),
        MapPair::new(Object::Integer(4), Object::Integer(4)),
    ));
    pairs.push((
        MapKey::Boolean(true),
        MapPair::new(Object::Boolean(true), Object::Integer(5)),
    ));
    pairs.push((
        MapKey::Boolean(false),
        MapPair::new(Object::Boolean(false), Object::Integer(6)),
    ));

    let expected = Object::Hash(pairs);

    assert_object(input, expected);
}

#[test]
fn test_map_index_expressions() {
    let tests = vec![
        (r#"{"foo": 5}["foo"]"#, Object::Integer(5)),
        (r#"{"foo": 5}["bar"]"#, Object::Null),
        (r#"let key = "foo"; {"foo": 5}[key]"#, Object::Integer(5)),
        (r#"{}["foo"]"#, Object::Null),
        ("{5: 5}[5]", Object::Integer(5)),
        ("{true: 5}[true]", Object::Integer(5)),
        ("{false: 5}[false]", Object::Integer(5)),
    ];

    assert_objects(tests);
}
