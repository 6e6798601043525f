use sk_syntax::ast::{Definition, Expression, Literal, Program, Statement, Type};
use sk_syntax::grammar::ErrorKind;
use sk_syntax::parser::{Parser, SyntaxError};
use sk_syntax::tokenizer::Tokenizer;
use sk_syntax::types::{Op, Position, Primitive, Token, TokenTag, TokenType};

fn parse(src: &str) -> Result<Program, SyntaxError> {
    let tokens = Tokenizer::new().tokenize(src).unwrap();
    Parser::new("test.sk".to_string(), tokens).parse()
}

fn s(x: &str) -> String {
    x.to_string()
}

fn int_type() -> Type {
    Type::Primitive(Primitive::Int)
}

fn num(n: i64) -> Expression {
    Expression::Literal(Literal::Number(n))
}

fn var(x: &str) -> Expression {
    Expression::Identifier(s(x))
}

fn body_of(src: &str) -> Statement {
    let mut p = parse(src).unwrap();
    assert_eq!(p.definitions.len(), 1);
    match p.definitions.pop().unwrap() {
        Definition::FnDef(_, _, _, body) => body,
        other => panic!("not a function: {:?}", other),
    }
}

#[test]
fn main_with_return_type_and_empty_body() {
    let p = parse("fn main() -> int { }").unwrap();
    assert_eq!(
        p.definitions,
        vec![Definition::FnDef(s("main"), vec![], Some(int_type()), Statement::Empty)]
    );
}

#[test]
fn missing_colon_is_reported_at_the_next_token() {
    let e = parse("let x 0;").unwrap_err();
    assert_eq!(e.kind, ErrorKind::ExpectedToken(TokenTag::Colon));
    assert_eq!(e.file, "test.sk");
    assert_eq!(
        e.found,
        Some(Token::new(Position { line: 1, col: 8 }, TokenType::Number(0)))
    );
    assert_eq!(e.position(), Some(Position { line: 1, col: 8 }));
}

#[test]
fn empty_and_trivia_only_inputs_parse_to_nothing() {
    assert_eq!(parse("").unwrap().definitions, vec![]);
    assert_eq!(parse("  // nothing here\n\n").unwrap().definitions, vec![]);
}

#[test]
fn function_parameters_and_default_return() {
    let p = parse("fn add(a: int, b: str, c: struct Point) { }").unwrap();
    assert_eq!(
        p.definitions,
        vec![Definition::FnDef(
            s("add"),
            vec![
                (s("a"), int_type()),
                (s("b"), Type::Primitive(Primitive::Str)),
                (s("c"), Type::Struct(s("Point"))),
            ],
            None,
            Statement::Empty,
        )]
    );
}

#[test]
fn pointer_interface_and_void_types() {
    let p = parse("fn f(p: *interface Shape, q: **double) -> void {}").unwrap();
    assert_eq!(
        p.definitions,
        vec![Definition::FnDef(
            s("f"),
            vec![
                (s("p"), Type::Pointer(Box::new(Type::Interface(s("Shape"))))),
                (
                    s("q"),
                    Type::Pointer(Box::new(Type::Pointer(Box::new(Type::Primitive(
                        Primitive::Double
                    ))))),
                ),
            ],
            Some(Type::Primitive(Primitive::Void)),
            Statement::Empty,
        )]
    );
}

#[test]
fn void_is_a_type_like_any_other() {
    let p = parse("fn f(a: void) {}
let g: void;").unwrap();
    assert_eq!(
        p.definitions,
        vec![
            Definition::FnDef(
                s("f"),
                vec![(s("a"), Type::Primitive(Primitive::Void))],
                None,
                Statement::Empty,
            ),
            Definition::GlobalDef(s("g"), Type::Primitive(Primitive::Void), None),
        ]
    );
}

#[test]
fn global_with_and_without_initializer() {
    let p = parse("let x: int = 5;\nlet name: str;").unwrap();
    assert_eq!(
        p.definitions,
        vec![
            Definition::GlobalDef(s("x"), int_type(), Some(num(5))),
            Definition::GlobalDef(s("name"), Type::Primitive(Primitive::Str), None),
        ]
    );
}

#[test]
fn struct_fields_in_order() {
    let p = parse("struct P { x: int, y: bool; z: struct Q }").unwrap();
    match &p.definitions[0] {
        Definition::StructDef(st) => {
            assert_eq!(st.name, "P");
            assert_eq!(
                st.fields,
                vec![
                    (s("x"), int_type()),
                    (s("y"), Type::Primitive(Primitive::Bool)),
                    (s("z"), Type::Struct(s("Q"))),
                ]
            );
        }
        other => panic!("not a struct: {:?}", other),
    }
    let p = parse("struct E {}").unwrap();
    match &p.definitions[0] {
        Definition::StructDef(st) => assert_eq!(st.fields, vec![]),
        other => panic!("not a struct: {:?}", other),
    }
}

#[test]
fn repeated_field_is_rejected_at_its_name() {
    let e = parse("struct P { x: int, x: str }").unwrap_err();
    assert_eq!(e.kind, ErrorKind::DuplicateField);
    assert_eq!(
        e.found,
        Some(Token::new(
            Position { line: 1, col: 21 },
            TokenType::Identifier(s("x"))
        ))
    );
}

#[test]
fn other_leading_token_is_not_a_definition() {
    let e = parse("return 1;").unwrap_err();
    assert_eq!(e.kind, ErrorKind::ExpectedDefinition);
    assert_eq!(e.position(), Some(Position { line: 1, col: 7 }));
}

#[test]
fn premature_end_has_no_position() {
    let e = parse("fn f(").unwrap_err();
    assert_eq!(e.kind, ErrorKind::ExpectedToken(TokenTag::Identifier));
    assert_eq!(e.found, None);
    assert_eq!(e.position(), None);
    let e = parse("fn f() { let a: int;").unwrap_err();
    assert_eq!(e.kind, ErrorKind::ExpectedToken(TokenTag::RightCurly));
    assert_eq!(e.found, None);
}

#[test]
fn first_error_aborts_the_parse() {
    let e = parse("fn ok() {}\nfn (x) {}\nlet y x;").unwrap_err();
    assert_eq!(e.kind, ErrorKind::ExpectedToken(TokenTag::Identifier));
    assert_eq!(e.position(), Some(Position { line: 2, col: 5 }));
}

#[test]
fn statements_in_a_body() {
    let body = body_of(
        "fn f() {\n  let a: int = 1;\n  a = a + 2 * 3;\n  g(a, \"s\");\n  return a;\n}",
    );
    assert_eq!(
        body,
        Statement::Block(vec![
            Statement::Declaration(s("a"), int_type(), Some(num(1))),
            Statement::Assign(
                var("a"),
                Expression::BinaryOp(
                    Op::Mul,
                    Box::new(Expression::BinaryOp(Op::Add, Box::new(var("a")), Box::new(num(2)))),
                    Box::new(num(3)),
                ),
            ),
            Statement::ExpressionStmt(Expression::Call(
                s("g"),
                vec![var("a"), Expression::Literal(Literal::Str(s("s")))],
            )),
            Statement::Return(Some(var("a"))),
        ])
    );
}

#[test]
fn control_flow_statements() {
    let body = body_of(
        "fn f() { if !done { return; } else if x < 3 { } while (x) x = -x; for i in items { } }",
    );
    assert_eq!(
        body,
        Statement::Block(vec![
            Statement::If(
                Expression::UnaryOp(Op::Not, Box::new(var("done"))),
                Box::new(Statement::Block(vec![Statement::Return(None)])),
                Some(Box::new(Statement::If(
                    Expression::BinaryOp(Op::Lt, Box::new(var("x")), Box::new(num(3))),
                    Box::new(Statement::Empty),
                    None,
                ))),
            ),
            Statement::While(
                var("x"),
                Box::new(Statement::Assign(
                    var("x"),
                    Expression::UnaryOp(Op::Sub, Box::new(var("x"))),
                )),
            ),
            Statement::ForIn(s("i"), var("items"), Box::new(Statement::Empty)),
        ])
    );
}

#[test]
fn calls_with_no_and_nested_arguments() {
    let body = body_of("fn f() { g(); h(k(1), (2)); }");
    assert_eq!(
        body,
        Statement::Block(vec![
            Statement::ExpressionStmt(Expression::Call(s("g"), vec![])),
            Statement::ExpressionStmt(Expression::Call(
                s("h"),
                vec![Expression::Call(s("k"), vec![num(1)]), num(2)],
            )),
        ])
    );
}

#[test]
fn missing_expression_and_semicolon() {
    let e = parse("fn f() { return ); }").unwrap_err();
    assert_eq!(e.kind, ErrorKind::ExpectedExpression);
    let e = parse("fn f() { x }").unwrap_err();
    assert_eq!(e.kind, ErrorKind::ExpectedToken(TokenTag::Semicolon));
    assert_eq!(e.position(), Some(Position { line: 1, col: 13 }));
    let e = parse("fn f(a: int b: int) {}").unwrap_err();
    assert_eq!(e.kind, ErrorKind::ExpectedToken(TokenTag::RightParen));
    let e = parse("fn f() -> { }").unwrap_err();
    assert_eq!(e.kind, ErrorKind::ExpectedType);
}

#[test]
fn counted_for_loop() {
    let body = body_of("fn f() { for (let i: int = 0; i < n; i = i + 1) { g(i); } }");
    assert_eq!(
        body,
        Statement::Block(vec![Statement::For(
            Box::new(Statement::Declaration(s("i"), int_type(), Some(num(0)))),
            Expression::BinaryOp(Op::Lt, Box::new(var("i")), Box::new(var("n"))),
            Box::new(Statement::Assign(
                var("i"),
                Expression::BinaryOp(Op::Add, Box::new(var("i")), Box::new(num(1))),
            )),
            Box::new(Statement::Block(vec![Statement::ExpressionStmt(Expression::Call(
                s("g"),
                vec![var("i")],
            ))])),
        )])
    );
    let body = body_of("fn f() { for (i = 0; go; step()) x; }");
    assert_eq!(
        body,
        Statement::Block(vec![Statement::For(
            Box::new(Statement::Assign(var("i"), num(0))),
            var("go"),
            Box::new(Statement::ExpressionStmt(Expression::Call(s("step"), vec![]))),
            Box::new(Statement::ExpressionStmt(var("x"))),
        )])
    );
}

#[test]
fn counted_for_needs_its_parts() {
    let e = parse("fn f() { for (i = 0; go) {} }").unwrap_err();
    assert_eq!(e.kind, ErrorKind::ExpectedToken(TokenTag::Semicolon));
    let e = parse("fn f() { for (i = 0; go; i = 1; ) {} }").unwrap_err();
    assert_eq!(e.kind, ErrorKind::ExpectedToken(TokenTag::RightParen));
    assert_eq!(e.position(), Some(Position { line: 1, col: 32 }));
}
