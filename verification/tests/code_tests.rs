use minirust::ast::Parser;
use minirust::code::{generate, CodegenError};
use minirust::hir::{EnumVariant, Function, Node, Program, StructField};
use minirust::semantic::analyze;
use minirust::token::tokenize;
use minirust::types::Type;

fn compile(src: &str) -> (Vec<String>, Option<CodegenError>) {
    let tokens = tokenize(src);
    let mut parser = Parser::new(&tokens);
    let program = parser.program();
    let hir = analyze(&program);
    generate(&hir)
}

fn lines(v: &[&str]) -> Vec<String> {
    v.iter().map(|s| s.to_string()).collect()
}

fn hir_program(functions: Vec<Function>) -> Program {
    Program {
        functions,
        strings: vec![],
        struct_map: vec![],
        enum_map: vec![],
    }
}

fn function(name: &str, ty: &str, body: Node) -> Function {
    Function {
        name: name.to_owned(),
        args: vec![],
        body,
        ty: ty.to_owned(),
        mod_name: None,
    }
}

#[test]
fn print_a_sum() {
    let (out, err) = compile(r#"fn main() { printf("%d", 1 + 2); return 0; }"#);
    assert!(err.is_none());
    assert_eq!(
        out,
        lines(&[
            r#"@.str.0 = private unnamed_addr constant [3 x i8] c"%d\00""#,
            "declare i32 @printf(ptr, ...)",
            "",
            r#"define i32 @"main"() {"#,
            "entry:",
            "  %r0 = add i32 1, 2",
            r#"  %r1 = call i32 @"printf"(ptr @.str.0, i32 %r0)"#,
            "  ret i32 0",
            "}",
        ])
    );
}

#[test]
fn two_functions() {
    let src = "fn f() -> i32 { let a = 5; let b = 4; return a * (b + 3); }\n\
               fn main() { printf(\"%d\", f() - 12); return 0; }";
    let (out, err) = compile(src);
    assert!(err.is_none());
    assert_eq!(
        out,
        lines(&[
            r#"@.str.0 = private unnamed_addr constant [3 x i8] c"%d\00""#,
            "declare i32 @printf(ptr, ...)",
            "",
            r#"define i32 @"f"() {"#,
            "entry:",
            "  %r0 = alloca i32",
            "  store i32 5, ptr %r0",
            "  %r1 = alloca i32",
            "  store i32 4, ptr %r1",
            "  %r2 = load i32, ptr %r0",
            "  %r3 = load i32, ptr %r1",
            "  %r4 = add i32 %r3, 3",
            "  %r5 = mul i32 %r2, %r4",
            "  ret i32 %r5",
            "}",
            "",
            r#"define i32 @"main"() {"#,
            "entry:",
            r#"  %r0 = call i32 @"f"()"#,
            "  %r1 = sub i32 %r0, 12",
            r#"  %r2 = call i32 @"printf"(ptr @.str.0, i32 %r1)"#,
            "  ret i32 0",
            "}",
        ])
    );
}

#[test]
fn parameters_and_loops() {
    let src = "fn g(n: i32) { let mut i = 0; while i < n { i = i + 1; } if i == 3 { return 1; } else { return 2; } }\n\
               fn main() { g(3); }";
    let (out, err) = compile(src);
    assert!(err.is_none());
    assert_eq!(
        out,
        lines(&[
            "declare i32 @printf(ptr, ...)",
            "",
            r#"define void @"g"(i32 %r0) {"#,
            "entry:",
            "  %r1 = alloca i32",
            "  store i32 %r0, ptr %r1",
            "  %r2 = alloca i32",
            "  store i32 0, ptr %r2",
            "  ; while",
            "  br label %cond_0",
            "cond_0:",
            "  %r3 = load i32, ptr %r2",
            "  %r4 = load i32, ptr %r1",
            "  %r5 = icmp slt i32 %r3, %r4",
            "  br i1 %r5, label %while_0, label%whileend_0",
            "while_0:",
            "  %r6 = load i32, ptr %r2",
            "  %r7 = add i32 %r6, 1",
            "  store i32 %r7, ptr %r2",
            "  br label %cond_0",
            "whileend_0:",
            "  %r8 = load i32, ptr %r2",
            "  %r9 = icmp eq i32 %r8, 3",
            "  br i1 %r9, label %if_1, label %else_1",
            "if_1:",
            "  ret i32 1",
            "else_1:",
            "  ret i32 2",
            "}",
            "",
            r#"define i32 @"main"() {"#,
            "entry:",
            r#"  %r0 = call void @"g"(i32 3)"#,
            "  ret i32 0",
            "}",
        ])
    );
}

#[test]
fn if_without_else_and_logic() {
    let src = "fn main() { let b = 1 < 2; if b || false { printf(\"x\"); } return 0; }";
    let (out, err) = compile(src);
    assert!(err.is_none());
    assert_eq!(
        out,
        lines(&[
            r#"@.str.0 = private unnamed_addr constant [2 x i8] c"x\00""#,
            "declare i32 @printf(ptr, ...)",
            "",
            r#"define i32 @"main"() {"#,
            "entry:",
            "  %r0 = icmp slt i32 1, 2",
            "  %r1 = alloca i1",
            "  store i1 %r0, ptr %r1",
            "  %r2 = load i1, ptr %r1",
            "  %r3 = or i1 %r2, 0",
            "  br i1 %r3, label %if_0, label %ifafter_0",
            "if_0:",
            r#"  %r4 = call i32 @"printf"(ptr @.str.0)"#,
            "  br label %ifafter_0",
            "ifafter_0:",
            "  ret i32 0",
            "}",
        ])
    );
}

#[test]
fn missing_return() {
    let (out, err) = compile("fn f() -> i32 { let a = 1; } fn main() { }");
    assert!(matches!(err, Some(CodegenError::MissingReturn)));
    assert_eq!(
        out,
        lines(&[
            "declare i32 @printf(ptr, ...)",
            "",
            r#"define i32 @"f"() {"#,
            "entry:",
            "  %r0 = alloca i32",
            "  store i32 1, ptr %r0",
        ])
    );
}

#[test]
fn void_function_and_main_end_with_ret() {
    let (out, err) = compile("fn f() { } fn main() { f(); }");
    assert!(err.is_none());
    assert_eq!(
        out,
        lines(&[
            "declare i32 @printf(ptr, ...)",
            "",
            r#"define void @"f"() {"#,
            "entry:",
            "  ret void",
            "}",
            "",
            r#"define i32 @"main"() {"#,
            "entry:",
            r#"  %r0 = call void @"f"()"#,
            "  ret i32 0",
            "}",
        ])
    );
}

#[test]
fn break_outside_loop() {
    let p = hir_program(vec![function("main", "void", Node::Block(vec![Node::Break]))]);
    let (out, err) = generate(&p);
    assert!(matches!(err, Some(CodegenError::OutsideLoop)));
    assert_eq!(
        out,
        lines(&["declare i32 @printf(ptr, ...)", "", r#"define i32 @"main"() {"#, "entry:"])
    );
}

#[test]
fn break_and_continue_in_loop() {
    let body = Node::Block(vec![Node::While(
        Box::new(Node::Bool(true)),
        Box::new(Node::Block(vec![Node::Continue, Node::Break])),
    )]);
    let p = hir_program(vec![function("main", "void", body)]);
    let (out, err) = generate(&p);
    assert!(err.is_none());
    assert_eq!(
        out,
        lines(&[
            "declare i32 @printf(ptr, ...)",
            "",
            r#"define i32 @"main"() {"#,
            "entry:",
            "  ; while",
            "  br label %cond_0",
            "cond_0:",
            "  br i1 1, label %while_0, label%whileend_0",
            "while_0:",
            "  br label %cond_0",
            "  br label %whileend_0",
            "whileend_0:",
            "  ret i32 0",
            "}",
        ])
    );
}

#[test]
fn undefined_variable() {
    let body = Node::Block(vec![Node::RLet("x".to_owned(), Type::Int)]);
    let (_, err) = generate(&hir_program(vec![function("main", "void", body)]));
    assert!(matches!(err, Some(CodegenError::UndefinedVariable(n)) if n == "x"));
}

#[test]
fn logic_operators() {
    let body = Node::Block(vec![Node::Or(
        Box::new(Node::And(Box::new(Node::Bool(true)), Box::new(Node::Bool(false)), Type::Bool)),
        Box::new(Node::Bool(true)),
        Type::Bool,
    )]);
    let (out, err) = generate(&hir_program(vec![function("main", "void", body)]));
    assert!(err.is_none());
    assert_eq!(out[4], "  %r0 = and i1 1, 0");
    assert_eq!(out[5], "  %r1 = or i1 %r0, 1");
}

#[test]
fn negation() {
    let body = Node::Block(vec![Node::Not(Box::new(Node::Bool(false)))]);
    let (out, err) = generate(&hir_program(vec![function("main", "void", body)]));
    assert!(err.is_none());
    assert_eq!(out[4], "  %r0 = xor i1 0, 1");
}

#[test]
fn unsupported_node() {
    let body = Node::Block(vec![Node::Underscore]);
    let (_, err) = generate(&hir_program(vec![function("main", "void", body)]));
    assert!(matches!(err, Some(CodegenError::Unsupported)));
}

#[test]
fn structs_arrays_and_fields() {
    let body = Node::Block(vec![
        Node::Let(
            "p".to_owned(),
            Type::Struct("P".to_owned()),
            Box::new(Node::Struct("P".to_owned(), vec![(0, Node::Num(1)), (1, Node::Bool(true))])),
            false,
        ),
        Node::FieldAccess(
            Box::new(Node::RLet("p".to_owned(), Type::Struct("P".to_owned()))),
            1,
            Type::Bool,
        ),
        Node::ArrayAccess(
            Box::new(Node::Array(vec![Node::Num(7), Node::Num(8)], Type::Int)),
            Box::new(Node::Num(1)),
            Type::Int,
        ),
        Node::Ret(Box::new(Node::Num(0))),
    ]);
    let mut p = hir_program(vec![function("main", "i32", body)]);
    p.struct_map = vec![(
        "P".to_owned(),
        vec![
            ("a".to_owned(), StructField { ty: Type::Int, index: 0 }),
            ("b".to_owned(), StructField { ty: Type::Bool, index: 1 }),
        ],
    )];
    let (out, err) = generate(&p);
    assert!(err.is_none());
    assert_eq!(
        out,
        lines(&[
            "%P = type {i32,i1}",
            "declare i32 @printf(ptr, ...)",
            "",
            r#"define i32 @"main"() {"#,
            "entry:",
            "  %r0 = alloca %P",
            "  %r1 = getelementptr %P, ptr %r0, i32 0, i32 0",
            "  store i32 1, ptr %r1",
            "  %r2 = getelementptr %P, ptr %r0, i32 0, i32 1",
            "  store i1 1, ptr %r2",
            "  %r3 = load %P, ptr %r0",
            "  %r4 = alloca %P",
            "  store %P %r3, ptr %r4",
            "  %r5 = load %P, ptr %r4",
            "  %r6 = extractvalue %P %r5, 1",
            "  %r7 = alloca [2 x i32]",
            "  %r8 = getelementptr [2 x i32], ptr %r7, i32 0, i32 0",
            "  store i32 7, ptr %r8",
            "  %r9 = getelementptr [2 x i32], ptr %r7, i32 0, i32 1",
            "  store i32 8, ptr %r9",
            "  %r10 = load [2 x i32], ptr %r7",
            "  %r11 = extractvalue [2 x i32] %r10, 1",
            "  ret i32 0",
            "}",
        ])
    );
}

#[test]
fn enums_and_match() {
    let body = Node::Block(vec![
        Node::Match(
            Box::new(Node::Enum("E".to_owned(), "B".to_owned(), vec![])),
            vec![
                (Node::Enum("E".to_owned(), "A".to_owned(), vec![]), Node::Block(vec![])),
                (Node::Enum("E".to_owned(), "B".to_owned(), vec![]), Node::Block(vec![])),
            ],
        ),
        Node::Ret(Box::new(Node::Num(-3))),
    ]);
    let mut p = hir_program(vec![function("main", "i32", body)]);
    p.enum_map = vec![(
        "E".to_owned(),
        vec![
            ("A".to_owned(), EnumVariant { index: 0, types: vec![] }),
            ("B".to_owned(), EnumVariant { index: 1, types: vec![] }),
        ],
    )];
    let (out, err) = generate(&p);
    assert!(err.is_none());
    assert_eq!(
        out,
        lines(&[
            "declare i32 @printf(ptr, ...)",
            "",
            r#"define i32 @"main"() {"#,
            "entry:",
            "  switch i32 1, label %switch_0_default [i32 0, label %switch_0_0 i32 1, label %switch_0_1]",
            "switch_0_default:",
            "  unreachable",
            "switch_0_0:",
            "  br label %switch_0_after",
            "switch_0_1:",
            "  br label %switch_0_after",
            "switch_0_after:",
            "  ret i32 -3",
            "}",
        ])
    );
}

#[test]
fn unknown_enum_variant() {
    let body = Node::Block(vec![Node::Enum("E".to_owned(), "C".to_owned(), vec![])]);
    let (_, err) = generate(&hir_program(vec![function("main", "void", body)]));
    assert!(matches!(err, Some(CodegenError::UnknownVariant(a, b)) if a == "E" && b == "C"));
}

#[test]
fn module_function_names_and_non_ascii_strings() {
    let mut f = function("max", "void", Node::Block(vec![]));
    f.mod_name = Some("std::cmp".to_owned());
    let mut p = hir_program(vec![f]);
    p.strings = vec!["é".to_owned()];
    let (out, err) = generate(&p);
    assert!(err.is_none());
    assert_eq!(
        out,
        lines(&[
            r#"@.str.0 = private unnamed_addr constant [3 x i8] c"é\00""#,
            "declare i32 @printf(ptr, ...)",
            "",
            r#"define void @"std::cmp::max"() {"#,
            "entry:",
            "  ret void",
            "}",
        ])
    );
}

#[test]
fn full_name_of_functions() {
    let mut f = function("max", "void", Node::Block(vec![]));
    assert_eq!(f.full_name(), "max");
    f.mod_name = Some("cmp".to_owned());
    assert_eq!(f.full_name(), "cmp::max");
}
