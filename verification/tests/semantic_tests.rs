use minirust::ast::{Arg, ComparisonType, Function, Node, Program};
use minirust::hir::{Arg as HirArg, Node as HirNode};
use minirust::semantic::{analyze, try_analyze};
use minirust::semantic::function::SemanticError;
use minirust::semantic::utils::{parse_arg, type_of};
use minirust::types::Type;

fn main_fn(body: Vec<Node>) -> Function {
    Function {
        name: "main".to_owned(),
        args: Vec::new(),
        body: Node::Block(body),
        ty: "void".to_owned(),
        mod_name: None,
    }
}

fn program(functions: Vec<Function>) -> Program {
    Program {
        mods: vec![],
        functions,
    }
}

fn rlet(name: &str) -> Box<Node> {
    Box::new(Node::RLet(name.to_owned()))
}

fn not_defined(r: Result<minirust::hir::Program, SemanticError>, name: &str) -> bool {
    matches!(r, Err(SemanticError::NotDefined(n)) if n == name)
}

#[test]
fn semantic_check_main() {
    assert!(not_defined(try_analyze(&program(Vec::new())), "main"));
}

#[test]
fn semantic_check_duplicated_function() {
    let f = || Function {
        name: "f".to_owned(),
        args: Vec::new(),
        body: Node::Block(vec![]),
        ty: "void".to_owned(),
        mod_name: None,
    };
    let r = try_analyze(&program(vec![f(), f(), main_fn(vec![])]));
    assert!(matches!(r, Err(SemanticError::Duplicated(n)) if n == "f"));
}

#[test]
fn semantic_check_let_existence() {
    let r = try_analyze(&program(vec![main_fn(vec![Node::Let(
        "a".to_owned(),
        None,
        Box::new(Node::Add(rlet("b"), Box::new(Node::Num(1)))),
        false,
    )])]));
    assert!(not_defined(r, "b"));
}

#[test]
fn semantic_check_mut() {
    let r = try_analyze(&program(vec![main_fn(vec![
        Node::Let("a".to_owned(), None, Box::new(Node::Num(1)), false),
        Node::Assign("a".to_owned(), Box::new(Node::Num(3))),
    ])]));
    assert!(matches!(r, Err(SemanticError::NotMutable(n)) if n == "a"));
}

#[test]
fn semantic_check_assign_type() {
    let r = try_analyze(&program(vec![main_fn(vec![
        Node::Let("a".to_owned(), None, Box::new(Node::Num(1)), true),
        Node::Assign("a".to_owned(), Box::new(Node::Bool(false))),
    ])]));
    match r {
        Err(SemanticError::Mismatch(expected, found)) => {
            assert_eq!(expected.to_text(), "i32");
            assert_eq!(found.to_text(), "i1");
        }
        other => panic!("unexpected {:?}", other),
    }
}

#[test]
fn check_assign_type_specified() {
    let r = try_analyze(&program(vec![main_fn(vec![
        Node::Let("a".to_owned(), Some("i8".to_owned()), Box::new(Node::Num(1)), true),
        Node::Assign("a".to_owned(), Box::new(Node::Bool(false))),
    ])]));
    match r {
        Err(SemanticError::Mismatch(expected, found)) => {
            assert_eq!(expected, Type::Int8);
            assert_eq!(found, Type::Bool);
        }
        other => panic!("unexpected {:?}", other),
    }
}

#[test]
fn check_let_existence_scope() {
    let r = try_analyze(&program(vec![main_fn(vec![
        Node::Let("a".to_owned(), None, Box::new(Node::Num(1)), false),
        Node::Block(vec![Node::Let("b".to_owned(), None, Box::new(Node::Num(1)), false)]),
        Node::Let("c".to_owned(), None, Box::new(Node::Add(rlet("a"), rlet("b"))), false),
    ])]));
    assert!(not_defined(r, "b"));
}

#[test]
fn semantic_check_let_existence_if() {
    let r = try_analyze(&program(vec![main_fn(vec![Node::If(
        Box::new(Node::Comparison(ComparisonType::Eq, rlet("c"), Box::new(Node::Num(10)))),
        Box::new(Node::Block(vec![])),
        None,
    )])]));
    assert!(not_defined(r, "c"));
}

#[test]
fn semantic_check_let_existence_return() {
    let r = try_analyze(&program(vec![main_fn(vec![Node::Ret(rlet("d"))])]));
    assert!(not_defined(r, "d"));
}

#[test]
fn call_with_wrong_argument_count() {
    let f = Function {
        name: "f".to_owned(),
        args: vec![Arg {
            name: "x".to_owned(),
            ty: "i32".to_owned(),
        }],
        body: Node::Block(vec![]),
        ty: "void".to_owned(),
        mod_name: None,
    };
    let r = try_analyze(&program(vec![
        f,
        main_fn(vec![Node::Call("f".to_owned(), vec![])]),
    ]));
    assert!(matches!(r, Err(SemanticError::ArgCount(n, 1, 0)) if n == "f"));
}

#[test]
fn undefined_function() {
    let r = try_analyze(&program(vec![main_fn(vec![Node::Call("g".to_owned(), vec![])])]));
    assert!(not_defined(r, "g"));
}

#[test]
fn operands_of_different_types() {
    let r = try_analyze(&program(vec![main_fn(vec![Node::Let(
        "a".to_owned(),
        None,
        Box::new(Node::Add(Box::new(Node::Num(1)), Box::new(Node::Bool(true)))),
        false,
    )])]));
    assert!(matches!(r, Err(SemanticError::Mismatch(Type::Int, Type::Bool))));
}

#[test]
fn typed_program() {
    let f = Function {
        name: "f".to_owned(),
        args: vec![Arg {
            name: "x".to_owned(),
            ty: "i32".to_owned(),
        }],
        body: Node::Block(vec![Node::Ret(Box::new(Node::Add(rlet("x"), Box::new(Node::Num(1)))))]),
        ty: "i32".to_owned(),
        mod_name: None,
    };
    let main = main_fn(vec![
        Node::Call(
            "printf".to_owned(),
            vec![
                Node::String("%d".to_owned()),
                Node::Call("f".to_owned(), vec![Node::Num(2)]),
            ],
        ),
        Node::Call("printf".to_owned(), vec![Node::String("%d".to_owned())]),
    ]);
    let hir = try_analyze(&program(vec![f, main])).unwrap();
    assert_eq!(hir.functions.len(), 2);
    assert_eq!(hir.strings, vec!["%d".to_owned()]);
    assert!(hir.struct_map.is_empty() && hir.enum_map.is_empty());
    let f = &hir.functions[0];
    assert_eq!(f.name, "f");
    assert_eq!(f.ty, "i32");
    assert_eq!(f.mod_name, None);
    assert_eq!(
        f.args,
        vec![HirArg {
            name: "x".to_owned(),
            ty: Type::Int
        }]
    );
    assert_eq!(
        f.body,
        HirNode::Block(vec![HirNode::Ret(Box::new(HirNode::Add(
            Box::new(HirNode::RLet("x".to_owned(), Type::Int)),
            Box::new(HirNode::Num(1)),
            Type::Int
        )))])
    );
    let main = &hir.functions[1];
    assert_eq!(
        main.body,
        HirNode::Block(vec![
            HirNode::Call(
                "printf".to_owned(),
                vec![
                    HirNode::String(0),
                    HirNode::Call("f".to_owned(), vec![HirNode::Num(2)], Type::Int)
                ],
                Type::Int
            ),
            HirNode::Call("printf".to_owned(), vec![HirNode::String(0)], Type::Int),
        ])
    );
}

#[test]
fn string_literal_numbers_follow_the_table() {
    let main = main_fn(vec![
        Node::Call("printf".to_owned(), vec![Node::String("a".to_owned())]),
        Node::Call("printf".to_owned(), vec![Node::String("b".to_owned())]),
    ]);
    let hir = try_analyze(&program(vec![main])).unwrap();
    assert_eq!(hir.strings, vec!["a".to_owned(), "b".to_owned()]);
    assert_eq!(
        hir.functions[0].body,
        HirNode::Block(vec![
            HirNode::Call("printf".to_owned(), vec![HirNode::String(0)], Type::Int),
            HirNode::Call("printf".to_owned(), vec![HirNode::String(1)], Type::Int),
        ])
    );
}

#[test]
fn parse_arg_and_type_of() {
    let a = parse_arg(
        &Arg {
            name: "b".to_owned(),
            ty: "bool".to_owned(),
        },
        None,
    );
    assert_eq!(a.ty, Type::Bool);
    assert_eq!(type_of(&HirNode::Num(3)), Type::Int);
    assert_eq!(type_of(&HirNode::RLet("v".to_owned(), Type::Int8)), Type::Int8);
}

#[test]
fn repeated_string_literal_takes_the_last_number() {
    let main = main_fn(vec![
        Node::Call("printf".to_owned(), vec![Node::String("a".to_owned())]),
        Node::Call("printf".to_owned(), vec![Node::String("b".to_owned())]),
        Node::Call("printf".to_owned(), vec![Node::String("a".to_owned())]),
    ]);
    let hir = try_analyze(&program(vec![main])).unwrap();
    assert_eq!(hir.strings, vec!["a".to_owned(), "b".to_owned()]);
    assert_eq!(
        hir.functions[0].body,
        HirNode::Block(vec![
            HirNode::Call("printf".to_owned(), vec![HirNode::String(0)], Type::Int),
            HirNode::Call("printf".to_owned(), vec![HirNode::String(1)], Type::Int),
            HirNode::Call("printf".to_owned(), vec![HirNode::String(1)], Type::Int),
        ])
    );
}

#[test]
fn logic_operator_has_no_type_for_let() {
    let r = try_analyze(&program(vec![main_fn(vec![Node::Let(
        "b".to_owned(),
        None,
        Box::new(Node::And(Box::new(Node::Bool(true)), Box::new(Node::Bool(false)))),
        false,
    )])]));
    assert!(matches!(r, Err(SemanticError::Untyped(_))));
}

fn square_in(m: &str) -> Function {
    Function {
        name: "square".to_owned(),
        args: vec![Arg {
            name: "x".to_owned(),
            ty: "i32".to_owned(),
        }],
        body: Node::Block(vec![Node::Ret(Box::new(Node::Mul(rlet("x"), rlet("x"))))]),
        ty: "i32".to_owned(),
        mod_name: Some(m.to_owned()),
    }
}

#[test]
fn functions_of_different_modules_stay_apart() {
    let hir = try_analyze(&program(vec![square_in("math"), square_in("math2"), main_fn(vec![])])).unwrap();
    assert_eq!(hir.functions.len(), 3);
    assert_eq!(hir.functions[0].mod_name.as_deref(), Some("math"));
    assert_eq!(hir.functions[0].full_name(), "math::square");
    assert_eq!(hir.functions[1].full_name(), "math2::square");
    assert_eq!(hir.functions[2].full_name(), "main");
}

#[test]
fn calls_in_a_module_name_its_functions() {
    let twice = Function {
        name: "twice".to_owned(),
        args: vec![],
        body: Node::Block(vec![Node::Ret(Box::new(Node::Call(
            "square".to_owned(),
            vec![Node::Num(2)],
        )))]),
        ty: "i32".to_owned(),
        mod_name: Some("math".to_owned()),
    };
    let hir = try_analyze(&program(vec![square_in("math"), twice, main_fn(vec![])])).unwrap();
    assert_eq!(
        hir.functions[1].body,
        HirNode::Block(vec![HirNode::Ret(Box::new(HirNode::Call(
            "math::square".to_owned(),
            vec![HirNode::Num(2)],
            Type::Int
        )))])
    );
}

#[test]
fn module_function_named_like_an_earlier_root_function() {
    let mut root = square_in("x");
    root.mod_name = None;
    let r = try_analyze(&program(vec![root, square_in("math"), main_fn(vec![])]));
    assert!(matches!(r, Err(SemanticError::Duplicated(n)) if n == "square"));
}

#[test]
fn analyze_an_accepted_program() {
    let hir = analyze(&program(vec![main_fn(vec![Node::Let(
        "a".to_owned(),
        None,
        Box::new(Node::Num(1)),
        false,
    )])]));
    assert_eq!(hir.functions.len(), 1);
    assert_eq!(
        hir.functions[0].body,
        HirNode::Block(vec![HirNode::Let("a".to_owned(), Type::Int, Box::new(HirNode::Num(1)), false)])
    );
}

#[test]
fn analyze_single_nodes() {
    let functions: Vec<(String, minirust::semantic::types::FunctionMetadata)> = Vec::new();
    let f = main_fn(vec![]);
    let mut a = minirust::semantic::function::FunctionAnalyzer::new(&f, &functions, Vec::new());
    assert_eq!(
        a.analyze_node(&Node::Add(Box::new(Node::Num(1)), Box::new(Node::Num(2)))),
        HirNode::Add(Box::new(HirNode::Num(1)), Box::new(HirNode::Num(2)), Type::Int)
    );
    assert!(matches!(a.try_analyze_node(&Node::RLet("z".to_owned())), Err(SemanticError::NotDefined(n)) if n == "z"));
    assert!(matches!(
        a.try_analyze_node(&Node::Add(Box::new(Node::Num(1)), Box::new(Node::Bool(true)))),
        Err(SemanticError::Mismatch(Type::Int, Type::Bool))
    ));
}

#[test]
fn block_restores_outer_bindings() {
    let functions: Vec<(String, minirust::semantic::types::FunctionMetadata)> = Vec::new();
    let f = main_fn(vec![]);
    let mut a = minirust::semantic::function::FunctionAnalyzer::new(&f, &functions, Vec::new());
    a.analyze_node(&Node::Let("x".to_owned(), None, Box::new(Node::Num(1)), false));
    let block = Node::Block(vec![
        Node::Let("x".to_owned(), None, Box::new(Node::Bool(true)), false),
        Node::Let("y".to_owned(), None, Box::new(Node::Num(2)), false),
    ]);
    a.analyze_node(&block);
    assert_eq!(
        a.analyze_node(&Node::RLet("x".to_owned())),
        HirNode::RLet("x".to_owned(), Type::Int)
    );
    assert!(matches!(a.try_analyze_node(&Node::RLet("y".to_owned())), Err(SemanticError::NotDefined(n)) if n == "y"));
}
