use minirust::ast::{ComparisonType, Node, Parser};
use minirust::token::{tokenize, Token, TokenKind};

#[test]
fn expr() {
    let tests = [
        (
            vec![
                Token {
                    kind: TokenKind::Num(12),
                },
                Token {
                    kind: TokenKind::Plus,
                },
                Token {
                    kind: TokenKind::Num(5),
                },
                Token {
                    kind: TokenKind::Minus,
                },
                Token {
                    kind: TokenKind::Num(1),
                },
            ],
            Node::Sub(
                Box::new(Node::Add(Box::new(Node::Num(12)), Box::new(Node::Num(5)))),
                Box::new(Node::Num(1)),
            ),
        ),
        (
            vec![
                Token {
                    kind: TokenKind::Identifier("a".to_owned()),
                },
                Token {
                    kind: TokenKind::Eq,
                },
                Token {
                    kind: TokenKind::Num(1),
                },
            ],
            Node::Comparison(
                ComparisonType::Eq,
                Box::new(Node::RLet("a".to_owned())),
                Box::new(Node::Num(1)),
            ),
        ),
    ];

    for (tokens, expected) in tests {
        let mut parser = Parser::new(&tokens);
        assert_eq!(parser.expr(), expected);
    }
}

#[test]
fn primary() {
    let tests = [
        (
            vec![Token {
                kind: TokenKind::Num(1),
            }],
            Node::Num(1),
        ),
        (
            vec![
                Token {
                    kind: TokenKind::Identifier("f".to_owned()),
                },
                Token {
                    kind: TokenKind::LParen,
                },
                Token {
                    kind: TokenKind::Num(5),
                },
                Token {
                    kind: TokenKind::Comma,
                },
                Token {
                    kind: TokenKind::Num(3),
                },
                Token {
                    kind: TokenKind::RParen,
                },
            ],
            Node::Call("f".to_owned(), vec![Node::Num(5), Node::Num(3)]),
        ),
    ];

    for (tokens, expected) in tests {
        let mut parser = Parser::new(&tokens);
        assert_eq!(parser.primary(), expected);
    }
}

fn parse_expr(src: &str) -> Node {
    let tokens = tokenize(src);
    let mut parser = Parser::new(&tokens);
    parser.expr()
}

fn b(n: Node) -> Box<Node> {
    Box::new(n)
}

#[test]
fn multiplication_nests_to_the_right() {
    assert_eq!(
        parse_expr("8 / 4 * 2"),
        Node::Div(b(Node::Num(8)), b(Node::Mul(b(Node::Num(4)), b(Node::Num(2)))))
    );
}

#[test]
fn precedence_and_unary_minus() {
    assert_eq!(
        parse_expr("-1 + 2 * 3 < 7 && x"),
        Node::And(
            b(Node::Comparison(
                ComparisonType::Lt,
                b(Node::Add(
                    b(Node::Sub(b(Node::Num(0)), b(Node::Num(1)))),
                    b(Node::Mul(b(Node::Num(2)), b(Node::Num(3)))),
                )),
                b(Node::Num(7)),
            )),
            b(Node::RLet("x".to_owned())),
        )
    );
}

#[test]
fn qualified_call_uses_the_function_name() {
    assert_eq!(
        parse_expr("math::square(3)"),
        Node::Call("square".to_owned(), vec![Node::Num(3)])
    );
    assert_eq!(
        parse_expr("a = (b)"),
        Node::Assign("a".to_owned(), b(Node::RLet("b".to_owned())))
    );
}

#[test]
fn program_with_statements() {
    let tokens = tokenize(
        "mod math; fn f(a: i32, b: bool) -> i32 { let mut x: i32 = a; if b { return x; } else if a { x = 2; } else { } while x < 3 { x = x + 1; } return x; } fn main() { f(1, true); }",
    );
    let mut parser = Parser::new(&tokens);
    let p = parser.program();
    assert_eq!(p.mods, vec!["math".to_owned()]);
    assert_eq!(p.functions.len(), 2);
    let f = &p.functions[0];
    assert_eq!(f.name, "f");
    assert_eq!(f.ty, "i32");
    assert_eq!(f.args.len(), 2);
    assert_eq!(f.args[1].ty, "bool");
    assert_eq!(p.functions[1].ty, "void");
    match &f.body {
        Node::Block(items) => {
            assert_eq!(items.len(), 4);
            assert_eq!(
                items[0],
                Node::Let("x".to_owned(), Some("i32".to_owned()), b(Node::RLet("a".to_owned())), true)
            );
            match &items[1] {
                Node::If(_, _, Some(e)) => assert!(matches!(**e, Node::If(_, _, Some(_)))),
                other => panic!("unexpected {:?}", other),
            }
        }
        other => panic!("unexpected {:?}", other),
    }
}

#[test]
fn syntax_errors_are_refused() {
    for src in ["fn main() { let = 1; }", "fn main( { }", "fn main() { 1 + ; }", "fn main() { return 1 }"] {
        let tokens = tokenize(src);
        let mut parser = Parser::new(&tokens);
        assert!(parser.try_program().is_none(), "{}", src);
    }
}
