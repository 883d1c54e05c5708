use minirust::token::{tokenize, try_tokenize, Token, TokenKind};

#[test]
fn num() {
    assert_eq!(
        tokenize("12 + 5 - 1"),
        vec![
            Token {
                kind: TokenKind::Num(12)
            },
            Token {
                kind: TokenKind::Plus
            },
            Token {
                kind: TokenKind::Num(5),
            },
            Token {
                kind: TokenKind::Minus
            },
            Token {
                kind: TokenKind::Num(1),
            },
        ]
    );
}

#[test]
fn function() {
    assert_eq!(
        tokenize("fn main() {}"),
        vec![
            Token {
                kind: TokenKind::Fn
            },
            Token {
                kind: TokenKind::Identifier("main".to_owned()),
            },
            Token {
                kind: TokenKind::LParen
            },
            Token {
                kind: TokenKind::RParen
            },
            Token {
                kind: TokenKind::LBrace
            },
            Token {
                kind: TokenKind::RBrace
            }
        ]
    );
}

#[test]
fn string() {
    assert_eq!(
        tokenize(r#"let s = "let a = 1";"#),
        vec![
            Token {
                kind: TokenKind::Let,
            },
            Token {
                kind: TokenKind::Identifier("s".to_owned())
            },
            Token {
                kind: TokenKind::Assign,
            },
            Token {
                kind: TokenKind::String("let a = 1".to_owned()),
            },
            Token {
                kind: TokenKind::Semi,
            }
        ]
    );
}

#[test]
fn ne() {
    assert_eq!(
        tokenize(r#"let b = a != 2;"#),
        vec![
            Token {
                kind: TokenKind::Let,
            },
            Token {
                kind: TokenKind::Identifier("b".to_owned())
            },
            Token {
                kind: TokenKind::Assign,
            },
            Token {
                kind: TokenKind::Identifier("a".to_owned())
            },
            Token {
                kind: TokenKind::Ne,
            },
            Token {
                kind: TokenKind::Num(2),
            },
            Token {
                kind: TokenKind::Semi,
            },
        ]
    );
}

fn kinds(s: &str) -> Vec<TokenKind> {
    tokenize(s).into_iter().map(|t| t.kind).collect()
}

#[test]
fn two_character_operators() {
    assert_eq!(
        kinds("-> :: == != <= >= && ||"),
        vec![
            TokenKind::Arrow,
            TokenKind::ColonColon,
            TokenKind::Eq,
            TokenKind::Ne,
            TokenKind::Le,
            TokenKind::Ge,
            TokenKind::And,
            TokenKind::Or,
        ]
    );
    assert_eq!(
        kinds("- : = ! < > , * / ( ) { } ;"),
        vec![
            TokenKind::Minus,
            TokenKind::Colon,
            TokenKind::Assign,
            TokenKind::Not,
            TokenKind::Lt,
            TokenKind::Gt,
            TokenKind::Comma,
            TokenKind::Mul,
            TokenKind::Div,
            TokenKind::LParen,
            TokenKind::RParen,
            TokenKind::LBrace,
            TokenKind::RBrace,
            TokenKind::Semi,
        ]
    );
}

#[test]
fn keywords_and_literals() {
    assert_eq!(
        kinds("mod fn return let mut if else while true false x1"),
        vec![
            TokenKind::Mod,
            TokenKind::Fn,
            TokenKind::Ret,
            TokenKind::Let,
            TokenKind::Mut,
            TokenKind::If,
            TokenKind::Else,
            TokenKind::While,
            TokenKind::Bool(true),
            TokenKind::Bool(false),
            TokenKind::Identifier("x1".to_owned()),
        ]
    );
}

#[test]
fn comments_and_lone_ampersand_are_skipped() {
    assert_eq!(
        kinds("1 // a comment ( }\n2 & 3 | 4"),
        vec![TokenKind::Num(1), TokenKind::Num(2), TokenKind::Num(3), TokenKind::Num(4)]
    );
    assert_eq!(kinds("  \t\n "), vec![]);
}

#[test]
fn unterminated_string_runs_to_the_end() {
    assert_eq!(kinds("\"abc"), vec![TokenKind::String("abc".to_owned())]);
}

#[test]
fn large_numbers() {
    assert_eq!(kinds("4294967295"), vec![TokenKind::Num(-1)]);
    assert_eq!(kinds("2147483648"), vec![TokenKind::Num(-2147483648)]);
    assert!(try_tokenize("4294967296").is_none());
}

#[test]
fn rejected_characters() {
    assert!(try_tokenize("let a = 1 # 2;").is_none());
    assert!(try_tokenize("1²").is_none());
    assert!(try_tokenize("a.b").is_none());
}
