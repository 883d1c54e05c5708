use minirust::loader::{LoadError, LoadRequest, LoadStep, Loader};

fn read(step: Result<LoadStep, LoadError>) -> LoadRequest {
    match step {
        Ok(LoadStep::Read(r)) => r,
        other => panic!("expected a file to read, got {:?}", other),
    }
}

#[test]
fn loads_modules_once_and_std_last() {
    let mut l = Loader::new("base".to_owned(), "std".to_owned());
    let root = l.load("main.rs");
    assert_eq!(root.dir, "base");
    assert_eq!(root.file, "main.rs");
    assert_eq!(root.mod_name, None);

    let r = read(l.next("mod a; mod b; fn main() { }"));
    assert_eq!((r.dir.as_str(), r.file.as_str()), ("base", "b.rs"));
    assert_eq!(r.mod_name.as_deref(), Some("b"));

    let r = read(l.next("mod a; fn fb() { }"));
    assert_eq!(r.file, "a.rs");
    assert_eq!(r.mod_name.as_deref(), Some("a"));

    let r = read(l.next("mod b; fn fa() { }"));
    assert_eq!((r.dir.as_str(), r.file.as_str()), ("std", "cmp.rs"));
    assert_eq!(r.mod_name.as_deref(), Some("std::cmp"));

    match l.next("fn max(a: i32, b: i32) -> i32 { return a; }") {
        Ok(LoadStep::Done(p)) => {
            assert_eq!(p.mods, vec!["b".to_owned(), "a".to_owned(), "std::cmp".to_owned()]);
            let names: Vec<&str> = p.functions.iter().map(|f| f.name.as_str()).collect();
            assert_eq!(names, vec!["main", "fb", "fa", "max"]);
            let modules: Vec<Option<&str>> = p.functions.iter().map(|f| f.mod_name.as_deref()).collect();
            assert_eq!(modules, vec![None, Some("b"), Some("a"), Some("std::cmp")]);
        }
        other => panic!("expected the program, got {:?}", other),
    }
}

#[test]
fn refuses_bad_sources() {
    let mut l = Loader::new("base".to_owned(), "std".to_owned());
    l.load("main.rs");
    assert!(matches!(l.next("fn main() { # }"), Err(LoadError::Tokenize)));
    assert!(matches!(l.next("fn main( { }"), Err(LoadError::Parse)));
    let r = read(l.next("fn main() { }"));
    assert_eq!(r.file, "cmp.rs");
}
