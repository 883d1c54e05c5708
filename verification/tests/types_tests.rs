use minirust::types::Type;

#[test]
fn type_names() {
    assert_eq!("i32".parse::<Type>(), Ok(Type::Int));
    assert_eq!("i8".parse::<Type>(), Ok(Type::Int8));
    assert_eq!("bool".parse::<Type>(), Ok(Type::Bool));
    assert_eq!("void".parse::<Type>(), Ok(Type::Void));
    assert_eq!("Point".parse::<Type>(), Ok(Type::Struct("Point".to_owned())));
    assert_eq!(Type::from_name("i32"), Type::Int);
}

#[test]
fn llvm_spelling() {
    assert_eq!(Type::Int.to_text(), "i32");
    assert_eq!(Type::Int8.to_text(), "i8");
    assert_eq!(Type::Bool.to_text(), "i1");
    assert_eq!(Type::Void.to_text(), "void");
    assert_eq!(Type::Ptr(Box::new(Type::Bool)).to_text(), "ptr");
    assert_eq!(Type::Struct("P".to_owned()).to_text(), "%P");
    assert_eq!(Type::Enum("E".to_owned(), "A".to_owned()).to_text(), "%E");
    assert_eq!(Type::Array(Box::new(Type::Int8), 12).to_text(), "[12 x i8]");
    assert_eq!(
        Type::Array(Box::new(Type::Array(Box::new(Type::Int), 2)), 3).to_text(),
        "[3 x [2 x i32]]"
    );
}

#[test]
fn inner_types() {
    assert_eq!(Type::Array(Box::new(Type::Bool), 4).inner(), Type::Bool);
    assert_eq!(Type::Ptr(Box::new(Type::Int)).inner(), Type::Int);
    let t = Type::Ptr(Box::new(Type::Struct("S".to_owned())));
    assert_eq!(t.clone(), t);
    assert!(t.same(&t.copy()));
    assert!(!Type::Int.same(&Type::Int8));
}
