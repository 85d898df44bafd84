use lox_runtime::token::Error;
use lox_runtime::token::Type;

#[test]
fn test() {
    let all = Type::get_all();
    println!("{:?}", all);
    println!("{:?}", all.last().unwrap());
}

#[test]
fn get_all_lists_every_kind_in_order() {
    let all = Type::get_all();
    assert_eq!(all.len(), 41);
    assert_eq!(all[0], Type::LeftParenthesis);
    assert_eq!(all[19], Type::Identifier);
    assert_eq!(all[22], Type::And);
    assert_eq!(all[38], Type::Eof);
    assert_eq!(all[40], Type::EmptyString);
}

#[test]
fn from_str_recognises_every_keyword() {
    assert_eq!(Type::from_str("and").unwrap(), Type::And);
    assert_eq!(Type::from_str("class").unwrap(), Type::Class);
    assert_eq!(Type::from_str("else").unwrap(), Type::Else);
    assert_eq!(Type::from_str("false").unwrap(), Type::False);
    assert_eq!(Type::from_str("fun").unwrap(), Type::Function);
    assert_eq!(Type::from_str("for").unwrap(), Type::For);
    assert_eq!(Type::from_str("if").unwrap(), Type::If);
    assert_eq!(Type::from_str("nil").unwrap(), Type::Nil);
    assert_eq!(Type::from_str("or").unwrap(), Type::Or);
    assert_eq!(Type::from_str("print").unwrap(), Type::Print);
    assert_eq!(Type::from_str("return").unwrap(), Type::Return);
    assert_eq!(Type::from_str("super").unwrap(), Type::Super);
    assert_eq!(Type::from_str("this").unwrap(), Type::This);
    assert_eq!(Type::from_str("true").unwrap(), Type::True);
    assert_eq!(Type::from_str("var").unwrap(), Type::Var);
    assert_eq!(Type::from_str("while").unwrap(), Type::While);
}

#[test]
fn from_str_rejects_anything_else() {
    match Type::from_str("banana") {
        Err(Error::UnknownKeyword(word)) => assert_eq!(word, "banana"),
        other => panic!("expected an unknown-keyword error, got {:?}", other),
    }
    assert!(Type::from_str("").is_err());
    assert!(Type::from_str("&&").is_err());
    assert!(Type::from_str("||").is_err());
    assert!(Type::from_str("And").is_err());
    assert!(Type::from_str("whileloop").is_err());
}
