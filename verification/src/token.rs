//! The token taxonomy the scanner produces and the compiler consumes.

use vstd::prelude::*;

verus! {

/// The `Type` enum: every kind of token the scanner can yield.
#[derive(Clone, Copy, Debug, PartialEq, Eq, Hash, Structural)]
pub enum Type {
    LeftParenthesis,
    RightParenthesis,
    LeftBrace,
    RightBrace,
    Comma,
    Dot,
    Minus,
    Plus,
    Semicolon,
    Slash,
    Star,
    Bang,
    BangEqual,
    Equal,
    EqualEqual,
    GreaterThan,
    GreaterThanOrEqual,
    LessThan,
    LessThanOrEqual,
    Identifier,
    String,
    Number,
    And,
    Class,
    Else,
    False,
    Function,
    For,
    If,
    Nil,
    Or,
    Print,
    Return,
    Super,
    This,
    True,
    Var,
    While,
    Eof,
    Error,
    EmptyString,
}

/// A lexical error: the text names no keyword.
#[derive(Clone, Debug, PartialEq)]
pub enum Error {
    UnknownKeyword(String),
}

/// Relies on `str`'s `PartialEq`: two string slices compare equal exactly
/// when their characters do.
pub assume_specification[ <str as PartialEq<str>>::eq ](a: &str, b: &str) -> (r: bool)
    ensures
        r == (a@ == b@),
;

/// The token kinds in their fixed order.
pub open spec fn all_kinds() -> Seq<Type> {
    seq![
        Type::LeftParenthesis,
        Type::RightParenthesis,
        Type::LeftBrace,
        Type::RightBrace,
        Type::Comma,
        Type::Dot,
        Type::Minus,
        Type::Plus,
        Type::Semicolon,
        Type::Slash,
        Type::Star,
        Type::Bang,
        Type::BangEqual,
        Type::Equal,
        Type::EqualEqual,
        Type::GreaterThan,
        Type::GreaterThanOrEqual,
        Type::LessThan,
        Type::LessThanOrEqual,
        Type::Identifier,
        Type::String,
        Type::Number,
        Type::And,
        Type::Class,
        Type::Else,
        Type::False,
        Type::Function,
        Type::For,
        Type::If,
        Type::Nil,
        Type::Or,
        Type::Print,
        Type::Return,
        Type::Super,
        Type::This,
        Type::True,
        Type::Var,
        Type::While,
        Type::Eof,
        Type::Error,
        Type::EmptyString,
    ]
}

/// Which token kind, if any, the keyword text `s` names.
pub open spec fn keyword_kind(s: Seq<char>) -> Option<Type> {
    if s == "and"@ {
        Some(Type::And)
    } else if s == "class"@ {
        Some(Type::Class)
    } else if s == "else"@ {
        Some(Type::Else)
    } else if s == "false"@ {
        Some(Type::False)
    } else if s == "fun"@ {
        Some(Type::Function)
    } else if s == "for"@ {
        Some(Type::For)
    } else if s == "if"@ {
        Some(Type::If)
    } else if s == "nil"@ {
        Some(Type::Nil)
    } else if s == "or"@ {
        Some(Type::Or)
    } else if s == "print"@ {
        Some(Type::Print)
    } else if s == "return"@ {
        Some(Type::Return)
    } else if s == "super"@ {
        Some(Type::Super)
    } else if s == "this"@ {
        Some(Type::This)
    } else if s == "true"@ {
        Some(Type::True)
    } else if s == "var"@ {
        Some(Type::Var)
    } else if s == "while"@ {
        Some(Type::While)
    } else {
        None
    }
}

impl Type {
    /// Every token kind, in the fixed order of the taxonomy.
    pub fn get_all() -> (r: Vec<Self>)
        ensures
            r@ == all_kinds(),
            r@.len() == 41,
    {
        let r = vec![
            Type::LeftParenthesis,
            Type::RightParenthesis,
            Type::LeftBrace,
            Type::RightBrace,
            Type::Comma,
            Type::Dot,
            Type::Minus,
            Type::Plus,
            Type::Semicolon,
            Type::Slash,
            Type::Star,
            Type::Bang,
            Type::BangEqual,
            Type::Equal,
            Type::EqualEqual,
            Type::GreaterThan,
            Type::GreaterThanOrEqual,
            Type::LessThan,
            Type::LessThanOrEqual,
            Type::Identifier,
            Type::String,
            Type::Number,
            Type::And,
            Type::Class,
            Type::Else,
            Type::False,
            Type::Function,
            Type::For,
            Type::If,
            Type::Nil,
            Type::Or,
            Type::Print,
            Type::Return,
            Type::Super,
            Type::This,
            Type::True,
            Type::Var,
            Type::While,
            Type::Eof,
            Type::Error,
            Type::EmptyString,
        ];
        proof {
            assert(r@ =~= all_kinds());
        }
        r
    }

    /// The keyword a piece of source text names, or an `UnknownKeyword`
    /// error carrying that text.
    pub fn from_str(string: &str) -> (r: Result<Self, Error>)
        ensures
            match r {
                Ok(t) => keyword_kind(string@) == Some(t),
                Err(e) => keyword_kind(string@) is None && e->UnknownKeyword_0@ == string@,
            },
    {
        if str::eq(string, "and") {
            Ok(Type::And)
        } else if str::eq(string, "class") {
            Ok(Type::Class)
        } else if str::eq(string, "else") {
            Ok(Type::Else)
        } else if str::eq(string, "false") {
            Ok(Type::False)
        } else if str::eq(string, "fun") {
            Ok(Type::Function)
        } else if str::eq(string, "for") {
            Ok(Type::For)
        } else if str::eq(string, "if") {
            Ok(Type::If)
        } else if str::eq(string, "nil") {
            Ok(Type::Nil)
        } else if str::eq(string, "or") {
            Ok(Type::Or)
        } else if str::eq(string, "print") {
            Ok(Type::Print)
        } else if str::eq(string, "return") {
            Ok(Type::Return)
        } else if str::eq(string, "super") {
            Ok(Type::Super)
        } else if str::eq(string, "this") {
            Ok(Type::This)
        } else if str::eq(string, "true") {
            Ok(Type::True)
        } else if str::eq(string, "var") {
            Ok(Type::Var)
        } else if str::eq(string, "while") {
            Ok(Type::While)
        } else {
            Err(Error::UnknownKeyword(String::from_str(string)))
        }
    }
}

} // verus!
