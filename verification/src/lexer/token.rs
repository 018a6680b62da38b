use vstd::prelude::*;

use super::Position;

verus! {

/// The tokens of the language, as the lexer hands them to the parser.
#[derive(Debug)]
pub enum Token {
    IntRawType(String),
    VoidRawType(String),
    StrRawType(String),
    Class_(Position, String),
    Self_(String),
    Function(Position),
    Return(Position),
    If(Position),
    Else(Position),
    Let(Position),
    While(Position),
    For(Position),
    New(Position),
    Not(Position),
    Constructor(Position),
    Inherits,
    Isnull,
    Public,
    Private,
    Then,
    Import,
    From,
    ASM,
    StringConst(String),
    IntConst(String),
    BoolConst(bool),
    TypeId(String),
    Identifier(String, Position),
    Assign(Position),
    Arrow,
    Plus,
    Minus,
    Divide,
    Mul,
    Equal,
    More,
    MoreE,
    Less,
    LessE,
    Lbrace,
    Rbrace,
    Lparen,
    Rparen,
    Semicolon,
    Period,
    Comma,
    Colon,
    Newline,
    Whitespace(String),
    Comment,
    BlockComment(String),
    Error(String),
}

/// A token with its text as plain characters.
pub ghost enum TokenM {
    IntRawType(Seq<char>),
    VoidRawType(Seq<char>),
    StrRawType(Seq<char>),
    Class_(Position, Seq<char>),
    Self_(Seq<char>),
    Function(Position),
    Return(Position),
    If(Position),
    Else(Position),
    Let(Position),
    While(Position),
    For(Position),
    New(Position),
    Not(Position),
    Constructor(Position),
    Inherits,
    Isnull,
    Public,
    Private,
    Then,
    Import,
    From,
    ASM,
    StringConst(Seq<char>),
    IntConst(Seq<char>),
    BoolConst(bool),
    TypeId(Seq<char>),
    Identifier(Seq<char>, Position),
    Assign(Position),
    Arrow,
    Plus,
    Minus,
    Divide,
    Mul,
    Equal,
    More,
    MoreE,
    Less,
    LessE,
    Lbrace,
    Rbrace,
    Lparen,
    Rparen,
    Semicolon,
    Period,
    Comma,
    Colon,
    Newline,
    Whitespace(Seq<char>),
    Comment,
    BlockComment(Seq<char>),
    Error(Seq<char>),
}

/// Whether a keyword, operator or punctuation token is written `text`;
/// false for the tokens whose text varies (names, literals, comments,
/// whitespace, errors).
pub open spec fn token_spells(t: TokenM, text: Seq<char>) -> bool {
    match t {
        TokenM::IntRawType(x) => x == text && text == seq!['i', 'n', 't'],
        TokenM::VoidRawType(x) => x == text && text == seq!['v', 'o', 'i', 'd'],
        TokenM::StrRawType(x) => x == text && text == seq!['s', 't', 'r'],
        TokenM::Class_(_, _) => text == seq!['c', 'l', 'a', 's', 's'],
        TokenM::Self_(x) => x == text && text == seq!['s', 'e', 'l', 'f'],
        TokenM::Function(_) => text == seq!['f', 'u', 'n', 'c', 't', 'i', 'o', 'n'] || text == seq!['f', 'u', 'n']
            || text == seq!['f', 'n'],
        TokenM::Return(_) => text == seq!['r', 'e', 't', 'u', 'r', 'n'],
        TokenM::If(_) => text == seq!['i', 'f'],
        TokenM::Else(_) => text == seq!['e', 'l', 's', 'e'],
        TokenM::Let(_) => text == seq!['l', 'e', 't'],
        TokenM::While(_) => text == seq!['w', 'h', 'i', 'l', 'e'],
        TokenM::For(_) => text == seq!['f', 'o', 'r'],
        TokenM::New(_) => text == seq!['n', 'e', 'w'],
        TokenM::Not(_) => text == seq!['!'],
        TokenM::Constructor(_) => text == seq!['c', 'o', 'n', 's', 't', 'r', 'u', 'c', 't', 'o', 'r'],
        TokenM::Inherits => text == seq!['i', 'n', 'h', 'e', 'r', 'i', 't', 's'],
        TokenM::Isnull => text == seq!['n', 'u', 'l', 'l'],
        TokenM::Public => text == seq!['p', 'u', 'b', 'l', 'i', 'c'],
        TokenM::Private => text == seq!['p', 'r', 'i', 'v', 'a', 't', 'e'],
        TokenM::Then => text == seq!['t', 'h', 'e', 'n'],
        TokenM::Import => text == seq!['i', 'm', 'p', 'o', 'r', 't'],
        TokenM::From => text == seq!['f', 'r', 'o', 'm'],
        TokenM::ASM => text == seq!['_', '_', 'a', 's', 'm', '_', '_'],
        TokenM::BoolConst(b) => if b {
            text == seq!['t', 'r', 'u', 'e']
        } else {
            text == seq!['f', 'a', 'l', 's', 'e']
        },
        TokenM::Assign(_) => text == seq!['='],
        TokenM::Arrow => text == seq!['-', '>'],
        TokenM::Plus => text == seq!['+'],
        TokenM::Minus => text == seq!['-'],
        TokenM::Mul => text == seq!['*'],
        TokenM::Divide => text == seq!['/'],
        TokenM::Equal => text == seq!['=', '='],
        TokenM::More => text == seq!['>'],
        TokenM::MoreE => text == seq!['=', '>'],
        TokenM::Less => text == seq!['<'],
        TokenM::LessE => text == seq!['<', '='],
        TokenM::Newline => text == seq!['\n'],
        TokenM::Lbrace => text == seq!['{'],
        TokenM::Rbrace => text == seq!['}'],
        TokenM::Lparen => text == seq!['('],
        TokenM::Rparen => text == seq![')'],
        TokenM::Semicolon => text == seq![';'],
        TokenM::Period => text == seq!['.'],
        TokenM::Comma => text == seq![','],
        TokenM::Colon => text == seq![':'],
        _ => false,
    }
}

pub open spec fn token_view(t: Token) -> TokenM {
    match t {
        Token::IntRawType(a0) => TokenM::IntRawType(a0@),
        Token::VoidRawType(a0) => TokenM::VoidRawType(a0@),
        Token::StrRawType(a0) => TokenM::StrRawType(a0@),
        Token::Class_(a0, a1) => TokenM::Class_(a0, a1@),
        Token::Self_(a0) => TokenM::Self_(a0@),
        Token::Function(a0) => TokenM::Function(a0),
        Token::Return(a0) => TokenM::Return(a0),
        Token::If(a0) => TokenM::If(a0),
        Token::Else(a0) => TokenM::Else(a0),
        Token::Let(a0) => TokenM::Let(a0),
        Token::While(a0) => TokenM::While(a0),
        Token::For(a0) => TokenM::For(a0),
        Token::New(a0) => TokenM::New(a0),
        Token::Not(a0) => TokenM::Not(a0),
        Token::Constructor(a0) => TokenM::Constructor(a0),
        Token::Inherits => TokenM::Inherits,
        Token::Isnull => TokenM::Isnull,
        Token::Public => TokenM::Public,
        Token::Private => TokenM::Private,
        Token::Then => TokenM::Then,
        Token::Import => TokenM::Import,
        Token::From => TokenM::From,
        Token::ASM => TokenM::ASM,
        Token::StringConst(a0) => TokenM::StringConst(a0@),
        Token::IntConst(a0) => TokenM::IntConst(a0@),
        Token::BoolConst(a0) => TokenM::BoolConst(a0),
        Token::TypeId(a0) => TokenM::TypeId(a0@),
        Token::Identifier(a0, a1) => TokenM::Identifier(a0@, a1),
        Token::Assign(a0) => TokenM::Assign(a0),
        Token::Arrow => TokenM::Arrow,
        Token::Plus => TokenM::Plus,
        Token::Minus => TokenM::Minus,
        Token::Divide => TokenM::Divide,
        Token::Mul => TokenM::Mul,
        Token::Equal => TokenM::Equal,
        Token::More => TokenM::More,
        Token::MoreE => TokenM::MoreE,
        Token::Less => TokenM::Less,
        Token::LessE => TokenM::LessE,
        Token::Lbrace => TokenM::Lbrace,
        Token::Rbrace => TokenM::Rbrace,
        Token::Lparen => TokenM::Lparen,
        Token::Rparen => TokenM::Rparen,
        Token::Semicolon => TokenM::Semicolon,
        Token::Period => TokenM::Period,
        Token::Comma => TokenM::Comma,
        Token::Colon => TokenM::Colon,
        Token::Newline => TokenM::Newline,
        Token::Whitespace(a0) => TokenM::Whitespace(a0@),
        Token::Comment => TokenM::Comment,
        Token::BlockComment(a0) => TokenM::BlockComment(a0@),
        Token::Error(a0) => TokenM::Error(a0@),
    }
}

impl View for Token {
    type V = TokenM;

    open spec fn view(&self) -> TokenM {
        token_view(*self)
    }
}

impl Token {
    /// A copy of the token.
    pub fn clone_token(&self) -> (r: Token)
        ensures
            r@ == self@,
    {
        match self {
            Token::IntRawType(a0) => Token::IntRawType(a0.clone()),
            Token::VoidRawType(a0) => Token::VoidRawType(a0.clone()),
            Token::StrRawType(a0) => Token::StrRawType(a0.clone()),
            Token::Class_(a0, a1) => Token::Class_(*a0, a1.clone()),
            Token::Self_(a0) => Token::Self_(a0.clone()),
            Token::Function(a0) => Token::Function(*a0),
            Token::Return(a0) => Token::Return(*a0),
            Token::If(a0) => Token::If(*a0),
            Token::Else(a0) => Token::Else(*a0),
            Token::Let(a0) => Token::Let(*a0),
            Token::While(a0) => Token::While(*a0),
            Token::For(a0) => Token::For(*a0),
            Token::New(a0) => Token::New(*a0),
            Token::Not(a0) => Token::Not(*a0),
            Token::Constructor(a0) => Token::Constructor(*a0),
            Token::Inherits => Token::Inherits,
            Token::Isnull => Token::Isnull,
            Token::Public => Token::Public,
            Token::Private => Token::Private,
            Token::Then => Token::Then,
            Token::Import => Token::Import,
            Token::From => Token::From,
            Token::ASM => Token::ASM,
            Token::StringConst(a0) => Token::StringConst(a0.clone()),
            Token::IntConst(a0) => Token::IntConst(a0.clone()),
            Token::BoolConst(a0) => Token::BoolConst(*a0),
            Token::TypeId(a0) => Token::TypeId(a0.clone()),
            Token::Identifier(a0, a1) => Token::Identifier(a0.clone(), *a1),
            Token::Assign(a0) => Token::Assign(*a0),
            Token::Arrow => Token::Arrow,
            Token::Plus => Token::Plus,
            Token::Minus => Token::Minus,
            Token::Divide => Token::Divide,
            Token::Mul => Token::Mul,
            Token::Equal => Token::Equal,
            Token::More => Token::More,
            Token::MoreE => Token::MoreE,
            Token::Less => Token::Less,
            Token::LessE => Token::LessE,
            Token::Lbrace => Token::Lbrace,
            Token::Rbrace => Token::Rbrace,
            Token::Lparen => Token::Lparen,
            Token::Rparen => Token::Rparen,
            Token::Semicolon => Token::Semicolon,
            Token::Period => Token::Period,
            Token::Comma => Token::Comma,
            Token::Colon => Token::Colon,
            Token::Newline => Token::Newline,
            Token::Whitespace(a0) => Token::Whitespace(a0.clone()),
            Token::Comment => Token::Comment,
            Token::BlockComment(a0) => Token::BlockComment(a0.clone()),
            Token::Error(a0) => Token::Error(a0.clone()),
        }
    }
}

} // verus!
