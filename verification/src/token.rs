//! Tokens produced by the scanner, and keyword resolution.

use vstd::prelude::*;
use vstd::string::StrSliceExecFns;

verus! {

/// A classified unit of lexical meaning: a tag plus, for identifiers and
/// integer literals, the text of the lexeme.
#[derive(Debug)]
pub enum Token {
    /// An unrecognized character.  Scanning continues after it.
    Illegal,
    /// A name: a maximal run of alphabetic characters and underscores that
    /// is not a keyword.
    Identifier(String),
    /// A maximal run of ASCII digits, kept as its decimal digit string.
    IntegerLiteral(String),
    Assign,
    Plus,
    Minus,
    Bang,
    Asterisk,
    Slash,
    LessThan,
    GreaterThan,
    Equal,
    NotEqual,
    Comma,
    Semicolon,
    LParen,
    RParen,
    LBrace,
    RBrace,
    Function,
    Let,
}

/// The mathematical shape of a [`Token`]: the same tags, with text
/// payloads as character sequences.
pub enum TokenModel {
    Illegal,
    Identifier(Seq<char>),
    IntegerLiteral(Seq<char>),
    Assign,
    Plus,
    Minus,
    Bang,
    Asterisk,
    Slash,
    LessThan,
    GreaterThan,
    Equal,
    NotEqual,
    Comma,
    Semicolon,
    LParen,
    RParen,
    LBrace,
    RBrace,
    Function,
    Let,
}

impl View for Token {
    type V = TokenModel;

    open spec fn view(&self) -> TokenModel {
        match self {
            Token::Illegal => TokenModel::Illegal,
            Token::Identifier(text) => TokenModel::Identifier(text@),
            Token::IntegerLiteral(text) => TokenModel::IntegerLiteral(text@),
            Token::Assign => TokenModel::Assign,
            Token::Plus => TokenModel::Plus,
            Token::Minus => TokenModel::Minus,
            Token::Bang => TokenModel::Bang,
            Token::Asterisk => TokenModel::Asterisk,
            Token::Slash => TokenModel::Slash,
            Token::LessThan => TokenModel::LessThan,
            Token::GreaterThan => TokenModel::GreaterThan,
            Token::Equal => TokenModel::Equal,
            Token::NotEqual => TokenModel::NotEqual,
            Token::Comma => TokenModel::Comma,
            Token::Semicolon => TokenModel::Semicolon,
            Token::LParen => TokenModel::LParen,
            Token::RParen => TokenModel::RParen,
            Token::LBrace => TokenModel::LBrace,
            Token::RBrace => TokenModel::RBrace,
            Token::Function => TokenModel::Function,
            Token::Let => TokenModel::Let,
        }
    }
}

impl vstd::std_specs::cmp::PartialEqSpecImpl for Token {
    open spec fn obeys_eq_spec() -> bool {
        true
    }

    open spec fn eq_spec(&self, other: &Token) -> bool {
        self@ == other@
    }
}

impl PartialEq for Token {
    #[verifier::rlimit(50)]
    fn eq(&self, other: &Token) -> (r: bool) {
        match (self, other) {
            (Token::Illegal, Token::Illegal) => true,
            (Token::Identifier(a), Token::Identifier(b)) => *a == *b,
            (Token::IntegerLiteral(a), Token::IntegerLiteral(b)) => *a == *b,
            (Token::Assign, Token::Assign) => true,
            (Token::Plus, Token::Plus) => true,
            (Token::Minus, Token::Minus) => true,
            (Token::Bang, Token::Bang) => true,
            (Token::Asterisk, Token::Asterisk) => true,
            (Token::Slash, Token::Slash) => true,
            (Token::LessThan, Token::LessThan) => true,
            (Token::GreaterThan, Token::GreaterThan) => true,
            (Token::Equal, Token::Equal) => true,
            (Token::NotEqual, Token::NotEqual) => true,
            (Token::Comma, Token::Comma) => true,
            (Token::Semicolon, Token::Semicolon) => true,
            (Token::LParen, Token::LParen) => true,
            (Token::RParen, Token::RParen) => true,
            (Token::LBrace, Token::LBrace) => true,
            (Token::RBrace, Token::RBrace) => true,
            (Token::Function, Token::Function) => true,
            (Token::Let, Token::Let) => true,
            _ => false,
        }
    }
}

/// Resolves the text of an identifier lexeme: `"fn"` and `"let"` are
/// keywords, anything else is a generic identifier carrying its text.
pub open spec fn keyword_token(text: Seq<char>) -> TokenModel {
    if text == seq!['f', 'n'] {
        TokenModel::Function
    } else if text == seq!['l', 'e', 't'] {
        TokenModel::Let
    } else {
        TokenModel::Identifier(text)
    }
}

impl Token {
    /// Turns the text of a completed identifier lexeme into its token:
    /// a keyword tag for `"fn"` and `"let"`, a generic identifier otherwise.
    pub fn lookup_ident(ident: &str) -> (t: Token)
        ensures
            t@ == keyword_token(ident@),
    {
        let n = ident.unicode_len();
        if n == 2 && ident.get_char(0) == 'f' && ident.get_char(1) == 'n' {
            proof {
                assert(ident@ =~= seq!['f', 'n']);
            }
            Token::Function
        } else if n == 3 && ident.get_char(0) == 'l' && ident.get_char(1) == 'e' && ident.get_char(
            2,
        ) == 't' {
            proof {
                assert(ident@ =~= seq!['l', 'e', 't']);
            }
            Token::Let
        } else {
            proof {
                if ident@ == seq!['f', 'n'] {
                    assert(ident@.len() == 2 && ident@[0] == 'f' && ident@[1] == 'n');
                }
                if ident@ == seq!['l', 'e', 't'] {
                    assert(ident@.len() == 3 && ident@[0] == 'l' && ident@[1] == 'e' && ident@[2]
                        == 't');
                }
            }
            Token::Identifier(ident.to_owned())
        }
    }
}

} // verus!
