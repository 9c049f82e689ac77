//! Tokens, and the rule that tells a literal from an identifier.

use crate::literal::{integer_of, is_float, is_float_text, parse_integer};
use crate::location::{Location, Place};
use crate::text::{chars_of, string_of};
use crate::value::{ceiling, LispType, Value};
use vstd::prelude::*;
use vstd::std_specs::convert::FromSpecImpl;

verus! {

/// What a token is.
#[derive(Debug)]
pub enum TokenType {
    OpenParens,
    CloseParens,
    /// A literal, with its value.
    Recognizable(LispType),
    /// Any other text.
    Ident(String),
}

/// A token and the place where it was found.
#[derive(Debug)]
pub struct Token {
    pub loc: Location,
    pub dat: TokenType,
}

/// What a `TokenType` stands for.
pub enum TokenKind {
    OpenParens,
    CloseParens,
    Recognizable(Value),
    Ident(Seq<char>),
}

/// What a `Token` stands for.
pub struct TokenView {
    pub loc: Place,
    pub dat: TokenKind,
}

impl View for TokenType {
    type V = TokenKind;

    open spec fn view(&self) -> TokenKind {
        match self {
            TokenType::OpenParens => TokenKind::OpenParens,
            TokenType::CloseParens => TokenKind::CloseParens,
            TokenType::Recognizable(v) => TokenKind::Recognizable(v@),
            TokenType::Ident(s) => TokenKind::Ident(s@),
        }
    }
}

impl View for Token {
    type V = TokenView;

    open spec fn view(&self) -> TokenView {
        TokenView { loc: self.loc@, dat: self.dat@ }
    }
}

/// The characters of the word `nil`.
pub open spec fn nil_word() -> Seq<char> {
    seq!['n', 'i', 'l']
}

/// Whether `s` is text between two double quotes.
pub open spec fn is_quoted(s: Seq<char>) -> bool {
    s.len() >= 2 && s[0] == '"' && s.last() == '"'
}

/// What the text `s` of a token is. The first rule that applies decides: an
/// integer, a floating-point literal, a quoted string (held without its
/// quotes), the word `nil`; any other text is an identifier.
pub open spec fn classify(s: Seq<char>) -> TokenKind {
    if let Some(i) = integer_of(s) {
        TokenKind::Recognizable(Value::Integer(i as int))
    } else if is_float_text(s) {
        TokenKind::Recognizable(Value::Floating(s))
    } else if is_quoted(s) {
        TokenKind::Recognizable(Value::Str(s.subrange(1, s.len() - 1)))
    } else if s == nil_word() {
        TokenKind::Recognizable(Value::Nil)
    } else {
        TokenKind::Ident(s)
    }
}

/// Whether each literal among the tokens holds a value that a literal writes.
pub open spec fn literals_only(ts: Seq<TokenView>) -> bool {
    forall|i: int|
        0 <= i < ts.len() ==> ((#[trigger] ts[i]).dat matches TokenKind::Recognizable(v)
            ==> v.is_literal())
}


/// Whether each literal among the tokens holds a value that may be
/// duplicated and that refers to the first `n` cells only.
pub open spec fn literals_fit(ts: Seq<TokenView>, n: nat) -> bool {
    forall|i: int|
        0 <= i < ts.len() ==> ((#[trigger] ts[i]).dat matches TokenKind::Recognizable(v) ==> {
            &&& v.duplicable()
            &&& v matches Value::List(items) ==> ceiling(items) <= n
        })
}

/// Tokens whose literals hold what a literal writes fit any number of cells.
pub proof fn lemma_literals_fit(ts: Seq<TokenView>, n: nat)
    requires
        literals_only(ts),
    ensures
        literals_fit(ts, n),
{
    assert forall|i: int| 0 <= i < ts.len() implies ((#[trigger] ts[i]).dat matches TokenKind::Recognizable(
        v,
    ) ==> {
        &&& v.duplicable()
        &&& v matches Value::List(items) ==> ceiling(items) <= n
    }) by {
        if let TokenKind::Recognizable(v) = ts[i].dat {
            assert(v.is_literal());
        }
    }
}

/// The token that the characters `v` make.
pub fn classify_chars(v: &Vec<char>) -> (t: TokenType)
    ensures
        t@ == classify(v@),
{
    let n = v.len();
    if let Some(i) = parse_integer(v) {
        TokenType::Recognizable(LispType::Integer(i))
    } else if is_float(v) {
        let s = string_of(v, 0, n);
        assert(v@.subrange(0, n as int) == v@);
        TokenType::Recognizable(LispType::Floating(s))
    } else if n >= 2 && v[0] == '"' && v[n - 1] == '"' {
        TokenType::Recognizable(LispType::Str(string_of(v, 1, n - 1)))
    } else if n == 3 && v[0] == 'n' && v[1] == 'i' && v[2] == 'l' {
        assert(v@ =~= nil_word());
        TokenType::Recognizable(LispType::Nil)
    } else {
        let s = string_of(v, 0, n);
        assert(v@.subrange(0, n as int) == v@);
        assert(v@ != nil_word()) by {
            if v@ == nil_word() {
                assert(nil_word()[0] == 'n' && nil_word()[1] == 'i' && nil_word()[2] == 'l');
            }
        }
        TokenType::Ident(s)
    }
}

impl<'a> FromSpecImpl<&'a str> for TokenType {
    open spec fn obeys_from_spec() -> bool {
        false
    }

    open spec fn from_spec(text: &'a str) -> TokenType {
        arbitrary()
    }
}

impl<'a> From<&'a str> for TokenType {
    /// The token that the text makes.
    fn from(text: &'a str) -> (t: TokenType)
        ensures
            t@ == classify(text@),
    {
        let v = chars_of(text);
        classify_chars(&v)
    }
}

} // verus!
