use vstd::prelude::*;

verus! {

/// The lexical category of a token, without any payload.
#[derive(Debug, Clone, Copy, PartialEq, Eq, Structural)]
pub enum TokenKind {
    Illegal,
    Eof,
    Ident,
    Int,
    Comma,
    Semicolon,
    LParen,
    RParen,
    LBrace,
    RBrace,
    Function,
    Let,
    True,
    False,
    If,
    Else,
    Return,
    Eq,
    NotEq,
    Assign,
    Plus,
    Minus,
    Bang,
    Asterisk,
    Slash,
    Lt,
    Lte,
    Gt,
    Gte,
}

impl TokenKind {
    /// The name of the category, as diagnostics print it.
    pub open spec fn spec_name(self) -> Seq<char> {
        match self {
            TokenKind::Illegal => "Illegal"@,
            TokenKind::Eof => "Eof"@,
            TokenKind::Ident => "Ident"@,
            TokenKind::Int => "Int"@,
            TokenKind::Comma => "Comma"@,
            TokenKind::Semicolon => "Semicolon"@,
            TokenKind::LParen => "LParen"@,
            TokenKind::RParen => "RParen"@,
            TokenKind::LBrace => "LBrace"@,
            TokenKind::RBrace => "RBrace"@,
            TokenKind::Function => "Function"@,
            TokenKind::Let => "Let"@,
            TokenKind::True => "True"@,
            TokenKind::False => "False"@,
            TokenKind::If => "If"@,
            TokenKind::Else => "Else"@,
            TokenKind::Return => "Return"@,
            TokenKind::Eq => "Eq"@,
            TokenKind::NotEq => "NotEq"@,
            TokenKind::Assign => "Assign"@,
            TokenKind::Plus => "Plus"@,
            TokenKind::Minus => "Minus"@,
            TokenKind::Bang => "Bang"@,
            TokenKind::Asterisk => "Asterisk"@,
            TokenKind::Slash => "Slash"@,
            TokenKind::Lt => "Lt"@,
            TokenKind::Lte => "Lte"@,
            TokenKind::Gt => "Gt"@,
            TokenKind::Gte => "Gte"@,
        }
    }

    pub fn name(self) -> (r: &'static str)
        ensures
            r@ == self.spec_name(),
    {
        match self {
            TokenKind::Illegal => "Illegal",
            TokenKind::Eof => "Eof",
            TokenKind::Ident => "Ident",
            TokenKind::Int => "Int",
            TokenKind::Comma => "Comma",
            TokenKind::Semicolon => "Semicolon",
            TokenKind::LParen => "LParen",
            TokenKind::RParen => "RParen",
            TokenKind::LBrace => "LBrace",
            TokenKind::RBrace => "RBrace",
            TokenKind::Function => "Function",
            TokenKind::Let => "Let",
            TokenKind::True => "True",
            TokenKind::False => "False",
            TokenKind::If => "If",
            TokenKind::Else => "Else",
            TokenKind::Return => "Return",
            TokenKind::Eq => "Eq",
            TokenKind::NotEq => "NotEq",
            TokenKind::Assign => "Assign",
            TokenKind::Plus => "Plus",
            TokenKind::Minus => "Minus",
            TokenKind::Bang => "Bang",
            TokenKind::Asterisk => "Asterisk",
            TokenKind::Slash => "Slash",
            TokenKind::Lt => "Lt",
            TokenKind::Lte => "Lte",
            TokenKind::Gt => "Gt",
            TokenKind::Gte => "Gte",
        }
    }
}

/// The category of a token; identifiers and integer literals carry their text.
#[derive(Debug)]
pub enum TokenType {
    Illegal,
    Eof,
    Ident(String),
    Int(String),
    Comma,
    Semicolon,
    LParen,
    RParen,
    LBrace,
    RBrace,
    Function,
    Let,
    True,
    False,
    If,
    Else,
    Return,
    Eq,
    NotEq,
    Assign,
    Plus,
    Minus,
    Bang,
    Asterisk,
    Slash,
    Lt,
    Lte,
    Gt,
    Gte,
}

/// What a token is, mathematically: its category and the exact text it was read from.
pub struct TokenView {
    pub kind: TokenKind,
    pub literal: Seq<char>,
}

/// A token as the lexer produces it.
#[derive(Debug)]
pub struct Token {
    pub token_type: TokenType,
    pub literal: String,
}

impl TokenType {
    pub open spec fn spec_kind(&self) -> TokenKind {
        match self {
            TokenType::Illegal => TokenKind::Illegal,
            TokenType::Eof => TokenKind::Eof,
            TokenType::Ident(_) => TokenKind::Ident,
            TokenType::Int(_) => TokenKind::Int,
            TokenType::Comma => TokenKind::Comma,
            TokenType::Semicolon => TokenKind::Semicolon,
            TokenType::LParen => TokenKind::LParen,
            TokenType::RParen => TokenKind::RParen,
            TokenType::LBrace => TokenKind::LBrace,
            TokenType::RBrace => TokenKind::RBrace,
            TokenType::Function => TokenKind::Function,
            TokenType::Let => TokenKind::Let,
            TokenType::True => TokenKind::True,
            TokenType::False => TokenKind::False,
            TokenType::If => TokenKind::If,
            TokenType::Else => TokenKind::Else,
            TokenType::Return => TokenKind::Return,
            TokenType::Eq => TokenKind::Eq,
            TokenType::NotEq => TokenKind::NotEq,
            TokenType::Assign => TokenKind::Assign,
            TokenType::Plus => TokenKind::Plus,
            TokenType::Minus => TokenKind::Minus,
            TokenType::Bang => TokenKind::Bang,
            TokenType::Asterisk => TokenKind::Asterisk,
            TokenType::Slash => TokenKind::Slash,
            TokenType::Lt => TokenKind::Lt,
            TokenType::Lte => TokenKind::Lte,
            TokenType::Gt => TokenKind::Gt,
            TokenType::Gte => TokenKind::Gte,
        }
    }

    /// The text carried by an identifier or integer literal; empty for every other category.
    pub open spec fn payload(&self) -> Seq<char> {
        match self {
            TokenType::Ident(s) => s@,
            TokenType::Int(s) => s@,
            _ => Seq::empty(),
        }
    }

    /// The category of this token type, with the payload dropped.
    #[verifier::when_used_as_spec(spec_kind)]
    pub fn kind(&self) -> (r: TokenKind)
        ensures
            r == self.spec_kind(),
    {
        match self {
            TokenType::Illegal => TokenKind::Illegal,
            TokenType::Eof => TokenKind::Eof,
            TokenType::Ident(_) => TokenKind::Ident,
            TokenType::Int(_) => TokenKind::Int,
            TokenType::Comma => TokenKind::Comma,
            TokenType::Semicolon => TokenKind::Semicolon,
            TokenType::LParen => TokenKind::LParen,
            TokenType::RParen => TokenKind::RParen,
            TokenType::LBrace => TokenKind::LBrace,
            TokenType::RBrace => TokenKind::RBrace,
            TokenType::Function => TokenKind::Function,
            TokenType::Let => TokenKind::Let,
            TokenType::True => TokenKind::True,
            TokenType::False => TokenKind::False,
            TokenType::If => TokenKind::If,
            TokenType::Else => TokenKind::Else,
            TokenType::Return => TokenKind::Return,
            TokenType::Eq => TokenKind::Eq,
            TokenType::NotEq => TokenKind::NotEq,
            TokenType::Assign => TokenKind::Assign,
            TokenType::Plus => TokenKind::Plus,
            TokenType::Minus => TokenKind::Minus,
            TokenType::Bang => TokenKind::Bang,
            TokenType::Asterisk => TokenKind::Asterisk,
            TokenType::Slash => TokenKind::Slash,
            TokenType::Lt => TokenKind::Lt,
            TokenType::Lte => TokenKind::Lte,
            TokenType::Gt => TokenKind::Gt,
            TokenType::Gte => TokenKind::Gte,
        }
    }

    /// Matching by category: an expected identifier or integer literal matches one of
    /// that category whatever its text; any other category matches itself.
    pub fn is_kind(&self, expected: TokenKind) -> (r: bool)
        ensures
            r == (self.spec_kind() == expected),
    {
        self.kind() == expected
    }
}

impl PartialEq for TokenType {
    fn eq(&self, other: &TokenType) -> (r: bool) {
        match self {
            TokenType::Ident(a) => match other {
                TokenType::Ident(b) => a.eq(b),
                _ => false,
            },
            TokenType::Int(a) => match other {
                TokenType::Int(b) => a.eq(b),
                _ => false,
            },
            _ => self.kind() == other.kind(),
        }
    }
}

impl vstd::std_specs::cmp::PartialEqSpecImpl for TokenType {
    open spec fn obeys_eq_spec() -> bool {
        true
    }

    open spec fn eq_spec(&self, other: &TokenType) -> bool {
        self.spec_kind() == other.spec_kind() && self.payload() == other.payload()
    }
}

impl Clone for TokenType {
    fn clone(&self) -> (r: TokenType)
        ensures
            r.spec_kind() == self.spec_kind(),
            r.payload() == self.payload(),
    {
        match self {
            TokenType::Ident(s) => TokenType::Ident(s.clone()),
            TokenType::Int(s) => TokenType::Int(s.clone()),
            TokenType::Illegal => TokenType::Illegal,
            TokenType::Eof => TokenType::Eof,
            TokenType::Comma => TokenType::Comma,
            TokenType::Semicolon => TokenType::Semicolon,
            TokenType::LParen => TokenType::LParen,
            TokenType::RParen => TokenType::RParen,
            TokenType::LBrace => TokenType::LBrace,
            TokenType::RBrace => TokenType::RBrace,
            TokenType::Function => TokenType::Function,
            TokenType::Let => TokenType::Let,
            TokenType::True => TokenType::True,
            TokenType::False => TokenType::False,
            TokenType::If => TokenType::If,
            TokenType::Else => TokenType::Else,
            TokenType::Return => TokenType::Return,
            TokenType::Eq => TokenType::Eq,
            TokenType::NotEq => TokenType::NotEq,
            TokenType::Assign => TokenType::Assign,
            TokenType::Plus => TokenType::Plus,
            TokenType::Minus => TokenType::Minus,
            TokenType::Bang => TokenType::Bang,
            TokenType::Asterisk => TokenType::Asterisk,
            TokenType::Slash => TokenType::Slash,
            TokenType::Lt => TokenType::Lt,
            TokenType::Lte => TokenType::Lte,
            TokenType::Gt => TokenType::Gt,
            TokenType::Gte => TokenType::Gte,
        }
    }
}

impl View for Token {
    type V = TokenView;

    open spec fn view(&self) -> TokenView {
        TokenView { kind: self.token_type.spec_kind(), literal: self.literal@ }
    }
}

impl Token {
    /// An identifier or integer literal carries exactly its literal text; every other
    /// category carries nothing.
    pub open spec fn wf(&self) -> bool {
        self.token_type.payload() == if self.token_type.spec_kind() == TokenKind::Ident
            || self.token_type.spec_kind() == TokenKind::Int {
            self.literal@
        } else {
            Seq::empty()
        }
    }

    pub fn new(token_type: TokenType, literal: String) -> (r: Token)
        ensures
            r.token_type == token_type,
            r.literal == literal,
    {
        Token { token_type, literal }
    }

    /// The category of a run of letters: the keyword it spells, or an identifier
    /// carrying the run itself.
    pub fn lookup_ident(literal: &str) -> (r: TokenType)
        ensures
            r.spec_kind() == word_kind(literal@),
            r.payload() == if word_kind(literal@) == TokenKind::Ident {
                literal@
            } else {
                Seq::empty()
            },
    {
        proof {
            reveal_strlit("fn");
            reveal_strlit("let");
            reveal_strlit("true");
            reveal_strlit("false");
            reveal_strlit("if");
            reveal_strlit("else");
            reveal_strlit("return");
            assert("fn"@ =~= seq!['f', 'n']);
            assert("let"@ =~= seq!['l', 'e', 't']);
            assert("true"@ =~= seq!['t', 'r', 'u', 'e']);
            assert("false"@ =~= seq!['f', 'a', 'l', 's', 'e']);
            assert("if"@ =~= seq!['i', 'f']);
            assert("else"@ =~= seq!['e', 'l', 's', 'e']);
            assert("return"@ =~= seq!['r', 'e', 't', 'u', 'r', 'n']);
        }
        if equals_word(literal, "fn") {
            TokenType::Function
        } else if equals_word(literal, "let") {
            TokenType::Let
        } else if equals_word(literal, "true") {
            TokenType::True
        } else if equals_word(literal, "false") {
            TokenType::False
        } else if equals_word(literal, "if") {
            TokenType::If
        } else if equals_word(literal, "else") {
            TokenType::Else
        } else if equals_word(literal, "return") {
            TokenType::Return
        } else {
            TokenType::Ident(String::from_str(literal))
        }
    }
}

impl Clone for Token {
    fn clone(&self) -> (r: Token)
        ensures
            r@ == self@,
            r.token_type.payload() == self.token_type.payload(),
    {
        Token { token_type: self.token_type.clone(), literal: self.literal.clone() }
    }
}

/// The reserved word that a run of letters spells, if any.
pub open spec fn keyword(w: Seq<char>) -> Option<TokenKind> {
    if w == seq!['f', 'n'] {
        Some(TokenKind::Function)
    } else if w == seq!['l', 'e', 't'] {
        Some(TokenKind::Let)
    } else if w == seq!['t', 'r', 'u', 'e'] {
        Some(TokenKind::True)
    } else if w == seq!['f', 'a', 'l', 's', 'e'] {
        Some(TokenKind::False)
    } else if w == seq!['i', 'f'] {
        Some(TokenKind::If)
    } else if w == seq!['e', 'l', 's', 'e'] {
        Some(TokenKind::Else)
    } else if w == seq!['r', 'e', 't', 'u', 'r', 'n'] {
        Some(TokenKind::Return)
    } else {
        None
    }
}

/// The category of a run of letters: its keyword, else an identifier.
pub open spec fn word_kind(w: Seq<char>) -> TokenKind {
    match keyword(w) {
        Some(k) => k,
        None => TokenKind::Ident,
    }
}

/// Character-by-character comparison of two strings.
fn equals_word(s: &str, w: &str) -> (r: bool)
    ensures
        r == (s@ == w@),
{
    let n = s.unicode_len();
    if n != w.unicode_len() {
        return false;
    }
    let mut i: usize = 0;
    while i < n
        invariant
            n == s@.len(),
            n == w@.len(),
            i <= n,
            s@.subrange(0, i as int) == w@.subrange(0, i as int),
        decreases n - i,
    {
        if s.get_char(i) != w.get_char(i) {
            return false;
        }
        assert(s@.subrange(0, i + 1) == s@.subrange(0, i as int).push(s@[i as int]));
        assert(w@.subrange(0, i + 1) == w@.subrange(0, i as int).push(w@[i as int]));
        i = i + 1;
    }
    assert(s@ == s@.subrange(0, n as int));
    assert(w@ == w@.subrange(0, n as int));
    true
}

} // verus!
