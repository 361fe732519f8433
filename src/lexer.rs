use vstd::prelude::*;

pub use crate::token::{Token, TokenKind, TokenType, TokenView};

use crate::token::{keyword, word_kind};

verus! {

pub open spec fn is_letter(c: char) -> bool {
    ('a' <= c && c <= 'z') || ('A' <= c && c <= 'Z')
}

pub open spec fn is_digit(c: char) -> bool {
    '0' <= c && c <= '9'
}

/// The characters that separate tokens.
pub open spec fn is_whitespace(c: char) -> bool {
    c == ' ' || c == '\t' || c == '\n' || c == '\r'
}

/// The character at `i`, or the NUL sentinel past either end of the input.
pub open spec fn char_at(input: Seq<char>, i: int) -> char {
    if 0 <= i < input.len() {
        input[i]
    } else {
        '\0'
    }
}

/// The first position at or after `p` that does not hold whitespace.
pub open spec fn skip_whitespace(input: Seq<char>, p: nat) -> nat
    decreases input.len() - p,
{
    if p < input.len() && is_whitespace(input[p as int]) {
        skip_whitespace(input, p + 1)
    } else {
        p
    }
}

/// The end of the maximal run of letters that starts at `p`.
pub open spec fn letter_run_end(input: Seq<char>, p: nat) -> nat
    decreases input.len() - p,
{
    if p < input.len() && is_letter(input[p as int]) {
        letter_run_end(input, p + 1)
    } else {
        p
    }
}

/// The end of the maximal run of decimal digits that starts at `p`.
pub open spec fn digit_run_end(input: Seq<char>, p: nat) -> nat
    decreases input.len() - p,
{
    if p < input.len() && is_digit(input[p as int]) {
        digit_run_end(input, p + 1)
    } else {
        p
    }
}

/// Characters that always form a token by themselves.
pub open spec fn single_kind(c: char) -> Option<TokenKind> {
    if c == ';' {
        Some(TokenKind::Semicolon)
    } else if c == '(' {
        Some(TokenKind::LParen)
    } else if c == ')' {
        Some(TokenKind::RParen)
    } else if c == '{' {
        Some(TokenKind::LBrace)
    } else if c == '}' {
        Some(TokenKind::RBrace)
    } else if c == ',' {
        Some(TokenKind::Comma)
    } else if c == '+' {
        Some(TokenKind::Plus)
    } else if c == '-' {
        Some(TokenKind::Minus)
    } else if c == '*' {
        Some(TokenKind::Asterisk)
    } else if c == '/' {
        Some(TokenKind::Slash)
    } else {
        None
    }
}

/// Operators that combine with a following `=`: the kind alone, and the kind of the pair.
pub open spec fn operator_kinds(c: char) -> Option<(TokenKind, TokenKind)> {
    if c == '=' {
        Some((TokenKind::Assign, TokenKind::Eq))
    } else if c == '!' {
        Some((TokenKind::Bang, TokenKind::NotEq))
    } else if c == '<' {
        Some((TokenKind::Lt, TokenKind::Lte))
    } else if c == '>' {
        Some((TokenKind::Gt, TokenKind::Gte))
    } else {
        None
    }
}

pub open spec fn token_view(kind: TokenKind, literal: Seq<char>) -> TokenView {
    TokenView { kind, literal }
}

/// The token that starts exactly at `p`, and the position just after it.
pub open spec fn scan(input: Seq<char>, p: nat) -> (TokenView, nat) {
    let c = char_at(input, p as int);
    if let Some((lone, paired)) = operator_kinds(c) {
        if char_at(input, p + 1int) == '=' {
            (token_view(paired, seq![c, '=']), p + 2)
        } else {
            (token_view(lone, seq![c]), p + 1)
        }
    } else if let Some(k) = single_kind(c) {
        (token_view(k, seq![c]), p + 1)
    } else if c == '\0' {
        (token_view(TokenKind::Eof, seq!['\0']), if p < input.len() { p + 1 } else { p })
    } else if is_letter(c) {
        let e = letter_run_end(input, p);
        let w = input.subrange(p as int, e as int);
        (token_view(word_kind(w), w), e)
    } else if is_digit(c) {
        let e = digit_run_end(input, p);
        (token_view(TokenKind::Int, input.subrange(p as int, e as int)), e)
    } else {
        (token_view(TokenKind::Illegal, seq![c]), p + 1)
    }
}

/// One step of the lexer from position `p`: skip whitespace, then read one token.
pub open spec fn lex_step(input: Seq<char>, p: nat) -> (TokenView, nat) {
    scan(input, skip_whitespace(input, p))
}

/// The tokens that a lexer at `p` produces before its first end-of-input token.
pub open spec fn tokens_from(input: Seq<char>, p: nat) -> Seq<TokenView>
    decreases input.len() - p,
    when p <= input.len()
{
    let (t, q) = lex_step(input, p);
    if t.kind == TokenKind::Eof {
        Seq::empty()
    } else {
        proof {
            lemma_step_bounds(input, p);
        }
        seq![t] + tokens_from(input, q)
    }
}

/// The position of a lexer that started at `p` after `n` calls of `next_token`.
pub open spec fn position_after(input: Seq<char>, p: nat, n: nat) -> nat
    decreases n,
{
    if n == 0 {
        p
    } else {
        lex_step(input, position_after(input, p, (n - 1) as nat)).1
    }
}

pub proof fn lemma_skip_whitespace_bounds(input: Seq<char>, p: nat)
    requires
        p <= input.len(),
    ensures
        p <= skip_whitespace(input, p) <= input.len(),
    decreases input.len() - p,
{
    if p < input.len() && is_whitespace(input[p as int]) {
        lemma_skip_whitespace_bounds(input, p + 1);
    }
}

pub proof fn lemma_letter_run_bounds(input: Seq<char>, p: nat)
    requires
        p <= input.len(),
    ensures
        p <= letter_run_end(input, p) <= input.len(),
    decreases input.len() - p,
{
    if p < input.len() && is_letter(input[p as int]) {
        lemma_letter_run_bounds(input, p + 1);
    }
}

pub proof fn lemma_digit_run_bounds(input: Seq<char>, p: nat)
    requires
        p <= input.len(),
    ensures
        p <= digit_run_end(input, p) <= input.len(),
    decreases input.len() - p,
{
    if p < input.len() && is_digit(input[p as int]) {
        lemma_digit_run_bounds(input, p + 1);
    }
}

/// A step never moves backwards nor past the end, and every token but the
/// end-of-input token consumes at least one character.
pub proof fn lemma_step_bounds(input: Seq<char>, p: nat)
    requires
        p <= input.len(),
    ensures
        p <= lex_step(input, p).1 <= input.len(),
        lex_step(input, p).0.kind != TokenKind::Eof ==> p < lex_step(input, p).1,
{
    let s = skip_whitespace(input, p);
    lemma_skip_whitespace_bounds(input, p);
    lemma_letter_run_bounds(input, s);
    lemma_digit_run_bounds(input, s);
    if s < input.len() {
        lemma_letter_run_bounds(input, s + 1);
        lemma_digit_run_bounds(input, s + 1);
    }
}

/// Scans source text into tokens, one call of `next_token` at a time.
#[derive(Debug)]
pub struct Lexer {
    input: String,
    length: usize,
    position: usize,
    ch: char,
}

impl Lexer {
    /// The text being scanned.
    pub closed spec fn source(&self) -> Seq<char> {
        self.input@
    }

    /// The position of the character under examination.
    pub closed spec fn pos(&self) -> nat {
        self.position as nat
    }

    pub closed spec fn wf(&self) -> bool {
        &&& self.length == self.input@.len()
        &&& self.position <= self.length
        &&& self.ch == char_at(self.input@, self.position as int)
    }

    pub proof fn lemma_wf(&self)
        requires
            self.wf(),
        ensures
            self.pos() <= self.source().len(),
    {
    }

    pub fn new(input: String) -> (r: Lexer)
        ensures
            r.wf(),
            r.source() == input@,
            r.pos() == 0,
    {
        let length = input.as_str().unicode_len();
        let mut lexer = Lexer { input, length, position: 0, ch: '\0' };
        lexer.ch = lexer.char_at(0);
        lexer
    }

    fn char_at(&self, i: usize) -> (r: char)
        requires
            self.length == self.input@.len(),
        ensures
            r == char_at(self.input@, i as int),
    {
        if i < self.length {
            self.input.as_str().get_char(i)
        } else {
            '\0'
        }
    }

    /// Moves to the next character; stays put at the end of the input.
    fn read_char(&mut self)
        requires
            old(self).wf(),
        ensures
            final(self).wf(),
            final(self).input == old(self).input,
            final(self).position == if old(self).position < old(self).length {
                old(self).position + 1
            } else {
                old(self).position as int
            },
    {
        if self.position < self.length {
            self.position = self.position + 1;
        }
        self.ch = self.char_at(self.position);
    }

    fn peek_char(&self) -> (r: char)
        requires
            self.wf(),
        ensures
            r == char_at(self.input@, self.position + 1int),
    {
        if self.position < self.length {
            self.char_at(self.position + 1)
        } else {
            '\0'
        }
    }

    /// The text between two positions.
    fn text(&self, from: usize, to: usize) -> (r: String)
        requires
            self.wf(),
            from <= to <= self.length,
        ensures
            r@ == self.input@.subrange(from as int, to as int),
    {
        String::from_str(self.input.as_str().substring_char(from, to))
    }

    fn skip_whitespace(&mut self)
        requires
            old(self).wf(),
        ensures
            final(self).wf(),
            final(self).input == old(self).input,
            final(self).position == skip_whitespace(old(self).input@, old(self).position as nat),
    {
        while self.ch == ' ' || self.ch == '\t' || self.ch == '\n' || self.ch == '\r'
            invariant
                self.wf(),
                self.input == old(self).input,
                skip_whitespace(self.input@, self.position as nat) == skip_whitespace(
                    old(self).input@,
                    old(self).position as nat,
                ),
            decreases self.length - self.position,
        {
            self.read_char();
        }
    }

    fn is_letter(&self) -> (r: bool)
        ensures
            r == is_letter(self.ch),
    {
        ('a' <= self.ch && self.ch <= 'z') || ('A' <= self.ch && self.ch <= 'Z')
    }

    fn is_digit(&self) -> (r: bool)
        ensures
            r == is_digit(self.ch),
    {
        '0' <= self.ch && self.ch <= '9'
    }

    /// Reads a maximal run of letters; the run's end becomes the current position.
    fn read_identifier(&mut self) -> (r: String)
        requires
            old(self).wf(),
        ensures
            final(self).wf(),
            final(self).input == old(self).input,
            final(self).position == letter_run_end(old(self).input@, old(self).position as nat),
            r@ == old(self).input@.subrange(old(self).position as int, final(self).position as int),
    {
        let start = self.position;
        while self.is_letter()
            invariant
                self.wf(),
                self.input == old(self).input,
                start == old(self).position,
                start <= self.position,
                letter_run_end(self.input@, self.position as nat) == letter_run_end(
                    self.input@,
                    start as nat,
                ),
            decreases self.length - self.position,
        {
            self.read_char();
        }
        self.text(start, self.position)
    }

    /// Reads a maximal run of digits; the run's end becomes the current position.
    fn read_number(&mut self) -> (r: String)
        requires
            old(self).wf(),
        ensures
            final(self).wf(),
            final(self).input == old(self).input,
            final(self).position == digit_run_end(old(self).input@, old(self).position as nat),
            r@ == old(self).input@.subrange(old(self).position as int, final(self).position as int),
    {
        let start = self.position;
        while self.is_digit()
            invariant
                self.wf(),
                self.input == old(self).input,
                start == old(self).position,
                start <= self.position,
                digit_run_end(self.input@, self.position as nat) == digit_run_end(
                    self.input@,
                    start as nat,
                ),
            decreases self.length - self.position,
        {
            self.read_char();
        }
        self.text(start, self.position)
    }

    /// A one-character token of the given type; moves past it.
    fn single(&mut self, token_type: TokenType) -> (r: Token)
        requires
            old(self).wf(),
            old(self).position < old(self).length,
        ensures
            final(self).wf(),
            final(self).input == old(self).input,
            final(self).position == old(self).position + 1,
            r.token_type == token_type,
            r.literal@ == seq![old(self).ch],
    {
        let start = self.position;
        self.read_char();
        let literal = self.text(start, start + 1);
        assert(literal@ =~= seq![old(self).ch]);
        Token::new(token_type, literal)
    }

    /// An operator that is `lone` by itself and `paired` when an `=` follows it.
    fn operator(&mut self, lone: TokenType, paired: TokenType) -> (r: Token)
        requires
            old(self).wf(),
            old(self).position < old(self).length,
        ensures
            final(self).wf(),
            final(self).input == old(self).input,
            char_at(old(self).input@, old(self).position + 1int) == '=' ==> {
                &&& final(self).position == old(self).position + 2
                &&& r.token_type == paired
                &&& r.literal@ == seq![old(self).ch, '=']
            },
            char_at(old(self).input@, old(self).position + 1int) != '=' ==> {
                &&& final(self).position == old(self).position + 1
                &&& r.token_type == lone
                &&& r.literal@ == seq![old(self).ch]
            },
    {
        if self.peek_char() == '=' {
            let start = self.position;
            self.read_char();
            self.read_char();
            let literal = self.text(start, start + 2);
            assert(literal@ =~= seq![old(self).ch, '=']);
            Token::new(paired, literal)
        } else {
            self.single(lone)
        }
    }

    /// Skips whitespace and reads the next token. At the end of the input, and on a NUL
    /// character, the token is the end-of-input token.
    pub fn next_token(&mut self) -> (r: Token)
        requires
            old(self).wf(),
        ensures
            final(self).wf(),
            final(self).source() == old(self).source(),
            r.wf(),
            (r@, final(self).pos()) == lex_step(old(self).source(), old(self).pos()),
    {
        self.skip_whitespace();
        match self.ch {
            '=' => self.operator(TokenType::Assign, TokenType::Eq),
            '!' => self.operator(TokenType::Bang, TokenType::NotEq),
            '<' => self.operator(TokenType::Lt, TokenType::Lte),
            '>' => self.operator(TokenType::Gt, TokenType::Gte),
            ';' => self.single(TokenType::Semicolon),
            '(' => self.single(TokenType::LParen),
            ')' => self.single(TokenType::RParen),
            '{' => self.single(TokenType::LBrace),
            '}' => self.single(TokenType::RBrace),
            ',' => self.single(TokenType::Comma),
            '+' => self.single(TokenType::Plus),
            '-' => self.single(TokenType::Minus),
            '*' => self.single(TokenType::Asterisk),
            '/' => self.single(TokenType::Slash),
            '\0' => {
                self.read_char();
                proof {
                    reveal_strlit("\0");
                    assert("\0"@ =~= seq!['\0']);
                }
                Token::new(TokenType::Eof, String::from_str("\0"))
            },
            _ => {
                if self.is_letter() {
                    let literal = self.read_identifier();
                    let token_type = Token::lookup_ident(literal.as_str());
                    Token::new(token_type, literal)
                } else if self.is_digit() {
                    let literal = self.read_number();
                    Token::new(TokenType::Int(literal.clone()), literal)
                } else {
                    self.single(TokenType::Illegal)
                }
            },
        }
    }
}

/// The views of a sequence of tokens.
pub open spec fn token_views(ts: Seq<Token>) -> Seq<TokenView> {
    ts.map_values(|t: Token| t@)
}

/// Reads every token of `input` that comes before the first end-of-input token.
pub fn tokenize(input: String) -> (r: Vec<Token>)
    ensures
        token_views(r@) == tokens_from(input@, 0),
        forall|i: int| 0 <= i < r.len() ==> (#[trigger] r[i]).wf(),
{
    let ghost source = input@;
    let mut lexer = Lexer::new(input);
    let mut tokens: Vec<Token> = Vec::new();
    loop
        invariant
            lexer.wf(),
            lexer.source() == source,
            source == input@,
            token_views(tokens@) + tokens_from(source, lexer.pos()) == tokens_from(
                source,
                0,
            ),
            forall|i: int| 0 <= i < tokens.len() ==> (#[trigger] tokens[i]).wf(),
        decreases source.len() - lexer.pos(),
    {
        proof {
            lexer.lemma_wf();
            lemma_step_bounds(source, lexer.pos());
        }
        let ghost before = lexer.pos();
        let token = lexer.next_token();
        if token.token_type.is_kind(TokenKind::Eof) {
            assert(tokens_from(source, before) == Seq::<TokenView>::empty());
            assert(token_views(tokens@) =~= tokens_from(source, 0));
            return tokens;
        }
        proof {
            let old_view = token_views(tokens@);
            assert(tokens_from(source, before) == seq![token@] + tokens_from(source, lexer.pos()));
            assert(old_view.push(token@) + tokens_from(source, lexer.pos()) =~= old_view + (seq![token@] + tokens_from(source, lexer.pos())));
        }
        tokens.push(token);
        assert(token_views(tokens@) =~= token_views(tokens@.drop_last()).push(tokens@.last()@));
    }
}

/// Where `=`, `!`, `<` or `>` starts a token, it combines with an `=` right after it into
/// one two-character token (`==`, `!=`, `<=`, `>=`); followed by anything else it is a
/// one-character token by itself.
pub proof fn lemma_operator_tokens(input: Seq<char>, p: nat)
    requires
        p < input.len(),
    ensures
        ({
            let c = input[p as int];
            let paired = char_at(input, p + 1int) == '=';
            let (t, q) = lex_step(input, p);
            &&& c == '=' && paired ==> t == token_view(TokenKind::Eq, seq!['=', '=']) && q == p + 2
            &&& c == '!' && paired ==> t == token_view(TokenKind::NotEq, seq!['!', '=']) && q == p + 2
            &&& c == '<' && paired ==> t == token_view(TokenKind::Lte, seq!['<', '=']) && q == p + 2
            &&& c == '>' && paired ==> t == token_view(TokenKind::Gte, seq!['>', '=']) && q == p + 2
            &&& c == '=' && !paired ==> t == token_view(TokenKind::Assign, seq!['=']) && q == p + 1
            &&& c == '!' && !paired ==> t == token_view(TokenKind::Bang, seq!['!']) && q == p + 1
            &&& c == '<' && !paired ==> t == token_view(TokenKind::Lt, seq!['<']) && q == p + 1
            &&& c == '>' && !paired ==> t == token_view(TokenKind::Gt, seq!['>']) && q == p + 1
        }),
{
}

proof fn lemma_letter_run_end(input: Seq<char>, p: nat, e: nat)
    requires
        p <= e <= input.len(),
        forall|i: int| p <= i < e ==> is_letter(#[trigger] input[i]),
        e == input.len() || !is_letter(input[e as int]),
    ensures
        letter_run_end(input, p) == e,
    decreases e - p,
{
    if p < e {
        lemma_letter_run_end(input, p + 1, e);
    }
}

proof fn lemma_digit_run_end(input: Seq<char>, p: nat, e: nat)
    requires
        p <= e <= input.len(),
        forall|i: int| p <= i < e ==> is_digit(#[trigger] input[i]),
        e == input.len() || !is_digit(input[e as int]),
    ensures
        digit_run_end(input, p) == e,
    decreases e - p,
{
    if p < e {
        lemma_digit_run_end(input, p + 1, e);
    }
}

/// A maximal run of ASCII letters is read as exactly one token, ending where the run
/// ends: the keyword the run spells if it is a reserved word, else an identifier; its
/// text is the run itself.
pub proof fn lemma_letter_run(input: Seq<char>, p: nat, e: nat)
    requires
        p < e <= input.len(),
        forall|i: int| p <= i < e ==> is_letter(#[trigger] input[i]),
        e == input.len() || !is_letter(input[e as int]),
    ensures
        ({
            let w = input.subrange(p as int, e as int);
            let (t, q) = lex_step(input, p);
            &&& q == e
            &&& t.literal == w
            &&& keyword(w) is Some ==> t.kind == keyword(w)->0
            &&& keyword(w) is None ==> t.kind == TokenKind::Ident
        }),
{
    assert(is_letter(input[p as int]));
    lemma_letter_run_end(input, p, e);
}

/// A maximal run of decimal digits is read as exactly one integer-literal token whose
/// text is the run itself, ending where the run ends.
pub proof fn lemma_digit_run(input: Seq<char>, p: nat, e: nat)
    requires
        p < e <= input.len(),
        forall|i: int| p <= i < e ==> is_digit(#[trigger] input[i]),
        e == input.len() || !is_digit(input[e as int]),
    ensures
        lex_step(input, p) == (token_view(TokenKind::Int, input.subrange(p as int, e as int)), e),
{
    assert(is_digit(input[p as int]));
    lemma_digit_run_end(input, p, e);
}

/// Once the input is exhausted, every further call yields the end-of-input token and
/// leaves the lexer where it is.
pub proof fn lemma_end_of_input_repeats(input: Seq<char>, n: nat)
    ensures
        position_after(input, input.len(), n) == input.len(),
        lex_step(input, position_after(input, input.len(), n)) == (
            token_view(TokenKind::Eof, seq!['\0']),
            input.len(),
        ),
    decreases n,
{
    if n > 0 {
        lemma_end_of_input_repeats(input, (n - 1) as nat);
    }
}

/// In text without NUL characters the end-of-input token comes only at the end: the
/// lexer that returns it is exhausted.
pub proof fn lemma_end_of_input_only_at_end(input: Seq<char>, p: nat)
    requires
        p <= input.len(),
        forall|i: int| p <= i < input.len() ==> input[i] != '\0',
        lex_step(input, p).0.kind == TokenKind::Eof,
    ensures
        lex_step(input, p).1 == input.len(),
{
    lemma_skip_whitespace_bounds(input, p);
}

/// One call, then `n` more: the same as `n` calls from where the first call left off.
proof fn lemma_position_after_shift(input: Seq<char>, p: nat, n: nat)
    ensures
        position_after(input, p, n + 1) == position_after(input, lex_step(input, p).1, n),
    decreases n,
{
    let q = lex_step(input, p).1;
    if n > 0 {
        lemma_position_after_shift(input, p, (n - 1) as nat);
        assert(position_after(input, p, n + 1) == lex_step(input, position_after(input, p, n)).1);
        assert(position_after(input, q, n) == lex_step(
            input,
            position_after(input, q, (n - 1) as nat),
        ).1);
    } else {
        assert(position_after(input, p, 1) == lex_step(input, position_after(input, p, 0)).1);
    }
}

/// Draining a lexer that stands at `p`, calling `next_token` until the end-of-input token
/// comes, yields `tokens_from(input, p)` and then that token: call `i` reads the token at
/// `position_after(input, p, i)`.
pub proof fn lemma_drain(input: Seq<char>, p: nat)
    requires
        p <= input.len(),
    ensures
        forall|i: int|
            0 <= i < tokens_from(input, p).len() ==> {
                &&& #[trigger] tokens_from(input, p)[i] == lex_step(
                    input,
                    position_after(input, p, i as nat),
                ).0
                &&& tokens_from(input, p)[i].kind != TokenKind::Eof
            },
        lex_step(input, position_after(input, p, tokens_from(input, p).len())).0.kind
            == TokenKind::Eof,
    decreases input.len() - p,
{
    let (t, q) = lex_step(input, p);
    lemma_step_bounds(input, p);
    if t.kind != TokenKind::Eof {
        lemma_drain(input, q);
        let rest = tokens_from(input, q);
        let all = tokens_from(input, p);
        assert(all == seq![t] + rest);
        assert forall|i: int| 0 <= i < all.len() implies {
            &&& #[trigger] all[i] == lex_step(input, position_after(input, p, i as nat)).0
            &&& all[i].kind != TokenKind::Eof
        } by {
            if i > 0 {
                lemma_position_after_shift(input, p, (i - 1) as nat);
                assert(all[i] == rest[i - 1]);
            }
        }
        lemma_position_after_shift(input, p, rest.len());
    }
}

/// Two lexers over the same text that stand at the same position (two fresh lexers, for
/// one) read the same token on every call, and drained to the end they yield the same
/// tokens.
pub proof fn lemma_lexing_deterministic(a: Lexer, b: Lexer)
    requires
        a.wf(),
        b.wf(),
        a.source() == b.source(),
        a.pos() == b.pos(),
    ensures
        forall|n: nat|
            #[trigger] lex_step(a.source(), position_after(a.source(), a.pos(), n)) == lex_step(
                b.source(),
                position_after(b.source(), b.pos(), n),
            ),
        tokens_from(a.source(), a.pos()) == tokens_from(b.source(), b.pos()),
        forall|i: int|
            0 <= i < tokens_from(a.source(), a.pos()).len() ==> #[trigger] tokens_from(
                a.source(),
                a.pos(),
            )[i] == lex_step(b.source(), position_after(b.source(), b.pos(), i as nat)).0,
{
    a.lemma_wf();
    lemma_drain(b.source(), b.pos());
}

} // verus!
