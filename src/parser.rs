use vstd::prelude::*;

use crate::ast::{
    Expression, ExpressionStatement, ExpressionView, Identifier, IdentifierView,
    IntegralLiteral, LetStatement, Program, ReturnStatement, Statement, StatementView,
    optional_view, statement_views,
};
use crate::lexer::{Lexer, is_digit, lemma_digit_run, lemma_step_bounds, lex_step, token_view};
use crate::token::{Token, TokenKind, TokenView};

verus! {

/// Binding strength of operators, weakest first.
#[derive(Debug, Clone, Copy, PartialEq, Eq, Structural)]
pub enum Precedence {
    Lowest,
    Equals,
    LessGreater,
    Sum,
    Product,
    Prefix,
    Call,
}

impl Precedence {
    /// Position in the order lowest < equality < relational < additive < multiplicative
    /// < prefix < call.
    pub open spec fn spec_rank(self) -> nat {
        match self {
            Precedence::Lowest => 0,
            Precedence::Equals => 1,
            Precedence::LessGreater => 2,
            Precedence::Sum => 3,
            Precedence::Product => 4,
            Precedence::Prefix => 5,
            Precedence::Call => 6,
        }
    }

    pub fn rank(self) -> (r: u8)
        ensures
            r == self.spec_rank(),
    {
        match self {
            Precedence::Lowest => 0,
            Precedence::Equals => 1,
            Precedence::LessGreater => 2,
            Precedence::Sum => 3,
            Precedence::Product => 4,
            Precedence::Prefix => 5,
            Precedence::Call => 6,
        }
    }
}

/// How tightly an operator token binds when it stands between two operands.
pub open spec fn spec_precedence_of(kind: TokenKind) -> Precedence {
    if kind == TokenKind::Eq || kind == TokenKind::NotEq {
        Precedence::Equals
    } else if kind == TokenKind::Lt || kind == TokenKind::Gt || kind == TokenKind::Lte || kind
        == TokenKind::Gte {
        Precedence::LessGreater
    } else if kind == TokenKind::Plus || kind == TokenKind::Minus {
        Precedence::Sum
    } else if kind == TokenKind::Asterisk || kind == TokenKind::Slash {
        Precedence::Product
    } else if kind == TokenKind::LParen {
        Precedence::Call
    } else {
        Precedence::Lowest
    }
}

pub fn precedence_of(kind: TokenKind) -> (r: Precedence)
    ensures
        r == spec_precedence_of(kind),
{
    match kind {
        TokenKind::Eq | TokenKind::NotEq => Precedence::Equals,
        TokenKind::Lt | TokenKind::Gt | TokenKind::Lte | TokenKind::Gte => Precedence::LessGreater,
        TokenKind::Plus | TokenKind::Minus => Precedence::Sum,
        TokenKind::Asterisk | TokenKind::Slash => Precedence::Product,
        TokenKind::LParen => Precedence::Call,
        _ => Precedence::Lowest,
    }
}

/// A token after the current one was not of the kind the grammar asks for.
pub struct Diagnostic {
    /// The kind asked for.
    pub expected: TokenKind,
    /// The token found instead.
    pub actual: TokenView,
}

/// How a diagnostic prints a token type: the kind's name, followed for identifiers and
/// integer literals by the quoted text they carry, as in `Int("5")`.
pub open spec fn type_text(kind: TokenKind, payload: Seq<char>) -> Seq<char> {
    if kind == TokenKind::Ident || kind == TokenKind::Int {
        kind.spec_name() + "(\""@ + payload + "\")"@
    } else {
        kind.spec_name()
    }
}

/// The text of a diagnostic as the parser records it. The kind asked for prints with
/// empty text where it carries text, as in `Ident("")`.
pub open spec fn message(d: Diagnostic) -> Seq<char> {
    "expected next token to be "@ + type_text(d.expected, Seq::empty()) + ", got "@
        + type_text(d.actual.kind, d.actual.literal) + " instead"@
}

/// Appends the printed form of a token type.
fn append_type(out: &mut String, kind: TokenKind, payload: &str)
    ensures
        final(out)@ == old(out)@ + type_text(kind, payload@),
{
    out.append(kind.name());
    if kind == TokenKind::Ident || kind == TokenKind::Int {
        out.append("(\"");
        out.append(payload);
        out.append("\")");
    }
}

pub open spec fn messages(ds: Seq<Diagnostic>) -> Seq<Seq<char>> {
    ds.map_values(|d: Diagnostic| message(d))
}

/// The token that a lexer at `p` reads next.
pub open spec fn token_at(input: Seq<char>, p: nat) -> TokenView {
    lex_step(input, p).0
}

/// Where a lexer at `p` stands after reading one token.
pub open spec fn next_pos(input: Seq<char>, p: nat) -> nat {
    lex_step(input, p).1
}

/// Following the tokens from `p`, the first position whose token is `;` or the end of
/// the input.
pub open spec fn statement_end(input: Seq<char>, p: nat) -> nat
    decreases input.len() - p,
    when p <= input.len()
{
    let k = token_at(input, p).kind;
    if k == TokenKind::Semicolon || k == TokenKind::Eof {
        p
    } else {
        proof {
            lemma_step_bounds(input, p);
        }
        statement_end(input, next_pos(input, p))
    }
}

/// The value of a string of decimal digits.
pub open spec fn decimal_value(s: Seq<char>) -> int
    decreases s.len(),
{
    if s.len() == 0 {
        0
    } else {
        decimal_value(s.drop_last()) * 10 + (s.last() as u32 - '0' as u32)
    }
}

pub open spec fn all_digits(s: Seq<char>) -> bool {
    forall|i: int| 0 <= i < s.len() ==> is_digit(#[trigger] s[i])
}

/// The value of an integer literal: the number its digits spell, or zero where the text
/// is not a 64-bit signed integer.
pub open spec fn integer_value(s: Seq<char>) -> int {
    if s.len() > 0 && all_digits(s) && decimal_value(s) <= i64::MAX {
        decimal_value(s)
    } else {
        0
    }
}

proof fn lemma_decimal_value_nonnegative(s: Seq<char>)
    requires
        all_digits(s),
    ensures
        decimal_value(s) >= 0,
    decreases s.len(),
{
    if s.len() > 0 {
        assert(all_digits(s.drop_last()));
        lemma_decimal_value_nonnegative(s.drop_last());
    }
}

/// Over digits, a longer prefix never has a smaller value.
proof fn lemma_decimal_value_prefix(s: Seq<char>, j: int)
    requires
        all_digits(s),
        0 <= j <= s.len(),
    ensures
        decimal_value(s.subrange(0, j)) <= decimal_value(s),
    decreases s.len(),
{
    if j < s.len() {
        let t = s.drop_last();
        assert(all_digits(t));
        lemma_decimal_value_prefix(t, j);
        assert(t.subrange(0, j) =~= s.subrange(0, j));
        lemma_decimal_value_nonnegative(t);
    } else {
        assert(s.subrange(0, j) =~= s);
    }
}

/// The value of an integer literal's text; zero where it is not a 64-bit signed integer.
pub fn parse_integer(s: &str) -> (r: i64)
    ensures
        r == integer_value(s@),
{
    let n = s.unicode_len();
    if n == 0 {
        return 0;
    }
    let mut value: i64 = 0;
    let mut i: usize = 0;
    while i < n
        invariant
            n == s@.len(),
            i <= n,
            all_digits(s@.subrange(0, i as int)),
            value == decimal_value(s@.subrange(0, i as int)),
            value >= 0,
        decreases n - i,
    {
        let c = s.get_char(i);
        proof {
            assert(s@.subrange(0, i + 1).drop_last() =~= s@.subrange(0, i as int));
        }
        if !('0' <= c && c <= '9') {
            assert(!is_digit(s@[i as int]));
            return 0;
        }
        let digit = (c as u32 - '0' as u32) as i64;
        let scaled = match value.checked_mul(10) {
            Some(v) => v,
            None => {
                proof {
                    lemma_overflow(s@, i as int);
                }
                return 0;
            },
        };
        value = match scaled.checked_add(digit) {
            Some(v) => v,
            None => {
                proof {
                    lemma_overflow(s@, i as int);
                }
                return 0;
            },
        };
        i = i + 1;
    }
    assert(s@.subrange(0, i as int) =~= s@);
    value
}

/// Where the digits up to and including `i` already exceed the largest `i64`, the whole
/// text is no 64-bit signed integer.
proof fn lemma_overflow(s: Seq<char>, i: int)
    requires
        0 <= i < s.len(),
        all_digits(s.subrange(0, i)),
        decimal_value(s.subrange(0, i)) * 10 + (s[i] as u32 - '0' as u32) > i64::MAX,
    ensures
        integer_value(s) == 0,
{
    assert(s.subrange(0, i + 1).drop_last() =~= s.subrange(0, i));
    if all_digits(s) {
        lemma_decimal_value_prefix(s, i + 1);
    }
}

/// How an expression starts, by the kind of its first token.
#[derive(Debug, Clone, Copy, PartialEq, Eq, Structural)]
pub enum PrefixRule {
    Identifier,
    IntegralLiteral,
}

pub open spec fn spec_prefix_rule(kind: TokenKind) -> Option<PrefixRule> {
    if kind == TokenKind::Ident {
        Some(PrefixRule::Identifier)
    } else if kind == TokenKind::Int {
        Some(PrefixRule::IntegralLiteral)
    } else {
        None
    }
}

/// The rule for expressions that start with a token of `kind`, if there is one.
pub fn prefix_rule(kind: TokenKind) -> (r: Option<PrefixRule>)
    ensures
        r == spec_prefix_rule(kind),
{
    match kind {
        TokenKind::Ident => Some(PrefixRule::Identifier),
        TokenKind::Int => Some(PrefixRule::IntegralLiteral),
        _ => None,
    }
}

/// How an operator continues an expression whose left operand is already parsed.
#[derive(Debug, Clone, Copy, PartialEq, Eq, Structural)]
pub enum InfixRule {
    /// The operator, then a right operand parsed at the operator's precedence.
    Binary,
}

/// The rule for a token of `kind` standing after a complete operand, if there is one.
/// No token kind has an infix rule yet.
pub fn infix_rule(kind: TokenKind) -> (r: Option<InfixRule>)
    ensures
        r is None,
{
    None
}

/// The expression that starts with token `t`, if any can.
pub open spec fn prefix_expression(t: TokenView) -> Option<ExpressionView> {
    match spec_prefix_rule(t.kind) {
        Some(PrefixRule::Identifier) => Some(
            ExpressionView::Identifier(IdentifierView { token: t, value: t.literal }),
        ),
        Some(PrefixRule::IntegralLiteral) => Some(
            ExpressionView::IntegralLiteral { token: t, value: integer_value(t.literal) },
        ),
        None => None,
    }
}

/// One statement parsed from the token at `p`: the statement, if it was well formed,
/// the diagnostics recorded, and the position of the token it ends on.
pub open spec fn parse_statement_at(input: Seq<char>, p: nat) -> (
    Option<StatementView>,
    Seq<Diagnostic>,
    nat,
) {
    let t = token_at(input, p);
    if t.kind == TokenKind::Let {
        let p1 = next_pos(input, p);
        let name = token_at(input, p1);
        if name.kind != TokenKind::Ident {
            (
                None,
                seq![Diagnostic { expected: TokenKind::Ident, actual: name }],
                statement_end(input, p),
            )
        } else {
            let p2 = next_pos(input, p1);
            let assign = token_at(input, p2);
            if assign.kind != TokenKind::Assign {
                (
                    None,
                    seq![
                        Diagnostic {
                            expected: TokenKind::Assign,
                            actual: assign,
                        },
                    ],
                    statement_end(input, p),
                )
            } else {
                (
                    Some(
                        StatementView::Let {
                            token: t,
                            name: Some(IdentifierView { token: name, value: name.literal }),
                            value: None,
                        },
                    ),
                    Seq::empty(),
                    statement_end(input, p2),
                )
            }
        }
    } else if t.kind == TokenKind::Return {
        (
            Some(StatementView::Return { token: t, value: None }),
            Seq::empty(),
            statement_end(input, next_pos(input, p)),
        )
    } else {
        match prefix_expression(t) {
            Some(e) => {
                let p1 = next_pos(input, p);
                (
                    Some(StatementView::Expression { token: t, expression: Some(e) }),
                    Seq::empty(),
                    if token_at(input, p1).kind == TokenKind::Semicolon {
                        p1
                    } else {
                        p
                    },
                )
            },
            None => (None, Seq::empty(), p),
        }
    }
}

pub proof fn lemma_statement_end_bounds(input: Seq<char>, p: nat)
    requires
        p <= input.len(),
    ensures
        p <= statement_end(input, p) <= input.len(),
    decreases input.len() - p,
{
    let k = token_at(input, p).kind;
    if !(k == TokenKind::Semicolon || k == TokenKind::Eof) {
        lemma_step_bounds(input, p);
        lemma_statement_end_bounds(input, next_pos(input, p));
    }
}

/// A statement that starts on a token other than the end of the input leaves the
/// parser, once it has moved past the statement's last token, strictly further on.
pub proof fn lemma_statement_progress(input: Seq<char>, p: nat)
    requires
        p <= input.len(),
        token_at(input, p).kind != TokenKind::Eof,
    ensures
        p <= parse_statement_at(input, p).2 <= input.len(),
        p < next_pos(input, parse_statement_at(input, p).2) <= input.len(),
{
    let p1 = next_pos(input, p);
    lemma_step_bounds(input, p);
    lemma_step_bounds(input, p1);
    let p2 = next_pos(input, p1);
    lemma_step_bounds(input, p2);
    lemma_statement_end_bounds(input, p1);
    lemma_statement_end_bounds(input, p2);
    let q = parse_statement_at(input, p).2;
    lemma_step_bounds(input, q);
}

/// The statements parsed from the token at `p` to the end of the input, and the
/// diagnostics recorded on the way.
pub open spec fn parse_program_from(input: Seq<char>, p: nat) -> (
    Seq<StatementView>,
    Seq<Diagnostic>,
)
    decreases input.len() - p,
    when p <= input.len()
{
    if token_at(input, p).kind == TokenKind::Eof {
        (Seq::empty(), Seq::empty())
    } else {
        let (s, d, q) = parse_statement_at(input, p);
        proof {
            lemma_statement_progress(input, p);
        }
        let rest = parse_program_from(input, next_pos(input, q));
        (
            match s {
                Some(s) => seq![s] + rest.0,
                None => rest.0,
            },
            d + rest.1,
        )
    }
}

/// A maximal run of decimal digits is read as one integer-literal token carrying that
/// text, and the parser gives it the number the digits spell whenever that number fits
/// in 64 signed bits.
pub proof fn lemma_digit_run_value(input: Seq<char>, p: nat, e: nat)
    requires
        p < e <= input.len(),
        forall|i: int| p <= i < e ==> is_digit(#[trigger] input[i]),
        e == input.len() || !is_digit(input[e as int]),
    ensures
        ({
            let w = input.subrange(p as int, e as int);
            let t = token_at(input, p);
            &&& t == token_view(TokenKind::Int, w)
            &&& next_pos(input, p) == e
            &&& decimal_value(w) <= i64::MAX ==> prefix_expression(t) == Some(
                ExpressionView::IntegralLiteral { token: t, value: decimal_value(w) },
            )
        }),
{
    lemma_digit_run(input, p, e);
    let w = input.subrange(p as int, e as int);
    assert(all_digits(w));
}

/// Builds a syntax tree from the tokens of the lexer it owns, recording a diagnostic for
/// each expected token that is missing.
pub struct Parser {
    lexer: Lexer,
    errors: Vec<String>,
    current_token: Token,
    peek_token: Token,
    position: Ghost<nat>,
}

pub open spec fn optional_statement_view(s: Option<Statement>) -> Option<StatementView> {
    match s {
        Some(s) => Some(s@),
        None => None,
    }
}

impl Parser {
    /// The text being parsed.
    pub closed spec fn source(&self) -> Seq<char> {
        self.lexer.source()
    }

    /// Where the lexer stood before it read the current token.
    pub closed spec fn position(&self) -> nat {
        self.position@
    }

    /// The diagnostics recorded so far, oldest first.
    pub closed spec fn diagnostics(&self) -> Seq<Seq<char>> {
        self.errors@.map_values(|e: String| e@)
    }

    pub closed spec fn wf(&self) -> bool {
        let src = self.lexer.source();
        let p = self.position@;
        &&& self.lexer.wf()
        &&& p <= src.len()
        &&& self.current_token.wf()
        &&& self.peek_token.wf()
        &&& self.current_token@ == token_at(src, p)
        &&& self.peek_token@ == token_at(src, next_pos(src, p))
        &&& self.lexer.pos() == next_pos(src, next_pos(src, p))
    }

    pub proof fn lemma_wf(&self)
        requires
            self.wf(),
        ensures
            self.position() <= self.source().len(),
    {
    }

    /// A parser over the tokens that `lexer` has yet to read.
    pub fn new(lexer: Lexer) -> (r: Parser)
        requires
            lexer.wf(),
        ensures
            r.wf(),
            r.source() == lexer.source(),
            r.position() == lexer.pos(),
            r.diagnostics() == Seq::<Seq<char>>::empty(),
    {
        let ghost start = lexer.pos();
        let mut lexer = lexer;
        proof {
            lexer.lemma_wf();
            lemma_step_bounds(lexer.source(), start);
        }
        let current_token = lexer.next_token();
        proof {
            lexer.lemma_wf();
        }
        let peek_token = lexer.next_token();
        let r = Parser {
            lexer,
            errors: Vec::new(),
            current_token,
            peek_token,
            position: Ghost(start),
        };
        assert(r.diagnostics() =~= Seq::<Seq<char>>::empty());
        r
    }

    /// A copy of the diagnostics recorded so far.
    pub fn errors(&self) -> (r: Vec<String>)
        ensures
            r@.map_values(|e: String| e@) == self.diagnostics(),
    {
        let mut r: Vec<String> = Vec::new();
        let mut i: usize = 0;
        while i < self.errors.len()
            invariant
                i <= self.errors.len(),
                r.len() == i,
                forall|j: int| 0 <= j < i ==> (#[trigger] r@[j])@ == self.errors@[j]@,
            decreases self.errors.len() - i,
        {
            r.push(self.errors[i].clone());
            i = i + 1;
        }
        assert(r@.map_values(|e: String| e@) =~= self.diagnostics());
        r
    }

    /// Records that the next token was not of the kind `expected`.
    fn peek_error(&mut self, expected: TokenKind)
        requires
            old(self).wf(),
        ensures
            final(self).wf(),
            final(self).source() == old(self).source(),
            final(self).position() == old(self).position(),
            final(self).diagnostics() == old(self).diagnostics().push(
                message(
                    Diagnostic {
                        expected,
                        actual: old(self).peek_token@,
                    },
                ),
            ),
    {
        let mut msg = String::from_str("expected next token to be ");
        proof {
            reveal_strlit("");
            assert(""@ =~= Seq::<char>::empty());
        }
        append_type(&mut msg, expected, "");
        msg.append(", got ");
        append_type(
            &mut msg,
            self.peek_token.token_type.kind(),
            self.peek_token.literal.as_str(),
        );
        msg.append(" instead");
        self.errors.push(msg);
        assert(self.diagnostics() =~= old(self).diagnostics().push(
            message(Diagnostic { expected, actual: old(self).peek_token@ }),
        ));
    }

    /// Moves one token on: the lookahead becomes the current token.
    fn next_token(&mut self)
        requires
            old(self).wf(),
        ensures
            final(self).wf(),
            final(self).source() == old(self).source(),
            final(self).position() == next_pos(old(self).source(), old(self).position()),
            final(self).diagnostics() == old(self).diagnostics(),
    {
        proof {
            let src = self.lexer.source();
            lemma_step_bounds(src, self.position@);
            self.lexer.lemma_wf();
        }
        let token = self.lexer.next_token();
        std::mem::swap(&mut self.current_token, &mut self.peek_token);
        self.peek_token = token;
        self.position = Ghost(next_pos(self.lexer.source(), self.position@));
    }

    fn current_token_is(&self, kind: TokenKind) -> (r: bool)
        requires
            self.wf(),
        ensures
            r == (token_at(self.source(), self.position()).kind == kind),
    {
        self.current_token.token_type.is_kind(kind)
    }

    fn peek_token_is(&self, kind: TokenKind) -> (r: bool)
        requires
            self.wf(),
        ensures
            r == (token_at(self.source(), next_pos(self.source(), self.position())).kind == kind),
    {
        self.peek_token.token_type.is_kind(kind)
    }

    /// Moves on if the next token is of the kind `expected`; otherwise records a
    /// diagnostic and stays.
    fn expect_peek(&mut self, expected: TokenKind) -> (r: bool)
        requires
            old(self).wf(),
        ensures
            final(self).wf(),
            final(self).source() == old(self).source(),
            ({
                let src = old(self).source();
                let p = old(self).position();
                let actual = token_at(src, next_pos(src, p));
                &&& r == (actual.kind == expected)
                &&& r ==> final(self).position() == next_pos(src, p)
                &&& r ==> final(self).diagnostics() == old(self).diagnostics()
                &&& !r ==> final(self).position() == p
                &&& !r ==> final(self).diagnostics() == old(self).diagnostics().push(
                    message(Diagnostic { expected, actual }),
                )
            }),
    {
        if self.peek_token_is(expected) {
            self.next_token();
            true
        } else {
            self.peek_error(expected);
            false
        }
    }

    /// The identifier that the current token names.
    fn parse_identifier(&self) -> (r: Expression)
        requires
            self.wf(),
            self.current_token@.kind == TokenKind::Ident,
        ensures
            Some(r@) == prefix_expression(self.current_token@),
    {
        Expression::Identifier(
            Identifier {
                token: self.current_token.clone(),
                value: self.current_token.literal.clone(),
            },
        )
    }

    /// The integer literal that the current token spells.
    fn parse_integral_literal(&self) -> (r: Expression)
        requires
            self.wf(),
            self.current_token@.kind == TokenKind::Int,
        ensures
            Some(r@) == prefix_expression(self.current_token@),
    {
        let value = parse_integer(self.current_token.literal.as_str());
        Expression::IntegralLiteral(IntegralLiteral { token: self.current_token.clone(), value })
    }

    /// The expression that starts at the current token, or none where no expression can
    /// start there; the caller decides what a missing expression means. Infix operators
    /// fold into the expression while the next one binds tighter than `precedence`; no
    /// operator has an infix rule yet, so the expression is its prefix part.
    fn parse_expression(&self, precedence: Precedence) -> (r: Option<Expression>)
        requires
            self.wf(),
        ensures
            optional_view(r) == prefix_expression(self.current_token@),
    {
        let left = match prefix_rule(self.current_token.token_type.kind()) {
            Some(PrefixRule::Identifier) => Some(self.parse_identifier()),
            Some(PrefixRule::IntegralLiteral) => Some(self.parse_integral_literal()),
            None => None,
        };
        let next = self.peek_token.token_type.kind();
        if left.is_some() && next != TokenKind::Semicolon && precedence.rank() < precedence_of(
            next,
        ).rank() {
            match infix_rule(next) {
                Some(_) => {
                    proof {
                        assert(false);
                    }
                },
                None => {},
            }
        }
        left
    }

    /// Moves on until the current token is `;` or the end of the input.
    fn skip_to_statement_end(&mut self)
        requires
            old(self).wf(),
        ensures
            final(self).wf(),
            final(self).source() == old(self).source(),
            final(self).position() == statement_end(old(self).source(), old(self).position()),
            final(self).diagnostics() == old(self).diagnostics(),
    {
        while !self.current_token_is(TokenKind::Semicolon) && !self.current_token_is(TokenKind::Eof)
            invariant
                self.wf(),
                self.source() == old(self).source(),
                self.diagnostics() == old(self).diagnostics(),
                statement_end(self.source(), self.position()) == statement_end(
                    old(self).source(),
                    old(self).position(),
                ),
            decreases self.source().len() - self.position(),
        {
            proof {
                self.lemma_wf();
                lemma_step_bounds(self.source(), self.position());
            }
            self.next_token();
        }
    }

    /// `let <identifier> = ... ;`: the value's tokens are passed over up to the `;`. A
    /// malformed `let` records one diagnostic and is passed over up to its `;` too.
    fn parse_let_statement(&mut self) -> (r: Option<Statement>)
        requires
            old(self).wf(),
            old(self).current_token@.kind == TokenKind::Let,
        ensures
            final(self).wf(),
            final(self).source() == old(self).source(),
            ({
                let (s, d, q) = parse_statement_at(old(self).source(), old(self).position());
                &&& optional_statement_view(r) == s
                &&& final(self).diagnostics() == old(self).diagnostics() + messages(d)
                &&& final(self).position() == q
            }),
    {
        let ghost d0 = self.diagnostics();
        let token = self.current_token.clone();
        let ghost src = old(self).source();
        let ghost p = old(self).position();
        proof {
            self.lemma_wf();
            lemma_step_bounds(src, p);
            assert(statement_end(src, p) == statement_end(src, next_pos(src, p)));
        }
        if !self.expect_peek(TokenKind::Ident) {
            self.skip_to_statement_end();
            assert(self.diagnostics() =~= d0 + messages(parse_statement_at(src, p).1));
            return None;
        }
        let name = Identifier {
            token: self.current_token.clone(),
            value: self.current_token.literal.clone(),
        };
        if !self.expect_peek(TokenKind::Assign) {
            self.skip_to_statement_end();
            assert(self.diagnostics() =~= d0 + messages(parse_statement_at(src, p).1));
            return None;
        }
        self.skip_to_statement_end();
        assert(self.diagnostics() =~= d0 + messages(Seq::empty()));
        Some(Statement::Let(LetStatement { token, name: Some(name), value: None }))
    }

    /// `return ... ;`: the value's tokens are passed over up to the `;`.
    fn parse_return_statement(&mut self) -> (r: Option<Statement>)
        requires
            old(self).wf(),
            old(self).current_token@.kind == TokenKind::Return,
        ensures
            final(self).wf(),
            final(self).source() == old(self).source(),
            ({
                let (s, d, q) = parse_statement_at(old(self).source(), old(self).position());
                &&& optional_statement_view(r) == s
                &&& final(self).diagnostics() == old(self).diagnostics() + messages(d)
                &&& final(self).position() == q
            }),
    {
        let token = self.current_token.clone();
        self.next_token();
        self.skip_to_statement_end();
        assert(self.diagnostics() =~= old(self).diagnostics() + messages(Seq::empty()));
        Some(Statement::Return(ReturnStatement { token, return_value: None }))
    }

    /// An expression standing alone, with an optional `;` after it; none where no
    /// expression can start at the current token.
    fn parse_expression_statement(&mut self) -> (r: Option<Statement>)
        requires
            old(self).wf(),
            old(self).current_token@.kind != TokenKind::Let,
            old(self).current_token@.kind != TokenKind::Return,
        ensures
            final(self).wf(),
            final(self).source() == old(self).source(),
            ({
                let (s, d, q) = parse_statement_at(old(self).source(), old(self).position());
                &&& optional_statement_view(r) == s
                &&& final(self).diagnostics() == old(self).diagnostics() + messages(d)
                &&& final(self).position() == q
            }),
    {
        let token = self.current_token.clone();
        match self.parse_expression(Precedence::Lowest) {
            None => {
                assert(self.diagnostics() =~= old(self).diagnostics() + messages(Seq::empty()));
                None
            },
            Some(expression) => {
                if self.peek_token_is(TokenKind::Semicolon) {
                    self.next_token();
                }
                assert(self.diagnostics() =~= old(self).diagnostics() + messages(Seq::empty()));
                Some(
                    Statement::Expression(
                        ExpressionStatement { token, expression: Some(expression) },
                    ),
                )
            },
        }
    }

    /// One statement, chosen by its first token; the parser stays on its last token.
    fn parse_statement(&mut self) -> (r: Option<Statement>)
        requires
            old(self).wf(),
        ensures
            final(self).wf(),
            final(self).source() == old(self).source(),
            ({
                let (s, d, q) = parse_statement_at(old(self).source(), old(self).position());
                &&& optional_statement_view(r) == s
                &&& final(self).diagnostics() == old(self).diagnostics() + messages(d)
                &&& final(self).position() == q
            }),
    {
        match self.current_token.token_type.kind() {
            TokenKind::Let => self.parse_let_statement(),
            TokenKind::Return => self.parse_return_statement(),
            _ => self.parse_expression_statement(),
        }
    }

    /// Parses statements until the end of the input. Statements that cannot be parsed
    /// are left out of the program; each missing expected token is recorded once, in
    /// the order met.
    pub fn parse_program(&mut self) -> (r: Program)
        requires
            old(self).wf(),
        ensures
            final(self).wf(),
            final(self).source() == old(self).source(),
            ({
                let (statements, diagnostics) = parse_program_from(
                    old(self).source(),
                    old(self).position(),
                );
                &&& r@ == statements
                &&& final(self).diagnostics() == old(self).diagnostics() + messages(diagnostics)
                &&& token_at(final(self).source(), final(self).position()).kind == TokenKind::Eof
            }),
    {
        let mut program = Program { statements: Vec::new() };
        let ghost src = self.source();
        let ghost start = self.position();
        proof {
            self.lemma_wf();
        }
        while !self.current_token_is(TokenKind::Eof)
            invariant
                self.wf(),
                self.source() == src,
                start <= src.len(),
                program@ + parse_program_from(src, self.position()).0 == parse_program_from(
                    src,
                    start,
                ).0,
                self.diagnostics() + messages(parse_program_from(src, self.position()).1)
                    == old(self).diagnostics() + messages(parse_program_from(src, start).1),
            decreases src.len() - self.position(),
        {
            let ghost p = self.position();
            proof {
                self.lemma_wf();
                lemma_statement_progress(src, p);
            }
            let ghost d_before = self.diagnostics();
            let statement = self.parse_statement();
            let ghost (s, d, q) = parse_statement_at(src, p);
            let ghost rest = parse_program_from(src, next_pos(src, q));
            proof {
                assert(messages(d + rest.1) =~= messages(d) + messages(rest.1));
                assert(d_before + messages(d + rest.1) =~= (d_before + messages(d)) + messages(
                    rest.1,
                ));
            }
            match statement {
                Some(statement) => {
                    program.statements.push(statement);
                    proof {
                        assert(program@ =~= statement_views(program.statements@.drop_last()).push(
                            s->0,
                        ));
                        assert(program@ + rest.0 =~= statement_views(
                            program.statements@.drop_last(),
                        ) + (seq![s->0] + rest.0));
                    }
                },
                None => {},
            }
            self.next_token();
        }
        proof {
            self.lemma_wf();
            assert(program@ + Seq::<StatementView>::empty() =~= program@);
            assert(self.diagnostics() + messages(Seq::<Diagnostic>::empty()) =~= self.diagnostics());
        }
        program
    }
}

} // verus!
