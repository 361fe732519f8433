use vstd::prelude::*;

use crate::token::{Token, TokenView};

verus! {

/// What every syntax-tree node offers: the literal text of the token it came from, and
/// a rendering of the node back into source-like text.
pub trait Node {
    /// The literal text of the node's originating token, if it has one.
    spec fn literal_text(&self) -> Option<Seq<char>>;

    /// The source-like rendering of the node.
    spec fn text(&self) -> Seq<char>;

    fn token_literal(&self) -> (r: Option<String>)
        ensures
            (r is Some) == (self.literal_text() is Some),
            r is Some ==> r->0@ == self.literal_text()->0;

    fn string(&self) -> (r: String)
        ensures
            r@ == self.text();
}

/// A name used as an expression or as the target of a `let`.
#[derive(Debug)]
pub struct Identifier {
    pub token: Token,
    pub value: String,
}

/// An integer literal with its value.
#[derive(Debug)]
pub struct IntegralLiteral {
    pub token: Token,
    pub value: i64,
}

#[derive(Debug)]
pub enum Expression {
    Identifier(Identifier),
    IntegralLiteral(IntegralLiteral),
}

/// `let <name> = <value>;`
#[derive(Debug)]
pub struct LetStatement {
    pub token: Token,
    pub name: Option<Identifier>,
    pub value: Option<Expression>,
}

/// `return <value>;`
#[derive(Debug)]
pub struct ReturnStatement {
    pub token: Token,
    pub return_value: Option<Expression>,
}

/// An expression standing as a statement of its own.
#[derive(Debug)]
pub struct ExpressionStatement {
    pub token: Token,
    pub expression: Option<Expression>,
}

#[derive(Debug)]
pub enum Statement {
    Let(LetStatement),
    Return(ReturnStatement),
    Expression(ExpressionStatement),
}

/// The root of the tree: the statements of the source, in order.
#[derive(Debug)]
pub struct Program {
    pub statements: Vec<Statement>,
}

pub struct IdentifierView {
    pub token: TokenView,
    pub value: Seq<char>,
}

pub enum ExpressionView {
    Identifier(IdentifierView),
    IntegralLiteral { token: TokenView, value: int },
}

pub enum StatementView {
    Let { token: TokenView, name: Option<IdentifierView>, value: Option<ExpressionView> },
    Return { token: TokenView, value: Option<ExpressionView> },
    Expression { token: TokenView, expression: Option<ExpressionView> },
}

impl ExpressionView {
    pub open spec fn token(self) -> TokenView {
        match self {
            ExpressionView::Identifier(id) => id.token,
            ExpressionView::IntegralLiteral { token, .. } => token,
        }
    }

    pub open spec fn text(self) -> Seq<char> {
        match self {
            ExpressionView::Identifier(id) => id.value,
            ExpressionView::IntegralLiteral { token, .. } => token.literal,
        }
    }
}

pub open spec fn optional_text(e: Option<ExpressionView>) -> Seq<char> {
    match e {
        Some(e) => e.text(),
        None => Seq::empty(),
    }
}

impl StatementView {
    pub open spec fn token(self) -> TokenView {
        match self {
            StatementView::Let { token, .. } => token,
            StatementView::Return { token, .. } => token,
            StatementView::Expression { token, .. } => token,
        }
    }

    pub open spec fn text(self) -> Seq<char> {
        match self {
            StatementView::Let { token, name, value } => token.literal + " "@ + match name {
                Some(id) => id.value,
                None => Seq::empty(),
            } + " = "@ + optional_text(value) + ";"@,
            StatementView::Return { token, value } => token.literal + " "@ + optional_text(value)
                + ";"@,
            StatementView::Expression { expression, .. } => optional_text(expression),
        }
    }
}

/// The statements' renderings, one after another.
pub open spec fn program_text(statements: Seq<StatementView>) -> Seq<char>
    decreases statements.len(),
{
    if statements.len() == 0 {
        Seq::empty()
    } else {
        program_text(statements.drop_last()) + statements.last().text()
    }
}

impl View for Identifier {
    type V = IdentifierView;

    open spec fn view(&self) -> IdentifierView {
        IdentifierView { token: self.token@, value: self.value@ }
    }
}

impl View for IntegralLiteral {
    type V = ExpressionView;

    open spec fn view(&self) -> ExpressionView {
        ExpressionView::IntegralLiteral { token: self.token@, value: self.value as int }
    }
}

impl View for Expression {
    type V = ExpressionView;

    open spec fn view(&self) -> ExpressionView {
        match self {
            Expression::Identifier(id) => ExpressionView::Identifier(id@),
            Expression::IntegralLiteral(lit) => lit@,
        }
    }
}

pub open spec fn optional_view(e: Option<Expression>) -> Option<ExpressionView> {
    match e {
        Some(e) => Some(e@),
        None => None,
    }
}

impl View for LetStatement {
    type V = StatementView;

    open spec fn view(&self) -> StatementView {
        StatementView::Let {
            token: self.token@,
            name: match self.name {
                Some(id) => Some(id@),
                None => None,
            },
            value: optional_view(self.value),
        }
    }
}

impl View for ReturnStatement {
    type V = StatementView;

    open spec fn view(&self) -> StatementView {
        StatementView::Return { token: self.token@, value: optional_view(self.return_value) }
    }
}

impl View for ExpressionStatement {
    type V = StatementView;

    open spec fn view(&self) -> StatementView {
        StatementView::Expression { token: self.token@, expression: optional_view(self.expression) }
    }
}

impl View for Statement {
    type V = StatementView;

    open spec fn view(&self) -> StatementView {
        match self {
            Statement::Let(s) => s@,
            Statement::Return(s) => s@,
            Statement::Expression(s) => s@,
        }
    }
}

pub open spec fn statement_views(statements: Seq<Statement>) -> Seq<StatementView> {
    statements.map_values(|s: Statement| s@)
}

impl View for Program {
    type V = Seq<StatementView>;

    open spec fn view(&self) -> Seq<StatementView> {
        statement_views(self.statements@)
    }
}

fn optional_string(e: &Option<Expression>) -> (r: String)
    ensures
        r@ == optional_text(optional_view(*e)),
{
    match e {
        Some(e) => e.string(),
        None => String::new(),
    }
}

impl Node for Identifier {
    open spec fn literal_text(&self) -> Option<Seq<char>> {
        Some(self.token.literal@)
    }

    open spec fn text(&self) -> Seq<char> {
        self.value@
    }

    fn token_literal(&self) -> (r: Option<String>) {
        Some(self.token.literal.clone())
    }

    fn string(&self) -> (r: String) {
        self.value.clone()
    }
}

impl Node for IntegralLiteral {
    open spec fn literal_text(&self) -> Option<Seq<char>> {
        Some(self.token.literal@)
    }

    open spec fn text(&self) -> Seq<char> {
        self.token.literal@
    }

    fn token_literal(&self) -> (r: Option<String>) {
        Some(self.token.literal.clone())
    }

    fn string(&self) -> (r: String) {
        self.token.literal.clone()
    }
}

impl Node for Expression {
    open spec fn literal_text(&self) -> Option<Seq<char>> {
        Some(self@.token().literal)
    }

    open spec fn text(&self) -> Seq<char> {
        self@.text()
    }

    fn token_literal(&self) -> (r: Option<String>) {
        match self {
            Expression::Identifier(id) => id.token_literal(),
            Expression::IntegralLiteral(lit) => lit.token_literal(),
        }
    }

    fn string(&self) -> (r: String) {
        match self {
            Expression::Identifier(id) => id.string(),
            Expression::IntegralLiteral(lit) => lit.string(),
        }
    }
}

impl Node for LetStatement {
    open spec fn literal_text(&self) -> Option<Seq<char>> {
        Some(self.token.literal@)
    }

    open spec fn text(&self) -> Seq<char> {
        self@.text()
    }

    fn token_literal(&self) -> (r: Option<String>) {
        Some(self.token.literal.clone())
    }

    fn string(&self) -> (r: String) {
        let mut out = self.token.literal.clone();
        out.append(" ");
        match &self.name {
            Some(id) => out.append(id.value.as_str()),
            None => {},
        }
        out.append(" = ");
        let value = optional_string(&self.value);
        out.append(value.as_str());
        out.append(";");
        out
    }
}

impl Node for ReturnStatement {
    open spec fn literal_text(&self) -> Option<Seq<char>> {
        Some(self.token.literal@)
    }

    open spec fn text(&self) -> Seq<char> {
        self@.text()
    }

    fn token_literal(&self) -> (r: Option<String>) {
        Some(self.token.literal.clone())
    }

    fn string(&self) -> (r: String) {
        let mut out = self.token.literal.clone();
        out.append(" ");
        let value = optional_string(&self.return_value);
        out.append(value.as_str());
        out.append(";");
        out
    }
}

impl Node for ExpressionStatement {
    open spec fn literal_text(&self) -> Option<Seq<char>> {
        Some(self.token.literal@)
    }

    open spec fn text(&self) -> Seq<char> {
        self@.text()
    }

    fn token_literal(&self) -> (r: Option<String>) {
        Some(self.token.literal.clone())
    }

    fn string(&self) -> (r: String) {
        optional_string(&self.expression)
    }
}

impl Node for Statement {
    open spec fn literal_text(&self) -> Option<Seq<char>> {
        Some(self@.token().literal)
    }

    open spec fn text(&self) -> Seq<char> {
        self@.text()
    }

    fn token_literal(&self) -> (r: Option<String>) {
        match self {
            Statement::Let(s) => s.token_literal(),
            Statement::Return(s) => s.token_literal(),
            Statement::Expression(s) => s.token_literal(),
        }
    }

    fn string(&self) -> (r: String) {
        match self {
            Statement::Let(s) => s.string(),
            Statement::Return(s) => s.string(),
            Statement::Expression(s) => s.string(),
        }
    }
}

impl Node for Program {
    /// The literal of the first statement's token; none for an empty program.
    open spec fn literal_text(&self) -> Option<Seq<char>> {
        if self@.len() == 0 {
            None
        } else {
            Some(self@[0].token().literal)
        }
    }

    open spec fn text(&self) -> Seq<char> {
        program_text(self@)
    }

    fn token_literal(&self) -> (r: Option<String>) {
        if self.statements.len() == 0 {
            None
        } else {
            self.statements[0].token_literal()
        }
    }

    fn string(&self) -> (r: String) {
        let mut out = String::new();
        let mut i: usize = 0;
        while i < self.statements.len()
            invariant
                i <= self.statements.len(),
                out@ == program_text(self@.subrange(0, i as int)),
            decreases self.statements.len() - i,
        {
            let s = self.statements[i].string();
            out.append(s.as_str());
            assert(self@.subrange(0, i + 1).drop_last() =~= self@.subrange(0, i as int));
            i = i + 1;
        }
        assert(self@.subrange(0, i as int) =~= self@);
        out
    }
}

} // verus!
