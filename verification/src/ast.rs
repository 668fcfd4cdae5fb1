//! The grammar tree.
//!
//! ```text
//! program    ::= {statement}
//! statement  ::= PRINT (expression | string) NL
//!              | IF comparison THEN NL {statement} ENDIF NL
//!              | WHILE comparison REPEAT NL {statement} ENDWHILE NL
//!              | LABEL ident NL
//!              | GOTO ident NL
//!              | LET ident "=" expression NL
//!              | INPUT ident NL
//! comparison ::= expression (("==" | "!=" | ">" | ">=" | "<" | "<=") expression)*
//! expression ::= term {("+" | "-") term}
//! term       ::= unary {("*" | "/") unary}
//! unary      ::= ["+" | "-"] primary
//! primary    ::= INTEGER | FLOAT | ident
//! ```
//!
//! Every executable node type has a mathematical twin (`...View`) in which
//! each string is the sequence of its characters; contracts speak of the
//! twins.
use vstd::prelude::*;

verus! {

/// A whole program: its top-level statements in source order.
#[derive(Debug, PartialEq)]
pub struct Ast {
    pub program: Vec<Statement>,
}

/// A statement, or a block of statements.
#[derive(Debug, PartialEq)]
pub enum Statement {
    /// `PRINT expression`
    Print(Expression),
    /// `PRINT "text"`
    PrintStr(String),
    /// `LET name = expression`
    Let(String, Expression),
    /// `IF comparison THEN body ENDIF`; the body is a chain of
    /// [`Statement::Statement`] nodes closed by [`Statement::End`].
    If(Comparison, Box<Statement>),
    /// `WHILE comparison REPEAT body ENDWHILE`; the body is a chain like
    /// that of [`Statement::If`].
    While(Comparison, Box<Statement>),
    /// `LABEL name`
    Label(String),
    /// `GOTO name`
    Goto(String),
    /// `INPUT name`
    Input(String),
    /// One statement of a block followed by the rest of the block.
    Statement(Box<Statement>, Box<Statement>),
    /// The end of a block.
    End,
}

/// The condition of an `IF` or `WHILE`: a chain of expressions with
/// relational operators between them, nested to the right.
#[derive(Debug, PartialEq)]
pub enum Comparison {
    /// An expression with no relational operator behind it.
    Left(Expression),
    /// An expression and the continuation that follows it, which the parser
    /// always makes a [`Comparison::Compare`].
    Right(Expression, Box<Comparison>),
    /// A relational operator, as written, and the comparison to its right.
    Compare(String, Box<Comparison>),
}

/// A chain of terms with `+` or `-` between them, nested to the right.
#[derive(Debug, PartialEq)]
pub enum Expression {
    Term(Term),
    Add(Box<Term>, Box<Expression>),
    Sub(Box<Term>, Box<Expression>),
}

/// A chain of unaries with `*` or `/` between them, nested to the right.
#[derive(Debug, PartialEq)]
pub enum Term {
    Unary(Unary),
    Mul(Box<Unary>, Box<Term>),
    Div(Box<Unary>, Box<Term>),
}

/// A primary, with or without a sign in front.
#[derive(Debug, PartialEq)]
pub enum Unary {
    Primary(Primary),
    Positive(Box<Unary>),
    Negative(Box<Unary>),
}

/// A literal or a variable.
#[derive(Debug, PartialEq)]
pub enum Primary {
    Integer(i64),
    /// A literal with a decimal point, kept as it was written.
    Float(String),
    Variable(String),
}

/// The model of a [`Primary`].
pub enum PrimaryView {
    Integer(i64),
    Float(Seq<char>),
    Variable(Seq<char>),
}

/// The model of a [`Unary`].
pub enum UnaryView {
    Primary(PrimaryView),
    Positive(Box<UnaryView>),
    Negative(Box<UnaryView>),
}

/// The model of a [`Term`].
pub enum TermView {
    Unary(UnaryView),
    Mul(Box<UnaryView>, Box<TermView>),
    Div(Box<UnaryView>, Box<TermView>),
}

/// The model of an [`Expression`].
pub enum ExpressionView {
    Term(TermView),
    Add(Box<TermView>, Box<ExpressionView>),
    Sub(Box<TermView>, Box<ExpressionView>),
}

/// The model of a [`Comparison`].
pub enum ComparisonView {
    Left(ExpressionView),
    Right(ExpressionView, Box<ComparisonView>),
    Compare(Seq<char>, Box<ComparisonView>),
}

/// The model of a [`Statement`].
pub enum StatementView {
    Print(ExpressionView),
    PrintStr(Seq<char>),
    Let(Seq<char>, ExpressionView),
    If(ComparisonView, Box<StatementView>),
    While(ComparisonView, Box<StatementView>),
    Label(Seq<char>),
    Goto(Seq<char>),
    Input(Seq<char>),
    Statement(Box<StatementView>, Box<StatementView>),
    End,
}

impl Default for Ast {
    /// The program without statements.
    fn default() -> (ast: Ast)
        ensures
            ast@ == Seq::<StatementView>::empty(),
    {
        let ast = Ast { program: Vec::new() };
        assert(ast@ =~= Seq::<StatementView>::empty());
        ast
    }
}

impl Primary {
    /// The literal or name that this node holds.
    pub open spec fn model(self) -> PrimaryView {
        match self {
            Primary::Integer(value) => PrimaryView::Integer(value),
            Primary::Float(text) => PrimaryView::Float(text@),
            Primary::Variable(name) => PrimaryView::Variable(name@),
        }
    }
}

impl Unary {
    /// The same tree over character sequences.
    pub open spec fn model(self) -> UnaryView
        decreases self,
    {
        match self {
            Unary::Primary(primary) => UnaryView::Primary(primary.model()),
            Unary::Positive(inner) => UnaryView::Positive(Box::new((*inner).model())),
            Unary::Negative(inner) => UnaryView::Negative(Box::new((*inner).model())),
        }
    }
}

impl Term {
    /// The same tree over character sequences.
    pub open spec fn model(self) -> TermView
        decreases self,
    {
        match self {
            Term::Unary(unary) => TermView::Unary(unary.model()),
            Term::Mul(left, right) => TermView::Mul(
                Box::new((*left).model()),
                Box::new((*right).model()),
            ),
            Term::Div(left, right) => TermView::Div(
                Box::new((*left).model()),
                Box::new((*right).model()),
            ),
        }
    }
}

impl Expression {
    /// The same tree over character sequences.
    pub open spec fn model(self) -> ExpressionView
        decreases self,
    {
        match self {
            Expression::Term(term) => ExpressionView::Term(term.model()),
            Expression::Add(left, right) => ExpressionView::Add(
                Box::new((*left).model()),
                Box::new((*right).model()),
            ),
            Expression::Sub(left, right) => ExpressionView::Sub(
                Box::new((*left).model()),
                Box::new((*right).model()),
            ),
        }
    }
}

impl Comparison {
    /// The same tree over character sequences.
    pub open spec fn model(self) -> ComparisonView
        decreases self,
    {
        match self {
            Comparison::Left(expression) => ComparisonView::Left(expression.model()),
            Comparison::Right(expression, rest) => ComparisonView::Right(
                expression.model(),
                Box::new((*rest).model()),
            ),
            Comparison::Compare(operator, rest) => ComparisonView::Compare(
                operator@,
                Box::new((*rest).model()),
            ),
        }
    }
}

impl Statement {
    /// The same tree over character sequences.
    pub open spec fn model(self) -> StatementView
        decreases self,
    {
        match self {
            Statement::Print(expression) => StatementView::Print(expression.model()),
            Statement::PrintStr(text) => StatementView::PrintStr(text@),
            Statement::Let(name, expression) => StatementView::Let(name@, expression.model()),
            Statement::If(condition, body) => StatementView::If(
                condition.model(),
                Box::new((*body).model()),
            ),
            Statement::While(condition, body) => StatementView::While(
                condition.model(),
                Box::new((*body).model()),
            ),
            Statement::Label(name) => StatementView::Label(name@),
            Statement::Goto(name) => StatementView::Goto(name@),
            Statement::Input(name) => StatementView::Input(name@),
            Statement::Statement(first, rest) => StatementView::Statement(
                Box::new((*first).model()),
                Box::new((*rest).model()),
            ),
            Statement::End => StatementView::End,
        }
    }
}

impl DeepView for Primary {
    type V = PrimaryView;

    open spec fn deep_view(&self) -> PrimaryView {
        self.model()
    }
}

impl DeepView for Unary {
    type V = UnaryView;

    open spec fn deep_view(&self) -> UnaryView {
        self.model()
    }
}

impl DeepView for Term {
    type V = TermView;

    open spec fn deep_view(&self) -> TermView {
        self.model()
    }
}

impl DeepView for Expression {
    type V = ExpressionView;

    open spec fn deep_view(&self) -> ExpressionView {
        self.model()
    }
}

impl DeepView for Comparison {
    type V = ComparisonView;

    open spec fn deep_view(&self) -> ComparisonView {
        self.model()
    }
}

impl DeepView for Statement {
    type V = StatementView;

    open spec fn deep_view(&self) -> StatementView {
        self.model()
    }
}

impl DeepView for Ast {
    type V = Seq<StatementView>;

    open spec fn deep_view(&self) -> Seq<StatementView> {
        self.program.deep_view()
    }
}

impl View for Primary {
    type V = PrimaryView;

    open spec fn view(&self) -> PrimaryView {
        self.model()
    }
}

impl View for Unary {
    type V = UnaryView;

    open spec fn view(&self) -> UnaryView {
        self.model()
    }
}

impl View for Term {
    type V = TermView;

    open spec fn view(&self) -> TermView {
        self.model()
    }
}

impl View for Expression {
    type V = ExpressionView;

    open spec fn view(&self) -> ExpressionView {
        self.model()
    }
}

impl View for Comparison {
    type V = ComparisonView;

    open spec fn view(&self) -> ComparisonView {
        self.model()
    }
}

impl View for Statement {
    type V = StatementView;

    open spec fn view(&self) -> StatementView {
        self.model()
    }
}

impl View for Ast {
    type V = Seq<StatementView>;

    open spec fn view(&self) -> Seq<StatementView> {
        self.deep_view()
    }
}

} // verus!
