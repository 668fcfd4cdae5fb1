//! The parser: from tokens to the grammar tree, with the checks on names.
//!
//! The `parse_*` functions define what is accepted, production by
//! production: each reads the tokens from an index on and gives the node it
//! found with the index behind it, or the first error with the index at
//! which the parser is left. The statements also thread the names gathered
//! so far, and say which were gathered when an error stopped them. The
//! methods of [`Parser`] compute exactly these functions, and
//! [`Parser::check`] keeps what a failed parse did away from the parser.
use crate::ast::{
    Ast, Comparison, ComparisonView, Expression, ExpressionView, Primary, PrimaryView, Statement,
    StatementView, Term, TermView, Unary, UnaryView,
};
use crate::error::{CompileError, CompileErrorView, Expected};
use crate::lexer::{Lexer, Token, TokenView};
use crate::names::NameSet;
use vstd::prelude::*;
use vstd::string::StringExecFns;

verus! {

/// The names that a parse has gathered.
pub struct Scope {
    /// The variables introduced by `LET` or `INPUT`.
    pub variables: Set<Seq<char>>,
    /// The labels declared by `LABEL`.
    pub labels_declared: Set<Seq<char>>,
    /// The labels that a `GOTO` names, in the order of their first mention.
    pub labels_gotoed: Seq<Seq<char>>,
}

impl Scope {
    /// No name at all.
    pub open spec fn empty() -> Scope {
        Scope {
            variables: Set::empty(),
            labels_declared: Set::empty(),
            labels_gotoed: Seq::empty(),
        }
    }

    /// The scope with the variable `name` added.
    pub open spec fn declare_variable(self, name: Seq<char>) -> Scope {
        Scope { variables: self.variables.insert(name), ..self }
    }

    /// The scope with the label `name` added to those declared.
    pub open spec fn declare_label(self, name: Seq<char>) -> Scope {
        Scope { labels_declared: self.labels_declared.insert(name), ..self }
    }

    /// The scope with the label `name` added to those jumped to, unless it
    /// is among them already.
    pub open spec fn refer_to_label(self, name: Seq<char>) -> Scope {
        if self.labels_gotoed.contains(name) {
            self
        } else {
            Scope { labels_gotoed: self.labels_gotoed.push(name), ..self }
        }
    }
}

/// The two kinds of block, told apart by the keyword that closes them.
#[derive(Clone, Copy, Debug, PartialEq, Eq, Structural)]
pub enum Block {
    /// The body of an `IF`, closed by `ENDIF`.
    If,
    /// The body of a `WHILE`, closed by `ENDWHILE`.
    While,
}

impl Block {
    /// The keyword between the condition and the block.
    pub open spec fn opening(self) -> TokenView {
        match self {
            Block::If => TokenView::THEN,
            Block::While => TokenView::REPEAT,
        }
    }

    /// What is reported as missing where the opening keyword is.
    pub open spec fn expected_opening(self) -> Expected {
        match self {
            Block::If => Expected::Then,
            Block::While => Expected::Repeat,
        }
    }

    /// The keyword that closes the block.
    pub open spec fn closing(self) -> TokenView {
        match self {
            Block::If => TokenView::ENDIF,
            Block::While => TokenView::ENDWHILE,
        }
    }
}

/// Where and why a production gave up that gathers no names.
pub struct Stop {
    /// The fault found.
    pub error: CompileErrorView,
    /// The index at which the parser is left.
    pub position: int,
}

/// Where and why a statement production gave up, and the names that it had
/// gathered by then.
pub struct Halt {
    /// The fault found.
    pub error: CompileErrorView,
    /// The index at which the parser is left.
    pub position: int,
    /// The names gathered up to the fault.
    pub scope: Scope,
}

impl Stop {
    /// The same fault in a statement that had gathered `scope`.
    pub open spec fn with(self, scope: Scope) -> Halt {
        Halt { error: self.error, position: self.position, scope }
    }
}

/// A node found by an expression production, with the index behind it.
pub type Found<T> = Result<(T, int), Stop>;

/// A statement found, with the index behind it and the names gathered.
pub type FoundStatement = Result<(StatementView, int, Scope), Halt>;

/// The token at `pos`, if there is one.
pub open spec fn token_at(tokens: Seq<TokenView>, pos: int) -> Option<TokenView> {
    if 0 <= pos < tokens.len() {
        Some(tokens[pos])
    } else {
        None
    }
}

/// The error for what stands at `pos` in place of `expected`.
pub open spec fn unexpected(expected: Expected, tokens: Seq<TokenView>, pos: int) -> CompileErrorView {
    CompileErrorView::UnexpectedToken { expected, found: token_at(tokens, pos) }
}

/// The index behind the token at `pos`, or `pos` where there is none:
/// where the parser stands when it has taken the next token, if any.
pub open spec fn behind(tokens: Seq<TokenView>, pos: int) -> int {
    if 0 <= pos < tokens.len() {
        pos + 1
    } else {
        pos
    }
}

/// What becomes of a production that took the token at `pos` and found it
/// not to be what was `expected`.
pub open spec fn misread(expected: Expected, tokens: Seq<TokenView>, pos: int) -> Stop {
    Stop { error: unexpected(expected, tokens, pos), position: behind(tokens, pos) }
}

/// The index behind the line break at `pos`.
pub open spec fn expect_newline(tokens: Seq<TokenView>, pos: int) -> Result<int, Stop> {
    match token_at(tokens, pos) {
        Some(TokenView::NEWLINE) => Ok(pos + 1),
        _ => Err(misread(Expected::Newline, tokens, pos)),
    }
}

/// The name at `pos`.
pub open spec fn expect_identifier(tokens: Seq<TokenView>, pos: int) -> Found<Seq<char>> {
    match token_at(tokens, pos) {
        Some(TokenView::VARIABLE(name)) => Ok((name, pos + 1)),
        _ => Err(misread(Expected::Identifier, tokens, pos)),
    }
}

/// The spelling of a relational operator.
pub open spec fn relation(token: TokenView) -> Option<Seq<char>> {
    match token {
        TokenView::EQEQ => Some("=="@),
        TokenView::NOTEQ => Some("!="@),
        TokenView::LT => Some("<"@),
        TokenView::LTEQ => Some("<="@),
        TokenView::GT => Some(">"@),
        TokenView::GTEQ => Some(">="@),
        _ => None,
    }
}

/// `primary ::= INTEGER | FLOAT | ident`, where the variable named must be
/// among `variables`. The token is taken in any case.
pub open spec fn parse_primary(
    tokens: Seq<TokenView>,
    pos: int,
    variables: Set<Seq<char>>,
) -> Found<PrimaryView> {
    match token_at(tokens, pos) {
        Some(TokenView::INTEGER(value)) => Ok((PrimaryView::Integer(value), pos + 1)),
        Some(TokenView::FLOAT(text)) => Ok((PrimaryView::Float(text), pos + 1)),
        Some(TokenView::VARIABLE(name)) => if variables.contains(name) {
            Ok((PrimaryView::Variable(name), pos + 1))
        } else {
            Err(Stop { error: CompileErrorView::UndeclaredVariable { name }, position: pos + 1 })
        },
        _ => Err(misread(Expected::Operand, tokens, pos)),
    }
}

/// `unary ::= ["+" | "-"] primary`
pub open spec fn parse_unary(
    tokens: Seq<TokenView>,
    pos: int,
    variables: Set<Seq<char>>,
) -> Found<UnaryView> {
    match token_at(tokens, pos) {
        Some(TokenView::PLUS) => match parse_primary(tokens, pos + 1, variables) {
            Ok((operand, next)) => Ok(
                (UnaryView::Positive(Box::new(UnaryView::Primary(operand))), next),
            ),
            Err(error) => Err(error),
        },
        Some(TokenView::MINUS) => match parse_primary(tokens, pos + 1, variables) {
            Ok((operand, next)) => Ok(
                (UnaryView::Negative(Box::new(UnaryView::Primary(operand))), next),
            ),
            Err(error) => Err(error),
        },
        _ => match parse_primary(tokens, pos, variables) {
            Ok((operand, next)) => Ok((UnaryView::Primary(operand), next)),
            Err(error) => Err(error),
        },
    }
}

/// `term ::= unary {("*" | "/") unary}`, nested to the right.
pub open spec fn parse_term(
    tokens: Seq<TokenView>,
    pos: int,
    variables: Set<Seq<char>>,
) -> Found<TermView>
    decreases tokens.len() - pos,
{
    match parse_unary(tokens, pos, variables) {
        Err(error) => Err(error),
        Ok((left, next)) => match token_at(tokens, next) {
            Some(TokenView::ASTERISK) => match parse_term(tokens, next + 1, variables) {
                Ok((right, end)) => Ok((TermView::Mul(Box::new(left), Box::new(right)), end)),
                Err(error) => Err(error),
            },
            Some(TokenView::SLASH) => match parse_term(tokens, next + 1, variables) {
                Ok((right, end)) => Ok((TermView::Div(Box::new(left), Box::new(right)), end)),
                Err(error) => Err(error),
            },
            _ => Ok((TermView::Unary(left), next)),
        },
    }
}

/// A term ends behind its start, and within the tokens.
pub proof fn lemma_term_advances(tokens: Seq<TokenView>, pos: int, variables: Set<Seq<char>>)
    ensures
        parse_term(tokens, pos, variables) matches Ok((_, end)) ==> 0 <= pos < end
            <= tokens.len(),
    decreases tokens.len() - pos,
{
    if let Ok((_, next)) = parse_unary(tokens, pos, variables) {
        if token_at(tokens, next) is Some {
            lemma_term_advances(tokens, next + 1, variables);
        }
    }
}

/// `expression ::= term {("+" | "-") term}`, nested to the right.
pub open spec fn parse_expression(
    tokens: Seq<TokenView>,
    pos: int,
    variables: Set<Seq<char>>,
) -> Found<ExpressionView>
    decreases tokens.len() - pos,
{
    match parse_term(tokens, pos, variables) {
        Err(error) => Err(error),
        Ok((left, next)) => {
            proof {
                lemma_term_advances(tokens, pos, variables);
            }
            match token_at(tokens, next) {
                Some(TokenView::PLUS) => match parse_expression(tokens, next + 1, variables) {
                    Ok((right, end)) => Ok(
                        (ExpressionView::Add(Box::new(left), Box::new(right)), end),
                    ),
                    Err(error) => Err(error),
                },
                Some(TokenView::MINUS) => match parse_expression(tokens, next + 1, variables) {
                    Ok((right, end)) => Ok(
                        (ExpressionView::Sub(Box::new(left), Box::new(right)), end),
                    ),
                    Err(error) => Err(error),
                },
                _ => Ok((ExpressionView::Term(left), next)),
            }
        },
    }
}

/// An expression ends behind its start, and within the tokens.
pub proof fn lemma_expression_advances(tokens: Seq<TokenView>, pos: int, variables: Set<Seq<char>>)
    ensures
        parse_expression(tokens, pos, variables) matches Ok((_, end)) ==> 0 <= pos < end
            <= tokens.len(),
    decreases tokens.len() - pos,
{
    lemma_term_advances(tokens, pos, variables);
    if let Ok((_, next)) = parse_term(tokens, pos, variables) {
        if token_at(tokens, next) is Some {
            lemma_expression_advances(tokens, next + 1, variables);
        }
    }
}

/// `comparison ::= expression (("==" | "!=" | ">" | ">=" | "<" | "<=") expression)*`,
/// nested to the right: an expression with an operator behind it is a
/// [`ComparisonView::Right`] that holds the expression and a
/// [`ComparisonView::Compare`] with the operator and the rest.
pub open spec fn parse_comparison(
    tokens: Seq<TokenView>,
    pos: int,
    variables: Set<Seq<char>>,
) -> Found<ComparisonView>
    decreases tokens.len() - pos,
{
    match parse_expression(tokens, pos, variables) {
        Err(error) => Err(error),
        Ok((left, next)) => {
            proof {
                lemma_expression_advances(tokens, pos, variables);
            }
            match token_at(tokens, next) {
                Some(token) => match relation(token) {
                    Some(operator) => match parse_comparison(tokens, next + 1, variables) {
                        Ok((rest, end)) => Ok(
                            (
                                ComparisonView::Right(
                                    left,
                                    Box::new(ComparisonView::Compare(operator, Box::new(rest))),
                                ),
                                end,
                            ),
                        ),
                        Err(error) => Err(error),
                    },
                    None => Ok((ComparisonView::Left(left), next)),
                },
                None => Ok((ComparisonView::Left(left), next)),
            }
        },
    }
}

/// A comparison ends behind its start, and within the tokens.
pub proof fn lemma_comparison_advances(tokens: Seq<TokenView>, pos: int, variables: Set<Seq<char>>)
    ensures
        parse_comparison(tokens, pos, variables) matches Ok((_, end)) ==> 0 <= pos < end
            <= tokens.len(),
    decreases tokens.len() - pos,
{
    lemma_expression_advances(tokens, pos, variables);
    if let Ok((_, next)) = parse_expression(tokens, pos, variables) {
        if token_at(tokens, next) is Some {
            lemma_comparison_advances(tokens, next + 1, variables);
        }
    }
}

/// `PRINT (expression | string) NL`, from behind the keyword.
pub open spec fn parse_print(tokens: Seq<TokenView>, pos: int, scope: Scope) -> FoundStatement {
    match token_at(tokens, pos) {
        Some(TokenView::STRING(text)) => match expect_newline(tokens, pos + 1) {
            Ok(end) => Ok((StatementView::PrintStr(text), end, scope)),
            Err(stop) => Err(stop.with(scope)),
        },
        _ => match parse_expression(tokens, pos, scope.variables) {
            Ok((value, next)) => match expect_newline(tokens, next) {
                Ok(end) => Ok((StatementView::Print(value), end, scope)),
                Err(stop) => Err(stop.with(scope)),
            },
            Err(stop) => Err(stop.with(scope)),
        },
    }
}

/// `LABEL ident NL`, from behind the keyword. The label must be new; it is
/// declared before the line break is looked for.
pub open spec fn parse_label(tokens: Seq<TokenView>, pos: int, scope: Scope) -> FoundStatement {
    match expect_identifier(tokens, pos) {
        Ok((name, next)) => if scope.labels_declared.contains(name) {
            Err(Halt { error: CompileErrorView::DuplicateLabel { name }, position: next, scope })
        } else {
            match expect_newline(tokens, next) {
                Ok(end) => Ok((StatementView::Label(name), end, scope.declare_label(name))),
                Err(stop) => Err(stop.with(scope.declare_label(name))),
            }
        },
        Err(stop) => Err(stop.with(scope)),
    }
}

/// `GOTO ident NL`, from behind the keyword. The label may be declared
/// later; it is noted before the line break is looked for.
pub open spec fn parse_goto(tokens: Seq<TokenView>, pos: int, scope: Scope) -> FoundStatement {
    match expect_identifier(tokens, pos) {
        Ok((name, next)) => match expect_newline(tokens, next) {
            Ok(end) => Ok((StatementView::Goto(name), end, scope.refer_to_label(name))),
            Err(stop) => Err(stop.with(scope.refer_to_label(name))),
        },
        Err(stop) => Err(stop.with(scope)),
    }
}

/// `LET ident "=" expression NL`, from behind the keyword. The variable is
/// declared as soon as its name is read, before its expression.
pub open spec fn parse_let(tokens: Seq<TokenView>, pos: int, scope: Scope) -> FoundStatement {
    match expect_identifier(tokens, pos) {
        Ok((name, next)) => match token_at(tokens, next) {
            Some(TokenView::EQ) => match parse_expression(
                tokens,
                next + 1,
                scope.variables.insert(name),
            ) {
                Ok((value, behind)) => match expect_newline(tokens, behind) {
                    Ok(end) => Ok(
                        (StatementView::Let(name, value), end, scope.declare_variable(name)),
                    ),
                    Err(stop) => Err(stop.with(scope.declare_variable(name))),
                },
                Err(stop) => Err(stop.with(scope.declare_variable(name))),
            },
            _ => Err(misread(Expected::Assign, tokens, next).with(scope.declare_variable(name))),
        },
        Err(stop) => Err(stop.with(scope)),
    }
}

/// `INPUT ident NL`, from behind the keyword. The variable is declared as
/// soon as its name is read.
pub open spec fn parse_input(tokens: Seq<TokenView>, pos: int, scope: Scope) -> FoundStatement {
    match expect_identifier(tokens, pos) {
        Ok((name, next)) => match expect_newline(tokens, next) {
            Ok(end) => Ok((StatementView::Input(name), end, scope.declare_variable(name))),
            Err(stop) => Err(stop.with(scope.declare_variable(name))),
        },
        Err(stop) => Err(stop.with(scope)),
    }
}

/// The condition of an `IF` or `WHILE` and the two tokens behind it: the
/// keyword that opens the block, and a line break. Gives the condition and
/// the index at which the block starts.
pub open spec fn parse_condition(
    tokens: Seq<TokenView>,
    pos: int,
    variables: Set<Seq<char>>,
    block: Block,
) -> Found<ComparisonView> {
    match parse_comparison(tokens, pos, variables) {
        Ok((condition, next)) => if token_at(tokens, next) == Some(block.opening()) {
            match expect_newline(tokens, next + 1) {
                Ok(start) => Ok((condition, start)),
                Err(error) => Err(error),
            }
        } else {
            Err(misread(block.expected_opening(), tokens, next))
        },
        Err(error) => Err(error),
    }
}

/// One statement, from `pos` on. Line breaks in front of it are skipped.
/// A token that starts no statement is left where it is.
pub open spec fn parse_statement(tokens: Seq<TokenView>, pos: int, scope: Scope) -> FoundStatement
    decreases tokens.len() - pos, 0int,
{
    match token_at(tokens, pos) {
        Some(TokenView::NEWLINE) => parse_statement(tokens, pos + 1, scope),
        Some(TokenView::PRINT) => parse_print(tokens, pos + 1, scope),
        Some(TokenView::IF) => parse_compound(tokens, pos + 1, scope, Block::If),
        Some(TokenView::WHILE) => parse_compound(tokens, pos + 1, scope, Block::While),
        Some(TokenView::LABEL) => parse_label(tokens, pos + 1, scope),
        Some(TokenView::GOTO) => parse_goto(tokens, pos + 1, scope),
        Some(TokenView::LET) => parse_let(tokens, pos + 1, scope),
        Some(TokenView::INPUT) => parse_input(tokens, pos + 1, scope),
        _ => Err(Halt { error: unexpected(Expected::Statement, tokens, pos), position: pos, scope }),
    }
}

/// `IF comparison THEN NL {statement} ENDIF NL` or
/// `WHILE comparison REPEAT NL {statement} ENDWHILE NL`, from behind the
/// first keyword.
pub open spec fn parse_compound(
    tokens: Seq<TokenView>,
    pos: int,
    scope: Scope,
    block: Block,
) -> FoundStatement
    decreases tokens.len() - pos, 2int,
{
    match parse_condition(tokens, pos, scope.variables, block) {
        Ok((condition, start)) => {
            proof {
                lemma_comparison_advances(tokens, pos, scope.variables);
            }
            match parse_block(tokens, start, scope, block) {
                Ok((body, close, gathered)) => match expect_newline(tokens, close + 1) {
                    Ok(end) => Ok(
                        (
                            match block {
                                Block::If => StatementView::If(condition, Box::new(body)),
                                Block::While => StatementView::While(condition, Box::new(body)),
                            },
                            end,
                            gathered,
                        ),
                    ),
                    Err(stop) => Err(stop.with(gathered)),
                },
                Err(halt) => Err(halt),
            }
        },
        Err(stop) => Err(stop.with(scope)),
    }
}

/// The statements of a block, up to the keyword that closes it; the index
/// given is that of the keyword.
///
/// A statement never ends where it starts ([`lemma_statement_advances`]),
/// so the test on `next` always succeeds: it is there for the
/// definition to be well-founded.
pub open spec fn parse_block(
    tokens: Seq<TokenView>,
    pos: int,
    scope: Scope,
    block: Block,
) -> FoundStatement
    decreases tokens.len() - pos, 1int,
{
    if token_at(tokens, pos) == Some(block.closing()) {
        Ok((StatementView::End, pos, scope))
    } else {
        match parse_statement(tokens, pos, scope) {
            Ok((first, next, gathered)) => if pos < next <= tokens.len() {
                match parse_block(tokens, next, gathered, block) {
                    Ok((rest, close, all)) => Ok(
                        (StatementView::Statement(Box::new(first), Box::new(rest)), close, all),
                    ),
                    Err(error) => Err(error),
                }
            } else {
                Err(
                    Halt {
                        error: unexpected(Expected::Statement, tokens, pos),
                        position: pos,
                        scope,
                    },
                )
            },
            Err(halt) => Err(halt),
        }
    }
}

/// A statement ends behind its start and within the tokens; a block ends
/// at a token, which is its closing keyword.
pub proof fn lemma_statement_advances(tokens: Seq<TokenView>, pos: int, scope: Scope)
    ensures
        parse_statement(tokens, pos, scope) matches Ok((_, end, _)) ==> 0 <= pos < end
            <= tokens.len(),
    decreases tokens.len() - pos, 0int,
{
    match token_at(tokens, pos) {
        Some(TokenView::NEWLINE) => lemma_statement_advances(tokens, pos + 1, scope),
        Some(TokenView::PRINT) => lemma_expression_advances(tokens, pos + 1, scope.variables),
        Some(TokenView::IF) => lemma_compound_advances(tokens, pos + 1, scope, Block::If),
        Some(TokenView::WHILE) => lemma_compound_advances(tokens, pos + 1, scope, Block::While),
        Some(TokenView::LET) => {
            if let Ok((name, next)) = expect_identifier(tokens, pos + 1) {
                lemma_expression_advances(tokens, next + 1, scope.variables.insert(name));
            }
        },
        _ => {},
    }
}

/// See [`lemma_statement_advances`].
pub proof fn lemma_compound_advances(tokens: Seq<TokenView>, pos: int, scope: Scope, block: Block)
    ensures
        parse_compound(tokens, pos, scope, block) matches Ok((_, end, _)) ==> 0 <= pos < end
            <= tokens.len(),
    decreases tokens.len() - pos, 2int,
{
    lemma_comparison_advances(tokens, pos, scope.variables);
    if let Ok((_, start)) = parse_condition(tokens, pos, scope.variables, block) {
        lemma_block_advances(tokens, start, scope, block);
    }
}

/// See [`lemma_statement_advances`].
pub proof fn lemma_block_advances(tokens: Seq<TokenView>, pos: int, scope: Scope, block: Block)
    ensures
        parse_block(tokens, pos, scope, block) matches Ok((_, close, _)) ==> 0 <= pos <= close
            < tokens.len() && tokens[close] == block.closing(),
    decreases tokens.len() - pos, 1int,
{
    if token_at(tokens, pos) != Some(block.closing()) {
        lemma_statement_advances(tokens, pos, scope);
        if let Ok((_, next, gathered)) = parse_statement(tokens, pos, scope) {
            lemma_block_advances(tokens, next, gathered, block);
        }
    }
}

/// The statements from `pos` to the end of the tokens.
pub open spec fn parse_statements(tokens: Seq<TokenView>, pos: int, scope: Scope) -> Result<
    (Seq<StatementView>, Scope),
    CompileErrorView,
>
    decreases tokens.len() - pos,
{
    if 0 <= pos < tokens.len() {
        match parse_statement(tokens, pos, scope) {
            Ok((first, next, gathered)) => {
                proof {
                    lemma_statement_advances(tokens, pos, scope);
                }
                match parse_statements(tokens, next, gathered) {
                    Ok((rest, all)) => Ok((seq![first] + rest, all)),
                    Err(error) => Err(error),
                }
            },
            Err(halt) => Err(halt.error),
        }
    } else {
        Ok((Seq::empty(), scope))
    }
}

/// The first of `gotoed` that is not among `declared`.
pub open spec fn first_undeclared(gotoed: Seq<Seq<char>>, declared: Set<Seq<char>>) -> Option<
    Seq<char>,
>
    decreases gotoed.len(),
{
    if gotoed.len() == 0 {
        None
    } else if !declared.contains(gotoed.first()) {
        Some(gotoed.first())
    } else {
        first_undeclared(gotoed.drop_first(), declared)
    }
}

/// `program ::= {statement}`: the statements of a whole token sequence and
/// the names gathered from them, starting from the names in `scope`. Every
/// label jumped to must be declared somewhere.
pub open spec fn parse_program(tokens: Seq<TokenView>, scope: Scope) -> Result<
    (Seq<StatementView>, Scope),
    CompileErrorView,
> {
    match parse_statements(tokens, 0, scope) {
        Ok((program, gathered)) => match first_undeclared(
            gathered.labels_gotoed,
            gathered.labels_declared,
        ) {
            Some(name) => Err(CompileErrorView::UndeclaredLabel { name }),
            None => Ok((program, gathered)),
        },
        Err(error) => Err(error),
    }
}

/// The state of a [`Parser`].
pub struct ParserView {
    /// The statements parsed so far.
    pub program: Seq<StatementView>,
    /// The names gathered so far.
    pub scope: Scope,
    /// How many tokens of the last sequence have been consumed.
    pub position: int,
}

impl ParserView {
    /// The same state at another index.
    pub open spec fn at(self, position: int) -> ParserView {
        ParserView { position, ..self }
    }
}

/// The tree built so far and the names gathered on the way.
pub struct Parser {
    pub ast: Ast,
    pub variables: NameSet,
    labels_declared: NameSet,
    labels_gotoed: NameSet,
    pos: usize,
}

impl View for Parser {
    type V = ParserView;

    closed spec fn view(&self) -> ParserView {
        ParserView {
            program: self.ast@,
            scope: Scope {
                variables: self.variables@,
                labels_declared: self.labels_declared@,
                labels_gotoed: self.labels_gotoed.order(),
            },
            position: self.pos as int,
        }
    }
}

/// What a production for a node hands back: the node found, with the
/// parser moved behind it, or the error, with the parser moved to where the
/// production gave up. The program and the names stay as they were.
pub open spec fn yields<N: View>(
    found: Found<N::V>,
    before: ParserView,
    outcome: Result<N, CompileError>,
    after: ParserView,
) -> bool {
    match found {
        Ok((node, next)) => outcome matches Ok(made) && made@ == node && after == before.at(next),
        Err(stop) => outcome matches Err(raised) && raised@ == stop.error && after == before.at(
            stop.position,
        ),
    }
}

/// What a production for a statement hands back: the statement found, with
/// the parser moved behind it and holding the names gathered, or the error,
/// with the parser moved to where the production gave up and holding the
/// names gathered until then. The program stays as it was.
pub open spec fn yields_statement(
    found: FoundStatement,
    before: ParserView,
    outcome: Result<Statement, CompileError>,
    after: ParserView,
) -> bool {
    match found {
        Ok((node, end, scope)) => outcome matches Ok(made) && made@ == node && after
            == (ParserView { program: before.program, scope, position: end }),
        Err(halt) => outcome matches Err(raised) && raised@ == halt.error && after
            == (ParserView { program: before.program, scope: halt.scope, position: halt.position }),
    }
}

impl Default for Parser {
    fn default() -> (parser: Parser)
        ensures
            parser@ == (ParserView { program: Seq::empty(), scope: Scope::empty(), position: 0 }),
    {
        Parser::new()
    }
}

impl Parser {
    /// A parser that has seen nothing.
    pub fn new() -> (parser: Parser)
        ensures
            parser@ == (ParserView { program: Seq::empty(), scope: Scope::empty(), position: 0 }),
    {
        Parser {
            ast: Ast::default(),
            variables: NameSet::new(),
            labels_declared: NameSet::new(),
            labels_gotoed: NameSet::new(),
            pos: 0,
        }
    }

    /// Gives up the parser for the tree and the variables it has gathered.
    pub fn into_parts(self) -> (parts: (Ast, NameSet))
        ensures
            parts.0@ == self@.program,
            parts.1@ == self@.scope.variables,
    {
        (self.ast, self.variables)
    }

    /// A parser with the names of this one and no statements, at the start
    /// of the tokens.
    fn fresh_with_names(&self) -> (work: Parser)
        ensures
            work@ == (ParserView { program: Seq::empty(), scope: self@.scope, position: 0 }),
    {
        Parser {
            ast: Ast::default(),
            variables: self.variables.clone(),
            labels_declared: self.labels_declared.clone(),
            labels_gotoed: self.labels_gotoed.clone(),
            pos: 0,
        }
    }

    /// The first label jumped to that is declared nowhere.
    fn missing_label(&self) -> (missing: Option<String>)
        ensures
            missing.deep_view() == first_undeclared(
                self@.scope.labels_gotoed,
                self@.scope.labels_declared,
            ),
    {
        let ghost gotoed = self.labels_gotoed.order();
        let ghost declared = self.labels_declared@;
        let mut i: usize = 0;
        assert(gotoed.skip(0) =~= gotoed);
        while i < self.labels_gotoed.len()
            invariant
                i <= gotoed.len(),
                gotoed == self.labels_gotoed.order(),
                declared == self.labels_declared@,
                first_undeclared(gotoed, declared) == first_undeclared(
                    gotoed.skip(i as int),
                    declared,
                ),
            decreases gotoed.len() - i,
        {
            let label = self.labels_gotoed.get(i);
            assert(gotoed.skip(i as int).first() == label@);
            assert(gotoed.skip(i as int).drop_first() =~= gotoed.skip(i + 1));
            if !self.labels_declared.contains(label.as_str()) {
                return Some(label.clone());
            }
            i += 1;
        }
        None
    }

    /// program ::= {statement}
    ///
    /// Parses the tokens that `lexer` holds, starting from the names that
    /// this parser has gathered before. Where they are a program, its
    /// statements are appended to the tree and the names gathered are kept;
    /// otherwise the first error is returned and the parser stays as it
    /// was.
    pub fn check(&mut self, lexer: &Lexer) -> (outcome: Result<(), CompileError>)
        ensures
            match parse_program(lexer.tokens.deep_view(), old(self)@.scope) {
                Ok((program, scope)) => outcome is Ok && final(self)@ == (ParserView {
                    program: old(self)@.program + program,
                    scope,
                    position: lexer.tokens.len() as int,
                }),
                Err(error) => outcome matches Err(raised) && raised@ == error && final(self)@
                    == old(self)@,
            },
    {
        let tokens = &lexer.tokens;
        let ghost all = tokens.deep_view();
        let ghost names = self@.scope;
        let mut work = self.fresh_with_names();
        while work.pos < tokens.len()
            invariant
                work.pos <= tokens.len(),
                all == tokens.deep_view(),
                all == lexer.tokens.deep_view(),
                names == old(self)@.scope,
                self@ == old(self)@,
                match parse_statements(all, work@.position, work@.scope) {
                    Ok((rest, scope)) => parse_statements(all, 0, names) == Ok::<
                        (Seq<StatementView>, Scope),
                        CompileErrorView,
                    >((work@.program + rest, scope)),
                    Err(error) => parse_statements(all, 0, names) == Err::<
                        (Seq<StatementView>, Scope),
                        CompileErrorView,
                    >(error),
                },
            decreases tokens.len() - work.pos,
        {
            let ghost before = work@;
            proof {
                lemma_statement_advances(all, before.position, before.scope);
            }
            match work.statement(tokens) {
                Ok(statement) => {
                    work.ast.program.push(statement);
                    assert(work@.program =~= before.program.push(statement@));
                    proof {
                        if let Ok((rest, scope)) = parse_statements(
                            all,
                            work@.position,
                            work@.scope,
                        ) {
                            assert(work@.program + rest =~= before.program + (seq![statement@]
                                + rest));
                        }
                    }
                },
                Err(error) => {
                    assert(parse_statements(all, before.position, before.scope) == Err::<
                        (Seq<StatementView>, Scope),
                        CompileErrorView,
                    >(error@));
                    return Err(error);
                },
            }
        }
        assert(work@.program + Seq::<StatementView>::empty() =~= work@.program);
        match work.missing_label() {
            Some(label) => {
                return Err(CompileError::UndeclaredLabel { name: label });
            },
            None => {},
        }
        let ghost earlier = self.ast@;
        let ghost parsed = work@;
        let Parser { ast, variables, labels_declared, labels_gotoed, pos } = work;
        let mut statements = ast.program;
        self.ast.program.append(&mut statements);
        self.variables = variables;
        self.labels_declared = labels_declared;
        self.labels_gotoed = labels_gotoed;
        self.pos = pos;
        assert(self.ast@ =~= earlier + parsed.program);
        Ok(())
    }

    /// The token at the parser's index, if there is one.
    fn peek<'a>(&self, tokens: &'a Vec<Token>) -> (token: Option<&'a Token>)
        ensures
            token.deep_view() == token_at(tokens.deep_view(), self@.position),
            token is Some <==> self@.position < tokens.len(),
    {
        if self.pos < tokens.len() {
            Some(&tokens[self.pos])
        } else {
            None
        }
    }

    /// The token at the parser's index, if there is one; the parser moves
    /// behind it.
    fn advance<'a>(&mut self, tokens: &'a Vec<Token>) -> (token: Option<&'a Token>)
        ensures
            token.deep_view() == token_at(tokens.deep_view(), old(self)@.position),
            token is Some <==> old(self)@.position < tokens.len(),
            final(self)@ == old(self)@.at(
                if token is Some {
                    old(self)@.position + 1
                } else {
                    old(self)@.position
                },
            ),
    {
        if self.pos < tokens.len() {
            let token = &tokens[self.pos];
            self.pos = self.pos + 1;
            Some(token)
        } else {
            None
        }
    }

    /// The error for `found` standing in place of `expected`.
    fn mismatch(expected: Expected, found: Option<&Token>) -> (error: CompileError)
        ensures
            error@ == (CompileErrorView::UnexpectedToken { expected, found: found.deep_view() }),
    {
        CompileError::UnexpectedToken {
            expected,
            found: match found {
                Some(token) => Some(token.clone()),
                None => None,
            },
        }
    }

    /// statement ::= PRINT (expression | string) nl
    ///               IF comparison "THEN" nl {statement} "ENDIF" nl
    ///               WHILE comparison "REPEAT" nl {statement} "ENDWHILE" nl
    ///               LABEL var nl
    ///               GOTO var nl
    ///               LET var "=" expression nl
    ///               INPUT var nl
    fn statement(&mut self, tokens: &Vec<Token>) -> (outcome: Result<Statement, CompileError>)
        ensures
            yields_statement(
                parse_statement(tokens.deep_view(), old(self)@.position, old(self)@.scope),
                old(self)@,
                outcome,
                final(self)@,
            ),
        decreases tokens.len() - old(self)@.position, 0int,
    {
        match self.peek(tokens) {
            Some(Token::NEWLINE) => {
                self.advance(tokens);
                self.statement(tokens)
            },
            Some(Token::PRINT) => {
                self.advance(tokens);
                self.statement_print(tokens)
            },
            Some(Token::IF) => {
                self.advance(tokens);
                self.statement_if(tokens)
            },
            Some(Token::WHILE) => {
                self.advance(tokens);
                self.statement_while(tokens)
            },
            Some(Token::LABEL) => {
                self.advance(tokens);
                self.statement_label(tokens)
            },
            Some(Token::GOTO) => {
                self.advance(tokens);
                self.statement_goto(tokens)
            },
            Some(Token::LET) => {
                self.advance(tokens);
                self.statement_let(tokens)
            },
            Some(Token::INPUT) => {
                self.advance(tokens);
                self.statement_input(tokens)
            },
            found => Err(Self::mismatch(Expected::Statement, found)),
        }
    }

    /// The name that the next token holds.
    fn var(&mut self, tokens: &Vec<Token>) -> (outcome: Result<String, CompileError>)
        ensures
            yields(
                expect_identifier(tokens.deep_view(), old(self)@.position),
                old(self)@,
                outcome,
                final(self)@,
            ),
    {
        match self.advance(tokens) {
            Some(Token::VARIABLE(content)) => Ok(content.clone()),
            found => Err(Self::mismatch(Expected::Identifier, found)),
        }
    }

    /// The line break that ends a statement.
    fn nl(&mut self, tokens: &Vec<Token>) -> (outcome: Result<(), CompileError>)
        ensures
            match expect_newline(tokens.deep_view(), old(self)@.position) {
                Ok(next) => outcome is Ok && final(self)@ == old(self)@.at(next),
                Err(stop) => outcome matches Err(raised) && raised@ == stop.error && final(self)@
                    == old(self)@.at(stop.position),
            },
    {
        match self.advance(tokens) {
            Some(Token::NEWLINE) => Ok(()),
            found => Err(Self::mismatch(Expected::Newline, found)),
        }
    }

    /// statement ::= PRINT (expression | string) nl
    fn statement_print(&mut self, tokens: &Vec<Token>) -> (outcome: Result<
        Statement,
        CompileError,
    >)
        ensures
            yields_statement(
                parse_print(tokens.deep_view(), old(self)@.position, old(self)@.scope),
                old(self)@,
                outcome,
                final(self)@,
            ),
    {
        let return_value = match self.peek(tokens) {
            Some(Token::STRING(value)) => {
                self.advance(tokens);
                Statement::PrintStr(value.clone())
            },
            _ => {
                match self.expression(tokens) {
                    Ok(expression) => Statement::Print(expression),
                    Err(error) => {
                        return Err(error);
                    },
                }
            },
        };
        match self.nl(tokens) {
            Ok(()) => Ok(return_value),
            Err(error) => Err(error),
        }
    }

    /// The condition of an `IF` or `WHILE`, the keyword behind it and the
    /// line break.
    fn condition(&mut self, tokens: &Vec<Token>, block: Block) -> (outcome: Result<
        Comparison,
        CompileError,
    >)
        ensures
            yields(
                parse_condition(tokens.deep_view(), old(self)@.position, old(self)@.scope.variables, block),
                old(self)@,
                outcome,
                final(self)@,
            ),
    {
        let comparison = match self.comparison(tokens) {
            Ok(comparison) => comparison,
            Err(error) => {
                return Err(error);
            },
        };
        match (block, self.advance(tokens)) {
            (Block::If, Some(Token::THEN)) => {},
            (Block::While, Some(Token::REPEAT)) => {},
            (Block::If, found) => {
                return Err(Self::mismatch(Expected::Then, found));
            },
            (Block::While, found) => {
                return Err(Self::mismatch(Expected::Repeat, found));
            },
        }
        match self.nl(tokens) {
            Ok(()) => Ok(comparison),
            Err(error) => Err(error),
        }
    }

    /// statement ::= IF comparison "THEN" nl {statement} "ENDIF" nl
    fn statement_if(&mut self, tokens: &Vec<Token>) -> (outcome: Result<Statement, CompileError>)
        ensures
            yields_statement(
                parse_compound(tokens.deep_view(), old(self)@.position, old(self)@.scope, Block::If),
                old(self)@,
                outcome,
                final(self)@,
            ),
        decreases tokens.len() - old(self)@.position, 2int,
    {
        proof {
            lemma_comparison_advances(
                tokens.deep_view(),
                old(self)@.position,
                old(self)@.scope.variables,
            );
        }
        let comparison = match self.condition(tokens, Block::If) {
            Ok(comparison) => comparison,
            Err(error) => {
                return Err(error);
            },
        };
        proof {
            lemma_block_advances(tokens.deep_view(), self@.position, self@.scope, Block::If);
        }
        let statement = match self.chain_statements(tokens, Block::If) {
            Ok(statement) => Box::new(statement),
            Err(error) => {
                return Err(error);
            },
        };
        self.advance(tokens);
        match self.nl(tokens) {
            Ok(()) => Ok(Statement::If(comparison, statement)),
            Err(error) => Err(error),
        }
    }

    /// statement ::= WHILE comparison "REPEAT" nl {statement} "ENDWHILE" nl
    fn statement_while(&mut self, tokens: &Vec<Token>) -> (outcome: Result<
        Statement,
        CompileError,
    >)
        ensures
            yields_statement(
                parse_compound(tokens.deep_view(), old(self)@.position, old(self)@.scope, Block::While),
                old(self)@,
                outcome,
                final(self)@,
            ),
        decreases tokens.len() - old(self)@.position, 2int,
    {
        proof {
            lemma_comparison_advances(
                tokens.deep_view(),
                old(self)@.position,
                old(self)@.scope.variables,
            );
        }
        let comparison = match self.condition(tokens, Block::While) {
            Ok(comparison) => comparison,
            Err(error) => {
                return Err(error);
            },
        };
        proof {
            lemma_block_advances(tokens.deep_view(), self@.position, self@.scope, Block::While);
        }
        let statement = match self.chain_statements(tokens, Block::While) {
            Ok(statement) => Box::new(statement),
            Err(error) => {
                return Err(error);
            },
        };
        self.advance(tokens);
        match self.nl(tokens) {
            Ok(()) => Ok(Statement::While(comparison, statement)),
            Err(error) => Err(error),
        }
    }

    /// The statements of a block, up to the keyword that closes it, which
    /// is left for the caller.
    fn chain_statements(&mut self, tokens: &Vec<Token>, block: Block) -> (outcome: Result<
        Statement,
        CompileError,
    >)
        ensures
            yields_statement(
                parse_block(tokens.deep_view(), old(self)@.position, old(self)@.scope, block),
                old(self)@,
                outcome,
                final(self)@,
            ),
        decreases tokens.len() - old(self)@.position, 1int,
    {
        match (block, self.peek(tokens)) {
            (Block::If, Some(Token::ENDIF)) => {
                return Ok(Statement::End);
            },
            (Block::While, Some(Token::ENDWHILE)) => {
                return Ok(Statement::End);
            },
            _ => {},
        }
        proof {
            lemma_statement_advances(tokens.deep_view(), old(self)@.position, old(self)@.scope);
        }
        let statement = match self.statement(tokens) {
            Ok(statement) => statement,
            Err(error) => {
                return Err(error);
            },
        };
        match self.chain_statements(tokens, block) {
            Ok(rest) => Ok(Statement::Statement(Box::new(statement), Box::new(rest))),
            Err(error) => Err(error),
        }
    }

    /// statement ::= LABEL var nl
    fn statement_label(&mut self, tokens: &Vec<Token>) -> (outcome: Result<
        Statement,
        CompileError,
    >)
        ensures
            yields_statement(
                parse_label(tokens.deep_view(), old(self)@.position, old(self)@.scope),
                old(self)@,
                outcome,
                final(self)@,
            ),
    {
        let var = match self.var(tokens) {
            Ok(var) => var,
            Err(error) => {
                return Err(error);
            },
        };
        if !self.labels_declared.insert(var.clone()) {
            return Err(CompileError::DuplicateLabel { name: var });
        }
        match self.nl(tokens) {
            Ok(()) => Ok(Statement::Label(var)),
            Err(error) => Err(error),
        }
    }

    /// statement ::= GOTO var nl
    fn statement_goto(&mut self, tokens: &Vec<Token>) -> (outcome: Result<Statement, CompileError>)
        ensures
            yields_statement(
                parse_goto(tokens.deep_view(), old(self)@.position, old(self)@.scope),
                old(self)@,
                outcome,
                final(self)@,
            ),
    {
        let var = match self.var(tokens) {
            Ok(var) => var,
            Err(error) => {
                return Err(error);
            },
        };
        self.labels_gotoed.insert(var.clone());
        match self.nl(tokens) {
            Ok(()) => Ok(Statement::Goto(var)),
            Err(error) => Err(error),
        }
    }

    /// statement ::= LET var "=" expression nl
    fn statement_let(&mut self, tokens: &Vec<Token>) -> (outcome: Result<Statement, CompileError>)
        ensures
            yields_statement(
                parse_let(tokens.deep_view(), old(self)@.position, old(self)@.scope),
                old(self)@,
                outcome,
                final(self)@,
            ),
    {
        let var = match self.var(tokens) {
            Ok(var) => var,
            Err(error) => {
                return Err(error);
            },
        };
        self.variables.insert(var.clone());
        let result = match self.advance(tokens) {
            Some(Token::EQ) => {
                match self.expression(tokens) {
                    Ok(expression) => expression,
                    Err(error) => {
                        return Err(error);
                    },
                }
            },
            found => {
                return Err(Self::mismatch(Expected::Assign, found));
            },
        };
        match self.nl(tokens) {
            Ok(()) => Ok(Statement::Let(var, result)),
            Err(error) => Err(error),
        }
    }

    /// statement ::= INPUT var nl
    fn statement_input(&mut self, tokens: &Vec<Token>) -> (outcome: Result<
        Statement,
        CompileError,
    >)
        ensures
            yields_statement(
                parse_input(tokens.deep_view(), old(self)@.position, old(self)@.scope),
                old(self)@,
                outcome,
                final(self)@,
            ),
    {
        let var = match self.var(tokens) {
            Ok(var) => var,
            Err(error) => {
                return Err(error);
            },
        };
        self.variables.insert(var.clone());
        match self.nl(tokens) {
            Ok(()) => Ok(Statement::Input(var)),
            Err(error) => Err(error),
        }
    }

    /// The spelling of the relational operator that `token` is, if it is
    /// one.
    fn relation_of(token: Option<&Token>) -> (operator: Option<String>)
        ensures
            operator.deep_view() == match token.deep_view() {
                Some(token) => relation(token),
                None => None,
            },
    {
        match token {
            Some(Token::EQEQ) => Some(String::from_str("==")),
            Some(Token::NOTEQ) => Some(String::from_str("!=")),
            Some(Token::LT) => Some(String::from_str("<")),
            Some(Token::LTEQ) => Some(String::from_str("<=")),
            Some(Token::GT) => Some(String::from_str(">")),
            Some(Token::GTEQ) => Some(String::from_str(">=")),
            _ => None,
        }
    }

    /// comparison ::= expression (("==" | "!=" | ">" | ">=" | "<" | "<=") expression)*
    fn comparison(&mut self, tokens: &Vec<Token>) -> (outcome: Result<Comparison, CompileError>)
        ensures
            yields(
                parse_comparison(tokens.deep_view(), old(self)@.position, old(self)@.scope.variables),
                old(self)@,
                outcome,
                final(self)@,
            ),
        decreases tokens.len() - old(self)@.position,
    {
        proof {
            lemma_expression_advances(
                tokens.deep_view(),
                old(self)@.position,
                old(self)@.scope.variables,
            );
        }
        let left_expr = match self.expression(tokens) {
            Ok(expression) => expression,
            Err(error) => {
                return Err(error);
            },
        };
        match Self::relation_of(self.peek(tokens)) {
            Some(operator) => {
                self.advance(tokens);
                match self.comparison(tokens) {
                    Ok(rest) => {
                        let tail = Comparison::Compare(operator, Box::new(rest));
                        assert(tail@ == ComparisonView::Compare(operator@, Box::new(rest@)));
                        Ok(Comparison::Right(left_expr, Box::new(tail)))
                    },
                    Err(error) => Err(error),
                }
            },
            None => Ok(Comparison::Left(left_expr)),
        }
    }

    /// expression ::= term {( "-" | "+" ) term}
    fn expression(&mut self, tokens: &Vec<Token>) -> (outcome: Result<Expression, CompileError>)
        ensures
            yields(
                parse_expression(tokens.deep_view(), old(self)@.position, old(self)@.scope.variables),
                old(self)@,
                outcome,
                final(self)@,
            ),
        decreases tokens.len() - old(self)@.position,
    {
        proof {
            lemma_term_advances(
                tokens.deep_view(),
                old(self)@.position,
                old(self)@.scope.variables,
            );
        }
        let term = match self.term(tokens) {
            Ok(term) => term,
            Err(error) => {
                return Err(error);
            },
        };
        match self.peek(tokens) {
            Some(Token::PLUS) => {
                self.advance(tokens);
                match self.expression(tokens) {
                    Ok(rest) => Ok(Expression::Add(Box::new(term), Box::new(rest))),
                    Err(error) => Err(error),
                }
            },
            Some(Token::MINUS) => {
                self.advance(tokens);
                match self.expression(tokens) {
                    Ok(rest) => Ok(Expression::Sub(Box::new(term), Box::new(rest))),
                    Err(error) => Err(error),
                }
            },
            _ => Ok(Expression::Term(term)),
        }
    }

    /// term ::= unary {( "/" | "*" ) unary}
    fn term(&mut self, tokens: &Vec<Token>) -> (outcome: Result<Term, CompileError>)
        ensures
            yields(
                parse_term(tokens.deep_view(), old(self)@.position, old(self)@.scope.variables),
                old(self)@,
                outcome,
                final(self)@,
            ),
        decreases tokens.len() - old(self)@.position,
    {
        let unary = match self.unary(tokens) {
            Ok(unary) => unary,
            Err(error) => {
                return Err(error);
            },
        };
        match self.peek(tokens) {
            Some(Token::ASTERISK) => {
                self.advance(tokens);
                match self.term(tokens) {
                    Ok(rest) => Ok(Term::Mul(Box::new(unary), Box::new(rest))),
                    Err(error) => Err(error),
                }
            },
            Some(Token::SLASH) => {
                self.advance(tokens);
                match self.term(tokens) {
                    Ok(rest) => Ok(Term::Div(Box::new(unary), Box::new(rest))),
                    Err(error) => Err(error),
                }
            },
            _ => Ok(Term::Unary(unary)),
        }
    }

    /// unary ::= ["+" | "-"] primary
    fn unary(&mut self, tokens: &Vec<Token>) -> (outcome: Result<Unary, CompileError>)
        ensures
            yields(
                parse_unary(tokens.deep_view(), old(self)@.position, old(self)@.scope.variables),
                old(self)@,
                outcome,
                final(self)@,
            ),
    {
        match self.peek(tokens) {
            Some(Token::PLUS) => {
                self.advance(tokens);
                match self.primary(tokens) {
                    Ok(operand) => {
                        let inner = Unary::Primary(operand);
                        assert(inner@ == UnaryView::Primary(operand@));
                        Ok(Unary::Positive(Box::new(inner)))
                    },
                    Err(error) => Err(error),
                }
            },
            Some(Token::MINUS) => {
                self.advance(tokens);
                match self.primary(tokens) {
                    Ok(operand) => {
                        let inner = Unary::Primary(operand);
                        assert(inner@ == UnaryView::Primary(operand@));
                        Ok(Unary::Negative(Box::new(inner)))
                    },
                    Err(error) => Err(error),
                }
            },
            _ => {
                match self.primary(tokens) {
                    Ok(operand) => Ok(Unary::Primary(operand)),
                    Err(error) => Err(error),
                }
            },
        }
    }

    /// primary ::= number | var
    fn primary(&mut self, tokens: &Vec<Token>) -> (outcome: Result<Primary, CompileError>)
        ensures
            yields(
                parse_primary(tokens.deep_view(), old(self)@.position, old(self)@.scope.variables),
                old(self)@,
                outcome,
                final(self)@,
            ),
    {
        match self.advance(tokens) {
            Some(Token::INTEGER(val)) => Ok(Primary::Integer(*val)),
            Some(Token::FLOAT(val)) => Ok(Primary::Float(val.clone())),
            Some(Token::VARIABLE(val)) => {
                if !self.variables.contains(val.as_str()) {
                    return Err(CompileError::UndeclaredVariable { name: val.clone() });
                }
                Ok(Primary::Variable(val.clone()))
            },
            found => Err(Self::mismatch(Expected::Operand, found)),
        }
    }
}

} // verus!
