//! What a tree spells: the tokens of each node, written out by the grammar,
//! and the law that a parse gives the tree that spells the tokens parsed,
//! blank lines aside.
use crate::ast::{
    ComparisonView, ExpressionView, PrimaryView, StatementView, TermView, UnaryView,
};
use crate::lexer::TokenView;
use crate::parser::{
    expect_identifier, lemma_block_advances, lemma_comparison_advances,
    lemma_expression_advances, lemma_statement_advances, lemma_term_advances, parse_block,
    parse_comparison, parse_compound, parse_condition, parse_expression, parse_statement,
    parse_statements, parse_term, parse_unary, relation, token_at, Block, Scope,
};
use vstd::prelude::*;

verus! {

/// `primary ::= INTEGER | FLOAT | ident`
pub open spec fn primary_tokens(primary: PrimaryView) -> Seq<TokenView> {
    match primary {
        PrimaryView::Integer(value) => seq![TokenView::INTEGER(value)],
        PrimaryView::Float(text) => seq![TokenView::FLOAT(text)],
        PrimaryView::Variable(name) => seq![TokenView::VARIABLE(name)],
    }
}

/// `unary ::= ["+" | "-"] primary`
pub open spec fn unary_tokens(unary: UnaryView) -> Seq<TokenView>
    decreases unary,
{
    match unary {
        UnaryView::Primary(primary) => primary_tokens(primary),
        UnaryView::Positive(inner) => seq![TokenView::PLUS] + unary_tokens(*inner),
        UnaryView::Negative(inner) => seq![TokenView::MINUS] + unary_tokens(*inner),
    }
}

/// `term ::= unary {("*" | "/") unary}`
pub open spec fn term_tokens(term: TermView) -> Seq<TokenView>
    decreases term,
{
    match term {
        TermView::Unary(unary) => unary_tokens(unary),
        TermView::Mul(left, right) => unary_tokens(*left) + seq![TokenView::ASTERISK]
            + term_tokens(*right),
        TermView::Div(left, right) => unary_tokens(*left) + seq![TokenView::SLASH] + term_tokens(
            *right,
        ),
    }
}

/// `expression ::= term {("+" | "-") term}`
pub open spec fn expression_tokens(expression: ExpressionView) -> Seq<TokenView>
    decreases expression,
{
    match expression {
        ExpressionView::Term(term) => term_tokens(term),
        ExpressionView::Add(left, right) => term_tokens(*left) + seq![TokenView::PLUS]
            + expression_tokens(*right),
        ExpressionView::Sub(left, right) => term_tokens(*left) + seq![TokenView::MINUS]
            + expression_tokens(*right),
    }
}

/// The relational operator with the spelling `operator`. A spelling of no
/// operator, which no tree from the parser holds, counts as `>=`.
pub open spec fn operator_token(operator: Seq<char>) -> TokenView {
    if operator == "=="@ {
        TokenView::EQEQ
    } else if operator == "!="@ {
        TokenView::NOTEQ
    } else if operator == "<"@ {
        TokenView::LT
    } else if operator == "<="@ {
        TokenView::LTEQ
    } else if operator == ">"@ {
        TokenView::GT
    } else {
        TokenView::GTEQ
    }
}

/// `comparison ::= expression (("==" | "!=" | ">" | ">=" | "<" | "<=") expression)*`
pub open spec fn comparison_tokens(comparison: ComparisonView) -> Seq<TokenView>
    decreases comparison,
{
    match comparison {
        ComparisonView::Left(expression) => expression_tokens(expression),
        ComparisonView::Right(expression, rest) => expression_tokens(expression)
            + comparison_tokens(*rest),
        ComparisonView::Compare(operator, rest) => seq![operator_token(operator)]
            + comparison_tokens(*rest),
    }
}

/// The tokens of a statement, and of a block: those of its statements in a
/// row.
pub open spec fn statement_tokens(statement: StatementView) -> Seq<TokenView>
    decreases statement,
{
    match statement {
        StatementView::Print(expression) => seq![TokenView::PRINT] + expression_tokens(expression)
            + seq![TokenView::NEWLINE],
        StatementView::PrintStr(text) => seq![
            TokenView::PRINT,
            TokenView::STRING(text),
            TokenView::NEWLINE,
        ],
        StatementView::Let(name, expression) => seq![
            TokenView::LET,
            TokenView::VARIABLE(name),
            TokenView::EQ,
        ] + expression_tokens(expression) + seq![TokenView::NEWLINE],
        StatementView::If(condition, body) => seq![TokenView::IF] + comparison_tokens(condition)
            + seq![TokenView::THEN, TokenView::NEWLINE] + statement_tokens(*body) + seq![
            TokenView::ENDIF,
            TokenView::NEWLINE,
        ],
        StatementView::While(condition, body) => seq![TokenView::WHILE] + comparison_tokens(
            condition,
        ) + seq![TokenView::REPEAT, TokenView::NEWLINE] + statement_tokens(*body) + seq![
            TokenView::ENDWHILE,
            TokenView::NEWLINE,
        ],
        StatementView::Label(name) => seq![
            TokenView::LABEL,
            TokenView::VARIABLE(name),
            TokenView::NEWLINE,
        ],
        StatementView::Goto(name) => seq![
            TokenView::GOTO,
            TokenView::VARIABLE(name),
            TokenView::NEWLINE,
        ],
        StatementView::Input(name) => seq![
            TokenView::INPUT,
            TokenView::VARIABLE(name),
            TokenView::NEWLINE,
        ],
        StatementView::Statement(first, rest) => statement_tokens(*first) + statement_tokens(*rest),
        StatementView::End => Seq::empty(),
    }
}

/// `program ::= {statement}`
pub open spec fn program_tokens(program: Seq<StatementView>) -> Seq<TokenView>
    decreases program.len(),
{
    if program.len() == 0 {
        Seq::empty()
    } else {
        statement_tokens(program.first()) + program_tokens(program.drop_first())
    }
}

/// The tokens without the blank lines: without each line break that
/// follows a line break, and, where `fresh` says that a line has just
/// begun, without those in front.
pub open spec fn without_blank_lines(tokens: Seq<TokenView>, fresh: bool) -> Seq<TokenView>
    decreases tokens.len(),
{
    if tokens.len() == 0 {
        tokens
    } else if tokens.first() == TokenView::NEWLINE {
        if fresh {
            without_blank_lines(tokens.drop_first(), true)
        } else {
            seq![TokenView::NEWLINE] + without_blank_lines(tokens.drop_first(), true)
        }
    } else {
        seq![tokens.first()] + without_blank_lines(tokens.drop_first(), false)
    }
}

/// Whether no token is a line break.
pub open spec fn on_one_line(tokens: Seq<TokenView>) -> bool {
    forall|i: int| 0 <= i < tokens.len() ==> #[trigger] tokens[i] != TokenView::NEWLINE
}

/// Whether a line has just begun behind `tokens`, that were begun as
/// `fresh` says.
pub open spec fn ends_fresh(tokens: Seq<TokenView>, fresh: bool) -> bool {
    if tokens.len() == 0 {
        fresh
    } else {
        tokens.last() == TokenView::NEWLINE
    }
}

/// Blank lines are taken out of a sequence piece by piece.
pub proof fn lemma_blank_lines_of_pieces(first: Seq<TokenView>, second: Seq<TokenView>, fresh: bool)
    ensures
        without_blank_lines(first + second, fresh) == without_blank_lines(first, fresh)
            + without_blank_lines(second, ends_fresh(first, fresh)),
    decreases first.len(),
{
    if first.len() == 0 {
        assert(first + second =~= second);
        assert(without_blank_lines(first, fresh) + without_blank_lines(second, fresh)
            =~= without_blank_lines(second, fresh));
    } else {
        let whole = first + second;
        assert(whole.first() == first.first());
        assert(whole.drop_first() =~= first.drop_first() + second);
        let next = !(first.first() != TokenView::NEWLINE);
        lemma_blank_lines_of_pieces(first.drop_first(), second, next);
        if first.len() == 1 {
            assert(first.drop_first().len() == 0);
            assert(ends_fresh(first.drop_first(), next) == ends_fresh(first, fresh));
        } else {
            assert(first.drop_first().last() == first.last());
        }
        assert(without_blank_lines(whole, fresh) =~= without_blank_lines(first, fresh)
            + without_blank_lines(second, ends_fresh(first, fresh)));
    }
}

/// Tokens on one line hold no blank line.
pub proof fn lemma_no_blank_line_on_one_line(tokens: Seq<TokenView>, fresh: bool)
    requires
        on_one_line(tokens),
    ensures
        without_blank_lines(tokens, fresh) == tokens,
    decreases tokens.len(),
{
    if tokens.len() > 0 {
        assert(tokens[0] != TokenView::NEWLINE);
        assert forall|i: int| 0 <= i < tokens.drop_first().len() implies #[trigger] tokens.drop_first()[i]
            != TokenView::NEWLINE by {
            assert(tokens.drop_first()[i] == tokens[i + 1]);
        }
        lemma_no_blank_line_on_one_line(tokens.drop_first(), false);
        assert(seq![tokens.first()] + tokens.drop_first() =~= tokens);
    }
}

/// A line that is not empty, with its line break, holds no blank line.
pub proof fn lemma_no_blank_line_in_a_line(line: Seq<TokenView>, fresh: bool)
    requires
        on_one_line(line),
        line.len() > 0,
    ensures
        without_blank_lines(line + seq![TokenView::NEWLINE], fresh) == line + seq![
            TokenView::NEWLINE,
        ],
{
    reveal_with_fuel(without_blank_lines, 2);
    let end = seq![TokenView::NEWLINE];
    lemma_blank_lines_of_pieces(line, end, fresh);
    lemma_no_blank_line_on_one_line(line, fresh);
    assert(line.last() != TokenView::NEWLINE);
    assert(end.drop_first() =~= Seq::<TokenView>::empty());
    assert(without_blank_lines(end, false) =~= end);
}

/// Each relational operator is the token of its spelling.
pub proof fn lemma_operator_of_spelling(token: TokenView)
    ensures
        relation(token) matches Some(operator) ==> operator_token(operator) == token,
{
    reveal_strlit("==");
    reveal_strlit("!=");
    reveal_strlit("<");
    reveal_strlit("<=");
    reveal_strlit(">");
    reveal_strlit(">=");
    match relation(token) {
        Some(operator) => {
            assert("=="@[0] == '=' && "!="@[0] == '!' && "<="@[0] == '<' && ">="@[0] == '>');
            assert("<"@.len() == 1 && ">"@.len() == 1 && "<="@.len() == 2 && ">="@.len() == 2);
            assert("<"@[0] == '<' && ">"@[0] == '>');
        },
        None => {},
    }
}

/// What it is for the tokens from `pos` to `end` to be those of a node,
/// all on one line.
pub open spec fn spells_line(
    tokens: Seq<TokenView>,
    pos: int,
    end: int,
    spelling: Seq<TokenView>,
) -> bool {
    &&& 0 <= pos < end <= tokens.len()
    &&& tokens.subrange(pos, end) == spelling
    &&& on_one_line(spelling)
}

proof fn lemma_join_lines(
    tokens: Seq<TokenView>,
    pos: int,
    mid: int,
    end: int,
    first: Seq<TokenView>,
    second: Seq<TokenView>,
)
    requires
        spells_line(tokens, pos, mid, first),
        mid < end <= tokens.len(),
        tokens[mid] != TokenView::NEWLINE,
        spells_line(tokens, mid + 1, end, second) || (mid + 1 == end && second.len() == 0),
    ensures
        spells_line(tokens, pos, end, first + seq![tokens[mid]] + second),
{
    let joined = first + seq![tokens[mid]] + second;
    assert(tokens.subrange(pos, end) =~= tokens.subrange(pos, mid) + seq![tokens[mid]]
        + tokens.subrange(mid + 1, end));
    assert(tokens.subrange(mid + 1, end) =~= second);
    assert forall|i: int| 0 <= i < joined.len() implies #[trigger] joined[i]
        != TokenView::NEWLINE by {
        if i < first.len() {
            assert(joined[i] == first[i]);
        } else if i > first.len() {
            assert(joined[i] == second[i - first.len() - 1]);
        }
    }
}

proof fn lemma_unary_spells(tokens: Seq<TokenView>, pos: int, variables: Set<Seq<char>>)
    ensures
        parse_unary(tokens, pos, variables) matches Ok((unary, end)) ==> spells_line(
            tokens,
            pos,
            end,
            unary_tokens(unary),
        ),
{
    reveal_with_fuel(unary_tokens, 3);
    if let Ok((unary, end)) = parse_unary(tokens, pos, variables) {
        assert(tokens.subrange(pos, end) =~= unary_tokens(unary));
    }
}

proof fn lemma_term_spells(tokens: Seq<TokenView>, pos: int, variables: Set<Seq<char>>)
    ensures
        parse_term(tokens, pos, variables) matches Ok((term, end)) ==> spells_line(
            tokens,
            pos,
            end,
            term_tokens(term),
        ),
    decreases tokens.len() - pos,
{
    lemma_unary_spells(tokens, pos, variables);
    lemma_term_advances(tokens, pos, variables);
    if let Ok((left, next)) = parse_unary(tokens, pos, variables) {
        if let Ok((term, end)) = parse_term(tokens, pos, variables) {
            match token_at(tokens, next) {
                Some(TokenView::ASTERISK) | Some(TokenView::SLASH) => {
                    lemma_term_spells(tokens, next + 1, variables);
                    lemma_term_advances(tokens, next + 1, variables);
                    let right = parse_term(tokens, next + 1, variables)->Ok_0.0;
                    lemma_join_lines(
                        tokens,
                        pos,
                        next,
                        end,
                        unary_tokens(left),
                        term_tokens(right),
                    );
                },
                _ => {},
            }
        }
    }
}

proof fn lemma_expression_spells(tokens: Seq<TokenView>, pos: int, variables: Set<Seq<char>>)
    ensures
        parse_expression(tokens, pos, variables) matches Ok((expression, end)) ==> spells_line(
            tokens,
            pos,
            end,
            expression_tokens(expression),
        ),
    decreases tokens.len() - pos,
{
    lemma_term_spells(tokens, pos, variables);
    lemma_expression_advances(tokens, pos, variables);
    if let Ok((left, next)) = parse_term(tokens, pos, variables) {
        if let Ok((expression, end)) = parse_expression(tokens, pos, variables) {
            match token_at(tokens, next) {
                Some(TokenView::PLUS) | Some(TokenView::MINUS) => {
                    lemma_expression_spells(tokens, next + 1, variables);
                    lemma_expression_advances(tokens, next + 1, variables);
                    let right = parse_expression(tokens, next + 1, variables)->Ok_0.0;
                    lemma_join_lines(
                        tokens,
                        pos,
                        next,
                        end,
                        term_tokens(left),
                        expression_tokens(right),
                    );
                },
                _ => {},
            }
        }
    }
}

proof fn lemma_comparison_spells(tokens: Seq<TokenView>, pos: int, variables: Set<Seq<char>>)
    ensures
        parse_comparison(tokens, pos, variables) matches Ok((comparison, end)) ==> spells_line(
            tokens,
            pos,
            end,
            comparison_tokens(comparison),
        ),
    decreases tokens.len() - pos,
{
    reveal_with_fuel(comparison_tokens, 3);
    lemma_expression_spells(tokens, pos, variables);
    lemma_comparison_advances(tokens, pos, variables);
    if let Ok((left, next)) = parse_expression(tokens, pos, variables) {
        if let Ok((comparison, end)) = parse_comparison(tokens, pos, variables) {
            if token_at(tokens, next) is Some && relation(tokens[next]) is Some {
                lemma_comparison_spells(tokens, next + 1, variables);
                lemma_comparison_advances(tokens, next + 1, variables);
                lemma_operator_of_spelling(tokens[next]);
                let rest = parse_comparison(tokens, next + 1, variables)->Ok_0.0;
                lemma_join_lines(
                    tokens,
                    pos,
                    next,
                    end,
                    expression_tokens(left),
                    comparison_tokens(rest),
                );
                assert(comparison_tokens(comparison) =~= expression_tokens(left) + seq![
                    tokens[next],
                ] + comparison_tokens(rest));
            }
        }
    }
}

/// What it is for the tokens from `pos` to `end` to be those of a
/// statement or block, blank lines aside: taking the blank lines out leaves
/// the spelling, and a line has just begun at `end`.
pub open spec fn spells(
    tokens: Seq<TokenView>,
    pos: int,
    end: int,
    spelling: Seq<TokenView>,
) -> bool {
    &&& 0 <= pos <= end <= tokens.len()
    &&& without_blank_lines(tokens.subrange(pos, end), true) == spelling
    &&& pos < end ==> tokens[end - 1] == TokenView::NEWLINE
}

/// A keyword, the rest of its line and the line break are a statement of
/// one line.
proof fn lemma_line_spells(tokens: Seq<TokenView>, pos: int, end: int, line: Seq<TokenView>)
    requires
        spells_line(tokens, pos, end - 1, line),
        end <= tokens.len(),
        tokens[end - 1] == TokenView::NEWLINE,
    ensures
        spells(tokens, pos, end, line + seq![TokenView::NEWLINE]),
{
    assert(tokens.subrange(pos, end) =~= line + seq![TokenView::NEWLINE]);
    lemma_no_blank_line_in_a_line(line, true);
}

/// Two pieces in a row spell what each spells.
proof fn lemma_spells_in_a_row(
    tokens: Seq<TokenView>,
    pos: int,
    mid: int,
    end: int,
    first: Seq<TokenView>,
    second: Seq<TokenView>,
)
    requires
        spells(tokens, pos, mid, first),
        spells(tokens, mid, end, second),
        pos < mid,
    ensures
        spells(tokens, pos, end, first + second),
{
    assert(tokens.subrange(pos, end) =~= tokens.subrange(pos, mid) + tokens.subrange(mid, end));
    lemma_blank_lines_of_pieces(tokens.subrange(pos, mid), tokens.subrange(mid, end), true);
    assert(tokens.subrange(pos, mid).last() == tokens[mid - 1]);
}

/// A statement that parses spells the tokens that it was parsed from,
/// blank lines aside.
pub proof fn lemma_statement_spells(tokens: Seq<TokenView>, pos: int, scope: Scope)
    ensures
        parse_statement(tokens, pos, scope) matches Ok((statement, end, _)) ==> pos < end
            && spells(tokens, pos, end, statement_tokens(statement)),
    decreases tokens.len() - pos, 0int,
{
    lemma_statement_advances(tokens, pos, scope);
    if let Ok((statement, end, _)) = parse_statement(tokens, pos, scope) {
        let start = pos + 1;
        match token_at(tokens, pos) {
            Some(TokenView::NEWLINE) => {
                lemma_statement_spells(tokens, start, scope);
                let range = tokens.subrange(pos, end);
                assert(range.first() == TokenView::NEWLINE);
                assert(range.drop_first() =~= tokens.subrange(start, end));
            },
            Some(TokenView::PRINT) => {
                match token_at(tokens, start) {
                    Some(TokenView::STRING(text)) => {
                        let line = seq![TokenView::PRINT, TokenView::STRING(text)];
                        assert(tokens.subrange(pos, end - 1) =~= line);
                        lemma_line_spells(tokens, pos, end, line);
                        assert(line + seq![TokenView::NEWLINE] =~= statement_tokens(statement));
                    },
                    _ => {
                        lemma_expression_spells(tokens, start, scope.variables);
                        let value = parse_expression(tokens, start, scope.variables)->Ok_0.0;
                        let line = seq![TokenView::PRINT] + expression_tokens(value);
                        assert(tokens.subrange(pos, end - 1) =~= seq![TokenView::PRINT]
                            + tokens.subrange(start, end - 1));
                        lemma_line_spells(tokens, pos, end, line);
                    },
                }
            },
            Some(TokenView::IF) => lemma_compound_spells(tokens, start, scope, Block::If),
            Some(TokenView::WHILE) => lemma_compound_spells(tokens, start, scope, Block::While),
            Some(TokenView::LABEL) => {
                let name = expect_identifier(tokens, start)->Ok_0.0;
                let line = seq![TokenView::LABEL, TokenView::VARIABLE(name)];
                assert(tokens.subrange(pos, end - 1) =~= line);
                lemma_line_spells(tokens, pos, end, line);
                assert(line + seq![TokenView::NEWLINE] =~= statement_tokens(statement));
            },
            Some(TokenView::GOTO) => {
                let name = expect_identifier(tokens, start)->Ok_0.0;
                let line = seq![TokenView::GOTO, TokenView::VARIABLE(name)];
                assert(tokens.subrange(pos, end - 1) =~= line);
                lemma_line_spells(tokens, pos, end, line);
                assert(line + seq![TokenView::NEWLINE] =~= statement_tokens(statement));
            },
            Some(TokenView::INPUT) => {
                let name = expect_identifier(tokens, start)->Ok_0.0;
                let line = seq![TokenView::INPUT, TokenView::VARIABLE(name)];
                assert(tokens.subrange(pos, end - 1) =~= line);
                lemma_line_spells(tokens, pos, end, line);
                assert(line + seq![TokenView::NEWLINE] =~= statement_tokens(statement));
            },
            Some(TokenView::LET) => {
                let name = expect_identifier(tokens, start)->Ok_0.0;
                let variables = scope.variables.insert(name);
                lemma_expression_spells(tokens, start + 2, variables);
                let value = parse_expression(tokens, start + 2, variables)->Ok_0.0;
                let head = seq![TokenView::LET, TokenView::VARIABLE(name), TokenView::EQ];
                let line = head + expression_tokens(value);
                assert(tokens.subrange(pos, end - 1) =~= head + tokens.subrange(
                    start + 2,
                    end - 1,
                ));
                lemma_line_spells(tokens, pos, end, line);
            },
            _ => {},
        }
    }
}

/// See [`lemma_statement_spells`]; `pos` is the index behind the keyword
/// `IF` or `WHILE`.
proof fn lemma_compound_spells(tokens: Seq<TokenView>, pos: int, scope: Scope, block: Block)
    requires
        0 < pos <= tokens.len(),
        tokens[pos - 1] == (match block {
            Block::If => TokenView::IF,
            Block::While => TokenView::WHILE,
        }),
    ensures
        parse_compound(tokens, pos, scope, block) matches Ok((statement, end, _)) ==> spells(
            tokens,
            pos - 1,
            end,
            statement_tokens(statement),
        ),
    decreases tokens.len() - pos, 2int,
{
    lemma_comparison_advances(tokens, pos, scope.variables);
    lemma_comparison_spells(tokens, pos, scope.variables);
    if let Ok((statement, end, _)) = parse_compound(tokens, pos, scope, block) {
        let (condition, start) = parse_condition(tokens, pos, scope.variables, block)->Ok_0;
        lemma_block_advances(tokens, start, scope, block);
        lemma_block_spells(tokens, start, scope, block);
        let (body, close, _) = parse_block(tokens, start, scope, block)->Ok_0;
        let head = seq![tokens[pos - 1]] + comparison_tokens(condition) + seq![tokens[start - 2]];
        assert(tokens.subrange(pos - 1, start - 1) =~= seq![tokens[pos - 1]] + tokens.subrange(
            pos,
            start - 2,
        ) + seq![tokens[start - 2]]);
        assert forall|i: int| 0 <= i < head.len() implies #[trigger] head[i]
            != TokenView::NEWLINE by {
            if 0 < i < head.len() - 1 {
                assert(head[i] == comparison_tokens(condition)[i - 1]);
            }
        }
        lemma_line_spells(tokens, pos - 1, start, head);
        let foot = seq![block.closing()];
        assert(tokens.subrange(close, end - 1) =~= foot);
        lemma_line_spells(tokens, close, end, foot);
        lemma_spells_in_a_row(
            tokens,
            pos - 1,
            start,
            close,
            head + seq![TokenView::NEWLINE],
            statement_tokens(body),
        );
        lemma_spells_in_a_row(
            tokens,
            pos - 1,
            close,
            end,
            head + seq![TokenView::NEWLINE] + statement_tokens(body),
            foot + seq![TokenView::NEWLINE],
        );
        assert(head + seq![TokenView::NEWLINE] + statement_tokens(body) + (foot + seq![
            TokenView::NEWLINE,
        ]) =~= statement_tokens(statement));
    }
}

/// See [`lemma_statement_spells`]; a block ends in front of the keyword
/// that closes it.
proof fn lemma_block_spells(tokens: Seq<TokenView>, pos: int, scope: Scope, block: Block)
    requires
        0 < pos,
        tokens[pos - 1] == TokenView::NEWLINE,
    ensures
        parse_block(tokens, pos, scope, block) matches Ok((body, close, _)) ==> spells(
            tokens,
            pos,
            close,
            statement_tokens(body),
        ),
    decreases tokens.len() - pos, 1int,
{
    lemma_block_advances(tokens, pos, scope, block);
    if let Ok((body, close, _)) = parse_block(tokens, pos, scope, block) {
        if token_at(tokens, pos) == Some(block.closing()) {
            assert(tokens.subrange(pos, close) =~= Seq::<TokenView>::empty());
        } else {
            lemma_statement_spells(tokens, pos, scope);
            let (first, next, gathered) = parse_statement(tokens, pos, scope)->Ok_0;
            lemma_block_spells(tokens, next, gathered, block);
            let rest = parse_block(tokens, next, gathered, block)->Ok_0.0;
            lemma_spells_in_a_row(
                tokens,
                pos,
                next,
                close,
                statement_tokens(first),
                statement_tokens(rest),
            );
        }
    }
}

/// The statements parsed from `pos` to the end spell the tokens from `pos`
/// on, blank lines aside.
pub proof fn lemma_statements_spell(tokens: Seq<TokenView>, pos: int, scope: Scope)
    requires
        0 <= pos <= tokens.len(),
    ensures
        parse_statements(tokens, pos, scope) matches Ok((program, _)) ==> spells(
            tokens,
            pos,
            tokens.len() as int,
            program_tokens(program),
        ),
    decreases tokens.len() - pos,
{
    if pos < tokens.len() {
        lemma_statement_advances(tokens, pos, scope);
        lemma_statement_spells(tokens, pos, scope);
        if let Ok((first, next, gathered)) = parse_statement(tokens, pos, scope) {
            lemma_statements_spell(tokens, next, gathered);
            if let Ok((rest, _)) = parse_statements(tokens, next, gathered) {
                let program = seq![first] + rest;
                assert(program.first() == first);
                assert(program.drop_first() =~= rest);
                lemma_spells_in_a_row(
                    tokens,
                    pos,
                    next,
                    tokens.len() as int,
                    statement_tokens(first),
                    program_tokens(rest),
                );
            }
        }
    } else {
        assert(tokens.subrange(pos, tokens.len() as int) =~= Seq::<TokenView>::empty());
    }
}

/// The tree spells the tokens.
///
/// Where tokens parse as a program, whatever the names known before, the
/// tokens of the program's statements, written out by the grammar one
/// statement after the other, are the tokens parsed without their blank
/// lines.
pub proof fn lemma_program_spells(tokens: Seq<TokenView>, scope: Scope)
    ensures
        parse_statements(tokens, 0, scope) matches Ok((program, _)) ==> without_blank_lines(
            tokens,
            true,
        ) == program_tokens(program),
{
    lemma_statements_spell(tokens, 0, scope);
    assert(tokens.subrange(0, tokens.len() as int) =~= tokens);
}

} // verus!
