//! Names resolve: in a program that parses, every variable that is read or
//! written is among the variables gathered, every label jumped to is
//! declared somewhere in the program, and no label is declared twice. A
//! variable that is read where it is not declared stops the parse there.
use crate::ast::{
    ComparisonView, ExpressionView, PrimaryView, StatementView, TermView, UnaryView,
};
use crate::error::CompileErrorView;
use crate::lexer::TokenView;
use crate::parser::{
    expect_identifier, first_undeclared, lemma_comparison_advances, lemma_expression_advances,
    lemma_statement_advances, lemma_term_advances, parse_block, parse_comparison, parse_compound,
    parse_condition, parse_expression, parse_primary, parse_program, parse_statement,
    parse_statements, parse_term, parse_unary, token_at, Block, Halt, Scope, Stop,
};
use vstd::prelude::*;

verus! {

/// The variables whose names a primary writes.
pub open spec fn primary_mentions(primary: PrimaryView) -> Set<Seq<char>> {
    match primary {
        PrimaryView::Variable(name) => set![name],
        _ => Set::empty(),
    }
}

/// The variables whose names a unary writes.
pub open spec fn unary_mentions(unary: UnaryView) -> Set<Seq<char>>
    decreases unary,
{
    match unary {
        UnaryView::Primary(primary) => primary_mentions(primary),
        UnaryView::Positive(inner) => unary_mentions(*inner),
        UnaryView::Negative(inner) => unary_mentions(*inner),
    }
}

/// The variables whose names a term writes.
pub open spec fn term_mentions(term: TermView) -> Set<Seq<char>>
    decreases term,
{
    match term {
        TermView::Unary(unary) => unary_mentions(unary),
        TermView::Mul(left, right) => unary_mentions(*left).union(term_mentions(*right)),
        TermView::Div(left, right) => unary_mentions(*left).union(term_mentions(*right)),
    }
}

/// The variables whose names an expression writes.
pub open spec fn expression_mentions(expression: ExpressionView) -> Set<Seq<char>>
    decreases expression,
{
    match expression {
        ExpressionView::Term(term) => term_mentions(term),
        ExpressionView::Add(left, right) => term_mentions(*left).union(
            expression_mentions(*right),
        ),
        ExpressionView::Sub(left, right) => term_mentions(*left).union(
            expression_mentions(*right),
        ),
    }
}

/// The variables whose names a comparison writes.
pub open spec fn comparison_mentions(comparison: ComparisonView) -> Set<Seq<char>>
    decreases comparison,
{
    match comparison {
        ComparisonView::Left(expression) => expression_mentions(expression),
        ComparisonView::Right(expression, rest) => expression_mentions(expression).union(
            comparison_mentions(*rest),
        ),
        ComparisonView::Compare(_, rest) => comparison_mentions(*rest),
    }
}

/// The variables whose names the translation of a statement writes: those
/// it reads, and the targets of `LET` and `INPUT`.
pub open spec fn statement_mentions(statement: StatementView) -> Set<Seq<char>>
    decreases statement,
{
    match statement {
        StatementView::Print(expression) => expression_mentions(expression),
        StatementView::PrintStr(_) => Set::empty(),
        StatementView::Let(name, expression) => set![name].union(expression_mentions(expression)),
        StatementView::If(condition, body) => comparison_mentions(condition).union(
            statement_mentions(*body),
        ),
        StatementView::While(condition, body) => comparison_mentions(condition).union(
            statement_mentions(*body),
        ),
        StatementView::Label(_) => Set::empty(),
        StatementView::Goto(_) => Set::empty(),
        StatementView::Input(name) => set![name],
        StatementView::Statement(first, rest) => statement_mentions(*first).union(
            statement_mentions(*rest),
        ),
        StatementView::End => Set::empty(),
    }
}

/// The variables that the statements of a program mention.
pub open spec fn program_mentions(program: Seq<StatementView>) -> Set<Seq<char>>
    decreases program.len(),
{
    if program.len() == 0 {
        Set::empty()
    } else {
        program_mentions(program.drop_last()).union(statement_mentions(program.last()))
    }
}

/// The labels that a statement declares, itself or in its body.
pub open spec fn statement_labels(statement: StatementView) -> Set<Seq<char>>
    decreases statement,
{
    match statement {
        StatementView::Label(name) => set![name],
        StatementView::If(_, body) => statement_labels(*body),
        StatementView::While(_, body) => statement_labels(*body),
        StatementView::Statement(first, rest) => statement_labels(*first).union(
            statement_labels(*rest),
        ),
        _ => Set::empty(),
    }
}

/// The labels that a statement jumps to, itself or in its body.
pub open spec fn statement_gotos(statement: StatementView) -> Set<Seq<char>>
    decreases statement,
{
    match statement {
        StatementView::Goto(name) => set![name],
        StatementView::If(_, body) => statement_gotos(*body),
        StatementView::While(_, body) => statement_gotos(*body),
        StatementView::Statement(first, rest) => statement_gotos(*first).union(
            statement_gotos(*rest),
        ),
        _ => Set::empty(),
    }
}

/// The labels that the statements of a program declare.
pub open spec fn program_labels(program: Seq<StatementView>) -> Set<Seq<char>>
    decreases program.len(),
{
    if program.len() == 0 {
        Set::empty()
    } else {
        program_labels(program.drop_last()).union(statement_labels(program.last()))
    }
}

/// The labels that the statements of a program jump to.
pub open spec fn program_gotos(program: Seq<StatementView>) -> Set<Seq<char>>
    decreases program.len(),
{
    if program.len() == 0 {
        Set::empty()
    } else {
        program_gotos(program.drop_last()).union(statement_gotos(program.last()))
    }
}

/// How the names gathered behind a piece of program relate to those in
/// front of it: they are those from before and those of the piece.
pub open spec fn gathers(
    before: Scope,
    after: Scope,
    mentioned: Set<Seq<char>>,
    labels: Set<Seq<char>>,
    gotos: Set<Seq<char>>,
) -> bool {
    &&& after.variables == before.variables.union(mentioned)
    &&& after.labels_declared == before.labels_declared.union(labels)
    &&& after.labels_gotoed.to_set() == before.labels_gotoed.to_set().union(gotos)
}

proof fn lemma_term_resolves(tokens: Seq<TokenView>, pos: int, variables: Set<Seq<char>>)
    ensures
        parse_term(tokens, pos, variables) matches Ok((term, _)) ==> term_mentions(
            term,
        ).subset_of(variables),
    decreases tokens.len() - pos,
{
    reveal_with_fuel(unary_mentions, 3);
    if let Ok((_, next)) = parse_unary(tokens, pos, variables) {
        if token_at(tokens, next) is Some {
            lemma_term_resolves(tokens, next + 1, variables);
        }
    }
}

proof fn lemma_expression_resolves(tokens: Seq<TokenView>, pos: int, variables: Set<Seq<char>>)
    ensures
        parse_expression(tokens, pos, variables) matches Ok((expression, _))
            ==> expression_mentions(expression).subset_of(variables),
    decreases tokens.len() - pos,
{
    lemma_term_advances(tokens, pos, variables);
    lemma_term_resolves(tokens, pos, variables);
    if let Ok((_, next)) = parse_term(tokens, pos, variables) {
        if token_at(tokens, next) is Some {
            lemma_expression_resolves(tokens, next + 1, variables);
        }
    }
}

proof fn lemma_comparison_resolves(tokens: Seq<TokenView>, pos: int, variables: Set<Seq<char>>)
    ensures
        parse_comparison(tokens, pos, variables) matches Ok((comparison, _))
            ==> comparison_mentions(comparison).subset_of(variables),
    decreases tokens.len() - pos,
{
    reveal_with_fuel(comparison_mentions, 3);
    lemma_expression_advances(tokens, pos, variables);
    lemma_expression_resolves(tokens, pos, variables);
    if let Ok((_, next)) = parse_expression(tokens, pos, variables) {
        if token_at(tokens, next) is Some {
            lemma_comparison_resolves(tokens, next + 1, variables);
        }
    }
}

/// What a statement that parses does to the names.
pub proof fn lemma_statement_resolves(tokens: Seq<TokenView>, pos: int, scope: Scope)
    ensures
        parse_statement(tokens, pos, scope) matches Ok((statement, _, gathered)) ==> gathers(
            scope,
            gathered,
            statement_mentions(statement),
            statement_labels(statement),
            statement_gotos(statement),
        ),
    decreases tokens.len() - pos, 0int,
{
    match token_at(tokens, pos) {
        Some(TokenView::NEWLINE) => lemma_statement_resolves(tokens, pos + 1, scope),
        Some(TokenView::PRINT) => {
            lemma_expression_resolves(tokens, pos + 1, scope.variables);
            lemma_unchanged_gathers(scope);
            if let Ok((statement, _, _)) = parse_statement(tokens, pos, scope) {
                assert(scope.variables =~= scope.variables.union(statement_mentions(statement)));
            }
        },
        Some(TokenView::IF) => lemma_compound_resolves(tokens, pos + 1, scope, Block::If),
        Some(TokenView::WHILE) => lemma_compound_resolves(tokens, pos + 1, scope, Block::While),
        Some(TokenView::LABEL) => {
            if let Ok((name, _)) = expect_identifier(tokens, pos + 1) {
                lemma_unchanged_gathers(scope);
                assert(scope.labels_declared.insert(name) =~= scope.labels_declared.union(
                    set![name],
                ));
            }
        },
        Some(TokenView::GOTO) => {
            if let Ok((name, _)) = expect_identifier(tokens, pos + 1) {
                lemma_unchanged_gathers(scope);
                let after = scope.refer_to_label(name);
                scope.labels_gotoed.lemma_push_to_set_commute(name);
                assert(scope.labels_gotoed.to_set().insert(name)
                    =~= scope.labels_gotoed.to_set().union(set![name]));
                assert(after.labels_gotoed.to_set() =~= scope.labels_gotoed.to_set().union(
                    set![name],
                ));
            }
        },
        Some(TokenView::LET) => {
            if let Ok((name, next)) = expect_identifier(tokens, pos + 1) {
                lemma_expression_resolves(tokens, next + 1, scope.variables.insert(name));
                lemma_unchanged_gathers(scope);
                if let Ok((statement, _, _)) = parse_statement(tokens, pos, scope) {
                    assert(scope.variables.insert(name) =~= scope.variables.union(
                        statement_mentions(statement),
                    ));
                }
            }
        },
        Some(TokenView::INPUT) => {
            lemma_unchanged_gathers(scope);
            if let Ok((name, _)) = expect_identifier(tokens, pos + 1) {
                assert(scope.variables.insert(name) =~= scope.variables.union(set![name]));
            }
        },
        _ => {},
    }
}

/// A scope gathers nothing from nothing.
proof fn lemma_unchanged_gathers(scope: Scope)
    ensures
        gathers(scope, scope, Set::empty(), Set::empty(), Set::empty()),
        scope.variables.union(Set::empty()) == scope.variables,
        scope.labels_declared.union(Set::empty()) == scope.labels_declared,
        scope.labels_gotoed.to_set().union(Set::empty()) == scope.labels_gotoed.to_set(),
{
    assert(scope.variables.union(Set::empty()) =~= scope.variables);
    assert(scope.labels_declared.union(Set::empty()) =~= scope.labels_declared);
    assert(scope.labels_gotoed.to_set().union(Set::empty()) =~= scope.labels_gotoed.to_set());
}

/// Two pieces of program in a row gather what each gathers.
proof fn lemma_gathers_in_a_row(
    before: Scope,
    between: Scope,
    after: Scope,
    first_mentioned: Set<Seq<char>>,
    first_labels: Set<Seq<char>>,
    first_gotos: Set<Seq<char>>,
    second_mentioned: Set<Seq<char>>,
    second_labels: Set<Seq<char>>,
    second_gotos: Set<Seq<char>>,
)
    requires
        gathers(before, between, first_mentioned, first_labels, first_gotos),
        gathers(between, after, second_mentioned, second_labels, second_gotos),
    ensures
        gathers(
            before,
            after,
            first_mentioned.union(second_mentioned),
            first_labels.union(second_labels),
            first_gotos.union(second_gotos),
        ),
{
    assert(after.variables =~= before.variables.union(first_mentioned.union(second_mentioned)));
    assert(after.labels_declared =~= before.labels_declared.union(
        first_labels.union(second_labels),
    ));
    assert(after.labels_gotoed.to_set() =~= before.labels_gotoed.to_set().union(
        first_gotos.union(second_gotos),
    ));
}

proof fn lemma_compound_resolves(tokens: Seq<TokenView>, pos: int, scope: Scope, block: Block)
    ensures
        parse_compound(tokens, pos, scope, block) matches Ok((statement, _, gathered)) ==> gathers(
            scope,
            gathered,
            statement_mentions(statement),
            statement_labels(statement),
            statement_gotos(statement),
        ),
    decreases tokens.len() - pos, 2int,
{
    lemma_comparison_advances(tokens, pos, scope.variables);
    lemma_comparison_resolves(tokens, pos, scope.variables);
    if let Ok((condition, start)) = parse_condition(tokens, pos, scope.variables, block) {
        lemma_block_resolves(tokens, start, scope, block);
        if let Ok((body, _, after)) = parse_block(tokens, start, scope, block) {
            assert(after.variables =~= scope.variables.union(
                comparison_mentions(condition).union(statement_mentions(body)),
            ));
        }
    }
}

proof fn lemma_block_resolves(tokens: Seq<TokenView>, pos: int, scope: Scope, block: Block)
    ensures
        parse_block(tokens, pos, scope, block) matches Ok((statement, _, gathered)) ==> gathers(
            scope,
            gathered,
            statement_mentions(statement),
            statement_labels(statement),
            statement_gotos(statement),
        ),
    decreases tokens.len() - pos, 1int,
{
    if token_at(tokens, pos) == Some(block.closing()) {
        lemma_unchanged_gathers(scope);
    } else {
        lemma_statement_resolves(tokens, pos, scope);
        if let Ok((first, next, between)) = parse_statement(tokens, pos, scope) {
            if pos < next <= tokens.len() {
                lemma_block_resolves(tokens, next, between, block);
                if let Ok((rest, _, after)) = parse_block(tokens, next, between, block) {
                    lemma_gathers_in_a_row(
                        scope,
                        between,
                        after,
                        statement_mentions(first),
                        statement_labels(first),
                        statement_gotos(first),
                        statement_mentions(rest),
                        statement_labels(rest),
                        statement_gotos(rest),
                    );
                }
            }
        }
    }
}

/// The labels of the first of a sequence of statements in front of those
/// of the others, and the same for the mentions and the jumps.
proof fn lemma_program_first(first: StatementView, rest: Seq<StatementView>)
    ensures
        program_mentions(seq![first] + rest) == statement_mentions(first).union(
            program_mentions(rest),
        ),
        program_labels(seq![first] + rest) == statement_labels(first).union(program_labels(rest)),
        program_gotos(seq![first] + rest) == statement_gotos(first).union(program_gotos(rest)),
    decreases rest.len(),
{
    let all = seq![first] + rest;
    if rest.len() == 0 {
        assert(all.drop_last() =~= Seq::<StatementView>::empty());
        assert(all.last() == first);
        assert(program_mentions(all.drop_last()) =~= Set::<Seq<char>>::empty());
        assert(program_labels(all.drop_last()) =~= Set::<Seq<char>>::empty());
        assert(program_gotos(all.drop_last()) =~= Set::<Seq<char>>::empty());
    } else {
        assert(all.drop_last() =~= seq![first] + rest.drop_last());
        assert(all.last() == rest.last());
        lemma_program_first(first, rest.drop_last());
    }
    assert(program_mentions(all) =~= statement_mentions(first).union(program_mentions(rest)));
    assert(program_labels(all) =~= statement_labels(first).union(program_labels(rest)));
    assert(program_gotos(all) =~= statement_gotos(first).union(program_gotos(rest)));
}

/// What statements that parse do to the names.
pub proof fn lemma_statements_resolve(tokens: Seq<TokenView>, pos: int, scope: Scope)
    ensures
        parse_statements(tokens, pos, scope) matches Ok((program, gathered)) ==> gathers(
            scope,
            gathered,
            program_mentions(program),
            program_labels(program),
            program_gotos(program),
        ),
    decreases tokens.len() - pos,
{
    if 0 <= pos < tokens.len() {
        lemma_statement_advances(tokens, pos, scope);
        lemma_statement_resolves(tokens, pos, scope);
        if let Ok((first, next, between)) = parse_statement(tokens, pos, scope) {
            lemma_statements_resolve(tokens, next, between);
            if let Ok((rest, after)) = parse_statements(tokens, next, between) {
                lemma_program_first(first, rest);
                lemma_gathers_in_a_row(
                    scope,
                    between,
                    after,
                    statement_mentions(first),
                    statement_labels(first),
                    statement_gotos(first),
                    program_mentions(rest),
                    program_labels(rest),
                    program_gotos(rest),
                );
            }
        }
    } else {
        lemma_unchanged_gathers(scope);
    }
}

/// No label is found undeclared exactly where all are declared.
pub proof fn lemma_first_undeclared(gotoed: Seq<Seq<char>>, declared: Set<Seq<char>>)
    ensures
        match first_undeclared(gotoed, declared) {
            Some(name) => gotoed.contains(name) && !declared.contains(name),
            None => gotoed.to_set().subset_of(declared),
        },
    decreases gotoed.len(),
{
    if gotoed.len() > 0 {
        lemma_first_undeclared(gotoed.drop_first(), declared);
        if declared.contains(gotoed.first()) {
            match first_undeclared(gotoed.drop_first(), declared) {
                Some(name) => {
                    let k = choose|k: int|
                        0 <= k < gotoed.drop_first().len() && gotoed.drop_first()[k] == name;
                    assert(gotoed[k + 1] == name);
                },
                None => {
                    assert forall|name: Seq<char>| gotoed.to_set().contains(name) implies declared.contains(
                        name,
                    ) by {
                        let k = choose|k: int| 0 <= k < gotoed.len() && gotoed[k] == name;
                        if k > 0 {
                            assert(gotoed.drop_first()[k - 1] == name);
                            assert(gotoed.drop_first().to_set().contains(name));
                        }
                    }
                },
            }
        } else {
            assert(gotoed[0] == gotoed.first());
        }
    }
}

/// Every name resolves.
///
/// Let `tokens` parse as a program, from no names at all. Then the
/// variables gathered are those that the program mentions, so every
/// variable read is one that a `LET` or `INPUT` introduced; the labels
/// gathered are those that the program declares; and every label that the
/// program jumps to is one that it declares.
pub proof fn lemma_names_resolve(tokens: Seq<TokenView>)
    requires
        parse_program(tokens, Scope::empty()) is Ok,
    ensures
        ({
            let (program, scope) = parse_program(tokens, Scope::empty())->Ok_0;
            &&& scope.variables == program_mentions(program)
            &&& scope.labels_declared == program_labels(program)
            &&& scope.labels_gotoed.to_set() == program_gotos(program)
            &&& program_gotos(program).subset_of(program_labels(program))
        }),
{
    let (program, scope) = parse_program(tokens, Scope::empty())->Ok_0;
    lemma_statements_resolve(tokens, 0, Scope::empty());
    lemma_first_undeclared(scope.labels_gotoed, scope.labels_declared);
    assert(Scope::empty().labels_gotoed.to_set() =~= Set::<Seq<char>>::empty());
    assert(scope.variables =~= program_mentions(program));
    assert(scope.labels_declared =~= program_labels(program));
    assert(scope.labels_gotoed.to_set() =~= program_gotos(program));
}

/// The labels that a statement declares, itself or in its body, one entry
/// for each `LABEL`, in the order of the text.
pub open spec fn statement_label_list(statement: StatementView) -> Seq<Seq<char>>
    decreases statement,
{
    match statement {
        StatementView::Label(name) => seq![name],
        StatementView::If(_, body) => statement_label_list(*body),
        StatementView::While(_, body) => statement_label_list(*body),
        StatementView::Statement(first, rest) => statement_label_list(*first)
            + statement_label_list(*rest),
        _ => Seq::empty(),
    }
}

/// The labels that the statements of a program declare, one entry for each
/// `LABEL`, in the order of the text.
pub open spec fn program_label_list(program: Seq<StatementView>) -> Seq<Seq<char>>
    decreases program.len(),
{
    if program.len() == 0 {
        Seq::empty()
    } else {
        statement_label_list(program.first()) + program_label_list(program.drop_first())
    }
}

/// What it is for a piece of program to declare the labels `list`, each
/// once, none of them declared `before`, so that `after` it those and the
/// earlier ones are declared.
pub open spec fn labels_once(
    before: Set<Seq<char>>,
    after: Set<Seq<char>>,
    list: Seq<Seq<char>>,
) -> bool {
    &&& list.no_duplicates()
    &&& forall|i: int| 0 <= i < list.len() ==> !before.contains(#[trigger] list[i])
    &&& after == before.union(list.to_set())
}

proof fn lemma_no_labels(declared: Set<Seq<char>>)
    ensures
        labels_once(declared, declared, Seq::empty()),
{
    assert(Seq::<Seq<char>>::empty().to_set() =~= Set::<Seq<char>>::empty());
    assert(declared.union(Set::empty()) =~= declared);
}

proof fn lemma_labels_in_a_row(
    before: Set<Seq<char>>,
    between: Set<Seq<char>>,
    after: Set<Seq<char>>,
    first: Seq<Seq<char>>,
    second: Seq<Seq<char>>,
)
    requires
        labels_once(before, between, first),
        labels_once(between, after, second),
    ensures
        labels_once(before, after, first + second),
{
    let both = first + second;
    assert forall|i: int, j: int|
        0 <= i < first.len() && 0 <= j < second.len() implies first[i] != second[j] by {
        assert(first.to_set().contains(first[i]));
        assert(!between.contains(second[j]));
    }
    vstd::seq_lib::lemma_no_dup_in_concat(first, second);
    vstd::seq_lib::seq_to_set_distributes_over_add(first, second);
    assert forall|k: int| 0 <= k < both.len() implies !before.contains(#[trigger] both[k]) by {
        if k < first.len() {
            assert(both[k] == first[k]);
        } else {
            assert(both[k] == second[k - first.len()]);
            assert(!between.contains(second[k - first.len()]));
        }
    }
    assert(after =~= before.union(both.to_set()));
}

proof fn lemma_statement_labels_once(tokens: Seq<TokenView>, pos: int, scope: Scope)
    ensures
        parse_statement(tokens, pos, scope) matches Ok((statement, _, gathered)) ==> labels_once(
            scope.labels_declared,
            gathered.labels_declared,
            statement_label_list(statement),
        ),
    decreases tokens.len() - pos, 0int,
{
    lemma_no_labels(scope.labels_declared);
    match token_at(tokens, pos) {
        Some(TokenView::NEWLINE) => lemma_statement_labels_once(tokens, pos + 1, scope),
        Some(TokenView::IF) => lemma_compound_labels_once(tokens, pos + 1, scope, Block::If),
        Some(TokenView::WHILE) => lemma_compound_labels_once(tokens, pos + 1, scope, Block::While),
        Some(TokenView::LABEL) => {
            if let Ok((name, _)) = expect_identifier(tokens, pos + 1) {
                let list = seq![name];
                assert(list.to_set() =~= set![name]) by {
                    assert(list[0] == name);
                    assert forall|n: Seq<char>| list.to_set().contains(n) implies n == name by {
                        let k = choose|k: int| 0 <= k < list.len() && list[k] == n;
                    }
                }
                assert(scope.labels_declared.insert(name) =~= scope.labels_declared.union(
                    set![name],
                ));
            }
        },
        _ => {},
    }
}

proof fn lemma_compound_labels_once(tokens: Seq<TokenView>, pos: int, scope: Scope, block: Block)
    ensures
        parse_compound(tokens, pos, scope, block) matches Ok((statement, _, gathered))
            ==> labels_once(
            scope.labels_declared,
            gathered.labels_declared,
            statement_label_list(statement),
        ),
    decreases tokens.len() - pos, 2int,
{
    lemma_comparison_advances(tokens, pos, scope.variables);
    if let Ok((_, start)) = parse_condition(tokens, pos, scope.variables, block) {
        lemma_block_labels_once(tokens, start, scope, block);
    }
}

proof fn lemma_block_labels_once(tokens: Seq<TokenView>, pos: int, scope: Scope, block: Block)
    ensures
        parse_block(tokens, pos, scope, block) matches Ok((statement, _, gathered))
            ==> labels_once(
            scope.labels_declared,
            gathered.labels_declared,
            statement_label_list(statement),
        ),
    decreases tokens.len() - pos, 1int,
{
    if token_at(tokens, pos) == Some(block.closing()) {
        lemma_no_labels(scope.labels_declared);
    } else {
        lemma_statement_labels_once(tokens, pos, scope);
        if let Ok((first, next, between)) = parse_statement(tokens, pos, scope) {
            if pos < next <= tokens.len() {
                lemma_block_labels_once(tokens, next, between, block);
                if let Ok((rest, _, after)) = parse_block(tokens, next, between, block) {
                    lemma_labels_in_a_row(
                        scope.labels_declared,
                        between.labels_declared,
                        after.labels_declared,
                        statement_label_list(first),
                        statement_label_list(rest),
                    );
                }
            }
        }
    }
}

proof fn lemma_statements_labels_once(tokens: Seq<TokenView>, pos: int, scope: Scope)
    ensures
        parse_statements(tokens, pos, scope) matches Ok((program, gathered)) ==> labels_once(
            scope.labels_declared,
            gathered.labels_declared,
            program_label_list(program),
        ),
    decreases tokens.len() - pos,
{
    if 0 <= pos < tokens.len() {
        lemma_statement_advances(tokens, pos, scope);
        lemma_statement_labels_once(tokens, pos, scope);
        if let Ok((first, next, between)) = parse_statement(tokens, pos, scope) {
            lemma_statements_labels_once(tokens, next, between);
            if let Ok((rest, after)) = parse_statements(tokens, next, between) {
                let program = seq![first] + rest;
                assert(program.first() == first);
                assert(program.drop_first() =~= rest);
                lemma_labels_in_a_row(
                    scope.labels_declared,
                    between.labels_declared,
                    after.labels_declared,
                    statement_label_list(first),
                    program_label_list(rest),
                );
            }
        }
    } else {
        lemma_no_labels(scope.labels_declared);
    }
}

/// Every label is declared once.
///
/// Where `tokens` parse as a program, whatever the names known before, no
/// two `LABEL` statements of the program hold the same name, and none holds
/// a label that was declared before.
pub proof fn lemma_labels_declared_once(tokens: Seq<TokenView>, scope: Scope)
    ensures
        parse_program(tokens, scope) matches Ok((program, gathered)) ==> labels_once(
            scope.labels_declared,
            gathered.labels_declared,
            program_label_list(program),
        ),
{
    lemma_statements_labels_once(tokens, 0, scope);
}

/// A variable is read only where it is declared.
///
/// Where the token at `pos` is a name, a primary read there is that
/// variable exactly where the name is among the variables known, and the
/// error that names the variable as undeclared exactly where it is not.
/// The token is taken either way.
pub proof fn lemma_read_needs_declaration(
    tokens: Seq<TokenView>,
    pos: int,
    variables: Set<Seq<char>>,
    name: Seq<char>,
)
    requires
        token_at(tokens, pos) == Some(TokenView::VARIABLE(name)),
    ensures
        variables.contains(name) ==> parse_primary(tokens, pos, variables) == Ok::<
            (PrimaryView, int),
            Stop,
        >((PrimaryView::Variable(name), pos + 1)),
        !variables.contains(name) ==> parse_primary(tokens, pos, variables) == Err::<
            (PrimaryView, int),
            Stop,
        >(Stop { error: CompileErrorView::UndeclaredVariable { name }, position: pos + 1 }),
{
}

/// A `PRINT` of a variable that no `LET` or `INPUT` has introduced fails
/// where the variable is read.
///
/// Whatever follows, and whatever other names are known, the statement
/// `PRINT name` at `pos` is refused with the error that names the
/// variable; the parser is left behind the name, and the names gathered
/// stay as they were.
pub proof fn lemma_print_of_undeclared_fails(
    tokens: Seq<TokenView>,
    pos: int,
    scope: Scope,
    name: Seq<char>,
)
    requires
        token_at(tokens, pos) == Some(TokenView::PRINT),
        token_at(tokens, pos + 1) == Some(TokenView::VARIABLE(name)),
        !scope.variables.contains(name),
    ensures
        parse_statement(tokens, pos, scope) == Err::<(StatementView, int, Scope), Halt>(
            Halt { error: CompileErrorView::UndeclaredVariable { name }, position: pos + 2, scope },
        ),
{
    lemma_read_needs_declaration(tokens, pos + 1, scope.variables, name);
}

} // verus!
