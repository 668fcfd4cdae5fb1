//! The declare-once policy: in the translation of a program that parses,
//! every variable is declared exactly once.
use crate::ast::{
    ComparisonView, ExpressionView, PrimaryView, StatementView, TermView, UnaryView,
};
use crate::emitter::{
    render_comparison, render_expression, render_primary, render_program, render_statement,
    render_term, render_unary, render_variable, Rendering,
};
use crate::lexer::TokenView;
use crate::parser::{parse_program, Scope};
use crate::resolution::{
    comparison_mentions, expression_mentions, lemma_names_resolve, primary_mentions,
    program_mentions, statement_mentions, term_mentions, unary_mentions,
};
use vstd::prelude::*;
use vstd::seq_lib::{lemma_no_dup_in_concat, seq_to_set_distributes_over_add};

verus! {

/// What the policy asks of a piece of rendering that started with the
/// variables `pending` and wrote the names `mentioned`: it declared each
/// pending variable that it wrote, once, and no other, and leaves the rest
/// pending.
pub open spec fn declares_once(
    written: Rendering,
    pending: Set<Seq<char>>,
    mentioned: Set<Seq<char>>,
) -> bool {
    &&& written.declared.no_duplicates()
    &&& written.declared.to_set() == pending.intersect(mentioned)
    &&& written.pending == pending.difference(mentioned)
}

proof fn lemma_plain_declares_once(text: Seq<char>, pending: Set<Seq<char>>)
    ensures
        declares_once(Rendering::plain(text, pending), pending, Set::empty()),
{
    let written = Rendering::plain(text, pending);
    assert(written.declared.to_set() =~= pending.intersect(Set::empty()));
    assert(written.pending =~= pending.difference(Set::empty()));
}

proof fn lemma_variable_declares_once(name: Seq<char>, pending: Set<Seq<char>>)
    ensures
        declares_once(render_variable(name, pending), pending, set![name]),
{
    let written = render_variable(name, pending);
    if pending.contains(name) {
        assert(written.declared[0] == name);
        assert(written.declared.to_set() =~= pending.intersect(set![name])) by {
            assert forall|n: Seq<char>| written.declared.to_set().contains(n) implies n
                == name by {
                let k = choose|k: int| 0 <= k < written.declared.len() && written.declared[k] == n;
            }
        }
        assert(written.pending =~= pending.difference(set![name]));
    } else {
        assert(written.declared.to_set() =~= pending.intersect(set![name]));
        assert(written.pending =~= pending.difference(set![name]));
    }
}

/// Two pieces written one after the other obey the policy together when
/// each does, the second starting from what the first left pending.
proof fn lemma_sequence_declares_once(
    first: Rendering,
    second: Rendering,
    pending: Set<Seq<char>>,
    first_mentioned: Set<Seq<char>>,
    second_mentioned: Set<Seq<char>>,
)
    requires
        declares_once(first, pending, first_mentioned),
        declares_once(second, first.pending, second_mentioned),
    ensures
        declares_once(first.followed_by(second), pending, first_mentioned.union(second_mentioned)),
{
    let both = first.followed_by(second);
    assert forall|i: int, j: int|
        0 <= i < first.declared.len() && 0 <= j < second.declared.len() implies first.declared[i]
        != second.declared[j] by {
        assert(first.declared.to_set().contains(first.declared[i]));
        assert(second.declared.to_set().contains(second.declared[j]));
    }
    lemma_no_dup_in_concat(first.declared, second.declared);
    seq_to_set_distributes_over_add(first.declared, second.declared);
    assert(both.declared.to_set() =~= pending.intersect(
        first_mentioned.union(second_mentioned),
    ));
    assert(both.pending =~= pending.difference(first_mentioned.union(second_mentioned)));
}

/// Text without variables in front of a piece changes nothing.
proof fn lemma_prefixed_declares_once(
    text: Seq<char>,
    written: Rendering,
    pending: Set<Seq<char>>,
    mentioned: Set<Seq<char>>,
)
    requires
        declares_once(written, pending, mentioned),
    ensures
        declares_once(Rendering::plain(text, pending).followed_by(written), pending, mentioned),
{
    lemma_plain_declares_once(text, pending);
    lemma_sequence_declares_once(
        Rendering::plain(text, pending),
        written,
        pending,
        Set::empty(),
        mentioned,
    );
    assert(Set::<Seq<char>>::empty().union(mentioned) =~= mentioned);
}

proof fn lemma_primary_declares_once(primary: PrimaryView, pending: Set<Seq<char>>)
    ensures
        declares_once(render_primary(primary, pending), pending, primary_mentions(primary)),
{
    match primary {
        PrimaryView::Integer(value) => lemma_plain_declares_once(
            render_primary(primary, pending).text,
            pending,
        ),
        PrimaryView::Float(text) => lemma_plain_declares_once(text, pending),
        PrimaryView::Variable(name) => lemma_variable_declares_once(name, pending),
    }
}

proof fn lemma_unary_declares_once(unary: UnaryView, pending: Set<Seq<char>>)
    ensures
        declares_once(render_unary(unary, pending), pending, unary_mentions(unary)),
    decreases unary,
{
    match unary {
        UnaryView::Primary(primary) => lemma_primary_declares_once(primary, pending),
        UnaryView::Positive(inner) => {
            lemma_unary_declares_once(*inner, pending);
            lemma_prefixed_declares_once(
                "+"@,
                render_unary(*inner, pending),
                pending,
                unary_mentions(*inner),
            );
        },
        UnaryView::Negative(inner) => {
            lemma_unary_declares_once(*inner, pending);
            lemma_prefixed_declares_once(
                "-"@,
                render_unary(*inner, pending),
                pending,
                unary_mentions(*inner),
            );
        },
    }
}

proof fn lemma_term_declares_once(term: TermView, pending: Set<Seq<char>>)
    ensures
        declares_once(render_term(term, pending), pending, term_mentions(term)),
    decreases term,
{
    match term {
        TermView::Unary(unary) => lemma_unary_declares_once(unary, pending),
        TermView::Mul(left, right) => {
            let first = render_unary(*left, pending);
            lemma_unary_declares_once(*left, pending);
            lemma_term_declares_once(*right, first.pending);
            lemma_sequence_declares_once(
                first.and_text(" * "@),
                render_term(*right, first.pending),
                pending,
                unary_mentions(*left),
                term_mentions(*right),
            );
        },
        TermView::Div(left, right) => {
            let first = render_unary(*left, pending);
            lemma_unary_declares_once(*left, pending);
            lemma_term_declares_once(*right, first.pending);
            lemma_sequence_declares_once(
                first.and_text(" / "@),
                render_term(*right, first.pending),
                pending,
                unary_mentions(*left),
                term_mentions(*right),
            );
        },
    }
}

proof fn lemma_expression_declares_once(expression: ExpressionView, pending: Set<Seq<char>>)
    ensures
        declares_once(
            render_expression(expression, pending),
            pending,
            expression_mentions(expression),
        ),
    decreases expression,
{
    match expression {
        ExpressionView::Term(term) => lemma_term_declares_once(term, pending),
        ExpressionView::Add(left, right) => {
            let first = render_term(*left, pending);
            lemma_term_declares_once(*left, pending);
            lemma_expression_declares_once(*right, first.pending);
            lemma_sequence_declares_once(
                first.and_text(" + "@),
                render_expression(*right, first.pending),
                pending,
                term_mentions(*left),
                expression_mentions(*right),
            );
        },
        ExpressionView::Sub(left, right) => {
            let first = render_term(*left, pending);
            lemma_term_declares_once(*left, pending);
            lemma_expression_declares_once(*right, first.pending);
            lemma_sequence_declares_once(
                first.and_text(" - "@),
                render_expression(*right, first.pending),
                pending,
                term_mentions(*left),
                expression_mentions(*right),
            );
        },
    }
}

proof fn lemma_comparison_declares_once(comparison: ComparisonView, pending: Set<Seq<char>>)
    ensures
        declares_once(
            render_comparison(comparison, pending),
            pending,
            comparison_mentions(comparison),
        ),
    decreases comparison,
{
    match comparison {
        ComparisonView::Left(expression) => lemma_expression_declares_once(expression, pending),
        ComparisonView::Right(expression, rest) => {
            let first = render_expression(expression, pending);
            lemma_expression_declares_once(expression, pending);
            lemma_comparison_declares_once(*rest, first.pending);
            lemma_sequence_declares_once(
                first.and_text(" "@),
                render_comparison(*rest, first.pending),
                pending,
                expression_mentions(expression),
                comparison_mentions(*rest),
            );
        },
        ComparisonView::Compare(operator, rest) => {
            lemma_comparison_declares_once(*rest, pending);
            lemma_prefixed_declares_once(
                operator + " "@,
                render_comparison(*rest, pending),
                pending,
                comparison_mentions(*rest),
            );
        },
    }
}

/// A condition, a block and the text around them.
proof fn lemma_compound_declares_once(
    opening: Seq<char>,
    condition: ComparisonView,
    body: StatementView,
    pending: Set<Seq<char>>,
)
    requires
        forall|before: Set<Seq<char>>| #[trigger]
            declares_once(render_statement(body, before), before, statement_mentions(body)),
    ensures
        declares_once(
            Rendering::plain(opening, pending).followed_by(
                render_comparison(condition, pending),
            ).and_text(") {\n"@).followed_by(
                render_statement(body, render_comparison(condition, pending).pending),
            ).and_text("\n}\n"@),
            pending,
            comparison_mentions(condition).union(statement_mentions(body)),
        ),
{
    let test = render_comparison(condition, pending);
    lemma_comparison_declares_once(condition, pending);
    lemma_prefixed_declares_once(opening, test, pending, comparison_mentions(condition));
    assert(declares_once(
        render_statement(body, test.pending),
        test.pending,
        statement_mentions(body),
    ));
    lemma_sequence_declares_once(
        Rendering::plain(opening, pending).followed_by(test).and_text(") {\n"@),
        render_statement(body, test.pending),
        pending,
        comparison_mentions(condition),
        statement_mentions(body),
    );
}

/// The rendering of a statement obeys the policy, whatever is pending.
pub proof fn lemma_statement_declares_once(statement: StatementView, pending: Set<Seq<char>>)
    ensures
        declares_once(
            render_statement(statement, pending),
            pending,
            statement_mentions(statement),
        ),
    decreases statement,
{
    match statement {
        StatementView::Print(expression) => {
            lemma_expression_declares_once(expression, pending);
            lemma_prefixed_declares_once(
                "printf(\"%d\\n\", "@,
                render_expression(expression, pending),
                pending,
                expression_mentions(expression),
            );
        },
        StatementView::PrintStr(_) => lemma_plain_declares_once("printf(\""@, pending),
        StatementView::Let(name, expression) => {
            let target = render_variable(name, pending);
            lemma_variable_declares_once(name, pending);
            lemma_expression_declares_once(expression, target.pending);
            lemma_sequence_declares_once(
                target.and_text(" = "@),
                render_expression(expression, target.pending),
                pending,
                set![name],
                expression_mentions(expression),
            );
        },
        StatementView::If(condition, body) => {
            assert forall|before: Set<Seq<char>>| #[trigger]
                declares_once(
                    render_statement(*body, before),
                    before,
                    statement_mentions(*body),
                ) by {
                lemma_statement_declares_once(*body, before);
            }
            lemma_compound_declares_once("if ("@, condition, *body, pending);
        },
        StatementView::While(condition, body) => {
            assert forall|before: Set<Seq<char>>| #[trigger]
                declares_once(
                    render_statement(*body, before),
                    before,
                    statement_mentions(*body),
                ) by {
                lemma_statement_declares_once(*body, before);
            }
            lemma_compound_declares_once("while ("@, condition, *body, pending);
        },
        StatementView::Label(name) => lemma_plain_declares_once(name, pending),
        StatementView::Goto(_) => lemma_plain_declares_once("goto "@, pending),
        StatementView::Input(name) => lemma_variable_declares_once(name, pending),
        StatementView::Statement(first, rest) => {
            let head = render_statement(*first, pending);
            lemma_statement_declares_once(*first, pending);
            lemma_statement_declares_once(*rest, head.pending);
            lemma_sequence_declares_once(
                head.and_text("\n"@),
                render_statement(*rest, head.pending),
                pending,
                statement_mentions(*first),
                statement_mentions(*rest),
            );
        },
        StatementView::End => lemma_plain_declares_once("\n"@, pending),
    }
}

/// The rendering of a sequence of statements obeys the policy, whatever is
/// pending.
pub proof fn lemma_program_declares_once(program: Seq<StatementView>, pending: Set<Seq<char>>)
    ensures
        declares_once(render_program(program, pending), pending, program_mentions(program)),
    decreases program.len(),
{
    if program.len() == 0 {
        lemma_plain_declares_once(Seq::empty(), pending);
    } else {
        let front = render_program(program.drop_last(), pending);
        lemma_program_declares_once(program.drop_last(), pending);
        lemma_statement_declares_once(program.last(), front.pending);
        lemma_sequence_declares_once(
            front,
            render_statement(program.last(), front.pending),
            pending,
            program_mentions(program.drop_last()),
            statement_mentions(program.last()),
        );
    }
}

/// Exactly one declaration for each variable.
///
/// Let `tokens` parse as a program, from no names at all, and let the
/// program be rendered with the variables that the parse gathered pending.
/// Then the names that get their declaration are the gathered variables,
/// none of them twice, and no declaration is left pending. A declaration is
/// written by [`render_variable`] and nowhere else, as `int` in front of
/// the name, in the same step that lists the name as declared.
pub proof fn lemma_one_declaration_per_variable(tokens: Seq<TokenView>)
    requires
        parse_program(tokens, Scope::empty()) is Ok,
    ensures
        ({
            let (program, scope) = parse_program(tokens, Scope::empty())->Ok_0;
            let written = render_program(program, scope.variables);
            &&& written.declared.no_duplicates()
            &&& written.declared.to_set() == scope.variables
            &&& written.pending == Set::<Seq<char>>::empty()
        }),
{
    let (program, scope) = parse_program(tokens, Scope::empty())->Ok_0;
    let written = render_program(program, scope.variables);
    lemma_names_resolve(tokens);
    lemma_program_declares_once(program, scope.variables);
    assert(written.declared.to_set() =~= scope.variables);
    assert(written.pending =~= Set::<Seq<char>>::empty());
}

} // verus!
