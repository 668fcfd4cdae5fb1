use basic_compiler::ast::{Comparison, Expression, Primary, Statement, Term, Unary};
use basic_compiler::error::{CompileError, ErrorKind, Expected};
use basic_compiler::lexer::{Lexer, Token};
use basic_compiler::parser::Parser;

fn parse(text: &str) -> Result<Parser, CompileError> {
    let mut lexer = Lexer::new();
    lexer.parse(text)?;
    let mut parser = Parser::new();
    parser.check(&lexer)?;
    Ok(parser)
}

fn failure(text: &str) -> CompileError {
    match parse(text) {
        Ok(_) => panic!("parsed"),
        Err(error) => error,
    }
}

fn unexpected(expected: Expected, found: Option<Token>) -> CompileError {
    CompileError::UnexpectedToken { expected, found }
}

fn integer(value: i64) -> Expression {
    Expression::Term(Term::Unary(Unary::Primary(Primary::Integer(value))))
}

fn variable(name: &str) -> Expression {
    Expression::Term(Term::Unary(Unary::Primary(Primary::Variable(name.to_string()))))
}

fn unary_of(name: &str) -> Unary {
    Unary::Primary(Primary::Variable(name.to_string()))
}

#[test]
fn parses_let_and_print() {
    let parser = parse("LET a = 1\nPRINT a\n").unwrap();
    assert_eq!(
        parser.ast.program,
        vec![Statement::Let("a".to_string(), integer(1)), Statement::Print(variable("a"))]
    );
    assert!(parser.variables.contains("a"));
    assert_eq!(parser.variables.len(), 1);
}

#[test]
fn goto_without_label_fails() {
    let error = failure("GOTO x\n");
    assert_eq!(error, CompileError::UndeclaredLabel { name: "x".to_string() });
    assert_eq!(error.kind(), ErrorKind::Semantic);
}

#[test]
fn read_of_undeclared_variable_fails() {
    let error = failure("PRINT a\n");
    assert_eq!(error, CompileError::UndeclaredVariable { name: "a".to_string() });
    assert_eq!(error.kind(), ErrorKind::Semantic);
}

#[test]
fn duplicate_label_fails() {
    let error = failure("LABEL a\nLABEL a\n");
    assert_eq!(error, CompileError::DuplicateLabel { name: "a".to_string() });
    assert_eq!(error.kind(), ErrorKind::Semantic);
}

#[test]
fn comparison_chain_nests_to_the_right() {
    let parser = parse("LET a = 1\nLET b = 2\nLET c = 3\nIF a == b == c THEN\nENDIF\n").unwrap();
    let chain = Comparison::Right(
        variable("a"),
        Box::new(Comparison::Compare(
            "==".to_string(),
            Box::new(Comparison::Right(
                variable("b"),
                Box::new(Comparison::Compare(
                    "==".to_string(),
                    Box::new(Comparison::Left(variable("c"))),
                )),
            )),
        )),
    );
    assert_eq!(parser.ast.program.len(), 4);
    assert_eq!(parser.ast.program[3], Statement::If(chain, Box::new(Statement::End)));
}

#[test]
fn every_relation_is_parsed() {
    for operator in ["==", "!=", "<", "<=", ">", ">="] {
        let text = format!("INPUT a\nIF a {} 1 THEN\nENDIF\n", operator);
        let parser = parse(&text).unwrap();
        assert_eq!(
            parser.ast.program[1],
            Statement::If(
                Comparison::Right(
                    variable("a"),
                    Box::new(Comparison::Compare(
                        operator.to_string(),
                        Box::new(Comparison::Left(integer(1))),
                    )),
                ),
                Box::new(Statement::End),
            )
        );
    }
}

#[test]
fn a_bare_expression_is_a_comparison() {
    let parser = parse("INPUT a\nWHILE a REPEAT\nENDWHILE\n").unwrap();
    assert_eq!(
        parser.ast.program[1],
        Statement::While(Comparison::Left(variable("a")), Box::new(Statement::End))
    );
}

#[test]
fn empty_program_parses() {
    let parser = parse("").unwrap();
    assert!(parser.ast.program.is_empty());
    assert_eq!(parser.variables.len(), 0);
}

#[test]
fn new_parser_holds_nothing() {
    let parser = Parser::new();
    assert!(parser.ast.program.is_empty());
    assert_eq!(parser.variables.len(), 0);
    let (ast, variables) = parser.into_parts();
    assert!(ast.program.is_empty());
    assert_eq!(variables.len(), 0);
}

#[test]
fn print_of_a_string() {
    let parser = parse("PRINT \"hello world\"\n").unwrap();
    assert_eq!(parser.ast.program, vec![Statement::PrintStr("hello world".to_string())]);
}

#[test]
fn input_declares_its_variable() {
    let parser = parse("INPUT n\nPRINT n\n").unwrap();
    assert_eq!(
        parser.ast.program,
        vec![Statement::Input("n".to_string()), Statement::Print(variable("n"))]
    );
    assert!(parser.variables.contains("n"));
}

#[test]
fn let_may_read_its_own_target() {
    let parser = parse("LET a = a + 1\n").unwrap();
    assert_eq!(
        parser.ast.program,
        vec![Statement::Let(
            "a".to_string(),
            Expression::Add(Box::new(Term::Unary(unary_of("a"))), Box::new(integer(1))),
        )]
    );
}

#[test]
fn let_declares_even_where_it_fails_later() {
    assert_eq!(failure("LET a = b\n"), CompileError::UndeclaredVariable { name: "b".to_string() });
}

#[test]
fn expressions_nest_to_the_right() {
    let parser = parse("INPUT a\nINPUT b\nINPUT c\nPRINT a - b - c\nPRINT a * b / c + a\n").unwrap();
    assert_eq!(
        parser.ast.program[3],
        Statement::Print(Expression::Sub(
            Box::new(Term::Unary(unary_of("a"))),
            Box::new(Expression::Sub(Box::new(Term::Unary(unary_of("b"))), Box::new(variable("c")))),
        ))
    );
    assert_eq!(
        parser.ast.program[4],
        Statement::Print(Expression::Add(
            Box::new(Term::Mul(
                Box::new(unary_of("a")),
                Box::new(Term::Div(Box::new(unary_of("b")), Box::new(Term::Unary(unary_of("c"))))),
            )),
            Box::new(variable("a")),
        ))
    );
}

#[test]
fn a_sign_in_front_of_a_primary() {
    let parser = parse("PRINT -1 + +2.5\n").unwrap();
    assert_eq!(
        parser.ast.program,
        vec![Statement::Print(Expression::Add(
            Box::new(Term::Unary(Unary::Negative(Box::new(Unary::Primary(Primary::Integer(1)))))),
            Box::new(Expression::Term(Term::Unary(Unary::Positive(Box::new(Unary::Primary(
                Primary::Float("2.5".to_string())
            )))))),
        ))]
    );
}

#[test]
fn two_signs_are_one_too_many() {
    assert_eq!(failure("PRINT - -1\n"), unexpected(Expected::Operand, Some(Token::MINUS)));
    assert_eq!(failure("PRINT 1 + + + 2\n"), unexpected(Expected::Operand, Some(Token::PLUS)));
}

#[test]
fn blank_lines_in_front_of_a_statement_are_skipped() {
    let parser = parse("\n\nPRINT 1\n\n\nPRINT 2\n").unwrap();
    assert_eq!(parser.ast.program, vec![Statement::Print(integer(1)), Statement::Print(integer(2))]);
}

#[test]
fn a_blank_line_needs_a_statement_behind_it() {
    assert_eq!(failure("PRINT 1\n\n"), unexpected(Expected::Statement, None));
    assert_eq!(failure("\n"), unexpected(Expected::Statement, None));
}

#[test]
fn blocks_hold_their_statements_in_a_chain() {
    let parser = parse("INPUT n\nWHILE n > 0 REPEAT\nPRINT n\nLET n = n - 1\nENDWHILE\n").unwrap();
    let condition = Comparison::Right(
        variable("n"),
        Box::new(Comparison::Compare(">".to_string(), Box::new(Comparison::Left(integer(0))))),
    );
    let body = Statement::Statement(
        Box::new(Statement::Print(variable("n"))),
        Box::new(Statement::Statement(
            Box::new(Statement::Let(
                "n".to_string(),
                Expression::Sub(Box::new(Term::Unary(unary_of("n"))), Box::new(integer(1))),
            )),
            Box::new(Statement::End),
        )),
    );
    assert_eq!(parser.ast.program[1], Statement::While(condition, Box::new(body)));
}

#[test]
fn blocks_nest() {
    let parser = parse(
        "INPUT a\nIF a THEN\nWHILE a REPEAT\nIF a THEN\nGOTO out\nENDIF\nENDWHILE\nENDIF\nLABEL out\n",
    )
    .unwrap();
    let innermost = Statement::If(
        Comparison::Left(variable("a")),
        Box::new(Statement::Statement(
            Box::new(Statement::Goto("out".to_string())),
            Box::new(Statement::End),
        )),
    );
    let middle = Statement::While(
        Comparison::Left(variable("a")),
        Box::new(Statement::Statement(Box::new(innermost), Box::new(Statement::End))),
    );
    let outer = Statement::If(
        Comparison::Left(variable("a")),
        Box::new(Statement::Statement(Box::new(middle), Box::new(Statement::End))),
    );
    assert_eq!(
        parser.ast.program,
        vec![Statement::Input("a".to_string()), outer, Statement::Label("out".to_string())]
    );
}

#[test]
fn a_variable_declared_in_a_block_is_known_behind_it() {
    assert!(parse("IF 1 THEN\nLET a = 1\nENDIF\nPRINT a\n").is_ok());
}

#[test]
fn a_label_may_follow_its_goto() {
    let parser = parse("GOTO end\nPRINT 1\nLABEL end\n").unwrap();
    assert_eq!(
        parser.ast.program,
        vec![
            Statement::Goto("end".to_string()),
            Statement::Print(integer(1)),
            Statement::Label("end".to_string()),
        ]
    );
}

#[test]
fn the_first_missing_label_is_reported() {
    assert_eq!(
        failure("GOTO b\nGOTO a\nLABEL c\nGOTO c\n"),
        CompileError::UndeclaredLabel { name: "b".to_string() }
    );
    assert_eq!(
        failure("GOTO c\nGOTO a\nLABEL c\nGOTO c\n"),
        CompileError::UndeclaredLabel { name: "a".to_string() }
    );
}

#[test]
fn a_duplicate_label_is_reported_at_once() {
    assert_eq!(
        failure("LABEL a\nLABEL a\nPRINT undeclared\n"),
        CompileError::DuplicateLabel { name: "a".to_string() }
    );
    assert_eq!(
        failure("LABEL a\nIF 1 THEN\nLABEL a\nENDIF\n"),
        CompileError::DuplicateLabel { name: "a".to_string() }
    );
}

#[test]
fn variables_and_labels_are_apart() {
    assert!(parse("LET a = 1\nLABEL a\nGOTO a\nPRINT a\n").is_ok());
    assert_eq!(failure("LABEL a\nPRINT a\n"), CompileError::UndeclaredVariable { name: "a".to_string() });
}

#[test]
fn if_needs_then() {
    let error = failure("IF 1 REPEAT\nENDIF\n");
    assert_eq!(error, unexpected(Expected::Then, Some(Token::REPEAT)));
    assert_eq!(error.kind(), ErrorKind::Syntax);
    assert_eq!(failure("IF 1"), unexpected(Expected::Then, None));
}

#[test]
fn while_needs_repeat() {
    assert_eq!(failure("WHILE 1 THEN\nENDWHILE\n"), unexpected(Expected::Repeat, Some(Token::THEN)));
    assert_eq!(failure("WHILE 1\n"), unexpected(Expected::Repeat, Some(Token::NEWLINE)));
}

#[test]
fn let_needs_the_assignment_sign() {
    assert_eq!(failure("LET a == 1\n"), unexpected(Expected::Assign, Some(Token::EQEQ)));
    assert_eq!(failure("LET a"), unexpected(Expected::Assign, None));
}

#[test]
fn a_name_is_needed_where_one_is_declared() {
    assert_eq!(failure("LET 1 = 1\n"), unexpected(Expected::Identifier, Some(Token::INTEGER(1))));
    assert_eq!(failure("INPUT \"a\"\n"), unexpected(Expected::Identifier, Some(Token::STRING("a".to_string()))));
    assert_eq!(failure("LABEL\n"), unexpected(Expected::Identifier, Some(Token::NEWLINE)));
    assert_eq!(failure("GOTO"), unexpected(Expected::Identifier, None));
}

#[test]
fn every_statement_ends_its_line() {
    assert_eq!(failure("PRINT 1"), unexpected(Expected::Newline, None));
    assert_eq!(failure("PRINT 1 2\n"), unexpected(Expected::Newline, Some(Token::INTEGER(2))));
    assert_eq!(failure("PRINT \"a\" \"b\"\n"), unexpected(Expected::Newline, Some(Token::STRING("b".to_string()))));
    assert_eq!(failure("LABEL a b\n"), unexpected(Expected::Newline, Some(Token::VARIABLE("b".to_string()))));
    assert_eq!(failure("INPUT a PRINT a\n"), unexpected(Expected::Newline, Some(Token::PRINT)));
    assert_eq!(failure("IF 1 THEN PRINT 1\nENDIF\n"), unexpected(Expected::Newline, Some(Token::PRINT)));
    assert_eq!(failure("IF 1 THEN\nENDIF"), unexpected(Expected::Newline, None));
    assert_eq!(failure("WHILE 1 REPEAT\nENDWHILE PRINT 1\n"), unexpected(Expected::Newline, Some(Token::PRINT)));
}

#[test]
fn a_statement_starts_with_its_keyword() {
    assert_eq!(failure("a = 1\n"), unexpected(Expected::Statement, Some(Token::VARIABLE("a".to_string()))));
    assert_eq!(failure("THEN\n"), unexpected(Expected::Statement, Some(Token::THEN)));
    assert_eq!(failure("ENDIF\n"), unexpected(Expected::Statement, Some(Token::ENDIF)));
}

#[test]
fn a_block_is_closed_by_its_own_keyword() {
    assert_eq!(failure("IF 1 THEN\nENDWHILE\n"), unexpected(Expected::Statement, Some(Token::ENDWHILE)));
    assert_eq!(failure("WHILE 1 REPEAT\nENDIF\n"), unexpected(Expected::Statement, Some(Token::ENDIF)));
    assert_eq!(failure("WHILE 1 REPEAT\nPRINT 1\n"), unexpected(Expected::Statement, None));
    assert_eq!(failure("IF 1 THEN\nPRINT 1\n\nENDIF\n"), unexpected(Expected::Statement, Some(Token::ENDIF)));
}

#[test]
fn an_operand_is_needed_behind_an_operator() {
    assert_eq!(failure("PRINT 1 +\n"), unexpected(Expected::Operand, Some(Token::NEWLINE)));
    assert_eq!(failure("PRINT 1 *"), unexpected(Expected::Operand, None));
    assert_eq!(failure("PRINT\n"), unexpected(Expected::Operand, Some(Token::NEWLINE)));
    assert_eq!(failure("IF 1 == THEN\nENDIF\n"), unexpected(Expected::Operand, Some(Token::THEN)));
    assert_eq!(failure("LET a = \"text\"\n"), unexpected(Expected::Operand, Some(Token::STRING("text".to_string()))));
}

#[test]
fn the_end_marker_starts_no_statement() {
    let mut lexer = Lexer::new();
    lexer.tokens.push(Token::EOF);
    let mut parser = Parser::new();
    assert_eq!(parser.check(&lexer), Err(unexpected(Expected::Statement, Some(Token::EOF))));
}

#[test]
fn a_failed_parse_leaves_the_parser() {
    let mut first = Lexer::new();
    first.parse("LET a = 1\nLABEL l\n").unwrap();
    let mut second = Lexer::new();
    second.parse("LET b = 2\nPRINT c\n").unwrap();
    let mut parser = Parser::new();
    parser.check(&first).unwrap();
    assert!(parser.check(&second).is_err());
    assert_eq!(parser.ast.program.len(), 2);
    assert!(parser.variables.contains("a"));
    assert!(!parser.variables.contains("b"));
}

#[test]
fn a_second_parse_goes_on_with_the_names() {
    let mut first = Lexer::new();
    first.parse("LET a = 1\nLABEL l\nGOTO later\n").unwrap_or(());
    let mut second = Lexer::new();
    second.parse("PRINT a\nLABEL later\n").unwrap();
    let mut third = Lexer::new();
    third.parse("LABEL l\n").unwrap();
    let mut parser = Parser::new();
    assert_eq!(parser.check(&first), Err(CompileError::UndeclaredLabel { name: "later".to_string() }));
    let mut declared = Lexer::new();
    declared.parse("LET a = 1\nLABEL l\n").unwrap();
    parser.check(&declared).unwrap();
    parser.check(&second).unwrap();
    assert_eq!(parser.ast.program.len(), 4);
    assert_eq!(parser.check(&third), Err(CompileError::DuplicateLabel { name: "l".to_string() }));
}

#[test]
fn a_read_fails_wherever_the_variable_is_unknown() {
    let undeclared = CompileError::UndeclaredVariable { name: "a".to_string() };
    assert_eq!(failure("LET b = 1\nINPUT c\nPRINT a\n"), undeclared);
    assert_eq!(failure("LET b = 1 + a\n"), undeclared);
    assert_eq!(failure("INPUT b\nIF b < a THEN\nENDIF\n"), undeclared);
    assert_eq!(failure("WHILE 1 REPEAT\nPRINT -a\nENDWHILE\n"), undeclared);
    assert_eq!(failure("PRINT a\nLET a = 1\n"), undeclared);
    assert_eq!(failure("PRINT a PRINT\n"), undeclared);
    assert!(parse("INPUT a\nPRINT a\n").is_ok());
}
