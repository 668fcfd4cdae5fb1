use basic_compiler::ast::{Comparison, Expression, Primary, Statement, Term, Unary};
use basic_compiler::emitter::Emitter;
use basic_compiler::lexer::Lexer;
use basic_compiler::parser::Parser;

fn emit(text: &str) -> Emitter {
    let mut lexer = Lexer::new();
    lexer.parse(text).unwrap();
    let mut parser = Parser::new();
    parser.check(&lexer).unwrap();
    let mut emitter = Emitter::new("out.c");
    emitter.process(parser);
    emitter
}

fn code(text: &str) -> String {
    let emitter = emit(text);
    let code = emitter.code();
    code.strip_suffix("return 0;\n}\n").unwrap().to_string()
}

fn from_tree(variables: &[&str], program: Vec<Statement>) -> String {
    let mut parser = Parser::new();
    for name in variables {
        parser.variables.insert(name.to_string());
    }
    parser.ast.program = program;
    let mut emitter = Emitter::new("");
    emitter.process(parser);
    emitter.code().strip_suffix("return 0;\n}\n").unwrap().to_string()
}

fn primary(p: Primary) -> Expression {
    Expression::Term(Term::Unary(Unary::Primary(p)))
}

fn count(text: &str, part: &str) -> usize {
    text.matches(part).count()
}

#[test]
fn new_emitter_has_written_nothing() {
    let emitter = Emitter::new("some/path.c");
    assert_eq!(emitter.full_path(), "some/path.c");
    assert_eq!(emitter.header(), "");
    assert_eq!(emitter.code(), "");
    assert_eq!(emitter.output(), "");
}

#[test]
fn emit_appends_to_the_code() {
    let mut emitter = Emitter::new("");
    emitter.emit("a");
    emitter.emit("b;");
    assert_eq!(emitter.code(), "ab;");
    emitter.emit_line("c;");
    assert_eq!(emitter.code(), "ab;c;\n");
    assert_eq!(emitter.header(), "");
}

#[test]
fn emit_header_appends_a_line_to_the_header() {
    let mut emitter = Emitter::new("");
    emitter.emit_header("#include <a.h>");
    emitter.emit_header("#include <b.h>");
    emitter.emit("x");
    assert_eq!(emitter.header(), "#include <a.h>\n#include <b.h>\n");
    assert_eq!(emitter.code(), "x");
    assert_eq!(emitter.output(), "#include <a.h>\n#include <b.h>\nx");
}

#[test]
fn the_program_is_wrapped_in_main() {
    let emitter = emit("");
    assert_eq!(emitter.header(), "#include <stdio.h>\nint main(void){\n");
    assert_eq!(emitter.code(), "return 0;\n}\n");
    assert_eq!(emitter.output(), "#include <stdio.h>\nint main(void){\nreturn 0;\n}\n");
    assert_eq!(emitter.full_path(), "out.c");
}

#[test]
fn let_and_print_are_translated() {
    assert_eq!(code("LET a = 1\nPRINT a\n"), "int a = 1;\nprintf(\"%d\\n\",  a);\n");
}

#[test]
fn the_declaration_stands_at_the_first_occurrence() {
    assert_eq!(
        code("LET a = a + a\nLET a = 2\n"),
        "int a =  a +  a;\n a = 2;\n"
    );
    assert_eq!(
        code("IF 1 THEN\nLET late = 1\nENDIF\nINPUT early\nPRINT late * early\n"),
        "if (1) {\nint late = 1;\n\n\n\n}\nint early;\nscanf(\"%d\", &early);\nprintf(\"%d\\n\",  late *  early);\n"
    );
}

#[test]
fn a_read_may_carry_the_declaration() {
    assert_eq!(
        from_tree(&["a"], vec![Statement::Print(primary(Primary::Variable("a".to_string())))]),
        "printf(\"%d\\n\", int a);\n"
    );
    assert_eq!(
        from_tree(&[], vec![Statement::Print(primary(Primary::Variable("a".to_string())))]),
        "printf(\"%d\\n\",  a);\n"
    );
}

#[test]
fn each_variable_is_declared_once() {
    let text = code(
        "INPUT n\nLET sum = 0\nWHILE n > 0 REPEAT\nLET sum = sum + n\nLET n = n - 1\nIF sum > 100 THEN\nLET big = 1\nPRINT big\nENDIF\nENDWHILE\nPRINT sum\nINPUT n\n",
    );
    assert_eq!(count(&text, "int n"), 1);
    assert_eq!(count(&text, "int sum"), 1);
    assert_eq!(count(&text, "int big"), 1);
    assert_eq!(count(&text, "int "), 3);
}

#[test]
fn print_of_a_string_is_verbatim() {
    assert_eq!(code("PRINT \"100% \\ done\"\n"), "printf(\"100% \\ done\\n\");\n");
}

#[test]
fn input_reads_with_scanf() {
    assert_eq!(
        code("INPUT a\nINPUT a\n"),
        "int a;\nscanf(\"%d\", &a);\n a;\nscanf(\"%d\", &a);\n"
    );
}

#[test]
fn labels_and_jumps() {
    assert_eq!(code("LABEL top\nGOTO top\n"), "top:\ngoto top;\n");
}

#[test]
fn if_and_while_wrap_their_bodies() {
    assert_eq!(code("IF 1 THEN\nENDIF\n"), "if (1) {\n\n\n}\n");
    assert_eq!(
        code("INPUT a\nWHILE a != 0 REPEAT\nPRINT \"x\"\nINPUT a\nENDWHILE\n"),
        "int a;\nscanf(\"%d\", &a);\nwhile ( a != 0) {\nprintf(\"x\\n\");\n\n a;\nscanf(\"%d\", &a);\n\n\n\n}\n"
    );
}

#[test]
fn comparison_chains_read_left_to_right() {
    assert_eq!(
        code("INPUT a\nINPUT b\nIF a == b <= 3 THEN\nENDIF\n"),
        "int a;\nscanf(\"%d\", &a);\nint b;\nscanf(\"%d\", &b);\nif ( a ==  b <= 3) {\n\n\n}\n"
    );
}

#[test]
fn expressions_are_written_without_brackets() {
    assert_eq!(
        code("PRINT 1 + 2 * 3 - 4 / -5 + +6.50\n"),
        "printf(\"%d\\n\", 1 + 2 * 3 - 4 / -5 + +6.50);\n"
    );
}

#[test]
fn integers_are_written_in_decimal() {
    assert_eq!(
        from_tree(
            &[],
            vec![
                Statement::Print(primary(Primary::Integer(0))),
                Statement::Print(primary(Primary::Integer(-42))),
                Statement::Print(primary(Primary::Integer(i64::MAX))),
                Statement::Print(primary(Primary::Integer(i64::MIN))),
            ]
        ),
        "printf(\"%d\\n\", 0);\nprintf(\"%d\\n\", -42);\nprintf(\"%d\\n\", 9223372036854775807);\nprintf(\"%d\\n\", -9223372036854775808);\n"
    );
}

#[test]
fn every_shape_of_comparison_is_written() {
    let one = primary(Primary::Integer(1));
    let two = primary(Primary::Integer(2));
    let tree = Statement::If(
        Comparison::Compare(
            "<".to_string(),
            Box::new(Comparison::Right(one, Box::new(Comparison::Left(two)))),
        ),
        Box::new(Statement::End),
    );
    assert_eq!(from_tree(&[], vec![tree]), "if (< 1 2) {\n\n\n}\n");
}

#[test]
fn a_second_translation_appends() {
    let mut emitter = emit("PRINT 1\n");
    let mut lexer = Lexer::new();
    lexer.parse("PRINT 2\n").unwrap();
    let mut parser = Parser::new();
    parser.check(&lexer).unwrap();
    emitter.process(parser);
    assert_eq!(
        emitter.header(),
        "#include <stdio.h>\nint main(void){\n#include <stdio.h>\nint main(void){\n"
    );
    assert_eq!(
        emitter.code(),
        "printf(\"%d\\n\", 1);\nreturn 0;\n}\nprintf(\"%d\\n\", 2);\nreturn 0;\n}\n"
    );
}
