use basic_compiler::compile;
use basic_compiler::error::{CompileError, ErrorKind, Expected};
use basic_compiler::lexer::Token;
use basic_compiler::names::NameSet;
use basic_compiler::text::{decimal_string, parse_decimal};
use basic_compiler::Config;

fn args(list: &[&str]) -> Vec<String> {
    list.iter().map(|text| text.to_string()).collect()
}

fn chars(text: &str) -> Vec<char> {
    text.chars().collect()
}

#[test]
fn assignment_and_print_are_compiled() {
    assert_eq!(
        compile("LET a = 1\nPRINT a\n").unwrap(),
        "#include <stdio.h>\nint main(void){\nint a = 1;\nprintf(\"%d\\n\",  a);\nreturn 0;\n}\n"
    );
}

#[test]
fn the_empty_program_is_compiled() {
    assert_eq!(compile("").unwrap(), "#include <stdio.h>\nint main(void){\nreturn 0;\n}\n");
}

#[test]
fn a_countdown_is_compiled() {
    let source = "# count down\nINPUT n\nWHILE n > 0 REPEAT\n  PRINT n\n  LET n = n - 1\nENDWHILE\nPRINT \"lift off\"\n";
    let expected = "#include <stdio.h>\nint main(void){\n\
int n;\nscanf(\"%d\", &n);\n\
while ( n > 0) {\nprintf(\"%d\\n\",  n);\n\n n =  n - 1;\n\n\n\n}\n\
printf(\"lift off\\n\");\n\
return 0;\n}\n";
    assert_eq!(compile(source).unwrap(), expected);
}

#[test]
fn compiled_output_declares_each_variable_once() {
    let output = compile("LET x = 1\nLET y = x\nLET x = y + x\nPRINT x\nINPUT y\nINPUT z\nPRINT z\n").unwrap();
    assert_eq!(output.matches("int x").count(), 1);
    assert_eq!(output.matches("int y").count(), 1);
    assert_eq!(output.matches("int z").count(), 1);
}

#[test]
fn the_first_error_ends_the_compilation() {
    assert_eq!(
        compile("PRINT a\nLET b = $\n"),
        Err(CompileError::UnknownCharacter { character: '$', position: 16 })
    );
    assert_eq!(
        compile("PRINT a\nLET b 1\n"),
        Err(CompileError::UndeclaredVariable { name: "a".to_string() })
    );
    assert_eq!(
        compile("GOTO nowhere\nLET b 1\n"),
        Err(CompileError::UnexpectedToken { expected: Expected::Assign, found: Some(Token::INTEGER(1)) })
    );
    assert_eq!(
        compile("GOTO nowhere\nLET b = 1\n"),
        Err(CompileError::UndeclaredLabel { name: "nowhere".to_string() })
    );
}

#[test]
fn errors_know_their_kind() {
    assert_eq!(CompileError::UnknownCharacter { character: '?', position: 0 }.kind(), ErrorKind::Lexical);
    assert_eq!(CompileError::MalformedNumber { text: "1".to_string(), position: 0 }.kind(), ErrorKind::Lexical);
    assert_eq!(CompileError::UnterminatedString { position: 0 }.kind(), ErrorKind::Lexical);
    assert_eq!(
        CompileError::UnexpectedToken { expected: Expected::Newline, found: None }.kind(),
        ErrorKind::Syntax
    );
    assert_eq!(CompileError::UndeclaredVariable { name: "a".to_string() }.kind(), ErrorKind::Semantic);
    assert_eq!(CompileError::DuplicateLabel { name: "a".to_string() }.kind(), ErrorKind::Semantic);
    assert_eq!(CompileError::UndeclaredLabel { name: "a".to_string() }.kind(), ErrorKind::Semantic);
}

#[test]
fn config_takes_the_file_path() {
    let config = Config::build(&args(&["prog", "main.bas"])).unwrap();
    assert_eq!(config.file_path, "main.bas");
    assert!(!config.debug);
}

#[test]
fn config_sees_the_debug_flag() {
    let config = Config::build(&args(&["prog", "main.bas", "--debug"])).unwrap();
    assert_eq!(config.file_path, "main.bas");
    assert!(config.debug);
    let config = Config::build(&args(&["prog", "--debug", "main.bas"])).unwrap();
    assert_eq!(config.file_path, "--debug");
    assert!(config.debug);
}

#[test]
fn config_needs_a_file_path() {
    assert_eq!(Config::build(&args(&["prog"])).err(), Some("File path was not provided!"));
    assert_eq!(Config::build(&args(&["prog", "--debug"])).err(), Some("File path was not provided!"));
}

#[test]
fn config_takes_one_file_path_only() {
    assert_eq!(Config::build(&args(&["prog", "a", "b"])).err(), Some("Too many arguments!"));
    assert_eq!(Config::build(&args(&["prog", "a", "--debug", "b"])).err(), Some("Too many arguments!"));
}

#[test]
fn decimal_notation_of_integers() {
    assert_eq!(decimal_string(0), "0");
    assert_eq!(decimal_string(7), "7");
    assert_eq!(decimal_string(10), "10");
    assert_eq!(decimal_string(1234567890), "1234567890");
    assert_eq!(decimal_string(-1), "-1");
    assert_eq!(decimal_string(-905), "-905");
    assert_eq!(decimal_string(i64::MAX), "9223372036854775807");
    assert_eq!(decimal_string(i64::MIN), "-9223372036854775808");
}

#[test]
fn decimal_notation_is_read_back() {
    for value in [0, 1, 9, 10, 99, 100, 4711, i64::MAX] {
        let text = chars(&decimal_string(value));
        assert_eq!(parse_decimal(&text, 0, text.len()), Some(value));
    }
}

#[test]
fn parse_decimal_reads_a_part_of_the_text() {
    let text = chars("ab0123cd");
    assert_eq!(parse_decimal(&text, 2, 6), Some(123));
    assert_eq!(parse_decimal(&text, 3, 4), Some(1));
    assert_eq!(parse_decimal(&text, 4, 4), Some(0));
    assert_eq!(parse_decimal(&text, 1, 6), None);
    assert_eq!(parse_decimal(&text, 2, 7), None);
}

#[test]
fn parse_decimal_refuses_what_does_not_fit() {
    let text = chars("9223372036854775808");
    assert_eq!(parse_decimal(&text, 0, text.len()), None);
    assert_eq!(parse_decimal(&text, 0, text.len() - 1), Some(922337203685477580));
    let text = chars("-1");
    assert_eq!(parse_decimal(&text, 0, 2), None);
    let text = chars("00000000000000000000000000000000000012");
    assert_eq!(parse_decimal(&text, 0, text.len()), Some(12));
}

#[test]
fn a_name_set_keeps_each_name_once() {
    let mut set = NameSet::new();
    assert_eq!(set.len(), 0);
    assert!(set.insert("b".to_string()));
    assert!(set.insert("a".to_string()));
    assert!(!set.insert("b".to_string()));
    assert_eq!(set.len(), 2);
    assert!(set.contains("a"));
    assert!(set.contains("b"));
    assert!(!set.contains("c"));
    assert_eq!(set.get(0), "b");
    assert_eq!(set.get(1), "a");
}

#[test]
fn a_name_set_gives_names_up() {
    let mut set = NameSet::new();
    set.insert("a".to_string());
    set.insert("b".to_string());
    set.insert("c".to_string());
    assert!(set.remove("b"));
    assert!(!set.remove("b"));
    assert!(!set.remove("z"));
    assert_eq!(set.len(), 2);
    assert_eq!(set.get(0), "a");
    assert_eq!(set.get(1), "c");
    assert!(!set.contains("b"));
    assert!(set.insert("b".to_string()));
    assert_eq!(set.get(2), "b");
}

#[test]
fn a_name_set_copies_itself() {
    let mut set = NameSet::new();
    set.insert("x".to_string());
    set.insert("y".to_string());
    let mut copy = set.clone();
    assert_eq!(copy.len(), 2);
    assert_eq!(copy.get(0), "x");
    assert_eq!(copy.get(1), "y");
    copy.remove("x");
    assert!(set.contains("x"));
    assert!(!copy.contains("x"));
}
