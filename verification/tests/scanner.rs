use basic_compiler::error::{CompileError, ErrorKind};
use basic_compiler::lexer::{classify, CharClass, Lexer, Token};
use basic_compiler::text::decimal_string;

fn scan(text: &str) -> Result<Vec<Token>, CompileError> {
    let mut lexer = Lexer::new();
    lexer.parse(text)?;
    Ok(lexer.tokens)
}

fn name(text: &str) -> Token {
    Token::VARIABLE(text.to_string())
}

#[test]
fn scans_print_of_a_string() {
    assert_eq!(
        scan("PRINT \"hi\"\n").unwrap(),
        vec![Token::PRINT, Token::STRING("hi".to_string()), Token::NEWLINE]
    );
}

#[test]
fn scans_let_of_an_integer() {
    assert_eq!(
        scan("LET a = 5\n").unwrap(),
        vec![Token::LET, name("a"), Token::EQ, Token::INTEGER(5), Token::NEWLINE]
    );
}

#[test]
fn empty_text_has_no_tokens() {
    assert_eq!(scan("").unwrap(), vec![]);
}

#[test]
fn new_lexer_holds_nothing() {
    assert!(Lexer::new().tokens.is_empty());
}

#[test]
fn every_keyword_is_recognised() {
    assert_eq!(
        scan("PRINT LABEL GOTO INPUT LET IF THEN ENDIF WHILE REPEAT ENDWHILE").unwrap(),
        vec![
            Token::PRINT,
            Token::LABEL,
            Token::GOTO,
            Token::INPUT,
            Token::LET,
            Token::IF,
            Token::THEN,
            Token::ENDIF,
            Token::WHILE,
            Token::REPEAT,
            Token::ENDWHILE,
        ]
    );
}

#[test]
fn keywords_are_case_sensitive() {
    assert_eq!(scan("print Print PRINTS").unwrap(), vec![name("print"), name("Print"), name("PRINTS")]);
}

#[test]
fn every_operator_is_recognised() {
    assert_eq!(
        scan("= + - * / == != < <= > >=").unwrap(),
        vec![
            Token::EQ,
            Token::PLUS,
            Token::MINUS,
            Token::ASTERISK,
            Token::SLASH,
            Token::EQEQ,
            Token::NOTEQ,
            Token::LT,
            Token::LTEQ,
            Token::GT,
            Token::GTEQ,
        ]
    );
}

#[test]
fn two_character_operators_win_over_one() {
    assert_eq!(scan("===").unwrap(), vec![Token::EQEQ, Token::EQ]);
    assert_eq!(scan("<==").unwrap(), vec![Token::LTEQ, Token::EQ]);
    assert_eq!(scan(">=>").unwrap(), vec![Token::GTEQ, Token::GT]);
    assert_eq!(scan("=<").unwrap(), vec![Token::EQ, Token::LT]);
}

#[test]
fn tokens_need_no_space_between_them() {
    assert_eq!(
        scan("LET a=b+1\n").unwrap(),
        vec![
            Token::LET,
            name("a"),
            Token::EQ,
            name("b"),
            Token::PLUS,
            Token::INTEGER(1),
            Token::NEWLINE,
        ]
    );
    assert_eq!(scan("a\"x\"").unwrap(), vec![name("a"), Token::STRING("x".to_string())]);
    assert_eq!(scan("5abc").unwrap(), vec![Token::INTEGER(5), name("abc")]);
}

#[test]
fn a_line_break_behind_a_short_word_is_kept() {
    assert_eq!(scan("a\n").unwrap(), vec![name("a"), Token::NEWLINE]);
    assert_eq!(scan("7\n").unwrap(), vec![Token::INTEGER(7), Token::NEWLINE]);
}

#[test]
fn white_space_is_skipped() {
    assert_eq!(scan(" \t\r a \t b  ").unwrap(), vec![name("a"), name("b")]);
}

#[test]
fn every_line_break_is_a_token() {
    assert_eq!(scan("\n\n \n").unwrap(), vec![Token::NEWLINE, Token::NEWLINE, Token::NEWLINE]);
}

#[test]
fn a_comment_runs_to_the_end_of_the_line() {
    assert_eq!(
        scan("PRINT a # PRINT b \"\nPRINT c").unwrap(),
        vec![Token::PRINT, name("a"), Token::NEWLINE, Token::PRINT, name("c")]
    );
    assert_eq!(scan("# only a comment").unwrap(), vec![]);
}

#[test]
fn a_string_is_taken_verbatim() {
    assert_eq!(
        scan("\"a # b\\n\nLET 1 \"").unwrap(),
        vec![Token::STRING("a # b\\n\nLET 1 ".to_string())]
    );
    assert_eq!(scan("\"\"").unwrap(), vec![Token::STRING(String::new())]);
}

#[test]
fn an_unterminated_string_is_an_error() {
    assert_eq!(scan("PRINT \"abc\n"), Err(CompileError::UnterminatedString { position: 6 }));
    assert_eq!(scan("\""), Err(CompileError::UnterminatedString { position: 0 }));
}

#[test]
fn words_hold_letters_and_digits() {
    assert_eq!(scan("abc123 x9y").unwrap(), vec![name("abc123"), name("x9y")]);
    assert_eq!(scan("h\u{e9}llo").unwrap(), vec![name("h\u{e9}llo")]);
}

#[test]
fn integers_up_to_the_largest() {
    assert_eq!(scan("0").unwrap(), vec![Token::INTEGER(0)]);
    assert_eq!(scan("007").unwrap(), vec![Token::INTEGER(7)]);
    assert_eq!(scan("9223372036854775807").unwrap(), vec![Token::INTEGER(i64::MAX)]);
}

#[test]
fn an_integer_out_of_range_is_malformed() {
    assert_eq!(
        scan("LET a = 9223372036854775808"),
        Err(CompileError::MalformedNumber {
            text: "9223372036854775808".to_string(),
            position: 8,
        })
    );
    assert_eq!(
        scan("99999999999999999999999999"),
        Err(CompileError::MalformedNumber {
            text: "99999999999999999999999999".to_string(),
            position: 0,
        })
    );
}

#[test]
fn a_digit_of_another_script_is_malformed() {
    assert_eq!(
        scan("1\u{663}"),
        Err(CompileError::MalformedNumber { text: "1\u{663}".to_string(), position: 0 })
    );
    assert_eq!(
        scan("1.\u{663}"),
        Err(CompileError::MalformedNumber { text: "1.\u{663}".to_string(), position: 0 })
    );
}

#[test]
fn a_point_makes_a_float() {
    assert_eq!(scan("1.5").unwrap(), vec![Token::FLOAT("1.5".to_string())]);
    assert_eq!(scan("10.").unwrap(), vec![Token::FLOAT("10.".to_string())]);
    assert_eq!(scan("3.14+x").unwrap(), vec![Token::FLOAT("3.14".to_string()), Token::PLUS, name("x")]);
}

#[test]
fn a_number_holds_one_point_at_most() {
    assert_eq!(scan("1.2.3"), Err(CompileError::UnknownCharacter { character: '.', position: 3 }));
    assert_eq!(scan(".5"), Err(CompileError::UnknownCharacter { character: '.', position: 0 }));
}

#[test]
fn an_unknown_character_is_an_error() {
    assert_eq!(scan("LET a = 1 ; x"), Err(CompileError::UnknownCharacter { character: ';', position: 10 }));
    assert_eq!(scan("a_b"), Err(CompileError::UnknownCharacter { character: '_', position: 1 }));
    assert_eq!(scan("\u{e9}t\u{e9} $"), Err(CompileError::UnknownCharacter { character: '$', position: 4 }));
}

#[test]
fn a_lone_exclamation_mark_is_an_error() {
    assert_eq!(scan("a ! b"), Err(CompileError::UnknownCharacter { character: '!', position: 2 }));
    assert_eq!(scan("!"), Err(CompileError::UnknownCharacter { character: '!', position: 0 }));
    assert_eq!(scan("!=").unwrap(), vec![Token::NOTEQ]);
}

#[test]
fn lexical_errors_are_lexical() {
    assert_eq!(scan("$").unwrap_err().kind(), ErrorKind::Lexical);
    assert_eq!(scan("\"").unwrap_err().kind(), ErrorKind::Lexical);
    assert_eq!(scan("99999999999999999999").unwrap_err().kind(), ErrorKind::Lexical);
}

#[test]
fn a_second_scan_appends() {
    let mut lexer = Lexer::new();
    lexer.parse("LET a").unwrap();
    lexer.parse("= 1\n").unwrap();
    assert_eq!(
        lexer.tokens,
        vec![Token::LET, name("a"), Token::EQ, Token::INTEGER(1), Token::NEWLINE]
    );
}

#[test]
fn a_failed_scan_leaves_the_tokens() {
    let mut lexer = Lexer::new();
    lexer.parse("PRINT a\n").unwrap();
    assert!(lexer.parse("PRINT b ? c\n").is_err());
    assert_eq!(lexer.tokens, vec![Token::PRINT, name("a"), Token::NEWLINE]);
}

#[test]
fn scanning_twice_gives_the_same() {
    let text = "LET a = 1\nWHILE a < 10 REPEAT\nLET a = a + 1.5 # more\nENDWHILE\nPRINT \"done\"\n";
    assert_eq!(scan(text), scan(text));
    assert_eq!(scan("LET a = $"), scan("LET a = $"));
}

#[test]
fn fixed_spellings() {
    assert_eq!(Token::from_str("PRINT"), Some(Token::PRINT));
    assert_eq!(Token::from_str("ENDWHILE"), Some(Token::ENDWHILE));
    assert_eq!(Token::from_str("=="), Some(Token::EQEQ));
    assert_eq!(Token::from_str("!="), Some(Token::NOTEQ));
    assert_eq!(Token::from_str("<"), Some(Token::LT));
    assert_eq!(Token::from_str("\n"), Some(Token::NEWLINE));
    assert_eq!(Token::from_str("!"), None);
    assert_eq!(Token::from_str("print"), None);
    assert_eq!(Token::from_str(""), None);
    assert_eq!(Token::from_str("a"), None);
}

#[test]
fn a_token_copies_itself() {
    let token = Token::VARIABLE("abc".to_string());
    assert_eq!(token.clone(), token);
    assert_eq!(Token::INTEGER(-4).clone(), Token::INTEGER(-4));
    assert_eq!(Token::GTEQ.clone(), Token::GTEQ);
}

#[test]
fn characters_are_classed() {
    assert_eq!(classify('a'), CharClass { whitespace: false, alphabetic: true, numeric: false });
    assert_eq!(classify('Z'), CharClass { whitespace: false, alphabetic: true, numeric: false });
    assert_eq!(classify('\u{e9}'), CharClass { whitespace: false, alphabetic: true, numeric: false });
    assert_eq!(classify('7'), CharClass { whitespace: false, alphabetic: false, numeric: true });
    assert_eq!(classify('\u{663}'), CharClass { whitespace: false, alphabetic: false, numeric: true });
    assert_eq!(classify(' '), CharClass { whitespace: true, alphabetic: false, numeric: false });
    assert_eq!(classify('\t'), CharClass { whitespace: true, alphabetic: false, numeric: false });
    assert_eq!(classify('\n'), CharClass { whitespace: true, alphabetic: false, numeric: false });
    assert_eq!(classify('_'), CharClass { whitespace: false, alphabetic: false, numeric: false });
    assert_eq!(classify('+'), CharClass { whitespace: false, alphabetic: false, numeric: false });
}

#[test]
fn a_scan_goes_by_the_classes_given() {
    let letter = CharClass { whitespace: false, alphabetic: true, numeric: false };
    let digit = CharClass { whitespace: false, alphabetic: false, numeric: true };
    let space = CharClass { whitespace: true, alphabetic: false, numeric: false };
    let other = CharClass { whitespace: false, alphabetic: false, numeric: false };
    let src: Vec<char> = "<a 1\n".chars().collect();
    assert_eq!(
        Lexer::scan_classified(&src, &vec![other, letter, space, digit, space]),
        Ok(vec![Token::LT, name("a"), Token::INTEGER(1), Token::NEWLINE])
    );
    let src: Vec<char> = "_x1".chars().collect();
    assert_eq!(
        Lexer::scan_classified(&src, &vec![letter, letter, digit]),
        Ok(vec![name("_x1")])
    );
    assert_eq!(
        Lexer::scan_classified(&src, &vec![space, letter, other]),
        Err(CompileError::UnknownCharacter { character: '1', position: 2 })
    );
    assert_eq!(
        Lexer::scan_classified(&src, &vec![digit, digit, digit]),
        Err(CompileError::MalformedNumber { text: "_x1".to_string(), position: 0 })
    );
    assert_eq!(Lexer::scan_classified(&vec![], &vec![]), Ok(vec![]));
}

#[test]
fn written_integers_are_read_back() {
    for value in [0, 1, 9, 10, 42, 1000, 9_007_199_254_740_993, i64::MAX] {
        assert_eq!(scan(&decimal_string(value)).unwrap(), vec![Token::INTEGER(value)]);
    }
}

#[test]
fn a_written_negative_integer_is_read_as_a_sign_and_an_integer() {
    assert_eq!(scan(&decimal_string(-42)).unwrap(), vec![Token::MINUS, Token::INTEGER(42)]);
}

#[test]
fn a_line_break_in_a_string_is_no_token() {
    assert_eq!(
        scan("PRINT \"a\nb\"\n").unwrap(),
        vec![Token::PRINT, Token::STRING("a\nb".to_string()), Token::NEWLINE]
    );
}

#[test]
fn as_many_line_break_tokens_as_line_breaks() {
    let text = "LET a = 1 # one\n\n  # two\nPRINT a\n\t\nGOTO x\n";
    let breaks = text.chars().filter(|c| *c == '\n').count();
    let tokens = scan(text).unwrap();
    assert_eq!(breaks, 6);
    assert_eq!(tokens.iter().filter(|token| **token == Token::NEWLINE).count(), breaks);
}

#[test]
fn what_a_comment_says_is_ignored() {
    let first = "PRINT a # LET b = \"1\n# $$$\nPRINT b\n";
    let other = "PRINT a #xxxxxxxxxxx\n#?!\"#\nPRINT b\n";
    assert_eq!(first.chars().count(), other.chars().count());
    assert_eq!(scan(first).unwrap(), scan(other).unwrap());
    assert_eq!(
        scan(first).unwrap(),
        vec![
            Token::PRINT,
            name("a"),
            Token::NEWLINE,
            Token::NEWLINE,
            Token::PRINT,
            name("b"),
            Token::NEWLINE,
        ]
    );
}
