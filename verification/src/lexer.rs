//! The scanner: from source text to tokens.
//!
//! The text is read from left to right. A line break is a token of its own.
//! `#` starts a comment that runs up to the end of the line. `"` starts a
//! string literal that runs, without escapes, up to the next `"`. One of
//! `= + - * / < > !` starts an operator, of two characters where two fit.
//! Other white space separates tokens. A letter starts a word of letters
//! and digits, which is a keyword or a name. A digit starts a number:
//! digits, and behind them at most one `.` with further digits. A string
//! literal that the text ends in, without its closing `"`, is an error.
//!
//! Letters, digits and white space are what `char::is_alphabetic`,
//! `char::is_numeric` and `char::is_whitespace` say they are: every
//! character is classed by them once ([`classify`]), and the scan itself
//! ([`Lexer::scan_classified`]) works on the characters and their classes.
//! A number with a digit beyond `0` to `9`, or an integer beyond 64 signed
//! bits, is malformed.
use crate::error::{failure_of, CompileError, CompileErrorView};
use crate::text::{all_decimal_digits, decimal_value, is_decimal_digit, parse_decimal};
use vstd::prelude::*;
use vstd::string::StringExecFns;

verus! {

/// The smallest unit of a program's text.
#[allow(clippy::upper_case_acronyms)]
#[derive(Debug, PartialEq)]
pub enum Token {
    /// The end of the tokens; the scanner never makes one.
    EOF,
    /// A line break, which ends a statement.
    NEWLINE,
    /// A name, of a variable or of a label.
    VARIABLE(String),
    /// A string literal, without its quotes.
    STRING(String),
    /// A literal of digits alone.
    INTEGER(i64),
    /// A literal with a decimal point, kept as it was written.
    FLOAT(String),
    // Keywords
    PRINT,
    LABEL,
    GOTO,
    INPUT,
    LET,
    IF,
    THEN,
    ENDIF,
    WHILE,
    REPEAT,
    ENDWHILE,
    // Operators
    EQ,
    PLUS,
    MINUS,
    ASTERISK,
    SLASH,
    EQEQ,
    NOTEQ,
    LT,
    LTEQ,
    GT,
    GTEQ,
}

/// The model of a [`Token`].
pub enum TokenView {
    EOF,
    NEWLINE,
    VARIABLE(Seq<char>),
    STRING(Seq<char>),
    INTEGER(i64),
    FLOAT(Seq<char>),
    PRINT,
    LABEL,
    GOTO,
    INPUT,
    LET,
    IF,
    THEN,
    ENDIF,
    WHILE,
    REPEAT,
    ENDWHILE,
    EQ,
    PLUS,
    MINUS,
    ASTERISK,
    SLASH,
    EQEQ,
    NOTEQ,
    LT,
    LTEQ,
    GT,
    GTEQ,
}

impl DeepView for Token {
    type V = TokenView;

    open spec fn deep_view(&self) -> TokenView {
        match self {
            Token::EOF => TokenView::EOF,
            Token::NEWLINE => TokenView::NEWLINE,
            Token::VARIABLE(name) => TokenView::VARIABLE(name@),
            Token::STRING(text) => TokenView::STRING(text@),
            Token::INTEGER(value) => TokenView::INTEGER(*value),
            Token::FLOAT(text) => TokenView::FLOAT(text@),
            Token::PRINT => TokenView::PRINT,
            Token::LABEL => TokenView::LABEL,
            Token::GOTO => TokenView::GOTO,
            Token::INPUT => TokenView::INPUT,
            Token::LET => TokenView::LET,
            Token::IF => TokenView::IF,
            Token::THEN => TokenView::THEN,
            Token::ENDIF => TokenView::ENDIF,
            Token::WHILE => TokenView::WHILE,
            Token::REPEAT => TokenView::REPEAT,
            Token::ENDWHILE => TokenView::ENDWHILE,
            Token::EQ => TokenView::EQ,
            Token::PLUS => TokenView::PLUS,
            Token::MINUS => TokenView::MINUS,
            Token::ASTERISK => TokenView::ASTERISK,
            Token::SLASH => TokenView::SLASH,
            Token::EQEQ => TokenView::EQEQ,
            Token::NOTEQ => TokenView::NOTEQ,
            Token::LT => TokenView::LT,
            Token::LTEQ => TokenView::LTEQ,
            Token::GT => TokenView::GT,
            Token::GTEQ => TokenView::GTEQ,
        }
    }
}

impl View for Token {
    type V = TokenView;

    open spec fn view(&self) -> TokenView {
        self.deep_view()
    }
}

impl Clone for Token {
    fn clone(&self) -> (copy: Token)
        ensures
            copy@ == self@,
    {
        match self {
            Token::EOF => Token::EOF,
            Token::NEWLINE => Token::NEWLINE,
            Token::VARIABLE(name) => Token::VARIABLE(name.clone()),
            Token::STRING(text) => Token::STRING(text.clone()),
            Token::INTEGER(value) => Token::INTEGER(*value),
            Token::FLOAT(text) => Token::FLOAT(text.clone()),
            Token::PRINT => Token::PRINT,
            Token::LABEL => Token::LABEL,
            Token::GOTO => Token::GOTO,
            Token::INPUT => Token::INPUT,
            Token::LET => Token::LET,
            Token::IF => Token::IF,
            Token::THEN => Token::THEN,
            Token::ENDIF => Token::ENDIF,
            Token::WHILE => Token::WHILE,
            Token::REPEAT => Token::REPEAT,
            Token::ENDWHILE => Token::ENDWHILE,
            Token::EQ => Token::EQ,
            Token::PLUS => Token::PLUS,
            Token::MINUS => Token::MINUS,
            Token::ASTERISK => Token::ASTERISK,
            Token::SLASH => Token::SLASH,
            Token::EQEQ => Token::EQEQ,
            Token::NOTEQ => Token::NOTEQ,
            Token::LT => Token::LT,
            Token::LTEQ => Token::LTEQ,
            Token::GT => Token::GT,
            Token::GTEQ => Token::GTEQ,
        }
    }
}

/// The token that a fixed spelling stands for: one of the eleven keywords,
/// one of the eleven operators, or the line break.
pub open spec fn fixed_token(spelling: Seq<char>) -> Option<TokenView> {
    if spelling == "PRINT"@ {
        Some(TokenView::PRINT)
    } else if spelling == "LABEL"@ {
        Some(TokenView::LABEL)
    } else if spelling == "GOTO"@ {
        Some(TokenView::GOTO)
    } else if spelling == "INPUT"@ {
        Some(TokenView::INPUT)
    } else if spelling == "LET"@ {
        Some(TokenView::LET)
    } else if spelling == "IF"@ {
        Some(TokenView::IF)
    } else if spelling == "THEN"@ {
        Some(TokenView::THEN)
    } else if spelling == "ENDIF"@ {
        Some(TokenView::ENDIF)
    } else if spelling == "WHILE"@ {
        Some(TokenView::WHILE)
    } else if spelling == "REPEAT"@ {
        Some(TokenView::REPEAT)
    } else if spelling == "ENDWHILE"@ {
        Some(TokenView::ENDWHILE)
    } else if spelling == "="@ {
        Some(TokenView::EQ)
    } else if spelling == "+"@ {
        Some(TokenView::PLUS)
    } else if spelling == "-"@ {
        Some(TokenView::MINUS)
    } else if spelling == "*"@ {
        Some(TokenView::ASTERISK)
    } else if spelling == "/"@ {
        Some(TokenView::SLASH)
    } else if spelling == "<"@ {
        Some(TokenView::LT)
    } else if spelling == ">"@ {
        Some(TokenView::GT)
    } else if spelling == "=="@ {
        Some(TokenView::EQEQ)
    } else if spelling == "<="@ {
        Some(TokenView::LTEQ)
    } else if spelling == ">="@ {
        Some(TokenView::GTEQ)
    } else if spelling == "!="@ {
        Some(TokenView::NOTEQ)
    } else if spelling == "\n"@ {
        Some(TokenView::NEWLINE)
    } else {
        None
    }
}

/// Whether `text` and `spelling` are the same characters.
fn spelled(text: &String, spelling: &str) -> (same: bool)
    ensures
        same == (text@ == spelling@),
{
    let other = String::from_str(spelling);
    *text == other
}

impl Token {
    /// The keyword, operator or line break that `token` spells, if it
    /// spells one.
    pub fn from_str(token: &str) -> (found: Option<Token>)
        ensures
            found.deep_view() == fixed_token(token@),
    {
        let text = String::from_str(token);
        if spelled(&text, "PRINT") {
            Some(Token::PRINT)
        } else if spelled(&text, "LABEL") {
            Some(Token::LABEL)
        } else if spelled(&text, "GOTO") {
            Some(Token::GOTO)
        } else if spelled(&text, "INPUT") {
            Some(Token::INPUT)
        } else if spelled(&text, "LET") {
            Some(Token::LET)
        } else if spelled(&text, "IF") {
            Some(Token::IF)
        } else if spelled(&text, "THEN") {
            Some(Token::THEN)
        } else if spelled(&text, "ENDIF") {
            Some(Token::ENDIF)
        } else if spelled(&text, "WHILE") {
            Some(Token::WHILE)
        } else if spelled(&text, "REPEAT") {
            Some(Token::REPEAT)
        } else if spelled(&text, "ENDWHILE") {
            Some(Token::ENDWHILE)
        } else if spelled(&text, "=") {
            Some(Token::EQ)
        } else if spelled(&text, "+") {
            Some(Token::PLUS)
        } else if spelled(&text, "-") {
            Some(Token::MINUS)
        } else if spelled(&text, "*") {
            Some(Token::ASTERISK)
        } else if spelled(&text, "/") {
            Some(Token::SLASH)
        } else if spelled(&text, "<") {
            Some(Token::LT)
        } else if spelled(&text, ">") {
            Some(Token::GT)
        } else if spelled(&text, "==") {
            Some(Token::EQEQ)
        } else if spelled(&text, "<=") {
            Some(Token::LTEQ)
        } else if spelled(&text, ">=") {
            Some(Token::GTEQ)
        } else if spelled(&text, "!=") {
            Some(Token::NOTEQ)
        } else if spelled(&text, "\n") {
            Some(Token::NEWLINE)
        } else {
            None
        }
    }
}

/// Whether `char::is_whitespace` holds of `c`.
pub uninterp spec fn is_whitespace_char(c: char) -> bool;

/// Whether `char::is_alphabetic` holds of `c`.
pub uninterp spec fn is_alphabetic_char(c: char) -> bool;

/// Whether `char::is_numeric` holds of `c`.
pub uninterp spec fn is_numeric_char(c: char) -> bool;

/// `char::is_whitespace` tells whether a character has the Unicode property
/// `White_Space`; the outcome depends on the character alone.
pub assume_specification[ char::is_whitespace ](c: char) -> (yes: bool)
    ensures
        yes == is_whitespace_char(c),
;

/// `char::is_alphabetic` tells whether a character has the Unicode property
/// `Alphabetic`; the outcome depends on the character alone.
pub assume_specification[ char::is_alphabetic ](c: char) -> (yes: bool)
    ensures
        yes == is_alphabetic_char(c),
;

/// `char::is_numeric` tells whether a character is in one of the Unicode
/// number categories; the outcome depends on the character alone.
pub assume_specification[ char::is_numeric ](c: char) -> (yes: bool)
    ensures
        yes == is_numeric_char(c),
;

/// What the scanner needs to know of a character beyond the character
/// itself.
#[derive(Clone, Copy, Debug, PartialEq, Eq, Structural)]
pub struct CharClass {
    /// White space: it separates tokens.
    pub whitespace: bool,
    /// A letter: it starts a word and goes on one.
    pub alphabetic: bool,
    /// A digit: it starts a number and goes on a word.
    pub numeric: bool,
}

/// The class of `c`.
pub open spec fn class_of(c: char) -> CharClass {
    CharClass {
        whitespace: is_whitespace_char(c),
        alphabetic: is_alphabetic_char(c),
        numeric: is_numeric_char(c),
    }
}

/// The classes of the characters of a text.
pub open spec fn classes_of(text: Seq<char>) -> Seq<CharClass> {
    Seq::new(text.len(), |i: int| class_of(text[i]))
}

/// Classes a character.
pub fn classify(c: char) -> (class: CharClass)
    ensures
        class == class_of(c),
{
    CharClass {
        whitespace: c.is_whitespace(),
        alphabetic: c.is_alphabetic(),
        numeric: c.is_numeric(),
    }
}

/// The kinds of character runs that the scanner follows to their end.
#[derive(Clone, Copy, Debug, PartialEq, Eq, Structural)]
pub enum Run {
    /// Letters and digits: the rest of a word.
    Word,
    /// Digits: a part of a number.
    Digits,
    /// Anything but a line break: a comment.
    Comment,
    /// Anything but a double quote: the inside of a string literal.
    Quoted,
}

/// Whether the character `c` of the class `class` goes on a run of the kind
/// `run`.
pub open spec fn continues(run: Run, c: char, class: CharClass) -> bool {
    match run {
        Run::Word => class.alphabetic || class.numeric,
        Run::Digits => class.numeric,
        Run::Comment => c != '\n',
        Run::Quoted => c != '"',
    }
}

/// The index behind the longest run of the kind `run` that starts at
/// `from`: that of the first character at or behind `from` that does not go
/// on the run, or the length of the text.
pub open spec fn run_end(src: Seq<char>, classes: Seq<CharClass>, from: int, run: Run) -> int
    decreases src.len() - from,
{
    if 0 <= from < src.len() && continues(run, src[from], classes[from]) {
        run_end(src, classes, from + 1, run)
    } else {
        from
    }
}

/// Whether `c` is a character that starts an operator.
pub open spec fn starts_operator(c: char) -> bool {
    c == '=' || c == '+' || c == '-' || c == '*' || c == '/' || c == '<' || c == '>' || c == '!'
}

/// One step of the scanner: the token that starts at `pos`, if one starts
/// there, and the index at which the scan goes on.
pub type Step = Result<(Option<TokenView>, int), CompileErrorView>;

/// The string literal whose opening quote is at `pos`.
pub open spec fn lex_string(src: Seq<char>, classes: Seq<CharClass>, pos: int) -> Step {
    let close = run_end(src, classes, pos + 1, Run::Quoted);
    if close < src.len() {
        Ok((Some(TokenView::STRING(src.subrange(pos + 1, close))), close + 1))
    } else {
        Err(CompileErrorView::UnterminatedString { position: pos })
    }
}

/// The operator that starts at `pos`: the one of two characters where the
/// character at `pos` and the next spell one, else the one that the
/// character at `pos` spells alone.
pub open spec fn lex_operator(src: Seq<char>, pos: int) -> Step {
    let single = seq![src[pos]];
    if pos + 1 < src.len() && fixed_token(single.push(src[pos + 1])) is Some {
        Ok((fixed_token(single.push(src[pos + 1])), pos + 2))
    } else if fixed_token(single) is Some {
        Ok((fixed_token(single), pos + 1))
    } else {
        Err(CompileErrorView::UnknownCharacter { character: src[pos], position: pos })
    }
}

/// The keyword or name that starts at `pos`.
pub open spec fn lex_word(src: Seq<char>, classes: Seq<CharClass>, pos: int) -> Step {
    let end = run_end(src, classes, pos + 1, Run::Word);
    let word = src.subrange(pos, end);
    match fixed_token(word) {
        Some(token) => Ok((Some(token), end)),
        None => Ok((Some(TokenView::VARIABLE(word)), end)),
    }
}

/// The number that starts at `pos`.
pub open spec fn lex_number(src: Seq<char>, classes: Seq<CharClass>, pos: int) -> Step {
    let point = run_end(src, classes, pos + 1, Run::Digits);
    if point < src.len() && src[point] == '.' {
        let end = run_end(src, classes, point + 1, Run::Digits);
        let text = src.subrange(pos, end);
        if all_decimal_digits(src.subrange(pos, point)) && all_decimal_digits(
            src.subrange(point + 1, end),
        ) {
            Ok((Some(TokenView::FLOAT(text)), end))
        } else {
            Err(CompileErrorView::MalformedNumber { text, position: pos })
        }
    } else {
        let text = src.subrange(pos, point);
        if all_decimal_digits(text) && decimal_value(text) <= i64::MAX {
            Ok((Some(TokenView::INTEGER(decimal_value(text) as i64)), point))
        } else {
            Err(CompileErrorView::MalformedNumber { text, position: pos })
        }
    }
}

/// What the scanner does at `pos`, an index into the text.
pub open spec fn lex_at(src: Seq<char>, classes: Seq<CharClass>, pos: int) -> Step
    recommends
        0 <= pos < src.len(),
        classes.len() == src.len(),
{
    let c = src[pos];
    let class = classes[pos];
    if c == '\n' {
        Ok((Some(TokenView::NEWLINE), pos + 1))
    } else if c == '#' {
        Ok((None, run_end(src, classes, pos + 1, Run::Comment)))
    } else if c == '"' {
        lex_string(src, classes, pos)
    } else if starts_operator(c) {
        lex_operator(src, pos)
    } else if class.whitespace {
        Ok((None, pos + 1))
    } else if class.alphabetic {
        lex_word(src, classes, pos)
    } else if class.numeric {
        lex_number(src, classes, pos)
    } else {
        Err(CompileErrorView::UnknownCharacter { character: c, position: pos })
    }
}

/// A run ends at or behind its start, and within the text.
pub proof fn lemma_run_end_bounds(src: Seq<char>, classes: Seq<CharClass>, from: int, run: Run)
    requires
        0 <= from <= src.len(),
    ensures
        from <= run_end(src, classes, from, run) <= src.len(),
    decreases src.len() - from,
{
    if from < src.len() && continues(run, src[from], classes[from]) {
        lemma_run_end_bounds(src, classes, from + 1, run);
    }
}

/// Every step of the scanner moves on, and stays within the text.
pub proof fn lemma_lex_advances(src: Seq<char>, classes: Seq<CharClass>, pos: int)
    requires
        0 <= pos < src.len(),
    ensures
        lex_at(src, classes, pos) matches Ok((_, next)) ==> pos < next <= src.len(),
{
    lemma_run_end_bounds(src, classes, pos + 1, Run::Comment);
    lemma_run_end_bounds(src, classes, pos + 1, Run::Quoted);
    lemma_run_end_bounds(src, classes, pos + 1, Run::Word);
    lemma_run_end_bounds(src, classes, pos + 1, Run::Digits);
    let point = run_end(src, classes, pos + 1, Run::Digits);
    if point < src.len() {
        lemma_run_end_bounds(src, classes, point + 1, Run::Digits);
    }
}

/// The tokens of the text from `pos` on, or the first error met.
pub open spec fn scan_from(src: Seq<char>, classes: Seq<CharClass>, pos: int) -> Result<
    Seq<TokenView>,
    CompileErrorView,
>
    decreases src.len() - pos,
{
    if 0 <= pos < src.len() {
        match lex_at(src, classes, pos) {
            Err(error) => Err(error),
            Ok((token, next)) => {
                proof {
                    lemma_lex_advances(src, classes, pos);
                }
                match scan_from(src, classes, next) {
                    Err(error) => Err(error),
                    Ok(rest) => Ok(
                        match token {
                            Some(token) => seq![token] + rest,
                            None => rest,
                        },
                    ),
                }
            },
        }
    } else {
        Ok(Seq::empty())
    }
}

/// The tokens of a text whose characters have the classes given, one for
/// each, or the first error met in it.
pub open spec fn scan_classes(src: Seq<char>, classes: Seq<CharClass>) -> Result<
    Seq<TokenView>,
    CompileErrorView,
>
    recommends
        classes.len() == src.len(),
{
    scan_from(src, classes, 0)
}

/// The tokens of a text, or the first error met in it.
pub open spec fn scan(src: Seq<char>) -> Result<Seq<TokenView>, CompileErrorView> {
    scan_classes(src, classes_of(src))
}

/// What a scan of `text` makes of the tokens gathered `before`: where the
/// text can be scanned it succeeds and appends the tokens of the text,
/// otherwise it fails with the first error and leaves the tokens as they
/// were.
pub open spec fn scans_to(
    before: Seq<TokenView>,
    text: Seq<char>,
    failure: Option<CompileErrorView>,
    after: Seq<TokenView>,
) -> bool {
    match scan(text) {
        Ok(tokens) => failure is None && after == before + tokens,
        Err(error) => failure == Some(error) && after == before,
    }
}

/// Scanning is a function of the text: two scans of the same text, begun
/// with the same tokens gathered, end alike, in the tokens and in the
/// error.
pub proof fn lemma_scan_is_repeatable(
    before: Seq<TokenView>,
    text: Seq<char>,
    first_failure: Option<CompileErrorView>,
    first_after: Seq<TokenView>,
    second_failure: Option<CompileErrorView>,
    second_after: Seq<TokenView>,
)
    requires
        scans_to(before, text, first_failure, first_after),
        scans_to(before, text, second_failure, second_after),
    ensures
        first_failure == second_failure,
        first_after == second_after,
{
}

/// The state of a scanner: the tokens gathered so far.
pub struct Lexer {
    pub tokens: Vec<Token>,
}

/// What a scanning step hands back: the token that it read, if it read
/// one, and the index at which the scan goes on.
pub open spec fn step_matches(
    step: Step,
    src: Seq<char>,
    pos: int,
    outcome: Result<(Option<Token>, usize), CompileError>,
) -> bool {
    match step {
        Ok((token, next)) => outcome matches Ok((found, end)) && found.deep_view() == token && end
            == next && pos < next <= src.len(),
        Err(error) => outcome matches Err(raised) && raised@ == error,
    }
}

/// The characters of `text` and their classes.
fn classified(text: &str) -> (parts: (Vec<char>, Vec<CharClass>))
    ensures
        parts.0@ == text@,
        parts.1@ == classes_of(text@),
{
    let mut src: Vec<char> = Vec::new();
    let mut classes: Vec<CharClass> = Vec::new();
    for c in it: text.chars()
        invariant
            it.seq() == text@,
            src@ == it.seq().take(it.index()),
            classes@ == classes_of(src@),
    {
        src.push(c);
        classes.push(classify(c));
        assert(classes@ =~= classes_of(src@));
    }
    assert(src@ =~= text@);
    (src, classes)
}

/// The characters `src[from..to]` as a string.
fn text_between(src: &Vec<char>, from: usize, to: usize) -> (text: String)
    requires
        from <= to <= src.len(),
    ensures
        text@ == src@.subrange(from as int, to as int),
{
    let mut text = String::new();
    let mut i: usize = from;
    while i < to
        invariant
            from <= i <= to <= src.len(),
            text@ == src@.subrange(from as int, i as int),
        decreases to - i,
    {
        text.push(src[i]);
        i += 1;
        assert(text@ =~= src@.subrange(from as int, i as int));
    }
    text
}

/// Whether the character `c` of the class `class` goes on a run of the kind
/// `run`.
fn goes_on(run: Run, c: char, class: CharClass) -> (yes: bool)
    ensures
        yes == continues(run, c, class),
{
    match run {
        Run::Word => class.alphabetic || class.numeric,
        Run::Digits => class.numeric,
        Run::Comment => c != '\n',
        Run::Quoted => c != '"',
    }
}

/// Follows a run of the kind `run` from `from` to its end.
fn follow(src: &Vec<char>, classes: &Vec<CharClass>, from: usize, run: Run) -> (end: usize)
    requires
        classes.len() == src.len(),
        from <= src.len(),
    ensures
        end == run_end(src@, classes@, from as int, run),
        from <= end <= src.len(),
{
    let mut end: usize = from;
    while end < src.len() && goes_on(run, src[end], classes[end])
        invariant
            classes.len() == src.len(),
            from <= end <= src.len(),
            run_end(src@, classes@, from as int, run) == run_end(src@, classes@, end as int, run),
        decreases src.len() - end,
    {
        end += 1;
    }
    end
}

/// Whether each of `src[from..to]` is one of `0` to `9`.
fn plain_digits(src: &Vec<char>, from: usize, to: usize) -> (yes: bool)
    requires
        from <= to <= src.len(),
    ensures
        yes == all_decimal_digits(src@.subrange(from as int, to as int)),
{
    let ghost digits = src@.subrange(from as int, to as int);
    let mut i: usize = from;
    while i < to
        invariant
            from <= i <= to <= src.len(),
            digits == src@.subrange(from as int, to as int),
            forall|j: int| 0 <= j < i - from ==> is_decimal_digit(#[trigger] digits[j]),
        decreases to - i,
    {
        let c = src[i];
        if !(c >= '0' && c <= '9') {
            assert(!is_decimal_digit(digits[i - from]));
            return false;
        }
        i += 1;
    }
    true
}

impl Default for Lexer {
    fn default() -> (lexer: Lexer)
        ensures
            lexer.tokens@ == Seq::<Token>::empty(),
    {
        Lexer::new()
    }
}

impl Lexer {
    /// A scanner that has gathered no token.
    pub fn new() -> (lexer: Lexer)
        ensures
            lexer.tokens@ == Seq::<Token>::empty(),
    {
        Lexer { tokens: Vec::new() }
    }

    /// Scans `contents` and appends its tokens to those gathered.
    ///
    /// Where the text cannot be scanned, the first error met is returned
    /// and the tokens gathered stay as they were.
    pub fn parse(&mut self, contents: &str) -> (outcome: Result<(), CompileError>)
        ensures
            scans_to(
                old(self).tokens.deep_view(),
                contents@,
                failure_of(outcome),
                final(self).tokens.deep_view(),
            ),
            outcome is Err ==> final(self).tokens == old(self).tokens,
    {
        let (src, classes) = classified(contents);
        match Self::scan_classified(&src, &classes) {
            Ok(mut found) => {
                let ghost gathered = found.deep_view();
                let ghost earlier = self.tokens.deep_view();
                self.tokens.append(&mut found);
                assert(self.tokens.deep_view() =~= earlier + gathered);
                Ok(())
            },
            Err(error) => Err(error),
        }
    }

    /// Scans the characters `src`, of which `classes` holds the classes,
    /// one for each.
    pub fn scan_classified(src: &Vec<char>, classes: &Vec<CharClass>) -> (outcome: Result<
        Vec<Token>,
        CompileError,
    >)
        requires
            classes.len() == src.len(),
        ensures
            match scan_classes(src@, classes@) {
                Ok(tokens) => outcome matches Ok(found) && found.deep_view() == tokens,
                Err(error) => outcome matches Err(raised) && raised@ == error,
            },
    {
        let mut found: Vec<Token> = Vec::new();
        let mut pos: usize = 0;
        while pos < src.len()
            invariant
                pos <= src.len(),
                classes.len() == src.len(),
                match scan_from(src@, classes@, pos as int) {
                    Ok(rest) => scan_classes(src@, classes@) == Ok::<
                        Seq<TokenView>,
                        CompileErrorView,
                    >(found.deep_view() + rest),
                    Err(error) => scan_classes(src@, classes@) == Err::<
                        Seq<TokenView>,
                        CompileErrorView,
                    >(error),
                },
            decreases src.len() - pos,
        {
            let ghost before = found.deep_view();
            proof {
                lemma_lex_advances(src@, classes@, pos as int);
            }
            match Self::next_token(src, classes, pos) {
                Err(error) => {
                    return Err(error);
                },
                Ok((token, next)) => {
                    match token {
                        Some(token) => {
                            found.push(token);
                            assert(found.deep_view() =~= before.push(token@));
                            proof {
                                if let Ok(rest) = scan_from(src@, classes@, next as int) {
                                    assert(found.deep_view() + rest =~= before + (seq![token@]
                                        + rest));
                                }
                            }
                        },
                        None => {},
                    }
                    pos = next;
                },
            }
        }
        assert(found.deep_view() + Seq::<TokenView>::empty() =~= found.deep_view());
        Ok(found)
    }

    /// Reads what starts at `pos`: a token, or something to skip.
    fn next_token(src: &Vec<char>, classes: &Vec<CharClass>, pos: usize) -> (outcome: Result<
        (Option<Token>, usize),
        CompileError,
    >)
        requires
            classes.len() == src.len(),
            pos < src.len(),
        ensures
            step_matches(lex_at(src@, classes@, pos as int), src@, pos as int, outcome),
    {
        proof {
            lemma_lex_advances(src@, classes@, pos as int);
        }
        let cur_char = src[pos];
        let class = classes[pos];
        if cur_char == '\n' {
            Ok((Some(Token::NEWLINE), pos + 1))
        } else if cur_char == '#' {
            Ok((None, Self::skip_comments(src, classes, pos + 1)))
        } else if cur_char == '"' {
            Self::read_string(src, classes, pos)
        } else if cur_char == '=' || cur_char == '+' || cur_char == '-' || cur_char == '*'
            || cur_char == '/' || cur_char == '<' || cur_char == '>' || cur_char == '!' {
            Self::read_short_keyword(src, pos)
        } else if class.whitespace {
            Ok((None, pos + 1))
        } else if class.alphabetic {
            Self::read_keyword(src, classes, pos)
        } else if class.numeric {
            Self::read_number(src, classes, pos)
        } else {
            Err(CompileError::UnknownCharacter { character: cur_char, position: pos })
        }
    }

    /// Finds the end of the line that holds a comment.
    fn skip_comments(src: &Vec<char>, classes: &Vec<CharClass>, from: usize) -> (end: usize)
        requires
            classes.len() == src.len(),
            from <= src.len(),
        ensures
            end == run_end(src@, classes@, from as int, Run::Comment),
            from <= end <= src.len(),
    {
        follow(src, classes, from, Run::Comment)
    }

    /// Reads the operator that starts at `pos`, of two characters if two
    /// fit.
    fn read_short_keyword(src: &Vec<char>, pos: usize) -> (outcome: Result<
        (Option<Token>, usize),
        CompileError,
    >)
        requires
            pos < src.len(),
        ensures
            step_matches(lex_operator(src@, pos as int), src@, pos as int, outcome),
    {
        let mut token = String::new();
        token.push(src[pos]);
        assert(token@ =~= seq![src@[pos as int]]);
        if pos + 1 < src.len() {
            let mut double = token.clone();
            double.push(src[pos + 1]);
            match Token::from_str(double.as_str()) {
                Some(multi_char_token) => {
                    return Ok((Some(multi_char_token), pos + 2));
                },
                None => {},
            }
        }
        match Token::from_str(token.as_str()) {
            Some(single_char_token) => Ok((Some(single_char_token), pos + 1)),
            None => Err(CompileError::UnknownCharacter { character: src[pos], position: pos }),
        }
    }

    /// Reads the word that starts at `pos`: a keyword or a name.
    fn read_keyword(src: &Vec<char>, classes: &Vec<CharClass>, pos: usize) -> (outcome: Result<
        (Option<Token>, usize),
        CompileError,
    >)
        requires
            classes.len() == src.len(),
            pos < src.len(),
        ensures
            step_matches(lex_word(src@, classes@, pos as int), src@, pos as int, outcome),
    {
        let end = follow(src, classes, pos + 1, Run::Word);
        let token = text_between(src, pos, end);
        match Token::from_str(token.as_str()) {
            Some(keyword_token) => Ok((Some(keyword_token), end)),
            None => Ok((Some(Token::VARIABLE(token)), end)),
        }
    }

    /// Reads the number that starts at `pos`.
    fn read_number(src: &Vec<char>, classes: &Vec<CharClass>, pos: usize) -> (outcome: Result<
        (Option<Token>, usize),
        CompileError,
    >)
        requires
            classes.len() == src.len(),
            pos < src.len(),
        ensures
            step_matches(lex_number(src@, classes@, pos as int), src@, pos as int, outcome),
    {
        let point = follow(src, classes, pos + 1, Run::Digits);
        if point < src.len() && src[point] == '.' {
            let end = follow(src, classes, point + 1, Run::Digits);
            let token = text_between(src, pos, end);
            if plain_digits(src, pos, point) && plain_digits(src, point + 1, end) {
                Ok((Some(Token::FLOAT(token)), end))
            } else {
                Err(CompileError::MalformedNumber { text: token, position: pos })
            }
        } else {
            match parse_decimal(src, pos, point) {
                Some(value) => Ok((Some(Token::INTEGER(value)), point)),
                None => Err(
                    CompileError::MalformedNumber {
                        text: text_between(src, pos, point),
                        position: pos,
                    },
                ),
            }
        }
    }

    /// Reads the string literal whose opening quote is at `pos`.
    fn read_string(src: &Vec<char>, classes: &Vec<CharClass>, pos: usize) -> (outcome: Result<
        (Option<Token>, usize),
        CompileError,
    >)
        requires
            classes.len() == src.len(),
            pos < src.len(),
        ensures
            step_matches(lex_string(src@, classes@, pos as int), src@, pos as int, outcome),
    {
        let close = follow(src, classes, pos + 1, Run::Quoted);
        if close < src.len() {
            Ok((Some(Token::STRING(text_between(src, pos + 1, close))), close + 1))
        } else {
            Err(CompileError::UnterminatedString { position: pos })
        }
    }
}

} // verus!
