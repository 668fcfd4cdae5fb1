//! Laws of the scanner: every line break that it comes to is a token, what
//! a comment says never reaches the tokens, the scan reads nothing in
//! front of the place it has reached, and the integers that the emitter
//! writes are read back.
use crate::error::CompileErrorView;
use crate::lexer::{
    continues, fixed_token, lemma_lex_advances, lemma_run_end_bounds, lex_at, run_end,
    scan_classes, scan_from, CharClass, Run, TokenView,
};
use crate::text::{
    all_decimal_digits, decimal_digits, decimal_text, decimal_value, is_decimal_digit,
    lemma_decimal_round_trip,
};
use vstd::prelude::*;

verus! {

/// A run holds only characters that go on it, and ends where the text ends
/// or in front of a character that does not go on it.
pub proof fn lemma_run_extent(src: Seq<char>, classes: Seq<CharClass>, from: int, run: Run)
    requires
        0 <= from <= src.len(),
    ensures
        forall|i: int|
            from <= i < run_end(src, classes, from, run) ==> continues(
                run,
                #[trigger] src[i],
                classes[i],
            ),
        run_end(src, classes, from, run) < src.len() ==> !continues(
            run,
            src[run_end(src, classes, from, run)],
            classes[run_end(src, classes, from, run)],
        ),
    decreases src.len() - from,
{
    if from < src.len() && continues(run, src[from], classes[from]) {
        lemma_run_extent(src, classes, from + 1, run);
    }
}

/// A line break that the scanner comes to is a token.
///
/// The scanner comes to every character but those inside a string literal
/// or a comment.
pub proof fn lemma_line_break_is_a_token(src: Seq<char>, classes: Seq<CharClass>, pos: int)
    requires
        0 <= pos < src.len(),
        src[pos] == '\n',
    ensures
        scan_from(src, classes, pos) == match scan_from(src, classes, pos + 1) {
            Ok(rest) => Ok::<Seq<TokenView>, CompileErrorView>(seq![TokenView::NEWLINE] + rest),
            Err(error) => Err::<Seq<TokenView>, CompileErrorView>(error),
        },
{
}

/// A comment leaves no trace in the tokens.
///
/// From a `#` that the scanner comes to, the scan goes on at the end of the
/// line: at the next line break, which the comment does not hold, or at the
/// end of the text.
pub proof fn lemma_comment_is_skipped(src: Seq<char>, classes: Seq<CharClass>, pos: int)
    requires
        0 <= pos < src.len(),
        src[pos] == '#',
    ensures
        ({
            let end = run_end(src, classes, pos + 1, Run::Comment);
            &&& pos < end <= src.len()
            &&& forall|i: int| pos < i < end ==> #[trigger] src[i] != '\n'
            &&& end < src.len() ==> src[end] == '\n'
            &&& scan_from(src, classes, pos) == scan_from(src, classes, end)
        }),
{
    lemma_run_end_bounds(src, classes, pos + 1, Run::Comment);
    lemma_run_extent(src, classes, pos + 1, Run::Comment);
}

/// Whether two texts of the same length, with their classes, are the same
/// from `from` on.
pub open spec fn same_from(
    first: Seq<char>,
    first_classes: Seq<CharClass>,
    second: Seq<char>,
    second_classes: Seq<CharClass>,
    from: int,
) -> bool {
    &&& first.len() == second.len()
    &&& forall|i: int|
        from <= i < first.len() ==> #[trigger] first[i] == second[i] && first_classes[i]
            == second_classes[i]
}

proof fn lemma_run_reads_ahead_only(
    first: Seq<char>,
    first_classes: Seq<CharClass>,
    second: Seq<char>,
    second_classes: Seq<CharClass>,
    from: int,
    run: Run,
)
    requires
        0 <= from,
        same_from(first, first_classes, second, second_classes, from),
    ensures
        run_end(first, first_classes, from, run) == run_end(second, second_classes, from, run),
    decreases first.len() - from,
{
    if from < first.len() {
        assert(first[from] == second[from] && first_classes[from] == second_classes[from]);
        if continues(run, first[from], first_classes[from]) {
            lemma_run_reads_ahead_only(
                first,
                first_classes,
                second,
                second_classes,
                from + 1,
                run,
            );
        }
    }
}

proof fn lemma_step_reads_ahead_only(
    first: Seq<char>,
    first_classes: Seq<CharClass>,
    second: Seq<char>,
    second_classes: Seq<CharClass>,
    pos: int,
)
    requires
        0 <= pos < first.len(),
        same_from(first, first_classes, second, second_classes, pos),
    ensures
        lex_at(first, first_classes, pos) == lex_at(second, second_classes, pos),
{
    assert(first[pos] == second[pos] && first_classes[pos] == second_classes[pos]);
    if pos + 1 < first.len() {
        assert(first[pos + 1] == second[pos + 1]);
    }
    lemma_run_reads_ahead_only(first, first_classes, second, second_classes, pos + 1, Run::Word);
    lemma_run_reads_ahead_only(first, first_classes, second, second_classes, pos + 1, Run::Digits);
    lemma_run_reads_ahead_only(first, first_classes, second, second_classes, pos + 1, Run::Comment);
    lemma_run_reads_ahead_only(first, first_classes, second, second_classes, pos + 1, Run::Quoted);
    lemma_run_end_bounds(first, first_classes, pos + 1, Run::Word);
    lemma_run_end_bounds(first, first_classes, pos + 1, Run::Digits);
    lemma_run_end_bounds(first, first_classes, pos + 1, Run::Quoted);
    let word = run_end(first, first_classes, pos + 1, Run::Word);
    let point = run_end(first, first_classes, pos + 1, Run::Digits);
    let close = run_end(first, first_classes, pos + 1, Run::Quoted);
    assert(first.subrange(pos, word) =~= second.subrange(pos, word));
    assert(first.subrange(pos, point) =~= second.subrange(pos, point));
    assert(first.subrange(pos + 1, close) =~= second.subrange(pos + 1, close));
    if point < first.len() {
        assert(first[point] == second[point]);
        lemma_run_reads_ahead_only(
            first,
            first_classes,
            second,
            second_classes,
            point + 1,
            Run::Digits,
        );
        lemma_run_end_bounds(first, first_classes, point + 1, Run::Digits);
        let end = run_end(first, first_classes, point + 1, Run::Digits);
        assert(first.subrange(pos, end) =~= second.subrange(pos, end));
        assert(first.subrange(point + 1, end) =~= second.subrange(point + 1, end));
    }
}

/// The scan from an index on reads nothing in front of the index: two
/// texts of the same length that are the same from `pos` on are scanned
/// alike from there.
pub proof fn lemma_scan_reads_ahead_only(
    first: Seq<char>,
    first_classes: Seq<CharClass>,
    second: Seq<char>,
    second_classes: Seq<CharClass>,
    pos: int,
)
    requires
        0 <= pos,
        same_from(first, first_classes, second, second_classes, pos),
    ensures
        scan_from(first, first_classes, pos) == scan_from(second, second_classes, pos),
    decreases first.len() - pos,
{
    if pos < first.len() {
        lemma_step_reads_ahead_only(first, first_classes, second, second_classes, pos);
        lemma_lex_advances(first, first_classes, pos);
        if let Ok((_, next)) = lex_at(first, first_classes, pos) {
            lemma_scan_reads_ahead_only(first, first_classes, second, second_classes, next);
        }
    }
}

/// What a comment says never reaches the tokens.
///
/// Let the scanner come to a `#` at `pos`, and let a second text of the
/// same length differ from the first only inside that comment, where it
/// holds no line break either. Then both are scanned alike from `pos` on.
pub proof fn lemma_comment_text_is_ignored(
    first: Seq<char>,
    first_classes: Seq<CharClass>,
    second: Seq<char>,
    second_classes: Seq<CharClass>,
    pos: int,
)
    requires
        0 <= pos < first.len(),
        first[pos] == '#',
        second.len() == first.len(),
        second[pos] == '#',
        forall|i: int|
            pos < i < run_end(first, first_classes, pos + 1, Run::Comment) ==> #[trigger] second[i]
                != '\n',
        same_from(
            first,
            first_classes,
            second,
            second_classes,
            run_end(first, first_classes, pos + 1, Run::Comment),
        ),
    ensures
        scan_from(first, first_classes, pos) == scan_from(second, second_classes, pos),
{
    let end = run_end(first, first_classes, pos + 1, Run::Comment);
    lemma_comment_is_skipped(first, first_classes, pos);
    lemma_comment_is_skipped(second, second_classes, pos);
    lemma_comment_ends(second, second_classes, pos + 1, end);
    lemma_scan_reads_ahead_only(first, first_classes, second, second_classes, end);
}

/// A comment that holds no line break up to `end`, where the text ends or
/// a line break stands, ends at `end`.
proof fn lemma_comment_ends(src: Seq<char>, classes: Seq<CharClass>, from: int, end: int)
    requires
        0 <= from <= end <= src.len(),
        forall|i: int| from <= i < end ==> #[trigger] src[i] != '\n',
        end < src.len() ==> src[end] == '\n',
    ensures
        run_end(src, classes, from, Run::Comment) == end,
    decreases end - from,
{
    if from < end {
        assert(src[from] != '\n');
        lemma_comment_ends(src, classes, from + 1, end);
    }
}

/// How many line breaks the text holds from `from` on.
pub open spec fn line_breaks(src: Seq<char>, from: int) -> nat
    decreases src.len() - from,
{
    if 0 <= from < src.len() {
        if src[from] == '\n' {
            1 + line_breaks(src, from + 1)
        } else {
            line_breaks(src, from + 1)
        }
    } else {
        0
    }
}

/// How many of the tokens are line breaks.
pub open spec fn line_break_tokens(tokens: Seq<TokenView>) -> nat
    decreases tokens.len(),
{
    if tokens.len() == 0 {
        0
    } else if tokens.first() == TokenView::NEWLINE {
        1 + line_break_tokens(tokens.drop_first())
    } else {
        line_break_tokens(tokens.drop_first())
    }
}

proof fn lemma_no_line_break_between(src: Seq<char>, from: int, to: int)
    requires
        0 <= from <= to <= src.len(),
        forall|i: int| from <= i < to ==> #[trigger] src[i] != '\n',
    ensures
        line_breaks(src, from) == line_breaks(src, to),
    decreases to - from,
{
    if from < to {
        assert(src[from] != '\n');
        lemma_no_line_break_between(src, from + 1, to);
    }
}

/// No spelling of a token but that of the line break starts with a line
/// break, and no spelling of two characters ends with one.
proof fn lemma_spellings_hold_no_line_break(spelling: Seq<char>)
    ensures
        fixed_token(spelling) == Some(TokenView::NEWLINE) ==> spelling.len() == 1 && spelling[0]
            == '\n',
        fixed_token(spelling) is Some && spelling.len() == 2 ==> spelling[1] != '\n',
{
    reveal_strlit("PRINT");
    reveal_strlit("LABEL");
    reveal_strlit("GOTO");
    reveal_strlit("INPUT");
    reveal_strlit("LET");
    reveal_strlit("IF");
    reveal_strlit("THEN");
    reveal_strlit("ENDIF");
    reveal_strlit("WHILE");
    reveal_strlit("REPEAT");
    reveal_strlit("ENDWHILE");
    reveal_strlit("=");
    reveal_strlit("+");
    reveal_strlit("-");
    reveal_strlit("*");
    reveal_strlit("/");
    reveal_strlit("<");
    reveal_strlit(">");
    reveal_strlit("==");
    reveal_strlit("<=");
    reveal_strlit(">=");
    reveal_strlit("!=");
    reveal_strlit("\n");
}

/// What one step of the scanner does to the count of line breaks: it
/// passes one exactly where it yields the token for it.
proof fn lemma_step_counts_line_breaks(src: Seq<char>, classes: Seq<CharClass>, pos: int)
    requires
        0 <= pos < src.len(),
        forall|i: int| 0 <= i < src.len() ==> #[trigger] src[i] != '"',
        forall|i: int|
            0 <= i < src.len() && #[trigger] src[i] == '\n' ==> !classes[i].alphabetic
                && !classes[i].numeric,
    ensures
        lex_at(src, classes, pos) matches Ok((token, next)) ==> pos < next <= src.len()
            && line_breaks(src, pos) == line_breaks(src, next) + (if token == Some(
            TokenView::NEWLINE,
        ) {
            1nat
        } else {
            0nat
        }),
{
    lemma_lex_advances(src, classes, pos);
    if let Ok((token, next)) = lex_at(src, classes, pos) {
        let c = src[pos];
        if c == '\n' {
        } else {
            lemma_spellings_hold_no_line_break(seq![c]);
            assert(seq![c][0] == c);
            if pos + 1 < src.len() {
                lemma_spellings_hold_no_line_break(seq![c].push(src[pos + 1]));
                assert(seq![c].push(src[pos + 1])[1] == src[pos + 1]);
                assert(seq![c].push(src[pos + 1]).len() == 2);
            }
            lemma_run_extent(src, classes, pos + 1, Run::Comment);
            lemma_run_extent(src, classes, pos + 1, Run::Word);
            lemma_run_extent(src, classes, pos + 1, Run::Digits);
            lemma_run_end_bounds(src, classes, pos + 1, Run::Word);
            lemma_run_end_bounds(src, classes, pos + 1, Run::Digits);
            let word = src.subrange(pos, run_end(src, classes, pos + 1, Run::Word));
            lemma_spellings_hold_no_line_break(word);
            assert(word[0] == c);
            let point = run_end(src, classes, pos + 1, Run::Digits);
            if point < src.len() {
                lemma_run_extent(src, classes, point + 1, Run::Digits);
                lemma_run_end_bounds(src, classes, point + 1, Run::Digits);
            }
            assert(token != Some(TokenView::NEWLINE));
            assert forall|i: int| pos <= i < next implies #[trigger] src[i] != '\n' by {
                if src[i] == '\n' {
                    assert(!classes[i].alphabetic && !classes[i].numeric);
                }
            }
            lemma_no_line_break_between(src, pos, next);
        }
    }
}

proof fn lemma_scan_counts_line_breaks(src: Seq<char>, classes: Seq<CharClass>, pos: int)
    requires
        0 <= pos,
        forall|i: int| 0 <= i < src.len() ==> #[trigger] src[i] != '"',
        forall|i: int|
            0 <= i < src.len() && #[trigger] src[i] == '\n' ==> !classes[i].alphabetic
                && !classes[i].numeric,
    ensures
        scan_from(src, classes, pos) matches Ok(tokens) ==> line_break_tokens(tokens)
            == line_breaks(src, pos),
    decreases src.len() - pos,
{
    if pos < src.len() {
        lemma_step_counts_line_breaks(src, classes, pos);
        if let Ok((token, next)) = lex_at(src, classes, pos) {
            lemma_scan_counts_line_breaks(src, classes, next);
            if let Ok(rest) = scan_from(src, classes, next) {
                if let Some(first) = token {
                    let tokens = seq![first] + rest;
                    assert(tokens.first() == first);
                    assert(tokens.drop_first() =~= rest);
                }
            }
        }
    }
}

/// As many line-break tokens as line breaks.
///
/// In a text without string literals, in which no line break is classed as
/// a letter or a digit, every line break becomes a token and nothing else
/// does: where the text can be scanned, the line breaks among its tokens
/// are as many as the line breaks in it. (A line break inside a string
/// literal belongs to the literal and is no token.)
pub proof fn lemma_line_breaks_are_counted(src: Seq<char>, classes: Seq<CharClass>)
    requires
        forall|i: int| 0 <= i < src.len() ==> #[trigger] src[i] != '"',
        forall|i: int|
            0 <= i < src.len() && #[trigger] src[i] == '\n' ==> !classes[i].alphabetic
                && !classes[i].numeric,
    ensures
        scan_classes(src, classes) matches Ok(tokens) ==> line_break_tokens(tokens)
            == line_breaks(src, 0),
{
    lemma_scan_counts_line_breaks(src, classes, 0);
}

/// The decimal notation of a number is not empty.
proof fn lemma_decimal_digits_exist(n: nat)
    ensures
        decimal_digits(n).len() > 0,
    decreases n,
{
    if n >= 10 {
        lemma_decimal_digits_exist(n / 10);
    }
}

/// A run of digits goes on to the end of a text whose characters from
/// `from` on are all classed as digits.
proof fn lemma_digits_to_the_end(src: Seq<char>, classes: Seq<CharClass>, from: int)
    requires
        0 <= from <= src.len(),
        forall|i: int| from <= i < src.len() ==> (#[trigger] classes[i]).numeric,
    ensures
        run_end(src, classes, from, Run::Digits) == src.len(),
    decreases src.len() - from,
{
    if from < src.len() {
        assert(classes[from].numeric);
        lemma_digits_to_the_end(src, classes, from + 1);
    }
}

/// The scanner reads back the integers that the emitter writes.
///
/// The decimal notation of an integer that is not negative, its characters
/// classed as digits and as nothing else, is scanned as the one token that
/// holds the integer.
pub proof fn lemma_written_integer_is_read_back(value: i64, classes: Seq<CharClass>)
    requires
        value >= 0,
        classes.len() == decimal_text(value as int).len(),
        forall|i: int|
            0 <= i < classes.len() ==> #[trigger] classes[i] == (CharClass {
                whitespace: false,
                alphabetic: false,
                numeric: true,
            }),
    ensures
        scan_classes(decimal_text(value as int), classes) == Ok::<
            Seq<TokenView>,
            CompileErrorView,
        >(seq![TokenView::INTEGER(value)]),
{
    let text = decimal_text(value as int);
    lemma_decimal_round_trip(value as nat);
    lemma_decimal_digits_exist(value as nat);
    assert(is_decimal_digit(text[0]));
    assert(classes[0].numeric && !classes[0].whitespace && !classes[0].alphabetic);
    lemma_digits_to_the_end(text, classes, 1);
    assert(text.subrange(0, text.len() as int) =~= text);
    assert(all_decimal_digits(text) && decimal_value(text) == value);
    assert(lex_at(text, classes, 0) == Ok::<(Option<TokenView>, int), CompileErrorView>(
        (Some(TokenView::INTEGER(value)), text.len() as int),
    ));
    assert(scan_from(text, classes, text.len() as int) == Ok::<
        Seq<TokenView>,
        CompileErrorView,
    >(Seq::empty()));
    assert(seq![TokenView::INTEGER(value)] + Seq::<TokenView>::empty() =~= seq![
        TokenView::INTEGER(value),
    ]);
}

} // verus!
