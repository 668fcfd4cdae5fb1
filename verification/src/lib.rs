//! A translator from a small BASIC dialect to C.
//!
//! The text is scanned into tokens ([`lexer`]), the tokens are parsed into
//! a grammar tree while variables and labels are checked ([`parser`]), and
//! the tree is written out as C ([`emitter`]). [`compile`] runs the three
//! in a row.
use vstd::prelude::*;

pub mod ast;
pub mod declarations;
pub mod emitter;
pub mod error;
pub mod grammar;
pub mod lexemes;
pub mod lexer;
pub mod names;
pub mod parser;
pub mod resolution;
pub mod text;

use crate::declarations::lemma_one_declaration_per_variable;
use crate::emitter::{postamble, preamble, render_program, Emitter};
use crate::error::{CompileError, CompileErrorView};
use crate::lexer::{scan, Lexer};
use crate::parser::{parse_program, Parser, Scope};
use vstd::string::StringExecFns;

verus! {

/// Command-line configuration: the source file to translate and whether
/// diagnostic tracing was requested.
pub struct Config {
    pub file_path: String,
    pub debug: bool,
}

/// Whether one of the arguments is `--debug`.
pub open spec fn has_debug_flag(args: Seq<String>) -> bool {
    exists|i: int| 0 <= i < args.len() && (#[trigger] args[i])@ == "--debug"@
}

/// The number of arguments that are there without a file path: the
/// program's name, and the debug flag where it is given.
pub open spec fn min_arg_count(args: Seq<String>) -> int {
    if has_debug_flag(args) {
        2
    } else {
        1
    }
}

impl Config {
    /// Reads the configuration from the command line, whose first argument
    /// is the program's name.
    ///
    /// Exactly one argument is expected beside the program's name and the
    /// flag `--debug`; the file path is taken from the second place.
    pub fn build(args: &[String]) -> (outcome: Result<Config, &'static str>)
        requires
            args@.len() >= min_arg_count(args@),
        ensures
            match outcome {
                Ok(config) => {
                    &&& args@.len() == min_arg_count(args@) + 1
                    &&& config.file_path@ == args@[1]@
                    &&& config.debug == has_debug_flag(args@)
                },
                Err(message) => {
                    ||| args@.len() == min_arg_count(args@) && message@
                        == "File path was not provided!"@
                    ||| args@.len() > min_arg_count(args@) + 1 && message@
                        == "Too many arguments!"@
                },
            },
    {
        let mut min_arg_count: usize = 1;
        let flag = String::from_str("--debug");
        let mut debug = false;
        let mut i: usize = 0;
        while i < args.len()
            invariant
                i <= args.len(),
                flag@ == "--debug"@,
                debug == has_debug_flag(args@.take(i as int)),
            decreases args.len() - i,
        {
            if args[i] == flag {
                debug = true;
            }
            proof {
                let seen = args@.take(i as int);
                let more = args@.take(i + 1);
                if has_debug_flag(seen) {
                    let k = choose|k: int| 0 <= k < seen.len() && (#[trigger] seen[k])@
                        == "--debug"@;
                    assert(more[k]@ == "--debug"@);
                }
                if args@[i as int]@ == "--debug"@ {
                    assert(more[i as int]@ == "--debug"@);
                }
                if has_debug_flag(more) {
                    let k = choose|k: int| 0 <= k < more.len() && (#[trigger] more[k])@
                        == "--debug"@;
                    if k < i {
                        assert(seen[k]@ == "--debug"@);
                    }
                }
            }
            i += 1;
        }
        assert(args@.take(i as int) =~= args@);
        if debug {
            min_arg_count += 1;
        }
        if args.len() == min_arg_count {
            return Err("File path was not provided!");
        }
        if args.len() > min_arg_count + 1 {
            return Err("Too many arguments!");
        }
        let file_path = args[1].clone();
        Ok(Config { file_path, debug })
    }
}

/// The C program that a source text is translated to, or the first error
/// in it.
pub open spec fn translation(source: Seq<char>) -> Result<Seq<char>, CompileErrorView> {
    match scan(source) {
        Ok(tokens) => match parse_program(tokens, Scope::empty()) {
            Ok((program, scope)) => Ok(
                preamble() + render_program(program, scope.variables).text + postamble(),
            ),
            Err(error) => Err(error),
        },
        Err(error) => Err(error),
    }
}

/// The output of a compilation declares every variable of the program
/// once.
///
/// Where `source` compiles, the output is the preamble, the rendering of
/// the program and the postamble; in that rendering the variables declared
/// are those of the program, none of them twice, and none is left without
/// its declaration.
pub proof fn lemma_compiled_declares_once(source: Seq<char>)
    requires
        translation(source) is Ok,
    ensures
        ({
            let tokens = scan(source)->Ok_0;
            let (program, scope) = parse_program(tokens, Scope::empty())->Ok_0;
            let written = render_program(program, scope.variables);
            &&& translation(source) == Ok::<Seq<char>, CompileErrorView>(
                preamble() + written.text + postamble(),
            )
            &&& written.declared.no_duplicates()
            &&& written.declared.to_set() == scope.variables
            &&& written.pending == Set::<Seq<char>>::empty()
        }),
{
    lemma_one_declaration_per_variable(scan(source)->Ok_0);
}

/// Translates a source text to C: scans it, parses it and writes it out.
pub fn compile(source: &str) -> (outcome: Result<String, CompileError>)
    ensures
        match translation(source@) {
            Ok(text) => outcome matches Ok(made) && made@ == text,
            Err(error) => outcome matches Err(raised) && raised@ == error,
        },
{
    let mut lexer = Lexer::new();
    assert(lexer.tokens.deep_view() =~= Seq::empty());
    match lexer.parse(source) {
        Ok(()) => {},
        Err(error) => {
            return Err(error);
        },
    }
    assert(lexer.tokens.deep_view() =~= scan(source@)->Ok_0);
    let mut parser = Parser::new();
    match parser.check(&lexer) {
        Ok(()) => {},
        Err(error) => {
            return Err(error);
        },
    }
    let ghost parsed = parse_program(lexer.tokens.deep_view(), Scope::empty())->Ok_0;
    assert(parser@.program =~= parsed.0);
    let mut emitter = Emitter::new("");
    emitter.process(parser);
    let text = emitter.output();
    assert(text@ =~= translation(source@)->Ok_0);
    Ok(text)
}

} // verus!
