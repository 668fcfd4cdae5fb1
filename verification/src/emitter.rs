//! Translation of a grammar tree into C source text.
//!
//! What is written is defined by the `render_*` functions below, over the
//! tree's model. Every variable gets its type declaration where its name is
//! written for the first time: a set of pending names is threaded through
//! the rendering, in the order in which the text is produced.
use crate::ast::{
    Comparison, ComparisonView, Expression, ExpressionView, Primary, PrimaryView, Statement,
    StatementView, Term, TermView, Unary, UnaryView,
};
use crate::names::NameSet;
use crate::parser::Parser;
use crate::text::{decimal_string, decimal_text};
use vstd::prelude::*;
use vstd::string::StringExecFns;

verus! {

/// What rendering a piece of the tree yields.
///
/// Renderings are put together from text that holds no variable
/// ([`Rendering::plain`], [`Rendering::and_text`]), from the names of
/// variables ([`render_variable`]) and by writing one behind the other
/// ([`Rendering::followed_by`]), so the declarations listed are always
/// those in the text.
pub struct Rendering {
    /// The text written.
    pub text: Seq<char>,
    /// The variables that still await their declaration afterwards.
    pub pending: Set<Seq<char>>,
    /// The variables whose declaration is part of `text`, in the order in
    /// which they are declared there.
    pub declared: Seq<Seq<char>>,
}

impl Rendering {
    /// Text that holds no variable, written while `pending` await their
    /// declaration.
    pub open spec fn plain(text: Seq<char>, pending: Set<Seq<char>>) -> Rendering {
        Rendering { text, pending, declared: Seq::empty() }
    }

    /// This rendering with `text`, that holds no variable, behind it.
    pub open spec fn and_text(self, text: Seq<char>) -> Rendering {
        Rendering { text: self.text + text, pending: self.pending, declared: self.declared }
    }

    /// This rendering followed by `next`, which started from what this one
    /// left pending.
    pub open spec fn followed_by(self, next: Rendering) -> Rendering {
        Rendering {
            text: self.text + next.text,
            pending: next.pending,
            declared: self.declared + next.declared,
        }
    }
}

/// The declaration of the variable `name`.
pub open spec fn declaration(name: Seq<char>) -> Seq<char> {
    "int"@ + " "@ + name
}

/// A variable's name where it is written: as its declaration if that is
/// still pending, and bare otherwise.
pub open spec fn render_variable(name: Seq<char>, pending: Set<Seq<char>>) -> Rendering {
    if pending.contains(name) {
        Rendering { text: declaration(name), pending: pending.remove(name), declared: seq![name] }
    } else {
        Rendering::plain(" "@ + name, pending)
    }
}

/// A literal as it was read, or a variable.
pub open spec fn render_primary(primary: PrimaryView, pending: Set<Seq<char>>) -> Rendering {
    match primary {
        PrimaryView::Integer(value) => Rendering::plain(decimal_text(value as int), pending),
        PrimaryView::Float(text) => Rendering::plain(text, pending),
        PrimaryView::Variable(name) => render_variable(name, pending),
    }
}

/// The sign, if there is one, and the operand.
pub open spec fn render_unary(unary: UnaryView, pending: Set<Seq<char>>) -> Rendering
    decreases unary,
{
    match unary {
        UnaryView::Primary(primary) => render_primary(primary, pending),
        UnaryView::Positive(inner) => Rendering::plain("+"@, pending).followed_by(
            render_unary(*inner, pending),
        ),
        UnaryView::Negative(inner) => Rendering::plain("-"@, pending).followed_by(
            render_unary(*inner, pending),
        ),
    }
}

/// The factors from left to right, with their operators between them.
pub open spec fn render_term(term: TermView, pending: Set<Seq<char>>) -> Rendering
    decreases term,
{
    match term {
        TermView::Unary(unary) => render_unary(unary, pending),
        TermView::Mul(left, right) => {
            let first = render_unary(*left, pending);
            first.and_text(" * "@).followed_by(render_term(*right, first.pending))
        },
        TermView::Div(left, right) => {
            let first = render_unary(*left, pending);
            first.and_text(" / "@).followed_by(render_term(*right, first.pending))
        },
    }
}

/// The terms from left to right, with their operators between them.
pub open spec fn render_expression(expression: ExpressionView, pending: Set<Seq<char>>) -> Rendering
    decreases expression,
{
    match expression {
        ExpressionView::Term(term) => render_term(term, pending),
        ExpressionView::Add(left, right) => {
            let first = render_term(*left, pending);
            first.and_text(" + "@).followed_by(render_expression(*right, first.pending))
        },
        ExpressionView::Sub(left, right) => {
            let first = render_term(*left, pending);
            first.and_text(" - "@).followed_by(render_expression(*right, first.pending))
        },
    }
}

/// The expressions from left to right, with their operators between them.
pub open spec fn render_comparison(comparison: ComparisonView, pending: Set<Seq<char>>) -> Rendering
    decreases comparison,
{
    match comparison {
        ComparisonView::Left(expression) => render_expression(expression, pending),
        ComparisonView::Right(expression, rest) => {
            let first = render_expression(expression, pending);
            first.and_text(" "@).followed_by(render_comparison(*rest, first.pending))
        },
        ComparisonView::Compare(operator, rest) => Rendering::plain(operator, pending).and_text(
            " "@,
        ).followed_by(render_comparison(*rest, pending)),
    }
}

/// The C statement, or statements, that a statement becomes.
pub open spec fn render_statement(statement: StatementView, pending: Set<Seq<char>>) -> Rendering
    decreases statement,
{
    match statement {
        StatementView::Print(expression) => Rendering::plain(
            "printf(\"%d\\n\", "@,
            pending,
        ).followed_by(render_expression(expression, pending)).and_text(");\n"@),
        StatementView::PrintStr(text) => Rendering::plain("printf(\""@, pending).and_text(
            text,
        ).and_text("\\n\");\n"@),
        StatementView::Let(name, expression) => {
            let target = render_variable(name, pending);
            target.and_text(" = "@).followed_by(
                render_expression(expression, target.pending),
            ).and_text(";\n"@)
        },
        StatementView::If(condition, body) => {
            let test = render_comparison(condition, pending);
            Rendering::plain("if ("@, pending).followed_by(test).and_text(") {\n"@).followed_by(
                render_statement(*body, test.pending),
            ).and_text("\n}\n"@)
        },
        StatementView::While(condition, body) => {
            let test = render_comparison(condition, pending);
            Rendering::plain("while ("@, pending).followed_by(test).and_text(") {\n"@).followed_by(
                render_statement(*body, test.pending),
            ).and_text("\n}\n"@)
        },
        StatementView::Label(name) => Rendering::plain(name, pending).and_text(":\n"@),
        StatementView::Goto(name) => Rendering::plain("goto "@, pending).and_text(name).and_text(
            ";\n"@,
        ),
        StatementView::Input(name) => render_variable(name, pending).and_text(
            ";\nscanf(\"%d\", &"@,
        ).and_text(name).and_text(");\n"@),
        StatementView::Statement(first, rest) => {
            let head = render_statement(*first, pending);
            head.and_text("\n"@).followed_by(render_statement(*rest, head.pending))
        },
        StatementView::End => Rendering::plain("\n"@, pending),
    }
}

/// The statements of a program one after the other.
pub open spec fn render_program(program: Seq<StatementView>, pending: Set<Seq<char>>) -> Rendering
    decreases program.len(),
{
    if program.len() == 0 {
        Rendering::plain(Seq::empty(), pending)
    } else {
        let front = render_program(program.drop_last(), pending);
        front.followed_by(render_statement(program.last(), front.pending))
    }
}

/// The lines in front of the translated statements.
pub open spec fn preamble() -> Seq<char> {
    "#include <stdio.h>"@ + "\n"@ + "int main(void){"@ + "\n"@
}

/// The lines behind the translated statements.
pub open spec fn postamble() -> Seq<char> {
    "return 0;"@ + "\n"@ + "}"@ + "\n"@
}

/// The state of an [`Emitter`].
pub struct EmitterView {
    /// Where the output is meant to be stored.
    pub full_path: Seq<char>,
    /// The text in front of the code.
    pub header: Seq<char>,
    /// The code written so far.
    pub code: Seq<char>,
    /// The variables that still await their declaration.
    pub pending: Set<Seq<char>>,
}

/// Gathers the C text of a program: a header and the code.
pub struct Emitter {
    full_path: String,
    header: String,
    code: String,
    variables: NameSet,
}

impl View for Emitter {
    type V = EmitterView;

    closed spec fn view(&self) -> EmitterView {
        EmitterView {
            full_path: self.full_path@,
            header: self.header@,
            code: self.code@,
            pending: self.variables@,
        }
    }
}

impl Default for Emitter {
    /// An emitter that has written nothing, for output meant for no path.
    fn default() -> (emitter: Emitter)
        ensures
            emitter@ == (EmitterView {
                full_path: Seq::empty(),
                header: Seq::empty(),
                code: Seq::empty(),
                pending: Set::empty(),
            }),
    {
        Emitter {
            full_path: String::new(),
            header: String::new(),
            code: String::new(),
            variables: NameSet::new(),
        }
    }
}

impl Emitter {
    /// An emitter that has written nothing, for output meant for
    /// `full_path`.
    pub fn new(full_path: &str) -> (emitter: Emitter)
        ensures
            emitter@ == (EmitterView {
                full_path: full_path@,
                header: Seq::empty(),
                code: Seq::empty(),
                pending: Set::empty(),
            }),
    {
        Emitter {
            full_path: String::from_str(full_path),
            header: String::new(),
            code: String::new(),
            variables: NameSet::new(),
        }
    }

    /// Where the output is meant to be stored.
    pub fn full_path(&self) -> (path: &str)
        ensures
            path@ == self@.full_path,
    {
        self.full_path.as_str()
    }

    /// The text in front of the code.
    pub fn header(&self) -> (header: &str)
        ensures
            header@ == self@.header,
    {
        self.header.as_str()
    }

    /// The code written so far.
    pub fn code(&self) -> (code: &str)
        ensures
            code@ == self@.code,
    {
        self.code.as_str()
    }

    /// The whole output: the header, then the code.
    pub fn output(&self) -> (text: String)
        ensures
            text@ == self@.header + self@.code,
    {
        let mut text = self.header.clone();
        text.append(self.code.as_str());
        text
    }

    /// Translates the program that `parser` holds.
    ///
    /// The declarations pending are those of the parser's variables; the
    /// header gains the preamble, and the code gains the program's
    /// statements and the postamble.
    pub fn process(&mut self, parser: Parser)
        ensures
            final(self)@ == ({
                let body = render_program(parser@.program, parser@.scope.variables);
                EmitterView {
                    full_path: old(self)@.full_path,
                    header: old(self)@.header + preamble(),
                    code: old(self)@.code + body.text + postamble(),
                    pending: body.pending,
                }
            }),
    {
        let ghost program = parser@.program;
        let ghost declared = parser@.scope.variables;
        let (ast, variables) = parser.into_parts();
        self.variables = variables;
        self.emit_header("#include <stdio.h>");
        self.emit_header("int main(void){");
        let ghost start = self@;
        let mut i: usize = 0;
        while i < ast.program.len()
            invariant
                i <= ast.program.len(),
                ast@ == program,
                self@ == ({
                    let done = render_program(ast@.take(i as int), declared);
                    EmitterView {
                        full_path: start.full_path,
                        header: start.header,
                        code: start.code + done.text,
                        pending: done.pending,
                    }
                }),
            decreases ast.program.len() - i,
        {
            let code = self.gen_statement(&ast.program[i]);
            self.emit(code.as_str());
            proof {
                let longer = ast@.take(i + 1);
                assert(longer.drop_last() =~= ast@.take(i as int));
                assert(longer.last() == ast.program[i as int]@);
                let next = render_program(longer, declared);
                assert(self@.code =~= start.code + next.text);
            }
            i += 1;
        }
        assert(ast@.take(i as int) =~= ast@);
        let ghost body = render_program(program, declared);
        self.emit_line("return 0;");
        self.emit_line("}");
        assert(self@.code =~= old(self)@.code + body.text + postamble());
        assert(self@.header =~= old(self)@.header + preamble());
    }

    /// Appends `code` to the code.
    pub fn emit(&mut self, code: &str)
        ensures
            final(self)@ == (EmitterView { code: old(self)@.code + code@, ..old(self)@ }),
    {
        self.code.append(code);
    }

    /// Appends `code` and a line break to the code.
    pub fn emit_line(&mut self, code: &str)
        ensures
            final(self)@ == (EmitterView {
                code: old(self)@.code + code@ + "\n"@,
                ..old(self)@
            }),
    {
        self.emit(code);
        self.code.append("\n");
    }

    /// Appends `header` and a line break to the header.
    pub fn emit_header(&mut self, header: &str)
        ensures
            final(self)@ == (EmitterView {
                header: old(self)@.header + header@ + "\n"@,
                ..old(self)@
            }),
    {
        self.header.append(header);
        self.header.append("\n");
    }

    fn gen_statement(&mut self, s: &Statement) -> (code: String)
        ensures
            code@ == render_statement(s@, old(self)@.pending).text,
            final(self)@ == (EmitterView {
                pending: render_statement(s@, old(self)@.pending).pending,
                ..old(self)@
            }),
        decreases s,
    {
        match s {
            Statement::Print(expr) => {
                let value = self.gen_expression(expr);
                let mut code = String::from_str("printf(\"%d\\n\", ");
                code.append(value.as_str());
                code.append(");\n");
                code
            },
            Statement::PrintStr(string) => {
                let mut code = String::from_str("printf(\"");
                code.append(string.as_str());
                code.append("\\n\");\n");
                code
            },
            Statement::Let(var, expr) => {
                let mut code = self.gen_variable(var);
                let value = self.gen_expression(expr);
                code.append(" = ");
                code.append(value.as_str());
                code.append(";\n");
                code
            },
            Statement::If(comp, stmt) => {
                let test = self.gen_comparison(comp);
                let block = self.gen_statement(stmt);
                let mut code = String::from_str("if (");
                code.append(test.as_str());
                code.append(") {\n");
                code.append(block.as_str());
                code.append("\n}\n");
                code
            },
            Statement::While(comp, stmt) => {
                let test = self.gen_comparison(comp);
                let block = self.gen_statement(stmt);
                let mut code = String::from_str("while (");
                code.append(test.as_str());
                code.append(") {\n");
                code.append(block.as_str());
                code.append("\n}\n");
                code
            },
            Statement::Label(label) => {
                let mut code = label.clone();
                code.append(":\n");
                code
            },
            Statement::Goto(label) => {
                let mut code = String::from_str("goto ");
                code.append(label.as_str());
                code.append(";\n");
                code
            },
            Statement::Input(var) => {
                let mut code = self.gen_variable(var);
                code.append(";\nscanf(\"%d\", &");
                code.append(var.as_str());
                code.append(");\n");
                code
            },
            Statement::Statement(stmt1, stmt2) => {
                let mut code = self.gen_statement(stmt1);
                let tail = self.gen_statement(stmt2);
                code.append("\n");
                code.append(tail.as_str());
                code
            },
            Statement::End => String::from_str("\n"),
        }
    }

    fn gen_comparison(&mut self, c: &Comparison) -> (code: String)
        ensures
            code@ == render_comparison(c@, old(self)@.pending).text,
            final(self)@ == (EmitterView {
                pending: render_comparison(c@, old(self)@.pending).pending,
                ..old(self)@
            }),
        decreases c,
    {
        match c {
            Comparison::Left(expr) => self.gen_expression(expr),
            Comparison::Right(expr, comp) => {
                let mut code = self.gen_expression(expr);
                let rest = self.gen_comparison(comp);
                code.append(" ");
                code.append(rest.as_str());
                code
            },
            Comparison::Compare(op, comp) => {
                let rest = self.gen_comparison(comp);
                let mut code = op.clone();
                code.append(" ");
                code.append(rest.as_str());
                code
            },
        }
    }

    fn gen_expression(&mut self, e: &Expression) -> (code: String)
        ensures
            code@ == render_expression(e@, old(self)@.pending).text,
            final(self)@ == (EmitterView {
                pending: render_expression(e@, old(self)@.pending).pending,
                ..old(self)@
            }),
        decreases e,
    {
        match e {
            Expression::Term(term) => self.gen_term(term),
            Expression::Add(term, expr) => {
                let mut code = self.gen_term(term);
                let rest = self.gen_expression(expr);
                code.append(" + ");
                code.append(rest.as_str());
                code
            },
            Expression::Sub(term, expr) => {
                let mut code = self.gen_term(term);
                let rest = self.gen_expression(expr);
                code.append(" - ");
                code.append(rest.as_str());
                code
            },
        }
    }

    fn gen_term(&mut self, t: &Term) -> (code: String)
        ensures
            code@ == render_term(t@, old(self)@.pending).text,
            final(self)@ == (EmitterView {
                pending: render_term(t@, old(self)@.pending).pending,
                ..old(self)@
            }),
        decreases t,
    {
        match t {
            Term::Unary(u) => self.gen_unary(u),
            Term::Mul(left, right) => {
                let mut code = self.gen_unary(left);
                let rest = self.gen_term(right);
                code.append(" * ");
                code.append(rest.as_str());
                code
            },
            Term::Div(left, right) => {
                let mut code = self.gen_unary(left);
                let rest = self.gen_term(right);
                code.append(" / ");
                code.append(rest.as_str());
                code
            },
        }
    }

    fn gen_unary(&mut self, u: &Unary) -> (code: String)
        ensures
            code@ == render_unary(u@, old(self)@.pending).text,
            final(self)@ == (EmitterView {
                pending: render_unary(u@, old(self)@.pending).pending,
                ..old(self)@
            }),
        decreases u,
    {
        match u {
            Unary::Primary(p) => self.gen_primary(p),
            Unary::Positive(u) => {
                let operand = self.gen_unary(u);
                let mut code = String::from_str("+");
                code.append(operand.as_str());
                code
            },
            Unary::Negative(u) => {
                let operand = self.gen_unary(u);
                let mut code = String::from_str("-");
                code.append(operand.as_str());
                code
            },
        }
    }

    fn gen_primary(&mut self, p: &Primary) -> (code: String)
        ensures
            code@ == render_primary(p@, old(self)@.pending).text,
            final(self)@ == (EmitterView {
                pending: render_primary(p@, old(self)@.pending).pending,
                ..old(self)@
            }),
    {
        match p {
            Primary::Integer(v) => decimal_string(*v),
            Primary::Float(v) => v.clone(),
            Primary::Variable(v) => self.gen_variable(v),
        }
    }

    /// Writes a variable's name, with its declaration if that is pending.
    fn gen_variable(&mut self, name: &String) -> (code: String)
        ensures
            code@ == render_variable(name@, old(self)@.pending).text,
            final(self)@ == (EmitterView {
                pending: render_variable(name@, old(self)@.pending).pending,
                ..old(self)@
            }),
    {
        let mut code = if self.variables.remove(name.as_str()) {
            String::from_str("int")
        } else {
            assert(old(self)@.pending.remove(name@) =~= old(self)@.pending);
            String::new()
        };
        code.append(" ");
        code.append(name.as_str());
        assert(code@ =~= render_variable(name@, old(self)@.pending).text);
        code
    }
}

} // verus!
