//! Writing VM units as text: one statement per line, in the form that the
//! reader takes.
use vstd::prelude::*;
use vstd::string::*;
use crate::text::{decimal, decimal_string};
use crate::vm::{
    functions_view, statements_view, Ast, AstView, Function, FunctionView, PopDest, PopDestView,
    PushSource, PushSourceView, Statement, StatementView,
};

verus! {

/// The word for the segment of a `push`.
pub open spec fn push_segment_name(segment: PushSourceView) -> Seq<char> {
    match segment {
        PushSourceView::Constant => "constant"@,
        PushSourceView::Local => "local"@,
        PushSourceView::Argument => "argument"@,
        PushSourceView::Static(_) => "static"@,
        PushSourceView::This => "this"@,
        PushSourceView::That => "that"@,
        PushSourceView::Temp => "temp"@,
        PushSourceView::Pointer => "pointer"@,
    }
}

/// The word for the segment of a `pop`.
pub open spec fn pop_segment_name(segment: PopDestView) -> Seq<char> {
    match segment {
        PopDestView::Local => "local"@,
        PopDestView::Argument => "argument"@,
        PopDestView::Static(_) => "static"@,
        PopDestView::This => "this"@,
        PopDestView::That => "that"@,
        PopDestView::Temp => "temp"@,
        PopDestView::Pointer => "pointer"@,
    }
}

/// Two words with one space between them.
pub open spec fn spaced(first: Seq<char>, second: Seq<char>) -> Seq<char> {
    first + seq![' '] + second
}

/// The text of a statement: its words, with one space between two of them.
pub open spec fn statement_text(s: StatementView) -> Seq<char> {
    match s {
        StatementView::Not => "not"@,
        StatementView::And => "and"@,
        StatementView::Or => "or"@,
        StatementView::Neg => "neg"@,
        StatementView::Add => "add"@,
        StatementView::Sub => "sub"@,
        StatementView::Eq => "eq"@,
        StatementView::Lt => "lt"@,
        StatementView::Gt => "gt"@,
        StatementView::Return => "return"@,
        StatementView::Push(segment, index) => spaced(
            spaced("push"@, push_segment_name(segment)),
            decimal(index as nat),
        ),
        StatementView::Pop(segment, index) => spaced(
            spaced("pop"@, pop_segment_name(segment)),
            decimal(index as nat),
        ),
        StatementView::Label(l) => spaced("label"@, l),
        StatementView::Goto(l) => spaced("goto"@, l),
        StatementView::IfGoto(l) => spaced("if-goto"@, l),
    }
}

/// The text of a list of statements: each on a line of its own.
pub open spec fn statements_text(list: Seq<StatementView>) -> Seq<char>
    decreases list.len(),
{
    if list.len() == 0 {
        Seq::empty()
    } else {
        statement_text(list[0]) + seq!['\n'] + statements_text(list.drop_first())
    }
}

/// The head line of a function.
pub open spec fn header_text(name: Seq<char>, locals: u16) -> Seq<char> {
    spaced(spaced("function"@, name), decimal(locals as nat))
}

/// The text of a function: its head line, then its statements.
pub open spec fn function_text(f: FunctionView) -> Seq<char> {
    header_text(f.name, f.locals) + seq!['\n'] + statements_text(f.statements)
}

/// The text of a list of functions, one after the other.
pub open spec fn functions_text(fs: Seq<FunctionView>) -> Seq<char>
    decreases fs.len(),
{
    if fs.len() == 0 {
        Seq::empty()
    } else {
        function_text(fs[0]) + functions_text(fs.drop_first())
    }
}

/// The text of a unit.
pub open spec fn unit_text(ast: AstView) -> Seq<char> {
    match ast {
        AstView::Statements(list) => statements_text(list),
        AstView::SingleFile(fs) => functions_text(fs),
    }
}

/// The text of the first `n + 1` statements is the text of the first `n` and the line of the next.
pub proof fn lemma_statements_text_step(list: Seq<StatementView>, n: int)
    requires
        0 <= n < list.len(),
    ensures
        statements_text(list.take(n + 1)) == statements_text(list.take(n)) + statement_text(list[n])
            + seq!['\n'],
    decreases n,
{
    let longer = list.take(n + 1);
    if n == 0 {
        assert(longer.drop_first() =~= Seq::<StatementView>::empty());
        assert(list.take(0) =~= Seq::<StatementView>::empty());
        assert(statements_text(longer) =~= statements_text(list.take(0)) + statement_text(list[0])
            + seq!['\n']);
    } else {
        let rest = list.drop_first();
        lemma_statements_text_step(rest, n - 1);
        assert(longer.drop_first() =~= rest.take(n));
        assert(list.take(n).drop_first() =~= rest.take(n - 1));
        assert(rest[n - 1] == list[n]);
        assert(statements_text(longer) =~= statements_text(list.take(n)) + statement_text(list[n])
            + seq!['\n']);
    }
}

/// The text of the first `n + 1` functions is the text of the first `n` and that of the next.
pub proof fn lemma_functions_text_step(fs: Seq<FunctionView>, n: int)
    requires
        0 <= n < fs.len(),
    ensures
        functions_text(fs.take(n + 1)) == functions_text(fs.take(n)) + function_text(fs[n]),
    decreases n,
{
    let longer = fs.take(n + 1);
    if n == 0 {
        assert(longer.drop_first() =~= Seq::<FunctionView>::empty());
        assert(fs.take(0) =~= Seq::<FunctionView>::empty());
        assert(functions_text(longer) =~= functions_text(fs.take(0)) + function_text(fs[0]));
    } else {
        let rest = fs.drop_first();
        lemma_functions_text_step(rest, n - 1);
        assert(longer.drop_first() =~= rest.take(n));
        assert(fs.take(n).drop_first() =~= rest.take(n - 1));
        assert(rest[n - 1] == fs[n]);
        assert(functions_text(longer) =~= functions_text(fs.take(n)) + function_text(fs[n]));
    }
}

impl PushSource {
    /// The word for this segment.
    pub fn name(&self) -> (r: &'static str)
        ensures
            r@ == push_segment_name(self@),
    {
        match self {
            PushSource::Constant => "constant",
            PushSource::Local => "local",
            PushSource::Argument => "argument",
            PushSource::Static(_) => "static",
            PushSource::This => "this",
            PushSource::That => "that",
            PushSource::Temp => "temp",
            PushSource::Pointer => "pointer",
        }
    }
}

impl PopDest {
    /// The word for this segment.
    pub fn name(&self) -> (r: &'static str)
        ensures
            r@ == pop_segment_name(self@),
    {
        match self {
            PopDest::Local => "local",
            PopDest::Argument => "argument",
            PopDest::Static(_) => "static",
            PopDest::This => "this",
            PopDest::That => "that",
            PopDest::Temp => "temp",
            PopDest::Pointer => "pointer",
        }
    }
}

fn join(first: &str, second: &str) -> (r: String)
    ensures
        r@ == spaced(first@, second@),
{
    let mut out: String = String::from_str(first);
    out.push(' ');
    out.append(second);
    assert(out@ =~= spaced(first@, second@));
    out
}

impl Statement {
    /// The text of this statement.
    pub fn text(&self) -> (r: String)
        ensures
            r@ == statement_text(self@),
    {
        match self {
            Statement::Not => String::from_str("not"),
            Statement::And => String::from_str("and"),
            Statement::Or => String::from_str("or"),
            Statement::Neg => String::from_str("neg"),
            Statement::Add => String::from_str("add"),
            Statement::Sub => String::from_str("sub"),
            Statement::Eq => String::from_str("eq"),
            Statement::Lt => String::from_str("lt"),
            Statement::Gt => String::from_str("gt"),
            Statement::Return => String::from_str("return"),
            Statement::Push(segment, index) => join(
                join("push", segment.name()).as_str(),
                decimal_string(*index as u64).as_str(),
            ),
            Statement::Pop(segment, index) => join(
                join("pop", segment.name()).as_str(),
                decimal_string(*index as u64).as_str(),
            ),
            Statement::Label(l) => join("label", l.as_str()),
            Statement::Goto(l) => join("goto", l.as_str()),
            Statement::IfGoto(l) => join("if-goto", l.as_str()),
        }
    }
}

fn push_statements(out: &mut String, statements: &Vec<Statement>)
    ensures
        final(out)@ == old(out)@ + statements_text(statements_view(statements@)),
{
    let ghost start = out@;
    let ghost list = statements_view(statements@);
    let n: usize = statements.len();
    let mut i: usize = 0;
    assert(list.take(0) =~= Seq::<StatementView>::empty());
    assert(start + statements_text(list.take(0)) =~= start);
    while i < n
        invariant
            list == statements_view(statements@),
            n == list.len(),
            i <= n,
            out@ == start + statements_text(list.take(i as int)),
        decreases n - i,
    {
        proof {
            lemma_statements_text_step(list, i as int);
        }
        out.append(statements[i].text().as_str());
        out.push('\n');
        i += 1;
        assert(out@ =~= start + statements_text(list.take(i as int)));
    }
    assert(list.take(n as int) =~= list);
}

impl Function {
    /// The text of this function: its head line, then its statements.
    pub fn text(&self) -> (r: String)
        ensures
            r@ == function_text(self@),
    {
        let mut out: String = join(
            join("function", self.name.as_str()).as_str(),
            decimal_string(self.locals as u64).as_str(),
        );
        out.push('\n');
        push_statements(&mut out, &self.statements);
        assert(out@ =~= function_text(self@));
        out
    }
}

impl Ast {
    /// The text of this unit, in the form that the reader takes.
    pub fn text(&self) -> (r: String)
        ensures
            r@ == unit_text(self@),
    {
        match self {
            Ast::Statements(statements) => {
                let mut out: String = String::new();
                push_statements(&mut out, statements);
                assert(out@ =~= statements_text(statements_view(statements@)));
                out
            },
            Ast::SingleFile(functions) => {
                let ghost fs = functions_view(functions@);
                let n: usize = functions.len();
                let mut out: String = String::new();
                let mut i: usize = 0;
                assert(fs.take(0) =~= Seq::<FunctionView>::empty());
                while i < n
                    invariant
                        fs == functions_view(functions@),
                        n == fs.len(),
                        i <= n,
                        out@ == functions_text(fs.take(i as int)),
                    decreases n - i,
                {
                    proof {
                        lemma_functions_text_step(fs, i as int);
                    }
                    out.append(functions[i].text().as_str());
                    i += 1;
                }
                assert(fs.take(n as int) =~= fs);
                out
            },
        }
    }
}

} // verus!
