//! The stack VM language: its statements, functions and compilation units.
use vstd::prelude::*;
use vstd::hash_set::StringHashSet;
use vstd::string::*;
use crate::assembly::{program_view, Assembly, Instruction, InstructionView};
use crate::text::decimal;
use crate::vm::parser::{diagnostics_view, parse, parse_unit, Diagnostic, DiagnosticView};
use crate::vm::compiler::{
    count_labels, range_message, all_in_range, labels_drawn, lemma_labels_drawn_prefix, lower_all, lower_function, LabelGenerator,
};
use crate::CodeType;

pub mod compiler;
pub mod laws;
pub mod parser;
pub mod printer;
pub mod roundtrip;

verus! {

/// Where a `push` reads from.
#[derive(Debug, Clone, PartialEq, Eq)]
pub enum PushSource {
    Constant,
    Local,
    Argument,
    Static(String),
    This,
    That,
    Temp,
    Pointer,
}

/// Where a `pop` writes to.
#[derive(Debug, Clone, PartialEq, Eq)]
pub enum PopDest {
    Local,
    Argument,
    Static(String),
    This,
    That,
    Temp,
    Pointer,
}

/// One VM statement.
#[derive(Debug, Clone, PartialEq, Eq)]
pub enum Statement {
    Not,
    And,
    Or,
    Neg,
    Add,
    Sub,
    Eq,
    Lt,
    Gt,
    Push(PushSource, u16),
    Pop(PopDest, u16),
    Label(String),
    Goto(String),
    IfGoto(String),
    Return,
}

/// A VM function: its name `File.fn`, the number of its locals, and its body.
#[derive(Debug, Clone, PartialEq, Eq)]
pub struct Function {
    pub name: String,
    pub locals: u16,
    pub statements: Vec<Statement>,
}

/// A compilation unit: bare statements, or the functions of one file.
#[derive(Debug, Clone, PartialEq, Eq)]
pub enum Ast {
    Statements(Vec<Statement>),
    SingleFile(Vec<Function>),
}

/// The mathematical value of a [`PushSource`].
pub enum PushSourceView {
    Constant,
    Local,
    Argument,
    Static(Seq<char>),
    This,
    That,
    Temp,
    Pointer,
}

/// The mathematical value of a [`PopDest`].
pub enum PopDestView {
    Local,
    Argument,
    Static(Seq<char>),
    This,
    That,
    Temp,
    Pointer,
}

/// The mathematical value of a [`Statement`].
pub enum StatementView {
    Not,
    And,
    Or,
    Neg,
    Add,
    Sub,
    Eq,
    Lt,
    Gt,
    Push(PushSourceView, u16),
    Pop(PopDestView, u16),
    Label(Seq<char>),
    Goto(Seq<char>),
    IfGoto(Seq<char>),
    Return,
}

/// The mathematical value of a [`Function`].
pub struct FunctionView {
    pub name: Seq<char>,
    pub locals: u16,
    pub statements: Seq<StatementView>,
}

/// The mathematical value of an [`Ast`].
pub enum AstView {
    Statements(Seq<StatementView>),
    SingleFile(Seq<FunctionView>),
}

impl View for PushSource {
    type V = PushSourceView;

    open spec fn view(&self) -> PushSourceView {
        match self {
            PushSource::Constant => PushSourceView::Constant,
            PushSource::Local => PushSourceView::Local,
            PushSource::Argument => PushSourceView::Argument,
            PushSource::Static(file) => PushSourceView::Static(file@),
            PushSource::This => PushSourceView::This,
            PushSource::That => PushSourceView::That,
            PushSource::Temp => PushSourceView::Temp,
            PushSource::Pointer => PushSourceView::Pointer,
        }
    }
}

impl View for PopDest {
    type V = PopDestView;

    open spec fn view(&self) -> PopDestView {
        match self {
            PopDest::Local => PopDestView::Local,
            PopDest::Argument => PopDestView::Argument,
            PopDest::Static(file) => PopDestView::Static(file@),
            PopDest::This => PopDestView::This,
            PopDest::That => PopDestView::That,
            PopDest::Temp => PopDestView::Temp,
            PopDest::Pointer => PopDestView::Pointer,
        }
    }
}

impl View for Statement {
    type V = StatementView;

    open spec fn view(&self) -> StatementView {
        match self {
            Statement::Not => StatementView::Not,
            Statement::And => StatementView::And,
            Statement::Or => StatementView::Or,
            Statement::Neg => StatementView::Neg,
            Statement::Add => StatementView::Add,
            Statement::Sub => StatementView::Sub,
            Statement::Eq => StatementView::Eq,
            Statement::Lt => StatementView::Lt,
            Statement::Gt => StatementView::Gt,
            Statement::Push(source, index) => StatementView::Push(source@, *index),
            Statement::Pop(dest, index) => StatementView::Pop(dest@, *index),
            Statement::Label(l) => StatementView::Label(l@),
            Statement::Goto(l) => StatementView::Goto(l@),
            Statement::IfGoto(l) => StatementView::IfGoto(l@),
            Statement::Return => StatementView::Return,
        }
    }
}

/// The values of a list of statements, in order.
pub open spec fn statements_view(s: Seq<Statement>) -> Seq<StatementView> {
    Seq::new(s.len(), |i: int| s[i]@)
}

impl View for Function {
    type V = FunctionView;

    open spec fn view(&self) -> FunctionView {
        FunctionView {
            name: self.name@,
            locals: self.locals,
            statements: statements_view(self.statements@),
        }
    }
}

/// The values of a list of functions, in order.
pub open spec fn functions_view(f: Seq<Function>) -> Seq<FunctionView> {
    Seq::new(f.len(), |i: int| f[i]@)
}

impl View for Ast {
    type V = AstView;

    open spec fn view(&self) -> AstView {
        match self {
            Ast::Statements(s) => AstView::Statements(statements_view(s@)),
            Ast::SingleFile(f) => AstView::SingleFile(functions_view(f@)),
        }
    }
}

impl StatementView {
    /// The number of fresh labels that lowering this statement draws: two
    /// for a comparison, none otherwise.
    pub open spec fn labels_drawn(self) -> nat {
        match self {
            StatementView::Eq | StatementView::Lt | StatementView::Gt => 2,
            _ => 0,
        }
    }

    /// Whether the index fits the segment: `temp` has eight cells, `pointer` two.
    pub open spec fn in_range(self) -> bool {
        match self {
            StatementView::Push(PushSourceView::Temp, i) => i <= 7,
            StatementView::Push(PushSourceView::Pointer, i) => i <= 1,
            StatementView::Pop(PopDestView::Temp, i) => i <= 7,
            StatementView::Pop(PopDestView::Pointer, i) => i <= 1,
            _ => true,
        }
    }
}

/// Why a compilation unit cannot be lowered.
pub enum VmFault {
    /// A `label` statement repeats the name of an earlier one.
    DuplicateLabel(Seq<char>),
    /// A `temp` index above 7.
    TempOutOfRange(u16),
    /// A `pointer` index above 1.
    PointerOutOfRange(u16),
    /// The comparisons need more labels than the generator can count.
    TooManyLabels,
}

impl VmFault {
    /// The text that reports this fault.
    pub open spec fn message(self) -> Seq<char> {
        match self {
            VmFault::DuplicateLabel(name) => "Duplicate Label definition '"@ + name + "'"@,
            VmFault::TempOutOfRange(index) => "Index out of range for temp: "@ + decimal(index as nat),
            VmFault::PointerOutOfRange(index) => "Index out of range for pointer: "@ + decimal(
                index as nat,
            ),
            VmFault::TooManyLabels => "Comparisons exceed the label counter"@,
        }
    }
}

impl StatementView {
    /// The fault of a statement whose index does not fit its segment.
    pub open spec fn range_fault(self) -> Option<VmFault> {
        match self {
            StatementView::Push(PushSourceView::Temp, i) if i > 7 => Some(VmFault::TempOutOfRange(i)),
            StatementView::Pop(PopDestView::Temp, i) if i > 7 => Some(VmFault::TempOutOfRange(i)),
            StatementView::Push(PushSourceView::Pointer, i) if i > 1 => Some(
                VmFault::PointerOutOfRange(i),
            ),
            StatementView::Pop(PopDestView::Pointer, i) if i > 1 => Some(
                VmFault::PointerOutOfRange(i),
            ),
            _ => None,
        }
    }
}

/// Walks `s` in order, starting with the label names `seen`: the names
/// declared after it, or the first fault met. A `label` that repeats a name
/// is a fault, and so is an index out of range.
pub open spec fn check_statements(s: Seq<StatementView>, seen: Seq<Seq<char>>) -> Result<
    Seq<Seq<char>>,
    VmFault,
>
    decreases s.len(),
{
    if s.len() == 0 {
        Ok(seen)
    } else {
        match check_statements(s.drop_last(), seen) {
            Err(fault) => Err(fault),
            Ok(names) => match s.last() {
                StatementView::Label(l) => if names.contains(l) {
                    Err(VmFault::DuplicateLabel(l))
                } else {
                    Ok(names.push(l))
                },
                other => match other.range_fault() {
                    Some(fault) => Err(fault),
                    None => Ok(names),
                },
            },
        }
    }
}

/// Walks the bodies of `fs` in order, as [`check_statements`] does.
pub open spec fn check_functions(fs: Seq<FunctionView>, seen: Seq<Seq<char>>) -> Result<
    Seq<Seq<char>>,
    VmFault,
>
    decreases fs.len(),
{
    if fs.len() == 0 {
        Ok(seen)
    } else {
        match check_functions(fs.drop_last(), seen) {
            Err(fault) => Err(fault),
            Ok(names) => check_statements(fs.last().statements, names),
        }
    }
}

/// The number of labels that lowering the bodies of `fs` draws.
pub open spec fn labels_in(fs: Seq<FunctionView>) -> nat
    decreases fs.len(),
{
    if fs.len() == 0 {
        0
    } else {
        labels_in(fs.drop_last()) + labels_drawn(fs.last().statements)
    }
}

/// The assembly of a list of functions, each after the labels of those before it.
pub open spec fn lower_functions(fs: Seq<FunctionView>, file: Seq<char>, drawn: nat) -> Seq<
    InstructionView,
>
    decreases fs.len(),
{
    if fs.len() == 0 {
        Seq::empty()
    } else {
        lower_functions(fs.drop_last(), file, drawn) + lower_function(
            fs.last(),
            file,
            drawn + labels_in(fs.drop_last()),
        )
    }
}

impl AstView {
    /// The first fault of the unit, if it has one.
    pub open spec fn check(self) -> Result<Seq<Seq<char>>, VmFault> {
        match self {
            AstView::Statements(s) => check_statements(s, Seq::empty()),
            AstView::SingleFile(fs) => check_functions(fs, Seq::empty()),
        }
    }

    /// The number of labels that lowering the unit draws.
    pub open spec fn labels(self) -> nat {
        match self {
            AstView::Statements(s) => labels_drawn(s),
            AstView::SingleFile(fs) => labels_in(fs),
        }
    }

    /// The assembly of the unit.
    pub open spec fn lower(self, file: Seq<char>, drawn: nat) -> Seq<InstructionView> {
        match self {
            AstView::Statements(s) => lower_all(s, file, drawn),
            AstView::SingleFile(fs) => lower_functions(fs, file, drawn),
        }
    }
}

/// The result of compiling the unit `ast` of the file `file`, with `drawn`
/// labels drawn before: its assembly, or its first fault. Nothing is lowered
/// unless the whole unit is free of faults.
pub open spec fn vm_compile(ast: AstView, file: Seq<char>, drawn: nat) -> Result<
    Seq<InstructionView>,
    VmFault,
> {
    match ast.check() {
        Err(fault) => Err(fault),
        Ok(_) => if drawn + ast.labels() > u64::MAX {
            Err(VmFault::TooManyLabels)
        } else {
            Ok(ast.lower(file, drawn))
        },
    }
}

/// A fault among the first `n` statements is the fault of the whole list.
pub proof fn lemma_check_statements_fault(s: Seq<StatementView>, seen: Seq<Seq<char>>, n: int)
    requires
        0 <= n <= s.len(),
        check_statements(s.take(n), seen) is Err,
    ensures
        check_statements(s, seen) == check_statements(s.take(n), seen),
    decreases s.len(),
{
    if n == s.len() {
        assert(s.take(n) =~= s);
    } else {
        assert(s.drop_last().take(n) =~= s.take(n));
        lemma_check_statements_fault(s.drop_last(), seen, n);
    }
}

/// A fault among the first `n` functions is the fault of the whole list.
pub proof fn lemma_check_functions_fault(fs: Seq<FunctionView>, seen: Seq<Seq<char>>, n: int)
    requires
        0 <= n <= fs.len(),
        check_functions(fs.take(n), seen) is Err,
    ensures
        check_functions(fs, seen) == check_functions(fs.take(n), seen),
    decreases fs.len(),
{
    if n == fs.len() {
        assert(fs.take(n) =~= fs);
    } else {
        assert(fs.drop_last().take(n) =~= fs.take(n));
        lemma_check_functions_fault(fs.drop_last(), seen, n);
    }
}

/// A list that passes the check has every index in range.
pub proof fn lemma_checked_in_range(s: Seq<StatementView>, seen: Seq<Seq<char>>)
    requires
        check_statements(s, seen) is Ok,
    ensures
        all_in_range(s),
    decreases s.len(),
{
    if s.len() > 0 {
        lemma_checked_in_range(s.drop_last(), seen);
        assert forall|i: int| 0 <= i < s.len() implies (#[trigger] s[i]).in_range() by {
            if i < s.len() - 1 {
                assert(s.drop_last()[i] == s[i]);
            }
        }
    }
}

/// Functions that pass the check have every index in range.
pub proof fn lemma_checked_functions_in_range(fs: Seq<FunctionView>, seen: Seq<Seq<char>>, i: int)
    requires
        check_functions(fs, seen) is Ok,
        0 <= i < fs.len(),
    ensures
        all_in_range(fs[i].statements),
    decreases fs.len(),
{
    if i == fs.len() - 1 {
        lemma_checked_in_range(fs.last().statements, check_functions(fs.drop_last(), seen)->Ok_0);
    } else {
        lemma_checked_functions_in_range(fs.drop_last(), seen, i);
    }
}

/// The first `n` functions draw no more labels than all of them.
pub proof fn lemma_labels_in_prefix(fs: Seq<FunctionView>, n: int)
    requires
        0 <= n <= fs.len(),
    ensures
        labels_in(fs.take(n)) <= labels_in(fs),
    decreases fs.len(),
{
    if n == fs.len() {
        assert(fs.take(n) =~= fs);
    } else {
        assert(fs.drop_last().take(n) =~= fs.take(n));
        lemma_labels_in_prefix(fs.drop_last(), n);
    }
}

/// The label names met so far: a hash set to search in, and the order in
/// which the names came.
struct Seen {
    set: StringHashSet,
    order: Ghost<Seq<Seq<char>>>,
}

impl Seen {
    /// The names, in the order in which they came.
    closed spec fn names(&self) -> Seq<Seq<char>> {
        self.order@
    }

    /// The set holds the names that came, and no others.
    closed spec fn wf(&self) -> bool {
        forall|name: Seq<char>| self.set@.contains(name) <==> #[trigger] self.order@.contains(name)
    }

    fn new() -> (r: Seen)
        ensures
            r.wf(),
            r.names() == Seq::<Seq<char>>::empty(),
    {
        Seen { set: StringHashSet::new(), order: Ghost(Seq::empty()) }
    }

    fn has(&self, name: &str) -> (r: bool)
        requires
            self.wf(),
        ensures
            r == self.names().contains(name@),
    {
        self.set.contains(name)
    }

    fn add(&mut self, name: &str)
        requires
            old(self).wf(),
        ensures
            final(self).wf(),
            final(self).names() == old(self).names().push(name@),
    {
        let ghost before = self.order@;
        let _ = self.set.insert(String::from_str(name));
        proof {
            self.order@ = before.push(name@);
            assert forall|other: Seq<char>| self.set@.contains(other) <==> #[trigger] self.order@.contains(
                other,
            ) by {
                if before.contains(other) {
                    let k = choose|k: int| 0 <= k < before.len() && before[k] == other;
                    assert(self.order@[k] == other);
                }
                if other == name@ {
                    assert(self.order@[before.len() as int] == other);
                }
                if self.order@.contains(other) {
                    let k = choose|k: int| 0 <= k < self.order@.len() && self.order@[k] == other;
                    if k < before.len() {
                        assert(before[k] == other);
                    }
                }
            }
        }
    }
}

/// Checks `statements` after the names in `seen`, and adds their labels to `seen`.
fn check_list(statements: &Vec<Statement>, seen: &mut Seen) -> (r: Result<(), String>)
    requires
        old(seen).wf(),
    ensures
        final(seen).wf(),
        match r {
            Ok(_) => check_statements(statements_view(statements@), old(seen).names()) == Ok::<
                Seq<Seq<char>>,
                VmFault,
            >(final(seen).names()),
            Err(text) => check_statements(
                statements_view(statements@),
                old(seen).names(),
            ) matches Err(fault) && text@ == fault.message(),
        },
{
    let ghost s = statements_view(statements@);
    let ghost start = seen.names();
    let n: usize = statements.len();
    let mut i: usize = 0;
    assert(s.take(0) =~= Seq::<StatementView>::empty());
    while i < n
        invariant
            s == statements_view(statements@),
            n == s.len(),
            i <= n,
            start == old(seen).names(),
            seen.wf(),
            check_statements(s.take(i as int), start) == Ok::<Seq<Seq<char>>, VmFault>(
                seen.names(),
            ),
        decreases n - i,
    {
        proof {
            assert(s.take(i + 1).drop_last() =~= s.take(i as int));
            assert(s.take(i + 1).last() == statements@[i as int]@);
        }
        match &statements[i] {
            Statement::Label(l) => {
                if seen.has(l.as_str()) {
                    proof {
                        lemma_check_statements_fault(s, start, i + 1);
                    }
                    let mut text: String = String::from_str("Duplicate Label definition '");
                    text.append(l.as_str());
                    text.append("'");
                    return Err(text);
                }
                seen.add(l.as_str());
            },
            other => {
                match range_message(other) {
                    Some(text) => {
                        proof {
                            lemma_check_statements_fault(s, start, i + 1);
                        }
                        return Err(text);
                    },
                    None => {},
                }
            },
        }
        i += 1;
    }
    assert(s.take(n as int) =~= s);
    Ok(())
}

/// A compilation unit with the label generator of its file.
#[derive(Debug)]
pub struct VM {
    ast: Ast,
    label_generator: LabelGenerator,
}

impl VM {
    /// The unit to compile.
    pub closed spec fn unit(&self) -> AstView {
        self.ast@
    }

    /// The file name that the unit's synthetic labels start with.
    pub closed spec fn file(&self) -> Seq<char> {
        self.label_generator.file()
    }

    /// The number of labels drawn so far.
    pub closed spec fn drawn(&self) -> nat {
        self.label_generator.issued()
    }

    /// The unit `ast` of the file `filename`, with no label drawn yet.
    pub fn new(ast: Ast, filename: &str) -> (r: VM)
        ensures
            r.unit() == ast@,
            r.file() == filename@,
            r.drawn() == 0,
    {
        VM { ast, label_generator: LabelGenerator::new(filename) }
    }

    /// Reads the unit that `source` holds. `path` names the file in the
    /// synthetic labels; `filename` is its last component, which the statics
    /// and the function names go by.
    pub fn from_source(source: &str, path: &str, filename: &str) -> (r: Result<VM, Vec<Diagnostic>>)
        ensures
            match r {
                Ok(vm) => parse_unit(source@, filename@) == Ok::<AstView, Seq<DiagnosticView>>(
                    vm.unit(),
                ) && vm.file() == path@ && vm.drawn() == 0,
                Err(faults) => parse_unit(source@, filename@) == Err::<AstView, Seq<DiagnosticView>>(
                    diagnostics_view(faults@),
                ) && faults@.len() > 0,
            },
    {
        match parse(source, filename) {
            Ok(ast) => Ok(VM::new(ast, path)),
            Err(faults) => Err(faults),
        }
    }

    /// The unit to compile.
    pub fn ast(&self) -> (r: &Ast)
        ensures
            r@ == self.unit(),
    {
        &self.ast
    }

    fn lower_statements(statements: &Vec<Statement>, lg: &mut LabelGenerator) -> (r: Option<
        Vec<Instruction>,
    >)
        requires
            all_in_range(statements_view(statements@)),
        ensures
            match r {
                Some(out) => old(lg).issued() + labels_drawn(statements_view(statements@))
                    <= u64::MAX && program_view(out@) == lower_all(
                    statements_view(statements@),
                    old(lg).file(),
                    old(lg).issued(),
                ),
                None => old(lg).issued() + labels_drawn(statements_view(statements@)) > u64::MAX,
            },
    {
        let ghost s = statements_view(statements@);
        let ghost file = lg.file();
        let ghost drawn = lg.issued();
        let n: usize = statements.len();
        let mut out: Vec<Instruction> = Vec::new();
        let mut i: usize = 0;
        assert(s.take(0) =~= Seq::<StatementView>::empty());
        assert(program_view(out@) =~= lower_all(s.take(0), file, drawn));
        while i < n
            invariant
                s == statements_view(statements@),
                n == s.len(),
                i <= n,
                all_in_range(s),
                file == old(lg).file(),
                drawn == old(lg).issued(),
                lg.file() == file,
                lg.issued() == drawn + labels_drawn(s.take(i as int)),
                program_view(out@) == lower_all(s.take(i as int), file, drawn),
            decreases n - i,
        {
            proof {
                assert(s.take(i + 1).drop_last() =~= s.take(i as int));
                assert(s.take(i + 1).last() == statements@[i as int]@);
                lemma_labels_drawn_prefix(s, i + 1);
                assert(s[i as int].in_range());
            }
            if !lg.has_room(statements[i].labels_drawn()) {
                return None;
            }
            let ghost before = program_view(out@);
            let mut more = statements[i].lowered(lg);
            let ghost added = program_view(more@);
            out.append(&mut more);
            i += 1;
            assert(program_view(out@) =~= before + added);
        }
        proof {
            assert(s.take(n as int) =~= s);
            lg.lemma_issued_bound();
        }
        Some(out)
    }

    fn lower_functions(functions: &Vec<Function>, lg: &mut LabelGenerator) -> (r: Option<
        Vec<Instruction>,
    >)
        requires
            forall|i: int|
                0 <= i < functions@.len() ==> all_in_range(
                    (#[trigger] functions_view(functions@)[i]).statements,
                ),
        ensures
            match r {
                Some(out) => old(lg).issued() + labels_in(functions_view(functions@)) <= u64::MAX
                    && program_view(out@) == lower_functions(
                    functions_view(functions@),
                    old(lg).file(),
                    old(lg).issued(),
                ),
                None => old(lg).issued() + labels_in(functions_view(functions@)) > u64::MAX,
            },
    {
        let ghost fs = functions_view(functions@);
        let ghost file = lg.file();
        let ghost drawn = lg.issued();
        let n: usize = functions.len();
        let mut out: Vec<Instruction> = Vec::new();
        let mut i: usize = 0;
        assert(fs.take(0) =~= Seq::<FunctionView>::empty());
        assert(program_view(out@) =~= lower_functions(fs.take(0), file, drawn));
        while i < n
            invariant
                fs == functions_view(functions@),
                n == fs.len(),
                i <= n,
                forall|k: int| 0 <= k < fs.len() ==> all_in_range((#[trigger] fs[k]).statements),
                file == old(lg).file(),
                drawn == old(lg).issued(),
                lg.file() == file,
                lg.issued() == drawn + labels_in(fs.take(i as int)),
                program_view(out@) == lower_functions(fs.take(i as int), file, drawn),
            decreases n - i,
        {
            proof {
                assert(fs.take(i + 1).drop_last() =~= fs.take(i as int));
                assert(fs.take(i + 1).last() == functions@[i as int]@);
                lemma_labels_in_prefix(fs, i + 1);
                assert(all_in_range(fs[i as int].statements));
            }
            let room: bool = match count_labels(&functions[i].statements) {
                Some(count) => lg.has_room(count),
                None => false,
            };
            if !room {
                return None;
            }
            let ghost before = program_view(out@);
            let mut more = functions[i].lowered(lg);
            let ghost added = program_view(more@);
            out.append(&mut more);
            i += 1;
            assert(program_view(out@) =~= before + added);
        }
        proof {
            assert(fs.take(n as int) =~= fs);
            lg.lemma_issued_bound();
        }
        Some(out)
    }

    fn check_all(functions: &Vec<Function>) -> (r: Result<(), String>)
        ensures
            match r {
                Ok(_) => check_functions(functions_view(functions@), Seq::empty()) is Ok,
                Err(text) => check_functions(functions_view(functions@), Seq::empty()) matches Err(
                    fault,
                ) && text@ == fault.message(),
            },
    {
        let ghost fs = functions_view(functions@);
        let n: usize = functions.len();
        let mut seen = Seen::new();
        let mut i: usize = 0;
        assert(fs.take(0) =~= Seq::<FunctionView>::empty());
        while i < n
            invariant
                fs == functions_view(functions@),
                n == fs.len(),
                i <= n,
                seen.wf(),
                check_functions(fs.take(i as int), Seq::empty()) == Ok::<Seq<Seq<char>>, VmFault>(
                    seen.names(),
                ),
            decreases n - i,
        {
            proof {
                assert(fs.take(i + 1).drop_last() =~= fs.take(i as int));
                assert(fs.take(i + 1).last() == functions@[i as int]@);
            }
            match check_list(&functions[i].statements, &mut seen) {
                Ok(_) => {},
                Err(text) => {
                    proof {
                        lemma_check_functions_fault(fs, Seq::empty(), i + 1);
                    }
                    return Err(text);
                },
            }
            i += 1;
        }
        assert(fs.take(n as int) =~= fs);
        Ok(())
    }

    /// Lowers the unit to assembly. Nothing is lowered unless the whole unit
    /// is free of faults.
    pub fn to_assembly(self) -> (r: Result<Assembly, String>)
        ensures
            match r {
                Ok(assembly) => vm_compile(self.unit(), self.file(), self.drawn()) == Ok::<
                    Seq<InstructionView>,
                    VmFault,
                >(assembly@),
                Err(text) => vm_compile(self.unit(), self.file(), self.drawn()) matches Err(fault)
                    && text@ == fault.message(),
            },
    {
        let VM { ast, label_generator } = self;
        let mut lg = label_generator;
        let lowered: Option<Vec<Instruction>> = match &ast {
            Ast::Statements(statements) => {
                let mut seen = Seen::new();
                match check_list(statements, &mut seen) {
                    Ok(_) => {},
                    Err(text) => {
                        return Err(text);
                    },
                }
                proof {
                    lemma_checked_in_range(statements_view(statements@), Seq::empty());
                }
                Self::lower_statements(statements, &mut lg)
            },
            Ast::SingleFile(functions) => {
                match Self::check_all(functions) {
                    Ok(_) => {},
                    Err(text) => {
                        return Err(text);
                    },
                }
                proof {
                    let fs = functions_view(functions@);
                    assert forall|i: int| 0 <= i < fs.len() implies all_in_range(
                        (#[trigger] fs[i]).statements,
                    ) by {
                        lemma_checked_functions_in_range(fs, Seq::empty(), i);
                    }
                }
                Self::lower_functions(functions, &mut lg)
            },
        };
        match lowered {
            Some(out) => Ok(Assembly::from_instructions(out)),
            None => Err(String::from_str("Comparisons exceed the label counter")),
        }
    }

    /// Lowers the unit to assembly; the result is the program at its next stage.
    pub fn compile(self) -> (r: Result<CodeType, String>)
        ensures
            match r {
                Ok(CodeType::Assembly(assembly)) => vm_compile(self.unit(), self.file(), self.drawn())
                    == Ok::<Seq<InstructionView>, VmFault>(assembly@),
                Ok(_) => false,
                Err(text) => vm_compile(self.unit(), self.file(), self.drawn()) matches Err(fault)
                    && text@ == fault.message(),
            },
    {
        match self.to_assembly() {
            Ok(assembly) => Ok(CodeType::Assembly(assembly)),
            Err(text) => Err(text),
        }
    }
}

} // verus!
