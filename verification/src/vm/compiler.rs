//! Lowering of VM statements and functions to Hack assembly.
use vstd::prelude::*;
use vstd::string::*;
use crate::assembly::{
    program_view, Compute, Instruction, InstructionView, Jump, LoadDataView, Target,
};
use crate::text::{decimal, decimal_string};
use crate::vm::{
    statements_view, Function, FunctionView, PopDest, PopDestView, PushSource, PushSourceView,
    Statement, StatementView, VmFault,
};

verus! {

/// The `n`-th synthetic label of the file `file`.
pub open spec fn statement_label(file: Seq<char>, n: nat) -> Seq<char> {
    file + "-stmt-"@ + decimal(n)
}

/// The source of labels that no other statement of the compilation gets.
#[derive(Debug)]
pub struct LabelGenerator {
    filename: String,
    last_statement: u64,
}

impl LabelGenerator {
    /// The file name that every label starts with.
    pub closed spec fn file(&self) -> Seq<char> {
        self.filename@
    }

    /// The number of labels drawn so far.
    pub closed spec fn issued(&self) -> nat {
        self.last_statement as nat
    }

    /// The count of drawn labels is a 64-bit number.
    pub proof fn lemma_issued_bound(&self)
        ensures
            self.issued() <= u64::MAX,
    {
    }

    /// A generator for the file `filename` that has drawn no label yet.
    pub fn new(filename: &str) -> (r: LabelGenerator)
        ensures
            r.file() == filename@,
            r.issued() == 0,
    {
        LabelGenerator { filename: String::from_str(filename), last_statement: 0 }
    }

    /// Whether `count` more labels can be drawn.
    pub fn has_room(&self, count: u64) -> (r: bool)
        ensures
            r == (self.issued() + count <= u64::MAX),
    {
        count <= u64::MAX - self.last_statement
    }

    /// Draws the next label.
    pub fn next_statement(&mut self) -> (r: String)
        requires
            old(self).issued() < u64::MAX,
        ensures
            r@ == statement_label(old(self).file(), old(self).issued()),
            final(self).file() == old(self).file(),
            final(self).issued() == old(self).issued() + 1,
    {
        let val: u64 = self.last_statement;
        self.last_statement += 1;
        let mut out: String = self.filename.clone();
        out.append("-stmt-");
        out.append(decimal_string(val).as_str());
        out
    }
}

/// No destination.
pub open spec fn to_none() -> Target {
    Target { a: false, d: false, m: false }
}

/// The destination A.
pub open spec fn to_a() -> Target {
    Target { a: true, d: false, m: false }
}

/// The destination D.
pub open spec fn to_d() -> Target {
    Target { a: false, d: true, m: false }
}

/// The destination M.
pub open spec fn to_m() -> Target {
    Target { a: false, d: false, m: true }
}

/// The destinations A and M.
pub open spec fn to_am() -> Target {
    Target { a: true, d: false, m: true }
}

/// `@name`
pub open spec fn at(name: Seq<char>) -> InstructionView {
    InstructionView::Load { data: LoadDataView::Label(name) }
}

/// `@n`
pub open spec fn at_number(n: u16) -> InstructionView {
    InstructionView::Load { data: LoadDataView::Data(n) }
}

/// `target=compute`
pub open spec fn assign(target: Target, compute: Compute) -> InstructionView {
    InstructionView::Command { compute, target, jump: Jump::NONE }
}

/// `compute;jump`
pub open spec fn branch(compute: Compute, jump: Jump) -> InstructionView {
    InstructionView::Command { compute, target: to_none(), jump }
}

/// `(name)`
pub open spec fn mark(name: Seq<char>) -> InstructionView {
    InstructionView::Label { label: name }
}

/// Loads the constant `n` into D.
pub open spec fn set_d(n: u16) -> Seq<InstructionView> {
    seq![at_number(n), assign(to_d(), Compute::A)]
}

/// Writes D to the top of the stack and moves the stack pointer up.
pub open spec fn push_d() -> Seq<InstructionView> {
    seq![
        at("SP"@),
        assign(to_a(), Compute::M),
        assign(to_m(), Compute::D),
        at("SP"@),
        assign(to_m(), Compute::MplusOne),
    ]
}

/// Moves the stack pointer down and reads the cell it then points at into `target`.
pub open spec fn pop(target: Target) -> Seq<InstructionView> {
    seq![at("SP"@), assign(to_am(), Compute::MminOne), assign(target, Compute::M)]
}

/// Replaces the top of the stack by `compute` of it.
pub open spec fn compute1(compute: Compute) -> Seq<InstructionView> {
    seq![at("SP"@), assign(to_a(), Compute::MminOne), assign(to_m(), compute)]
}

/// Pops the right operand into D and replaces the new top by `compute`.
pub open spec fn compute2(compute: Compute) -> Seq<InstructionView> {
    pop(to_d()) + compute1(compute)
}

/// Pops two cells, compares them, and pushes -1 if the jump condition holds
/// of their difference and 0 if not.
pub open spec fn compare(yes: Seq<char>, end: Seq<char>, jump: Jump) -> Seq<InstructionView> {
    pop(to_d()) + pop(to_a()) + seq![assign(to_d(), Compute::AminD), at(yes), branch(Compute::D, jump)]
        + set_d(0) + seq![
        at(end),
        branch(Compute::A, Jump::JMP),
        mark(yes),
        assign(to_d(), Compute::NegOne),
        mark(end),
    ] + push_d()
}

/// Pushes the cell `index` of the segment whose base address `base` holds.
pub open spec fn push_common(base: Seq<char>, index: u16) -> Seq<InstructionView> {
    seq![
        at(base),
        assign(to_d(), Compute::M),
        at_number(index),
        assign(to_a(), Compute::DplusA),
        assign(to_d(), Compute::M),
    ] + push_d()
}

/// Pops into the cell `index` of the segment whose base address `base`
/// holds, keeping the cell's address in R13 meanwhile.
pub open spec fn pop_common(base: Seq<char>, index: u16) -> Seq<InstructionView> {
    seq![
        at(base),
        assign(to_d(), Compute::M),
        at_number(index),
        assign(to_d(), Compute::DplusA),
        at("R13"@),
        assign(to_m(), Compute::D),
    ] + pop(to_d()) + seq![at("R13"@), assign(to_a(), Compute::M), assign(to_m(), Compute::D)]
}

/// Pushes the cell that `symbol` names.
pub open spec fn push_fixed(symbol: Seq<char>) -> Seq<InstructionView> {
    seq![at(symbol), assign(to_d(), Compute::M)] + push_d()
}

/// Pops into the cell that `symbol` names.
pub open spec fn pop_fixed(symbol: Seq<char>) -> Seq<InstructionView> {
    pop(to_d()) + seq![at(symbol), assign(to_m(), Compute::D)]
}

/// The symbol of cell `index` of the statics of `file`.
pub open spec fn static_name(file: Seq<char>, index: u16) -> Seq<char> {
    "staticvar."@ + file + "."@ + decimal(index as nat)
}

/// The symbol of cell `index` of `temp`: R5 to R12.
pub open spec fn temp_name(index: u16) -> Seq<char> {
    "R"@ + decimal((index + 5) as nat)
}

/// The symbol of cell `index` of `pointer`: R3 and R4.
pub open spec fn pointer_name(index: u16) -> Seq<char> {
    "R"@ + decimal((index + 3) as nat)
}

/// Reads the frame cell that R14 points at into D and stores it in `segment`.
pub open spec fn restore_here(segment: Seq<char>) -> Seq<InstructionView> {
    seq![assign(to_d(), Compute::M), at(segment), assign(to_m(), Compute::D)]
}

/// Moves R14 one cell down the frame, then restores `segment` from there.
pub open spec fn restore_next(segment: Seq<char>) -> Seq<InstructionView> {
    seq![at("R14"@), assign(to_am(), Compute::MminOne)] + restore_here(segment)
}

/// The function epilogue: the return value goes to `ARG[0]`, the stack
/// pointer to `ARG + 1`; R14 starts at `LCL - 1` and walks down the frame,
/// restoring THAT, THIS, ARG and LCL in this order; the cell below holds the
/// return address, which is loaded into A and then jumped to with `0;JMP`.
pub open spec fn return_sequence() -> Seq<InstructionView> {
    pop_common("ARG"@, 0) + seq![
        at("ARG"@),
        assign(to_d(), Compute::MplusOne),
        at("SP"@),
        assign(to_m(), Compute::D),
    ] + seq![
        at("LCL"@),
        assign(to_d(), Compute::MminOne),
        at("R14"@),
        assign(to_am(), Compute::D),
    ] + restore_here("THAT"@) + restore_next("THIS"@) + restore_next("ARG"@) + restore_next(
        "LCL"@,
    ) + seq![
        at("R14"@),
        assign(to_a(), Compute::MminOne),
        assign(to_a(), Compute::M),
        branch(Compute::Zero, Jump::JMP),
    ]
}

/// The assembly of one statement. `file` and `drawn` say which labels a
/// comparison gets: the next two of the file.
pub open spec fn lower(s: StatementView, file: Seq<char>, drawn: nat) -> Seq<InstructionView> {
    match s {
        StatementView::Not => compute1(Compute::NotM),
        StatementView::And => compute2(Compute::DandM),
        StatementView::Or => compute2(Compute::DorM),
        StatementView::Neg => compute1(Compute::NegM),
        StatementView::Add => compute2(Compute::DplusM),
        StatementView::Sub => compute2(Compute::MminD),
        StatementView::Eq => compare(
            statement_label(file, drawn),
            statement_label(file, drawn + 1),
            Jump::JEQ,
        ),
        StatementView::Lt => compare(
            statement_label(file, drawn),
            statement_label(file, drawn + 1),
            Jump::JLT,
        ),
        StatementView::Gt => compare(
            statement_label(file, drawn),
            statement_label(file, drawn + 1),
            Jump::JGT,
        ),
        StatementView::Push(PushSourceView::Constant, i) => set_d(i) + push_d(),
        StatementView::Push(PushSourceView::Local, i) => push_common("LCL"@, i),
        StatementView::Push(PushSourceView::Argument, i) => push_common("ARG"@, i),
        StatementView::Push(PushSourceView::This, i) => push_common("THIS"@, i),
        StatementView::Push(PushSourceView::That, i) => push_common("THAT"@, i),
        StatementView::Push(PushSourceView::Static(name), i) => push_fixed(static_name(name, i)),
        StatementView::Push(PushSourceView::Temp, i) => push_fixed(temp_name(i)),
        StatementView::Push(PushSourceView::Pointer, i) => push_fixed(pointer_name(i)),
        StatementView::Pop(PopDestView::Local, i) => pop_common("LCL"@, i),
        StatementView::Pop(PopDestView::Argument, i) => pop_common("ARG"@, i),
        StatementView::Pop(PopDestView::This, i) => pop_common("THIS"@, i),
        StatementView::Pop(PopDestView::That, i) => pop_common("THAT"@, i),
        StatementView::Pop(PopDestView::Static(name), i) => pop_fixed(static_name(name, i)),
        StatementView::Pop(PopDestView::Temp, i) => pop_fixed(temp_name(i)),
        StatementView::Pop(PopDestView::Pointer, i) => pop_fixed(pointer_name(i)),
        StatementView::Label(l) => seq![mark(l)],
        StatementView::Goto(l) => seq![at(l), branch(Compute::Zero, Jump::JMP)],
        StatementView::IfGoto(l) => pop(to_d()) + seq![at(l), branch(Compute::D, Jump::JNE)],
        StatementView::Return => return_sequence(),
    }
}

/// The number of labels that lowering `s` draws.
pub open spec fn labels_drawn(s: Seq<StatementView>) -> nat
    decreases s.len(),
{
    if s.len() == 0 {
        0
    } else {
        labels_drawn(s.drop_last()) + s.last().labels_drawn()
    }
}

/// The assembly of a list of statements, each after the labels of those before it.
pub open spec fn lower_all(s: Seq<StatementView>, file: Seq<char>, drawn: nat) -> Seq<
    InstructionView,
>
    decreases s.len(),
{
    if s.len() == 0 {
        Seq::empty()
    } else {
        lower_all(s.drop_last(), file, drawn) + lower(
            s.last(),
            file,
            drawn + labels_drawn(s.drop_last()),
        )
    }
}

/// Stores zero in `count` consecutive cells, moving A up after each.
pub open spec fn clear_locals(count: nat) -> Seq<InstructionView>
    decreases count,
{
    if count == 0 {
        Seq::empty()
    } else {
        clear_locals((count - 1) as nat) + seq![
            assign(to_m(), Compute::Zero),
            assign(to_a(), Compute::AplusOne),
        ]
    }
}

/// The label that declares the function `name`.
pub open spec fn function_label(name: Seq<char>) -> Seq<char> {
    "function:"@ + name
}

/// The assembly of a function: its label, the clearing of its locals from
/// `M[LCL]` upwards, then its body.
pub open spec fn lower_function(f: FunctionView, file: Seq<char>, drawn: nat) -> Seq<
    InstructionView,
> {
    seq![mark(function_label(f.name)), at("LCL"@), assign(to_a(), Compute::M)] + clear_locals(
        f.locals as nat,
    ) + lower_all(f.statements, file, drawn)
}

/// Whether every statement of `s` has its index in range.
pub open spec fn all_in_range(s: Seq<StatementView>) -> bool {
    forall|i: int| 0 <= i < s.len() ==> (#[trigger] s[i]).in_range()
}

/// A prefix draws no more labels than the whole list.
pub proof fn lemma_labels_drawn_prefix(s: Seq<StatementView>, n: int)
    requires
        0 <= n <= s.len(),
    ensures
        labels_drawn(s.take(n)) <= labels_drawn(s),
        labels_drawn(s) <= 2 * s.len(),
    decreases s.len(),
{
    if n == s.len() {
        assert(s.take(n) =~= s);
        if s.len() > 0 {
            lemma_labels_drawn_prefix(s.drop_last(), n - 1);
        }
    } else {
        assert(s.drop_last().take(n) =~= s.take(n));
        lemma_labels_drawn_prefix(s.drop_last(), n);
    }
}

/// Why the statement `s` cannot be lowered after `drawn` labels: its index
/// does not fit its segment, or the generator cannot count its labels.
pub open spec fn statement_fault(s: StatementView, drawn: nat) -> Option<VmFault> {
    match s.range_fault() {
        Some(fault) => Some(fault),
        None => if drawn + s.labels_drawn() > u64::MAX {
            Some(VmFault::TooManyLabels)
        } else {
            None
        },
    }
}

/// The fault of the first statement of `s` whose index does not fit its segment.
pub open spec fn first_range_fault(s: Seq<StatementView>) -> Option<VmFault>
    decreases s.len(),
{
    if s.len() == 0 {
        None
    } else {
        match first_range_fault(s.drop_last()) {
            Some(fault) => Some(fault),
            None => s.last().range_fault(),
        }
    }
}

/// Why the function `f` cannot be lowered after `drawn` labels: an index
/// of one of its statements does not fit, or the generator cannot count the
/// labels of its comparisons.
pub open spec fn function_fault(f: FunctionView, drawn: nat) -> Option<VmFault> {
    match first_range_fault(f.statements) {
        Some(fault) => Some(fault),
        None => if drawn + labels_drawn(f.statements) > u64::MAX {
            Some(VmFault::TooManyLabels)
        } else {
            None
        },
    }
}

/// A range fault among the first `n` statements is that of the whole list.
pub proof fn lemma_first_range_fault(s: Seq<StatementView>, n: int)
    requires
        0 <= n <= s.len(),
        first_range_fault(s.take(n)) is Some,
    ensures
        first_range_fault(s) == first_range_fault(s.take(n)),
    decreases s.len(),
{
    if n == s.len() {
        assert(s.take(n) =~= s);
    } else {
        assert(s.drop_last().take(n) =~= s.take(n));
        lemma_first_range_fault(s.drop_last(), n);
    }
}

/// A list has a range fault exactly if one of its indices is out of range.
pub proof fn lemma_range_fault_meaning(s: Seq<StatementView>)
    ensures
        first_range_fault(s) is None <==> all_in_range(s),
    decreases s.len(),
{
    if s.len() > 0 {
        let shorter = s.drop_last();
        lemma_range_fault_meaning(shorter);
        if all_in_range(s) {
            assert forall|i: int| 0 <= i < shorter.len() implies (#[trigger] shorter[i]).in_range() by {
                assert(s[i].in_range());
            }
            assert(s[s.len() - 1].in_range());
        }
        if all_in_range(shorter) && s.last().in_range() {
            assert forall|i: int| 0 <= i < s.len() implies (#[trigger] s[i]).in_range() by {
                if i < shorter.len() {
                    assert(shorter[i].in_range());
                }
            }
        }
    }
}

/// The text that reports the index of `statement`, if it does not fit its segment.
pub(crate) fn range_message(statement: &Statement) -> (r: Option<String>)
    ensures
        match r {
            Some(text) => statement@.range_fault() matches Some(fault) && text@ == fault.message(),
            None => statement@.range_fault() is None,
        },
        r is None <==> statement@.in_range(),
{
    let (limit, index, prefix): (u16, u16, &str) = match statement {
        Statement::Push(PushSource::Temp, i) | Statement::Pop(PopDest::Temp, i) => (
            7,
            *i,
            "Index out of range for temp: ",
        ),
        Statement::Push(PushSource::Pointer, i) | Statement::Pop(PopDest::Pointer, i) => (
            1,
            *i,
            "Index out of range for pointer: ",
        ),
        _ => {
            return None;
        },
    };
    if index <= limit {
        return None;
    }
    let mut text: String = String::from_str(prefix);
    text.append(decimal_string(index as u64).as_str());
    Some(text)
}


/// The number of labels that lowering `statements` draws, if a `u64` holds it.
pub(crate) fn count_labels(statements: &Vec<Statement>) -> (r: Option<u64>)
    ensures
        match r {
            Some(n) => n == labels_drawn(statements_view(statements@)),
            None => labels_drawn(statements_view(statements@)) > u64::MAX,
        },
{
    let ghost s = statements_view(statements@);
    let n: usize = statements.len();
    let mut total: u64 = 0;
    let mut i: usize = 0;
    assert(s.take(0) =~= Seq::<StatementView>::empty());
    while i < n
        invariant
            s == statements_view(statements@),
            n == s.len(),
            i <= n,
            total == labels_drawn(s.take(i as int)),
        decreases n - i,
    {
        proof {
            assert(s.take(i + 1).drop_last() =~= s.take(i as int));
            assert(s.take(i + 1).last() == statements@[i as int]@);
            lemma_labels_drawn_prefix(s, i + 1);
        }
        let drawn: u64 = statements[i].labels_drawn();
        if drawn > u64::MAX - total {
            return None;
        }
        total = total + drawn;
        i += 1;
    }
    assert(s.take(n as int) =~= s);
    Some(total)
}

/// The text that reports the first index of `statements` that does not fit its segment.
fn range_scan(statements: &Vec<Statement>) -> (r: Option<String>)
    ensures
        match r {
            Some(text) => first_range_fault(statements_view(statements@)) matches Some(fault)
                && text@ == fault.message(),
            None => first_range_fault(statements_view(statements@)) is None && all_in_range(
                statements_view(statements@),
            ),
        },
{
    let ghost s = statements_view(statements@);
    let n: usize = statements.len();
    let mut i: usize = 0;
    assert(s.take(0) =~= Seq::<StatementView>::empty());
    while i < n
        invariant
            s == statements_view(statements@),
            n == s.len(),
            i <= n,
            first_range_fault(s.take(i as int)) is None,
        decreases n - i,
    {
        proof {
            assert(s.take(i + 1).drop_last() =~= s.take(i as int));
            assert(s.take(i + 1).last() == statements@[i as int]@);
        }
        match range_message(&statements[i]) {
            Some(text) => {
                proof {
                    lemma_first_range_fault(s, i + 1);
                }
                return Some(text);
            },
            None => {},
        }
        i += 1;
    }
    proof {
        assert(s.take(n as int) =~= s);
        lemma_range_fault_meaning(s);
    }
    None
}

fn fresh() -> (r: Vec<Instruction>)
    ensures
        program_view(r@) == Seq::<InstructionView>::empty(),
{
    let r: Vec<Instruction> = Vec::new();
    assert(program_view(r@) =~= Seq::<InstructionView>::empty());
    r
}

fn emit(out: &mut Vec<Instruction>, i: Instruction)
    ensures
        program_view(final(out)@) == program_view(old(out)@).push(i@),
{
    out.push(i);
    assert(program_view(out@) =~= program_view(old(out)@).push(i@));
}

fn emit_all(out: &mut Vec<Instruction>, more: Vec<Instruction>)
    ensures
        program_view(final(out)@) == program_view(old(out)@) + program_view(more@),
{
    let mut more = more;
    let ghost added = more@;
    out.append(&mut more);
    assert(program_view(out@) =~= program_view(old(out)@) + program_view(added));
}

fn at_symbol(name: &str) -> (r: Instruction)
    ensures
        r@ == at(name@),
{
    Instruction::load_symbol(name)
}

fn assignment(target: Target, compute: Compute) -> (r: Instruction)
    ensures
        r@ == assign(target, compute),
{
    Instruction::command(compute, target, Jump::NONE)
}

fn jump_on(compute: Compute, jump: Jump) -> (r: Instruction)
    ensures
        r@ == branch(compute, jump),
{
    Instruction::command(compute, Target::empty(), jump)
}

impl Statement {
    /// `@val; D=A`
    pub fn set_d(val: u16) -> (r: Vec<Instruction>)
        ensures
            program_view(r@) == set_d(val),
    {
        let mut out = fresh();
        emit(&mut out, Instruction::load_data(val));
        emit(&mut out, assignment(Target::register_d(), Compute::A));
        assert(program_view(out@) =~= set_d(val));
        out
    }

    /// `@SP; A=M; M=D; @SP; M=M+1`
    pub fn push_d() -> (r: Vec<Instruction>)
        ensures
            program_view(r@) == push_d(),
    {
        let mut out = fresh();
        emit(&mut out, at_symbol("SP"));
        emit(&mut out, assignment(Target::register_a(), Compute::M));
        emit(&mut out, assignment(Target::register_m(), Compute::D));
        emit(&mut out, at_symbol("SP"));
        emit(&mut out, assignment(Target::register_m(), Compute::MplusOne));
        assert(program_view(out@) =~= push_d());
        out
    }

    /// `@SP; AM=M-1; target=M`
    pub fn pop(target: Target) -> (r: Vec<Instruction>)
        ensures
            program_view(r@) == pop(target),
    {
        let mut out = fresh();
        emit(&mut out, at_symbol("SP"));
        emit(&mut out, assignment(Target::register_a().union(Target::register_m()), Compute::MminOne));
        emit(&mut out, assignment(target, Compute::M));
        assert(program_view(out@) =~= pop(target));
        out
    }

    /// Pops two cells and pushes -1 if `jmp` holds of their difference, 0 if
    /// not. The two labels of the branch are drawn from `lg`.
    pub fn cmp(lg: &mut LabelGenerator, jmp: Jump) -> (r: Vec<Instruction>)
        requires
            old(lg).issued() + 2 <= u64::MAX,
        ensures
            program_view(r@) == compare(
                statement_label(old(lg).file(), old(lg).issued()),
                statement_label(old(lg).file(), old(lg).issued() + 1),
                jmp,
            ),
            final(lg).file() == old(lg).file(),
            final(lg).issued() == old(lg).issued() + 2,
    {
        let truelabel = lg.next_statement();
        let endlabel = lg.next_statement();
        let mut out = Self::pop(Target::register_d());
        emit_all(&mut out, Self::pop(Target::register_a()));
        emit(&mut out, assignment(Target::register_d(), Compute::AminD));
        emit(&mut out, at_symbol(truelabel.as_str()));
        emit(&mut out, jump_on(Compute::D, jmp));
        emit_all(&mut out, Self::set_d(0));
        emit(&mut out, at_symbol(endlabel.as_str()));
        emit(&mut out, jump_on(Compute::A, Jump::JMP));
        emit(&mut out, Instruction::label(truelabel.as_str()));
        emit(&mut out, assignment(Target::register_d(), Compute::NegOne));
        emit(&mut out, Instruction::label(endlabel.as_str()));
        emit_all(&mut out, Self::push_d());
        assert(program_view(out@) =~= compare(truelabel@, endlabel@, jmp));
        out
    }

    /// Pops the right operand into D, then `@SP; A=M-1; M=compute`.
    pub fn compute2(compute: Compute) -> (r: Vec<Instruction>)
        ensures
            program_view(r@) == compute2(compute),
    {
        let mut out = Self::pop(Target::register_d());
        emit(&mut out, at_symbol("SP"));
        emit(&mut out, assignment(Target::register_a(), Compute::MminOne));
        emit(&mut out, assignment(Target::register_m(), compute));
        assert(program_view(out@) =~= compute2(compute));
        out
    }

    /// `@SP; A=M-1; M=compute`
    pub fn compute1(compute: Compute) -> (r: Vec<Instruction>)
        ensures
            program_view(r@) == compute1(compute),
    {
        let mut out = fresh();
        emit(&mut out, at_symbol("SP"));
        emit(&mut out, assignment(Target::register_a(), Compute::MminOne));
        emit(&mut out, assignment(Target::register_m(), compute));
        assert(program_view(out@) =~= compute1(compute));
        out
    }

    /// Pushes cell `index` of the segment whose base address the symbol `label` holds.
    pub fn push_common(label: &str, index: u16) -> (r: Vec<Instruction>)
        ensures
            program_view(r@) == push_common(label@, index),
    {
        let mut out = fresh();
        emit(&mut out, at_symbol(label));
        emit(&mut out, assignment(Target::register_d(), Compute::M));
        emit(&mut out, Instruction::load_data(index));
        emit(&mut out, assignment(Target::register_a(), Compute::DplusA));
        emit(&mut out, assignment(Target::register_d(), Compute::M));
        emit_all(&mut out, Self::push_d());
        assert(program_view(out@) =~= push_common(label@, index));
        out
    }

    /// Pops into cell `index` of the segment whose base address the symbol `label` holds.
    pub fn pop_common(label: &str, index: u16) -> (r: Vec<Instruction>)
        ensures
            program_view(r@) == pop_common(label@, index),
    {
        let mut out = fresh();
        emit(&mut out, at_symbol(label));
        emit(&mut out, assignment(Target::register_d(), Compute::M));
        emit(&mut out, Instruction::load_data(index));
        emit(&mut out, assignment(Target::register_d(), Compute::DplusA));
        emit(&mut out, at_symbol("R13"));
        emit(&mut out, assignment(Target::register_m(), Compute::D));
        emit_all(&mut out, Self::pop(Target::register_d()));
        emit(&mut out, at_symbol("R13"));
        emit(&mut out, assignment(Target::register_a(), Compute::M));
        emit(&mut out, assignment(Target::register_m(), Compute::D));
        assert(program_view(out@) =~= pop_common(label@, index));
        out
    }

    /// The symbol of cell `index` of the statics of `filename`.
    pub fn static_name(filename: &str, index: u16) -> (r: String)
        ensures
            r@ == static_name(filename@, index),
    {
        let mut out: String = String::from_str("staticvar.");
        out.append(filename);
        out.append(".");
        out.append(decimal_string(index as u64).as_str());
        out
    }

    /// The symbol of cell `index` of `temp`.
    pub fn temp_name(index: u16) -> (r: String)
        requires
            index <= 7,
        ensures
            r@ == temp_name(index),
    {
        let mut out: String = String::from_str("R");
        out.append(decimal_string((index + 5) as u64).as_str());
        out
    }

    /// The symbol of cell `index` of `pointer`.
    pub fn pointer_name(index: u16) -> (r: String)
        requires
            index <= 1,
        ensures
            r@ == pointer_name(index),
    {
        let mut out: String = String::from_str("R");
        out.append(decimal_string((index + 3) as u64).as_str());
        out
    }

    /// Pushes the cell that the symbol `label` names.
    pub fn push_fixed(label: &str) -> (r: Vec<Instruction>)
        ensures
            program_view(r@) == push_fixed(label@),
    {
        let mut out = fresh();
        emit(&mut out, at_symbol(label));
        emit(&mut out, assignment(Target::register_d(), Compute::M));
        emit_all(&mut out, Self::push_d());
        assert(program_view(out@) =~= push_fixed(label@));
        out
    }

    /// Pops into the cell that the symbol `label` names.
    pub fn pop_fixed(label: &str) -> (r: Vec<Instruction>)
        ensures
            program_view(r@) == pop_fixed(label@),
    {
        let mut out = Self::pop(Target::register_d());
        emit(&mut out, at_symbol(label));
        emit(&mut out, assignment(Target::register_m(), Compute::D));
        assert(program_view(out@) =~= pop_fixed(label@));
        out
    }

    /// Whether the index fits the segment.
    pub fn in_range(&self) -> (r: bool)
        ensures
            r == self@.in_range(),
    {
        match self {
            Statement::Push(PushSource::Temp, i) => *i <= 7,
            Statement::Push(PushSource::Pointer, i) => *i <= 1,
            Statement::Pop(PopDest::Temp, i) => *i <= 7,
            Statement::Pop(PopDest::Pointer, i) => *i <= 1,
            _ => true,
        }
    }

    /// The number of labels that lowering this statement draws.
    pub fn labels_drawn(&self) -> (r: u64)
        ensures
            r == self@.labels_drawn(),
    {
        match self {
            Statement::Eq | Statement::Lt | Statement::Gt => 2,
            _ => 0,
        }
    }

    fn restore_here(segment: &str) -> (r: Vec<Instruction>)
        ensures
            program_view(r@) == restore_here(segment@),
    {
        let mut out = fresh();
        emit(&mut out, assignment(Target::register_d(), Compute::M));
        emit(&mut out, at_symbol(segment));
        emit(&mut out, assignment(Target::register_m(), Compute::D));
        assert(program_view(out@) =~= restore_here(segment@));
        out
    }

    fn restore_next(segment: &str) -> (r: Vec<Instruction>)
        ensures
            program_view(r@) == restore_next(segment@),
    {
        let mut out = fresh();
        emit(&mut out, at_symbol("R14"));
        emit(&mut out, assignment(Target::register_a().union(Target::register_m()), Compute::MminOne));
        emit_all(&mut out, Self::restore_here(segment));
        assert(program_view(out@) =~= restore_next(segment@));
        out
    }

    fn return_sequence() -> (r: Vec<Instruction>)
        ensures
            program_view(r@) == return_sequence(),
    {
        // The return value goes to ARG[0], which the caller sees as the top of its stack.
        let mut out = Self::pop_common("ARG", 0);
        // The stack pointer goes to ARG + 1.
        let mut stack = fresh();
        emit(&mut stack, at_symbol("ARG"));
        emit(&mut stack, assignment(Target::register_d(), Compute::MplusOne));
        emit(&mut stack, at_symbol("SP"));
        emit(&mut stack, assignment(Target::register_m(), Compute::D));
        assert(program_view(stack@) =~= seq![
            at("ARG"@),
            assign(to_d(), Compute::MplusOne),
            at("SP"@),
            assign(to_m(), Compute::D),
        ]);
        emit_all(&mut out, stack);
        // R14 walks down the frame; it starts at the saved THAT, just below LCL.
        let mut cursor = fresh();
        emit(&mut cursor, at_symbol("LCL"));
        emit(&mut cursor, assignment(Target::register_d(), Compute::MminOne));
        emit(&mut cursor, at_symbol("R14"));
        emit(&mut cursor, assignment(Target::register_a().union(Target::register_m()), Compute::D));
        assert(program_view(cursor@) =~= seq![
            at("LCL"@),
            assign(to_d(), Compute::MminOne),
            at("R14"@),
            assign(to_am(), Compute::D),
        ]);
        emit_all(&mut out, cursor);
        emit_all(&mut out, Self::restore_here("THAT"));
        emit_all(&mut out, Self::restore_next("THIS"));
        emit_all(&mut out, Self::restore_next("ARG"));
        emit_all(&mut out, Self::restore_next("LCL"));
        // The next cell down holds the return address: load it, then jump.
        let mut leave = fresh();
        emit(&mut leave, at_symbol("R14"));
        emit(&mut leave, assignment(Target::register_a(), Compute::MminOne));
        emit(&mut leave, assignment(Target::register_a(), Compute::M));
        emit(&mut leave, jump_on(Compute::Zero, Jump::JMP));
        assert(program_view(leave@) =~= seq![
            at("R14"@),
            assign(to_a(), Compute::MminOne),
            assign(to_a(), Compute::M),
            branch(Compute::Zero, Jump::JMP),
        ]);
        emit_all(&mut out, leave);
        out
    }

    /// Lowers this statement to assembly. A comparison draws its two labels
    /// from `lg`. A statement whose index does not fit its segment is refused,
    /// and so is a comparison whose labels `lg` cannot count; `lg` then stays
    /// as it was.
    pub fn compile(&self, lg: &mut LabelGenerator) -> (r: Result<Vec<Instruction>, String>)
        ensures
            final(lg).file() == old(lg).file(),
            match r {
                Ok(code) => statement_fault(self@, old(lg).issued()) is None && program_view(code@)
                    == lower(self@, old(lg).file(), old(lg).issued()) && final(lg).issued() == old(
                    lg,
                ).issued() + self@.labels_drawn(),
                Err(text) => statement_fault(self@, old(lg).issued()) matches Some(fault) && text@
                    == fault.message() && final(lg).issued() == old(lg).issued(),
            },
    {
        match range_message(self) {
            Some(text) => {
                return Err(text);
            },
            None => {},
        }
        if !lg.has_room(self.labels_drawn()) {
            return Err(String::from_str("Comparisons exceed the label counter"));
        }
        Ok(self.lowered(lg))
    }

    /// The assembly of a statement that can be lowered.
    pub(crate) fn lowered(&self, lg: &mut LabelGenerator) -> (r: Vec<Instruction>)
        requires
            self@.in_range(),
            old(lg).issued() + self@.labels_drawn() <= u64::MAX,
        ensures
            program_view(r@) == lower(self@, old(lg).file(), old(lg).issued()),
            final(lg).file() == old(lg).file(),
            final(lg).issued() == old(lg).issued() + self@.labels_drawn(),
    {
        match self {
            Statement::Not => Self::compute1(Compute::NotM),
            Statement::And => Self::compute2(Compute::DandM),
            Statement::Or => Self::compute2(Compute::DorM),
            Statement::Neg => Self::compute1(Compute::NegM),
            Statement::Add => Self::compute2(Compute::DplusM),
            Statement::Sub => Self::compute2(Compute::MminD),
            Statement::Eq => Self::cmp(lg, Jump::JEQ),
            Statement::Lt => Self::cmp(lg, Jump::JLT),
            Statement::Gt => Self::cmp(lg, Jump::JGT),
            Statement::Push(PushSource::Constant, i) => {
                let mut out = Statement::set_d(*i);
                emit_all(&mut out, Self::push_d());
                out
            },
            Statement::Push(PushSource::Local, i) => Self::push_common("LCL", *i),
            Statement::Push(PushSource::Argument, i) => Self::push_common("ARG", *i),
            Statement::Push(PushSource::This, i) => Self::push_common("THIS", *i),
            Statement::Push(PushSource::That, i) => Self::push_common("THAT", *i),
            Statement::Push(PushSource::Static(filename), i) => Self::push_fixed(
                Self::static_name(filename.as_str(), *i).as_str(),
            ),
            Statement::Push(PushSource::Temp, i) => Self::push_fixed(Self::temp_name(*i).as_str()),
            Statement::Push(PushSource::Pointer, i) => Self::push_fixed(
                Self::pointer_name(*i).as_str(),
            ),
            Statement::Pop(PopDest::Local, i) => Self::pop_common("LCL", *i),
            Statement::Pop(PopDest::Argument, i) => Self::pop_common("ARG", *i),
            Statement::Pop(PopDest::This, i) => Self::pop_common("THIS", *i),
            Statement::Pop(PopDest::That, i) => Self::pop_common("THAT", *i),
            Statement::Pop(PopDest::Static(filename), i) => Self::pop_fixed(
                Self::static_name(filename.as_str(), *i).as_str(),
            ),
            Statement::Pop(PopDest::Temp, i) => Self::pop_fixed(Self::temp_name(*i).as_str()),
            Statement::Pop(PopDest::Pointer, i) => Self::pop_fixed(Self::pointer_name(*i).as_str()),
            Statement::Label(l) => {
                let mut out = fresh();
                emit(&mut out, Instruction::label(l.as_str()));
                assert(program_view(out@) =~= seq![mark(l@)]);
                out
            },
            Statement::Goto(l) => {
                let mut out = fresh();
                emit(&mut out, at_symbol(l.as_str()));
                emit(&mut out, jump_on(Compute::Zero, Jump::JMP));
                assert(program_view(out@) =~= seq![at(l@), branch(Compute::Zero, Jump::JMP)]);
                out
            },
            Statement::IfGoto(l) => {
                let mut out = Self::pop(Target::register_d());
                emit(&mut out, at_symbol(l.as_str()));
                emit(&mut out, jump_on(Compute::D, Jump::JNE));
                assert(program_view(out@) =~= pop(to_d()) + seq![
                    at(l@),
                    branch(Compute::D, Jump::JNE),
                ]);
                out
            },
            Statement::Return => Self::return_sequence(),
        }
    }
}

impl Function {
    /// The label that declares the function `name`.
    pub fn function_label(name: &str) -> (r: String)
        ensures
            r@ == function_label(name@),
    {
        let mut out: String = String::from_str("function:");
        out.append(name);
        out
    }

    /// Lowers this function to assembly: its label, the clearing of its
    /// locals, then its statements in order. A function with an index that
    /// does not fit its segment is refused, and so is one whose labels `lg`
    /// cannot count; nothing is lowered then, and `lg` stays as it was.
    pub fn compile(&self, lg: &mut LabelGenerator) -> (r: Result<Vec<Instruction>, String>)
        ensures
            final(lg).file() == old(lg).file(),
            match r {
                Ok(code) => function_fault(self@, old(lg).issued()) is None && program_view(code@)
                    == lower_function(self@, old(lg).file(), old(lg).issued()) && final(lg).issued()
                    == old(lg).issued() + labels_drawn(self@.statements),
                Err(text) => function_fault(self@, old(lg).issued()) matches Some(fault) && text@
                    == fault.message() && final(lg).issued() == old(lg).issued(),
            },
    {
        match range_scan(&self.statements) {
            Some(text) => {
                return Err(text);
            },
            None => {},
        }
        let room: bool = match count_labels(&self.statements) {
            Some(count) => lg.has_room(count),
            None => false,
        };
        if !room {
            return Err(String::from_str("Comparisons exceed the label counter"));
        }
        Ok(self.lowered(lg))
    }

    /// The assembly of a function that can be lowered.
    pub(crate) fn lowered(&self, lg: &mut LabelGenerator) -> (r: Vec<Instruction>)
        requires
            all_in_range(self@.statements),
            old(lg).issued() + labels_drawn(self@.statements) <= u64::MAX,
        ensures
            program_view(r@) == lower_function(self@, old(lg).file(), old(lg).issued()),
            final(lg).file() == old(lg).file(),
            final(lg).issued() == old(lg).issued() + labels_drawn(self@.statements),
    {
        let ghost file = lg.file();
        let ghost drawn = lg.issued();
        let ghost body = self@.statements;
        let mut out = fresh();
        emit(&mut out, Instruction::label(Self::function_label(self.name.as_str()).as_str()));
        emit(&mut out, at_symbol("LCL"));
        emit(&mut out, assignment(Target::register_a(), Compute::M));
        let ghost head = program_view(out@);
        assert(head =~= seq![mark(function_label(self@.name)), at("LCL"@), assign(to_a(), Compute::M)]);
        let mut k: u16 = 0;
        while k < self.locals
            invariant
                k <= self.locals,
                program_view(out@) == head + clear_locals(k as nat),
            decreases self.locals - k,
        {
            emit(&mut out, assignment(Target::register_m(), Compute::Zero));
            emit(&mut out, assignment(Target::register_a(), Compute::AplusOne));
            k += 1;
            assert(program_view(out@) =~= head + clear_locals(k as nat));
        }
        let ghost prelude = program_view(out@);
        let n: usize = self.statements.len();
        let mut i: usize = 0;
        assert(prelude + lower_all(body.take(0), file, drawn) =~= prelude);
        while i < n
            invariant
                n == self.statements@.len(),
                body == self@.statements,
                body.len() == n,
                i <= n,
                all_in_range(body),
                drawn + labels_drawn(body) <= u64::MAX,
                lg.file() == file,
                lg.issued() == drawn + labels_drawn(body.take(i as int)),
                program_view(out@) == prelude + lower_all(body.take(i as int), file, drawn),
            decreases n - i,
        {
            proof {
                lemma_labels_drawn_prefix(body, i + 1);
                assert(body.take(i + 1).drop_last() =~= body.take(i as int));
                assert(body.take(i + 1).last() == self.statements@[i as int]@);
                assert(body[i as int].in_range());
            }
            let more = self.statements[i].lowered(lg);
            emit_all(&mut out, more);
            i += 1;
            assert(program_view(out@) =~= prelude + lower_all(body.take(i as int), file, drawn));
        }
        assert(body.take(n as int) =~= body);
        out
    }
}

} // verus!
