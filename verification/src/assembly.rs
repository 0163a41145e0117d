//! The Hack assembler: instruction model, 16-bit encoding, the symbol table
//! and the two passes that turn an instruction list into machine words.
use vstd::prelude::*;
use vstd::string::*;

pub mod laws;
pub mod source;
pub mod symbols;

use crate::assembly::symbols::{Fault, LabelStore, Symbols};
use crate::hex::Hex;
use crate::CodeType;

verus! {

/// The destination of a C-instruction: any subset of the registers A, D and M.
#[derive(Debug, Clone, Copy, PartialEq, Eq, Structural)]
pub struct Target {
    pub a: bool,
    pub d: bool,
    pub m: bool,
}

impl Target {
    /// The three destination bits as a number: A is worth 4, D is worth 2, M is worth 1.
    pub open spec fn bits(self) -> u16 {
        ((if self.a { 4int } else { 0int }) + (if self.d { 2int } else { 0int }) + (if self.m { 1int } else { 0int })) as u16
    }

    /// The destinations of both sets.
    pub open spec fn spec_union(self, other: Target) -> Target {
        Target { a: self.a || other.a, d: self.d || other.d, m: self.m || other.m }
    }

    /// The destination field in place: bits 5..3 of the instruction word.
    pub open spec fn spec_compile(self) -> u16 {
        self.bits() << 3
    }

    /// No destination.
    pub fn empty() -> (r: Target)
        ensures
            r == (Target { a: false, d: false, m: false }),
    {
        Target { a: false, d: false, m: false }
    }

    /// The A register alone.
    pub fn register_a() -> (r: Target)
        ensures
            r == (Target { a: true, d: false, m: false }),
    {
        Target { a: true, d: false, m: false }
    }

    /// The D register alone.
    pub fn register_d() -> (r: Target)
        ensures
            r == (Target { a: false, d: true, m: false }),
    {
        Target { a: false, d: true, m: false }
    }

    /// The memory cell M alone.
    pub fn register_m() -> (r: Target)
        ensures
            r == (Target { a: false, d: false, m: true }),
    {
        Target { a: false, d: false, m: true }
    }

    /// The destinations of both sets.
    #[verifier::when_used_as_spec(spec_union)]
    pub fn union(self, other: Target) -> (r: Target)
        ensures
            r == self.spec_union(other),
    {
        Target { a: self.a || other.a, d: self.d || other.d, m: self.m || other.m }
    }

    /// The destination field of the instruction word.
    pub fn compile(&self) -> (r: u16)
        ensures
            r == self.spec_compile(),
            r <= 0x38,
            r & 0x38 == r,
    {
        let a: u16 = if self.a { 4 } else { 0 };
        let d: u16 = if self.d { 2 } else { 0 };
        let m: u16 = if self.m { 1 } else { 0 };
        let bits: u16 = a + d + m;
        assert(bits <= 7 ==> (bits << 3) <= 0x38 && (bits << 3) & 0x38 == (bits << 3)) by (bit_vector);
        bits << 3
    }
}

/// The jump condition of a C-instruction.
#[derive(Debug, Clone, Copy, PartialEq, Eq, Structural)]
pub enum Jump {
    NONE,
    JGT,
    JEQ,
    JGE,
    JLT,
    JNE,
    JLE,
    JMP,
}

impl Jump {
    /// The jump field, bits 2..0 of the instruction word.
    pub open spec fn spec_compile(self) -> u16 {
        match self {
            Jump::NONE => 0,
            Jump::JGT => 1,
            Jump::JEQ => 2,
            Jump::JGE => 3,
            Jump::JLT => 4,
            Jump::JNE => 5,
            Jump::JLE => 6,
            Jump::JMP => 7,
        }
    }

    /// The jump field of the instruction word.
    pub fn compile(&self) -> (r: u16)
        ensures
            r == self.spec_compile(),
            r <= 7,
    {
        match self {
            Jump::NONE => 0b000,
            Jump::JGT => 0b001,
            Jump::JEQ => 0b010,
            Jump::JGE => 0b011,
            Jump::JLT => 0b100,
            Jump::JNE => 0b101,
            Jump::JLE => 0b110,
            Jump::JMP => 0b111,
        }
    }
}

/// The computation of a C-instruction: one of the 28 forms the ALU offers.
#[derive(Debug, Clone, Copy, PartialEq, Eq, Structural)]
pub enum Compute {
    Zero,
    One,
    NegOne,
    D,
    A,
    NotD,
    NotA,
    NegD,
    NegA,
    DplusOne,
    AplusOne,
    DminOne,
    AminOne,
    DplusA,
    DminA,
    AminD,
    DandA,
    DorA,
    M,
    NotM,
    NegM,
    MplusOne,
    MminOne,
    DplusM,
    DminM,
    MminD,
    DandM,
    DorM,
}

impl Compute {
    /// The six ALU control bits zx, nx, zy, ny, f, no.
    pub open spec fn control(self) -> u16 {
        match self {
            Compute::Zero => 0b101010,
            Compute::One => 0b111111,
            Compute::NegOne => 0b111010,
            Compute::D => 0b001100,
            Compute::A | Compute::M => 0b110000,
            Compute::NotD => 0b001101,
            Compute::NotA | Compute::NotM => 0b110001,
            Compute::NegD => 0b001111,
            Compute::NegA | Compute::NegM => 0b110011,
            Compute::DplusOne => 0b011111,
            Compute::AplusOne | Compute::MplusOne => 0b110111,
            Compute::DminOne => 0b001110,
            Compute::AminOne | Compute::MminOne => 0b110010,
            Compute::DplusA | Compute::DplusM => 0b000010,
            Compute::DminA | Compute::DminM => 0b010011,
            Compute::AminD | Compute::MminD => 0b000111,
            Compute::DandA | Compute::DandM => 0b000000,
            Compute::DorA | Compute::DorM => 0b010101,
        }
    }

    /// Whether the second ALU operand is M rather than A.
    pub open spec fn reads_memory(self) -> bool {
        match self {
            Compute::M
            | Compute::NotM
            | Compute::NegM
            | Compute::MplusOne
            | Compute::MminOne
            | Compute::DplusM
            | Compute::DminM
            | Compute::MminD
            | Compute::DandM
            | Compute::DorM => true,
            _ => false,
        }
    }

    /// The operand-select bit and the control bits in place: bits 12..6 of the word.
    pub open spec fn spec_compile(self) -> u16 {
        ((((if self.reads_memory() { 1u16 } else { 0u16 }) << 6) | self.control()) << 6)
    }

    /// The operand-select bit and the control bits of the instruction word.
    pub fn compile(&self) -> (r: u16)
        ensures
            r == self.spec_compile(),
    {
        let out: u16 = match self {
            Compute::Zero => 0b101010,
            Compute::One => 0b111111,
            Compute::NegOne => 0b111010,
            Compute::D => 0b001100,
            Compute::A | Compute::M => 0b110000,
            Compute::NotD => 0b001101,
            Compute::NotA | Compute::NotM => 0b110001,
            Compute::NegD => 0b001111,
            Compute::NegA | Compute::NegM => 0b110011,
            Compute::DplusOne => 0b011111,
            Compute::AplusOne | Compute::MplusOne => 0b110111,
            Compute::DminOne => 0b001110,
            Compute::AminOne | Compute::MminOne => 0b110010,
            Compute::DplusA | Compute::DplusM => 0b000010,
            Compute::DminA | Compute::DminM => 0b010011,
            Compute::AminD | Compute::MminD => 0b000111,
            Compute::DandA | Compute::DandM => 0b000000,
            Compute::DorA | Compute::DorM => 0b010101,
        };
        let mem: u16 = match self {
            Compute::M
            | Compute::NotM
            | Compute::NegM
            | Compute::MplusOne
            | Compute::MminOne
            | Compute::DplusM
            | Compute::DminM
            | Compute::MminD
            | Compute::DandM
            | Compute::DorM => 1,
            _ => 0,
        };
        ((mem << 6) | out) << 6
    }
}

/// The operand of an A-instruction.
#[derive(Debug, Clone, PartialEq, Eq)]
pub enum LoadData {
    Data(u16),
    Label(String),
}

/// The mathematical value of a [`LoadData`].
pub enum LoadDataView {
    Data(u16),
    Label(Seq<char>),
}

impl View for LoadData {
    type V = LoadDataView;

    open spec fn view(&self) -> LoadDataView {
        match self {
            LoadData::Data(n) => LoadDataView::Data(*n),
            LoadData::Label(l) => LoadDataView::Label(l@),
        }
    }
}

impl LoadData {
    /// The operand that names the symbol `name`.
    pub fn label(name: &str) -> (r: LoadData)
        ensures
            r@ == LoadDataView::Label(name@),
    {
        LoadData::Label(String::from_str(name))
    }
}

/// One line of a Hack assembly program.
#[derive(Debug, Clone, PartialEq, Eq)]
pub enum Instruction {
    Label { label: String },
    Load { data: LoadData },
    Command { compute: Compute, target: Target, jump: Jump },
}

/// The mathematical value of an [`Instruction`].
pub enum InstructionView {
    Label { label: Seq<char> },
    Load { data: LoadDataView },
    Command { compute: Compute, target: Target, jump: Jump },
}

impl View for Instruction {
    type V = InstructionView;

    open spec fn view(&self) -> InstructionView {
        match self {
            Instruction::Label { label } => InstructionView::Label { label: label@ },
            Instruction::Load { data } => InstructionView::Load { data: data@ },
            Instruction::Command { compute, target, jump } => InstructionView::Command {
                compute: *compute,
                target: *target,
                jump: *jump,
            },
        }
    }
}

/// The values of a list of instructions, in order.
pub open spec fn program_view(p: Seq<Instruction>) -> Seq<InstructionView> {
    Seq::new(p.len(), |i: int| p[i]@)
}

/// The word of a C-instruction: `111`, then operand select and control bits,
/// then the destination bits, then the jump bits.
pub open spec fn command_word(compute: Compute, target: Target, jump: Jump) -> u16 {
    0xE000u16 | compute.spec_compile() | target.spec_compile() | jump.spec_compile()
}

/// The word of an A-instruction that loads `address`: its low fifteen bits.
pub open spec fn load_word(address: u16) -> u16 {
    address & 0x7FFF
}

impl InstructionView {
    /// Whether this instruction occupies a word of ROM. Labels do not.
    pub open spec fn emits(self) -> bool {
        !(self is Label)
    }
}

/// The number of instructions of `p` that occupy a word of ROM.
pub open spec fn emitted_count(p: Seq<InstructionView>) -> nat
    decreases p.len(),
{
    if p.len() == 0 {
        0
    } else {
        emitted_count(p.drop_last()) + if p.last().emits() { 1nat } else { 0nat }
    }
}

impl Instruction {
    /// `(name)`: the declaration of the label `name`.
    pub fn label(name: &str) -> (r: Instruction)
        ensures
            r@ == (InstructionView::Label { label: name@ }),
    {
        Instruction::Label { label: String::from_str(name) }
    }

    /// `@name`: the A-instruction that loads the address of `name`.
    pub fn load_symbol(name: &str) -> (r: Instruction)
        ensures
            r@ == (InstructionView::Load { data: LoadDataView::Label(name@) }),
    {
        Instruction::Load { data: LoadData::label(name) }
    }

    /// `@value`: the A-instruction that loads `value`.
    pub fn load_data(value: u16) -> (r: Instruction)
        ensures
            r@ == (InstructionView::Load { data: LoadDataView::Data(value) }),
    {
        Instruction::Load { data: LoadData::Data(value) }
    }

    /// `target=compute;jump`: a C-instruction.
    pub fn command(compute: Compute, target: Target, jump: Jump) -> (r: Instruction)
        ensures
            r@ == (InstructionView::Command { compute, target, jump }),
    {
        Instruction::Command { compute, target, jump }
    }
}

/// The first pass over `p`: every label is declared at the number of
/// word-emitting instructions before it. The result is the table and that
/// number for the whole of `p`. The first fault met ends the pass.
pub open spec fn first_pass(p: Seq<InstructionView>) -> Result<(Symbols, u16), Fault>
    decreases p.len(),
{
    if p.len() == 0 {
        Ok((Symbols::predefined(), 0u16))
    } else {
        match first_pass(p.drop_last()) {
            Err(fault) => Err(fault),
            Ok((symbols, counter)) => match p.last() {
                InstructionView::Label { label } => match symbols.declare(label, counter) {
                    Err(fault) => Err(fault),
                    Ok(declared) => Ok((declared, counter)),
                },
                _ => if counter == u16::MAX {
                    Err(Fault::ProgramTooLarge)
                } else {
                    Ok((symbols, (counter + 1) as u16))
                },
            },
        }
    }
}

/// What one instruction contributes in the second pass: the table after it,
/// and its word if it has one.
pub open spec fn instruction_word(i: InstructionView, symbols: Symbols) -> Result<
    (Symbols, Option<u16>),
    Fault,
> {
    match i {
        InstructionView::Label { label } => Ok((symbols, None)),
        InstructionView::Load { data: LoadDataView::Data(n) } => Ok((symbols, Some(load_word(n)))),
        InstructionView::Load { data: LoadDataView::Label(name) } => match symbols.resolve(name) {
            Err(fault) => Err(fault),
            Ok((resolved, address)) => Ok((resolved, Some(load_word(address)))),
        },
        InstructionView::Command { compute, target, jump } => Ok(
            (symbols, Some(command_word(compute, target, jump))),
        ),
    }
}

/// The second pass over `p`, started with the table `symbols`: the table
/// after it and the words in program order. The first fault met ends the pass.
pub open spec fn second_pass(p: Seq<InstructionView>, symbols: Symbols) -> Result<
    (Symbols, Seq<u16>),
    Fault,
>
    decreases p.len(),
{
    if p.len() == 0 {
        Ok((symbols, Seq::<u16>::empty()))
    } else {
        match second_pass(p.drop_last(), symbols) {
            Err(fault) => Err(fault),
            Ok((before, words)) => match instruction_word(p.last(), before) {
                Err(fault) => Err(fault),
                Ok((after, None)) => Ok((after, words)),
                Ok((after, Some(word))) => Ok((after, words.push(word))),
            },
        }
    }
}

/// Both passes: the final symbol table and the words of `p`.
pub open spec fn assemble(p: Seq<InstructionView>) -> Result<(Symbols, Seq<u16>), Fault> {
    match first_pass(p) {
        Err(fault) => Err(fault),
        Ok((symbols, _)) => second_pass(p, symbols),
    }
}

/// A fault in the first pass over a prefix is the fault of the whole pass.
pub proof fn lemma_first_pass_fault(p: Seq<InstructionView>, n: int)
    requires
        0 <= n <= p.len(),
        first_pass(p.take(n)) is Err,
    ensures
        first_pass(p) == first_pass(p.take(n)),
    decreases p.len(),
{
    if n == p.len() {
        assert(p.take(n) =~= p);
    } else {
        assert(p.drop_last().take(n) =~= p.take(n));
        lemma_first_pass_fault(p.drop_last(), n);
    }
}

/// A fault in the second pass over a prefix is the fault of the whole pass.
pub proof fn lemma_second_pass_fault(p: Seq<InstructionView>, symbols: Symbols, n: int)
    requires
        0 <= n <= p.len(),
        second_pass(p.take(n), symbols) is Err,
    ensures
        second_pass(p, symbols) == second_pass(p.take(n), symbols),
    decreases p.len(),
{
    if n == p.len() {
        assert(p.take(n) =~= p);
    } else {
        assert(p.drop_last().take(n) =~= p.take(n));
        lemma_second_pass_fault(p.drop_last(), symbols, n);
    }
}

impl Instruction {
    /// The word of this instruction, if it has one. A symbol is resolved in
    /// `ls`, which may allocate a variable for it.
    pub fn compile(&self, ls: &mut LabelStore) -> (r: Result<Option<u16>, String>)
        ensures
            match r {
                Ok(word) => instruction_word(self@, old(ls)@) == Ok::<(Symbols, Option<u16>), Fault>(
                    (final(ls)@, word),
                ),
                Err(text) => final(ls)@ == old(ls)@ && (instruction_word(self@, old(ls)@) matches Err(
                    fault,
                ) && text@ == fault.message()),
            },
    {
        match self {
            Instruction::Label { label: _ } => Ok(None),
            Instruction::Load { data: ld } => match ld {
                LoadData::Data(data) => Ok(Some(*data & 0x7FFF)),
                LoadData::Label(label) => match ls.get(label.as_str()) {
                    Ok(address) => Ok(Some(address & 0x7FFF)),
                    Err(text) => Err(text),
                },
            },
            Instruction::Command { compute, target, jump } => Ok(
                Some(0xE000 | compute.compile() | target.compile() | jump.compile()),
            ),
        }
    }
}

/// A Hack assembly program: its instructions in source order.
#[derive(Debug)]
pub struct Assembly {
    instructions: Vec<Instruction>,
}

impl View for Assembly {
    type V = Seq<InstructionView>;

    closed spec fn view(&self) -> Seq<InstructionView> {
        program_view(self.instructions@)
    }
}

impl Assembly {
    /// The program of `instructions`, in this order.
    pub fn from_instructions(instructions: Vec<Instruction>) -> (r: Assembly)
        ensures
            r@ == program_view(instructions@),
    {
        Assembly { instructions }
    }

    /// The instructions, in source order.
    pub fn instructions(&self) -> (r: &Vec<Instruction>)
        ensures
            program_view(r@) == self@,
    {
        &self.instructions
    }

    /// Runs both passes and returns the machine words with the final symbol table.
    pub fn assemble(&self) -> (r: Result<(Vec<u16>, LabelStore), String>)
        ensures
            match r {
                Ok((words, symbols)) => assemble(self@) == Ok::<
                    (Symbols, Seq<u16>),
                    Fault,
                >((symbols@, words@)) && words@.len() == emitted_count(self@),
                Err(text) => assemble(self@) matches Err(fault) && text@ == fault.message(),
            },
    {
        let ghost p = self@;
        let n: usize = self.instructions.len();
        let mut ls = LabelStore::new();
        let mut ic: u16 = 0;
        let mut i: usize = 0;
        while i < n
            invariant
                p == self@,
                n == p.len(),
                i <= n,
                first_pass(p.take(i as int)) == Ok::<(Symbols, u16), Fault>((ls@, ic)),
            decreases n - i,
        {
            proof {
                assert(p.take(i + 1).drop_last() =~= p.take(i as int));
                assert(p.take(i + 1).last() == self.instructions@[i as int]@);
            }
            match &self.instructions[i] {
                Instruction::Label { label } => {
                    match ls.insert(label.as_str(), ic) {
                        Ok(_) => {},
                        Err(text) => {
                            proof {
                                lemma_first_pass_fault(p, i + 1);
                            }
                            return Err(text);
                        },
                    }
                },
                _ => {
                    if ic == u16::MAX {
                        proof {
                            lemma_first_pass_fault(p, i + 1);
                        }
                        return Err(String::from_str("Program exceeds the 16-bit instruction counter"));
                    }
                    ic += 1;
                },
            }
            i += 1;
        }
        assert(p.take(n as int) =~= p);
        let ghost declared = ls@;
        let mut words: Vec<u16> = Vec::new();
        let mut k: usize = 0;
        while k < n
            invariant
                p == self@,
                n == p.len(),
                k <= n,
                first_pass(p) == Ok::<(Symbols, u16), Fault>((declared, ic)),
                second_pass(p.take(k as int), declared) == Ok::<(Symbols, Seq<u16>), Fault>(
                    (ls@, words@),
                ),
                words@.len() == emitted_count(p.take(k as int)),
            decreases n - k,
        {
            proof {
                assert(p.take(k + 1).drop_last() =~= p.take(k as int));
                assert(p.take(k + 1).last() == self.instructions@[k as int]@);
            }
            match self.instructions[k].compile(&mut ls) {
                Ok(Some(word)) => {
                    words.push(word);
                },
                Ok(None) => {},
                Err(text) => {
                    proof {
                        lemma_second_pass_fault(p, declared, k + 1);
                    }
                    return Err(text);
                },
            }
            k += 1;
        }
        assert(p.take(n as int) =~= p);
        Ok((words, ls))
    }
}

/// Whether `r` is what assembling `p` gives: its words, or the text of its fault.
pub open spec fn assembled(p: Seq<InstructionView>, r: Result<Hex, String>) -> bool {
    match assemble(p) {
        Ok((_, words)) => r matches Ok(hex) && hex.instructions@ == words,
        Err(fault) => r matches Err(text) && text@ == fault.message(),
    }
}

impl Assembly {
    /// Assembles the program into machine words.
    pub fn to_hex(&self) -> (r: Result<Hex, String>)
        ensures
            assembled(self@, r),
            r matches Ok(hex) ==> hex.instructions@.len() == emitted_count(self@),
    {
        match self.assemble() {
            Ok((words, _)) => Ok(Hex { instructions: words }),
            Err(text) => Err(text),
        }
    }

    /// Assembles the program; the result is the program at its last stage.
    pub fn compile(self) -> (r: Result<CodeType, String>)
        ensures
            match r {
                Ok(CodeType::Hex(hex)) => assemble(self@) matches Ok((_, words)) && hex.instructions@
                    == words && words.len() == emitted_count(self@),
                Ok(_) => false,
                Err(text) => assemble(self@) matches Err(fault) && text@ == fault.message(),
            },
    {
        match self.to_hex() {
            Ok(hex) => Ok(CodeType::Hex(hex)),
            Err(text) => Err(text),
        }
    }
}

} // verus!
