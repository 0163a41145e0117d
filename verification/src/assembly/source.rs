//! Reading Hack assembly text: one instruction or label per line.
use vstd::prelude::*;
use vstd::string::*;
use crate::assembly::{
    program_view, Assembly, Compute, Instruction, InstructionView, Jump, LoadData, LoadDataView,
    Target,
};
use crate::diagnostic::{diagnostics_view, Diagnostic, DiagnosticView};
use crate::text::{
    all_digits, decimal_value, digits_only, find_char, find_comment, find_comment_start, find_from,
    is_digit, lemma_find_bounds, matches_text, read_decimal, strip, strip_range, text_of, to_chars,
    CharSet,
};

verus! {

/// Why a line of assembly text is refused.
pub enum LineFault {
    /// A destination names something other than A, D and M.
    UnknownTarget(char),
    /// The text after `;` is no jump mnemonic.
    UnknownJump(Seq<char>),
    /// The computation is none of the 28 forms.
    UnknownCompute(Seq<char>),
    /// Nothing follows `@`.
    MissingAddress,
    /// The text after `@` starts with a digit and is no decimal number.
    MalformedNumber(Seq<char>),
    /// The number after `@` is above `0x7FFF`.
    NumberTooLarge(Seq<char>),
}

impl LineFault {
    /// The text that reports this fault.
    pub open spec fn message(self) -> Seq<char> {
        match self {
            LineFault::UnknownTarget(c) => "Unkown command target "@.push(c),
            LineFault::UnknownJump(text) => "Unkown Jump condition "@ + text,
            LineFault::UnknownCompute(text) => "Unkown Compute command "@ + text,
            LineFault::MissingAddress => "Missing address after @"@,
            LineFault::MalformedNumber(text) => "Value "@ + text + " is not a number."@,
            LineFault::NumberTooLarge(text) => "Value "@ + text
                + " is too large to be represented."@,
        }
    }
}

/// The largest address that an A-instruction can load.
pub const MAX_ADDRESS: u16 = 0x7FFF;

/// Whether `c` names a destination register.
pub open spec fn is_register(c: char) -> bool {
    c == 'A' || c == 'M' || c == 'D'
}

/// The first position from `i` on that holds no register letter; the length of `s` if there is none.
pub open spec fn first_unknown_register(s: Seq<char>, i: int) -> int
    decreases s.len() - i,
{
    if i < 0 || i >= s.len() || !is_register(s[i]) {
        i
    } else {
        first_unknown_register(s, i + 1)
    }
}

/// The destination that `s` names: the set of its letters, each of A, D and M.
pub open spec fn parse_target(s: Seq<char>) -> Result<Target, LineFault> {
    let k = first_unknown_register(s, 0);
    if 0 <= k < s.len() {
        Err(LineFault::UnknownTarget(s[k]))
    } else {
        Ok(Target { a: s.contains('A'), d: s.contains('D'), m: s.contains('M') })
    }
}

/// The jump that `s` names; the empty text names no jump.
pub open spec fn parse_jump(s: Seq<char>) -> Result<Jump, LineFault> {
    if s.len() == 0 {
        Ok(Jump::NONE)
    } else if s == "JGT"@ {
        Ok(Jump::JGT)
    } else if s == "JEQ"@ {
        Ok(Jump::JEQ)
    } else if s == "JGE"@ {
        Ok(Jump::JGE)
    } else if s == "JLT"@ {
        Ok(Jump::JLT)
    } else if s == "JNE"@ {
        Ok(Jump::JNE)
    } else if s == "JLE"@ {
        Ok(Jump::JLE)
    } else if s == "JMP"@ {
        Ok(Jump::JMP)
    } else {
        Err(LineFault::UnknownJump(s))
    }
}

/// The computation that `s` names.
pub open spec fn parse_compute(s: Seq<char>) -> Result<Compute, LineFault> {
    if s == "0"@ {
        Ok(Compute::Zero)
    } else if s == "1"@ {
        Ok(Compute::One)
    } else if s == "-1"@ {
        Ok(Compute::NegOne)
    } else if s == "D"@ {
        Ok(Compute::D)
    } else if s == "A"@ {
        Ok(Compute::A)
    } else if s == "!D"@ {
        Ok(Compute::NotD)
    } else if s == "!A"@ {
        Ok(Compute::NotA)
    } else if s == "-D"@ {
        Ok(Compute::NegD)
    } else if s == "-A"@ {
        Ok(Compute::NegA)
    } else if s == "D+1"@ {
        Ok(Compute::DplusOne)
    } else if s == "A+1"@ {
        Ok(Compute::AplusOne)
    } else if s == "D-1"@ {
        Ok(Compute::DminOne)
    } else if s == "A-1"@ {
        Ok(Compute::AminOne)
    } else if s == "D+A"@ {
        Ok(Compute::DplusA)
    } else if s == "D-A"@ {
        Ok(Compute::DminA)
    } else if s == "A-D"@ {
        Ok(Compute::AminD)
    } else if s == "D&A"@ {
        Ok(Compute::DandA)
    } else if s == "D|A"@ {
        Ok(Compute::DorA)
    } else if s == "M"@ {
        Ok(Compute::M)
    } else if s == "!M"@ {
        Ok(Compute::NotM)
    } else if s == "-M"@ {
        Ok(Compute::NegM)
    } else if s == "M+1"@ {
        Ok(Compute::MplusOne)
    } else if s == "M-1"@ {
        Ok(Compute::MminOne)
    } else if s == "D+M"@ {
        Ok(Compute::DplusM)
    } else if s == "D-M"@ {
        Ok(Compute::DminM)
    } else if s == "M-D"@ {
        Ok(Compute::MminD)
    } else if s == "D&M"@ {
        Ok(Compute::DandM)
    } else if s == "D|M"@ {
        Ok(Compute::DorM)
    } else {
        Err(LineFault::UnknownCompute(s))
    }
}

/// What a line says once white space and a trailing comment are taken away.
pub open spec fn line_body(line: Seq<char>) -> Seq<char> {
    let trimmed = strip(line, CharSet::Spaces);
    let comment = find_comment(trimmed, 0);
    if 0 <= comment < trimmed.len() {
        strip(trimmed.take(comment), CharSet::Spaces)
    } else {
        trimmed
    }
}

/// The operand of an A-instruction, from the text after `@`: a decimal
/// number up to `0x7FFF` if the text starts with a digit, a symbol otherwise.
pub open spec fn parse_load(rest: Seq<char>) -> Result<InstructionView, LineFault> {
    if rest.len() == 0 {
        Err(LineFault::MissingAddress)
    } else if is_digit(rest[0]) {
        if !all_digits(rest) {
            Err(LineFault::MalformedNumber(rest))
        } else if decimal_value(rest) > MAX_ADDRESS {
            Err(LineFault::NumberTooLarge(rest))
        } else {
            Ok(InstructionView::Load { data: LoadDataView::Data(decimal_value(rest) as u16) })
        }
    } else {
        Ok(InstructionView::Load { data: LoadDataView::Label(rest) })
    }
}

/// A C-instruction `dest=comp;jump`, where `dest=` and `;jump` may be
/// missing. The text is split at the first `=`, and what follows at the first
/// `;`. A fault of the destination is reported before one of the jump, and
/// that before one of the computation.
pub open spec fn parse_command(body: Seq<char>) -> Result<InstructionView, LineFault> {
    let equals = find_from(body, '=', 0);
    let with_target = 0 <= equals < body.len();
    let rest = if with_target {
        body.subrange(equals + 1, body.len() as int)
    } else {
        body
    };
    let semicolon = find_from(rest, ';', 0);
    let with_jump = 0 <= semicolon < rest.len();
    let target = if with_target {
        parse_target(body.take(equals))
    } else {
        Ok(Target { a: false, d: false, m: false })
    };
    let jump = if with_jump {
        parse_jump(rest.subrange(semicolon + 1, rest.len() as int))
    } else {
        Ok(Jump::NONE)
    };
    let compute = if with_jump {
        parse_compute(rest.take(semicolon))
    } else {
        parse_compute(rest)
    };
    match target {
        Err(fault) => Err(fault),
        Ok(target) => match jump {
            Err(fault) => Err(fault),
            Ok(jump) => match compute {
                Err(fault) => Err(fault),
                Ok(compute) => Ok(InstructionView::Command { compute, target, jump }),
            },
        },
    }
}

/// The instruction of a line, if it has one: `@value` is an A-instruction,
/// `(name)` declares a label, anything else is read as a C-instruction.
pub open spec fn parse_line(line: Seq<char>) -> Result<Option<InstructionView>, LineFault> {
    let body = line_body(line);
    if body.len() == 0 {
        Ok(None)
    } else if body[0] == '@' {
        match parse_load(body.subrange(1, body.len() as int)) {
            Err(fault) => Err(fault),
            Ok(i) => Ok(Some(i)),
        }
    } else if body[0] == '(' {
        Ok(Some(InstructionView::Label { label: strip(body, CharSet::Parentheses) }))
    } else {
        match parse_command(body) {
            Err(fault) => Err(fault),
            Ok(i) => Ok(Some(i)),
        }
    }
}

/// Where the line that starts at `i` ends: at the next line feed, or at the end of `s`.
pub open spec fn line_end(s: Seq<char>, i: int) -> int {
    i + find_from(s.subrange(i, s.len() as int), '\n', 0)
}

/// The instructions of the lines of `s` from position `i` on, in order.
/// The first line that is refused ends the reading.
pub open spec fn parse_source(s: Seq<char>, i: int) -> Result<Seq<InstructionView>, LineFault>
    decreases s.len() + 1 - i,
{
    if i < 0 || i >= s.len() {
        Ok(Seq::empty())
    } else {
        proof {
            lemma_find_bounds(s.subrange(i, s.len() as int), '\n', 0);
        }
        match parse_line(s.subrange(i, line_end(s, i))) {
            Err(fault) => Err(fault),
            Ok(first) => match parse_source(s, line_end(s, i) + 1) {
                Err(fault) => Err(fault),
                Ok(rest) => Ok(
                    match first {
                        Some(instruction) => seq![instruction] + rest,
                        None => rest,
                    },
                ),
            },
        }
    }
}

fn target_in(chars: &Vec<char>, lo: usize, hi: usize) -> (r: Result<Target, String>)
    requires
        lo <= hi <= chars@.len(),
    ensures
        match r {
            Ok(target) => parse_target(chars@.subrange(lo as int, hi as int)) == Ok::<
                Target,
                LineFault,
            >(target),
            Err(text) => parse_target(chars@.subrange(lo as int, hi as int)) matches Err(fault)
                && text@ == fault.message(),
        },
{
    let ghost s = chars@.subrange(lo as int, hi as int);
    let mut target = Target::empty();
    let mut i: usize = lo;
    while i < hi
        invariant
            lo <= i <= hi <= chars@.len(),
            s == chars@.subrange(lo as int, hi as int),
            first_unknown_register(s, 0) == first_unknown_register(s, i - lo),
            target.a == s.take(i - lo).contains('A'),
            target.d == s.take(i - lo).contains('D'),
            target.m == s.take(i - lo).contains('M'),
        decreases hi - i,
    {
        let c: char = chars[i];
        proof {
            assert(s[i - lo] == c);
            let before = s.take(i - lo);
            let after = s.take(i - lo + 1);
            assert(after =~= before.push(c));
            assert(forall|x: char| after.contains(x) <==> before.contains(x) || x == c) by {
                assert forall|x: char| before.contains(x) || x == c implies after.contains(x) by {
                    if before.contains(x) {
                        let k = choose|k: int| 0 <= k < before.len() && before[k] == x;
                        assert(after[k] == x);
                    } else {
                        assert(after[after.len() - 1] == x);
                    }
                }
            }
        }
        if c == 'A' {
            target = target.union(Target::register_a());
        } else if c == 'M' {
            target = target.union(Target::register_m());
        } else if c == 'D' {
            target = target.union(Target::register_d());
        } else {
            let mut text: String = String::from_str("Unkown command target ");
            text.push(c);
            return Err(text);
        }
        i += 1;
    }
    assert(s.take(hi - lo) =~= s);
    Ok(target)
}

fn jump_in(chars: &Vec<char>, lo: usize, hi: usize) -> (r: Result<Jump, String>)
    requires
        lo <= hi <= chars@.len(),
    ensures
        match r {
            Ok(jump) => parse_jump(chars@.subrange(lo as int, hi as int)) == Ok::<Jump, LineFault>(
                jump,
            ),
            Err(text) => parse_jump(chars@.subrange(lo as int, hi as int)) matches Err(fault)
                && text@ == fault.message(),
        },
{
    if lo == hi {
        Ok(Jump::NONE)
    } else if matches_text(chars, lo, hi, "JGT") {
        Ok(Jump::JGT)
    } else if matches_text(chars, lo, hi, "JEQ") {
        Ok(Jump::JEQ)
    } else if matches_text(chars, lo, hi, "JGE") {
        Ok(Jump::JGE)
    } else if matches_text(chars, lo, hi, "JLT") {
        Ok(Jump::JLT)
    } else if matches_text(chars, lo, hi, "JNE") {
        Ok(Jump::JNE)
    } else if matches_text(chars, lo, hi, "JLE") {
        Ok(Jump::JLE)
    } else if matches_text(chars, lo, hi, "JMP") {
        Ok(Jump::JMP)
    } else {
        let mut text: String = String::from_str("Unkown Jump condition ");
        text.append(text_of(chars, lo, hi).as_str());
        Err(text)
    }
}

fn compute_in(chars: &Vec<char>, lo: usize, hi: usize) -> (r: Result<Compute, String>)
    requires
        lo <= hi <= chars@.len(),
    ensures
        match r {
            Ok(compute) => parse_compute(chars@.subrange(lo as int, hi as int)) == Ok::<
                Compute,
                LineFault,
            >(compute),
            Err(text) => parse_compute(chars@.subrange(lo as int, hi as int)) matches Err(fault)
                && text@ == fault.message(),
        },
{
    if matches_text(chars, lo, hi, "0") {
        Ok(Compute::Zero)
    } else if matches_text(chars, lo, hi, "1") {
        Ok(Compute::One)
    } else if matches_text(chars, lo, hi, "-1") {
        Ok(Compute::NegOne)
    } else if matches_text(chars, lo, hi, "D") {
        Ok(Compute::D)
    } else if matches_text(chars, lo, hi, "A") {
        Ok(Compute::A)
    } else if matches_text(chars, lo, hi, "!D") {
        Ok(Compute::NotD)
    } else if matches_text(chars, lo, hi, "!A") {
        Ok(Compute::NotA)
    } else if matches_text(chars, lo, hi, "-D") {
        Ok(Compute::NegD)
    } else if matches_text(chars, lo, hi, "-A") {
        Ok(Compute::NegA)
    } else if matches_text(chars, lo, hi, "D+1") {
        Ok(Compute::DplusOne)
    } else if matches_text(chars, lo, hi, "A+1") {
        Ok(Compute::AplusOne)
    } else if matches_text(chars, lo, hi, "D-1") {
        Ok(Compute::DminOne)
    } else if matches_text(chars, lo, hi, "A-1") {
        Ok(Compute::AminOne)
    } else if matches_text(chars, lo, hi, "D+A") {
        Ok(Compute::DplusA)
    } else if matches_text(chars, lo, hi, "D-A") {
        Ok(Compute::DminA)
    } else if matches_text(chars, lo, hi, "A-D") {
        Ok(Compute::AminD)
    } else if matches_text(chars, lo, hi, "D&A") {
        Ok(Compute::DandA)
    } else if matches_text(chars, lo, hi, "D|A") {
        Ok(Compute::DorA)
    } else if matches_text(chars, lo, hi, "M") {
        Ok(Compute::M)
    } else if matches_text(chars, lo, hi, "!M") {
        Ok(Compute::NotM)
    } else if matches_text(chars, lo, hi, "-M") {
        Ok(Compute::NegM)
    } else if matches_text(chars, lo, hi, "M+1") {
        Ok(Compute::MplusOne)
    } else if matches_text(chars, lo, hi, "M-1") {
        Ok(Compute::MminOne)
    } else if matches_text(chars, lo, hi, "D+M") {
        Ok(Compute::DplusM)
    } else if matches_text(chars, lo, hi, "D-M") {
        Ok(Compute::DminM)
    } else if matches_text(chars, lo, hi, "M-D") {
        Ok(Compute::MminD)
    } else if matches_text(chars, lo, hi, "D&M") {
        Ok(Compute::DandM)
    } else if matches_text(chars, lo, hi, "D|M") {
        Ok(Compute::DorM)
    } else {
        let mut text: String = String::from_str("Unkown Compute command ");
        text.append(text_of(chars, lo, hi).as_str());
        Err(text)
    }
}

fn load_in(chars: &Vec<char>, lo: usize, hi: usize) -> (r: Result<Instruction, String>)
    requires
        lo <= hi <= chars@.len(),
    ensures
        match r {
            Ok(i) => parse_load(chars@.subrange(lo as int, hi as int)) == Ok::<
                InstructionView,
                LineFault,
            >(i@),
            Err(text) => parse_load(chars@.subrange(lo as int, hi as int)) matches Err(fault)
                && text@ == fault.message(),
        },
{
    let ghost rest = chars@.subrange(lo as int, hi as int);
    if lo == hi {
        return Err(String::from_str("Missing address after @"));
    }
    let first: char = chars[lo];
    assert(rest[0] == first);
    if '0' <= first && first <= '9' {
        if !digits_only(chars, lo, hi) {
            let mut text: String = String::from_str("Value ");
            text.append(text_of(chars, lo, hi).as_str());
            text.append(" is not a number.");
            return Err(text);
        }
        match read_decimal(chars, lo, hi, 0x7FFF) {
            Some(value) => Ok(Instruction::Load { data: LoadData::Data(value as u16) }),
            None => {
                let mut text: String = String::from_str("Value ");
                text.append(text_of(chars, lo, hi).as_str());
                text.append(" is too large to be represented.");
                Err(text)
            },
        }
    } else {
        Ok(Instruction::Load { data: LoadData::Label(text_of(chars, lo, hi)) })
    }
}

fn command_in(chars: &Vec<char>, lo: usize, hi: usize) -> (r: Result<Instruction, String>)
    requires
        lo <= hi <= chars@.len(),
    ensures
        match r {
            Ok(i) => parse_command(chars@.subrange(lo as int, hi as int)) == Ok::<
                InstructionView,
                LineFault,
            >(i@),
            Err(text) => parse_command(chars@.subrange(lo as int, hi as int)) matches Err(fault)
                && text@ == fault.message(),
        },
{
    let ghost body = chars@.subrange(lo as int, hi as int);
    let equals: usize = find_char(chars, lo, hi, '=');
    let start: usize = if equals < hi {
        equals + 1
    } else {
        lo
    };
    let ghost rest = chars@.subrange(start as int, hi as int);
    proof {
        if equals < hi {
            assert(body.subrange(equals - lo + 1, body.len() as int) =~= rest);
            assert(body.take(equals - lo) =~= chars@.subrange(lo as int, equals as int));
        }
    }
    let target = if equals < hi {
        match target_in(chars, lo, equals) {
            Ok(target) => target,
            Err(text) => {
                return Err(text);
            },
        }
    } else {
        Target::empty()
    };
    let semicolon: usize = find_char(chars, start, hi, ';');
    proof {
        if semicolon < hi {
            assert(rest.subrange(semicolon - start + 1, rest.len() as int) =~= chars@.subrange(
                semicolon + 1,
                hi as int,
            ));
            assert(rest.take(semicolon - start) =~= chars@.subrange(start as int, semicolon as int));
        }
    }
    let jump = if semicolon < hi {
        match jump_in(chars, semicolon + 1, hi) {
            Ok(jump) => jump,
            Err(text) => {
                return Err(text);
            },
        }
    } else {
        Jump::NONE
    };
    match compute_in(chars, start, semicolon) {
        Ok(compute) => Ok(Instruction::Command { compute, target, jump }),
        Err(text) => Err(text),
    }
}

/// Reads the line `chars[lo..hi]`.
pub fn line_in(chars: &Vec<char>, lo: usize, hi: usize) -> (r: Result<Option<Instruction>, String>)
    requires
        lo <= hi <= chars@.len(),
    ensures
        match r {
            Ok(Some(i)) => parse_line(chars@.subrange(lo as int, hi as int)) == Ok::<
                Option<InstructionView>,
                LineFault,
            >(Some(i@)),
            Ok(None) => parse_line(chars@.subrange(lo as int, hi as int)) == Ok::<
                Option<InstructionView>,
                LineFault,
            >(None),
            Err(text) => parse_line(chars@.subrange(lo as int, hi as int)) matches Err(fault)
                && text@ == fault.message(),
        },
{
    let ghost line = chars@.subrange(lo as int, hi as int);
    let (from, to) = strip_range(chars, lo, hi, CharSet::Spaces);
    let ghost trimmed = chars@.subrange(from as int, to as int);
    let comment: usize = find_comment_start(chars, from, to);
    let (a, b) = if comment < to {
        proof {
            assert(trimmed.take(comment - from) =~= chars@.subrange(from as int, comment as int));
        }
        strip_range(chars, from, comment, CharSet::Spaces)
    } else {
        (from, to)
    };
    let ghost body = chars@.subrange(a as int, b as int);
    assert(body == line_body(line));
    if a == b {
        return Ok(None);
    }
    let first: char = chars[a];
    assert(body[0] == first);
    if first == '@' {
        assert(body.subrange(1, body.len() as int) =~= chars@.subrange(a + 1, b as int));
        match load_in(chars, a + 1, b) {
            Ok(i) => Ok(Some(i)),
            Err(text) => Err(text),
        }
    } else if first == '(' {
        let (c, d) = strip_range(chars, a, b, CharSet::Parentheses);
        Ok(Some(Instruction::Label { label: text_of(chars, c, d) }))
    } else {
        match command_in(chars, a, b) {
            Ok(i) => Ok(Some(i)),
            Err(text) => Err(text),
        }
    }
}

impl Target {
    /// The destination that `value` names: any of the letters A, D and M, in any order.
    pub fn try_from(value: &str) -> (r: Result<Target, String>)
        ensures
            match r {
                Ok(target) => parse_target(value@) == Ok::<Target, LineFault>(target),
                Err(text) => parse_target(value@) matches Err(fault) && text@ == fault.message(),
            },
    {
        let chars = to_chars(value);
        assert(chars@.subrange(0, chars@.len() as int) =~= value@);
        target_in(&chars, 0, chars.len())
    }
}

impl Jump {
    /// The jump that `value` names.
    pub fn try_from(value: &str) -> (r: Result<Jump, String>)
        ensures
            match r {
                Ok(jump) => parse_jump(value@) == Ok::<Jump, LineFault>(jump),
                Err(text) => parse_jump(value@) matches Err(fault) && text@ == fault.message(),
            },
    {
        let chars = to_chars(value);
        assert(chars@.subrange(0, chars@.len() as int) =~= value@);
        jump_in(&chars, 0, chars.len())
    }
}

impl Compute {
    /// The computation that `value` names.
    pub fn try_from(value: &str) -> (r: Result<Compute, String>)
        ensures
            match r {
                Ok(compute) => parse_compute(value@) == Ok::<Compute, LineFault>(compute),
                Err(text) => parse_compute(value@) matches Err(fault) && text@ == fault.message(),
            },
    {
        let chars = to_chars(value);
        assert(chars@.subrange(0, chars@.len() as int) =~= value@);
        compute_in(&chars, 0, chars.len())
    }
}

impl Instruction {
    /// Reads one line of assembly text. A line that holds only white space
    /// or a comment has no instruction.
    pub fn from_str(value: &str) -> (r: Result<Option<Instruction>, String>)
        ensures
            match r {
                Ok(Some(i)) => parse_line(value@) == Ok::<Option<InstructionView>, LineFault>(
                    Some(i@),
                ),
                Ok(None) => parse_line(value@) == Ok::<Option<InstructionView>, LineFault>(None),
                Err(text) => parse_line(value@) matches Err(fault) && text@ == fault.message(),
            },
    {
        let chars = to_chars(value);
        assert(chars@.subrange(0, chars@.len() as int) =~= value@);
        line_in(&chars, 0, chars.len())
    }
}

/// What reading gives when `done` was read before and `rest` is the reading of what follows.
pub open spec fn after(done: Seq<InstructionView>, rest: Result<Seq<InstructionView>, LineFault>) -> Result<
    Seq<InstructionView>,
    LineFault,
> {
    match rest {
        Err(fault) => Err(fault),
        Ok(more) => Ok(done + more),
    }
}

impl Assembly {
    /// Reads a program from its text, line by line. The first line that is
    /// refused ends the reading with its fault.
    pub fn from_source(text: &str) -> (r: Result<Assembly, String>)
        ensures
            match r {
                Ok(assembly) => parse_source(text@, 0) == Ok::<Seq<InstructionView>, LineFault>(
                    assembly@,
                ),
                Err(message) => parse_source(text@, 0) matches Err(fault) && message@
                    == fault.message(),
            },
    {
        let chars = to_chars(text);
        let ghost s = chars@;
        let n: usize = chars.len();
        let mut out: Vec<Instruction> = Vec::new();
        let mut i: usize = 0;
        assert(after(program_view(out@), parse_source(s, 0)) == parse_source(s, 0)) by {
            if let Ok(more) = parse_source(s, 0) {
                assert(program_view(out@) + more =~= more);
            }
        }
        while i < n
            invariant
                s == chars@,
                s == text@,
                n == s.len(),
                i <= n,
                parse_source(s, 0) == after(program_view(out@), parse_source(s, i as int)),
            decreases n - i,
        {
            let end: usize = find_char(&chars, i, n, '\n');
            assert(end == line_end(s, i as int));

            let ghost done = program_view(out@);
            match line_in(&chars, i, end) {
                Ok(Some(instruction)) => {
                    out.push(instruction);
                    proof {
                        if let Ok(more) = parse_source(s, end + 1) {
                            assert(program_view(out@) + more =~= done + (seq![instruction@] + more));
                        }
                    }
                },
                Ok(None) => {},
                Err(message) => {
                    return Err(message);
                },
            }
            if end < n {
                i = end + 1;
            } else {
                assert(parse_source(s, end + 1) == parse_source(s, n as int));
                i = n;
            }
        }
        proof {
            assert(parse_source(s, i as int) == Ok::<Seq<InstructionView>, LineFault>(Seq::empty()));
            assert(program_view(out@) + Seq::<InstructionView>::empty() =~= program_view(out@));
        }
        Ok(Assembly::from_instructions(out))
    }
}

/// The refused lines of `s` from position `i` on, in order: each with the
/// characters of its line and the text of its fault.
pub open spec fn source_faults(s: Seq<char>, i: int) -> Seq<DiagnosticView>
    decreases s.len() + 1 - i,
{
    if i < 0 || i >= s.len() {
        Seq::empty()
    } else {
        proof {
            lemma_find_bounds(s.subrange(i, s.len() as int), '\n', 0);
        }
        match parse_line(s.subrange(i, line_end(s, i))) {
            Err(fault) => seq![
                DiagnosticView { start: i, end: line_end(s, i), message: fault.message() },
            ] + source_faults(s, line_end(s, i) + 1),
            Ok(_) => source_faults(s, line_end(s, i) + 1),
        }
    }
}

/// A text is read as a program exactly if none of its lines is refused,
/// and the fault of a text that is not is that of its first refused line.
pub proof fn law_source_faults(s: Seq<char>, i: int)
    ensures
        parse_source(s, i) is Ok <==> source_faults(s, i).len() == 0,
        parse_source(s, i) matches Err(fault) ==> source_faults(s, i)[0].message == fault.message(),
    decreases s.len() + 1 - i,
{
    if 0 <= i < s.len() {
        lemma_find_bounds(s.subrange(i, s.len() as int), '\n', 0);
        law_source_faults(s, line_end(s, i) + 1);
    }
}

impl Assembly {
    /// Every refused line of `text`, in order, with the place of the line.
    pub fn diagnose(text: &str) -> (r: Vec<Diagnostic>)
        ensures
            diagnostics_view(r@) == source_faults(text@, 0),
    {
        let chars = to_chars(text);
        let ghost s = chars@;
        let n: usize = chars.len();
        let mut out: Vec<Diagnostic> = Vec::new();
        let mut i: usize = 0;
        assert(diagnostics_view(out@) + source_faults(s, 0) =~= source_faults(s, 0));
        while i < n
            invariant
                s == chars@,
                s == text@,
                n == s.len(),
                i <= n,
                source_faults(s, 0) == diagnostics_view(out@) + source_faults(s, i as int),
            decreases n - i,
        {
            let end: usize = find_char(&chars, i, n, '\n');
            assert(end == line_end(s, i as int));
            let ghost done = diagnostics_view(out@);
            match line_in(&chars, i, end) {
                Ok(_) => {},
                Err(message) => {
                    let fault = Diagnostic { start: i, end, message };
                    out.push(fault);
                    assert(diagnostics_view(out@) + source_faults(s, end + 1) =~= done + (seq![
                        fault@,
                    ] + source_faults(s, end + 1)));
                },
            }
            if end < n {
                i = end + 1;
            } else {
                assert(source_faults(s, end + 1) == source_faults(s, n as int));
                i = n;
            }
        }
        assert(diagnostics_view(out@) + source_faults(s, n as int) =~= diagnostics_view(out@));
        out
    }
}

} // verus!
