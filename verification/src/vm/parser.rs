//! Reading VM text: statements, or the functions of one file.
//!
//! A word ends at white space or where a comment starts. The words of one
//! statement stand on one line, separated by spaces and tabs; statements are
//! separated by any white space, and a comment runs from `//` to the end of
//! its line.
use vstd::prelude::*;
use vstd::string::*;
pub use crate::diagnostic::{diagnostics_view, Diagnostic, DiagnosticView};
use crate::text::{
    all_digits, decimal_value, digits_only, find_from, is_space, lead, matches_text, read_decimal,
    text_of, to_chars, char_is_space, CharSet,
};
use crate::vm::{
    functions_view, statements_view, Ast, AstView, Function, FunctionView, PopDest, PopDestView,
    PushSource, PushSourceView, Statement, StatementView,
};

verus! {

/// What can be wrong with a word.
pub enum Complaint {
    UnknownStatement,
    ExpectedSegment,
    ExpectedIndex,
    IndexTooLarge,
    ExpectedName,
    ExpectedFunctionName,
    FileMismatch,
    FunctionAfterStatements,
}

impl Complaint {
    /// The text that reports this complaint about `word`.
    pub open spec fn message(self, word: Seq<char>) -> Seq<char> {
        match self {
            Complaint::UnknownStatement => "Unknown statement '"@ + word + "'"@,
            Complaint::ExpectedSegment => "Expected a segment, found '"@ + word + "'"@,
            Complaint::ExpectedIndex => "Expected a decimal number, found '"@ + word + "'"@,
            Complaint::IndexTooLarge => "Number does not fit 16 bits: '"@ + word + "'"@,
            Complaint::ExpectedName => "Expected an identifier, found '"@ + word + "'"@,
            Complaint::ExpectedFunctionName => "Expected a function name File.name, found '"@ + word
                + "'"@,
            Complaint::FileMismatch => "Function name first part must match the filename. Found '"@
                + word + "'."@,
            Complaint::FunctionAfterStatements => "Function declared after bare statements: '"@
                + word + "'"@,
        }
    }
}

/// The diagnostic that reports `complaint` about the word `s[start..end]`.
pub open spec fn complain(s: Seq<char>, start: int, end: int, complaint: Complaint) -> DiagnosticView {
    DiagnosticView { start, end, message: complaint.message(s.subrange(start, end)) }
}

/// Whether a comment starts at position `i`.
pub open spec fn starts_comment(s: Seq<char>, i: int) -> bool {
    0 <= i && i + 1 < s.len() && s[i] == '/' && s[i + 1] == '/'
}

/// Whether no word goes on at position `i`.
pub open spec fn ends_word(s: Seq<char>, i: int) -> bool {
    i < 0 || i >= s.len() || is_space(s[i]) || starts_comment(s, i)
}

/// The end of the word that starts at `i`.
pub open spec fn word_end(s: Seq<char>, i: int) -> int
    decreases s.len() - i,
{
    if ends_word(s, i) {
        i
    } else {
        word_end(s, i + 1)
    }
}

/// The end of the line that `i` stands in: the position of the next line
/// feed, or the length of `s`.
pub open spec fn line_feed(s: Seq<char>, i: int) -> int
    decreases s.len() - i,
{
    if i < 0 || i >= s.len() || s[i] == '\n' {
        i
    } else {
        line_feed(s, i + 1)
    }
}

/// The first position from `i` on that is neither white space nor in a comment.
pub open spec fn gap_end(s: Seq<char>, i: int) -> int
    decreases s.len() - i,
{
    if i < 0 || i >= s.len() {
        i
    } else if is_space(s[i]) {
        gap_end(s, i + 1)
    } else if starts_comment(s, i) {
        proof {
            lemma_word_end_bounds(s, i + 1);
        }
        gap_end(s, line_feed(s, i + 1))
    } else {
        i
    }
}

/// A word, a line and a run of blanks that start at `i` end between `i`
/// and the length of `s`; a word that starts at a word character is not empty.
pub proof fn lemma_word_end_bounds(s: Seq<char>, i: int)
    requires
        0 <= i <= s.len(),
    ensures
        i <= word_end(s, i) <= s.len(),
        !ends_word(s, i) ==> i < word_end(s, i),
        i <= line_feed(s, i) <= s.len(),
        i <= lead(s, CharSet::Blanks, i) <= s.len(),
    decreases s.len() - i,
{
    if i < s.len() {
        lemma_word_end_bounds(s, i + 1);
    }
}

/// A gap that starts at `i` ends between `i` and the length of `s`, and a word starts where it ends.
pub proof fn lemma_gap_end_bounds(s: Seq<char>, i: int)
    requires
        0 <= i <= s.len(),
    ensures
        i <= gap_end(s, i) <= s.len(),
        gap_end(s, i) < s.len() ==> !ends_word(s, gap_end(s, i)),
    decreases s.len() - i,
{
    if i < s.len() {
        if is_space(s[i]) {
            lemma_gap_end_bounds(s, i + 1);
        } else if starts_comment(s, i) {
            lemma_word_end_bounds(s, i + 1);
            lemma_gap_end_bounds(s, line_feed(s, i + 1));
        }
    }
}

/// What `chumsky::text::Char::is_ident_start` returns for the character `c`.
pub uninterp spec fn ident_start(c: char) -> bool;

/// What `chumsky::text::Char::is_ident_continue` returns for the character `c`.
pub uninterp spec fn ident_continue(c: char) -> bool;

/// `chumsky::text::Char::is_ident_start` on a `char`: whether an identifier
/// of chumsky's `text::ident` can start with `c`. Believed, not proved: the
/// result is a function of `c` alone; nothing is claimed of which
/// characters it holds for.
#[verifier::external_body]
fn starts_ident(c: char) -> (r: bool)
    ensures
        r == ident_start(c),
{
    chumsky::text::Char::is_ident_start(&c)
}

/// `chumsky::text::Char::is_ident_continue` on a `char`: whether an
/// identifier of chumsky's `text::ident` can go on with `c`. Believed, not
/// proved: the result is a function of `c` alone; nothing is claimed of
/// which characters it holds for.
#[verifier::external_body]
fn continues_ident(c: char) -> (r: bool)
    ensures
        r == ident_continue(c),
{
    chumsky::text::Char::is_ident_continue(&c)
}

/// Whether the language gives `c` a meaning of its own: white space, and
/// the marks of comments, function names and synthetic labels. Such a
/// character is never part of a name.
pub open spec fn is_mark(c: char) -> bool {
    is_space(c) || c == '/' || c == '.' || c == '-' || c == ':'
}

fn marks(c: char) -> (r: bool)
    ensures
        r == is_mark(c),
{
    char_is_space(c) || c == '/' || c == '.' || c == '-' || c == ':'
}

/// Whether `c` can start an identifier.
pub open spec fn is_letter(c: char) -> bool {
    ident_start(c) && !is_mark(c)
}

/// Whether `c` can stand in an identifier after its first character.
pub open spec fn is_name_char(c: char) -> bool {
    ident_continue(c) && !is_mark(c)
}

/// Whether `w` is an identifier: a character that can start one, then
/// characters that can go on with one.
pub open spec fn is_name(w: Seq<char>) -> bool {
    w.len() >= 1 && is_letter(w[0]) && forall|i: int| 1 <= i < w.len() ==> is_name_char(#[trigger] w[i])
}

/// The number that the word `w` writes: decimal digits without a leading
/// zero, worth at most `0xFFFF`.
pub open spec fn parse_index(w: Seq<char>) -> Result<u16, Complaint> {
    if w.len() == 0 || !all_digits(w) || (w.len() > 1 && w[0] == '0') {
        Err(Complaint::ExpectedIndex)
    } else if decimal_value(w) > u16::MAX {
        Err(Complaint::IndexTooLarge)
    } else {
        Ok(decimal_value(w) as u16)
    }
}

/// The segment that `w` names in a `pop`. The statics are those of `file`.
pub open spec fn pop_segment(w: Seq<char>, file: Seq<char>) -> Option<PopDestView> {
    if w == "local"@ {
        Some(PopDestView::Local)
    } else if w == "argument"@ {
        Some(PopDestView::Argument)
    } else if w == "this"@ {
        Some(PopDestView::This)
    } else if w == "that"@ {
        Some(PopDestView::That)
    } else if w == "temp"@ {
        Some(PopDestView::Temp)
    } else if w == "pointer"@ {
        Some(PopDestView::Pointer)
    } else if w == "static"@ {
        Some(PopDestView::Static(file))
    } else {
        None
    }
}

/// The segment that `w` names in a `push`: `constant`, or one that can be popped to.
pub open spec fn push_segment(w: Seq<char>, file: Seq<char>) -> Option<PushSourceView> {
    if w == "constant"@ {
        Some(PushSourceView::Constant)
    } else {
        match pop_segment(w, file) {
            Some(PopDestView::Local) => Some(PushSourceView::Local),
            Some(PopDestView::Argument) => Some(PushSourceView::Argument),
            Some(PopDestView::This) => Some(PushSourceView::This),
            Some(PopDestView::That) => Some(PushSourceView::That),
            Some(PopDestView::Temp) => Some(PushSourceView::Temp),
            Some(PopDestView::Pointer) => Some(PushSourceView::Pointer),
            Some(PopDestView::Static(f)) => Some(PushSourceView::Static(f)),
            None => None,
        }
    }
}

/// The statement that the single word `w` is, if it is one.
pub open spec fn plain_statement(w: Seq<char>) -> Option<StatementView> {
    if w == "not"@ {
        Some(StatementView::Not)
    } else if w == "and"@ {
        Some(StatementView::And)
    } else if w == "or"@ {
        Some(StatementView::Or)
    } else if w == "neg"@ {
        Some(StatementView::Neg)
    } else if w == "add"@ {
        Some(StatementView::Add)
    } else if w == "sub"@ {
        Some(StatementView::Sub)
    } else if w == "eq"@ {
        Some(StatementView::Eq)
    } else if w == "lt"@ {
        Some(StatementView::Lt)
    } else if w == "gt"@ {
        Some(StatementView::Gt)
    } else if w == "return"@ {
        Some(StatementView::Return)
    } else {
        None
    }
}

/// What the text holds at one place: a statement, or the head of a function.
pub enum Item {
    Statement(StatementView),
    /// `function name locals`; the name stands at `start..end`, and its part
    /// before the dot is `prefix`.
    Header { name: Seq<char>, prefix: Seq<char>, locals: u16, start: int, end: int },
}

/// The start of the next word on the line, after spaces and tabs.
pub open spec fn operand_start(s: Seq<char>, i: int) -> int {
    lead(s, CharSet::Blanks, i)
}

/// A statement with a segment and an index, whose first word ends at `b`.
pub open spec fn read_push(s: Seq<char>, file: Seq<char>, b: int) -> Result<(Item, int), DiagnosticView> {
    let a2 = operand_start(s, b);
    let b2 = word_end(s, a2);
    let a3 = operand_start(s, b2);
    let b3 = word_end(s, a3);
    match push_segment(s.subrange(a2, b2), file) {
        None => Err(complain(s, a2, b2, Complaint::ExpectedSegment)),
        Some(segment) => match parse_index(s.subrange(a3, b3)) {
            Err(complaint) => Err(complain(s, a3, b3, complaint)),
            Ok(index) => Ok((Item::Statement(StatementView::Push(segment, index)), b3)),
        },
    }
}

/// A `pop` with its segment and index, whose first word ends at `b`.
pub open spec fn read_pop(s: Seq<char>, file: Seq<char>, b: int) -> Result<(Item, int), DiagnosticView> {
    let a2 = operand_start(s, b);
    let b2 = word_end(s, a2);
    let a3 = operand_start(s, b2);
    let b3 = word_end(s, a3);
    match pop_segment(s.subrange(a2, b2), file) {
        None => Err(complain(s, a2, b2, Complaint::ExpectedSegment)),
        Some(segment) => match parse_index(s.subrange(a3, b3)) {
            Err(complaint) => Err(complain(s, a3, b3, complaint)),
            Ok(index) => Ok((Item::Statement(StatementView::Pop(segment, index)), b3)),
        },
    }
}

/// The name after a branching word that ends at `b`.
pub open spec fn read_name(s: Seq<char>, b: int) -> Result<(Seq<char>, int), DiagnosticView> {
    let a2 = operand_start(s, b);
    let b2 = word_end(s, a2);
    if is_name(s.subrange(a2, b2)) {
        Ok((s.subrange(a2, b2), b2))
    } else {
        Err(complain(s, a2, b2, Complaint::ExpectedName))
    }
}

/// The head of a function, after the word `function` that ends at `b`.
pub open spec fn read_header(s: Seq<char>, b: int) -> Result<(Item, int), DiagnosticView> {
    let a2 = operand_start(s, b);
    let b2 = word_end(s, a2);
    let name = s.subrange(a2, b2);
    let dot = find_from(name, '.', 0);
    let a3 = operand_start(s, b2);
    let b3 = word_end(s, a3);
    if 0 <= dot < name.len() && is_name(name.take(dot)) && is_name(
        name.subrange(dot + 1, name.len() as int),
    ) {
        match parse_index(s.subrange(a3, b3)) {
            Err(complaint) => Err(complain(s, a3, b3, complaint)),
            Ok(locals) => Ok(
                (Item::Header { name, prefix: name.take(dot), locals, start: a2, end: b2 }, b3),
            ),
        }
    } else {
        Err(complain(s, a2, b2, Complaint::ExpectedFunctionName))
    }
}

/// The item whose first word starts at `a`, and where it ends.
pub open spec fn read_item(s: Seq<char>, file: Seq<char>, a: int) -> Result<(Item, int), DiagnosticView> {
    let b = word_end(s, a);
    let w = s.subrange(a, b);
    if plain_statement(w) is Some {
        Ok((Item::Statement(plain_statement(w)->Some_0), b))
    } else if w == "push"@ {
        read_push(s, file, b)
    } else if w == "pop"@ {
        read_pop(s, file, b)
    } else if w == "label"@ {
        match read_name(s, b) {
            Err(d) => Err(d),
            Ok((name, end)) => Ok((Item::Statement(StatementView::Label(name)), end)),
        }
    } else if w == "goto"@ {
        match read_name(s, b) {
            Err(d) => Err(d),
            Ok((name, end)) => Ok((Item::Statement(StatementView::Goto(name)), end)),
        }
    } else if w == "if-goto"@ {
        match read_name(s, b) {
            Err(d) => Err(d),
            Ok((name, end)) => Ok((Item::Statement(StatementView::IfGoto(name)), end)),
        }
    } else if w == "function"@ {
        read_header(s, b)
    } else {
        Err(complain(s, a, b, Complaint::UnknownStatement))
    }
}

/// An item ends after the place where it starts.
pub proof fn lemma_item_advances(s: Seq<char>, file: Seq<char>, a: int)
    requires
        0 <= a < s.len(),
        !ends_word(s, a),
    ensures
        read_item(s, file, a) matches Ok((_, next)) ==> a < next <= s.len(),
{
    lemma_word_end_bounds(s, a);
    let b = word_end(s, a);
    lemma_word_end_bounds(s, b);
    let a2 = operand_start(s, b);
    lemma_word_end_bounds(s, a2);
    let b2 = word_end(s, a2);
    lemma_word_end_bounds(s, b2);
    let a3 = operand_start(s, b2);
    lemma_word_end_bounds(s, a3);
}

/// What has been read of a unit.
pub struct Progress {
    /// The functions that are complete.
    pub done: Seq<FunctionView>,
    /// The name and the locals of the function that is being read, if one is.
    pub open: Option<(Seq<char>, u16)>,
    /// The statements of the function that is being read; the bare
    /// statements of the unit if no function has begun.
    pub body: Seq<StatementView>,
    /// The diagnostics so far.
    pub faults: Seq<DiagnosticView>,
}

impl Progress {
    /// Nothing read yet.
    pub open spec fn start() -> Progress {
        Progress { done: Seq::empty(), open: None, body: Seq::empty(), faults: Seq::empty() }
    }

    /// The functions read so far, the one being read included.
    pub open spec fn functions(self) -> Seq<FunctionView> {
        match self.open {
            None => self.done,
            Some((name, locals)) => self.done.push(
                FunctionView { name, locals, statements: self.body },
            ),
        }
    }

    /// The progress after `item`. A statement joins the body. A function
    /// head closes the function before it and opens a new one; it is
    /// reported if bare statements stand before it, and if the first part of
    /// its name is not a prefix of `file`.
    pub open spec fn take(self, s: Seq<char>, file: Seq<char>, item: Item) -> Progress {
        match item {
            Item::Statement(statement) => Progress { body: self.body.push(statement), ..self },
            Item::Header { name, prefix, locals, start, end } => {
                let misplaced = self.open is None && self.body.len() > 0;
                let first = if misplaced {
                    self.faults.push(complain(s, start, end, Complaint::FunctionAfterStatements))
                } else {
                    self.faults
                };
                let faults = if prefix.is_prefix_of(file) {
                    first
                } else {
                    first.push(
                        DiagnosticView {
                            start,
                            end,
                            message: Complaint::FileMismatch.message(prefix),
                        },
                    )
                };
                Progress {
                    done: self.functions(),
                    open: Some((name, locals)),
                    body: Seq::empty(),
                    faults,
                }
            },
        }
    }

    /// The unit that was read, if nothing was reported.
    pub open spec fn outcome(self) -> Result<AstView, Seq<DiagnosticView>> {
        if self.faults.len() > 0 {
            Err(self.faults)
        } else if self.open is None {
            Ok(AstView::Statements(self.body))
        } else {
            Ok(AstView::SingleFile(self.functions()))
        }
    }
}

/// Reads the items of `s` from position `i` on, after `progress`. The first
/// item that cannot be read is reported and ends the reading.
pub open spec fn read_from(s: Seq<char>, file: Seq<char>, i: int, progress: Progress) -> Progress
    decreases s.len() - i,
{
    if i < 0 || i > s.len() {
        progress
    } else {
        let a = gap_end(s, i);
        if a >= s.len() {
            progress
        } else {
            proof {
                lemma_gap_end_bounds(s, i);
                lemma_item_advances(s, file, a);
            }
            match read_item(s, file, a) {
                Err(fault) => Progress { faults: progress.faults.push(fault), ..progress },
                Ok((item, next)) => read_from(s, file, next, progress.take(s, file, item)),
            }
        }
    }
}

/// The unit that the text `s` of the file `file` holds: bare statements
/// if it declares no function, the functions of the file if it does; or
/// what is wrong with it.
pub open spec fn parse_unit(s: Seq<char>, file: Seq<char>) -> Result<AstView, Seq<DiagnosticView>> {
    read_from(s, file, 0, Progress::start()).outcome()
}

fn word_stop(chars: &Vec<char>, i: usize) -> (r: usize)
    requires
        i <= chars@.len(),
    ensures
        i <= r <= chars@.len(),
        r == word_end(chars@, i as int),
{
    let n: usize = chars.len();
    let mut j: usize = i;
    while j < n
        invariant
            n == chars@.len(),
            i <= j <= n,
            word_end(chars@, i as int) == word_end(chars@, j as int),
        decreases n - j,
    {
        let c: char = chars[j];
        if char_is_space(c) || (c == '/' && j + 1 < n && chars[j + 1] == '/') {
            return j;
        }
        j += 1;
    }
    j
}

fn skip_blanks(chars: &Vec<char>, i: usize) -> (r: usize)
    requires
        i <= chars@.len(),
    ensures
        i <= r <= chars@.len(),
        r == operand_start(chars@, i as int),
{
    let n: usize = chars.len();
    let mut j: usize = i;
    while j < n && CharSet::Blanks.has(chars[j])
        invariant
            n == chars@.len(),
            i <= j <= n,
            lead(chars@, CharSet::Blanks, i as int) == lead(chars@, CharSet::Blanks, j as int),
        decreases n - j,
    {
        j += 1;
    }
    j
}

fn skip_gap(chars: &Vec<char>, i: usize) -> (r: usize)
    requires
        i <= chars@.len(),
    ensures
        i <= r <= chars@.len(),
        r == gap_end(chars@, i as int),
{
    let n: usize = chars.len();
    let mut j: usize = i;
    let mut in_comment: bool = false;
    while j < n
        invariant
            n == chars@.len(),
            i <= j <= n,
            !in_comment ==> gap_end(chars@, i as int) == gap_end(chars@, j as int),
            in_comment ==> gap_end(chars@, i as int) == gap_end(chars@, line_feed(chars@, j as int)),
        decreases n - j, (if in_comment { 1int } else { 0int }),
    {
        let c: char = chars[j];
        if in_comment {
            if c == '\n' {
                in_comment = false;
            } else {
                j += 1;
            }
        } else if char_is_space(c) {
            j += 1;
        } else if c == '/' && j + 1 < n && chars[j + 1] == '/' {
            in_comment = true;
            j += 1;
        } else {
            return j;
        }
    }
    j
}

fn name_in(chars: &Vec<char>, a: usize, b: usize) -> (r: bool)
    requires
        a <= b <= chars@.len(),
    ensures
        r == is_name(chars@.subrange(a as int, b as int)),
{
    let ghost w = chars@.subrange(a as int, b as int);
    if a == b {
        return false;
    }
    let first: char = chars[a];
    assert(w[0] == first);
    if !starts_ident(first) || marks(first) {
        return false;
    }
    let mut i: usize = a + 1;
    while i < b
        invariant
            a < i <= b <= chars@.len(),
            w == chars@.subrange(a as int, b as int),
            forall|k: int| 1 <= k < i - a ==> is_name_char(#[trigger] w[k]),
        decreases b - i,
    {
        let c: char = chars[i];
        assert(w[i - a] == c);
        if !continues_ident(c) || marks(c) {
            return false;
        }
        i += 1;
    }
    true
}

/// Whether `word` is an identifier, as the names of labels and the two
/// parts of a function name must be.
pub fn is_identifier(word: &str) -> (r: bool)
    ensures
        r == is_name(word@),
{
    let chars = to_chars(word);
    assert(chars@.subrange(0, chars@.len() as int) =~= word@);
    name_in(&chars, 0, chars.len())
}

/// The diagnostic for `chars[a..b]` whose message is the word between `before` and `after`.
fn report(chars: &Vec<char>, a: usize, b: usize, before: &str, after: &str) -> (r: Diagnostic)
    requires
        a <= b <= chars@.len(),
    ensures
        r@ == (DiagnosticView {
            start: a as int,
            end: b as int,
            message: before@ + chars@.subrange(a as int, b as int) + after@,
        }),
{
    let mut message: String = String::from_str(before);
    message.append(text_of(chars, a, b).as_str());
    message.append(after);
    Diagnostic { start: a, end: b, message }
}

fn index_in(chars: &Vec<char>, a: usize, b: usize) -> (r: Result<u16, Diagnostic>)
    requires
        a <= b <= chars@.len(),
    ensures
        match r {
            Ok(n) => parse_index(chars@.subrange(a as int, b as int)) == Ok::<u16, Complaint>(n),
            Err(d) => parse_index(chars@.subrange(a as int, b as int)) matches Err(c) && d@
                == complain(chars@, a as int, b as int, c),
        },
{
    let ghost w = chars@.subrange(a as int, b as int);
    if a == b || !digits_only(chars, a, b) {
        return Err(report(chars, a, b, "Expected a decimal number, found '", "'"));
    }
    assert(w[0] == chars@[a as int]);
    if b - a > 1 && chars[a] == '0' {
        return Err(report(chars, a, b, "Expected a decimal number, found '", "'"));
    }
    match read_decimal(chars, a, b, 0xFFFF) {
        Some(value) => Ok(value as u16),
        None => Err(report(chars, a, b, "Number does not fit 16 bits: '", "'")),
    }
}

fn pop_segment_in(chars: &Vec<char>, a: usize, b: usize, file: &str) -> (r: Option<PopDest>)
    requires
        a <= b <= chars@.len(),
    ensures
        match r {
            Some(segment) => pop_segment(chars@.subrange(a as int, b as int), file@) == Some(
                segment@,
            ),
            None => pop_segment(chars@.subrange(a as int, b as int), file@) is None,
        },
{
    if matches_text(chars, a, b, "local") {
        Some(PopDest::Local)
    } else if matches_text(chars, a, b, "argument") {
        Some(PopDest::Argument)
    } else if matches_text(chars, a, b, "this") {
        Some(PopDest::This)
    } else if matches_text(chars, a, b, "that") {
        Some(PopDest::That)
    } else if matches_text(chars, a, b, "temp") {
        Some(PopDest::Temp)
    } else if matches_text(chars, a, b, "pointer") {
        Some(PopDest::Pointer)
    } else if matches_text(chars, a, b, "static") {
        Some(PopDest::Static(String::from_str(file)))
    } else {
        None
    }
}

fn push_segment_in(chars: &Vec<char>, a: usize, b: usize, file: &str) -> (r: Option<PushSource>)
    requires
        a <= b <= chars@.len(),
    ensures
        match r {
            Some(segment) => push_segment(chars@.subrange(a as int, b as int), file@) == Some(
                segment@,
            ),
            None => push_segment(chars@.subrange(a as int, b as int), file@) is None,
        },
{
    if matches_text(chars, a, b, "constant") {
        Some(PushSource::Constant)
    } else {
        match pop_segment_in(chars, a, b, file) {
            Some(PopDest::Local) => Some(PushSource::Local),
            Some(PopDest::Argument) => Some(PushSource::Argument),
            Some(PopDest::This) => Some(PushSource::This),
            Some(PopDest::That) => Some(PushSource::That),
            Some(PopDest::Temp) => Some(PushSource::Temp),
            Some(PopDest::Pointer) => Some(PushSource::Pointer),
            Some(PopDest::Static(f)) => Some(PushSource::Static(f)),
            None => None,
        }
    }
}

fn plain_in(chars: &Vec<char>, a: usize, b: usize) -> (r: Option<Statement>)
    requires
        a <= b <= chars@.len(),
    ensures
        match r {
            Some(statement) => plain_statement(chars@.subrange(a as int, b as int)) == Some(
                statement@,
            ),
            None => plain_statement(chars@.subrange(a as int, b as int)) is None,
        },
{
    if matches_text(chars, a, b, "not") {
        Some(Statement::Not)
    } else if matches_text(chars, a, b, "and") {
        Some(Statement::And)
    } else if matches_text(chars, a, b, "or") {
        Some(Statement::Or)
    } else if matches_text(chars, a, b, "neg") {
        Some(Statement::Neg)
    } else if matches_text(chars, a, b, "add") {
        Some(Statement::Add)
    } else if matches_text(chars, a, b, "sub") {
        Some(Statement::Sub)
    } else if matches_text(chars, a, b, "eq") {
        Some(Statement::Eq)
    } else if matches_text(chars, a, b, "lt") {
        Some(Statement::Lt)
    } else if matches_text(chars, a, b, "gt") {
        Some(Statement::Gt)
    } else if matches_text(chars, a, b, "return") {
        Some(Statement::Return)
    } else {
        None
    }
}

/// An item as it was read.
pub enum ReadItem {
    Statement(Statement),
    Header { name: String, prefix: String, locals: u16, start: usize, end: usize },
}

impl View for ReadItem {
    type V = Item;

    open spec fn view(&self) -> Item {
        match self {
            ReadItem::Statement(statement) => Item::Statement(statement@),
            ReadItem::Header { name, prefix, locals, start, end } => Item::Header {
                name: name@,
                prefix: prefix@,
                locals: *locals,
                start: *start as int,
                end: *end as int,
            },
        }
    }
}

fn push_at(chars: &Vec<char>, file: &str, b: usize) -> (r: Result<(ReadItem, usize), Diagnostic>)
    requires
        b <= chars@.len(),
    ensures
        match r {
            Ok((item, next)) => read_push(chars@, file@, b as int) == Ok::<(Item, int), DiagnosticView>(
                (item@, next as int),
            ) && next <= chars@.len(),
            Err(d) => read_push(chars@, file@, b as int) == Err::<(Item, int), DiagnosticView>(d@),
        },
{
    let a2: usize = skip_blanks(chars, b);
    let b2: usize = word_stop(chars, a2);
    match push_segment_in(chars, a2, b2, file) {
        None => Err(report(chars, a2, b2, "Expected a segment, found '", "'")),
        Some(segment) => {
            let a3: usize = skip_blanks(chars, b2);
            let b3: usize = word_stop(chars, a3);
            match index_in(chars, a3, b3) {
                Err(d) => Err(d),
                Ok(index) => Ok((ReadItem::Statement(Statement::Push(segment, index)), b3)),
            }
        },
    }
}

fn pop_at(chars: &Vec<char>, file: &str, b: usize) -> (r: Result<(ReadItem, usize), Diagnostic>)
    requires
        b <= chars@.len(),
    ensures
        match r {
            Ok((item, next)) => read_pop(chars@, file@, b as int) == Ok::<(Item, int), DiagnosticView>(
                (item@, next as int),
            ) && next <= chars@.len(),
            Err(d) => read_pop(chars@, file@, b as int) == Err::<(Item, int), DiagnosticView>(d@),
        },
{
    let a2: usize = skip_blanks(chars, b);
    let b2: usize = word_stop(chars, a2);
    match pop_segment_in(chars, a2, b2, file) {
        None => Err(report(chars, a2, b2, "Expected a segment, found '", "'")),
        Some(segment) => {
            let a3: usize = skip_blanks(chars, b2);
            let b3: usize = word_stop(chars, a3);
            match index_in(chars, a3, b3) {
                Err(d) => Err(d),
                Ok(index) => Ok((ReadItem::Statement(Statement::Pop(segment, index)), b3)),
            }
        },
    }
}

fn name_at(chars: &Vec<char>, b: usize) -> (r: Result<(String, usize), Diagnostic>)
    requires
        b <= chars@.len(),
    ensures
        match r {
            Ok((name, next)) => read_name(chars@, b as int) == Ok::<(Seq<char>, int), DiagnosticView>(
                (name@, next as int),
            ) && next <= chars@.len(),
            Err(d) => read_name(chars@, b as int) == Err::<(Seq<char>, int), DiagnosticView>(d@),
        },
{
    let a2: usize = skip_blanks(chars, b);
    let b2: usize = word_stop(chars, a2);
    if name_in(chars, a2, b2) {
        Ok((text_of(chars, a2, b2), b2))
    } else {
        Err(report(chars, a2, b2, "Expected an identifier, found '", "'"))
    }
}

fn header_at(chars: &Vec<char>, b: usize) -> (r: Result<(ReadItem, usize), Diagnostic>)
    requires
        b <= chars@.len(),
    ensures
        match r {
            Ok((item, next)) => read_header(chars@, b as int) == Ok::<(Item, int), DiagnosticView>(
                (item@, next as int),
            ) && next <= chars@.len(),
            Err(d) => read_header(chars@, b as int) == Err::<(Item, int), DiagnosticView>(d@),
        },
{
    let a2: usize = skip_blanks(chars, b);
    let b2: usize = word_stop(chars, a2);
    let ghost name = chars@.subrange(a2 as int, b2 as int);
    let dot: usize = crate::text::find_char(chars, a2, b2, '.');
    let named: bool = dot < b2 && name_in(chars, a2, dot) && name_in(chars, dot + 1, b2);
    proof {
        if dot < b2 {
            assert(name.take(dot - a2) =~= chars@.subrange(a2 as int, dot as int));
            assert(name.subrange(dot - a2 + 1, name.len() as int) =~= chars@.subrange(
                dot + 1,
                b2 as int,
            ));
        }
    }
    if !named {
        return Err(report(chars, a2, b2, "Expected a function name File.name, found '", "'"));
    }
    let a3: usize = skip_blanks(chars, b2);
    let b3: usize = word_stop(chars, a3);
    match index_in(chars, a3, b3) {
        Err(d) => Err(d),
        Ok(locals) => Ok(
            (
                ReadItem::Header {
                    name: text_of(chars, a2, b2),
                    prefix: text_of(chars, a2, dot),
                    locals,
                    start: a2,
                    end: b2,
                },
                b3,
            ),
        ),
    }
}

fn item_at(chars: &Vec<char>, file: &str, a: usize) -> (r: Result<(ReadItem, usize), Diagnostic>)
    requires
        a <= chars@.len(),
    ensures
        match r {
            Ok((item, next)) => read_item(chars@, file@, a as int) == Ok::<(Item, int), DiagnosticView>(
                (item@, next as int),
            ) && next <= chars@.len(),
            Err(d) => read_item(chars@, file@, a as int) == Err::<(Item, int), DiagnosticView>(d@),
        },
{
    let b: usize = word_stop(chars, a);
    match plain_in(chars, a, b) {
        Some(statement) => {
            return Ok((ReadItem::Statement(statement), b));
        },
        None => {},
    }
    if matches_text(chars, a, b, "push") {
        push_at(chars, file, b)
    } else if matches_text(chars, a, b, "pop") {
        pop_at(chars, file, b)
    } else if matches_text(chars, a, b, "label") {
        match name_at(chars, b) {
            Err(d) => Err(d),
            Ok((name, end)) => Ok((ReadItem::Statement(Statement::Label(name)), end)),
        }
    } else if matches_text(chars, a, b, "goto") {
        match name_at(chars, b) {
            Err(d) => Err(d),
            Ok((name, end)) => Ok((ReadItem::Statement(Statement::Goto(name)), end)),
        }
    } else if matches_text(chars, a, b, "if-goto") {
        match name_at(chars, b) {
            Err(d) => Err(d),
            Ok((name, end)) => Ok((ReadItem::Statement(Statement::IfGoto(name)), end)),
        }
    } else if matches_text(chars, a, b, "function") {
        header_at(chars, b)
    } else {
        Err(report(chars, a, b, "Unknown statement '", "'"))
    }
}

/// Whether `prefix` is how `file` starts.
fn starts_with(file: &Vec<char>, prefix: &Vec<char>) -> (r: bool)
    ensures
        r == prefix@.is_prefix_of(file@),
{
    let n: usize = prefix.len();
    if n > file.len() {
        return false;
    }
    let mut i: usize = 0;
    while i < n
        invariant
            n == prefix@.len(),
            n <= file@.len(),
            i <= n,
            forall|k: int| 0 <= k < i ==> prefix@[k] == file@[k],
        decreases n - i,
    {
        if prefix[i] != file[i] {
            assert(file@.subrange(0, n as int)[i as int] != prefix@[i as int]);
            return false;
        }
        i += 1;
    }
    assert(prefix@ =~= file@.subrange(0, n as int));
    true
}

/// The progress that the reader's variables stand for.
pub open spec fn progress_of(
    done: Seq<Function>,
    open: bool,
    name: Seq<char>,
    locals: u16,
    body: Seq<Statement>,
    faults: Seq<Diagnostic>,
) -> Progress {
    Progress {
        done: functions_view(done),
        open: if open {
            Some((name, locals))
        } else {
            None
        },
        body: statements_view(body),
        faults: diagnostics_view(faults),
    }
}

/// Reads the unit that `source` holds. `filename` is the name of its file:
/// the statics belong to it, and every function name starts with a prefix of it.
pub fn parse(source: &str, filename: &str) -> (r: Result<Ast, Vec<Diagnostic>>)
    ensures
        match r {
            Ok(ast) => parse_unit(source@, filename@) == Ok::<AstView, Seq<DiagnosticView>>(ast@),
            Err(faults) => parse_unit(source@, filename@) == Err::<AstView, Seq<DiagnosticView>>(
                diagnostics_view(faults@),
            ) && faults@.len() > 0,
        },
{
    let chars = to_chars(source);
    let file = to_chars(filename);
    let ghost s = chars@;
    let ghost f = filename@;
    let n: usize = chars.len();
    let mut done: Vec<Function> = Vec::new();
    let mut open: bool = false;
    let mut name: String = String::new();
    let mut locals: u16 = 0;
    let mut body: Vec<Statement> = Vec::new();
    let mut faults: Vec<Diagnostic> = Vec::new();
    let mut i: usize = 0;
    let mut reading: bool = true;
    assert(progress_of(done@, open, name@, locals, body@, faults@) =~= Progress::start()) by {
        assert(functions_view(done@) =~= Seq::<FunctionView>::empty());
        assert(statements_view(body@) =~= Seq::<StatementView>::empty());
        assert(diagnostics_view(faults@) =~= Seq::<DiagnosticView>::empty());
    }
    while reading
        invariant
            s == chars@,
            s == source@,
            f == filename@,
            f == file@,
            n == s.len(),
            i <= n,
            reading ==> read_from(s, f, 0, Progress::start()) == read_from(
                s,
                f,
                i as int,
                progress_of(done@, open, name@, locals, body@, faults@),
            ),
            !reading ==> read_from(s, f, 0, Progress::start()) == progress_of(
                done@,
                open,
                name@,
                locals,
                body@,
                faults@,
            ),
        decreases n - i, (if reading { 1int } else { 0int }),
    {
        let ghost before = progress_of(done@, open, name@, locals, body@, faults@);
        let a: usize = skip_gap(&chars, i);
        if a >= n {
            reading = false;
        } else {
            proof {
                lemma_gap_end_bounds(s, i as int);
                lemma_item_advances(s, f, a as int);
            }
            match item_at(&chars, filename, a) {
                Err(fault) => {
                    faults.push(fault);
                    reading = false;
                    assert(diagnostics_view(faults@) =~= before.faults.push(fault@));
                },
                Ok((ReadItem::Statement(statement), next)) => {
                    body.push(statement);
                    i = next;
                    assert(statements_view(body@) =~= before.body.push(statement@));
                },
                Ok((ReadItem::Header { name: title, prefix, locals: count, start, end }, next)) => {
                    let ghost item = Item::Header {
                        name: title@,
                        prefix: prefix@,
                        locals: count,
                        start: start as int,
                        end: end as int,
                    };
                    proof {
                        let b = word_end(s, a as int);
                        lemma_word_end_bounds(s, a as int);
                        lemma_word_end_bounds(s, b);
                        lemma_word_end_bounds(s, operand_start(s, b));
                        assert(start == operand_start(s, b));
                        assert(end == word_end(s, operand_start(s, b)));
                    }
                    if !open && body.len() > 0 {
                        let ghost old_faults = diagnostics_view(faults@);
                        faults.push(
                            report(&chars, start, end, "Function declared after bare statements: '", "'"),
                        );
                        assert(diagnostics_view(faults@) =~= old_faults.push(
                            complain(s, start as int, end as int, Complaint::FunctionAfterStatements),
                        ));
                    }
                    let prefix_chars = to_chars(prefix.as_str());
                    if !starts_with(&file, &prefix_chars) {
                        let ghost old_faults = diagnostics_view(faults@);
                        let mut message: String = String::from_str(
                            "Function name first part must match the filename. Found '",
                        );
                        message.append(prefix.as_str());
                        message.append("'.");
                        faults.push(Diagnostic { start, end, message });
                        assert(diagnostics_view(faults@) =~= old_faults.push(
                            DiagnosticView {
                                start: start as int,
                                end: end as int,
                                message: Complaint::FileMismatch.message(prefix@),
                            },
                        ));
                    }
                    if open {
                        let ghost old_done = functions_view(done@);
                        let finished = Function { name, locals, statements: body };
                        done.push(finished);
                        assert(functions_view(done@) =~= old_done.push(finished@));
                    }
                    open = true;
                    name = title;
                    locals = count;
                    body = Vec::new();
                    i = next;
                    assert(statements_view(body@) =~= Seq::<StatementView>::empty());
                    assert(progress_of(done@, open, name@, locals, body@, faults@) == before.take(
                        s,
                        f,
                        item,
                    ));
                },
            }
        }
    }
    if faults.len() > 0 {
        Err(faults)
    } else if !open {
        Ok(Ast::Statements(body))
    } else {
        let ghost old_done = functions_view(done@);
        let finished = Function { name, locals, statements: body };
        done.push(finished);
        assert(functions_view(done@) =~= old_done.push(finished@));
        Ok(Ast::SingleFile(done))
    }
}

/// The diagnostic for a unit of the other shape than the one asked for.
pub open spec fn wrong_shape(message: Seq<char>) -> Seq<DiagnosticView> {
    seq![DiagnosticView { start: 0, end: 0, message }]
}

fn shape_fault(message: &str) -> (r: Vec<Diagnostic>)
    ensures
        diagnostics_view(r@) == wrong_shape(message@),
{
    let mut out: Vec<Diagnostic> = Vec::new();
    out.push(Diagnostic { start: 0, end: 0, message: String::from_str(message) });
    assert(diagnostics_view(out@) =~= wrong_shape(message@));
    out
}

/// Reads a unit of bare statements. A unit that declares functions is refused.
pub fn statements(source: &str, filename: &str) -> (r: Result<Vec<Statement>, Vec<Diagnostic>>)
    ensures
        match parse_unit(source@, filename@) {
            Ok(AstView::Statements(body)) => r matches Ok(found) && statements_view(found@) == body,
            Ok(AstView::SingleFile(_)) => r matches Err(faults) && diagnostics_view(faults@)
                == wrong_shape("Expected statements, found functions"@),
            Err(reported) => r matches Err(faults) && diagnostics_view(faults@) == reported,
        },
{
    match parse(source, filename) {
        Ok(Ast::Statements(body)) => Ok(body),
        Ok(Ast::SingleFile(_)) => Err(shape_fault("Expected statements, found functions")),
        Err(faults) => Err(faults),
    }
}

/// Reads the functions of a file. Bare statements are refused; a text
/// without any statement holds no function.
pub fn functions(source: &str, filename: &str) -> (r: Result<Vec<Function>, Vec<Diagnostic>>)
    ensures
        match parse_unit(source@, filename@) {
            Ok(AstView::SingleFile(found)) => r matches Ok(list) && functions_view(list@) == found,
            Ok(AstView::Statements(body)) => if body.len() == 0 {
                r matches Ok(list) && list@.len() == 0
            } else {
                r matches Err(faults) && diagnostics_view(faults@) == wrong_shape(
                    "Expected functions, found statements"@,
                )
            },
            Err(reported) => r matches Err(faults) && diagnostics_view(faults@) == reported,
        },
{
    match parse(source, filename) {
        Ok(Ast::SingleFile(list)) => Ok(list),
        Ok(Ast::Statements(body)) => {
            if body.len() == 0 {
                Ok(Vec::new())
            } else {
                Err(shape_fault("Expected functions, found statements"))
            }
        },
        Err(faults) => Err(faults),
    }
}

} // verus!
