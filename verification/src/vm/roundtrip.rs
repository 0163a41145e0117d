//! Reading back what was written: the reader returns the unit that the
//! printer was given.
use vstd::prelude::*;
use crate::text::{
    find_from, all_digits, decimal, decimal_value, digit_char, is_digit, is_space, lead, lemma_decimal_value,
    CharSet,
};
use crate::vm::parser::{
    lemma_gap_end_bounds, lemma_item_advances, ends_word, gap_end, is_name, is_name_char, operand_start, parse_index, parse_unit,
    plain_statement, pop_segment, push_segment, read_from, read_header, read_item, read_name,
    read_pop, read_push, word_end, Complaint, DiagnosticView, Item, Progress,
};
use crate::vm::printer::{
    functions_text, header_text, pop_segment_name, push_segment_name, spaced,
    statement_text, statements_text, unit_text,
};
use crate::vm::{AstView, FunctionView, PopDestView, PushSourceView, StatementView};

verus! {

/// A character that can stand inside a word.
pub open spec fn clean(c: char) -> bool {
    !is_space(c) && c != '/'
}

/// Whether every character of `w` can stand inside a word.
pub open spec fn all_clean(w: Seq<char>) -> bool {
    forall|k: int| 0 <= k < w.len() ==> clean(#[trigger] w[k])
}

/// A run of word characters that white space follows is one word.
pub proof fn lemma_word_at(s: Seq<char>, a: int, w: Seq<char>)
    requires
        0 <= a,
        a + w.len() < s.len(),
        s.subrange(a, a + w.len()) == w,
        all_clean(w),
        is_space(s[a + w.len()]),
    ensures
        word_end(s, a) == a + w.len(),
    decreases w.len(),
{
    if w.len() > 0 {
        assert(s.subrange(a, a + w.len())[0] == s[a]);
        assert(clean(w[0]));
        assert(s.subrange(a + 1, a + 1 + w.drop_first().len()) =~= w.drop_first());
        assert(all_clean(w.drop_first())) by {
            assert forall|k: int| 0 <= k < w.drop_first().len() implies clean(
                #[trigger] w.drop_first()[k],
            ) by {
                assert(w.drop_first()[k] == w[k + 1]);
            }
        }
        lemma_word_at(s, a + 1, w.drop_first());
    }
}

/// The words of the language: what they are made of, and that they differ.
pub proof fn lemma_statement_words()
    ensures
        plain_statement("not"@) == Some(StatementView::Not),
        plain_statement("and"@) == Some(StatementView::And),
        plain_statement("or"@) == Some(StatementView::Or),
        plain_statement("neg"@) == Some(StatementView::Neg),
        plain_statement("add"@) == Some(StatementView::Add),
        plain_statement("sub"@) == Some(StatementView::Sub),
        plain_statement("eq"@) == Some(StatementView::Eq),
        plain_statement("lt"@) == Some(StatementView::Lt),
        plain_statement("gt"@) == Some(StatementView::Gt),
        plain_statement("return"@) == Some(StatementView::Return),
        plain_statement("push"@) is None,
        plain_statement("pop"@) is None,
        plain_statement("label"@) is None,
        plain_statement("goto"@) is None,
        plain_statement("if-goto"@) is None,
        plain_statement("function"@) is None,
        "push"@.len() == 4,
        "pop"@.len() == 3,
        "label"@.len() == 5,
        "goto"@.len() == 4,
        "if-goto"@.len() == 7,
        "function"@.len() == 8,
        "pop"@ != "push"@,
        "label"@ != "push"@,
        "label"@ != "pop"@,
        "goto"@ != "push"@,
        "goto"@ != "pop"@,
        "goto"@ != "label"@,
        "if-goto"@ != "push"@,
        "if-goto"@ != "pop"@,
        "if-goto"@ != "label"@,
        "if-goto"@ != "goto"@,
        "function"@ != "push"@,
        "function"@ != "pop"@,
        "function"@ != "label"@,
        "function"@ != "goto"@,
        "function"@ != "if-goto"@,
        all_clean("not"@),
        all_clean("and"@),
        all_clean("or"@),
        all_clean("neg"@),
        all_clean("add"@),
        all_clean("sub"@),
        all_clean("eq"@),
        all_clean("lt"@),
        all_clean("gt"@),
        all_clean("return"@),
        all_clean("push"@),
        all_clean("pop"@),
        all_clean("label"@),
        all_clean("goto"@),
        all_clean("if-goto"@),
        all_clean("function"@),
{
    reveal_strlit("not");
    reveal_strlit("and");
    reveal_strlit("or");
    reveal_strlit("neg");
    reveal_strlit("add");
    reveal_strlit("sub");
    reveal_strlit("eq");
    reveal_strlit("lt");
    reveal_strlit("gt");
    reveal_strlit("return");
    reveal_strlit("push");
    reveal_strlit("pop");
    reveal_strlit("label");
    reveal_strlit("goto");
    reveal_strlit("if-goto");
    reveal_strlit("function");
    assert("not"@.len() == 3 && "and"@.len() == 3 && "or"@.len() == 2 && "neg"@.len() == 3);
    assert("add"@.len() == 3 && "sub"@.len() == 3 && "eq"@.len() == 2 && "lt"@.len() == 2);
    assert("gt"@.len() == 2 && "return"@.len() == 6);
    assert("not"@[1] == 'o' && "neg"@[1] == 'e' && "and"@[1] == 'n' && "add"@[1] == 'd');
    assert("not"@[0] == 'n' && "neg"@[0] == 'n' && "and"@[0] == 'a' && "add"@[0] == 'a');
    assert("or"@[0] == 'o' && "eq"@[0] == 'e' && "lt"@[0] == 'l' && "gt"@[0] == 'g');
    assert("sub"@[0] == 's' && "pop"@[0] == 'p' && "push"@[0] == 'p' && "goto"@[0] == 'g');
}

/// The words for the segments: what they are made of, and which segment each names.
pub proof fn lemma_segment_words(file: Seq<char>)
    ensures
        push_segment("constant"@, file) == Some(PushSourceView::Constant),
        push_segment("local"@, file) == Some(PushSourceView::Local),
        push_segment("argument"@, file) == Some(PushSourceView::Argument),
        push_segment("this"@, file) == Some(PushSourceView::This),
        push_segment("that"@, file) == Some(PushSourceView::That),
        push_segment("temp"@, file) == Some(PushSourceView::Temp),
        push_segment("pointer"@, file) == Some(PushSourceView::Pointer),
        push_segment("static"@, file) == Some(PushSourceView::Static(file)),
        pop_segment("local"@, file) == Some(PopDestView::Local),
        pop_segment("argument"@, file) == Some(PopDestView::Argument),
        pop_segment("this"@, file) == Some(PopDestView::This),
        pop_segment("that"@, file) == Some(PopDestView::That),
        pop_segment("temp"@, file) == Some(PopDestView::Temp),
        pop_segment("pointer"@, file) == Some(PopDestView::Pointer),
        pop_segment("static"@, file) == Some(PopDestView::Static(file)),
        all_clean("constant"@),
        all_clean("local"@),
        all_clean("argument"@),
        all_clean("this"@),
        all_clean("that"@),
        all_clean("temp"@),
        all_clean("pointer"@),
        all_clean("static"@),
{
    reveal_strlit("constant");
    reveal_strlit("local");
    reveal_strlit("argument");
    reveal_strlit("this");
    reveal_strlit("that");
    reveal_strlit("temp");
    reveal_strlit("pointer");
    reveal_strlit("static");
    assert("constant"@.len() == 8 && "local"@.len() == 5 && "argument"@.len() == 8);
    assert("this"@.len() == 4 && "that"@.len() == 4 && "temp"@.len() == 4);
    assert("pointer"@.len() == 7 && "static"@.len() == 6);
    assert("constant"@[0] == 'c' && "argument"@[0] == 'a');
    assert("this"@[2] == 'i' && "that"@[2] == 'a' && "temp"@[2] == 'm');
}

/// A numeral is made of digits, and starts with `0` only if it is `0`.
pub proof fn lemma_decimal_shape(n: nat)
    ensures
        decimal(n).len() >= 1,
        all_digits(decimal(n)),
        all_clean(decimal(n)),
        decimal(n).len() > 1 ==> decimal(n)[0] != '0',
        decimal_value(decimal(n)) == n,
    decreases n,
{
    lemma_decimal_value(n);
    assert forall|k: int| 0 <= k < decimal(n).len() implies clean(#[trigger] decimal(n)[k]) by {
        assert(is_digit(decimal(n)[k]));
    }
    if n >= 10 {
        lemma_decimal_shape(n / 10);
        let shorter = decimal(n / 10);
        assert(decimal(n)[0] == shorter[0]);
        if shorter.len() == 1 {
            assert(n / 10 < 10) by {
                if n / 10 >= 10 {
                    lemma_decimal_shape(n / 10 / 10);
                }
            }
            assert(shorter[0] == digit_char(n / 10));
        }
    }
}

/// The numeral of a 16-bit number reads as that number.
pub proof fn lemma_index_reads(n: u16)
    ensures
        parse_index(decimal(n as nat)) == Ok::<u16, Complaint>(n),
{
    lemma_decimal_shape(n as nat);
}

/// An identifier is a word.
proof fn lemma_name_clean(w: Seq<char>)
    requires
        is_name(w),
    ensures
        all_clean(w),
        w.len() >= 1,
{
    assert forall|k: int| 0 <= k < w.len() implies clean(#[trigger] w[k]) by {
        if k > 0 {
            assert(is_name_char(w[k]));
        }
    }
}

/// After a word, one space and a word character, the next word starts at that character.
pub proof fn lemma_one_space(s: Seq<char>, b: int)
    requires
        0 <= b,
        b + 1 < s.len(),
        s[b] == ' ',
        clean(s[b + 1]),
    ensures
        operand_start(s, b) == b + 1,
{
    assert(lead(s, CharSet::Blanks, b + 1) == b + 1);
}

/// Where the two parts of `spaced(first, second)` stand in a text that holds it at `a`.
pub proof fn lemma_spaced_parts(s: Seq<char>, a: int, first: Seq<char>, second: Seq<char>)
    requires
        0 <= a,
        a + spaced(first, second).len() <= s.len(),
        s.subrange(a, a + spaced(first, second).len()) == spaced(first, second),
    ensures
        spaced(first, second).len() == first.len() + 1 + second.len(),
        s.subrange(a, a + first.len()) == first,
        s[a + first.len()] == ' ',
        s.subrange(a + first.len() + 1, a + first.len() + 1 + second.len()) == second,
{
    let t = spaced(first, second);
    let whole = s.subrange(a, a + t.len());
    assert(s.subrange(a, a + first.len()) =~= first) by {
        assert forall|k: int| 0 <= k < first.len() implies s.subrange(a, a + first.len())[k]
            == first[k] by {
            assert(whole[k] == t[k]);
        }
    }
    assert(whole[first.len() as int] == t[first.len() as int]);
    assert(s.subrange(a + first.len() + 1, a + first.len() + 1 + second.len()) =~= second) by {
        assert forall|k: int| 0 <= k < second.len() implies s.subrange(
            a + first.len() + 1,
            a + first.len() + 1 + second.len(),
        )[k] == second[k] by {
            assert(whole[first.len() + 1 + k] == t[first.len() + 1 + k]);
        }
    }
}

/// A word followed by a space and a second word, with white space after
/// it: where the first word ends, and where the second starts and ends.
pub proof fn lemma_two_words(s: Seq<char>, a: int, first: Seq<char>, second: Seq<char>)
    requires
        0 <= a,
        a + first.len() + 1 + second.len() < s.len(),
        s.subrange(a, a + first.len()) == first,
        s[a + first.len()] == ' ',
        s.subrange(a + first.len() + 1, a + first.len() + 1 + second.len()) == second,
        all_clean(first),
        all_clean(second),
        second.len() >= 1,
        is_space(s[a + first.len() + 1 + second.len()]),
    ensures
        word_end(s, a) == a + first.len(),
        operand_start(s, a + first.len()) == a + first.len() + 1,
        word_end(s, a + first.len() + 1) == a + first.len() + 1 + second.len(),
{
    lemma_word_at(s, a, first);
    let a2 = a + first.len() + 1;
    assert(s[a2] == second[0]) by {
        assert(s.subrange(a2, a2 + second.len())[0] == s[a2]);
    }
    lemma_one_space(s, a + first.len());
    lemma_word_at(s, a2, second);
}

/// Whether the reader gives back `x` for its text: its names are
/// identifiers, and its statics are those of `file`.
pub open spec fn canonical_statement(x: StatementView, file: Seq<char>) -> bool {
    match x {
        StatementView::Push(PushSourceView::Static(f), _) => f == file,
        StatementView::Pop(PopDestView::Static(f), _) => f == file,
        StatementView::Label(l) => is_name(l),
        StatementView::Goto(l) => is_name(l),
        StatementView::IfGoto(l) => is_name(l),
        _ => true,
    }
}

/// Whether every statement of `list` is canonical.
pub open spec fn canonical_statements(list: Seq<StatementView>, file: Seq<char>) -> bool {
    forall|i: int| 0 <= i < list.len() ==> canonical_statement(#[trigger] list[i], file)
}

/// The text of `x` stands in `s` at `a`, and a line feed follows it.
pub open spec fn holds_line(s: Seq<char>, a: int, t: Seq<char>) -> bool {
    &&& 0 <= a
    &&& a + t.len() < s.len()
    &&& s.subrange(a, a + t.len()) == t
    &&& s[a + t.len()] == '\n'
}

proof fn lemma_read_plain(s: Seq<char>, file: Seq<char>, a: int, x: StatementView)
    requires
        x is Not || x is And || x is Or || x is Neg || x is Add || x is Sub || x is Eq || x is Lt
            || x is Gt || x is Return,
        holds_line(s, a, statement_text(x)),
    ensures
        read_item(s, file, a) == Ok::<(Item, int), DiagnosticView>(
            (Item::Statement(x), a + statement_text(x).len()),
        ),
        !ends_word(s, a),
{
    lemma_statement_words();
    let t = statement_text(x);
    lemma_word_at(s, a, t);
    assert(t.len() >= 2) by {
        reveal_strlit("not");
        reveal_strlit("and");
        reveal_strlit("or");
        reveal_strlit("neg");
        reveal_strlit("add");
        reveal_strlit("sub");
        reveal_strlit("eq");
        reveal_strlit("lt");
        reveal_strlit("gt");
        reveal_strlit("return");
    }
    assert(s.subrange(a, a + t.len())[0] == s[a]);
    assert(clean(t[0]));
}

proof fn lemma_read_push(s: Seq<char>, file: Seq<char>, a: int, x: StatementView)
    requires
        x is Push,
        canonical_statement(x, file),
        holds_line(s, a, statement_text(x)),
    ensures
        read_item(s, file, a) == Ok::<(Item, int), DiagnosticView>(
            (Item::Statement(x), a + statement_text(x).len()),
        ),
        !ends_word(s, a),
{
    lemma_statement_words();
    lemma_segment_words(file);
    let segment = x->Push_0;
    let index = x->Push_1;
    let name = push_segment_name(segment);
    let number = decimal(index as nat);
    let head = spaced("push"@, name);
    lemma_decimal_shape(index as nat);
    lemma_index_reads(index);
    lemma_spaced_parts(s, a, head, number);
    lemma_spaced_parts(s, a, "push"@, name);
    assert(all_clean(name));
    assert(name.len() >= 1) by {
        reveal_strlit("constant");
        reveal_strlit("local");
        reveal_strlit("argument");
        reveal_strlit("this");
        reveal_strlit("that");
        reveal_strlit("temp");
        reveal_strlit("pointer");
        reveal_strlit("static");
    }
    let a2 = a + 5;
    let b2 = a2 + name.len();
    assert(s[a2] == name[0]) by {
        assert(s.subrange(a2, a2 + name.len())[0] == s[a2]);
    }
    assert(s[a] == "push"@[0]) by {
        assert(s.subrange(a, a + 4)[0] == s[a]);
    }
    lemma_word_at(s, a, "push"@);
    lemma_one_space(s, a + 4);
    lemma_two_words(s, a2, name, number);
    assert(push_segment(name, file) == Some(segment));
    assert(read_push(s, file, a + 4) == Ok::<(Item, int), DiagnosticView>(
        (Item::Statement(x), a + statement_text(x).len()),
    ));
}

proof fn lemma_read_pop(s: Seq<char>, file: Seq<char>, a: int, x: StatementView)
    requires
        x is Pop,
        canonical_statement(x, file),
        holds_line(s, a, statement_text(x)),
    ensures
        read_item(s, file, a) == Ok::<(Item, int), DiagnosticView>(
            (Item::Statement(x), a + statement_text(x).len()),
        ),
        !ends_word(s, a),
{
    lemma_statement_words();
    lemma_segment_words(file);
    let segment = x->Pop_0;
    let index = x->Pop_1;
    let name = pop_segment_name(segment);
    let number = decimal(index as nat);
    let head = spaced("pop"@, name);
    lemma_decimal_shape(index as nat);
    lemma_index_reads(index);
    lemma_spaced_parts(s, a, head, number);
    lemma_spaced_parts(s, a, "pop"@, name);
    assert(all_clean(name));
    assert(name.len() >= 1) by {
        reveal_strlit("local");
        reveal_strlit("argument");
        reveal_strlit("this");
        reveal_strlit("that");
        reveal_strlit("temp");
        reveal_strlit("pointer");
        reveal_strlit("static");
    }
    let a2 = a + 4;
    assert(s[a2] == name[0]) by {
        assert(s.subrange(a2, a2 + name.len())[0] == s[a2]);
    }
    assert(s[a] == "pop"@[0]) by {
        assert(s.subrange(a, a + 3)[0] == s[a]);
    }
    lemma_word_at(s, a, "pop"@);
    lemma_one_space(s, a + 3);
    lemma_two_words(s, a2, name, number);
    assert(pop_segment(name, file) == Some(segment));
    assert(read_pop(s, file, a + 3) == Ok::<(Item, int), DiagnosticView>(
        (Item::Statement(x), a + statement_text(x).len()),
    ));
}

proof fn lemma_read_branch(s: Seq<char>, file: Seq<char>, a: int, x: StatementView)
    requires
        x is Label || x is Goto || x is IfGoto,
        canonical_statement(x, file),
        holds_line(s, a, statement_text(x)),
    ensures
        read_item(s, file, a) == Ok::<(Item, int), DiagnosticView>(
            (Item::Statement(x), a + statement_text(x).len()),
        ),
        !ends_word(s, a),
{
    lemma_statement_words();
    let (word, name) = match x {
        StatementView::Label(l) => ("label"@, l),
        StatementView::Goto(l) => ("goto"@, l),
        StatementView::IfGoto(l) => ("if-goto"@, l),
        _ => ("label"@, Seq::<char>::empty()),
    };
    lemma_name_clean(name);
    lemma_spaced_parts(s, a, word, name);
    lemma_two_words(s, a, word, name);
    assert(s[a] == word[0]) by {
        assert(s.subrange(a, a + word.len())[0] == s[a]);
    }
    assert(read_name(s, a + word.len()) == Ok::<(Seq<char>, int), DiagnosticView>(
        (name, a + statement_text(x).len()),
    ));
}

/// The reader gives back a canonical statement from its line.
pub proof fn lemma_read_statement(s: Seq<char>, file: Seq<char>, a: int, x: StatementView)
    requires
        canonical_statement(x, file),
        holds_line(s, a, statement_text(x)),
    ensures
        read_item(s, file, a) == Ok::<(Item, int), DiagnosticView>(
            (Item::Statement(x), a + statement_text(x).len()),
        ),
        !ends_word(s, a),
{
    match x {
        StatementView::Push(_, _) => lemma_read_push(s, file, a, x),
        StatementView::Pop(_, _) => lemma_read_pop(s, file, a, x),
        StatementView::Label(_) | StatementView::Goto(_) | StatementView::IfGoto(_) => {
            lemma_read_branch(s, file, a, x)
        },
        _ => lemma_read_plain(s, file, a, x),
    }
}

/// White space before an item does not change what is read.
pub proof fn lemma_skip_space(s: Seq<char>, file: Seq<char>, i: int, progress: Progress)
    requires
        0 <= i < s.len(),
        is_space(s[i]),
    ensures
        read_from(s, file, i, progress) == read_from(s, file, i + 1, progress),
{
    assert(gap_end(s, i) == gap_end(s, i + 1));
}

/// The progress after the statements of `list` were read.
pub open spec fn with_statements(progress: Progress, list: Seq<StatementView>) -> Progress {
    Progress { body: progress.body + list, ..progress }
}

/// Reading the text of canonical statements adds them to the body.
pub proof fn lemma_read_statements(
    s: Seq<char>,
    file: Seq<char>,
    i: int,
    end: int,
    list: Seq<StatementView>,
    progress: Progress,
)
    requires
        0 <= i <= end <= s.len(),
        s.subrange(i, end) == statements_text(list),
        canonical_statements(list, file),
    ensures
        read_from(s, file, i, progress) == read_from(s, file, end, with_statements(progress, list)),
    decreases list.len(),
{
    if list.len() == 0 {
        assert(progress.body + list =~= progress.body);
    } else {
        let x = list[0];
        let t = statement_text(x);
        let rest = list.drop_first();
        let whole = statements_text(list);
        assert(whole == t + seq!['\n'] + statements_text(rest));
        assert(s.subrange(i, i + t.len()) =~= t) by {
            assert forall|k: int| 0 <= k < t.len() implies s.subrange(i, i + t.len())[k] == t[k] by {
                assert(s.subrange(i, end)[k] == whole[k]);
            }
        }
        assert(s[i + t.len()] == '\n') by {
            assert(s.subrange(i, end)[t.len() as int] == whole[t.len() as int]);
        }
        assert(canonical_statement(x, file));
        lemma_read_statement(s, file, i, x);
        assert(gap_end(s, i) == i);
        let next = i + t.len();
        let after = progress.take(s, file, Item::Statement(x));
        assert(read_from(s, file, i, progress) == read_from(s, file, next, after));
        lemma_skip_space(s, file, next, after);
        assert(s.subrange(next + 1, end) =~= statements_text(rest)) by {
            assert forall|k: int| 0 <= k < statements_text(rest).len() implies s.subrange(
                next + 1,
                end,
            )[k] == statements_text(rest)[k] by {
                assert(s.subrange(i, end)[t.len() + 1 + k] == whole[t.len() + 1 + k]);
            }
        }
        assert forall|k: int| 0 <= k < rest.len() implies canonical_statement(
            #[trigger] rest[k],
            file,
        ) by {
            assert(rest[k] == list[k + 1]);
        }
        lemma_read_statements(s, file, next + 1, end, rest, after);
        assert(after.body + rest =~= progress.body + list);
    }
}

/// Writing canonical statements and reading the text back gives the same statements.
pub proof fn law_statements_read_back(list: Seq<StatementView>, file: Seq<char>)
    requires
        canonical_statements(list, file),
    ensures
        parse_unit(statements_text(list), file) == Ok::<AstView, Seq<DiagnosticView>>(
            AstView::Statements(list),
        ),
{
    let s = statements_text(list);
    assert(s.subrange(0, s.len() as int) =~= s);
    lemma_read_statements(s, file, 0, s.len() as int, list, Progress::start());
    assert(Progress::start().body + list =~= list);
}

/// Whether `name` is a function name of the file `file`: two identifiers
/// with a dot between them, the first of which `file` starts with.
pub open spec fn canonical_name(name: Seq<char>, file: Seq<char>) -> bool {
    let dot = find_from(name, '.', 0);
    &&& 0 <= dot < name.len()
    &&& is_name(name.take(dot))
    &&& is_name(name.subrange(dot + 1, name.len() as int))
    &&& name.take(dot).is_prefix_of(file)
}

/// Whether the reader gives back `f` for its text.
pub open spec fn canonical_function(f: FunctionView, file: Seq<char>) -> bool {
    canonical_name(f.name, file) && canonical_statements(f.statements, file)
}

/// Whether every function of `fs` is canonical.
pub open spec fn canonical_functions(fs: Seq<FunctionView>, file: Seq<char>) -> bool {
    forall|i: int| 0 <= i < fs.len() ==> canonical_function(#[trigger] fs[i], file)
}

/// Whether the reader gives back `ast` for its text. A unit of functions
/// has at least one: without any its text is empty, as that of no statements.
pub open spec fn canonical_unit(ast: AstView, file: Seq<char>) -> bool {
    match ast {
        AstView::Statements(list) => canonical_statements(list, file),
        AstView::SingleFile(fs) => fs.len() > 0 && canonical_functions(fs, file),
    }
}

proof fn lemma_function_name_clean(name: Seq<char>, file: Seq<char>)
    requires
        canonical_name(name, file),
    ensures
        all_clean(name),
        name.len() >= 1,
{
    let dot = find_from(name, '.', 0);
    let first = name.take(dot);
    let second = name.subrange(dot + 1, name.len() as int);
    lemma_name_clean(first);
    lemma_name_clean(second);
    crate::text::lemma_find_meaning(name, '.', 0);
    assert forall|k: int| 0 <= k < name.len() implies clean(#[trigger] name[k]) by {
        if k < dot {
            assert(first[k] == name[k]);
        } else if k > dot {
            assert(second[k - dot - 1] == name[k]);
        }
    }
}

/// The reader gives back the head of a canonical function from its line.
pub proof fn lemma_read_head(s: Seq<char>, file: Seq<char>, a: int, name: Seq<char>, locals: u16)
    requires
        canonical_name(name, file),
        holds_line(s, a, header_text(name, locals)),
    ensures
        read_item(s, file, a) == Ok::<(Item, int), DiagnosticView>(
            (
                Item::Header {
                    name,
                    prefix: name.take(find_from(name, '.', 0)),
                    locals,
                    start: a + 9,
                    end: a + 9 + name.len(),
                },
                a + header_text(name, locals).len(),
            ),
        ),
        !ends_word(s, a),
{
    lemma_statement_words();
    lemma_function_name_clean(name, file);
    let number = decimal(locals as nat);
    let head = spaced("function"@, name);
    lemma_decimal_shape(locals as nat);
    lemma_index_reads(locals);
    lemma_spaced_parts(s, a, head, number);
    lemma_spaced_parts(s, a, "function"@, name);
    let a2 = a + 9;
    assert(s[a2] == name[0]) by {
        assert(s.subrange(a2, a2 + name.len())[0] == s[a2]);
    }
    assert(s[a] == "function"@[0]) by {
        assert(s.subrange(a, a + 8)[0] == s[a]);
    }
    lemma_word_at(s, a, "function"@);
    lemma_one_space(s, a + 8);
    lemma_two_words(s, a2, name, number);
    assert(read_header(s, a + 8) == Ok::<(Item, int), DiagnosticView>(
        (
            Item::Header {
                name,
                prefix: name.take(find_from(name, '.', 0)),
                locals,
                start: a + 9,
                end: a + 9 + name.len(),
            },
            a + header_text(name, locals).len(),
        ),
    ));
}

/// The progress after the functions of `fs` were read.
pub open spec fn with_functions(progress: Progress, fs: Seq<FunctionView>) -> Progress {
    if fs.len() == 0 {
        progress
    } else {
        Progress {
            done: progress.functions() + fs.drop_last(),
            open: Some((fs.last().name, fs.last().locals)),
            body: fs.last().statements,
            faults: progress.faults,
        }
    }
}

/// Reading the text of canonical functions adds them to the unit.
pub proof fn lemma_read_functions(
    s: Seq<char>,
    file: Seq<char>,
    i: int,
    end: int,
    fs: Seq<FunctionView>,
    progress: Progress,
)
    requires
        0 <= i <= end <= s.len(),
        s.subrange(i, end) == functions_text(fs),
        canonical_functions(fs, file),
        progress.open is Some || progress.body.len() == 0,
    ensures
        read_from(s, file, i, progress) == read_from(s, file, end, with_functions(progress, fs)),
    decreases fs.len(),
{
    if fs.len() > 0 {
        let f = fs[0];
        let rest = fs.drop_first();
        let head = header_text(f.name, f.locals);
        let body = statements_text(f.statements);
        let tail = functions_text(rest);
        let whole = functions_text(fs);
        assert(canonical_function(f, file));
        assert(whole == head + seq!['\n'] + body + tail);
        assert(s.subrange(i, i + head.len()) =~= head) by {
            assert forall|k: int| 0 <= k < head.len() implies s.subrange(i, i + head.len())[k]
                == head[k] by {
                assert(s.subrange(i, end)[k] == whole[k]);
            }
        }
        assert(s[i + head.len()] == '\n') by {
            assert(s.subrange(i, end)[head.len() as int] == whole[head.len() as int]);
        }
        lemma_read_head(s, file, i, f.name, f.locals);
        assert(gap_end(s, i) == i);
        let next = i + head.len();
        let item = Item::Header {
            name: f.name,
            prefix: f.name.take(find_from(f.name, '.', 0)),
            locals: f.locals,
            start: i + 9,
            end: i + 9 + f.name.len(),
        };
        let opened = progress.take(s, file, item);
        assert(read_from(s, file, i, progress) == read_from(s, file, next, opened));
        lemma_skip_space(s, file, next, opened);
        let start = next + 1;
        let stop = start + body.len();
        assert(s.subrange(start, stop) =~= body) by {
            assert forall|k: int| 0 <= k < body.len() implies s.subrange(start, stop)[k]
                == body[k] by {
                assert(s.subrange(i, end)[head.len() + 1 + k] == whole[head.len() + 1 + k]);
            }
        }
        lemma_read_statements(s, file, start, stop, f.statements, opened);
        let filled = with_statements(opened, f.statements);
        assert(opened.body + f.statements =~= f.statements);
        assert(filled.functions() == progress.functions().push(f));
        assert(s.subrange(stop, end) =~= tail) by {
            assert forall|k: int| 0 <= k < tail.len() implies s.subrange(stop, end)[k]
                == tail[k] by {
                assert(s.subrange(i, end)[head.len() + 1 + body.len() + k] == whole[head.len() + 1
                    + body.len() + k]);
            }
        }
        assert forall|k: int| 0 <= k < rest.len() implies canonical_function(
            #[trigger] rest[k],
            file,
        ) by {
            assert(rest[k] == fs[k + 1]);
        }
        lemma_read_functions(s, file, stop, end, rest, filled);
        if rest.len() == 0 {
            assert(fs.drop_last() =~= Seq::<FunctionView>::empty());
            assert(progress.functions() + fs.drop_last() =~= progress.functions());
            assert(fs.last() == f);
        } else {
            assert(filled.functions() + rest.drop_last() =~= progress.functions()
                + fs.drop_last());
            assert(rest.last() == fs.last());
        }
        assert(with_functions(filled, rest) == with_functions(progress, fs));
        assert(read_from(s, file, next, opened) == read_from(s, file, start, opened));
        assert(read_from(s, file, start, opened) == read_from(s, file, stop, filled));
        assert(read_from(s, file, stop, filled) == read_from(
            s,
            file,
            end,
            with_functions(filled, rest),
        ));
    } else {
        assert(s.subrange(i, end).len() == 0);
    }
}

/// Writing a unit and reading the text back gives the same unit, provided
/// the unit is canonical: its label names are identifiers, its statics are
/// those of the file, its function names are two identifiers joined by a dot
/// of which the file name starts with the first, and a unit of functions
/// has at least one.
pub proof fn law_unit_reads_back(ast: AstView, file: Seq<char>)
    requires
        canonical_unit(ast, file),
    ensures
        parse_unit(unit_text(ast), file) == Ok::<AstView, Seq<DiagnosticView>>(ast),
{
    match ast {
        AstView::Statements(list) => law_statements_read_back(list, file),
        AstView::SingleFile(fs) => {
            let s = functions_text(fs);
            assert(s.subrange(0, s.len() as int) =~= s);
            lemma_read_functions(s, file, 0, s.len() as int, fs, Progress::start());
            let done = with_functions(Progress::start(), fs);
            assert(done.functions() =~= fs);
        },
    }
}

/// Whether what has been read so far is canonical.
pub open spec fn canonical_progress(progress: Progress, file: Seq<char>) -> bool {
    &&& canonical_functions(progress.done, file)
    &&& canonical_statements(progress.body, file)
    &&& progress.open matches Some((name, _)) ==> canonical_name(name, file)
}

/// What the reader takes for an item is canonical: a statement is, and the
/// name of a function is made of two identifiers with a dot between them.
pub proof fn lemma_item_canonical(s: Seq<char>, file: Seq<char>, a: int)
    ensures
        read_item(s, file, a) matches Ok((item, _)) ==> match item {
            Item::Statement(x) => canonical_statement(x, file),
            Item::Header { name, prefix, locals, start, end } => {
                let dot = find_from(name, '.', 0);
                &&& 0 <= dot < name.len()
                &&& prefix == name.take(dot)
                &&& is_name(prefix)
                &&& is_name(name.subrange(dot + 1, name.len() as int))
            },
        },
{
}

/// Reading goes on from canonical progress to canonical progress, unless
/// something is reported.
pub proof fn lemma_read_canonical(s: Seq<char>, file: Seq<char>, i: int, progress: Progress)
    requires
        canonical_progress(progress, file) || progress.faults.len() > 0,
    ensures
        read_from(s, file, i, progress).faults.len() == 0 ==> canonical_progress(
            read_from(s, file, i, progress),
            file,
        ),
    decreases s.len() - i,
{
    if 0 <= i <= s.len() {
        let a = gap_end(s, i);
        if a < s.len() {
            lemma_gap_end_bounds(s, i);
            lemma_item_advances(s, file, a);
            lemma_item_canonical(s, file, a);
            match read_item(s, file, a) {
                Err(fault) => {},
                Ok((item, next)) => {
                    let after = progress.take(s, file, item);
                    if progress.faults.len() == 0 {
                        match item {
                            Item::Statement(x) => {
                                assert forall|k: int| 0 <= k < after.body.len() implies canonical_statement(
                                #[trigger] after.body[k], file) by {
                                    if k < progress.body.len() {
                                        assert(after.body[k] == progress.body[k]);
                                    }
                                }
                            },
                            Item::Header { name, prefix, locals, start, end } => {
                                if after.faults.len() == 0 {
                                    let done = progress.functions();
                                    assert forall|k: int| 0 <= k < done.len() implies canonical_function(
                                    #[trigger] done[k], file) by {
                                        if k < progress.done.len() {
                                            assert(done[k] == progress.done[k]);
                                        }
                                    }
                                }
                            },
                        }
                    }
                    lemma_read_canonical(s, file, next, after);
                },
            }
        }
    }
}

/// What the reader returns is canonical.
pub proof fn lemma_parsed_canonical(s: Seq<char>, file: Seq<char>)
    ensures
        parse_unit(s, file) matches Ok(ast) ==> canonical_unit(ast, file),
{
    lemma_read_canonical(s, file, 0, Progress::start());
    let last = read_from(s, file, 0, Progress::start());
    if last.faults.len() == 0 && last.open is Some {
        let fs = last.functions();
        assert forall|k: int| 0 <= k < fs.len() implies canonical_function(#[trigger] fs[k], file) by {
            if k < last.done.len() {
                assert(fs[k] == last.done[k]);
            }
        }
    }
}

/// Reading a text, writing the unit that was read, and reading that text
/// gives the unit again.
pub proof fn law_parsed_unit_reads_back(s: Seq<char>, file: Seq<char>)
    ensures
        parse_unit(s, file) matches Ok(ast) ==> parse_unit(unit_text(ast), file) == Ok::<
            AstView,
            Seq<DiagnosticView>,
        >(ast),
{
    lemma_parsed_canonical(s, file);
    if let Ok(ast) = parse_unit(s, file) {
        law_unit_reads_back(ast, file);
    }
}

} // verus!
