//! What holds of the labels that lowering draws.
use vstd::prelude::*;
use crate::assembly::laws::{
    label_free, lemma_declared_labels_concat, lemma_label_free_concat,
    lemma_label_free_declares_none, lemma_single_label,
};
use crate::text::{find_from, lemma_find_meaning};
use crate::vm::compiler::{
    assign, at, clear_locals, function_label, lower_all, lower_function, return_sequence, to_a,
    to_m,
};
use crate::assembly::Compute;
use crate::vm::lower_functions;
use crate::assembly::Jump;
use crate::text::lemma_decimal_injective;
use crate::vm::compiler::{all_in_range, compare, labels_drawn, lower, mark, statement_label};
use crate::vm::parser::{is_name, is_name_char};
use crate::vm::{check_functions, check_statements, labels_in, AstView, FunctionView, StatementView};

verus! {

/// Labels drawn at different counts differ.
pub proof fn law_statement_labels_distinct(file: Seq<char>, n: nat, m: nat)
    requires
        n != m,
    ensures
        statement_label(file, n) != statement_label(file, m),
{
    let prefix = file + "-stmt-"@;
    let a = statement_label(file, n);
    let b = statement_label(file, m);
    if a == b {
        assert(a.subrange(prefix.len() as int, a.len() as int) =~= crate::text::decimal(n));
        assert(b.subrange(prefix.len() as int, b.len() as int) =~= crate::text::decimal(m));
        lemma_decimal_injective(n, m);
    }
}

/// A comparison declares exactly two labels, the two it was given, and
/// every other instruction of it is a load or a command.
pub proof fn law_comparison_declares_two(yes: Seq<char>, end: Seq<char>, jump: Jump)
    ensures
        compare(yes, end, jump).len() == 21,
        compare(yes, end, jump)[13] == mark(yes),
        compare(yes, end, jump)[15] == mark(end),
        forall|k: int|
            0 <= k < 21 && k != 13 && k != 15 ==> !(#[trigger] compare(yes, end, jump)[k] is Label),
{
}

/// The comparison at position `i` of a list draws the two labels after
/// those of the statements before it, and they differ from each other.
pub proof fn law_comparison_draws_fresh(s: Seq<StatementView>, file: Seq<char>, drawn: nat, i: int)
    requires
        0 <= i < s.len(),
        s[i].labels_drawn() == 2,
    ensures
        ({
            let at = drawn + labels_drawn(s.take(i));
            let code = lower(s[i], file, at);
            &&& code.len() == 21
            &&& code[13] == mark(statement_label(file, at))
            &&& code[15] == mark(statement_label(file, at + 1))
            &&& statement_label(file, at) != statement_label(file, at + 1)
        }),
{
    let at = drawn + labels_drawn(s.take(i));
    law_statement_labels_distinct(file, at, at + 1);
    law_comparison_declares_two(
        statement_label(file, at),
        statement_label(file, at + 1),
        Jump::JEQ,
    );
    law_comparison_declares_two(
        statement_label(file, at),
        statement_label(file, at + 1),
        Jump::JLT,
    );
    law_comparison_declares_two(
        statement_label(file, at),
        statement_label(file, at + 1),
        Jump::JGT,
    );
}

/// A later statement starts after the labels of every earlier comparison.
pub proof fn lemma_draws_advance(s: Seq<StatementView>, i: int, j: int)
    requires
        0 <= i < j <= s.len(),
    ensures
        labels_drawn(s.take(i)) + s[i].labels_drawn() <= labels_drawn(s.take(j)),
    decreases j - i,
{
    assert(s.take(i + 1).drop_last() =~= s.take(i));
    if j > i + 1 {
        lemma_draws_advance(s, i, j - 1);
        assert(s.take(j).drop_last() =~= s.take(j - 1));
    }
}

/// Two comparisons of one compilation share no label: the four labels
/// that the comparisons at positions `i` and `j` draw are pairwise different.
pub proof fn law_comparison_labels_unique(
    s: Seq<StatementView>,
    file: Seq<char>,
    drawn: nat,
    i: int,
    j: int,
)
    requires
        0 <= i < j < s.len(),
        s[i].labels_drawn() == 2,
        s[j].labels_drawn() == 2,
    ensures
        ({
            let a = drawn + labels_drawn(s.take(i));
            let b = drawn + labels_drawn(s.take(j));
            &&& statement_label(file, a) != statement_label(file, b)
            &&& statement_label(file, a) != statement_label(file, b + 1)
            &&& statement_label(file, a + 1) != statement_label(file, b)
            &&& statement_label(file, a + 1) != statement_label(file, b + 1)
            &&& statement_label(file, a) != statement_label(file, a + 1)
            &&& statement_label(file, b) != statement_label(file, b + 1)
        }),
{
    lemma_draws_advance(s, i, j);
    let a = drawn + labels_drawn(s.take(i));
    let b = drawn + labels_drawn(s.take(j));
    law_statement_labels_distinct(file, a, b);
    law_statement_labels_distinct(file, a, b + 1);
    law_statement_labels_distinct(file, a + 1, b);
    law_statement_labels_distinct(file, a + 1, b + 1);
    law_statement_labels_distinct(file, a, a + 1);
    law_statement_labels_distinct(file, b, b + 1);
}

/// The names that the `label` statements of `s` declare, in order.
pub open spec fn declared_labels(s: Seq<StatementView>) -> Seq<Seq<char>>
    decreases s.len(),
{
    if s.len() == 0 {
        Seq::empty()
    } else {
        match s.last() {
            StatementView::Label(l) => declared_labels(s.drop_last()).push(l),
            _ => declared_labels(s.drop_last()),
        }
    }
}

/// The names that the bodies of `fs` declare, in order.
pub open spec fn declared_in(fs: Seq<FunctionView>) -> Seq<Seq<char>>
    decreases fs.len(),
{
    if fs.len() == 0 {
        Seq::empty()
    } else {
        declared_in(fs.drop_last()) + declared_labels(fs.last().statements)
    }
}

/// Whether every statement of every function of `fs` has its index in range.
pub open spec fn functions_in_range(fs: Seq<FunctionView>) -> bool {
    forall|i: int| 0 <= i < fs.len() ==> all_in_range((#[trigger] fs[i]).statements)
}

proof fn lemma_push_fresh(names: Seq<Seq<char>>, l: Seq<char>)
    ensures
        names.push(l).no_duplicates() <==> names.no_duplicates() && !names.contains(l),
{
    let longer = names.push(l);
    if names.no_duplicates() && !names.contains(l) {
        assert forall|i: int, j: int|
            0 <= i < longer.len() && 0 <= j < longer.len() && i != j implies longer[i]
            != longer[j] by {
            if i < names.len() && j < names.len() {
                assert(names[i] != names[j]);
            } else if i < names.len() {
                assert(names.contains(names[i]));
            } else {
                assert(names.contains(names[j]));
            }
        }
    }
    if longer.no_duplicates() {
        assert forall|i: int, j: int|
            0 <= i < names.len() && 0 <= j < names.len() && i != j implies names[i] != names[j] by {
            assert(longer[i] != longer[j]);
        }
        if names.contains(l) {
            let k = choose|k: int| 0 <= k < names.len() && names[k] == l;
            assert(longer[k] == longer[names.len() as int]);
        }
    }
}

proof fn lemma_prefix_duplicates(a: Seq<Seq<char>>, b: Seq<Seq<char>>)
    requires
        !a.no_duplicates(),
    ensures
        !(a + b).no_duplicates(),
{
    let (i, j) = choose|i: int, j: int|
        0 <= i < a.len() && 0 <= j < a.len() && i != j && a[i] == a[j];
    assert((a + b)[i] == (a + b)[j]);
}

/// A list of statements passes the check exactly if every index is in
/// range and no label name is declared twice, the names in `seen` counted
/// as declared before. The names after the check are those, in order.
pub proof fn law_checked_statements(s: Seq<StatementView>, seen: Seq<Seq<char>>)
    requires
        seen.no_duplicates(),
    ensures
        check_statements(s, seen) is Ok <==> all_in_range(s) && (seen + declared_labels(
            s,
        )).no_duplicates(),
        check_statements(s, seen) matches Ok(names) ==> names == seen + declared_labels(s),
    decreases s.len(),
{
    if s.len() == 0 {
        assert(seen + declared_labels(s) =~= seen);
    } else {
        let shorter = s.drop_last();
        law_checked_statements(shorter, seen);
        let before = seen + declared_labels(shorter);
        assert forall|i: int| 0 <= i < shorter.len() implies shorter[i] == s[i] by {}
        assert(all_in_range(s) <==> all_in_range(shorter) && s.last().in_range()) by {
            if all_in_range(s) {
                assert forall|i: int| 0 <= i < shorter.len() implies (#[trigger] shorter[i]).in_range() by {
                    assert(s[i].in_range());
                }
                assert(s[s.len() - 1].in_range());
            }
            if all_in_range(shorter) && s.last().in_range() {
                assert forall|i: int| 0 <= i < s.len() implies (#[trigger] s[i]).in_range() by {
                    if i < shorter.len() {
                        assert(shorter[i].in_range());
                    }
                }
            }
        }
        match s.last() {
            StatementView::Label(l) => {
                assert(seen + declared_labels(s) =~= before.push(l));
                lemma_push_fresh(before, l);
            },
            _ => {
                assert(seen + declared_labels(s) == before);
            },
        }
    }
}

/// The functions of a file pass the check exactly if every index is in
/// range and no label name is declared twice in the whole file.
pub proof fn law_checked_functions(fs: Seq<FunctionView>)
    ensures
        check_functions(fs, Seq::empty()) is Ok <==> functions_in_range(fs) && declared_in(
            fs,
        ).no_duplicates(),
        check_functions(fs, Seq::empty()) matches Ok(names) ==> names == declared_in(fs),
    decreases fs.len(),
{
    if fs.len() > 0 {
        let shorter = fs.drop_last();
        law_checked_functions(shorter);
        let before = declared_in(shorter);
        assert(functions_in_range(fs) <==> functions_in_range(shorter) && all_in_range(
            fs.last().statements,
        )) by {
            if functions_in_range(fs) {
                assert forall|i: int| 0 <= i < shorter.len() implies all_in_range(
                    (#[trigger] shorter[i]).statements,
                ) by {
                    assert(all_in_range(fs[i].statements));
                }
                assert(all_in_range(fs[fs.len() - 1].statements));
            }
            if functions_in_range(shorter) && all_in_range(fs.last().statements) {
                assert forall|i: int| 0 <= i < fs.len() implies all_in_range(
                    (#[trigger] fs[i]).statements,
                ) by {
                    if i < shorter.len() {
                        assert(all_in_range(shorter[i].statements));
                    }
                }
            }
        }
        if before.no_duplicates() {
            law_checked_statements(fs.last().statements, before);
        } else {
            lemma_prefix_duplicates(before, declared_labels(fs.last().statements));
        }
    }
}

/// A unit is free of faults exactly if every `temp` index is at most 7,
/// every `pointer` index at most 1, and no label name is declared twice.
pub proof fn law_checked_unit(ast: AstView)
    ensures
        ast.check() is Ok <==> match ast {
            AstView::Statements(s) => all_in_range(s) && declared_labels(s).no_duplicates(),
            AstView::SingleFile(fs) => functions_in_range(fs) && declared_in(fs).no_duplicates(),
        },
{
    match ast {
        AstView::Statements(s) => {
            law_checked_statements(s, Seq::empty());
            assert(Seq::<Seq<char>>::empty() + declared_labels(s) =~= declared_labels(s));
        },
        AstView::SingleFile(fs) => law_checked_functions(fs),
    }
}

/// A later function starts after the labels of every earlier one.
pub proof fn lemma_function_draws_advance(fs: Seq<FunctionView>, i: int, j: int)
    requires
        0 <= i < j <= fs.len(),
    ensures
        labels_in(fs.take(i)) + labels_drawn(fs[i].statements) <= labels_in(fs.take(j)),
    decreases j - i,
{
    assert(fs.take(i + 1).drop_last() =~= fs.take(i));
    if j > i + 1 {
        lemma_function_draws_advance(fs, i, j - 1);
        assert(fs.take(j).drop_last() =~= fs.take(j - 1));
    }
}

/// Comparisons in two functions of one file share no label: the labels
/// of the comparison at position `i` of the function at `f` differ from
/// those of the comparison at position `j` of the later function at `g`.
pub proof fn law_function_labels_unique(
    fs: Seq<FunctionView>,
    file: Seq<char>,
    drawn: nat,
    f: int,
    i: int,
    g: int,
    j: int,
)
    requires
        0 <= f < g < fs.len(),
        0 <= i < fs[f].statements.len(),
        0 <= j < fs[g].statements.len(),
        fs[f].statements[i].labels_drawn() == 2,
        fs[g].statements[j].labels_drawn() == 2,
    ensures
        ({
            let a = drawn + labels_in(fs.take(f)) + labels_drawn(fs[f].statements.take(i));
            let b = drawn + labels_in(fs.take(g)) + labels_drawn(fs[g].statements.take(j));
            &&& statement_label(file, a) != statement_label(file, b)
            &&& statement_label(file, a) != statement_label(file, b + 1)
            &&& statement_label(file, a + 1) != statement_label(file, b)
            &&& statement_label(file, a + 1) != statement_label(file, b + 1)
        }),
{
    lemma_function_draws_advance(fs, f, g);
    lemma_draws_advance(fs[f].statements, i, fs[f].statements.len() as int);
    assert(fs[f].statements.take(fs[f].statements.len() as int) =~= fs[f].statements);
    let a = drawn + labels_in(fs.take(f)) + labels_drawn(fs[f].statements.take(i));
    let b = drawn + labels_in(fs.take(g)) + labels_drawn(fs[g].statements.take(j));
    law_statement_labels_distinct(file, a, b);
    law_statement_labels_distinct(file, a, b + 1);
    law_statement_labels_distinct(file, a + 1, b);
    law_statement_labels_distinct(file, a + 1, b + 1);
}

/// A label that is an identifier is none of the labels that comparisons
/// draw: those hold a hyphen.
pub proof fn law_drawn_labels_apart(file: Seq<char>, n: nat, name: Seq<char>)
    requires
        is_name(name),
    ensures
        statement_label(file, n) != name,
{
    reveal_strlit("-stmt-");
    let label = statement_label(file, n);
    assert(label[file.len() as int] == "-stmt-"@[0]);
    if label == name && file.len() > 0 {
        assert(is_name_char(name[file.len() as int]));
    }
}

/// The templates without a branch target of their own declare no label.
proof fn lemma_templates_label_free(x: StatementView, file: Seq<char>, n: nat)
    requires
        !(x is Label),
        x.labels_drawn() == 0,
    ensures
        label_free(lower(x, file, n)),
{
    match x {
        StatementView::Return => {
            assert(label_free(return_sequence()));
        },
        _ => {},
    }
}

/// The labels that the assembly of the statement `x` declares: its own
/// name for a `label`, the two drawn labels for a comparison, none otherwise.
pub open spec fn statement_labels(x: StatementView, file: Seq<char>, n: nat) -> Seq<Seq<char>> {
    match x {
        StatementView::Label(l) => seq![l],
        StatementView::Eq | StatementView::Lt | StatementView::Gt => seq![
            statement_label(file, n),
            statement_label(file, n + 1),
        ],
        _ => Seq::empty(),
    }
}

/// The assembly of a statement declares exactly its labels.
pub proof fn lemma_statement_declares(x: StatementView, file: Seq<char>, n: nat)
    ensures
        crate::assembly::laws::declared_labels(lower(x, file, n)) == statement_labels(x, file, n),
{
    let code = lower(x, file, n);
    if x is Label {
        lemma_single_label(x->Label_0);
    } else if x.labels_drawn() == 0 {
        lemma_templates_label_free(x, file, n);
        lemma_label_free_declares_none(code);
    } else {
        let yes = statement_label(file, n);
        let end = statement_label(file, n + 1);
        law_comparison_declares_two(yes, end, Jump::JEQ);
        law_comparison_declares_two(yes, end, Jump::JLT);
        law_comparison_declares_two(yes, end, Jump::JGT);
        let a = code.take(13);
        let b = code.subrange(14, 15);
        let c = code.subrange(16, 21);
        assert(code =~= a + seq![mark(yes)] + b + seq![mark(end)] + c);
        assert(label_free(a) && label_free(b) && label_free(c)) by {
            assert forall|k: int| 0 <= k < a.len() implies !(#[trigger] a[k] is Label) by {
                assert(a[k] == code[k]);
            }
            assert forall|k: int| 0 <= k < b.len() implies !(#[trigger] b[k] is Label) by {
                assert(b[k] == code[k + 14]);
            }
            assert forall|k: int| 0 <= k < c.len() implies !(#[trigger] c[k] is Label) by {
                assert(c[k] == code[k + 16]);
            }
        }
        lemma_label_free_declares_none(a);
        lemma_label_free_declares_none(b);
        lemma_label_free_declares_none(c);
        let one = seq![mark(yes)];
        let two = seq![mark(end)];
        lemma_single_label(yes);
        lemma_single_label(end);
        lemma_declared_labels_concat(a, one);
        lemma_declared_labels_concat(a + one, b);
        lemma_declared_labels_concat(a + one + b, two);
        lemma_declared_labels_concat(a + one + b + two, c);
        assert(crate::assembly::laws::declared_labels(code) =~= seq![yes, end]);
    }
}

/// The labels that the assembly of the list `s` declares, in order, when
/// `drawn` labels were drawn before.
pub open spec fn list_labels(s: Seq<StatementView>, file: Seq<char>, drawn: nat) -> Seq<Seq<char>>
    decreases s.len(),
{
    if s.len() == 0 {
        Seq::empty()
    } else {
        list_labels(s.drop_last(), file, drawn) + statement_labels(
            s.last(),
            file,
            drawn + labels_drawn(s.drop_last()),
        )
    }
}

/// The assembly of a list of statements declares exactly the labels of its statements.
pub proof fn lemma_list_declares(s: Seq<StatementView>, file: Seq<char>, drawn: nat)
    ensures
        crate::assembly::laws::declared_labels(lower_all(s, file, drawn)) == list_labels(
            s,
            file,
            drawn,
        ),
    decreases s.len(),
{
    if s.len() == 0 {
        lemma_label_free_declares_none(lower_all(s, file, drawn));
    } else {
        lemma_list_declares(s.drop_last(), file, drawn);
        lemma_statement_declares(s.last(), file, drawn + labels_drawn(s.drop_last()));
        lemma_declared_labels_concat(
            lower_all(s.drop_last(), file, drawn),
            lower(s.last(), file, drawn + labels_drawn(s.drop_last())),
        );
    }
}

/// Whether `name` is one of the `count` labels drawn after the first `drawn`.
pub open spec fn drawn_among(file: Seq<char>, drawn: nat, count: nat, name: Seq<char>) -> bool {
    exists|i: nat| i < count && name == #[trigger] statement_label(file, drawn + i)
}

/// Whether every name of `names` is an identifier.
pub open spec fn names_only(names: Seq<Seq<char>>) -> bool {
    forall|i: int| 0 <= i < names.len() ==> is_name(#[trigger] names[i])
}

proof fn lemma_push_contains(names: Seq<Seq<char>>, l: Seq<char>, name: Seq<char>)
    ensures
        names.push(l).contains(name) <==> names.contains(name) || name == l,
{
    let longer = names.push(l);
    if names.contains(name) {
        let k = choose|k: int| 0 <= k < names.len() && names[k] == name;
        assert(longer[k] == name);
    }
    if name == l {
        assert(longer[names.len() as int] == name);
    }
    if longer.contains(name) {
        let k = choose|k: int| 0 <= k < longer.len() && longer[k] == name;
        if k < names.len() {
            assert(names[k] == name);
        }
    }
}

proof fn lemma_names_only_push(names: Seq<Seq<char>>, l: Seq<char>)
    requires
        names_only(names.push(l)),
    ensures
        names_only(names),
        is_name(l),
{
    let longer = names.push(l);
    assert(longer[names.len() as int] == l);
    assert forall|i: int| 0 <= i < names.len() implies is_name(#[trigger] names[i]) by {
        assert(longer[i] == names[i]);
    }
}

/// The labels of the assembly of a list are the names that its `label`
/// statements declare and the labels that its comparisons draw: as many as
/// both together, each drawn label among them, and, if the declared names
/// are identifiers and differ from each other, no label twice.
pub proof fn lemma_list_labels_shape(s: Seq<StatementView>, file: Seq<char>, drawn: nat)
    ensures
        list_labels(s, file, drawn).len() == declared_labels(s).len() + labels_drawn(s),
        forall|name: Seq<char>| #[trigger]
            list_labels(s, file, drawn).contains(name) <==> declared_labels(s).contains(name)
                || drawn_among(file, drawn, labels_drawn(s), name),
        names_only(declared_labels(s)) && declared_labels(s).no_duplicates() ==> list_labels(
            s,
            file,
            drawn,
        ).no_duplicates(),
    decreases s.len(),
{
    let all = list_labels(s, file, drawn);
    if s.len() == 0 {
        assert forall|name: Seq<char>| #[trigger] all.contains(name) <==> declared_labels(s).contains(name)
            || drawn_among(file, drawn, labels_drawn(s), name) by {}
    } else {
        let shorter = s.drop_last();
        let before = list_labels(shorter, file, drawn);
        let user = declared_labels(shorter);
        let count = labels_drawn(shorter);
        let at = drawn + count;
        lemma_list_labels_shape(shorter, file, drawn);
        match s.last() {
            StatementView::Label(l) => {
                assert(all =~= before.push(l));
                assert forall|name: Seq<char>| #[trigger] all.contains(name) <==> declared_labels(
                    s,
                ).contains(name) || drawn_among(file, drawn, labels_drawn(s), name) by {
                    lemma_push_contains(before, l, name);
                    lemma_push_contains(user, l, name);
                }
                if names_only(declared_labels(s)) && declared_labels(s).no_duplicates() {
                    lemma_names_only_push(user, l);
                    lemma_push_fresh(user, l);
                    if drawn_among(file, drawn, count, l) {
                        let i = choose|i: nat| i < count && l == #[trigger] statement_label(file, drawn + i);
                        law_drawn_labels_apart(file, drawn + i, l);
                    }
                    assert(!before.contains(l));
                    lemma_push_fresh(before, l);
                }
            },
            StatementView::Eq | StatementView::Lt | StatementView::Gt => {
                let yes = statement_label(file, at);
                let end = statement_label(file, at + 1);
                assert(all =~= before.push(yes).push(end));
                assert forall|name: Seq<char>| #[trigger] all.contains(name) <==> declared_labels(
                    s,
                ).contains(name) || drawn_among(file, drawn, labels_drawn(s), name) by {
                    lemma_push_contains(before, yes, name);
                    lemma_push_contains(before.push(yes), end, name);
                    if drawn_among(file, drawn, count, name) {
                        let i = choose|i: nat|
                            i < count && name == #[trigger] statement_label(file, drawn + i);
                        assert(name == statement_label(file, drawn + i) && i < count + 2);
                    }
                    if name == yes {
                        assert(name == statement_label(file, drawn + count));
                    }
                    if name == end {
                        assert(name == statement_label(file, drawn + (count + 1) as nat));
                    }
                    if drawn_among(file, drawn, count + 2, name) {
                        let i = choose|i: nat|
                            i < count + 2 && name == #[trigger] statement_label(file, drawn + i);
                        if i < count {
                            assert(drawn_among(file, drawn, count, name));
                        }
                    }
                }
                if names_only(declared_labels(s)) && declared_labels(s).no_duplicates() {
                    lemma_fresh_draw(user, file, drawn, count, at);
                    lemma_fresh_draw(user, file, drawn, count, at + 1);
                    law_statement_labels_distinct(file, at, at + 1);
                    assert(!before.contains(yes));
                    assert(!before.contains(end));
                    lemma_push_fresh(before, yes);
                    lemma_push_contains(before, yes, end);
                    lemma_push_fresh(before.push(yes), end);
                }
            },
            _ => {
                assert(all =~= before);
            },
        }
    }
}

/// A label drawn at or after the count `count` is none of the identifiers
/// `user` and none of the labels drawn before.
proof fn lemma_fresh_draw(user: Seq<Seq<char>>, file: Seq<char>, drawn: nat, count: nat, at: nat)
    requires
        names_only(user),
        at >= drawn + count,
    ensures
        !user.contains(statement_label(file, at)),
        !drawn_among(file, drawn, count, statement_label(file, at)),
{
    let label = statement_label(file, at);
    if user.contains(label) {
        let k = choose|k: int| 0 <= k < user.len() && user[k] == label;
        law_drawn_labels_apart(file, at, user[k]);
    }
    if drawn_among(file, drawn, count, label) {
        let i = choose|i: nat| i < count && label == #[trigger] statement_label(file, drawn + i);
        law_statement_labels_distinct(file, at, drawn + i);
    }
}

/// The labels of a lowered unit of statements. If the unit passes the
/// check and its label names are identifiers, its assembly declares no label
/// twice; it declares the names of the unit and the labels that its
/// comparisons draw, two for each, and nothing else.
pub proof fn law_statement_unit_labels(s: Seq<StatementView>, file: Seq<char>, drawn: nat)
    requires
        check_statements(s, Seq::empty()) is Ok,
        names_only(declared_labels(s)),
    ensures
        ({
            let labels = crate::assembly::laws::declared_labels(lower_all(s, file, drawn));
            &&& labels.no_duplicates()
            &&& labels.len() == declared_labels(s).len() + labels_drawn(s)
            &&& forall|i: nat| i < labels_drawn(s) ==> labels.contains(#[trigger] statement_label(file, drawn + i))
            &&& forall|name: Seq<char>| #[trigger]
                labels.contains(name) ==> declared_labels(s).contains(name) || drawn_among(
                    file,
                    drawn,
                    labels_drawn(s),
                    name,
                )
        }),
{
    lemma_list_declares(s, file, drawn);
    lemma_list_labels_shape(s, file, drawn);
    law_checked_statements(s, Seq::empty());
    assert(Seq::<Seq<char>>::empty() + declared_labels(s) =~= declared_labels(s));
    let labels = list_labels(s, file, drawn);
    assert forall|i: nat| i < labels_drawn(s) implies labels.contains(
        #[trigger] statement_label(file, drawn + i),
    ) by {
        assert(drawn_among(file, drawn, labels_drawn(s), statement_label(file, drawn + i)));
    }
}

/// The labels that the assembly of the functions `fs` declares, in order:
/// for each function its own label, then the labels of its body.
pub open spec fn functions_labels(fs: Seq<FunctionView>, file: Seq<char>, drawn: nat) -> Seq<
    Seq<char>,
>
    decreases fs.len(),
{
    if fs.len() == 0 {
        Seq::empty()
    } else {
        functions_labels(fs.drop_last(), file, drawn) + seq![function_label(fs.last().name)]
            + list_labels(fs.last().statements, file, drawn + labels_in(fs.drop_last()))
    }
}

/// The labels that declare the functions of `fs`.
pub open spec fn function_heads(fs: Seq<FunctionView>) -> Seq<Seq<char>> {
    Seq::new(fs.len(), |i: int| function_label(fs[i].name))
}

/// Whether `name` is made of two identifiers with a dot between them.
pub open spec fn dotted_name(name: Seq<char>) -> bool {
    let dot = find_from(name, '.', 0);
    &&& 0 <= dot < name.len()
    &&& is_name(name.take(dot))
    &&& is_name(name.subrange(dot + 1, name.len() as int))
}

/// Whether no label of the assembly of `fs` can clash with another: the
/// names of the functions are dotted and differ from each other, and the
/// names that the `label` statements declare are identifiers and differ
/// from each other.
pub open spec fn clash_free(fs: Seq<FunctionView>) -> bool {
    &&& names_only(declared_in(fs))
    &&& declared_in(fs).no_duplicates()
    &&& function_heads(fs).no_duplicates()
    &&& forall|i: int| 0 <= i < fs.len() ==> dotted_name(#[trigger] fs[i].name)
}

proof fn lemma_clear_locals_label_free(count: nat)
    ensures
        label_free(clear_locals(count)),
    decreases count,
{
    if count > 0 {
        lemma_clear_locals_label_free((count - 1) as nat);
        let step = seq![assign(to_m(), Compute::Zero), assign(to_a(), Compute::AplusOne)];
        assert(label_free(step));
        lemma_label_free_concat(clear_locals((count - 1) as nat), step);
    }
}

/// The assembly of a function declares the function's label, then the labels of its body.
pub proof fn lemma_function_declares(f: FunctionView, file: Seq<char>, drawn: nat)
    ensures
        crate::assembly::laws::declared_labels(lower_function(f, file, drawn)) == seq![
            function_label(f.name),
        ] + list_labels(f.statements, file, drawn),
{
    let first = seq![mark(function_label(f.name))];
    let rest = seq![at("LCL"@), assign(to_a(), Compute::M)];
    let clear = clear_locals(f.locals as nat);
    let body = lower_all(f.statements, file, drawn);
    assert(lower_function(f, file, drawn) =~= first + (rest + clear) + body);
    lemma_single_label(function_label(f.name));
    lemma_clear_locals_label_free(f.locals as nat);
    assert(label_free(rest));
    lemma_label_free_concat(rest, clear);
    lemma_label_free_declares_none(rest + clear);
    lemma_list_declares(f.statements, file, drawn);
    lemma_declared_labels_concat(first, rest + clear);
    lemma_declared_labels_concat(first + (rest + clear), body);
    assert(seq![function_label(f.name)] + Seq::<Seq<char>>::empty() =~= seq![function_label(f.name)]);
}

/// The assembly of a list of functions declares exactly the labels of its functions.
pub proof fn lemma_functions_declare(fs: Seq<FunctionView>, file: Seq<char>, drawn: nat)
    ensures
        crate::assembly::laws::declared_labels(lower_functions(fs, file, drawn))
            == functions_labels(fs, file, drawn),
    decreases fs.len(),
{
    if fs.len() == 0 {
        lemma_label_free_declares_none(lower_functions(fs, file, drawn));
    } else {
        let at = drawn + labels_in(fs.drop_last());
        lemma_functions_declare(fs.drop_last(), file, drawn);
        lemma_function_declares(fs.last(), file, at);
        lemma_declared_labels_concat(
            lower_functions(fs.drop_last(), file, drawn),
            lower_function(fs.last(), file, at),
        );
        assert(functions_labels(fs, file, drawn) =~= functions_labels(fs.drop_last(), file, drawn) + (
        seq![function_label(fs.last().name)] + list_labels(fs.last().statements, file, at)));
    }
}

proof fn lemma_concat_contains(a: Seq<Seq<char>>, b: Seq<Seq<char>>, name: Seq<char>)
    ensures
        (a + b).contains(name) <==> a.contains(name) || b.contains(name),
{
    let both = a + b;
    if a.contains(name) {
        let k = choose|k: int| 0 <= k < a.len() && a[k] == name;
        assert(both[k] == name);
    }
    if b.contains(name) {
        let k = choose|k: int| 0 <= k < b.len() && b[k] == name;
        assert(both[a.len() + k] == name);
    }
    if both.contains(name) {
        let k = choose|k: int| 0 <= k < both.len() && both[k] == name;
        if k < a.len() {
            assert(a[k] == name);
        } else {
            assert(b[k - a.len()] == name);
        }
    }
}

proof fn lemma_concat_no_duplicates(a: Seq<Seq<char>>, b: Seq<Seq<char>>)
    ensures
        (a + b).no_duplicates() <==> a.no_duplicates() && b.no_duplicates() && forall|
            name: Seq<char>,
        | !(#[trigger] a.contains(name) && b.contains(name)),
{
    let both = a + b;
    if a.no_duplicates() && b.no_duplicates() && forall|name: Seq<char>|
        !(#[trigger] a.contains(name) && b.contains(name)) {
        assert forall|i: int, j: int| 0 <= i < both.len() && 0 <= j < both.len() && i != j implies both[i]
            != both[j] by {
            if i < a.len() && j >= a.len() {
                assert(a.contains(a[i]));
                assert(b.contains(b[j - a.len()]));
            } else if j < a.len() && i >= a.len() {
                assert(a.contains(a[j]));
                assert(b.contains(b[i - a.len()]));
            }
        }
    }
    if both.no_duplicates() {
        assert forall|i: int, j: int| 0 <= i < a.len() && 0 <= j < a.len() && i != j implies a[i]
            != a[j] by {
            assert(both[i] != both[j]);
        }
        assert forall|i: int, j: int| 0 <= i < b.len() && 0 <= j < b.len() && i != j implies b[i]
            != b[j] by {
            assert(both[a.len() + i] != both[a.len() + j]);
        }
        assert forall|name: Seq<char>| !(#[trigger] a.contains(name) && b.contains(name)) by {
            if a.contains(name) && b.contains(name) {
                let i = choose|i: int| 0 <= i < a.len() && a[i] == name;
                let j = choose|j: int| 0 <= j < b.len() && b[j] == name;
                assert(both[i] == both[a.len() + j]);
            }
        }
    }
}

proof fn lemma_names_only_concat(a: Seq<Seq<char>>, b: Seq<Seq<char>>)
    requires
        names_only(a + b),
    ensures
        names_only(a),
        names_only(b),
{
    assert forall|i: int| 0 <= i < a.len() implies is_name(#[trigger] a[i]) by {
        assert((a + b)[i] == a[i]);
    }
    assert forall|i: int| 0 <= i < b.len() implies is_name(#[trigger] b[i]) by {
        assert((a + b)[a.len() + i] == b[i]);
    }
}

/// The labels drawn in two runs, one after the other, are those of the one long run.
proof fn lemma_drawn_among_split(file: Seq<char>, drawn: nat, first: nat, second: nat, name: Seq<char>)
    ensures
        drawn_among(file, drawn, first + second, name) <==> drawn_among(file, drawn, first, name)
            || drawn_among(file, drawn + first, second, name),
{
    if drawn_among(file, drawn, first, name) {
        let i = choose|i: nat| i < first && name == #[trigger] statement_label(file, drawn + i);
        assert(i < first + second && name == statement_label(file, drawn + i));
    }
    if drawn_among(file, drawn + first, second, name) {
        let i = choose|i: nat| i < second && name == #[trigger] statement_label(file, drawn + first + i);
        assert(first + i < first + second && name == statement_label(file, drawn + (first + i) as nat));
    }
    if drawn_among(file, drawn, first + second, name) {
        let i = choose|i: nat| i < first + second && name == #[trigger] statement_label(file, drawn + i);
        if i >= first {
            assert(name == statement_label(file, drawn + first + (i - first) as nat));
        }
    }
}

/// The label of a function with a dotted name is no identifier and none
/// of the labels that comparisons draw.
proof fn lemma_head_apart(name: Seq<char>, file: Seq<char>, n: nat, other: Seq<char>)
    requires
        dotted_name(name),
    ensures
        function_label(name) != statement_label(file, n),
        is_name(other) ==> function_label(name) != other,
{
    reveal_strlit("function:");
    reveal_strlit("-stmt-");
    let head = function_label(name);
    let word = "function:"@;
    assert(word.len() == 9);
    assert(head[8] == word[8]);
    if is_name(other) && head == other {
        assert(is_name_char(other[8]));
    }
    let label = statement_label(file, n);
    let k = file.len() as int;
    assert("-stmt-"@.len() == 6);
    assert(label.len() > k);
    assert(head.len() == 9 + name.len());
    assert(label[k] == "-stmt-"@[0]);
    if head == label {
        if k < 9 {
            assert(head[k] == word[k]);
        } else {
            let dot = find_from(name, '.', 0);
            lemma_find_meaning(name, '.', 0);
            let j = k - 9;
            assert(head[k] == name[j]);
            if j < dot {
                assert(name.take(dot)[j] == name[j]);
                if j > 0 {
                    assert(is_name_char(name.take(dot)[j]));
                }
            } else if j > dot {
                let second = name.subrange(dot + 1, name.len() as int);
                assert(second[j - dot - 1] == name[j]);
                if j - dot - 1 > 0 {
                    assert(is_name_char(second[j - dot - 1]));
                }
            }
        }
    }
}

/// The labels of the assembly of a list of functions are the labels of the
/// functions, the names that the `label` statements declare and the labels
/// that the comparisons draw: as many as all together, and no label twice
/// if the list is clash free.
pub proof fn lemma_functions_labels_shape(fs: Seq<FunctionView>, file: Seq<char>, drawn: nat)
    ensures
        functions_labels(fs, file, drawn).len() == fs.len() + declared_in(fs).len() + labels_in(fs),
        forall|name: Seq<char>| #[trigger]
            functions_labels(fs, file, drawn).contains(name) <==> function_heads(fs).contains(name)
                || declared_in(fs).contains(name) || drawn_among(file, drawn, labels_in(fs), name),
        clash_free(fs) ==> functions_labels(fs, file, drawn).no_duplicates(),
    decreases fs.len(),
{
    let all = functions_labels(fs, file, drawn);
    if fs.len() == 0 {
        assert forall|name: Seq<char>| #[trigger] all.contains(name) <==> function_heads(fs).contains(name)
            || declared_in(fs).contains(name) || drawn_among(file, drawn, labels_in(fs), name) by {}
    } else {
        let prev = fs.drop_last();
        let f = fs.last();
        let before = functions_labels(prev, file, drawn);
        let count = labels_in(prev);
        let at = drawn + count;
        let head = function_label(f.name);
        let body = list_labels(f.statements, file, at);
        let user = declared_labels(f.statements);
        lemma_functions_labels_shape(prev, file, drawn);
        lemma_list_labels_shape(f.statements, file, at);
        assert(function_heads(fs) =~= function_heads(prev).push(head));
        assert(all =~= before.push(head) + body);
        assert forall|name: Seq<char>| #[trigger] all.contains(name) <==> function_heads(fs).contains(name)
            || declared_in(fs).contains(name) || drawn_among(file, drawn, labels_in(fs), name) by {
            lemma_concat_contains(before.push(head), body, name);
            lemma_push_contains(before, head, name);
            lemma_push_contains(function_heads(prev), head, name);
            lemma_concat_contains(declared_in(prev), user, name);
            lemma_drawn_among_split(file, drawn, count, labels_drawn(f.statements), name);
        }
        if clash_free(fs) {
            lemma_names_only_concat(declared_in(prev), user);
            lemma_concat_no_duplicates(declared_in(prev), user);
            lemma_push_fresh(function_heads(prev), head);
            assert forall|i: int| 0 <= i < prev.len() implies dotted_name(#[trigger] prev[i].name) by {
                assert(prev[i] == fs[i]);
            }
            assert(dotted_name(fs[fs.len() - 1].name));
            assert(clash_free(prev));
            // The function's label is new.
            assert(!before.contains(head)) by {
                if declared_in(prev).contains(head) {
                    let k = choose|k: int| 0 <= k < declared_in(prev).len() && declared_in(prev)[k] == head;
                    lemma_head_apart(f.name, file, 0, declared_in(prev)[k]);
                }
                if drawn_among(file, drawn, count, head) {
                    let i = choose|i: nat| i < count && head == #[trigger] statement_label(file, drawn + i);
                    lemma_head_apart(f.name, file, drawn + i, head);
                }
            }
            lemma_push_fresh(before, head);
            // The labels of the body are new.
            assert forall|name: Seq<char>| !(#[trigger] before.push(head).contains(name) && body.contains(
                name,
            )) by {
                lemma_push_contains(before, head, name);
                if body.contains(name) {
                    if user.contains(name) {
                        let k = choose|k: int| 0 <= k < user.len() && user[k] == name;
                        assert(is_name(user[k]));
                        lemma_head_apart(f.name, file, 0, name);
                        if function_heads(prev).contains(name) {
                            let j = choose|j: int| 0 <= j < prev.len() && function_heads(prev)[j] == name;
                            lemma_head_apart(prev[j].name, file, 0, name);
                        }
                        if drawn_among(file, drawn, count, name) {
                            let i = choose|i: nat|
                                i < count && name == #[trigger] statement_label(file, drawn + i);
                            law_drawn_labels_apart(file, drawn + i, name);
                        }
                    } else {
                        let i = choose|i: nat|
                            i < labels_drawn(f.statements) && name == #[trigger] statement_label(
                                file,
                                at + i,
                            );
                        lemma_head_apart(f.name, file, at + i, name);
                        if function_heads(prev).contains(name) {
                            let j = choose|j: int| 0 <= j < prev.len() && function_heads(prev)[j] == name;
                            lemma_head_apart(prev[j].name, file, at + i, name);
                        }
                        lemma_fresh_draw(declared_in(prev), file, drawn, count, at + i);
                    }
                }
            }
            lemma_concat_no_duplicates(before.push(head), body);
        }
    }
}

/// The labels of a lowered unit. If the unit passes the check, its label
/// names are identifiers, and its functions have dotted names that differ
/// from each other, then its assembly declares no label twice. It declares
/// the labels of the functions, the names of the `label` statements and the
/// labels that the comparisons draw, two for each comparison, each once.
pub proof fn law_unit_labels(ast: AstView, file: Seq<char>, drawn: nat)
    requires
        ast.check() is Ok,
        match ast {
            AstView::Statements(s) => names_only(declared_labels(s)),
            AstView::SingleFile(fs) => clash_free(fs),
        },
    ensures
        ({
            let labels = crate::assembly::laws::declared_labels(ast.lower(file, drawn));
            &&& labels.no_duplicates()
            &&& forall|i: nat| i < ast.labels() ==> labels.contains(#[trigger] statement_label(file, drawn + i))
            &&& match ast {
                AstView::Statements(s) => labels.len() == declared_labels(s).len() + ast.labels(),
                AstView::SingleFile(fs) => labels.len() == fs.len() + declared_in(fs).len()
                    + ast.labels(),
            }
        }),
{
    match ast {
        AstView::Statements(s) => law_statement_unit_labels(s, file, drawn),
        AstView::SingleFile(fs) => {
            lemma_functions_declare(fs, file, drawn);
            lemma_functions_labels_shape(fs, file, drawn);
            let labels = functions_labels(fs, file, drawn);
            assert forall|i: nat| i < labels_in(fs) implies labels.contains(
                #[trigger] statement_label(file, drawn + i),
            ) by {
                assert(drawn_among(file, drawn, labels_in(fs), statement_label(file, drawn + i)));
            }
        },
    }
}

/// The comparison that draws its labels at the count `n`: it declares the
/// two labels drawn at `n` and `n + 1`, which differ, and no other; and it
/// loads each of the two exactly once, the first before the branch and the
/// second before the jump over the true case.
pub proof fn law_comparison_in_general(file: Seq<char>, n: nat, jump: Jump)
    ensures
        ({
            let yes = statement_label(file, n);
            let end = statement_label(file, n + 1);
            let code = compare(yes, end, jump);
            &&& yes != end
            &&& code.len() == 21
            &&& forall|k: int| 0 <= k < 21 ==> (#[trigger] code[k] is Label <==> k == 13 || k == 15)
            &&& code[13] == mark(yes)
            &&& code[15] == mark(end)
            &&& forall|k: int| 0 <= k < 21 ==> (#[trigger] code[k] == at(yes) <==> k == 7)
            &&& forall|k: int| 0 <= k < 21 ==> (#[trigger] code[k] == at(end) <==> k == 11)
        }),
{
    let yes = statement_label(file, n);
    let end = statement_label(file, n + 1);
    law_statement_labels_distinct(file, n, n + 1);
    law_comparison_declares_two(yes, end, jump);
    reveal_strlit("-stmt-");
    reveal_strlit("SP");
    assert("-stmt-"@.len() == 6);
    assert("SP"@.len() == 2);
    assert(yes.len() >= 6);
    assert(end.len() >= 6);
    assert(yes != "SP"@);
    assert(end != "SP"@);
}

} // verus!
