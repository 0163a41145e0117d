//! What holds of every assembled program, proved from the definition of the two passes.
use vstd::prelude::*;
use crate::assembly::source::{line_body, line_end, parse_line, parse_source, LineFault};
use crate::assembly::symbols::{Fault, Symbols};
use crate::hex::hex_text;
use crate::text::lemma_find_bounds;
use crate::assembly::{
    assemble, command_word, emitted_count, first_pass, load_word, second_pass, InstructionView,
    LoadDataView,
};

verus! {

/// `b` binds every name that `a` binds, to the same address.
pub open spec fn extends(a: Symbols, b: Symbols) -> bool {
    forall|k: Seq<char>| #[trigger]
        a.table.contains_key(k) ==> b.table.contains_key(k) && b.table[k] == a.table[k]
}

/// The first pass only adds names to the predefined table, and allocates no variable.
pub proof fn lemma_first_pass_extends(p: Seq<InstructionView>)
    requires
        first_pass(p) is Ok,
    ensures
        first_pass(p) matches Ok((symbols, counter)) && extends(Symbols::predefined(), symbols)
            && symbols.next == 16 && counter == emitted_count(p),
    decreases p.len(),
{
    if p.len() > 0 {
        lemma_first_pass_extends(p.drop_last());
    }
}

/// The second pass over a prefix of `p` yields a prefix of the words of `p`,
/// one word for each word-emitting instruction, and only adds names.
pub proof fn lemma_second_pass_prefix(p: Seq<InstructionView>, symbols: Symbols, n: int)
    requires
        0 <= n <= p.len(),
        second_pass(p, symbols) is Ok,
    ensures
        second_pass(p, symbols) matches Ok((last, words)) && (second_pass(p.take(n), symbols) matches Ok(
            (mid, part),
        ) && part.len() == emitted_count(p.take(n)) && part.len() <= words.len() && part
            == words.take(part.len() as int) && extends(symbols, mid) && extends(mid, last)
            && symbols.next <= mid.next <= last.next),
    decreases p.len(),
{
    if n == p.len() {
        assert(p.take(n) =~= p);
        let words = second_pass(p, symbols)->Ok_0.1;
        if p.len() > 0 {
            lemma_second_pass_prefix(p.drop_last(), symbols, n - 1);
            assert(p.drop_last().take(n - 1) =~= p.drop_last());
        }
        assert(words.take(words.len() as int) =~= words);
    } else {
        lemma_second_pass_prefix(p.drop_last(), symbols, n);
        assert(p.drop_last().take(n) =~= p.take(n));
        let shorter = second_pass(p.drop_last(), symbols)->Ok_0.1;
        let words = second_pass(p, symbols)->Ok_0.1;
        let part = second_pass(p.take(n), symbols)->Ok_0.1;
        assert(part =~= words.take(part.len() as int));
    }
}

/// One word is emitted for each instruction that is not a label.
pub proof fn law_word_count(p: Seq<InstructionView>)
    requires
        assemble(p) is Ok,
    ensures
        assemble(p) matches Ok((_, words)) && words.len() == emitted_count(p),
{
    let declared = first_pass(p)->Ok_0.0;
    lemma_second_pass_prefix(p, declared, p.len() as int);
    assert(p.take(p.len() as int) =~= p);
}

/// The word of the instruction at position `i` stands at the number of
/// word-emitting instructions before it. If the instruction is a command the
/// word's three top bits are set; if it is a load the word's top bit is clear.
/// So the top bit is set exactly for commands.
pub proof fn law_top_bits(p: Seq<InstructionView>, i: int)
    requires
        assemble(p) is Ok,
        0 <= i < p.len(),
        p[i].emits(),
    ensures
        assemble(p) matches Ok((_, words)) && ({
            let k = emitted_count(p.take(i)) as int;
            &&& k < words.len()
            &&& p[i] is Command ==> words[k] & 0xE000 == 0xE000
            &&& p[i] is Load ==> words[k] & 0x8000 == 0
            &&& (words[k] & 0x8000 != 0 <==> p[i] is Command)
        }),
{
    let declared = first_pass(p)->Ok_0.0;
    let words = second_pass(p, declared)->Ok_0.1;
    lemma_second_pass_prefix(p, declared, i + 1);
    lemma_second_pass_prefix(p, declared, i);
    assert(p.take(i + 1).drop_last() =~= p.take(i));
    assert(p.take(i + 1).last() == p[i]);
    let k = emitted_count(p.take(i)) as int;
    let part = second_pass(p.take(i + 1), declared)->Ok_0.1;
    assert(part.len() == k + 1);
    assert(words[k] == part[k]);
    let w = words[k];
    match p[i] {
        InstructionView::Label { label } => {},
        InstructionView::Load { data } => {
            assert(forall|a: u16| #[trigger] (a & 0x7FFF) & 0x8000 == 0) by (bit_vector);
        },
        InstructionView::Command { compute, target, jump } => {
            let c = compute.spec_compile();
            let t = target.spec_compile();
            let j = jump.spec_compile();
            assert((0xE000u16 | c | t | j) & 0xE000 == 0xE000) by (bit_vector);
            assert((0xE000u16 | c | t | j) & 0x8000 != 0) by (bit_vector);
        },
    }
}

/// After assembly the symbol table still binds every predefined symbol to
/// its predefined address.
pub proof fn law_predefined_symbols_kept(p: Seq<InstructionView>, name: Seq<char>)
    requires
        assemble(p) is Ok,
        Symbols::predefined().table.contains_key(name),
    ensures
        assemble(p) matches Ok((symbols, _)) && symbols.table.contains_key(name)
            && symbols.table[name] == Symbols::predefined().table[name],
{
    lemma_first_pass_extends(p);
    let declared = first_pass(p)->Ok_0.0;
    lemma_second_pass_prefix(p, declared, 0);
}

/// The first variable of a program gets address 16, whatever labels the
/// program declares: the first pass leaves the variable counter at 16.
pub proof fn law_first_variable(p: Seq<InstructionView>, name: Seq<char>)
    requires
        first_pass(p) matches Ok((declared, _)) && !declared.table.contains_key(name),
    ensures
        first_pass(p) matches Ok((declared, _)) && (declared.resolve(name) matches Ok((_, address))
            && address == 16),
{
    lemma_first_pass_extends(p);
}

/// Two names that are resolved for the first time, one after the other, get
/// consecutive addresses, and a name once resolved keeps its address.
pub proof fn law_variables_consecutive(symbols: Symbols, first: Seq<char>, second: Seq<char>)
    requires
        !symbols.table.contains_key(first),
        !symbols.table.contains_key(second),
        first != second,
        symbols.next + 1 < u16::MAX,
    ensures
        symbols.resolve(first) matches Ok((one, a)) && a == symbols.next && (one.resolve(
            second,
        ) matches Ok((two, b)) && b == a + 1 && two.resolve(first) == Ok::<(Symbols, u16), Fault>(
            (two, a),
        ) && two.resolve(second) == Ok::<(Symbols, u16), Fault>((two, b))),
{
}

/// The variables of a program: during the second pass every newly bound
/// name gets an address from 16 up to, and not including, the final counter.
pub proof fn law_variable_range(p: Seq<InstructionView>, name: Seq<char>)
    requires
        assemble(p) is Ok,
        assemble(p)->Ok_0.0.table.contains_key(name),
        !first_pass(p)->Ok_0.0.table.contains_key(name),
    ensures
        16 <= assemble(p)->Ok_0.0.table[name] < assemble(p)->Ok_0.0.next,
{
    lemma_first_pass_extends(p);
    let declared = first_pass(p)->Ok_0.0;
    lemma_variables_in_range(p, declared, name);
}

proof fn lemma_variables_in_range(p: Seq<InstructionView>, symbols: Symbols, name: Seq<char>)
    requires
        second_pass(p, symbols) is Ok,
        second_pass(p, symbols)->Ok_0.0.table.contains_key(name),
        !symbols.table.contains_key(name),
    ensures
        symbols.next <= second_pass(p, symbols)->Ok_0.0.table[name] < second_pass(
            p,
            symbols,
        )->Ok_0.0.next,
    decreases p.len(),
{
    if p.len() > 0 {
        let before = second_pass(p.drop_last(), symbols)->Ok_0.0;
        lemma_second_pass_prefix(p.drop_last(), symbols, 0);
        if before.table.contains_key(name) {
            lemma_variables_in_range(p.drop_last(), symbols, name);
        }
    }
}

/// The word of an instruction that names no symbol.
pub open spec fn plain_word(i: InstructionView) -> u16 {
    match i {
        InstructionView::Load { data: LoadDataView::Data(n) } => load_word(n),
        InstructionView::Command { compute, target, jump } => command_word(compute, target, jump),
        _ => 0,
    }
}

/// Whether `i` is a command or loads a number.
pub open spec fn is_plain(i: InstructionView) -> bool {
    i is Command || (i matches InstructionView::Load { data } && data is Data)
}

/// A program without labels and symbols assembles to the words of its
/// instructions, one by one, with the symbol table untouched: the result
/// depends on nothing but the instructions.
pub proof fn law_plain_program(p: Seq<InstructionView>)
    requires
        forall|i: int| 0 <= i < p.len() ==> is_plain(#[trigger] p[i]),
        p.len() <= u16::MAX,
    ensures
        assemble(p) == Ok::<(Symbols, Seq<u16>), Fault>(
            (Symbols::predefined(), Seq::new(p.len(), |i: int| plain_word(p[i]))),
        ),
        first_pass(p) == Ok::<(Symbols, u16), Fault>((Symbols::predefined(), p.len() as u16)),
    decreases p.len(),
{
    if p.len() == 0 {
        assert(Seq::new(p.len(), |i: int| plain_word(p[i])) =~= Seq::<u16>::empty());
    } else {
        let q = p.drop_last();
        assert forall|i: int| 0 <= i < q.len() implies is_plain(#[trigger] q[i]) by {
            assert(q[i] == p[i]);
        }
        law_plain_program(q);
        assert(is_plain(p[p.len() - 1]));
        assert(Seq::new(q.len(), |i: int| plain_word(q[i])).push(plain_word(p.last())) =~= Seq::new(
            p.len(),
            |i: int| plain_word(p[i]),
        ));
    }
}

/// The first pass over a prefix of `p` declares a part of what the pass over `p` declares.
pub proof fn lemma_first_pass_prefix(p: Seq<InstructionView>, n: int)
    requires
        0 <= n <= p.len(),
        first_pass(p) is Ok,
    ensures
        first_pass(p) matches Ok((last, _)) && (first_pass(p.take(n)) matches Ok((mid, counter))
            && counter == emitted_count(p.take(n)) && extends(mid, last)),
    decreases p.len(),
{
    if n == p.len() {
        assert(p.take(n) =~= p);
        lemma_first_pass_extends(p);
    } else {
        lemma_first_pass_prefix(p.drop_last(), n);
        assert(p.drop_last().take(n) =~= p.take(n));
    }
}

/// After assembly a label stands for the number of word-emitting
/// instructions before its declaration: labels take no room in ROM.
pub proof fn law_label_address(p: Seq<InstructionView>, i: int)
    requires
        assemble(p) is Ok,
        0 <= i < p.len(),
        p[i] is Label,
    ensures
        assemble(p) matches Ok((symbols, _)) && symbols.table.contains_key(p[i]->label)
            && symbols.table[p[i]->label] == emitted_count(p.take(i)),
{
    lemma_first_pass_prefix(p, i + 1);
    lemma_first_pass_prefix(p, i);
    assert(p.take(i + 1).drop_last() =~= p.take(i));
    assert(p.take(i + 1).last() == p[i]);
    let declared = first_pass(p)->Ok_0.0;
    let here = first_pass(p.take(i + 1))->Ok_0.0;
    assert(here.table.contains_key(p[i]->label));
    lemma_second_pass_prefix(p, declared, 0);
}

/// A name that the second pass binds after the first `n` instructions
/// gets an address at or above the variable counter reached by then.
proof fn lemma_later_variables(p: Seq<InstructionView>, symbols: Symbols, n: int, name: Seq<char>)
    requires
        0 <= n <= p.len(),
        second_pass(p, symbols) is Ok,
        second_pass(p, symbols)->Ok_0.0.table.contains_key(name),
        !second_pass(p.take(n), symbols)->Ok_0.0.table.contains_key(name),
    ensures
        second_pass(p.take(n), symbols)->Ok_0.0.next <= second_pass(p, symbols)->Ok_0.0.table[name]
            < second_pass(p, symbols)->Ok_0.0.next,
    decreases p.len(),
{
    if n == p.len() {
        assert(p.take(n) =~= p);
    } else {
        let shorter = p.drop_last();
        assert(shorter.take(n) =~= p.take(n));
        lemma_second_pass_prefix(shorter, symbols, n);
        let before = second_pass(shorter, symbols)->Ok_0.0;
        if before.table.contains_key(name) {
            lemma_later_variables(shorter, symbols, n, name);
        }
    }
}

/// Variables get increasing addresses in the order in which they are first
/// resolved: a variable bound among the first `n` instructions has a smaller
/// address than one bound after them, and none is below 16.
pub proof fn law_variables_increase(
    p: Seq<InstructionView>,
    n: int,
    early: Seq<char>,
    late: Seq<char>,
)
    requires
        assemble(p) is Ok,
        0 <= n <= p.len(),
        !first_pass(p)->Ok_0.0.table.contains_key(early),
        second_pass(p.take(n), first_pass(p)->Ok_0.0)->Ok_0.0.table.contains_key(early),
        !second_pass(p.take(n), first_pass(p)->Ok_0.0)->Ok_0.0.table.contains_key(late),
        assemble(p)->Ok_0.0.table.contains_key(late),
    ensures
        assemble(p)->Ok_0.0.table.contains_key(early),
        16 <= assemble(p)->Ok_0.0.table[early] < assemble(p)->Ok_0.0.table[late],
{
    lemma_first_pass_extends(p);
    let declared = first_pass(p)->Ok_0.0;
    lemma_second_pass_prefix(p, declared, n);
    lemma_variables_in_range(p.take(n), declared, early);
    lemma_later_variables(p, declared, n, late);
}

/// The names that the labels of `p` declare, in order.
pub open spec fn declared_labels(p: Seq<InstructionView>) -> Seq<Seq<char>>
    decreases p.len(),
{
    if p.len() == 0 {
        Seq::empty()
    } else {
        match p.last() {
            InstructionView::Label { label } => declared_labels(p.drop_last()).push(label),
            _ => declared_labels(p.drop_last()),
        }
    }
}

/// Whether no name of `names` is a predefined symbol.
pub open spec fn none_predefined(names: Seq<Seq<char>>) -> bool {
    forall|i: int|
        0 <= i < names.len() ==> !Symbols::predefined().table.contains_key(#[trigger] names[i])
}

/// The first pass succeeds exactly if no label is declared twice, no label
/// has the name of a predefined symbol, and the instruction counter can count
/// the word-emitting instructions. The table then binds the predefined
/// symbols and the declared labels, and nothing else.
pub proof fn law_first_pass_accepts(p: Seq<InstructionView>)
    ensures
        first_pass(p) is Ok <==> emitted_count(p) <= u16::MAX && declared_labels(p).no_duplicates()
            && none_predefined(declared_labels(p)),
        first_pass(p) matches Ok((symbols, _)) ==> forall|k: Seq<char>| #[trigger]
            symbols.table.contains_key(k) <==> Symbols::predefined().table.contains_key(k)
                || declared_labels(p).contains(k),
    decreases p.len(),
{
    let names = declared_labels(p);
    if p.len() > 0 {
        let shorter = p.drop_last();
        let before = declared_labels(shorter);
        law_first_pass_accepts(shorter);
        if first_pass(shorter) is Ok {
            lemma_first_pass_extends(shorter);
        }
        match p.last() {
            InstructionView::Label { label } => {
                assert(names == before.push(label));
                assert forall|k: Seq<char>| names.contains(k) <==> before.contains(k) || k
                    == label by {
                    if before.contains(k) {
                        let i = choose|i: int| 0 <= i < before.len() && before[i] == k;
                        assert(names[i] == k);
                    }
                    if k == label {
                        assert(names[names.len() - 1] == k);
                    }
                }
                assert(none_predefined(names) <==> none_predefined(before)
                    && !Symbols::predefined().table.contains_key(label)) by {
                    if none_predefined(names) {
                        assert forall|i: int| 0 <= i < before.len() implies !Symbols::predefined().table.contains_key(
                        #[trigger] before[i]) by {
                            assert(names[i] == before[i]);
                        }
                        assert(names[names.len() - 1] == label);
                    }
                }
                assert(names.no_duplicates() <==> before.no_duplicates() && !before.contains(label)) by {
                    if before.no_duplicates() && !before.contains(label) {
                        assert forall|i: int, j: int|
                            0 <= i < names.len() && 0 <= j < names.len() && i != j implies names[i]
                            != names[j] by {
                            if i < before.len() && j < before.len() {
                                assert(before[i] != before[j]);
                            } else if i < before.len() {
                                assert(before.contains(before[i]));
                            } else {
                                assert(before.contains(before[j]));
                            }
                        }
                    }
                    if names.no_duplicates() {
                        assert forall|i: int, j: int|
                            0 <= i < before.len() && 0 <= j < before.len() && i != j implies before[i]
                            != before[j] by {
                            assert(names[i] != names[j]);
                        }
                        if before.contains(label) {
                            let k = choose|k: int| 0 <= k < before.len() && before[k] == label;
                            assert(names[k] == names[before.len() as int]);
                        }
                    }
                }
            },
            _ => {
                assert(names == before);
            },
        }
    }
}

/// Whether every line of `s` from position `i` on holds nothing but white
/// space and a comment.
pub open spec fn only_blank_lines(s: Seq<char>, i: int) -> bool
    decreases s.len() + 1 - i,
{
    if i < 0 || i >= s.len() {
        true
    } else {
        proof {
            lemma_find_bounds(s.subrange(i, s.len() as int), '\n', 0);
        }
        line_body(s.subrange(i, line_end(s, i))).len() == 0 && only_blank_lines(
            s,
            line_end(s, i) + 1,
        )
    }
}

/// A text of blank lines and comments holds no instruction.
pub proof fn lemma_blank_source(s: Seq<char>, i: int)
    requires
        only_blank_lines(s, i),
    ensures
        parse_source(s, i) == Ok::<Seq<InstructionView>, LineFault>(Seq::empty()),
    decreases s.len() + 1 - i,
{
    if 0 <= i < s.len() {
        lemma_find_bounds(s.subrange(i, s.len() as int), '\n', 0);
        lemma_blank_source(s, line_end(s, i) + 1);
        assert(parse_line(s.subrange(i, line_end(s, i))) == Ok::<Option<InstructionView>, LineFault>(
            None,
        ));
    }
}

/// A program text that holds only blank lines and comments assembles to no
/// word at all, and its output text is empty.
pub proof fn law_blank_program(s: Seq<char>)
    requires
        only_blank_lines(s, 0),
    ensures
        parse_source(s, 0) matches Ok(program) && (assemble(program) matches Ok((symbols, words))
            && symbols == Symbols::predefined() && words.len() == 0 && hex_text(words).len() == 0),
{
    lemma_blank_source(s, 0);
}

/// Whether `p` declares no label.
pub open spec fn label_free(p: Seq<InstructionView>) -> bool {
    forall|k: int| 0 <= k < p.len() ==> !(#[trigger] p[k] is Label)
}

/// The labels of two programs joined are the labels of the first, then those of the second.
pub proof fn lemma_declared_labels_concat(a: Seq<InstructionView>, b: Seq<InstructionView>)
    ensures
        declared_labels(a + b) == declared_labels(a) + declared_labels(b),
    decreases b.len(),
{
    if b.len() == 0 {
        assert(a + b =~= a);
        assert(declared_labels(a) + declared_labels(b) =~= declared_labels(a));
    } else {
        assert((a + b).drop_last() =~= a + b.drop_last());
        assert((a + b).last() == b.last());
        lemma_declared_labels_concat(a, b.drop_last());
        match b.last() {
            InstructionView::Label { label } => {
                assert(declared_labels(a + b) =~= declared_labels(a) + declared_labels(b));
            },
            _ => {},
        }
    }
}

/// A program without label declarations declares no label.
pub proof fn lemma_label_free_declares_none(p: Seq<InstructionView>)
    requires
        label_free(p),
    ensures
        declared_labels(p) == Seq::<Seq<char>>::empty(),
    decreases p.len(),
{
    if p.len() > 0 {
        assert(!(p[p.len() - 1] is Label));
        assert forall|k: int| 0 <= k < p.drop_last().len() implies !(#[trigger] p.drop_last()[k] is Label) by {
            assert(p.drop_last()[k] == p[k]);
        }
        lemma_label_free_declares_none(p.drop_last());
    }
}

/// Two programs without label declarations make one when joined.
pub proof fn lemma_label_free_concat(a: Seq<InstructionView>, b: Seq<InstructionView>)
    requires
        label_free(a),
        label_free(b),
    ensures
        label_free(a + b),
{
    assert forall|k: int| 0 <= k < (a + b).len() implies !(#[trigger] (a + b)[k] is Label) by {
        if k < a.len() {
            assert((a + b)[k] == a[k]);
        } else {
            assert((a + b)[k] == b[k - a.len()]);
        }
    }
}

/// A program of one label declaration declares that label.
pub proof fn lemma_single_label(name: Seq<char>)
    ensures
        declared_labels(seq![InstructionView::Label { label: name }]) == seq![name],
{
    let p = seq![InstructionView::Label { label: name }];
    assert(p.drop_last() =~= Seq::<InstructionView>::empty());
    assert(declared_labels(p.drop_last()) =~= Seq::<Seq<char>>::empty());
    assert(p.last() == InstructionView::Label { label: name });
    assert(declared_labels(p) =~= seq![name]);
}

} // verus!
