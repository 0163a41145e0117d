//! Character classes and small text utilities shared by the two front ends.
use vstd::prelude::*;
use vstd::std_specs::iter::IteratorSpec;
use vstd::string::*;

verus! {

/// The characters that end-of-line trimming removes: the Unicode `White_Space` set.
pub open spec fn is_space(c: char) -> bool {
    let n = c as u32;
    ||| (0x09 <= n && n <= 0x0D)
    ||| n == 0x20
    ||| n == 0x85
    ||| n == 0xA0
    ||| n == 0x1680
    ||| (0x2000 <= n && n <= 0x200A)
    ||| n == 0x2028
    ||| n == 0x2029
    ||| n == 0x202F
    ||| n == 0x205F
    ||| n == 0x3000
}

/// Whether `c` is white space.
pub fn char_is_space(c: char) -> (r: bool)
    ensures
        r == is_space(c),
{
    let n: u32 = c as u32;
    (0x09 <= n && n <= 0x0D) || n == 0x20 || n == 0x85 || n == 0xA0 || n == 0x1680 || (0x2000 <= n
        && n <= 0x200A) || n == 0x2028 || n == 0x2029 || n == 0x202F || n == 0x205F || n == 0x3000
}

/// The characters of `s`, one element per Unicode scalar value.
pub fn to_chars(s: &str) -> (r: Vec<char>)
    ensures
        r@ == s@,
{
    broadcast use {axiom_spec_iter, next_postcondition};

    let n: usize = s.unicode_len();
    let mut rest = s.chars();
    let mut out: Vec<char> = Vec::new();
    loop
        invariant
            n == s@.len(),
            out@ + IteratorSpec::remaining(&rest) == s@,
        ensures
            out@ == s@,
        decreases n - out@.len(),
    {
        let ghost before = IteratorSpec::remaining(&rest);
        match rest.next() {
            Some(c) => {
                out.push(c);
                assert(out@ + IteratorSpec::remaining(&rest) =~= s@);
            },
            None => {
                assert(out@ + before =~= out@);
                break ;
            },
        }
    }
    out
}

/// The decimal digit that stands for `d`, for `d` below ten.
pub open spec fn digit_char(d: nat) -> char {
    if d == 0 {
        '0'
    } else if d == 1 {
        '1'
    } else if d == 2 {
        '2'
    } else if d == 3 {
        '3'
    } else if d == 4 {
        '4'
    } else if d == 5 {
        '5'
    } else if d == 6 {
        '6'
    } else if d == 7 {
        '7'
    } else if d == 8 {
        '8'
    } else {
        '9'
    }
}

/// Whether `c` is one of the ten ASCII digits.
pub open spec fn is_digit(c: char) -> bool {
    '0' <= c && c <= '9'
}

/// The number that the ASCII digit `c` stands for.
pub open spec fn digit_value(c: char) -> nat {
    (c as u32 - '0' as u32) as nat
}

/// The decimal numeral of `n`: no sign, no leading zero, `0` for zero.
pub open spec fn decimal(n: nat) -> Seq<char>
    decreases n,
{
    if n < 10 {
        seq![digit_char(n)]
    } else {
        decimal(n / 10).push(digit_char(n % 10))
    }
}

/// The number that a string of ASCII digits stands for, read in base ten.
pub open spec fn decimal_value(s: Seq<char>) -> nat
    decreases s.len(),
{
    if s.len() == 0 {
        0
    } else {
        10 * decimal_value(s.drop_last()) + digit_value(s.last())
    }
}

/// Whether every character of `s` is an ASCII digit.
pub open spec fn all_digits(s: Seq<char>) -> bool {
    forall|i: int| 0 <= i < s.len() ==> is_digit(#[trigger] s[i])
}

/// Reading a numeral gives back the number it was written for.
pub proof fn lemma_decimal_value(n: nat)
    ensures
        decimal_value(decimal(n)) == n,
        all_digits(decimal(n)),
        decimal(n).len() >= 1,
    decreases n,
{
    if n < 10 {
        let s = seq![digit_char(n)];
        assert(s.drop_last() =~= Seq::<char>::empty());
        assert(decimal_value(s.drop_last()) == 0);
        assert(s.last() == digit_char(n));
    } else {
        lemma_decimal_value(n / 10);
        let s = decimal(n / 10).push(digit_char(n % 10));
        assert(s.drop_last() =~= decimal(n / 10));
        assert(s.last() == digit_char(n % 10));
    }
}

/// Different numbers have different numerals.
pub proof fn lemma_decimal_injective(n: nat, m: nat)
    requires
        decimal(n) == decimal(m),
    ensures
        n == m,
{
    lemma_decimal_value(n);
    lemma_decimal_value(m);
}

fn digit_text(d: u64) -> (r: &'static str)
    requires
        d < 10,
    ensures
        r@ == seq![digit_char(d as nat)],
{
    proof {
        reveal_strlit("0");
        reveal_strlit("1");
        reveal_strlit("2");
        reveal_strlit("3");
        reveal_strlit("4");
        reveal_strlit("5");
        reveal_strlit("6");
        reveal_strlit("7");
        reveal_strlit("8");
        reveal_strlit("9");
    }
    let r: &'static str = if d == 0 {
        "0"
    } else if d == 1 {
        "1"
    } else if d == 2 {
        "2"
    } else if d == 3 {
        "3"
    } else if d == 4 {
        "4"
    } else if d == 5 {
        "5"
    } else if d == 6 {
        "6"
    } else if d == 7 {
        "7"
    } else if d == 8 {
        "8"
    } else {
        "9"
    };
    assert(r@ =~= seq![digit_char(d as nat)]);
    r
}

/// Writes `n` in decimal.
pub fn decimal_string(n: u64) -> (r: String)
    ensures
        r@ == decimal(n as nat),
    decreases n,
{
    if n < 10 {
        String::from_str(digit_text(n))
    } else {
        let mut s: String = decimal_string(n / 10);
        s.append(digit_text(n % 10));
        assert(s@ =~= decimal((n / 10) as nat).push(digit_char((n % 10) as nat)));
        s
    }
}

/// `String::push` of the standard library. Believed, not proved: after the
/// call the string holds the characters it held before, in their order, and
/// then `c`.
pub assume_specification[ String::push ](s: &mut String, c: char)
    ensures
        final(s)@ == old(s)@.push(c),
;

/// A set of characters to skip or strip.
#[derive(Debug, Clone, Copy, PartialEq, Eq, Structural)]
pub enum CharSet {
    /// White space.
    Spaces,
    /// Space and tab.
    Blanks,
    /// The two round brackets.
    Parentheses,
}

impl CharSet {
    /// Whether `c` belongs to the set.
    pub open spec fn holds(self, c: char) -> bool {
        match self {
            CharSet::Spaces => is_space(c),
            CharSet::Blanks => c == ' ' || c == '\t',
            CharSet::Parentheses => c == '(' || c == ')',
        }
    }

    /// Whether `c` belongs to the set.
    pub fn has(&self, c: char) -> (r: bool)
        ensures
            r == self.holds(c),
    {
        match self {
            CharSet::Spaces => char_is_space(c),
            CharSet::Blanks => c == ' ' || c == '\t',
            CharSet::Parentheses => c == '(' || c == ')',
        }
    }
}

/// The first position from `i` on whose character is not in `set`; the
/// length of `s` if there is none.
pub open spec fn lead(s: Seq<char>, set: CharSet, i: int) -> int
    decreases s.len() - i,
{
    if i < 0 || i >= s.len() || !set.holds(s[i]) {
        i
    } else {
        lead(s, set, i + 1)
    }
}

/// The end of the text that is left of `s[lo..j]` when the characters of
/// `set` at its end are taken away.
pub open spec fn trail(s: Seq<char>, set: CharSet, lo: int, j: int) -> int
    decreases j - lo,
{
    if j <= lo || j > s.len() || !set.holds(s[j - 1]) {
        j
    } else {
        trail(s, set, lo, j - 1)
    }
}

/// `s` without the characters of `set` at its two ends.
pub open spec fn strip(s: Seq<char>, set: CharSet) -> Seq<char> {
    let from = lead(s, set, 0);
    s.subrange(from, trail(s, set, from, s.len() as int))
}

/// The first position from `i` on that holds `c`; the length of `s` if there is none.
pub open spec fn find_from(s: Seq<char>, c: char, i: int) -> int
    decreases s.len() - i,
{
    if i < 0 || i >= s.len() || s[i] == c {
        i
    } else {
        find_from(s, c, i + 1)
    }
}

/// The first position from `i` on where `//` starts; the length of `s` if there is none.
pub open spec fn find_comment(s: Seq<char>, i: int) -> int
    decreases s.len() - i,
{
    if i < 0 || i >= s.len() {
        i
    } else if s[i] == '/' && i + 1 < s.len() && s[i + 1] == '/' {
        i
    } else {
        find_comment(s, i + 1)
    }
}

/// What `lead` finds: only characters of `set` stand between `i` and the
/// result, and the character at the result, if there is one, is not in `set`.
pub proof fn lemma_lead_meaning(s: Seq<char>, set: CharSet, i: int)
    requires
        0 <= i <= s.len(),
    ensures
        i <= lead(s, set, i) <= s.len(),
        forall|k: int| i <= k < lead(s, set, i) ==> set.holds(#[trigger] s[k]),
        lead(s, set, i) < s.len() ==> !set.holds(s[lead(s, set, i)]),
    decreases s.len() - i,
{
    if i < s.len() && set.holds(s[i]) {
        lemma_lead_meaning(s, set, i + 1);
    }
}

/// What `trail` finds: only characters of `set` stand between the result
/// and `j`, and the character before the result, if the result is above
/// `lo`, is not in `set`.
pub proof fn lemma_trail_meaning(s: Seq<char>, set: CharSet, lo: int, j: int)
    requires
        0 <= lo <= j <= s.len(),
    ensures
        lo <= trail(s, set, lo, j) <= j,
        forall|k: int| trail(s, set, lo, j) <= k < j ==> set.holds(#[trigger] s[k]),
        lo < trail(s, set, lo, j) ==> !set.holds(s[trail(s, set, lo, j) - 1]),
    decreases j - lo,
{
    if j > lo && set.holds(s[j - 1]) {
        lemma_trail_meaning(s, set, lo, j - 1);
    }
}

/// What stripping does: `s` is a run of characters of `set`, then
/// `strip(s, set)`, then another such run; and what is left neither starts
/// nor ends with a character of `set`.
pub proof fn law_strip(s: Seq<char>, set: CharSet)
    ensures
        ({
            let from = lead(s, set, 0);
            let to = trail(s, set, from, s.len() as int);
            let kept = strip(s, set);
            &&& 0 <= from <= to <= s.len()
            &&& s == s.subrange(0, from) + kept + s.subrange(to, s.len() as int)
            &&& forall|k: int| 0 <= k < from || to <= k < s.len() ==> set.holds(#[trigger] s[k])
            &&& kept.len() > 0 ==> !set.holds(kept[0]) && !set.holds(kept[kept.len() - 1])
        }),
{
    lemma_lead_meaning(s, set, 0);
    let from = lead(s, set, 0);
    lemma_trail_meaning(s, set, from, s.len() as int);
    let to = trail(s, set, from, s.len() as int);
    assert(s =~= s.subrange(0, from) + strip(s, set) + s.subrange(to, s.len() as int));
}

/// What `find_from` finds: `c` does not stand between `i` and the result,
/// and stands at the result if that is a position of `s`.
pub proof fn lemma_find_meaning(s: Seq<char>, c: char, i: int)
    requires
        0 <= i <= s.len(),
    ensures
        i <= find_from(s, c, i) <= s.len(),
        forall|k: int| i <= k < find_from(s, c, i) ==> #[trigger] s[k] != c,
        find_from(s, c, i) < s.len() ==> s[find_from(s, c, i)] == c,
    decreases s.len() - i,
{
    if i < s.len() && s[i] != c {
        lemma_find_meaning(s, c, i + 1);
    }
}

/// The searches from `i` on end between `i` and the length of `s`.
pub proof fn lemma_find_bounds(s: Seq<char>, c: char, i: int)
    requires
        0 <= i <= s.len(),
    ensures
        i <= find_from(s, c, i) <= s.len(),
        i <= find_comment(s, i) <= s.len(),
    decreases s.len() - i,
{
    if i < s.len() {
        lemma_find_bounds(s, c, i + 1);
    }
}

/// The position in `chars[lo..hi]`, counted in `chars`, of the first character not in `set`.
pub fn skip_lead(chars: &Vec<char>, lo: usize, hi: usize, set: CharSet) -> (r: usize)
    requires
        lo <= hi <= chars@.len(),
    ensures
        lo <= r <= hi,
        r - lo == lead(chars@.subrange(lo as int, hi as int), set, 0),
{
    let ghost s = chars@.subrange(lo as int, hi as int);
    let mut i: usize = lo;
    while i < hi && set.has(chars[i])
        invariant
            lo <= i <= hi <= chars@.len(),
            s == chars@.subrange(lo as int, hi as int),
            lead(s, set, 0) == lead(s, set, i - lo),
        decreases hi - i,
    {
        assert(s[i - lo] == chars@[i as int]);
        i += 1;
    }
    assert(i < hi ==> s[i - lo] == chars@[i as int]);
    i
}

/// The end in `chars[lo..hi]`, counted in `chars`, of what is left without
/// the characters of `set` at its end.
pub fn skip_trail(chars: &Vec<char>, lo: usize, hi: usize, set: CharSet) -> (r: usize)
    requires
        lo <= hi <= chars@.len(),
    ensures
        lo <= r <= hi,
        r == trail(chars@, set, lo as int, hi as int),
{
    let mut j: usize = hi;
    while j > lo && set.has(chars[j - 1])
        invariant
            lo <= j <= hi <= chars@.len(),
            trail(chars@, set, lo as int, hi as int) == trail(chars@, set, lo as int, j as int),
        decreases j - lo,
    {
        j -= 1;
    }
    j
}

/// `trail` looks at the characters between its bounds only.
pub proof fn lemma_trail_subrange(s: Seq<char>, set: CharSet, a: int, lo: int, j: int, b: int)
    requires
        0 <= a <= lo <= j <= b <= s.len(),
    ensures
        trail(s.subrange(a, b), set, lo - a, j - a) == trail(s, set, lo, j) - a,
    decreases j - lo,
{
    let t = s.subrange(a, b);
    if j > lo {
        assert(t[j - a - 1] == s[j - 1]);
        if set.holds(s[j - 1]) {
            lemma_trail_subrange(s, set, a, lo, j - 1, b);
        }
    }
}

/// The bounds in `chars` of `chars[lo..hi]` without the characters of `set` at its two ends.
pub fn strip_range(chars: &Vec<char>, lo: usize, hi: usize, set: CharSet) -> (r: (usize, usize))
    requires
        lo <= hi <= chars@.len(),
    ensures
        lo <= r.0 <= r.1 <= hi,
        chars@.subrange(r.0 as int, r.1 as int) == strip(chars@.subrange(lo as int, hi as int), set),
{
    let from: usize = skip_lead(chars, lo, hi, set);
    let to: usize = skip_trail(chars, from, hi, set);
    proof {
        let s = chars@.subrange(lo as int, hi as int);
        lemma_trail_subrange(chars@, set, lo as int, from as int, hi as int, hi as int);
        assert(chars@.subrange(from as int, to as int) =~= s.subrange(from - lo, to - lo));
    }
    (from, to)
}

/// The position in `chars[lo..hi]`, counted in `chars`, of the first `c`; `hi` if there is none.
pub fn find_char(chars: &Vec<char>, lo: usize, hi: usize, c: char) -> (r: usize)
    requires
        lo <= hi <= chars@.len(),
    ensures
        lo <= r <= hi,
        r - lo == find_from(chars@.subrange(lo as int, hi as int), c, 0),
        r < hi ==> chars@[r as int] == c,
{
    let ghost s = chars@.subrange(lo as int, hi as int);
    let mut i: usize = lo;
    while i < hi && chars[i] != c
        invariant
            lo <= i <= hi <= chars@.len(),
            s == chars@.subrange(lo as int, hi as int),
            find_from(s, c, 0) == find_from(s, c, i - lo),
        decreases hi - i,
    {
        assert(s[i - lo] == chars@[i as int]);
        i += 1;
    }
    assert(i < hi ==> s[i - lo] == chars@[i as int]);
    i
}

/// The position in `chars[lo..hi]`, counted in `chars`, where the first `//` starts; `hi` if there is none.
pub fn find_comment_start(chars: &Vec<char>, lo: usize, hi: usize) -> (r: usize)
    requires
        lo <= hi <= chars@.len(),
    ensures
        lo <= r <= hi,
        r - lo == find_comment(chars@.subrange(lo as int, hi as int), 0),
{
    let ghost s = chars@.subrange(lo as int, hi as int);
    let mut i: usize = lo;
    while i < hi
        invariant
            lo <= i <= hi <= chars@.len(),
            s == chars@.subrange(lo as int, hi as int),
            find_comment(s, 0) == find_comment(s, i - lo),
        decreases hi - i,
    {
        assert(s[i - lo] == chars@[i as int]);
        if chars[i] == '/' && i + 1 < hi && chars[i + 1] == '/' {
            assert(s[i - lo + 1] == chars@[i + 1]);
            return i;
        }
        assert(i + 1 < hi ==> s[i - lo + 1] == chars@[i + 1]);
        i += 1;
    }
    i
}

/// The characters `chars[lo..hi]` as a string.
pub fn text_of(chars: &Vec<char>, lo: usize, hi: usize) -> (r: String)
    requires
        lo <= hi <= chars@.len(),
    ensures
        r@ == chars@.subrange(lo as int, hi as int),
{
    let mut out: String = String::new();
    let mut i: usize = lo;
    while i < hi
        invariant
            lo <= i <= hi <= chars@.len(),
            out@ == chars@.subrange(lo as int, i as int),
        decreases hi - i,
    {
        out.push(chars[i]);
        i += 1;
        assert(out@ =~= chars@.subrange(lo as int, i as int));
    }
    out
}

/// Whether `chars[lo..hi]` reads `word`.
pub fn matches_text(chars: &Vec<char>, lo: usize, hi: usize, word: &str) -> (r: bool)
    requires
        lo <= hi <= chars@.len(),
    ensures
        r == (chars@.subrange(lo as int, hi as int) == word@),
{
    let ghost s = chars@.subrange(lo as int, hi as int);
    let n: usize = word.unicode_len();
    if n != hi - lo {
        return false;
    }
    let mut i: usize = 0;
    while i < n
        invariant
            lo <= hi <= chars@.len(),
            n == hi - lo,
            n == word@.len(),
            s == chars@.subrange(lo as int, hi as int),
            i <= n,
            forall|k: int| 0 <= k < i ==> s[k] == word@[k],
        decreases n - i,
    {
        if chars[lo + i] != word.get_char(i) {
            assert(s[i as int] != word@[i as int]);
            return false;
        }
        i += 1;
    }
    assert(s =~= word@);
    true
}

/// Whether every character of `chars[lo..hi]` is an ASCII digit.
pub fn digits_only(chars: &Vec<char>, lo: usize, hi: usize) -> (r: bool)
    requires
        lo <= hi <= chars@.len(),
    ensures
        r == all_digits(chars@.subrange(lo as int, hi as int)),
{
    let ghost s = chars@.subrange(lo as int, hi as int);
    let mut i: usize = lo;
    while i < hi
        invariant
            lo <= i <= hi <= chars@.len(),
            s == chars@.subrange(lo as int, hi as int),
            forall|k: int| 0 <= k < i - lo ==> is_digit(#[trigger] s[k]),
        decreases hi - i,
    {
        let c: char = chars[i];
        if !('0' <= c && c <= '9') {
            assert(!is_digit(s[i - lo]));
            return false;
        }
        i += 1;
    }
    true
}

/// The value of a prefix of a numeral is at most the value of the numeral.
pub proof fn lemma_decimal_value_prefix(s: Seq<char>, n: int)
    requires
        0 <= n <= s.len(),
    ensures
        decimal_value(s.take(n)) <= decimal_value(s),
    decreases s.len(),
{
    if n == s.len() {
        assert(s.take(n) =~= s);
    } else {
        assert(s.drop_last().take(n) =~= s.take(n));
        lemma_decimal_value_prefix(s.drop_last(), n);
    }
}

/// The number that the digits `chars[lo..hi]` stand for, if it is at most `limit`.
pub fn read_decimal(chars: &Vec<char>, lo: usize, hi: usize, limit: u64) -> (r: Option<u64>)
    requires
        lo <= hi <= chars@.len(),
        all_digits(chars@.subrange(lo as int, hi as int)),
        limit <= 0xFFFF_FFFF,
    ensures
        match r {
            Some(value) => value == decimal_value(chars@.subrange(lo as int, hi as int)) && value
                <= limit,
            None => decimal_value(chars@.subrange(lo as int, hi as int)) > limit,
        },
{
    let ghost s = chars@.subrange(lo as int, hi as int);
    let mut value: u64 = 0;
    let mut i: usize = lo;
    assert(s.take(0) =~= Seq::<char>::empty());
    while i < hi
        invariant
            lo <= i <= hi <= chars@.len(),
            s == chars@.subrange(lo as int, hi as int),
            all_digits(s),
            limit <= 0xFFFF_FFFF,
            value == decimal_value(s.take(i - lo)),
            value <= limit,
        decreases hi - i,
    {
        let c: char = chars[i];
        proof {
            assert(s.take(i - lo + 1).drop_last() =~= s.take(i - lo));
            assert(s.take(i - lo + 1).last() == s[i - lo]);
            assert(is_digit(s[i - lo]));
            lemma_decimal_value_prefix(s, i - lo + 1);
        }
        let digit: u64 = (c as u32 - '0' as u32) as u64;
        let next: u64 = value * 10 + digit;
        if next > limit {
            return None;
        }
        value = next;
        i += 1;
    }
    assert(s.take(hi - lo) =~= s);
    Some(value)
}

} // verus!
