//! Machine words and their text form: one line of sixteen binary digits per word.
use vstd::prelude::*;
use vstd::string::*;

verus! {

/// An assembled program: its 16-bit words in ROM order.
pub struct Hex {
    pub instructions: Vec<u16>,
}

/// The binary digit of `word` at `position`, counted from the most significant bit.
pub open spec fn bit_char(word: u16, position: u16) -> char {
    if (word >> ((15 - position) as u16)) & 1 == 1 {
        '1'
    } else {
        '0'
    }
}

/// The sixteen binary digits of `word`, most significant first.
pub open spec fn word_bits(word: u16) -> Seq<char> {
    Seq::new(16, |i: int| bit_char(word, i as u16))
}

/// The text of a program: for each word its sixteen digits and a newline.
pub open spec fn hex_text(words: Seq<u16>) -> Seq<char>
    decreases words.len(),
{
    if words.len() == 0 {
        Seq::empty()
    } else {
        hex_text(words.drop_last()) + word_bits(words.last()) + seq!['\n']
    }
}

/// The text of `words` has seventeen characters for each word.
pub proof fn lemma_hex_text_len(words: Seq<u16>)
    ensures
        hex_text(words).len() == 17 * words.len(),
    decreases words.len(),
{
    if words.len() > 0 {
        lemma_hex_text_len(words.drop_last());
    }
}

/// Appends the sixteen binary digits of `word` to `out`.
pub fn push_word_bits(out: &mut String, word: u16)
    ensures
        final(out)@ == old(out)@ + word_bits(word),
{
    let ghost start = out@;
    let mut k: u16 = 0;
    while k < 16
        invariant
            k <= 16,
            out@ == start + word_bits(word).take(k as int),
        decreases 16 - k,
    {
        proof {
            reveal_strlit("0");
            reveal_strlit("1");
        }
        let set: bool = (word >> (15 - k)) & 1 == 1;
        if set {
            out.append("1");
        } else {
            out.append("0");
        }
        k += 1;
        assert(out@ =~= start + word_bits(word).take(k as int));
    }
    assert(word_bits(word).take(16) =~= word_bits(word));
}

impl Hex {
    /// The text of the program, as it stands in a `.hack` file.
    pub fn render(&self) -> (r: String)
        ensures
            r@ == hex_text(self.instructions@),
            r@.len() == 17 * self.instructions@.len(),
    {
        let ghost words = self.instructions@;
        let n: usize = self.instructions.len();
        let mut out: String = String::new();
        let mut i: usize = 0;
        assert(words.take(0) =~= Seq::<u16>::empty());
        while i < n
            invariant
                words == self.instructions@,
                n == words.len(),
                i <= n,
                out@ == hex_text(words.take(i as int)),
            decreases n - i,
        {
            proof {
                reveal_strlit("\n");
                assert(words.take(i + 1).drop_last() =~= words.take(i as int));
            }
            push_word_bits(&mut out, self.instructions[i]);
            out.append("\n");
            i += 1;
            assert(out@ =~= hex_text(words.take(i as int)));
        }
        proof {
            assert(words.take(n as int) =~= words);
            lemma_hex_text_len(words);
        }
        out
    }
}

} // verus!
