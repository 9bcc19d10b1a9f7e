//! A set of small numbers, one bit each.

use crate::text::{self, append_number};
use vstd::prelude::*;

verus! {

/// An index past the end of a set.
#[derive(Debug, Clone, Copy, PartialEq, Eq, Structural)]
pub struct OutOfBounds {
    pub index: usize,
    pub len: usize,
}

impl OutOfBounds {
    /// The error in words.
    pub open spec fn words(self) -> Seq<char> {
        "index "@ + text::digits(self.index as nat) + " out of bounds for length "@ + text::digits(
            self.len as nat,
        )
    }

    pub fn message(&self) -> (message: String)
        ensures
            message@ == self.words(),
    {
        let mut message: String = String::from_str("index ");
        append_number(&mut message, self.index);
        message.append(" out of bounds for length ");
        append_number(&mut message, self.len);
        message
    }
}

/// A fixed number of bits.
pub struct BitSet {
    words: Vec<u64>,
    len: usize,
}

spec fn bit_of(word: u64, bit: u64) -> bool {
    (word >> bit) & 1 == 1
}

proof fn lemma_bits(word: u64, bit: u64)
    requires
        bit < 64,
    ensures
        forall|b: u64| b < 64 ==> #[trigger] bit_of(word | (1u64 << bit), b) == (b == bit || bit_of(word, b)),
        forall|b: u64| b < 64 ==> #[trigger] bit_of(word & !(1u64 << bit), b) == (b != bit && bit_of(word, b)),
{
    assert forall|b: u64| b < 64 implies #[trigger] bit_of(word | (1u64 << bit), b) == (b == bit || bit_of(
        word,
        b,
    )) by {
        assert((((word | (1u64 << bit)) >> b) & 1 == 1) == (b == bit || (word >> b) & 1 == 1)) by (bit_vector)
            requires
                b < 64,
                bit < 64,
        ;
    }
    assert forall|b: u64| b < 64 implies #[trigger] bit_of(word & !(1u64 << bit), b) == (b != bit && bit_of(
        word,
        b,
    )) by {
        assert((((word & !(1u64 << bit)) >> b) & 1 == 1) == (b != bit && (word >> b) & 1 == 1)) by (bit_vector)
            requires
                b < 64,
                bit < 64,
        ;
    }
}

impl BitSet {
    /// The bits, first to last.
    pub closed spec fn view(self) -> Seq<bool> {
        Seq::new(self.len as nat, |i: int| bit_of(self.words@[i / 64], (i % 64) as u64))
    }

    pub closed spec fn wf(self) -> bool {
        self.words@.len() * 64 >= self.len
    }

    /// `len` bits, all clear.
    pub fn new(len: usize) -> (set: Self)
        ensures
            set.wf(),
            set@ == Seq::new(len as nat, |i: int| false),
    {
        let n: usize = len / 64 + 1;
        let mut words: Vec<u64> = Vec::new();
        let mut i: usize = 0;
        while i < n
            invariant
                i <= n,
                words@.len() == i,
                forall|j: int| 0 <= j < i ==> #[trigger] words@[j] == 0,
            decreases n - i,
        {
            words.push(0);
            i += 1;
        }
        let set = BitSet { words, len };
        assert forall|j: int| 0 <= j < len implies #[trigger] set@[j] == false by {
            let b = (j % 64) as u64;
            assert((0u64 >> b) & 1 == 0) by (bit_vector);
        }
        set
    }

    pub fn get(&self, index: usize) -> (bit: Result<bool, OutOfBounds>)
        requires
            self.wf(),
        ensures
            bit == (if index < self@.len() {
                Ok(self@[index as int])
            } else {
                Err(OutOfBounds { index, len: self@.len() as usize })
            }),
    {
        if index >= self.len {
            return Err(OutOfBounds { index, len: self.len });
        }
        let bit: u64 = (index % 64) as u64;
        Ok((self.words[index / 64] >> bit) & 1 == 1)
    }

    pub fn set(&mut self, index: usize) -> (done: Result<(), OutOfBounds>)
        requires
            old(self).wf(),
        ensures
            final(self).wf(),
            done == (if index < old(self)@.len() {
                Ok(())
            } else {
                Err(OutOfBounds { index, len: old(self)@.len() as usize })
            }),
            final(self)@ == (if index < old(self)@.len() {
                old(self)@.update(index as int, true)
            } else {
                old(self)@
            }),
    {
        if index >= self.len {
            return Err(OutOfBounds { index, len: self.len });
        }
        let bit: u64 = (index % 64) as u64;
        let w: usize = index / 64;
        let word: u64 = self.words[w];
        proof {
            lemma_bits(word, bit);
        }
        self.words[w] = word | (1u64 << bit);
        assert(self@ =~= old(self)@.update(index as int, true)) by {
            assert forall|j: int| 0 <= j < self.len implies self@[j] == old(self)@.update(index as int, true)[j] by {
                if j / 64 == w {
                    assert(bit_of(word | (1u64 << bit), (j % 64) as u64) == ((j % 64) as u64 == bit || bit_of(
                        word,
                        (j % 64) as u64,
                    )));
                }
            }
        }
        Ok(())
    }

    pub fn clear(&mut self, index: usize) -> (done: Result<(), OutOfBounds>)
        requires
            old(self).wf(),
        ensures
            final(self).wf(),
            done == (if index < old(self)@.len() {
                Ok(())
            } else {
                Err(OutOfBounds { index, len: old(self)@.len() as usize })
            }),
            final(self)@ == (if index < old(self)@.len() {
                old(self)@.update(index as int, false)
            } else {
                old(self)@
            }),
    {
        if index >= self.len {
            return Err(OutOfBounds { index, len: self.len });
        }
        let bit: u64 = (index % 64) as u64;
        let w: usize = index / 64;
        let word: u64 = self.words[w];
        proof {
            lemma_bits(word, bit);
        }
        self.words[w] = word & !(1u64 << bit);
        assert(self@ =~= old(self)@.update(index as int, false)) by {
            assert forall|j: int| 0 <= j < self.len implies self@[j] == old(self)@.update(index as int, false)[j] by {
                if j / 64 == w {
                    assert(bit_of(word & !(1u64 << bit), (j % 64) as u64) == ((j % 64) as u64 != bit && bit_of(
                        word,
                        (j % 64) as u64,
                    )));
                }
            }
        }
        Ok(())
    }
}

} // verus!
