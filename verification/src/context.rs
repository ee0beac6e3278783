//! Conversion context.

use vstd::prelude::*;

verus! {

/// How many preceding words a context keeps.
pub const MAX_PREV_WORDS: usize = 5;

/// Conversion modes.
#[derive(Debug, Clone, Copy, PartialEq, Eq, Structural)]
pub enum ConversionMode {
    /// Normal conversion.
    Normal,
    /// Katakana conversion.
    Katakana,
    /// Half-width katakana conversion.
    HalfwidthKatakana,
    /// Full-width alphanumeric conversion.
    FullwidthAlphanumeric,
    /// Half-width alphanumeric conversion.
    HalfwidthAlphanumeric,
}

impl Default for ConversionMode {
    fn default() -> (r: Self)
        ensures
            r == ConversionMode::Normal,
    {
        ConversionMode::Normal
    }
}

/// Context information of a conversion.
#[derive(Debug)]
pub struct ConversionContext {
    /// Recently committed words, oldest first.
    pub prev_words: Vec<String>,
    /// Conversion mode.
    pub mode: ConversionMode,
    /// Maximum number of candidates.
    pub max_candidates: usize,
}

/// The words kept after committing `w`: `w` is appended and, beyond
/// [`MAX_PREV_WORDS`], the oldest word is dropped.
pub open spec fn spec_push_prev_word(words: Seq<Seq<char>>, w: Seq<char>) -> Seq<Seq<char>> {
    let pushed = words.push(w);
    if pushed.len() > MAX_PREV_WORDS {
        pushed.drop_first()
    } else {
        pushed
    }
}

/// The characters of each string.
pub open spec fn strings_view(v: Seq<String>) -> Seq<Seq<char>> {
    v.map_values(|s: String| s@)
}

impl ConversionContext {
    /// A context with no previous word, normal mode and 9 candidates.
    pub fn new() -> (r: Self)
        ensures
            r.prev_words@.len() == 0,
            r.mode == ConversionMode::Normal,
            r.max_candidates == 9,
    {
        ConversionContext { prev_words: Vec::new(), mode: ConversionMode::Normal, max_candidates: 9 }
    }

    /// Records a committed word.
    pub fn push_prev_word(&mut self, word: &str)
        ensures
            strings_view(final(self).prev_words@) == spec_push_prev_word(strings_view(old(self).prev_words@), word@),
            final(self).mode == old(self).mode,
            final(self).max_candidates == old(self).max_candidates,
    {
        let ghost before = strings_view(self.prev_words@);
        self.prev_words.push(word.to_owned());
        proof {
            assert(strings_view(self.prev_words@) =~= before.push(word@));
        }
        if self.prev_words.len() > MAX_PREV_WORDS {
            self.prev_words.remove(0);
            proof {
                assert(strings_view(self.prev_words@) =~= before.push(word@).drop_first());
            }
        }
    }

    /// Forgets the previous words.
    pub fn clear(&mut self)
        ensures
            final(self).prev_words@.len() == 0,
            final(self).mode == old(self).mode,
            final(self).max_candidates == old(self).max_candidates,
    {
        self.prev_words.clear();
    }

    /// A copy of this context.
    pub fn duplicate(&self) -> (r: Self)
        ensures
            strings_view(r.prev_words@) == strings_view(self.prev_words@),
            r.mode == self.mode,
            r.max_candidates == self.max_candidates,
    {
        let mut words: Vec<String> = Vec::new();
        let mut i: usize = 0;
        while i < self.prev_words.len()
            invariant
                i <= self.prev_words.len(),
                words@.len() == i,
                forall|j: int| 0 <= j < i ==> #[trigger] words@[j]@ == self.prev_words@[j]@,
            decreases self.prev_words.len() - i,
        {
            let w = self.prev_words[i].clone();
            words.push(w);
            i = i + 1;
        }
        proof {
            assert(strings_view(words@) =~= strings_view(self.prev_words@));
        }
        ConversionContext { prev_words: words, mode: self.mode, max_candidates: self.max_candidates }
    }
}

impl Default for ConversionContext {
    fn default() -> (r: Self)
        ensures
            r.prev_words@.len() == 0,
            r.mode == ConversionMode::Normal,
            r.max_candidates == 0,
    {
        ConversionContext { prev_words: Vec::new(), mode: ConversionMode::Normal, max_candidates: 0 }
    }
}

/// Law: a context never holds more than [`MAX_PREV_WORDS`] words once it holds
/// at most that many, and the newest word is always last.
pub proof fn lemma_prev_words_bounded(words: Seq<Seq<char>>, w: Seq<char>)
    requires
        words.len() <= MAX_PREV_WORDS,
    ensures
        spec_push_prev_word(words, w).len() <= MAX_PREV_WORDS,
        spec_push_prev_word(words, w).last() == w,
{
}

} // verus!
