//! Choosing the sentence in which to show a word: the one whose other words
//! are, taken together, the most frequent.

use crate::knowledge::Knowledge;
use crate::store::KnowledgeDB;
use vstd::prelude::*;

verus! {

impl Knowledge {
    /// What the word at place `k` of sentence `s` costs a reader who is
    /// shown the sentence for the sake of word `w`: its frequency rank, or
    /// nothing if it is `w` itself.
    pub open spec fn cost_at(self, s: int, w: int, k: int) -> int {
        if self.members[s][k] == w {
            0
        } else {
            self.words[self.members[s][k]].frequency_rank as int
        }
    }

    /// The cost of the first `n` words of sentence `s`.
    pub open spec fn cost_of_first(self, s: int, w: int, n: nat) -> int
        decreases n,
    {
        if n == 0 {
            0
        } else {
            self.cost_of_first(s, w, (n - 1) as nat) + self.cost_at(s, w, n - 1)
        }
    }

    /// The cost of sentence `s` as an example for word `w`: the sum of the
    /// frequency ranks of its other words.
    pub open spec fn cost(self, s: int, w: int) -> int {
        self.cost_of_first(s, w, self.members[s].len())
    }

    /// Whether sentence `s` is the one to show for word `w`: it holds the
    /// word, no sentence that holds the word costs less, and every earlier
    /// one costs more.
    pub open spec fn is_fittest(self, w: int, s: int) -> bool {
        &&& self.holds(s, w)
        &&& forall|t: int| #[trigger] self.holds(t, w) ==> self.cost(s, w) <= self.cost(t, w)
        &&& forall|t: int| #[trigger] self.holds(t, w) && t < s ==> self.cost(s, w) < self.cost(t, w)
    }

    /// The texts of those of the first `n` sentences that hold word `w`, in
    /// the order of their numbers.
    pub open spec fn sentences_with(self, w: int, n: nat) -> Seq<Seq<char>>
        decreases n,
    {
        if n == 0 {
            Seq::empty()
        } else if self.holds(n - 1, w) {
            self.sentences_with(w, (n - 1) as nat).push(self.sentences[n - 1])
        } else {
            self.sentences_with(w, (n - 1) as nat)
        }
    }

    /// At most one sentence is the fittest for a word.
    pub proof fn lemma_fittest_is_unique(self, w: int, s: int, t: int)
        requires
            self.is_fittest(w, s),
            self.is_fittest(w, t),
        ensures
            s == t,
    {
    }

    /// A sentence that costs more than another one with the same word is
    /// never the fittest.
    pub proof fn lemma_fittest_is_cheapest(self, w: int, s: int, t: int)
        requires
            self.is_fittest(w, s),
            self.holds(t, w),
        ensures
            self.cost(s, w) <= self.cost(t, w),
    {
    }
}

impl KnowledgeDB {
    /// The cost of sentence number `sentence` as an example for word number
    /// `word`.
    pub fn sentence_cost(&self, sentence: usize, word: usize) -> (cost: i128)
        requires
            sentence < self@.sentences.len(),
        ensures
            cost == self@.cost(sentence as int, word as int),
    {
        proof {
            use_type_invariant(&*self);
        }
        let list: &Vec<usize> = self.sentence_words(sentence);
        let mut total: i128 = 0;
        let mut k: usize = 0;
        while k < list.len()
            invariant
                k <= list.len(),
                self@.wf(),
                sentence < self@.sentences.len(),
                crate::knowledge::numbers(list@) == self@.members[sentence as int],
                total == self@.cost_of_first(sentence as int, word as int, k as nat),
                -(k * 0x8000_0000_0000_0000) <= total <= k * 0x7fff_ffff_ffff_ffff,
            decreases list.len() - k,
        {
            let other: usize = list[k];
            assert(self@.members[sentence as int][k as int] == other);
            if other != word {
                let rank: i64 = self.word(other).frequency_rank;
                total = total + rank as i128;
            }
            k = k + 1;
        }
        total
    }

    /// The number of the sentence to show for word number `word`, if any
    /// sentence holds that word.
    pub fn fittest_sentence(&self, word: usize) -> (best: Option<usize>)
        ensures
            match best {
                Some(s) => self@.is_fittest(word as int, s as int),
                None => forall|s: int| !self@.holds(s, word as int),
            },
    {
        proof {
            use_type_invariant(&*self);
        }
        let count: usize = self.sentence_count();
        let mut best: Option<(usize, i128)> = None;
        let mut s: usize = 0;
        while s < count
            invariant
                s <= count,
                count == self@.sentences.len(),
                self@.wf(),
                match best {
                    Some((b, cost)) => {
                        &&& b < s
                        &&& self@.holds(b as int, word as int)
                        &&& cost == self@.cost(b as int, word as int)
                        &&& forall|t: int|
                            #[trigger] self@.holds(t, word as int) && t < s ==> cost
                                <= self@.cost(t, word as int)
                        &&& forall|t: int|
                            #[trigger] self@.holds(t, word as int) && t < b ==> cost
                                < self@.cost(t, word as int)
                    },
                    None => forall|t: int| #[trigger] self@.holds(t, word as int) ==> t >= s,
                },
            decreases count - s,
        {
            if self.contains_word(s, word) {
                let total: i128 = self.sentence_cost(s, word);
                match best {
                    Some((_, cost)) => {
                        if total < cost {
                            best = Some((s, total));
                        }
                    },
                    None => {
                        best = Some((s, total));
                    },
                }
            }
            s = s + 1;
        }
        match best {
            Some((b, _)) => Some(b),
            None => None,
        }
    }

    /// The sentence to show at a review of `word`: among the sentences
    /// that hold the word, the one whose other words have the least sum of
    /// frequency ranks, and of several such the one that came in first.
    /// `None` where the store does not know the word, or has no sentence
    /// for it.
    pub fn get_sentence_to_review(&self, word: &str) -> (text: Option<String>)
        ensures
            match self@.find_word(word@) {
                Some(w) => match text {
                    Some(t) => exists|s: int|
                        (#[trigger] self@.is_fittest(w, s)) && t@ == self@.sentences[s],
                    None => forall|s: int| !self@.holds(s, w),
                },
                None => text is None,
            },
    {
        proof {
            use_type_invariant(&*self);
        }
        match self.find_word(word) {
            Some(w) => match self.fittest_sentence(w) {
                Some(s) => {
                    let text: String = self.sentence(s).clone();
                    assert(self@.is_fittest(self@.find_word(word@)->0, s as int) && text@
                        == self@.sentences[s as int]);
                    Some(text)
                },
                None => None,
            },
            None => None,
        }
    }

    /// The sentences that hold `word`, in the order in which they came in.
    /// None where the store does not know the word.
    pub fn get_sentences_for_word(&self, word: &str) -> (texts: Vec<String>)
        ensures
            texts.deep_view() == match self@.find_word(word@) {
                Some(w) => self@.sentences_with(w, self@.sentences.len()),
                None => Seq::empty(),
            },
    {
        let mut texts: Vec<String> = Vec::new();
        match self.find_word(word) {
            Some(w) => {
                proof {
                    use_type_invariant(&*self);
                }
                let count: usize = self.sentence_count();
                let mut s: usize = 0;
                while s < count
                    invariant
                        s <= count,
                        count == self@.sentences.len(),
                        texts.deep_view() == self@.sentences_with(w as int, s as nat),
                    decreases count - s,
                {
                    if self.contains_word(s, w) {
                        let text: String = self.sentence(s).clone();
                        texts.push(text);
                    }
                    s = s + 1;
                }
            },
            None => {},
        }
        texts
    }
}

} // verus!
