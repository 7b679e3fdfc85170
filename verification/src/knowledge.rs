//! The store as a mathematical value, and what can happen to it.
//!
//! Words and sentences are numbered in the order in which they came in, and
//! nothing ever leaves the store, so a number once given stays valid. The
//! membership relation belongs to neither side: it is a table of its own,
//! which lists for every sentence the numbers of its words.

use crate::scheduler::{SuperMemoItem, DEFAULT_EASE, MIN_EASE};
use vstd::prelude::*;

verus! {

/// A `Word` as a mathematical value.
#[verifier::ext_equal]
pub struct WordView {
    pub text: Seq<char>,
    pub count: u64,
    pub frequency_rank: i64,
    pub reviewed: bool,
    pub next_review_at: Option<i64>,
    pub review_duration: u32,
    pub ease_factor: u64,
    pub repetition: u32,
}

impl WordView {
    /// What every word of a store satisfies: it occurred at least once, and
    /// its ease factor is not below the floor.
    pub open spec fn valid(self) -> bool {
        self.count >= 1 && self.ease_factor >= MIN_EASE
    }

    /// A word at its first occurrence: counted once, never reviewed, with
    /// the default ease factor.
    pub open spec fn fresh(text: Seq<char>, frequency_rank: i64) -> WordView {
        WordView {
            text,
            count: 1,
            frequency_rank,
            reviewed: false,
            next_review_at: None,
            review_duration: 0,
            ease_factor: DEFAULT_EASE,
            repetition: 0,
        }
    }

    /// The word seen once more. The count stops at what a `u64` holds.
    pub open spec fn seen_again(self) -> WordView {
        WordView {
            count: if self.count < u64::MAX {
                (self.count + 1) as u64
            } else {
                self.count
            },
            ..self
        }
    }

    /// The scheduling state of the word.
    pub open spec fn item(self) -> SuperMemoItem {
        SuperMemoItem {
            repetition: self.repetition,
            duration: self.review_duration,
            ease_factor: self.ease_factor,
        }
    }

    /// The word after a review that left it in the state `item`, with the
    /// next review due at `due`.
    pub open spec fn rescheduled(self, item: SuperMemoItem, due: i64) -> WordView {
        WordView {
            reviewed: true,
            next_review_at: Some(due),
            review_duration: item.duration,
            ease_factor: item.ease_factor,
            repetition: item.repetition,
            ..self
        }
    }
}

/// A list of numbers as mathematical integers.
pub open spec fn numbers(list: Seq<usize>) -> Seq<int> {
    Seq::new(list.len(), |k: int| list[k] as int)
}

/// The store as a mathematical value.
#[verifier::ext_equal]
pub struct Knowledge {
    /// The frequency list that new words are ranked by.
    pub ranking: Seq<Seq<char>>,
    /// The words, by number.
    pub words: Seq<WordView>,
    /// The texts of the sentences, by number.
    pub sentences: Seq<Seq<char>>,
    /// For each sentence, the numbers of its words, in the order in which
    /// they were first linked to it.
    pub members: Seq<Seq<int>>,
}

impl Knowledge {
    /// A store without words or sentences.
    pub open spec fn empty(ranking: Seq<Seq<char>>) -> Knowledge {
        Knowledge {
            ranking,
            words: Seq::empty(),
            sentences: Seq::empty(),
            members: Seq::empty(),
        }
    }

    /// Whether word number `i` exists and has the text `text`.
    pub open spec fn is_word_at(self, i: int, text: Seq<char>) -> bool {
        0 <= i < self.words.len() && self.words[i].text == text
    }

    /// The number of the word with the text `text`.
    pub open spec fn find_word(self, text: Seq<char>) -> Option<int> {
        if exists|i: int| self.is_word_at(i, text) {
            Some(choose|i: int| self.is_word_at(i, text))
        } else {
            None
        }
    }

    /// Whether sentence number `i` exists and has the text `text`.
    pub open spec fn is_sentence_at(self, i: int, text: Seq<char>) -> bool {
        0 <= i < self.sentences.len() && self.sentences[i] == text
    }

    /// The number of the sentence with the text `text`.
    pub open spec fn find_sentence(self, text: Seq<char>) -> Option<int> {
        if exists|i: int| self.is_sentence_at(i, text) {
            Some(choose|i: int| self.is_sentence_at(i, text))
        } else {
            None
        }
    }

    /// Whether word number `w` is listed at place `k` of sentence number
    /// `s`.
    pub open spec fn is_member_at(self, s: int, k: int, w: int) -> bool {
        0 <= s < self.members.len() && 0 <= k < self.members[s].len() && self.members[s][k] == w
    }

    /// Whether word number `w` occurs in sentence number `s`.
    pub open spec fn holds(self, s: int, w: int) -> bool {
        exists|k: int| self.is_member_at(s, k, w)
    }

    /// The invariant of the store: no text occurs twice among the words, nor
    /// among the sentences; every word is valid; every sentence has its
    /// list of words; a list names only words that exist, and none twice.
    pub open spec fn wf(self) -> bool {
        &&& forall|i: int, j: int|
            0 <= i < j < self.words.len() ==> (#[trigger] self.words[i]).text
                != (#[trigger] self.words[j]).text
        &&& forall|i: int| 0 <= i < self.words.len() ==> (#[trigger] self.words[i]).valid()
        &&& forall|i: int, j: int|
            0 <= i < j < self.sentences.len() ==> #[trigger] self.sentences[i]
                != #[trigger] self.sentences[j]
        &&& self.members.len() == self.sentences.len()
        &&& forall|s: int, k: int|
            0 <= s < self.members.len() && 0 <= k < self.members[s].len()
                ==> 0 <= #[trigger] self.members[s][k] < self.words.len()
        &&& forall|s: int, k: int, l: int|
            0 <= s < self.members.len() && 0 <= k < l < self.members[s].len()
                ==> #[trigger] self.members[s][k] != #[trigger] self.members[s][l]
    }

    /// The store with one more word.
    pub open spec fn with_word(self, word: WordView) -> Knowledge {
        Knowledge { words: self.words.push(word), ..self }
    }

    /// The store with one more sentence, which has no words yet.
    pub open spec fn with_sentence(self, text: Seq<char>) -> Knowledge {
        Knowledge {
            sentences: self.sentences.push(text),
            members: self.members.push(Seq::empty()),
            ..self
        }
    }

    /// The store in which word `w` occurs in sentence `s`. Where it did
    /// already, nothing changes.
    pub open spec fn with_link(self, w: int, s: int) -> Knowledge {
        if self.holds(s, w) {
            self
        } else {
            Knowledge {
                members: self.members.update(s, self.members[s].push(w)),
                ..self
            }
        }
    }

    /// The store in which word `w` was seen once more.
    pub open spec fn with_occurrence(self, w: int) -> Knowledge {
        Knowledge { words: self.words.update(w, self.words[w].seen_again()), ..self }
    }

    /// The store after a review of word `w`.
    pub open spec fn with_schedule(self, w: int, item: SuperMemoItem, due: i64) -> Knowledge {
        Knowledge { words: self.words.update(w, self.words[w].rescheduled(item, due)), ..self }
    }

    /// A text that names no word is the text of no word.
    pub proof fn lemma_unknown_word(self, text: Seq<char>)
        requires
            self.find_word(text) is None,
        ensures
            forall|i: int| 0 <= i < self.words.len() ==> (#[trigger] self.words[i]).text != text,
    {
        assert forall|i: int| 0 <= i < self.words.len() implies (#[trigger] self.words[i]).text
            != text by {
            assert(!self.is_word_at(i, text));
        }
    }

    /// A text that names no sentence is the text of no sentence, so that
    /// the store stays well-formed when a sentence with that text comes in.
    pub proof fn lemma_unknown_sentence(self, text: Seq<char>)
        requires
            self.find_sentence(text) is None,
        ensures
            forall|i: int| 0 <= i < self.sentences.len() ==> #[trigger] self.sentences[i] != text,
            self.wf() ==> self.with_sentence(text).wf(),
    {
        assert forall|i: int| 0 <= i < self.sentences.len() implies #[trigger] self.sentences[i]
            != text by {
            assert(!self.is_sentence_at(i, text));
        }
    }

    /// In a well-formed store a text names at most one word.
    pub proof fn lemma_find_word(self, i: int, text: Seq<char>)
        requires
            self.wf(),
            self.is_word_at(i, text),
        ensures
            self.find_word(text) == Some(i),
    {
    }

    /// In a well-formed store a text names at most one sentence.
    pub proof fn lemma_find_sentence(self, i: int, text: Seq<char>)
        requires
            self.wf(),
            self.is_sentence_at(i, text),
        ensures
            self.find_sentence(text) == Some(i),
    {
    }
}

} // verus!
