//! The tables of a store as they lie in memory, and the steps that change
//! them. Each step asks for well-formed tables and leaves them so.

use crate::frequency::WordFrequencyList;
use crate::knowledge::{numbers, Knowledge};
use crate::scheduler::{SuperMemoItem, MIN_EASE};
use crate::store::{StoreError, Word};
use vstd::prelude::*;

verus! {

/// The tables of a store, as they lie in memory.
pub(crate) struct Tables {
    word_frequency_list: WordFrequencyList,
    words: Vec<Word>,
    sentences: Vec<String>,
    members: Vec<Vec<usize>>,
}

impl View for Tables {
    type V = Knowledge;

    closed spec fn view(&self) -> Knowledge {
        Knowledge {
            ranking: self.word_frequency_list@,
            words: Seq::new(self.words.len() as nat, |i: int| self.words[i]@),
            sentences: Seq::new(self.sentences.len() as nat, |i: int| self.sentences[i]@),
            members: Seq::new(self.members.len() as nat, |i: int| numbers(self.members[i]@)),
        }
    }
}

impl Tables {
    /// An empty store that ranks its words by `word_frequency_list`.
    pub(crate) fn new(word_frequency_list: WordFrequencyList) -> (db: Self)
        ensures
            db@.wf(),
            db@ == Knowledge::empty(word_frequency_list@),
    {
        Tables { word_frequency_list, words: Vec::new(), sentences: Vec::new(), members: Vec::new() }
    }

    /// How many words the store holds.
    pub(crate) fn word_count(&self) -> (n: usize)
        ensures
            n == self@.words.len(),
    {
        self.words.len()
    }

    /// How many sentences the store holds.
    pub(crate) fn sentence_count(&self) -> (n: usize)
        ensures
            n == self@.sentences.len(),
    {
        self.sentences.len()
    }

    /// Word number `index`.
    pub(crate) fn word(&self, index: usize) -> (word: &Word)
        requires
            index < self@.words.len(),
        ensures
            word@ == self@.words[index as int],
    {
        &self.words[index]
    }

    /// The text of sentence number `index`.
    pub(crate) fn sentence(&self, index: usize) -> (text: &String)
        requires
            index < self@.sentences.len(),
        ensures
            text@ == self@.sentences[index as int],
    {
        &self.sentences[index]
    }

    /// The numbers of the words of sentence number `index`.
    pub(crate) fn sentence_words(&self, index: usize) -> (words: &Vec<usize>)
        requires
            index < self@.members.len(),
        ensures
            numbers(words@) == self@.members[index as int],
    {
        &self.members[index]
    }

    /// The rank that the store's frequency list gives to `word`.
    pub(crate) fn rank_of(&self, word: &str) -> (rank: i64)
        ensures
            rank == crate::frequency::rank_in(self@.ranking, word@),
            self@.ranking.len() <= crate::frequency::UNRANKED,
    {
        self.word_frequency_list.get_word_freq(word)
    }

    /// The number of the word with the text `text`.
    pub(crate) fn find_word(&self, text: &str) -> (found: Option<usize>)
        requires
            self@.wf(),
        ensures
            match found {
                Some(i) => self@.find_word(text@) == Some(i as int),
                None => self@.find_word(text@) is None,
            },
    {
        let key: String = text.to_owned();
        let mut i: usize = 0;
        while i < self.words.len()
            invariant
                i <= self.words.len(),
                key@ == text@,
                self@.wf(),
                forall|j: int| 0 <= j < i ==> !self@.is_word_at(j, text@),
            decreases self.words.len() - i,
        {
            if self.words[i].text == key {
                proof {
                    self@.lemma_find_word(i as int, text@);
                }
                return Some(i);
            }
            i = i + 1;
        }
        None
    }

    /// The number of the sentence with the text `text`.
    pub(crate) fn find_sentence(&self, text: &str) -> (found: Option<usize>)
        requires
            self@.wf(),
        ensures
            match found {
                Some(i) => self@.find_sentence(text@) == Some(i as int),
                None => self@.find_sentence(text@) is None,
            },
    {
        let key: String = text.to_owned();
        let mut i: usize = 0;
        while i < self.sentences.len()
            invariant
                i <= self.sentences.len(),
                key@ == text@,
                self@.wf(),
                forall|j: int| 0 <= j < i ==> !self@.is_sentence_at(j, text@),
            decreases self.sentences.len() - i,
        {
            if self.sentences[i] == key {
                proof {
                    self@.lemma_find_sentence(i as int, text@);
                }
                return Some(i);
            }
            i = i + 1;
        }
        None
    }

    /// Whether word number `word` occurs in sentence number `sentence`.
    pub(crate) fn contains_word(&self, sentence: usize, word: usize) -> (held: bool)
        requires
            sentence < self@.members.len(),
        ensures
            held == self@.holds(sentence as int, word as int),
    {
        let list: &Vec<usize> = &self.members[sentence];
        let mut k: usize = 0;
        while k < list.len()
            invariant
                k <= list.len(),
                sentence < self@.members.len(),
                numbers(list@) == self@.members[sentence as int],
                forall|l: int| 0 <= l < k ==> !self@.is_member_at(sentence as int, l, word as int),
            decreases list.len() - k,
        {
            if list[k] == word {
                assert(self@.is_member_at(sentence as int, k as int, word as int));
                return true;
            }
            k = k + 1;
        }
        false
    }

    /// Adds a word as a row of its own. The store refuses a word that is
    /// not valid, and one whose text it holds already.
    pub(crate) fn insert_word(&mut self, word: Word) -> (added: Result<usize, StoreError>)
        requires
            old(self)@.wf(),
        ensures
            final(self)@.wf(),
            match added {
                Ok(number) => {
                    &&& word@.valid()
                    &&& old(self)@.find_word(word@.text) is None
                    &&& number == old(self)@.words.len()
                    &&& final(self)@ == old(self)@.with_word(word@)
                },
                Err(error) => {
                    &&& final(self)@ == old(self)@
                    &&& !word@.valid() ==> error == StoreError::InvalidWord
                    &&& word@.valid() ==> error == StoreError::DuplicateWord && old(
                        self,
                    )@.find_word(word@.text) is Some
                },
            },
    {
        if word.count < 1 || word.ease_factor < MIN_EASE {
            return Err(StoreError::InvalidWord);
        }
        if self.find_word(word.text.as_str()).is_some() {
            return Err(StoreError::DuplicateWord);
        }
        let index: usize = self.words.len();
        let ghost row = word@;
        proof {
            self@.lemma_unknown_word(row.text);
        }
        self.words.push(word);
        assert(self@ =~= old(self)@.with_word(row));
        Ok(index)
    }

    /// Adds a sentence, without words so far. The store refuses a text
    /// that it holds already.
    pub(crate) fn insert_sentence(&mut self, text: &str) -> (added: Result<usize, StoreError>)
        requires
            old(self)@.wf(),
        ensures
            final(self)@.wf(),
            match added {
                Ok(number) => {
                    &&& old(self)@.find_sentence(text@) is None
                    &&& number == old(self)@.sentences.len()
                    &&& final(self)@ == old(self)@.with_sentence(text@)
                },
                Err(error) => {
                    &&& final(self)@ == old(self)@
                    &&& error == StoreError::DuplicateSentence
                    &&& old(self)@.find_sentence(text@) is Some
                },
            },
    {
        if self.find_sentence(text).is_some() {
            return Err(StoreError::DuplicateSentence);
        }
        let index: usize = self.sentences.len();
        proof {
            self@.lemma_unknown_sentence(text@);
        }
        self.sentences.push(text.to_owned());
        self.members.push(Vec::new());
        assert(self@ =~~= old(self)@.with_sentence(text@));
        Ok(index)
    }

    /// Records that word number `word` occurs in sentence number
    /// `sentence`, and says whether that was new.
    pub(crate) fn link(&mut self, word: usize, sentence: usize) -> (linked: Result<bool, StoreError>)
        requires
            old(self)@.wf(),
        ensures
            final(self)@.wf(),
            match linked {
                Ok(new) => {
                    &&& word < old(self)@.words.len()
                    &&& sentence < old(self)@.sentences.len()
                    &&& new == !old(self)@.holds(sentence as int, word as int)
                    &&& final(self)@ == old(self)@.with_link(word as int, sentence as int)
                },
                Err(error) => {
                    &&& final(self)@ == old(self)@
                    &&& word >= old(self)@.words.len() ==> error == StoreError::UnknownWord
                    &&& word < old(self)@.words.len() ==> error == StoreError::UnknownSentence
                        && sentence >= old(self)@.sentences.len()
                },
            },
    {
        if word >= self.words.len() {
            return Err(StoreError::UnknownWord);
        }
        if sentence >= self.sentences.len() {
            return Err(StoreError::UnknownSentence);
        }
        if self.contains_word(sentence, word) {
            return Ok(false);
        }
        proof {
            assert forall|k: int| 0 <= k < self@.members[sentence as int].len() implies
                #[trigger] self@.members[sentence as int][k] != word by {
                assert(!self@.is_member_at(sentence as int, k, word as int));
            }
        }
        self.members[sentence].push(word);
        assert(self@ =~~= old(self)@.with_link(word as int, sentence as int));
        Ok(true)
    }

    /// Counts one more occurrence of word number `word`.
    pub(crate) fn count_occurrence(&mut self, word: usize)
        requires
            old(self)@.wf(),
            word < old(self)@.words.len(),
        ensures
            final(self)@.wf(),
            final(self)@ == old(self)@.with_occurrence(word as int),
    {
        if self.words[word].count < u64::MAX {
            self.words[word].count = self.words[word].count + 1;
        }
        assert(self@ =~= old(self)@.with_occurrence(word as int));
    }

    /// Stores the outcome of a review of word number `word`.
    pub(crate) fn reschedule(&mut self, word: usize, item: SuperMemoItem, due: i64)
        requires
            old(self)@.wf(),
            word < old(self)@.words.len(),
            item.ease_factor >= MIN_EASE,
        ensures
            final(self)@.wf(),
            final(self)@ == old(self)@.with_schedule(word as int, item, due),
    {
        self.words[word].reviewed = true;
        self.words[word].next_review_at = Some(due);
        self.words[word].review_duration = item.duration;
        self.words[word].ease_factor = item.ease_factor;
        self.words[word].repetition = item.repetition;
        assert(self@ =~= old(self)@.with_schedule(word as int, item, due));
    }
}

} // verus!
