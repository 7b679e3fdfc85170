//! The lexical store: words, sentences, and which word occurs in which
//! sentence.

use crate::frequency::WordFrequencyList;
use crate::knowledge::{numbers, Knowledge, WordView};
use crate::scheduler::{SuperMemoItem, MIN_EASE};
use crate::tables::Tables;
use vstd::prelude::*;

verus! {

/// A word and what is known of it.
#[derive(Debug)]
pub struct Word {
    /// The base form. No two words of a store share it.
    pub text: String,
    /// How often the word occurred in the sentences that came in.
    pub count: u64,
    /// Where the word stands in the frequency list; fixed when the word is
    /// first seen.
    pub frequency_rank: i64,
    /// Whether the word was ever graded.
    pub reviewed: bool,
    /// When the next review is due, in seconds since the Unix epoch.
    pub next_review_at: Option<i64>,
    /// The current interval between reviews, in days.
    pub review_duration: u32,
    /// The ease factor, in millionths.
    pub ease_factor: u64,
    /// Successful reviews in a row.
    pub repetition: u32,
}

impl View for Word {
    type V = WordView;

    open spec fn view(&self) -> WordView {
        WordView {
            text: self.text@,
            count: self.count,
            frequency_rank: self.frequency_rank,
            reviewed: self.reviewed,
            next_review_at: self.next_review_at,
            review_duration: self.review_duration,
            ease_factor: self.ease_factor,
            repetition: self.repetition,
        }
    }
}

/// Why the store refused a row.
#[derive(Clone, Copy, Debug, PartialEq, Eq, Structural)]
pub enum StoreError {
    /// The word never occurred, or its ease factor is below the floor.
    InvalidWord,
    /// The store already holds a word with this text.
    DuplicateWord,
    /// The store already holds a sentence with this text.
    DuplicateSentence,
    /// The store holds no word with this number.
    UnknownWord,
    /// The store holds no sentence with this number.
    UnknownSentence,
}

/// The store.
///
/// It is well-formed at all times: whatever can be done to a store keeps
/// `Knowledge::wf`.
pub struct KnowledgeDB {
    tables: Tables,
}

impl View for KnowledgeDB {
    type V = Knowledge;

    closed spec fn view(&self) -> Knowledge {
        self.tables@
    }
}

impl KnowledgeDB {
    /// The invariant of the type.
    #[verifier::type_invariant]
    pub(crate) open spec fn inv(self) -> bool {
        self@.wf()
    }

    /// An empty store that ranks its words by `word_frequency_list`.
    pub fn new(word_frequency_list: WordFrequencyList) -> (db: Self)
        ensures
            db@.wf(),
            db@ == Knowledge::empty(word_frequency_list@),
    {
        KnowledgeDB { tables: Tables::new(word_frequency_list) }
    }

    /// Takes the tables out of the store, which is left empty.
    fn take_tables(&mut self) -> (tables: Tables)
        ensures
            tables@ == old(self)@,
            tables@.wf(),
    {
        proof {
            use_type_invariant(&*self);
        }
        let mut tables: Tables = Tables::new(WordFrequencyList::default());
        std::mem::swap(&mut tables, &mut self.tables);
        tables
    }

    /// How many words the store holds.
    pub fn word_count(&self) -> (n: usize)
        ensures
            n == self@.words.len(),
    {
        self.tables.word_count()
    }

    /// How many sentences the store holds.
    pub fn sentence_count(&self) -> (n: usize)
        ensures
            n == self@.sentences.len(),
    {
        self.tables.sentence_count()
    }

    /// Word number `index`.
    pub fn word(&self, index: usize) -> (word: &Word)
        requires
            index < self@.words.len(),
        ensures
            word@ == self@.words[index as int],
    {
        self.tables.word(index)
    }

    /// The text of sentence number `index`.
    pub fn sentence(&self, index: usize) -> (text: &String)
        requires
            index < self@.sentences.len(),
        ensures
            text@ == self@.sentences[index as int],
    {
        self.tables.sentence(index)
    }

    /// The numbers of the words of sentence number `index`.
    pub fn sentence_words(&self, index: usize) -> (words: &Vec<usize>)
        requires
            index < self@.members.len(),
        ensures
            numbers(words@) == self@.members[index as int],
    {
        self.tables.sentence_words(index)
    }

    /// The rank that the store's frequency list gives to `word`.
    pub fn rank_of(&self, word: &str) -> (rank: i64)
        ensures
            rank == crate::frequency::rank_in(self@.ranking, word@),
            self@.ranking.len() <= crate::frequency::UNRANKED,
    {
        self.tables.rank_of(word)
    }

    /// The number of the word with the text `text`.
    pub fn find_word(&self, text: &str) -> (found: Option<usize>)
        ensures
            match found {
                Some(i) => self@.find_word(text@) == Some(i as int),
                None => self@.find_word(text@) is None,
            },
    {
        proof {
            use_type_invariant(&*self);
        }
        self.tables.find_word(text)
    }

    /// The number of the sentence with the text `text`.
    pub fn find_sentence(&self, text: &str) -> (found: Option<usize>)
        ensures
            match found {
                Some(i) => self@.find_sentence(text@) == Some(i as int),
                None => self@.find_sentence(text@) is None,
            },
    {
        proof {
            use_type_invariant(&*self);
        }
        self.tables.find_sentence(text)
    }

    /// Whether word number `word` occurs in sentence number `sentence`.
    pub fn contains_word(&self, sentence: usize, word: usize) -> (held: bool)
        ensures
            held == self@.holds(sentence as int, word as int),
    {
        proof {
            use_type_invariant(&*self);
        }
        if sentence < self.tables.sentence_count() {
            self.tables.contains_word(sentence, word)
        } else {
            false
        }
    }

    /// Adds a word as a row of its own. The store refuses a word that is
    /// not valid, and one whose text it holds already.
    pub fn insert_word(&mut self, word: Word) -> (added: Result<usize, StoreError>)
        ensures
            final(self)@.wf(),
            match added {
                Ok(number) => {
                    &&& word@.valid()
                    &&& old(self)@.find_word(word@.text) is None
                    &&& number == old(self)@.words.len()
                    &&& final(self)@ == old(self)@.with_word(word@)
                },
                Err(error) => {
                    &&& final(self)@ == old(self)@
                    &&& !word@.valid() ==> error == StoreError::InvalidWord
                    &&& word@.valid() ==> error == StoreError::DuplicateWord && old(
                        self,
                    )@.find_word(word@.text) is Some
                },
            },
    {
        let mut tables: Tables = self.take_tables();
        let added = tables.insert_word(word);
        self.tables = tables;
        added
    }

    /// Adds a sentence, without words so far. The store refuses a text
    /// that it holds already.
    pub fn insert_sentence(&mut self, text: &str) -> (added: Result<usize, StoreError>)
        ensures
            final(self)@.wf(),
            match added {
                Ok(number) => {
                    &&& old(self)@.find_sentence(text@) is None
                    &&& number == old(self)@.sentences.len()
                    &&& final(self)@ == old(self)@.with_sentence(text@)
                },
                Err(error) => {
                    &&& final(self)@ == old(self)@
                    &&& error == StoreError::DuplicateSentence
                    &&& old(self)@.find_sentence(text@) is Some
                },
            },
    {
        let mut tables: Tables = self.take_tables();
        let added = tables.insert_sentence(text);
        self.tables = tables;
        added
    }

    /// Records that word number `word` occurs in sentence number
    /// `sentence`, and says whether that was new.
    pub fn link(&mut self, word: usize, sentence: usize) -> (linked: Result<bool, StoreError>)
        ensures
            final(self)@.wf(),
            match linked {
                Ok(new) => {
                    &&& word < old(self)@.words.len()
                    &&& sentence < old(self)@.sentences.len()
                    &&& new == !old(self)@.holds(sentence as int, word as int)
                    &&& final(self)@ == old(self)@.with_link(word as int, sentence as int)
                },
                Err(error) => {
                    &&& final(self)@ == old(self)@
                    &&& word >= old(self)@.words.len() ==> error == StoreError::UnknownWord
                    &&& word < old(self)@.words.len() ==> error == StoreError::UnknownSentence
                        && sentence >= old(self)@.sentences.len()
                },
            },
    {
        let mut tables: Tables = self.take_tables();
        let linked = tables.link(word, sentence);
        self.tables = tables;
        linked
    }

    /// Counts one more occurrence of word number `word`.
    pub(crate) fn count_occurrence(&mut self, word: usize)
        requires
            word < old(self)@.words.len(),
        ensures
            final(self)@.wf(),
            final(self)@ == old(self)@.with_occurrence(word as int),
    {
        let mut tables: Tables = self.take_tables();
        tables.count_occurrence(word);
        self.tables = tables;
    }

    /// Stores the outcome of a review of word number `word`.
    pub(crate) fn reschedule(&mut self, word: usize, item: SuperMemoItem, due: i64)
        requires
            word < old(self)@.words.len(),
            item.ease_factor >= MIN_EASE,
        ensures
            final(self)@.wf(),
            final(self)@ == old(self)@.with_schedule(word as int, item, due),
    {
        let mut tables: Tables = self.take_tables();
        tables.reschedule(word, item, due);
        self.tables = tables;
    }
}

} // verus!
