//! Choosing the word to review next: a word whose review is overdue comes
//! before any word that was never reviewed.

use crate::clock::current_time;
use crate::knowledge::Knowledge;
use crate::store::KnowledgeDB;
use vstd::prelude::*;

verus! {

impl Knowledge {
    /// Whether word `i` was reviewed before and is due again: its next
    /// review lies before `now`.
    pub open spec fn is_due(self, i: int, now: i64) -> bool {
        &&& 0 <= i < self.words.len()
        &&& self.words[i].reviewed
        &&& self.words[i].next_review_at matches Some(at)
        &&& at < now
    }

    /// Whether word `i` was never reviewed.
    pub open spec fn is_new(self, i: int) -> bool {
        0 <= i < self.words.len() && !self.words[i].reviewed
    }

    /// When word `i` is due. Meaningful for a word that has a due time.
    pub open spec fn due_at(self, i: int) -> i64 {
        self.words[i].next_review_at->0
    }

    /// Whether word `i` is the due word to take: none is due earlier, and
    /// every due word with a lower number is due later.
    pub open spec fn is_earliest_due(self, i: int, now: i64) -> bool {
        &&& self.is_due(i, now)
        &&& forall|j: int| #[trigger] self.is_due(j, now) ==> self.due_at(i) <= self.due_at(j)
        &&& forall|j: int| #[trigger] self.is_due(j, now) && j < i ==> self.due_at(i) < self.due_at(j)
    }

    /// Whether word `i` is the new word to take: none has a lower
    /// frequency rank, and every new word with a lower number has a higher
    /// rank.
    pub open spec fn is_most_frequent_new(self, i: int) -> bool {
        &&& self.is_new(i)
        &&& forall|j: int|
            #[trigger] self.is_new(j) ==> self.words[i].frequency_rank
                <= self.words[j].frequency_rank
        &&& forall|j: int|
            #[trigger] self.is_new(j) && j < i ==> self.words[i].frequency_rank
                < self.words[j].frequency_rank
    }

    /// Whether word `i` is the word to review at the time `now`: the
    /// earliest due word, or, where no word is due, the most frequent new
    /// one.
    pub open spec fn is_pick(self, i: int, now: i64) -> bool {
        ||| self.is_earliest_due(i, now)
        ||| (forall|j: int| !self.is_due(j, now)) && self.is_most_frequent_new(i)
    }

    /// Whether no word is due at the time `now` and none is new.
    pub open spec fn nothing_to_review(self, now: i64) -> bool {
        &&& forall|j: int| !#[trigger] self.is_due(j, now)
        &&& forall|j: int| !#[trigger] self.is_new(j)
    }

    /// Whether `text` is what the learner is handed at the time `now`: the
    /// text of the pick, or nothing where there is nothing to review.
    pub open spec fn picked_at(self, now: i64, text: Option<String>) -> bool {
        match text {
            Some(t) => exists|i: int| (#[trigger] self.is_pick(i, now)) && t@ == self.words[i].text,
            None => self.nothing_to_review(now),
        }
    }

    /// At most one word is the pick.
    pub proof fn lemma_pick_is_unique(self, i: int, j: int, now: i64)
        requires
            self.is_pick(i, now),
            self.is_pick(j, now),
        ensures
            i == j,
    {
    }

    /// While any word is overdue, the pick is an overdue word, and so never
    /// one that was not reviewed yet, whatever the frequency ranks are.
    pub proof fn lemma_due_word_comes_first(self, pick: int, due: int, now: i64)
        requires
            self.is_pick(pick, now),
            self.is_due(due, now),
        ensures
            self.is_due(pick, now),
            !self.is_new(pick),
            self.due_at(pick) <= self.due_at(due),
    {
    }
}

impl KnowledgeDB {
    /// The number of the due word to take at the time `now`, if any word
    /// is due.
    pub fn earliest_due_word(&self, now: i64) -> (found: Option<usize>)
        ensures
            match found {
                Some(i) => self@.is_earliest_due(i as int, now),
                None => forall|j: int| !self@.is_due(j, now),
            },
    {
        let count: usize = self.word_count();
        let mut best: Option<(usize, i64)> = None;
        let mut i: usize = 0;
        while i < count
            invariant
                i <= count,
                count == self@.words.len(),
                match best {
                    Some((b, at)) => {
                        &&& b < i
                        &&& self@.is_due(b as int, now)
                        &&& at == self@.due_at(b as int)
                        &&& forall|j: int|
                            #[trigger] self@.is_due(j, now) && j < i ==> at <= self@.due_at(j)
                        &&& forall|j: int|
                            #[trigger] self@.is_due(j, now) && j < b ==> at < self@.due_at(j)
                    },
                    None => forall|j: int| #[trigger] self@.is_due(j, now) ==> j >= i,
                },
            decreases count - i,
        {
            let word = self.word(i);
            if word.reviewed {
                match word.next_review_at {
                    Some(at) => {
                        if at < now {
                            match best {
                                Some((_, earliest)) => {
                                    if at < earliest {
                                        best = Some((i, at));
                                    }
                                },
                                None => {
                                    best = Some((i, at));
                                },
                            }
                        }
                    },
                    None => {},
                }
            }
            i = i + 1;
        }
        match best {
            Some((b, _)) => Some(b),
            None => None,
        }
    }

    /// The number of the new word to take, if any word was never reviewed.
    pub fn most_frequent_new_word(&self) -> (found: Option<usize>)
        ensures
            match found {
                Some(i) => self@.is_most_frequent_new(i as int),
                None => forall|j: int| !self@.is_new(j),
            },
    {
        let count: usize = self.word_count();
        let mut best: Option<(usize, i64)> = None;
        let mut i: usize = 0;
        while i < count
            invariant
                i <= count,
                count == self@.words.len(),
                match best {
                    Some((b, rank)) => {
                        &&& b < i
                        &&& self@.is_new(b as int)
                        &&& rank == self@.words[b as int].frequency_rank
                        &&& forall|j: int|
                            #[trigger] self@.is_new(j) && j < i ==> rank
                                <= self@.words[j].frequency_rank
                        &&& forall|j: int|
                            #[trigger] self@.is_new(j) && j < b ==> rank
                                < self@.words[j].frequency_rank
                    },
                    None => forall|j: int| #[trigger] self@.is_new(j) ==> j >= i,
                },
            decreases count - i,
        {
            let word = self.word(i);
            if !word.reviewed {
                match best {
                    Some((_, rank)) => {
                        if word.frequency_rank < rank {
                            best = Some((i, word.frequency_rank));
                        }
                    },
                    None => {
                        best = Some((i, word.frequency_rank));
                    },
                }
            }
            i = i + 1;
        }
        match best {
            Some((b, _)) => Some(b),
            None => None,
        }
    }

    /// The number of the word to review at the time `now`.
    pub fn pick_word(&self, now: i64) -> (found: Option<usize>)
        ensures
            match found {
                Some(i) => self@.is_pick(i as int, now),
                None => self@.nothing_to_review(now),
            },
    {
        match self.earliest_due_word(now) {
            Some(i) => Some(i),
            None => self.most_frequent_new_word(),
        }
    }

    /// The word to review at the time `now`, in seconds since the Unix
    /// epoch.
    ///
    /// A word whose review is overdue comes first, and of those the one
    /// that has been due the longest. Where none is overdue, it is the most
    /// frequent word that was never reviewed. Of several words that are
    /// equal in this, the one that came in first is taken. `None` where
    /// there is nothing to review.
    pub fn pick_word_to_review(&self, now: i64) -> (text: Option<String>)
        ensures
            self@.picked_at(now, text),
    {
        match self.pick_word(now) {
            Some(i) => {
                let word = self.word(i);
                let text: String = word.text.clone();
                Some(text)
            },
            None => None,
        }
    }

    /// The word to review now, by the system clock: what
    /// `pick_word_to_review` gives for the time that the clock shows.
    /// Where the system clock stands before 1970, the clock of chrono, and
    /// so this function, does not return.
    pub fn get_word_to_review(&self) -> (text: Option<String>)
        ensures
            exists|now: i64| #[trigger] self@.picked_at(now, text),
    {
        let now: i64 = current_time();
        let text = self.pick_word_to_review(now);
        text
    }
}

} // verus!
