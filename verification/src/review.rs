//! Recording the outcome of a review.

use crate::clock::current_time;
use crate::scheduler::{schedule, super_memo_2, SuperMemoItem, MAX_QUALITY};
use crate::knowledge::Knowledge;
use crate::store::KnowledgeDB;
use vstd::prelude::*;

verus! {

/// The seconds of a day.
pub const SECONDS_PER_DAY: i64 = 86_400;

/// Why a review was not recorded.
#[derive(Clone, Copy, Debug, PartialEq, Eq, Structural)]
pub enum ReviewError {
    /// The quality rating is above `MAX_QUALITY`.
    InvalidQuality,
    /// The store does not hold the word.
    WordNotFound,
}

/// The time `days` days after `now`, in seconds since the Unix epoch, kept
/// within an `i64`.
pub open spec fn due_after(now: i64, days: u32) -> i64 {
    if now + SECONDS_PER_DAY * days > i64::MAX {
        i64::MAX
    } else {
        (now + SECONDS_PER_DAY * days) as i64
    }
}

/// The time `days` days after `now`.
pub fn next_review_time(now: i64, days: u32) -> (due: i64)
    ensures
        due == due_after(now, days),
{
    let later: i128 = now as i128 + 86_400 * (days as i128);
    if later > i64::MAX as i128 {
        i64::MAX
    } else {
        later as i64
    }
}

impl Knowledge {
    /// The store after word `w` was reviewed at the time `now` and rated
    /// `quality`: the word is marked as reviewed, its scheduling state is
    /// what `schedule` makes of the old one, and it is due again after the
    /// new interval.
    pub open spec fn review(self, w: int, quality: u32, now: i64) -> Knowledge {
        let item = schedule(self.words[w].item(), quality);
        self.with_schedule(w, item, due_after(now, item.duration))
    }

    /// Whether `after` and `done` are what recording a review of `word` at
    /// the time `now` owes: a rating that is admitted, for a word that the
    /// store holds, gives the store after the review; anything else is
    /// refused, the rating first, and leaves the store as it was.
    pub open spec fn reviewed_at(
        self,
        after: Knowledge,
        word: Seq<char>,
        quality: u32,
        now: i64,
        done: Result<(), ReviewError>,
    ) -> bool {
        match done {
            Ok(_) => {
                &&& quality <= MAX_QUALITY
                &&& self.find_word(word) matches Some(w)
                &&& after == self.review(w, quality, now)
            },
            Err(error) => {
                &&& after == self
                &&& quality > MAX_QUALITY ==> error == ReviewError::InvalidQuality
                &&& quality <= MAX_QUALITY ==> error == ReviewError::WordNotFound
                    && self.find_word(word) is None
            },
        }
    }

    /// A review keeps the store well-formed; in particular the ease factor
    /// of the word stays at or above the floor. It touches no other word and
    /// no sentence.
    pub proof fn lemma_review(self, w: int, quality: u32, now: i64)
        requires
            self.wf(),
            0 <= w < self.words.len(),
        ensures
            self.review(w, quality, now).wf(),
            self.review(w, quality, now).words[w].reviewed,
            self.review(w, quality, now).words[w].text == self.words[w].text,
            self.review(w, quality, now).words[w].count == self.words[w].count,
            self.review(w, quality, now).words[w].frequency_rank == self.words[w].frequency_rank,
            self.review(w, quality, now).words.len() == self.words.len(),
            forall|i: int|
                0 <= i < self.words.len() && i != w ==> self.review(w, quality, now).words[i]
                    == self.words[i],
            self.review(w, quality, now).sentences == self.sentences,
            self.review(w, quality, now).members == self.members,
    {
        crate::scheduler::lemma_ease_floor(self.words[w].item(), quality);
    }
}

impl KnowledgeDB {
    /// Records that `word` was reviewed at the time `now`, in seconds
    /// since the Unix epoch, and rated `quality`, in hundredths of a grade.
    ///
    /// A rating above `MAX_QUALITY` is refused, and so is a word that the
    /// store does not hold; neither changes the store.
    pub fn record_review(&mut self, word: &str, quality: u32, now: i64) -> (done: Result<
        (),
        ReviewError,
    >)
        ensures
            final(self)@.wf(),
            old(self)@.reviewed_at(final(self)@, word@, quality, now, done),
    {
        proof {
            use_type_invariant(&*self);
        }
        if quality > MAX_QUALITY {
            return Err(ReviewError::InvalidQuality);
        }
        match self.find_word(word) {
            None => Err(ReviewError::WordNotFound),
            Some(w) => {
                proof {
                    use_type_invariant(&*self);
                }
                let known = self.word(w);
                let before = SuperMemoItem {
                    repetition: known.repetition,
                    duration: known.review_duration,
                    ease_factor: known.ease_factor,
                };
                let after: SuperMemoItem = super_memo_2(before, quality);
                proof {
                    crate::scheduler::lemma_ease_floor(before, quality);
                }
                let due: i64 = next_review_time(now, after.duration);
                self.reschedule(w, after, due);
                Ok(())
            },
        }
    }

    /// Records a review of `word` that takes place now, by the system
    /// clock: what `record_review` does for the time that the clock shows.
    /// Where the system clock stands before 1970, the clock of chrono, and
    /// so this function, does not return.
    pub fn review_word(&mut self, word: &str, quality: u32) -> (done: Result<(), ReviewError>)
        ensures
            final(self)@.wf(),
            exists|now: i64| #[trigger]
                old(self)@.reviewed_at(final(self)@, word@, quality, now, done),
    {
        let now: i64 = current_time();
        let done = self.record_review(word, quality, now);
        done
    }
}

} // verus!
