//! Taking a sentence and its words into the store.

use crate::frequency::rank_in;
use crate::scheduler::DEFAULT_EASE;
use crate::knowledge::{Knowledge, WordView};
use crate::store::{KnowledgeDB, Word};
use vstd::prelude::*;

verus! {

/// Why a sentence was not taken in.
#[derive(Clone, Copy, Debug, PartialEq, Eq, Structural)]
pub enum IngestError {
    /// The sentence came without a single word.
    EmptyTokenization,
    /// The tokenizer could not split the sentence.
    TokenizerFailed,
}

/// How many of the first `n` of `tokens` are `text`.
pub open spec fn occurrences(tokens: Seq<Seq<char>>, text: Seq<char>, n: nat) -> nat
    decreases n,
{
    if n == 0 {
        0
    } else if tokens[n - 1] == text {
        occurrences(tokens, text, (n - 1) as nat) + 1
    } else {
        occurrences(tokens, text, (n - 1) as nat)
    }
}

/// A count, as far as a `u64` holds it.
pub open spec fn saturated(count: int) -> u64 {
    if count > u64::MAX {
        u64::MAX
    } else {
        count as u64
    }
}

/// A text that is none of the tokens occurs nowhere among them.
pub proof fn lemma_no_occurrence(tokens: Seq<Seq<char>>, text: Seq<char>, n: nat)
    requires
        forall|k: int| 0 <= k < n ==> tokens[k] != text,
    ensures
        occurrences(tokens, text, n) == 0,
    decreases n,
{
    if n > 0 {
        lemma_no_occurrence(tokens, text, (n - 1) as nat);
    }
}

impl Knowledge {
    /// The store after one occurrence of `token` in sentence `s`: a word
    /// that is known is counted once more, a new one comes in with the rank
    /// that the frequency list gives it; either way the word is linked to
    /// the sentence.
    pub open spec fn ingest_word(self, s: int, token: Seq<char>) -> Knowledge {
        match self.find_word(token) {
            Some(w) => self.with_occurrence(w).with_link(w, s),
            None => self.with_word(WordView::fresh(token, rank_in(self.ranking, token))).with_link(
                self.words.len() as int,
                s,
            ),
        }
    }

    /// The store after the first `n` of `tokens` occurred in sentence `s`.
    pub open spec fn ingest_words(self, s: int, tokens: Seq<Seq<char>>, n: nat) -> Knowledge
        decreases n,
    {
        if n == 0 {
            self
        } else {
            self.ingest_words(s, tokens, (n - 1) as nat).ingest_word(s, tokens[n - 1])
        }
    }

    /// The store after `sentence` came in with the words `tokens`. A
    /// sentence without words, and one whose text the store holds already,
    /// change nothing.
    pub open spec fn ingest(self, sentence: Seq<char>, tokens: Seq<Seq<char>>) -> Knowledge {
        if tokens.len() == 0 || self.find_sentence(sentence) is Some {
            self
        } else {
            self.with_sentence(sentence).ingest_words(
                self.sentences.len() as int,
                tokens,
                tokens.len(),
            )
        }
    }

    /// What the caller learns when `sentence` comes in with the words
    /// `tokens`: that a sentence without words is refused, and else whether
    /// the sentence was new.
    pub open spec fn ingest_outcome(self, sentence: Seq<char>, tokens: Seq<Seq<char>>) -> Result<
        bool,
        IngestError,
    > {
        if tokens.len() == 0 {
            Err(IngestError::EmptyTokenization)
        } else {
            Ok(self.find_sentence(sentence) is None)
        }
    }

    /// Whether `later` holds every word of `self` under its old number,
    /// with its text, its frequency rank and its scheduling state as they
    /// were, and counted no less often.
    pub open spec fn keeps_words(self, later: Knowledge) -> bool {
        &&& self.words.len() <= later.words.len()
        &&& forall|i: int|
            0 <= i < self.words.len() ==> {
                &&& (#[trigger] later.words[i]).text == self.words[i].text
                &&& later.words[i].frequency_rank == self.words[i].frequency_rank
                &&& later.words[i].reviewed == self.words[i].reviewed
                &&& later.words[i].next_review_at == self.words[i].next_review_at
                &&& later.words[i].item() == self.words[i].item()
                &&& later.words[i].count >= self.words[i].count
            }
    }

    /// One occurrence of a word keeps the store well-formed and leaves its
    /// sentences and its frequency list alone. Of the words, it changes no
    /// more than a count.
    pub proof fn lemma_ingest_word(self, s: int, token: Seq<char>)
        requires
            self.wf(),
            0 <= s < self.sentences.len(),
        ensures
            self.ingest_word(s, token).wf(),
            self.ingest_word(s, token).sentences == self.sentences,
            self.ingest_word(s, token).ranking == self.ranking,
            self.keeps_words(self.ingest_word(s, token)),
            self.ingest_word(s, token).find_word(token) is Some,
            self.ingest_word(s, token).holds(
                s,
                self.ingest_word(s, token).find_word(token)->0,
            ),
    {
        let after = self.ingest_word(s, token);
        match self.find_word(token) {
            Some(w) => {
                let counted = self.with_occurrence(w);
                assert(counted.with_link(w, s).wf()) by {
                    if !counted.holds(s, w) {
                        assert forall|k: int| 0 <= k < counted.members[s].len() implies
                            #[trigger] counted.members[s][k] != w by {
                            assert(!counted.is_member_at(s, k, w));
                        }
                    }
                }
                after.lemma_find_word(w, token);
                if !counted.holds(s, w) {
                    assert(after.is_member_at(s, counted.members[s].len() as int, w));
                }
            },
            None => {
                let grown = self.with_word(WordView::fresh(token, rank_in(self.ranking, token)));
                let w = self.words.len() as int;
                self.lemma_unknown_word(token);
                after.lemma_find_word(w, token);
                if !grown.holds(s, w) {
                    assert(after.is_member_at(s, grown.members[s].len() as int, w));
                }
            },
        }
    }

    /// Whether word `w` bears the text of one of the first `n` of `tokens`.
    pub open spec fn names_one_of(self, w: int, tokens: Seq<Seq<char>>, n: nat) -> bool {
        exists|k: int| 0 <= k < n && #[trigger] self.is_word_at(w, tokens[k])
    }

    /// Whether `later` lists for every sentence but `s` the words that
    /// `self` lists for it.
    pub open spec fn keeps_links_but(self, later: Knowledge, s: int) -> bool {
        &&& later.members.len() == self.members.len()
        &&& forall|t: int|
            0 <= t < self.members.len() && t != s ==> #[trigger] later.members[t]
                == self.members[t]
    }

    /// One occurrence of `token` in sentence `s` links the word of that
    /// text to the sentence and changes no other link. The words keep
    /// their texts, and the only text that may be new is `token`.
    pub proof fn lemma_ingest_word_links(self, s: int, token: Seq<char>)
        requires
            self.wf(),
            0 <= s < self.sentences.len(),
        ensures
            self.keeps_links_but(self.ingest_word(s, token), s),
            forall|w: int| #[trigger]
                self.ingest_word(s, token).holds(s, w) <==> self.holds(s, w) || self.ingest_word(
                    s,
                    token,
                ).is_word_at(w, token),
            forall|w: int, text: Seq<char>| #[trigger]
                self.is_word_at(w, text) ==> self.ingest_word(s, token).is_word_at(w, text),
            forall|w: int, text: Seq<char>| #[trigger]
                self.ingest_word(s, token).is_word_at(w, text) ==> self.is_word_at(w, text) || text
                    == token,
    {
        let after = self.ingest_word(s, token);
        self.lemma_ingest_word(s, token);
        let linked: int = match self.find_word(token) {
            Some(w) => w,
            None => self.words.len() as int,
        };
        assert forall|w: int| #[trigger] after.holds(s, w) <==> self.holds(s, w)
            || after.is_word_at(w, token) by {
            if self.holds(s, w) {
                let k = choose|k: int| self.is_member_at(s, k, w);
                assert(after.is_member_at(s, k, w));
            }
            if after.holds(s, w) && w != linked {
                let k = choose|k: int| after.is_member_at(s, k, w);
                assert(self.is_member_at(s, k, w));
            }
        }
    }

    /// Any number of occurrences links to sentence `s` just the words that
    /// bear the text of one of them, besides those that were linked
    /// before, and changes no link of another sentence.
    pub proof fn lemma_ingest_words_links(self, s: int, tokens: Seq<Seq<char>>, n: nat)
        requires
            self.wf(),
            0 <= s < self.sentences.len(),
            n <= tokens.len(),
        ensures
            self.keeps_links_but(self.ingest_words(s, tokens, n), s),
            forall|w: int| #[trigger]
                self.ingest_words(s, tokens, n).holds(s, w) <==> self.holds(s, w)
                    || self.ingest_words(s, tokens, n).names_one_of(w, tokens, n),
        decreases n,
    {
        if n > 0 {
            let m = (n - 1) as nat;
            self.lemma_ingest_words(s, tokens, m);
            self.lemma_ingest_words_links(s, tokens, m);
            self.ingest_words(s, tokens, m).lemma_ingest_word_links(s, tokens[m as int]);
        }
    }

    /// A sentence that is new is linked to just the words that bear the
    /// text of one of its tokens, and no other sentence gains or loses a
    /// word by it.
    pub proof fn lemma_ingest_links(self, sentence: Seq<char>, tokens: Seq<Seq<char>>)
        requires
            self.wf(),
            tokens.len() > 0,
            self.find_sentence(sentence) is None,
        ensures
            self.ingest(sentence, tokens).is_sentence_at(self.sentences.len() as int, sentence),
            forall|w: int| #[trigger]
                self.ingest(sentence, tokens).holds(self.sentences.len() as int, w)
                    <==> self.ingest(sentence, tokens).names_one_of(w, tokens, tokens.len()),
            forall|t: int|
                0 <= t < self.sentences.len() ==> #[trigger] self.ingest(
                    sentence,
                    tokens,
                ).members[t] == self.members[t],
    {
        let s = self.sentences.len() as int;
        let started = self.with_sentence(sentence);
        self.lemma_unknown_sentence(sentence);
        started.lemma_ingest_words(s, tokens, tokens.len());
        started.lemma_ingest_words_links(s, tokens, tokens.len());
    }

    /// How often word `w` had occurred; not at all, for a word that the
    /// store does not hold.
    pub open spec fn prior_count(self, w: int) -> int {
        if 0 <= w < self.words.len() {
            self.words[w].count as int
        } else {
            0
        }
    }

    /// Whether `later` counts each of its words as often as `self` did,
    /// and once more for each of the first `n` of `tokens` that is its
    /// text, as far as a `u64` holds that.
    pub open spec fn counts_tokens(self, later: Knowledge, tokens: Seq<Seq<char>>, n: nat) -> bool {
        forall|w: int|
            0 <= w < later.words.len() ==> (#[trigger] later.words[w]).count == saturated(
                self.prior_count(w) + occurrences(tokens, later.words[w].text, n),
            )
    }

    /// One occurrence of `token` counts the word of that text once more,
    /// and no other. A word that comes in by it bears that text.
    pub proof fn lemma_ingest_word_counts(self, s: int, token: Seq<char>)
        requires
            self.wf(),
            0 <= s < self.sentences.len(),
        ensures
            self.ingest_word(s, token).words.len() <= self.words.len() + 1,
            forall|w: int|
                0 <= w < self.ingest_word(s, token).words.len() ==> (#[trigger] self.ingest_word(
                    s,
                    token,
                ).words[w]).count == if self.ingest_word(s, token).words[w].text == token {
                    saturated(self.prior_count(w) + 1)
                } else {
                    self.words[w].count
                },
            forall|w: int|
                self.words.len() <= w < self.ingest_word(s, token).words.len()
                    ==> (#[trigger] self.ingest_word(s, token).words[w]).text == token,
    {
        if self.find_word(token) is None {
            self.lemma_unknown_word(token);
        }
    }

    /// Any number of occurrences counts each word once for each of them
    /// that is its text. The words that come in by them bear the text of
    /// one of them, and afterwards the store holds a word for each.
    pub proof fn lemma_ingest_words_counts(self, s: int, tokens: Seq<Seq<char>>, n: nat)
        requires
            self.wf(),
            0 <= s < self.sentences.len(),
            n <= tokens.len(),
        ensures
            self.counts_tokens(self.ingest_words(s, tokens, n), tokens, n),
            forall|w: int|
                self.words.len() <= w < self.ingest_words(s, tokens, n).words.len()
                    ==> #[trigger] self.ingest_words(s, tokens, n).names_one_of(w, tokens, n),
            forall|k: int|
                0 <= k < n ==> self.ingest_words(s, tokens, n).find_word(#[trigger] tokens[k])
                    is Some,
        decreases n,
    {
        let after = self.ingest_words(s, tokens, n);
        if n > 0 {
            let m = (n - 1) as nat;
            let token = tokens[m as int];
            let before = self.ingest_words(s, tokens, m);
            self.lemma_ingest_words(s, tokens, m);
            self.lemma_ingest_words_counts(s, tokens, m);
            before.lemma_ingest_word(s, token);
            before.lemma_ingest_word_counts(s, token);
            before.lemma_ingest_word_links(s, token);
            assert forall|w: int| self.words.len() <= w < after.words.len() implies
                #[trigger] after.names_one_of(w, tokens, n) by {
                if w < before.words.len() {
                    assert(before.names_one_of(w, tokens, m));
                }
            }
            assert forall|w: int| 0 <= w < after.words.len() implies (#[trigger] after.words[w]).count
                == saturated(self.prior_count(w) + occurrences(tokens, after.words[w].text, n)) by {
                if w >= before.words.len() {
                    // the word is new, so that none of the tokens before was its text
                    lemma_no_occurrence(tokens, token, m);
                }
            }
        }
    }

    /// A sentence that is new counts each word once for each of its tokens
    /// that is the word's text, and every word that comes in with it bears
    /// the text of one of its tokens.
    pub proof fn lemma_ingest_counts(self, sentence: Seq<char>, tokens: Seq<Seq<char>>)
        requires
            self.wf(),
            tokens.len() > 0,
            self.find_sentence(sentence) is None,
        ensures
            self.counts_tokens(self.ingest(sentence, tokens), tokens, tokens.len()),
            forall|w: int|
                self.words.len() <= w < self.ingest(sentence, tokens).words.len()
                    ==> #[trigger] self.ingest(sentence, tokens).names_one_of(
                    w,
                    tokens,
                    tokens.len(),
                ),
            forall|k: int|
                0 <= k < tokens.len() ==> self.ingest(sentence, tokens).find_word(
                    #[trigger] tokens[k],
                ) is Some,
    {
        let s = self.sentences.len() as int;
        let started = self.with_sentence(sentence);
        self.lemma_unknown_sentence(sentence);
        started.lemma_ingest_words_counts(s, tokens, tokens.len());
    }

    /// Any number of occurrences keeps the store well-formed and leaves its
    /// sentences and its frequency list alone. Of the words that were
    /// there, it changes no more than the counts.
    pub proof fn lemma_ingest_words(self, s: int, tokens: Seq<Seq<char>>, n: nat)
        requires
            self.wf(),
            0 <= s < self.sentences.len(),
            n <= tokens.len(),
        ensures
            self.ingest_words(s, tokens, n).wf(),
            self.ingest_words(s, tokens, n).sentences == self.sentences,
            self.ingest_words(s, tokens, n).ranking == self.ranking,
            self.keeps_words(self.ingest_words(s, tokens, n)),
        decreases n,
    {
        if n > 0 {
            let before = self.ingest_words(s, tokens, (n - 1) as nat);
            self.lemma_ingest_words(s, tokens, (n - 1) as nat);
            before.lemma_ingest_word(s, tokens[n - 1]);
        }
    }

    /// Taking a sentence in keeps the store well-formed. Afterwards the
    /// store holds the sentence, unless it came without words; and it holds
    /// each sentence that it held before, under its old number. A word that
    /// was known keeps its number, its text, its frequency rank and its
    /// scheduling state.
    pub proof fn lemma_ingest(self, sentence: Seq<char>, tokens: Seq<Seq<char>>)
        requires
            self.wf(),
        ensures
            self.ingest(sentence, tokens).wf(),
            self.ingest(sentence, tokens).ranking == self.ranking,
            tokens.len() > 0 ==> self.ingest(sentence, tokens).find_sentence(sentence) is Some,
            self.sentences.is_prefix_of(self.ingest(sentence, tokens).sentences),
            self.ingest(sentence, tokens).sentences.len() <= self.sentences.len() + 1,
            self.keeps_words(self.ingest(sentence, tokens)),
    {
        if tokens.len() > 0 && self.find_sentence(sentence) is None {
            let s = self.sentences.len() as int;
            let started = self.with_sentence(sentence);
            self.lemma_unknown_sentence(sentence);
            started.lemma_ingest_words(s, tokens, tokens.len());
            let after = self.ingest(sentence, tokens);
            assert(after.is_sentence_at(s, sentence));
        }
    }

    /// Taking a sentence in twice with the same words is the same as taking
    /// it in once, whatever the sentence and the words are: one that is
    /// refused is refused again, and one that is taken in is known the
    /// second time.
    pub proof fn lemma_ingest_twice(self, sentence: Seq<char>, tokens: Seq<Seq<char>>)
        requires
            self.wf(),
        ensures
            self.ingest(sentence, tokens).ingest(sentence, tokens) == self.ingest(sentence, tokens),
            self.ingest(sentence, tokens).wf(),
    {
        self.lemma_ingest(sentence, tokens);
    }

    /// Taking the same sentence in a second time changes nothing, whatever
    /// words come with it: no word is counted again, and the store still
    /// holds the sentence once, for it holds it and is well-formed.
    pub proof fn lemma_ingest_idempotent(
        self,
        sentence: Seq<char>,
        tokens: Seq<Seq<char>>,
        again: Seq<Seq<char>>,
    )
        requires
            self.wf(),
            tokens.len() > 0,
        ensures
            self.ingest(sentence, tokens).ingest(sentence, again) == self.ingest(sentence, tokens),
            self.ingest(sentence, tokens).ingest(sentence, again).find_sentence(sentence) is Some,
            self.ingest(sentence, tokens).ingest(sentence, again).wf(),
    {
        self.lemma_ingest(sentence, tokens);
    }
}

impl KnowledgeDB {
    /// Takes in one occurrence of `token` in sentence number `sentence`.
    fn ingest_word(&mut self, sentence: usize, token: &str)
        requires
            sentence < old(self)@.sentences.len(),
        ensures
            final(self)@.wf(),
            final(self)@ == old(self)@.ingest_word(sentence as int, token@),
            final(self)@.sentences == old(self)@.sentences,
    {
        proof {
            use_type_invariant(&*self);
            self@.lemma_ingest_word(sentence as int, token@);
        }
        match self.find_word(token) {
            Some(word) => {
                self.count_occurrence(word);
                let _ = self.link(word, sentence);
            },
            None => {
                let frequency_rank: i64 = self.rank_of(token);
                let word = Word {
                    text: token.to_owned(),
                    count: 1,
                    frequency_rank,
                    reviewed: false,
                    next_review_at: None,
                    review_duration: 0,
                    ease_factor: DEFAULT_EASE,
                    repetition: 0,
                };
                match self.insert_word(word) {
                    Ok(index) => {
                        let _ = self.link(index, sentence);
                    },
                    Err(_) => {},
                }
            },
        }
    }

    /// Takes in a sentence with its words, given in their base forms.
    ///
    /// A sentence that is new is stored, and each of `tokens` is counted
    /// and linked to it, in order. A sentence whose text the store holds
    /// already changes nothing, and `Ok(false)` says so. A sentence without
    /// words is refused.
    pub fn ingest(&mut self, sentence: &str, tokens: &Vec<String>) -> (taken: Result<
        bool,
        IngestError,
    >)
        ensures
            final(self)@.wf(),
            final(self)@ == old(self)@.ingest(sentence@, tokens.deep_view()),
            taken == old(self)@.ingest_outcome(sentence@, tokens.deep_view()),
    {
        proof {
            use_type_invariant(&*self);
        }
        if tokens.len() == 0 {
            return Err(IngestError::EmptyTokenization);
        }
        match self.insert_sentence(sentence) {
            Err(_) => Ok(false),
            Ok(number) => {
                let mut i: usize = 0;
                while i < tokens.len()
                    invariant
                        i <= tokens.len(),
                        self@.wf(),
                        number == old(self)@.sentences.len(),
                        number < self@.sentences.len(),
                        self@ == old(self)@.with_sentence(sentence@).ingest_words(
                            number as int,
                            tokens.deep_view(),
                            i as nat,
                        ),
                    decreases tokens.len() - i,
                {
                    self.ingest_word(number, tokens[i].as_str());
                    i = i + 1;
                }
                Ok(true)
            },
        }
    }
}

} // verus!
