//! The frequency list: a word's rank is the number of the line it stands
//! on, counted from zero, so that a lower rank means a more frequent word.

use crate::text::{chars_of, string_from_chars};
use vstd::prelude::*;

verus! {

/// The rank of a word that the list does not hold. No line has this rank.
pub const UNRANKED: i64 = i64::MAX;

/// A line without the carriage return that may end it.
pub open spec fn strip_return(line: Seq<char>) -> Seq<char> {
    if line.len() > 0 && line.last() == '\r' {
        line.drop_last()
    } else {
        line
    }
}

/// The lines that the first `n` characters of `text` complete, and the
/// characters of the line they leave open.
pub open spec fn scan_lines(text: Seq<char>, n: nat) -> (Seq<Seq<char>>, Seq<char>)
    decreases n,
{
    if n == 0 {
        (Seq::empty(), Seq::empty())
    } else {
        let (done, open) = scan_lines(text, (n - 1) as nat);
        if text[n - 1] == '\n' {
            (done.push(strip_return(open)), Seq::empty())
        } else {
            (done, open.push(text[n - 1]))
        }
    }
}

/// The lines of `text`. A line ends at a line feed, and a carriage return
/// just before the line feed is not part of it. What follows the last line
/// feed is a line too, unless it is empty.
pub open spec fn lines_of(text: Seq<char>) -> Seq<Seq<char>> {
    let (done, open) = scan_lines(text, text.len());
    if open.len() > 0 {
        done.push(open)
    } else {
        done
    }
}

/// Whether no character of `line` is a line feed.
pub open spec fn is_one_line(line: Seq<char>) -> bool {
    forall|k: int| 0 <= k < line.len() ==> line[k] != '\n'
}

/// No line that a scan has completed or left open holds a line feed.
proof fn lemma_scan_holds_no_line_feed(text: Seq<char>, n: nat)
    requires
        n <= text.len(),
    ensures
        is_one_line(scan_lines(text, n).1),
        forall|i: int|
            0 <= i < scan_lines(text, n).0.len() ==> is_one_line(#[trigger] scan_lines(text, n).0[i]),
    decreases n,
{
    if n > 0 {
        lemma_scan_holds_no_line_feed(text, (n - 1) as nat);
    }
}

/// No line of a text holds a line feed.
pub proof fn lemma_lines_hold_no_line_feed(text: Seq<char>)
    ensures
        forall|i: int| 0 <= i < lines_of(text).len() ==> is_one_line(#[trigger] lines_of(text)[i]),
{
    lemma_scan_holds_no_line_feed(text, text.len());
}

/// The lines that take part in the ranking: all of them, unless there are
/// more than `UNRANKED`, of which only the first `UNRANKED` can have a
/// rank.
pub open spec fn ranked(lines: Seq<Seq<char>>) -> Seq<Seq<char>> {
    if lines.len() <= UNRANKED {
        lines
    } else {
        lines.take(UNRANKED as int)
    }
}

/// Whether some line of `list` is `word`.
pub open spec fn is_listed(list: Seq<Seq<char>>, word: Seq<char>) -> bool {
    exists|i: int| 0 <= i < list.len() && #[trigger] list[i] == word
}

/// The greatest index at which `word` stands in `list`, or -1 if it stands
/// nowhere.
pub open spec fn last_index_of(list: Seq<Seq<char>>, word: Seq<char>) -> int
    decreases list.len(),
{
    if list.len() == 0 {
        -1
    } else if list.last() == word {
        list.len() - 1
    } else {
        last_index_of(list.drop_last(), word)
    }
}

/// The rank of `word` in `list`: the index of its last line, or `UNRANKED`
/// where no line holds it (or the index is too large to be a rank).
pub open spec fn rank_in(list: Seq<Seq<char>>, word: Seq<char>) -> i64 {
    let index = last_index_of(list, word);
    if 0 <= index < UNRANKED {
        index as i64
    } else {
        UNRANKED
    }
}

/// `last_index_of` finds `word`, and nothing stands behind what it finds.
pub proof fn lemma_last_index_of(list: Seq<Seq<char>>, word: Seq<char>)
    ensures
        -1 <= last_index_of(list, word) < list.len(),
        last_index_of(list, word) >= 0 ==> list[last_index_of(list, word)] == word,
        forall|j: int| last_index_of(list, word) < j < list.len() ==> list[j] != word,
    decreases list.len(),
{
    if list.len() > 0 && list.last() != word {
        let front = list.drop_last();
        lemma_last_index_of(front, word);
        assert forall|j: int| last_index_of(list, word) < j < list.len() implies list[j]
            != word by {
            if j < front.len() {
                assert(front[j] == list[j]);
            }
        }
    }
}

/// A word list with the rank of each of its words. It holds at most
/// `UNRANKED` words, so that each of them has a rank below `UNRANKED`. The
/// words lie in the order of their lines; a look-up walks them from the
/// end.
pub struct WordFrequencyList {
    words: Vec<String>,
}

impl View for WordFrequencyList {
    type V = Seq<Seq<char>>;

    /// The words of the list, most frequent first.
    closed spec fn view(&self) -> Seq<Seq<char>> {
        self.words.deep_view()
    }
}

impl Default for WordFrequencyList {
    /// The list without words.
    fn default() -> (list: Self)
        ensures
            list@ == Seq::<Seq<char>>::empty(),
    {
        let list = WordFrequencyList { words: Vec::new() };
        list
    }
}

/// Adds `line` to `words`, unless they are as many as can have a rank.
fn push_ranked(words: &mut Vec<String>, line: String, Ghost(lines): Ghost<Seq<Seq<char>>>)
    requires
        old(words).deep_view() == ranked(lines),
    ensures
        final(words).deep_view() == ranked(lines.push(line@)),
        final(words).len() <= UNRANKED,
{
    if (words.len() as u64) < 0x7fff_ffff_ffff_ffff {
        assert(lines.len() < UNRANKED) by {
            if lines.len() > UNRANKED {
                assert(lines.take(UNRANKED as int).len() == UNRANKED);
            }
        }
        words.push(line);
    }
}

impl WordFrequencyList {
    /// The invariant of the type: every index is below `UNRANKED`.
    #[verifier::type_invariant]
    spec fn inv(self) -> bool {
        self.words.len() <= UNRANKED
    }

    /// Reads a list that holds one word per line, the most frequent first.
    pub fn new(wordlist: &str) -> (list: Self)
        ensures
            list@ == ranked(lines_of(wordlist@)),
            list@.len() <= UNRANKED,
    {
        let chars: Vec<char> = chars_of(wordlist);
        let mut words: Vec<String> = Vec::new();
        let mut start: usize = 0;
        let mut i: usize = 0;
        while i < chars.len()
            invariant
                start <= i <= chars.len(),
                chars@ == wordlist@,
                words.len() <= UNRANKED,
                words.deep_view() == ranked(scan_lines(wordlist@, i as nat).0),
                chars@.subrange(start as int, i as int) == scan_lines(wordlist@, i as nat).1,
            decreases chars.len() - i,
        {
            if chars[i] == '\n' {
                let end: usize = if start < i && chars[i - 1] == '\r' {
                    i - 1
                } else {
                    i
                };
                let line: String = string_from_chars(&chars, start, end);
                assert(line@ == strip_return(chars@.subrange(start as int, i as int)));
                push_ranked(&mut words, line, Ghost(scan_lines(wordlist@, i as nat).0));
                start = i + 1;
            }
            i = i + 1;
        }
        if start < chars.len() {
            let line: String = string_from_chars(&chars, start, chars.len());
            push_ranked(&mut words, line, Ghost(scan_lines(wordlist@, chars.len() as nat).0));
        }
        WordFrequencyList { words }
    }

    /// The rank of `word`, or `UNRANKED` if the list does not hold it. A
    /// word that the list holds has a rank below `UNRANKED`: the number of
    /// its last line.
    pub fn get_word_freq(&self, word: &str) -> (rank: i64)
        ensures
            rank == rank_in(self@, word@),
            self@.len() <= UNRANKED,
            is_listed(self@, word@) ==> 0 <= rank < self@.len() && self@[rank as int] == word@,
            !is_listed(self@, word@) ==> rank == UNRANKED,
    {
        proof {
            use_type_invariant(self);
        }
        let key: String = word.to_owned();
        let mut i: usize = self.words.len();
        while i > 0
            invariant
                i <= self.words.len(),
                self@.len() <= UNRANKED,
                key@ == word@,
                forall|j: int| i <= j < self.words.len() ==> self@[j] != word@,
            decreases i,
        {
            i = i - 1;
            if self.words[i] == key {
                proof {
                    assert(self@[i as int] == word@);
                    lemma_last_index_of(self@, word@);
                }
                return if (i as u64) < 0x7fff_ffff_ffff_ffff {
                    i as i64
                } else {
                    UNRANKED
                };
            }
        }
        proof {
            lemma_last_index_of(self@, word@);
        }
        UNRANKED
    }
}

/// In a list of at most `UNRANKED` lines, as every `WordFrequencyList` is,
/// a word that is listed has the number of a line for its rank, and that
/// is strictly below the rank of any word that is not listed.
pub proof fn lemma_listed_word_ranks_below_unlisted(
    list: Seq<Seq<char>>,
    listed: Seq<char>,
    unlisted: Seq<char>,
)
    requires
        list.len() <= UNRANKED,
        is_listed(list, listed),
        !is_listed(list, unlisted),
    ensures
        0 <= rank_in(list, listed) < list.len(),
        list[rank_in(list, listed) as int] == listed,
        rank_in(list, unlisted) == UNRANKED,
        rank_in(list, listed) < rank_in(list, unlisted),
{
    lemma_last_index_of(list, listed);
    lemma_last_index_of(list, unlisted);
}

/// No word of the list has the rank `UNRANKED`: a rank other than that is
/// the index of a line that holds the word, and lies strictly below it.
pub proof fn lemma_unranked_above_every_rank(list: Seq<Seq<char>>, word: Seq<char>)
    ensures
        rank_in(list, word) <= UNRANKED,
        rank_in(list, word) != UNRANKED ==> {
            &&& 0 <= rank_in(list, word) < list.len()
            &&& rank_in(list, word) < UNRANKED
            &&& list[rank_in(list, word) as int] == word
        },
        (forall|i: int| 0 <= i < list.len() ==> list[i] != word) ==> rank_in(list, word)
            == UNRANKED,
{
    lemma_last_index_of(list, word);
}

} // verus!
