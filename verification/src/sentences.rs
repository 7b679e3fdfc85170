//! Splitting a text into sentences.
//!
//! A sentence ends at a terminator, which belongs to it. Inside a
//! quotation, between `「` and `」`, a terminator ends nothing. A closing
//! quote where no quotation is open closes nothing, and so leaves the
//! terminators behind it in force. What follows the last terminator of a
//! text is no sentence.

use crate::text::{chars_of, string_from_chars};
use vstd::prelude::*;

verus! {

/// The character that opens a quotation.
pub const OPEN_QUOTE: char = '「';

/// The character that closes a quotation.
pub const CLOSE_QUOTE: char = '」';

/// Whether `c` ends a sentence: the ideographic full stop, a line feed, the
/// fullwidth exclamation mark or the fullwidth question mark.
pub open spec fn is_terminator(c: char) -> bool {
    c == '。' || c == '\n' || c == '！' || c == '？'
}

/// Whether `c` is white space, as Unicode defines it.
pub open spec fn is_whitespace(c: char) -> bool {
    let code = c as u32;
    ||| 0x09 <= code <= 0x0d
    ||| code == 0x20
    ||| code == 0x85
    ||| code == 0xa0
    ||| code == 0x1680
    ||| 0x2000 <= code <= 0x200a
    ||| code == 0x2028
    ||| code == 0x2029
    ||| code == 0x202f
    ||| code == 0x205f
    ||| code == 0x3000
}

/// `s` without the white space that it begins with.
pub open spec fn trim_start(s: Seq<char>) -> Seq<char>
    decreases s.len(),
{
    if s.len() > 0 && is_whitespace(s.first()) {
        trim_start(s.drop_first())
    } else {
        s
    }
}

/// `s` without the white space that it ends with.
pub open spec fn trim_end(s: Seq<char>) -> Seq<char>
    decreases s.len(),
{
    if s.len() > 0 && is_whitespace(s.last()) {
        trim_end(s.drop_last())
    } else {
        s
    }
}

/// `s` without the white space around it.
pub open spec fn trim(s: Seq<char>) -> Seq<char> {
    trim_end(trim_start(s))
}

/// Whether `s` neither begins nor ends with white space.
pub open spec fn is_trimmed(s: Seq<char>) -> bool {
    s.len() > 0 ==> !is_whitespace(s.first()) && !is_whitespace(s.last())
}

/// Trimming at the front leaves no white space there, and takes nothing
/// from the end but what it takes from the whole.
pub proof fn lemma_trim_start(s: Seq<char>)
    ensures
        trim_start(s).len() <= s.len(),
        trim_start(s) == s.skip(s.len() - trim_start(s).len()),
        trim_start(s).len() > 0 ==> !is_whitespace(trim_start(s).first()),
    decreases s.len(),
{
    if s.len() > 0 && is_whitespace(s.first()) {
        lemma_trim_start(s.drop_first());
    }
}

/// Trimming at the end leaves no white space there, and keeps the front.
pub proof fn lemma_trim_end(s: Seq<char>)
    ensures
        trim_end(s).len() <= s.len(),
        trim_end(s) == s.take(trim_end(s).len() as int),
        trim_end(s).len() > 0 ==> !is_whitespace(trim_end(s).last()),
    decreases s.len(),
{
    if s.len() > 0 && is_whitespace(s.last()) {
        lemma_trim_end(s.drop_last());
    }
}

/// What is left of a text after trimming neither begins nor ends with
/// white space.
pub proof fn lemma_trim_is_trimmed(s: Seq<char>)
    ensures
        is_trimmed(trim(s)),
{
    lemma_trim_start(s);
    lemma_trim_end(trim_start(s));
}

/// The state of the splitter: the sentences that are complete, the
/// characters of the one that is open, and how many quotations are open.
#[verifier::ext_equal]
pub struct Scan {
    pub done: Seq<Seq<char>>,
    pub open: Seq<char>,
    pub depth: nat,
}

/// How many quotations are open after a closing quote, where `depth` were
/// open before it: one less, or none where none was open.
pub open spec fn closed_one(depth: nat) -> nat {
    if depth > 0 {
        (depth - 1) as nat
    } else {
        0
    }
}

/// The state after the character `c`.
pub open spec fn scan_step(before: Scan, c: char) -> Scan {
    let grown = before.open.push(c);
    if c == OPEN_QUOTE {
        Scan { done: before.done, open: grown, depth: before.depth + 1 }
    } else if c == CLOSE_QUOTE {
        Scan { done: before.done, open: grown, depth: closed_one(before.depth) }
    } else if before.depth == 0 && is_terminator(c) {
        Scan {
            done: if trim(grown).len() > 0 {
                before.done.push(trim(grown))
            } else {
                before.done
            },
            open: Seq::empty(),
            depth: before.depth,
        }
    } else {
        Scan { done: before.done, open: grown, depth: before.depth }
    }
}

/// The state after the first `n` characters of `text`.
pub open spec fn scan_sentences(text: Seq<char>, n: nat) -> Scan
    decreases n,
{
    if n == 0 {
        Scan { done: Seq::empty(), open: Seq::empty(), depth: 0 }
    } else {
        scan_step(scan_sentences(text, (n - 1) as nat), text[n - 1])
    }
}

/// The sentences of `text`, each without the white space around it; a
/// sentence that is white space only is left out.
pub open spec fn sentences_of(text: Seq<char>) -> Seq<Seq<char>> {
    scan_sentences(text, text.len()).done
}

/// Every sentence that the splitter has completed is not empty, and neither
/// begins nor ends with white space.
proof fn lemma_scan_is_trimmed(text: Seq<char>, n: nat)
    requires
        n <= text.len(),
    ensures
        forall|i: int|
            0 <= i < scan_sentences(text, n).done.len() ==> {
                &&& (#[trigger] scan_sentences(text, n).done[i]).len() > 0
                &&& is_trimmed(scan_sentences(text, n).done[i])
            },
    decreases n,
{
    if n > 0 {
        let before = scan_sentences(text, (n - 1) as nat);
        lemma_scan_is_trimmed(text, (n - 1) as nat);
        lemma_trim_is_trimmed(before.open.push(text[n - 1]));
    }
}

/// Every sentence of a text is not empty, and neither begins nor ends with
/// white space.
pub proof fn lemma_sentences_are_trimmed(text: Seq<char>)
    ensures
        forall|i: int|
            0 <= i < sentences_of(text).len() ==> {
                &&& (#[trigger] sentences_of(text)[i]).len() > 0
                &&& is_trimmed(sentences_of(text)[i])
            },
{
    lemma_scan_is_trimmed(text, text.len());
}

/// How many quotations `s` leaves open: each opening quote opens one, and
/// each closing quote closes one if any is open.
pub open spec fn open_quotations(s: Seq<char>) -> nat
    decreases s.len(),
{
    if s.len() == 0 {
        0
    } else if s.last() == OPEN_QUOTE {
        open_quotations(s.drop_last()) + 1
    } else if s.last() == CLOSE_QUOTE {
        closed_one(open_quotations(s.drop_last()))
    } else {
        open_quotations(s.drop_last())
    }
}

/// The depth counts the quotations that are open: those that the text so
/// far leaves open, which are those that the open sentence leaves open. It
/// is never more than the number of characters read.
pub proof fn lemma_depth_counts_quotes(text: Seq<char>, n: nat)
    requires
        n <= text.len(),
    ensures
        scan_sentences(text, n).depth == open_quotations(text.take(n as int)),
        scan_sentences(text, n).depth == open_quotations(scan_sentences(text, n).open),
        scan_sentences(text, n).depth <= n,
    decreases n,
{
    if n > 0 {
        lemma_depth_counts_quotes(text, (n - 1) as nat);
        assert(text.take(n as int).drop_last() == text.take(n - 1));
        let before = scan_sentences(text, (n - 1) as nat);
        assert(before.open.push(text[n - 1]).drop_last() == before.open);
    }
}

/// A character that is no quote changes nothing where it stands first.
proof fn lemma_plain_first(s: Seq<char>)
    requires
        s.len() > 0,
        s.first() != OPEN_QUOTE,
        s.first() != CLOSE_QUOTE,
    ensures
        open_quotations(s.drop_first()) == open_quotations(s),
    decreases s.len(),
{
    if s.len() > 1 {
        lemma_plain_first(s.drop_last());
        assert(s.drop_first().drop_last() == s.drop_last().drop_first());
    } else {
        assert(open_quotations(s.drop_last()) == 0);
    }
}

/// White space is no quote, so that trimming opens and closes nothing.
pub proof fn lemma_trim_keeps_quotations(s: Seq<char>)
    ensures
        open_quotations(trim(s)) == open_quotations(s),
{
    lemma_trim_start_keeps_quotations(s);
    lemma_trim_end_keeps_quotations(trim_start(s));
}

/// Trimming at the front opens and closes nothing.
proof fn lemma_trim_start_keeps_quotations(s: Seq<char>)
    ensures
        open_quotations(trim_start(s)) == open_quotations(s),
    decreases s.len(),
{
    if s.len() > 0 && is_whitespace(s.first()) {
        lemma_plain_first(s);
        lemma_trim_start_keeps_quotations(s.drop_first());
    }
}

/// Trimming at the end opens and closes nothing.
proof fn lemma_trim_end_keeps_quotations(s: Seq<char>)
    ensures
        open_quotations(trim_end(s)) == open_quotations(s),
    decreases s.len(),
{
    if s.len() > 0 && is_whitespace(s.last()) {
        lemma_trim_end_keeps_quotations(s.drop_last());
    }
}

/// Every sentence that the splitter has completed leaves no quotation
/// open.
proof fn lemma_scan_closes_quotations(text: Seq<char>, n: nat)
    requires
        n <= text.len(),
    ensures
        forall|i: int|
            0 <= i < scan_sentences(text, n).done.len() ==> open_quotations(
                #[trigger] scan_sentences(text, n).done[i],
            ) == 0,
    decreases n,
{
    if n > 0 {
        let before = scan_sentences(text, (n - 1) as nat);
        let grown = before.open.push(text[n - 1]);
        lemma_scan_closes_quotations(text, (n - 1) as nat);
        lemma_depth_counts_quotes(text, (n - 1) as nat);
        lemma_trim_keeps_quotations(grown);
        assert(grown.drop_last() == before.open);
    }
}

/// No sentence of a text ends inside a quotation: each one closes every
/// quotation that it opens.
pub proof fn lemma_sentences_close_their_quotations(text: Seq<char>)
    ensures
        forall|i: int|
            0 <= i < sentences_of(text).len() ==> open_quotations(#[trigger] sentences_of(text)[i])
                == 0,
{
    lemma_scan_closes_quotations(text, text.len());
}

/// A closing quote where no quotation is open closes nothing: the depth
/// stays at none, and the next terminator ends a sentence.
pub proof fn lemma_stray_closing_quote(text: Seq<char>, n: nat)
    requires
        0 < n <= text.len(),
        scan_sentences(text, (n - 1) as nat).depth == 0,
        text[n - 1] == CLOSE_QUOTE,
    ensures
        scan_sentences(text, n).depth == 0,
        scan_sentences(text, n).done == scan_sentences(text, (n - 1) as nat).done,
{
}

/// Outside every quotation a terminator ends the open sentence: what was
/// open, with the terminator, is a sentence unless it is white space only,
/// and nothing is open behind it.
pub proof fn lemma_split_outside_quotation(text: Seq<char>, n: nat)
    requires
        0 < n <= text.len(),
        scan_sentences(text, (n - 1) as nat).depth == 0,
        is_terminator(text[n - 1]),
    ensures
        scan_sentences(text, n).open == Seq::<char>::empty(),
        scan_sentences(text, n).depth == 0,
        scan_sentences(text, n).done == {
            let before = scan_sentences(text, (n - 1) as nat);
            let sentence = trim(before.open.push(text[n - 1]));
            if sentence.len() > 0 {
                before.done.push(sentence)
            } else {
                before.done
            }
        },
{
}

/// While a quotation is open, no character ends a sentence: it joins the
/// open one.
pub proof fn lemma_no_split_inside_quotation(text: Seq<char>, n: nat)
    requires
        0 < n <= text.len(),
        scan_sentences(text, (n - 1) as nat).depth > 0,
    ensures
        scan_sentences(text, n).done == scan_sentences(text, (n - 1) as nat).done,
        scan_sentences(text, n).open == scan_sentences(text, (n - 1) as nat).open.push(
            text[n - 1],
        ),
{
}

/// Whether `c` is white space.
pub fn is_whitespace_char(c: char) -> (yes: bool)
    ensures
        yes == is_whitespace(c),
{
    let code: u32 = c as u32;
    (0x09 <= code && code <= 0x0d) || code == 0x20 || code == 0x85 || code == 0xa0 || code
        == 0x1680 || (0x2000 <= code && code <= 0x200a) || code == 0x2028 || code == 0x2029
        || code == 0x202f || code == 0x205f || code == 0x3000
}

/// Whether `c` ends a sentence.
pub fn is_terminator_char(c: char) -> (yes: bool)
    ensures
        yes == is_terminator(c),
{
    c == '。' || c == '\n' || c == '！' || c == '？'
}

/// Where `chars[from..to]` begins once the white space before it is gone.
fn skip_whitespace(chars: &Vec<char>, from: usize, to: usize) -> (first: usize)
    requires
        from <= to <= chars.len(),
    ensures
        from <= first <= to,
        trim_start(chars@.subrange(from as int, to as int)) == chars@.subrange(
            first as int,
            to as int,
        ),
{
    let mut first: usize = from;
    while first < to && is_whitespace_char(chars[first])
        invariant
            from <= first <= to <= chars.len(),
            trim_start(chars@.subrange(from as int, to as int)) == trim_start(
                chars@.subrange(first as int, to as int),
            ),
        decreases to - first,
    {
        assert(chars@.subrange(first as int, to as int).drop_first() == chars@.subrange(
            first + 1,
            to as int,
        ));
        first = first + 1;
    }
    first
}

/// Where `chars[from..to]` ends once the white space behind it is gone.
fn drop_whitespace(chars: &Vec<char>, from: usize, to: usize) -> (end: usize)
    requires
        from <= to <= chars.len(),
    ensures
        from <= end <= to,
        trim_end(chars@.subrange(from as int, to as int)) == chars@.subrange(
            from as int,
            end as int,
        ),
{
    let mut end: usize = to;
    while from < end && is_whitespace_char(chars[end - 1])
        invariant
            from <= end <= to <= chars.len(),
            trim_end(chars@.subrange(from as int, to as int)) == trim_end(
                chars@.subrange(from as int, end as int),
            ),
        decreases end - from,
    {
        assert(chars@.subrange(from as int, end as int).drop_last() == chars@.subrange(
            from as int,
            end - 1,
        ));
        end = end - 1;
    }
    end
}

/// Splits `text` into its sentences.
///
/// A sentence runs up to and including a terminator that stands outside
/// every quotation. A closing quote where no quotation is open counts for
/// nothing. Each sentence comes without the white space around it, and one
/// that holds nothing else is left out. The rest of the text behind the
/// last such terminator is dropped.
pub fn iterate_sentences(text: &str) -> (sentences: Vec<String>)
    ensures
        sentences.deep_view() == sentences_of(text@),
{
    let chars: Vec<char> = chars_of(text);
    let mut sentences: Vec<String> = Vec::new();
    let mut depth: usize = 0;
    let mut start: usize = 0;
    let mut i: usize = 0;
    while i < chars.len()
        invariant
            start <= i <= chars.len(),
            chars@ == text@,
            depth <= i,
            scan_sentences(text@, i as nat) == (Scan {
                done: sentences.deep_view(),
                open: chars@.subrange(start as int, i as int),
                depth: depth as nat,
            }),
        decreases chars.len() - i,
    {
        let c: char = chars[i];
        assert(chars@.subrange(start as int, i + 1) == chars@.subrange(
            start as int,
            i as int,
        ).push(c));
        if c == OPEN_QUOTE {
            depth = depth + 1;
        } else if c == CLOSE_QUOTE {
            if depth > 0 {
                depth = depth - 1;
            }
        } else if depth == 0 && is_terminator_char(c) {
            let first: usize = skip_whitespace(&chars, start, i + 1);
            let end: usize = drop_whitespace(&chars, first, i + 1);
            if first < end {
                let sentence: String = string_from_chars(&chars, first, end);
                sentences.push(sentence);
            }
            start = i + 1;
        }
        i = i + 1;
    }
    sentences
}

} // verus!
