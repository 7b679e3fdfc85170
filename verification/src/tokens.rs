//! From a sentence to the base forms of its words, by way of the lindera
//! segmenter.

use crate::ingest::IngestError;
use crate::knowledge::Knowledge;
use crate::store::KnowledgeDB;
use vstd::prelude::*;

verus! {

/// The segmenter of lindera. Nothing is known of what it holds. It may
/// hold a dictionary that lies in mapped files, so that a segmenter is no
/// value in the mathematical sense: see `segment_details`.
#[verifier::external_type_specification]
#[verifier::external_body]
pub struct ExSegmenter(lindera::segmenter::Segmenter);

/// The error of lindera. Nothing is known of what it holds.
#[verifier::external_type_specification]
#[verifier::external_body]
pub struct ExLinderaError(lindera::error::LinderaError);

/// Which detail of a token is its base form.
pub const BASE_FORM_FIELD: usize = 6;

/// A token with no more details than this has no base form.
pub const FEWEST_DETAILS: usize = 7;

/// Whether `field` is the sign that a dictionary writes where it has no
/// value: a single asterisk.
pub open spec fn is_placeholder(field: Seq<char>) -> bool {
    field.len() == 1 && field[0] == '*'
}

/// The base form that the details of one token give, if they give one:
/// the detail at `BASE_FORM_FIELD`, for a token with more than
/// `FEWEST_DETAILS` details, unless it is the placeholder.
pub open spec fn base_form(details: Seq<Seq<char>>) -> Option<Seq<char>> {
    if details.len() > FEWEST_DETAILS && !is_placeholder(details[BASE_FORM_FIELD as int]) {
        Some(details[BASE_FORM_FIELD as int])
    } else {
        None
    }
}

/// The base forms of the tokens that have one, in the order of the tokens.
pub open spec fn base_forms_of(details: Seq<Seq<Seq<char>>>) -> Seq<Seq<char>> {
    details.filter_map(|token: Seq<Seq<char>>| base_form(token))
}

/// Calls `Segmenter::segment` of lindera on `text`, and `Token::details`
/// on each token that comes back. The result holds the details of each
/// token, in the order of the tokens, or the error of the segmenter.
///
/// Nothing is claimed of what the details are, nor that the same segmenter
/// gives the same details for the same text twice. A dictionary that was
/// loaded from a directory with `Dictionary::load_from_path` keeps its
/// words and its cost matrix in files mapped into memory (`Data::Map`;
/// the `mmap` feature of lindera-dictionary, which is on unless it is
/// switched off), shared with whoever writes to them, and `segment` and
/// `details` read them there as they go. What they find is what the
/// files hold at that moment: a file that is written to between two calls
/// changes the answer of a segmenter that has not changed.
#[verifier::external_body]
fn segment_details(segmenter: &lindera::segmenter::Segmenter, text: &str) -> (details: Result<
    Vec<Vec<String>>,
    lindera::error::LinderaError,
>) {
    let tokens = match segmenter.segment(std::borrow::Cow::Borrowed(text)) {
        Ok(tokens) => tokens,
        Err(error) => return Err(error),
    };
    let mut details: Vec<Vec<String>> = Vec::new();
    for mut token in tokens {
        details.push(token.details().into_iter().map(String::from).collect());
    }
    Ok(details)
}

/// Whether `field` is the placeholder.
fn is_placeholder_field(field: &String) -> (yes: bool)
    ensures
        yes == is_placeholder(field@),
{
    let text: &str = field.as_str();
    text.unicode_len() == 1 && text.get_char(0) == '*'
}

/// Picks the base forms out of the details of the tokens of a sentence.
pub fn base_forms(details: &Vec<Vec<String>>) -> (words: Vec<String>)
    ensures
        words.deep_view() == base_forms_of(details.deep_view()),
{
    let ghost pick = |token: Seq<Seq<char>>| base_form(token);
    let mut words: Vec<String> = Vec::new();
    let mut i: usize = 0;
    while i < details.len()
        invariant
            i <= details.len(),
            pick == |token: Seq<Seq<char>>| base_form(token),
            words.deep_view() == details.deep_view().take(i as int).filter_map(pick),
        decreases details.len() - i,
    {
        let token: &Vec<String> = &details[i];
        assert(details.deep_view().take(i + 1).drop_last() == details.deep_view().take(i as int));
        if token.len() > FEWEST_DETAILS && !is_placeholder_field(&token[BASE_FORM_FIELD]) {
            words.push(token[BASE_FORM_FIELD].clone());
        }
        i = i + 1;
    }
    assert(details.deep_view().take(details.len() as int) == details.deep_view());
    words
}

impl Knowledge {
    /// What `add_sentence` owes once the segmenter has answered: the store
    /// `after` and the outcome `taken` are those of taking `sentence` in
    /// with the base forms that `details` give.
    pub open spec fn added(
        self,
        after: Knowledge,
        sentence: Seq<char>,
        details: Seq<Seq<Seq<char>>>,
        taken: Result<bool, IngestError>,
    ) -> bool {
        &&& after == self.ingest(sentence, base_forms_of(details))
        &&& taken == self.ingest_outcome(sentence, base_forms_of(details))
    }
}

impl KnowledgeDB {
    /// Takes in `sentence` with the words that the segmenter finds in it,
    /// given the details that the segmenter reported for its tokens.
    pub fn add_segmented(&mut self, sentence: &str, details: &Vec<Vec<String>>) -> (taken: Result<
        bool,
        IngestError,
    >)
        ensures
            final(self)@.wf(),
            old(self)@.added(final(self)@, sentence@, details.deep_view(), taken),
    {
        let words: Vec<String> = base_forms(details);
        self.ingest(sentence, &words)
    }

    /// Splits `sentence` into words with `segmenter` and takes it in.
    ///
    /// Where the segmenter fails, the store stays as it is. Otherwise the
    /// sentence is taken in as by `ingest`, with the base forms of its
    /// tokens for words.
    ///
    /// Which tokens the segmenter finds is not a function of the arguments:
    /// its dictionary may lie in files that it reads during the call. So
    /// the contract speaks of the details that came back, whatever they
    /// were; `add_segmented` states what is done with given details.
    ///
    /// Whatever the segmenter answers, a sentence that the store holds
    /// changes nothing, and a sentence is held once `Ok` has come back for
    /// it: so nothing is taken in twice.
    pub fn add_sentence(&mut self, segmenter: &lindera::segmenter::Segmenter, sentence: &str) -> (taken:
        Result<bool, IngestError>)
        ensures
            final(self)@.wf(),
            taken is Err ==> final(self)@ == old(self)@,
            old(self)@.find_sentence(sentence@) is Some ==> final(self)@ == old(self)@ && taken
                != Ok::<bool, IngestError>(true),
            taken matches Ok(new) ==> final(self)@.find_sentence(sentence@) is Some && new == (old(
                self,
            )@.find_sentence(sentence@) is None),
            taken != Err::<bool, IngestError>(IngestError::TokenizerFailed) ==> exists|
                details: Seq<Seq<Seq<char>>>,
            | #[trigger] old(self)@.added(final(self)@, sentence@, details, taken),
    {
        proof {
            use_type_invariant(&*self);
        }
        match segment_details(segmenter, sentence) {
            Ok(details) => {
                proof {
                    self@.lemma_ingest(sentence@, base_forms_of(details.deep_view()));
                }
                self.add_segmented(sentence, &details)
            },
            Err(_) => Err(IngestError::TokenizerFailed),
        }
    }
}

} // verus!
