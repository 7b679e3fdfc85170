use vocab_review::frequency::WordFrequencyList;
use vocab_review::scheduler::{DEFAULT_EASE, MIN_EASE};
use vocab_review::store::{KnowledgeDB, StoreError, Word};

fn empty_store() -> KnowledgeDB {
    KnowledgeDB::new(WordFrequencyList::new("a\nb\nc\n"))
}

fn word(text: &str, rank: i64) -> Word {
    Word {
        text: text.to_string(),
        count: 1,
        frequency_rank: rank,
        reviewed: false,
        next_review_at: None,
        review_duration: 0,
        ease_factor: DEFAULT_EASE,
        repetition: 0,
    }
}

#[test]
fn new_store_is_empty() {
    let db = empty_store();
    assert_eq!(db.word_count(), 0);
    assert_eq!(db.sentence_count(), 0);
    assert_eq!(db.find_word("a"), None);
    assert_eq!(db.find_sentence("a"), None);
    assert_eq!(db.rank_of("b"), 1);
}

#[test]
fn words_are_numbered_in_order() {
    let mut db = empty_store();
    assert_eq!(db.insert_word(word("x", 5)), Ok(0));
    assert_eq!(db.insert_word(word("y", 6)), Ok(1));
    assert_eq!(db.word_count(), 2);
    assert_eq!(db.find_word("y"), Some(1));
    assert_eq!(db.find_word("z"), None);
    assert_eq!(db.word(1).text, "y");
    assert_eq!(db.word(1).frequency_rank, 6);
}

#[test]
fn word_text_is_unique() {
    let mut db = empty_store();
    assert_eq!(db.insert_word(word("x", 5)), Ok(0));
    assert_eq!(db.insert_word(word("x", 9)), Err(StoreError::DuplicateWord));
    assert_eq!(db.word_count(), 1);
    assert_eq!(db.word(0).frequency_rank, 5);
}

#[test]
fn invalid_word_is_refused() {
    let mut db = empty_store();
    let mut uncounted = word("x", 5);
    uncounted.count = 0;
    assert_eq!(db.insert_word(uncounted), Err(StoreError::InvalidWord));
    let mut unseeded = word("x", 5);
    unseeded.ease_factor = MIN_EASE - 1;
    assert_eq!(db.insert_word(unseeded), Err(StoreError::InvalidWord));
    let mut floor = word("x", 5);
    floor.ease_factor = MIN_EASE;
    assert_eq!(db.insert_word(floor), Ok(0));
    let mut both = word("x", 5);
    both.count = 0;
    assert_eq!(db.insert_word(both), Err(StoreError::InvalidWord));
}

#[test]
fn sentence_text_is_unique() {
    let mut db = empty_store();
    assert_eq!(db.insert_sentence("one"), Ok(0));
    assert_eq!(db.insert_sentence("two"), Ok(1));
    assert_eq!(db.insert_sentence("one"), Err(StoreError::DuplicateSentence));
    assert_eq!(db.sentence_count(), 2);
    assert_eq!(db.find_sentence("two"), Some(1));
    assert_eq!(db.sentence(0), "one");
    assert!(db.sentence_words(1).is_empty());
}

#[test]
fn link_is_idempotent() {
    let mut db = empty_store();
    db.insert_word(word("x", 5)).unwrap();
    db.insert_word(word("y", 6)).unwrap();
    db.insert_sentence("one").unwrap();
    assert_eq!(db.link(1, 0), Ok(true));
    assert_eq!(db.link(0, 0), Ok(true));
    assert_eq!(db.link(1, 0), Ok(false));
    assert_eq!(db.sentence_words(0), &vec![1usize, 0]);
    assert!(db.contains_word(0, 0));
    assert!(db.contains_word(0, 1));
    assert!(!db.contains_word(0, 2));
}

#[test]
fn link_needs_both_ends() {
    let mut db = empty_store();
    db.insert_word(word("x", 5)).unwrap();
    db.insert_sentence("one").unwrap();
    assert_eq!(db.link(1, 0), Err(StoreError::UnknownWord));
    assert_eq!(db.link(0, 1), Err(StoreError::UnknownSentence));
    assert_eq!(db.link(7, 7), Err(StoreError::UnknownWord));
    assert!(db.sentence_words(0).is_empty());
}
