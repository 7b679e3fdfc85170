use vocab_review::frequency::{WordFrequencyList, UNRANKED};
use vocab_review::ingest::IngestError;
use vocab_review::scheduler::DEFAULT_EASE;
use vocab_review::store::KnowledgeDB;

fn store() -> KnowledgeDB {
    KnowledgeDB::new(WordFrequencyList::new("は\nが\n猫\n好き\n"))
}

fn tokens(items: &[&str]) -> Vec<String> {
    items.iter().map(|s| s.to_string()).collect()
}

fn count_of(db: &KnowledgeDB, text: &str) -> u64 {
    db.word(db.find_word(text).unwrap()).count
}

#[test]
fn new_sentence_brings_its_words() {
    let mut db = store();
    assert_eq!(db.ingest("猫が好き。", &tokens(&["猫", "が", "好き"])), Ok(true));
    assert_eq!(db.sentence_count(), 1);
    assert_eq!(db.sentence(0), "猫が好き。");
    assert_eq!(db.word_count(), 3);
    assert_eq!(db.find_word("猫"), Some(0));
    assert_eq!(db.find_word("が"), Some(1));
    assert_eq!(db.find_word("好き"), Some(2));
    assert_eq!(db.sentence_words(0), &vec![0usize, 1, 2]);
}

#[test]
fn new_word_starts_fresh_with_its_rank() {
    let mut db = store();
    db.ingest("猫と犬。", &tokens(&["猫", "犬"])).unwrap();
    let cat = db.word(db.find_word("猫").unwrap());
    assert_eq!(cat.count, 1);
    assert_eq!(cat.frequency_rank, 2);
    assert!(!cat.reviewed);
    assert_eq!(cat.next_review_at, None);
    assert_eq!(cat.review_duration, 0);
    assert_eq!(cat.ease_factor, DEFAULT_EASE);
    assert_eq!(cat.repetition, 0);
    let dog = db.word(db.find_word("犬").unwrap());
    assert_eq!(dog.frequency_rank, UNRANKED);
}

#[test]
fn same_sentence_twice_is_one_row() {
    let mut db = store();
    let words = tokens(&["猫", "が", "好き"]);
    assert_eq!(db.ingest("猫が好き。", &words), Ok(true));
    assert_eq!(db.ingest("猫が好き。", &words), Ok(false));
    assert_eq!(db.sentence_count(), 1);
    assert_eq!(db.word_count(), 3);
    for word in ["猫", "が", "好き"] {
        assert_eq!(count_of(&db, word), 1);
    }
    assert_eq!(db.sentence_words(0), &vec![0usize, 1, 2]);
}

#[test]
fn known_sentence_ignores_new_words() {
    let mut db = store();
    db.ingest("猫が好き。", &tokens(&["猫"])).unwrap();
    assert_eq!(db.ingest("猫が好き。", &tokens(&["猫", "犬"])), Ok(false));
    assert_eq!(db.word_count(), 1);
    assert_eq!(db.find_word("犬"), None);
    assert_eq!(count_of(&db, "猫"), 1);
}

#[test]
fn every_occurrence_is_counted() {
    let mut db = store();
    db.ingest("猫は猫。", &tokens(&["猫", "は", "猫"])).unwrap();
    assert_eq!(count_of(&db, "猫"), 2);
    assert_eq!(count_of(&db, "は"), 1);
    assert_eq!(db.sentence_words(0), &vec![0usize, 1]);
    db.ingest("猫が好き。", &tokens(&["猫", "が", "好き"])).unwrap();
    assert_eq!(count_of(&db, "猫"), 3);
    assert_eq!(db.sentence_words(1), &vec![0usize, 2, 3]);
}

#[test]
fn rank_is_fixed_at_first_insertion() {
    let mut db = store();
    db.ingest("一。", &tokens(&["好き"])).unwrap();
    db.ingest("二。", &tokens(&["好き"])).unwrap();
    let liked = db.word(db.find_word("好き").unwrap());
    assert_eq!(liked.frequency_rank, 3);
    assert_eq!(liked.count, 2);
}

#[test]
fn sentence_without_words_is_refused() {
    let mut db = store();
    assert_eq!(db.ingest("。", &tokens(&[])), Err(IngestError::EmptyTokenization));
    assert_eq!(db.sentence_count(), 0);
    assert_eq!(db.word_count(), 0);
    db.ingest("猫。", &tokens(&["猫"])).unwrap();
    assert_eq!(db.ingest("猫。", &tokens(&[])), Err(IngestError::EmptyTokenization));
    assert_eq!(db.sentence_count(), 1);
}
