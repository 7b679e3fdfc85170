use vocab_review::frequency::WordFrequencyList;
use vocab_review::review::{next_review_time, ReviewError, SECONDS_PER_DAY};
use vocab_review::scheduler::DEFAULT_EASE;
use vocab_review::store::KnowledgeDB;

fn store() -> KnowledgeDB {
    let mut db = KnowledgeDB::new(WordFrequencyList::new("a\nb\n"));
    db.ingest("S", &vec!["a".to_string(), "b".to_string()]).unwrap();
    db
}

#[test]
fn review_is_stored_with_its_due_time() {
    let mut db = store();
    assert_eq!(db.record_review("a", 400, 1_000), Ok(()));
    let a = db.word(db.find_word("a").unwrap());
    assert!(a.reviewed);
    assert_eq!(a.repetition, 1);
    assert_eq!(a.review_duration, 1);
    assert_eq!(a.ease_factor, DEFAULT_EASE);
    assert_eq!(a.next_review_at, Some(1_000 + SECONDS_PER_DAY));
    assert_eq!(a.count, 1);
    assert_eq!(a.frequency_rank, 0);
    let b = db.word(db.find_word("b").unwrap());
    assert!(!b.reviewed);
    assert_eq!(b.next_review_at, None);
}

#[test]
fn reviews_walk_the_learning_steps() {
    let mut db = store();
    db.record_review("a", 400, 0).unwrap();
    db.record_review("a", 400, 10).unwrap();
    {
        let a = db.word(0);
        assert_eq!((a.repetition, a.review_duration), (2, 6));
        assert_eq!(a.next_review_at, Some(10 + 6 * SECONDS_PER_DAY));
    }
    db.record_review("a", 500, 20).unwrap();
    {
        let a = db.word(0);
        assert_eq!((a.repetition, a.review_duration, a.ease_factor), (3, 16, 2_600_000));
        assert_eq!(a.next_review_at, Some(20 + 16 * SECONDS_PER_DAY));
    }
    db.record_review("a", 100, 30).unwrap();
    {
        let a = db.word(0);
        assert_eq!((a.repetition, a.review_duration, a.ease_factor), (1, 1, 2_600_000));
        assert_eq!(a.next_review_at, Some(30 + SECONDS_PER_DAY));
    }
}

#[test]
fn unknown_word_is_reported() {
    let mut db = store();
    assert_eq!(db.record_review("zzz", 400, 0), Err(ReviewError::WordNotFound));
    assert!(!db.word(0).reviewed);
    assert!(!db.word(1).reviewed);
}

#[test]
fn rating_out_of_range_is_refused() {
    let mut db = store();
    assert_eq!(db.record_review("a", 501, 0), Err(ReviewError::InvalidQuality));
    assert_eq!(db.record_review("zzz", 501, 0), Err(ReviewError::InvalidQuality));
    assert_eq!(db.record_review("a", u32::MAX, 0), Err(ReviewError::InvalidQuality));
    assert!(!db.word(0).reviewed);
    assert_eq!(db.record_review("a", 500, 0), Ok(()));
    assert_eq!(db.record_review("b", 0, 0), Ok(()));
}

#[test]
fn due_time_adds_whole_days() {
    assert_eq!(next_review_time(0, 0), 0);
    assert_eq!(next_review_time(5, 1), 86_405);
    assert_eq!(next_review_time(-86_400, 2), 86_400);
    assert_eq!(next_review_time(1_700_000_000, 16), 1_701_382_400);
}

#[test]
fn due_time_stops_at_the_limit() {
    assert_eq!(next_review_time(i64::MAX, 1), i64::MAX);
    assert_eq!(next_review_time(i64::MAX - 86_399, 1), i64::MAX);
    assert_eq!(next_review_time(i64::MAX - 86_400, 1), i64::MAX);
    assert_eq!(next_review_time(i64::MAX - 86_401, 1), i64::MAX - 1);
    assert_eq!(next_review_time(i64::MIN, u32::MAX), i64::MIN + 86_400 * (u32::MAX as i64));
}

#[test]
fn clock_review_marks_the_word() {
    let mut db = store();
    assert_eq!(db.review_word("a", 400), Ok(()));
    let a = db.word(0);
    assert!(a.reviewed);
    assert_eq!((a.repetition, a.review_duration), (1, 1));
    // the clock shows a time after the year 2020
    assert!(a.next_review_at.unwrap() > 1_577_836_800 + SECONDS_PER_DAY);
    assert_eq!(db.review_word("zzz", 400), Err(ReviewError::WordNotFound));
    assert_eq!(db.review_word("a", 700), Err(ReviewError::InvalidQuality));
}
