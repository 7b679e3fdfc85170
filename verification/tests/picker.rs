use vocab_review::frequency::WordFrequencyList;
use vocab_review::store::KnowledgeDB;

const DAY: i64 = 86_400;

fn store() -> KnowledgeDB {
    let mut db = KnowledgeDB::new(WordFrequencyList::new("a\nb\nc\nd\ne\n"));
    let words: Vec<String> = ["c", "a", "e", "b"].iter().map(|s| s.to_string()).collect();
    db.ingest("S", &words).unwrap();
    db
}

#[test]
fn empty_store_has_nothing_to_review() {
    let db = KnowledgeDB::new(WordFrequencyList::new("a\n"));
    assert_eq!(db.pick_word_to_review(0), None);
    assert_eq!(db.pick_word(0), None);
}

#[test]
fn most_frequent_new_word_comes_first() {
    let db = store();
    assert_eq!(db.pick_word_to_review(1_000), Some("a".to_string()));
    assert_eq!(db.most_frequent_new_word(), db.find_word("a"));
    assert_eq!(db.earliest_due_word(1_000), None);
}

#[test]
fn overdue_word_beats_any_new_word() {
    let mut db = store();
    // "e" has the worst rank of all; reviewed at time 0 it is due after a day
    db.record_review("e", 400, 0).unwrap();
    assert_eq!(db.pick_word_to_review(DAY), Some("a".to_string()));
    assert_eq!(db.pick_word_to_review(DAY + 1), Some("e".to_string()));
    assert_eq!(db.pick_word(DAY + 1), db.find_word("e"));
}

#[test]
fn word_that_is_not_due_yet_is_skipped() {
    let mut db = store();
    for word in ["a", "b", "c", "e"] {
        db.record_review(word, 400, 0).unwrap();
    }
    assert_eq!(db.pick_word_to_review(DAY), None);
    assert_eq!(db.pick_word_to_review(0), None);
}

#[test]
fn earliest_due_word_comes_first() {
    let mut db = store();
    db.record_review("a", 400, 500).unwrap();
    db.record_review("b", 400, 100).unwrap();
    db.record_review("c", 400, 300).unwrap();
    assert_eq!(db.pick_word_to_review(DAY + 1_000), Some("b".to_string()));
    assert_eq!(db.pick_word_to_review(DAY + 101), Some("b".to_string()));
    // before anything is due, the one word left unreviewed
    assert_eq!(db.pick_word_to_review(DAY + 100), Some("e".to_string()));
}

#[test]
fn equal_due_times_go_by_arrival() {
    let mut db = store();
    db.record_review("b", 400, 100).unwrap();
    db.record_review("c", 400, 100).unwrap();
    assert_eq!(db.pick_word_to_review(2 * DAY), Some("c".to_string()));
}

#[test]
fn equal_ranks_go_by_arrival() {
    let mut db = KnowledgeDB::new(WordFrequencyList::new("a\n"));
    let words: Vec<String> = ["x", "y"].iter().map(|s| s.to_string()).collect();
    db.ingest("S", &words).unwrap();
    assert_eq!(db.pick_word_to_review(0), Some("x".to_string()));
}

#[test]
fn all_reviewed_and_none_due_is_nothing() {
    let mut db = KnowledgeDB::new(WordFrequencyList::new("a\n"));
    db.ingest("S", &vec!["a".to_string()]).unwrap();
    db.record_review("a", 500, 10).unwrap();
    assert_eq!(db.pick_word_to_review(11), None);
    assert_eq!(db.pick_word_to_review(10 + DAY + 1), Some("a".to_string()));
}

#[test]
fn clock_pick_finds_a_new_word() {
    let db = store();
    assert_eq!(db.get_word_to_review(), Some("a".to_string()));
}
