use vocab_review::frequency::{WordFrequencyList, UNRANKED};

#[test]
fn rank_is_the_line_index() {
    let list = WordFrequencyList::new("の\nに\nは\n");
    assert_eq!(list.get_word_freq("の"), 0);
    assert_eq!(list.get_word_freq("に"), 1);
    assert_eq!(list.get_word_freq("は"), 2);
}

#[test]
fn unknown_word_is_unranked() {
    let list = WordFrequencyList::new("の\nに\nは\n");
    assert_eq!(list.get_word_freq("猫"), UNRANKED);
    assert_eq!(list.get_word_freq(""), UNRANKED);
    assert_eq!(UNRANKED, i64::MAX);
}

#[test]
fn sentinel_is_above_every_rank() {
    let list = WordFrequencyList::new("a\nb\nc\nd\ne");
    for word in ["a", "b", "c", "d", "e"] {
        assert!(list.get_word_freq(word) < UNRANKED);
    }
}

#[test]
fn rank_is_stable_across_calls() {
    let list = WordFrequencyList::new("a\nb\nc");
    for word in ["a", "c", "zzz"] {
        let first = list.get_word_freq(word);
        assert_eq!(list.get_word_freq(word), first);
        assert_eq!(list.get_word_freq(word), first);
    }
}

#[test]
fn last_line_needs_no_line_feed() {
    let list = WordFrequencyList::new("a\nb");
    assert_eq!(list.get_word_freq("b"), 1);
}

#[test]
fn carriage_return_before_line_feed_is_dropped() {
    let list = WordFrequencyList::new("a\r\nb\r\nc\r");
    assert_eq!(list.get_word_freq("a"), 0);
    assert_eq!(list.get_word_freq("b"), 1);
    assert_eq!(list.get_word_freq("c"), UNRANKED);
    assert_eq!(list.get_word_freq("c\r"), 2);
    assert_eq!(list.get_word_freq("a\r"), UNRANKED);
}

#[test]
fn empty_lines_count() {
    let list = WordFrequencyList::new("a\n\nb\n");
    assert_eq!(list.get_word_freq("a"), 0);
    assert_eq!(list.get_word_freq(""), 1);
    assert_eq!(list.get_word_freq("b"), 2);
}

#[test]
fn repeated_word_takes_its_last_line() {
    let list = WordFrequencyList::new("a\nb\na\nc\n");
    assert_eq!(list.get_word_freq("a"), 2);
    assert_eq!(list.get_word_freq("b"), 1);
    assert_eq!(list.get_word_freq("c"), 3);
}

#[test]
fn empty_list_ranks_nothing() {
    let list = WordFrequencyList::new("");
    assert_eq!(list.get_word_freq("a"), UNRANKED);
    assert_eq!(list.get_word_freq(""), UNRANKED);
}

#[test]
fn lines_agree_with_std() {
    let texts = [
        "",
        "\n",
        "\n\n",
        "a",
        "a\n",
        "a\nb",
        "a\r\nb\r\n",
        "a\rb\n",
        "\r\n",
        "\r",
        "a\n\r\nb\r\r\nc\r",
        "猫\n犬\n\n鳥",
    ];
    for text in texts {
        let list = WordFrequencyList::new(text);
        let lines: Vec<&str> = text.lines().collect();
        for line in &lines {
            let last = lines.iter().rposition(|other| other == line).unwrap();
            assert_eq!(list.get_word_freq(line), last as i64, "{:?} in {:?}", line, text);
        }
        assert_eq!(list.get_word_freq("never there"), UNRANKED);
        if !lines.contains(&"") {
            assert_eq!(list.get_word_freq(""), UNRANKED, "{:?}", text);
        }
    }
}

#[test]
fn listed_word_ranks_below_unlisted() {
    let lines = ["の", "に", "は", "を", "た", "が", "で", "て", "と", "し"];
    let list = WordFrequencyList::new(&lines.join("\n"));
    let n = lines.len() as i64;
    for listed in lines {
        let rank = list.get_word_freq(listed);
        assert!(0 <= rank && rank < n);
        for unlisted in ["猫", "犬", "", "のに", " の"] {
            assert_eq!(list.get_word_freq(unlisted), i64::MAX);
            assert!(rank < list.get_word_freq(unlisted));
        }
    }
}
