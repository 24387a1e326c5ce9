use lexitrack::clock::{add_days, days_since, is_not_after, Timestamp};
use lexitrack::model::{DatabaseExport, EngineError, Text, TextWord, UserPreference, Word, WordStatus};
use lexitrack::review::Retention;
use lexitrack::scheduler::{parse_rating, update_word_parameters, Rating};
use lexitrack::snapshot::check_snapshot;
use lexitrack::store::Store;
use lexitrack::sync::{compress_and_encode, decode_and_decompress, CodecError};
use lexitrack::tokenizer::{display_tokens, letter_tokens};

fn at(secs: i64) -> Timestamp {
    Timestamp { secs, nanos: 0 }
}

fn word(id: i64, spelling: &str, status: WordStatus, next: Option<&str>) -> Word {
    Word {
        id,
        word: spelling.to_string(),
        status,
        meaning: None,
        stability: Some(2_000_000),
        difficulty: Some(300_000),
        last_review_date: None,
        next_review_date: next.map(|s| s.to_string()),
    }
}

fn snapshot(words: Vec<Word>) -> DatabaseExport {
    DatabaseExport {
        texts: Vec::new(),
        words,
        text_words: Vec::new(),
        user_preferences: Vec::new(),
        version: "1.0".to_string(),
    }
}

#[test]
fn again_rating_keeps_a_fifth_of_stability() {
    let p = update_word_parameters(2_000_000, 300_000, 367_879, Rating::Again);
    assert_eq!(p.stability, 400_000);
    assert_eq!(p.difficulty, 373_575);
    assert_eq!(p.scheduled_days, 1);
}

#[test]
fn each_rating_keeps_parameters_in_range() {
    let cases = [
        (Rating::Again, 400_000, 373_575),
        (Rating::Hard, 1_316_061, 265_181),
        (Rating::Good, 1_632_121, 236_788),
        (Rating::Easy, 1_821_758, 249_431),
    ];
    for (rating, s, d) in cases {
        let start = if rating == Rating::Again { 2_000_000 } else { 1_000_000 };
        let p = update_word_parameters(start, 300_000, 367_879, rating);
        assert_eq!(p.stability, s);
        assert_eq!(p.difficulty, d);
        assert!(p.stability > 0);
        assert!(p.difficulty >= 100_000 && p.difficulty <= 1_000_000);
        assert!(p.scheduled_days >= 1 && p.scheduled_days <= 3650);
    }
}

#[test]
fn difficulty_is_clamped_from_the_linker_default() {
    let p = update_word_parameters(1_000_000, 5_000_000, 500_000, Rating::Good);
    assert_eq!(p.difficulty, 1_000_000);
    let q = update_word_parameters(1_000_000, 0, 0, Rating::Easy);
    assert_eq!(q.difficulty, 100_000);
}

#[test]
fn interval_follows_stability_and_difficulty() {
    let p = update_word_parameters(100_000_000, 300_000, 0, Rating::Good);
    assert_eq!(p.stability, 200_000_000);
    assert_eq!(p.difficulty, 200_000);
    assert_eq!(p.scheduled_days, 34);
}

#[test]
fn interval_is_capped_at_ten_years() {
    let p = update_word_parameters(1_000_000_000_000, 300_000, 0, Rating::Easy);
    assert_eq!(p.scheduled_days, 3650);
}

#[test]
fn ratings_are_read_by_exact_name() {
    assert_eq!(parse_rating("Again"), Some(Rating::Again));
    assert_eq!(parse_rating("Hard"), Some(Rating::Hard));
    assert_eq!(parse_rating("Good"), Some(Rating::Good));
    assert_eq!(parse_rating("Easy"), Some(Rating::Easy));
    assert_eq!(parse_rating("good"), None);
    assert_eq!(parse_rating(""), None);
}

#[test]
fn letter_tokens_strip_punctuation() {
    assert_eq!(letter_tokens("The cat sat."), vec!["The", "cat", "sat"]);
    assert_eq!(letter_tokens(""), Vec::<String>::new());
    assert_eq!(letter_tokens("Hi, (you) «ça» l'été — 42!"), vec!["Hi", "you", "ça", "l", "été"]);
    assert_eq!(letter_tokens("abc123def x_y"), vec!["abc", "def", "x", "y"]);
}

#[test]
fn display_tokens_remove_the_punctuation_set() {
    assert_eq!(display_tokens("The cat sat."), vec!["The", "cat", "sat"]);
    assert_eq!(display_tokens("Hi, (you) «ça» l'été — 42!"), vec!["Hi", "you", "ça", "lété", "—", "42"]);
    assert_eq!(display_tokens("   "), Vec::<String>::new());
}

#[test]
fn linking_creates_words_and_links() {
    let mut s = Store::new();
    let t = s.create_text("first".to_string(), "The cat sat.".to_string()).unwrap();
    assert_eq!(t.id, 1);
    assert_eq!(s.words.len(), 3);
    let spellings: Vec<&str> = s.words.iter().map(|w| w.word.as_str()).collect();
    assert_eq!(spellings, vec!["The", "cat", "sat"]);
    for w in &s.words {
        assert_eq!(w.status, WordStatus::New);
        assert_eq!(w.stability, Some(1_000_000));
        assert_eq!(w.difficulty, Some(5_000_000));
        assert!(w.meaning.is_none() && w.last_review_date.is_none() && w.next_review_date.is_none());
    }
    assert_eq!(s.text_words.len(), 3);
    assert!(s.text_words.iter().all(|l| l.text_id == 1));
}

#[test]
fn linking_twice_adds_nothing() {
    let mut s = Store::new();
    let t = s.create_text("a".to_string(), "the cat and the hat".to_string()).unwrap();
    assert_eq!(s.words.len(), 4);
    assert_eq!(s.text_words.len(), 4);
    s.update_text(t.id, "a".to_string(), "the cat and the hat".to_string()).unwrap();
    s.link_text(t.id, "the cat and the hat").unwrap();
    assert_eq!(s.words.len(), 4);
    assert_eq!(s.text_words.len(), 4);
    assert_eq!(s.word_seq, 4);
}

#[test]
fn linking_shares_words_between_texts() {
    let mut s = Store::new();
    s.create_text("a".to_string(), "red fox".to_string()).unwrap();
    s.create_text("b".to_string(), "red dog".to_string()).unwrap();
    assert_eq!(s.words.len(), 3);
    assert_eq!(s.text_words.len(), 4);
    assert_eq!(s.get_text_word_counts(2), (2, 0, 0));
}

#[test]
fn linking_an_unknown_text_fails() {
    let mut s = Store::new();
    assert_eq!(s.link_text(9, "word"), Err(EngineError::NotFound));
    assert_eq!(s.update_text(9, "t".to_string(), "word".to_string()), Err(EngineError::NotFound));
    assert!(s.words.is_empty());
}

#[test]
fn import_moves_the_word_counter_past_restored_ids() {
    let mut s = Store::new();
    let snap = snapshot(vec![word(5, "old", WordStatus::New, None)]);
    s.import_database(snap).unwrap();
    assert_eq!(s.word_seq, 5);
    s.create_text("t".to_string(), "old new".to_string()).unwrap();
    let fresh = s.words.iter().find(|w| w.word == "new").unwrap();
    assert!(fresh.id > 5);
    assert_eq!(fresh.id, 6);
}

#[test]
fn import_replaces_everything() {
    let mut s = Store::new();
    s.create_text("gone".to_string(), "gone words".to_string()).unwrap();
    s.save_selected_country_code("FR".to_string()).unwrap();
    let snap = DatabaseExport {
        texts: vec![Text { id: 7, title: "t".to_string(), content: "x".to_string() }],
        words: vec![word(3, "x", WordStatus::Seen, None)],
        text_words: vec![TextWord { text_id: 7, word_id: 3 }],
        user_preferences: vec![UserPreference { id: 2, country_code: "DE".to_string() }],
        version: "1.0".to_string(),
    };
    s.import_database(snap).unwrap();
    assert_eq!(s.texts.len(), 1);
    assert_eq!(s.texts[0].id, 7);
    assert_eq!(s.words.len(), 1);
    assert_eq!(s.text_words, vec![TextWord { text_id: 7, word_id: 3 }]);
    assert_eq!(s.get_selected_country_code(), Some("DE".to_string()));
    assert_eq!((s.text_seq, s.word_seq, s.preference_seq), (7, 3, 2));
}

#[test]
fn import_with_empty_tables_resets_counters() {
    let mut s = Store::new();
    s.create_text("t".to_string(), "a b".to_string()).unwrap();
    s.import_database(snapshot(Vec::new())).unwrap();
    assert!(s.texts.is_empty() && s.words.is_empty() && s.text_words.is_empty());
    assert_eq!((s.text_seq, s.word_seq, s.preference_seq), (0, 0, 0));
}

#[test]
fn import_refuses_a_broken_snapshot() {
    let mut s = Store::new();
    s.create_text("t".to_string(), "keep".to_string()).unwrap();
    let dup = snapshot(vec![word(1, "same", WordStatus::New, None), word(2, "same", WordStatus::New, None)]);
    assert!(!check_snapshot(&dup));
    assert_eq!(s.import_database(dup), Err(EngineError::Conflict));
    let mut dangling = snapshot(vec![word(1, "a", WordStatus::New, None)]);
    dangling.text_words.push(TextWord { text_id: 4, word_id: 1 });
    assert_eq!(s.import_database(dangling), Err(EngineError::Conflict));
    assert_eq!(s.words.len(), 1);
    assert_eq!(s.words[0].word, "keep");
}

#[test]
fn export_then_import_restores_the_same_rows() {
    let mut s = Store::new();
    s.create_text("t".to_string(), "one two".to_string()).unwrap();
    s.save_selected_country_code("US".to_string()).unwrap();
    let e = s.export_database();
    assert_eq!(e.version, "1.0");
    let mut other = Store::new();
    other.import_database(e).unwrap();
    assert_eq!(other.text_words, s.text_words);
    assert_eq!(other.words.len(), 2);
    assert_eq!(other.words[1].word, "two");
    assert_eq!(other.get_selected_country_code(), Some("US".to_string()));
}

#[test]
fn sync_key_round_trip() {
    let data = "{\"texts\":[],\"words\":[{\"id\":5}],\"version\":\"1.0\"}";
    let key = compress_and_encode(data).unwrap();
    assert_ne!(key, data);
    assert!(key.chars().all(|c| c.is_ascii_alphanumeric() || c == '-' || c == '_' || c == '='));
    assert_eq!(key.len() % 4, 0);
    assert_eq!(compress_and_encode(data).unwrap(), key);
    assert_eq!(decode_and_decompress(&key).unwrap(), data);
    let empty = compress_and_encode("").unwrap();
    assert_eq!(decode_and_decompress(&empty).unwrap(), "");
}

#[test]
fn sync_key_failures_are_told_apart() {
    assert_eq!(decode_and_decompress("not base64!"), Err(CodecError::Base64));
    assert_eq!(decode_and_decompress("aGVsbG8gd29ybGQ="), Err(CodecError::Decompress));
}

#[test]
fn due_selection_skips_new_and_known_words() {
    let mut s = Store::new();
    let snap = snapshot(vec![
        word(1, "new", WordStatus::New, Some("2020-01-01T00:00:00+00:00")),
        word(2, "known", WordStatus::Known, None),
    ]);
    s.import_database(snap).unwrap();
    let now = at(1704067200);
    assert_eq!(s.next_due(now), Err(EngineError::NothingDue));
    assert!(s.get_random_word(now).is_err());
}

#[test]
fn due_selection_picks_the_most_overdue() {
    let mut s = Store::new();
    let snap = snapshot(vec![
        word(1, "later", WordStatus::Seen, Some("2023-06-01T00:00:00+00:00")),
        word(2, "earliest", WordStatus::Seen, Some("2023-01-01T00:00:00+00:00")),
        word(3, "future", WordStatus::Seen, Some("2030-01-01T00:00:00+00:00")),
        word(4, "broken", WordStatus::Seen, Some("not a date")),
    ]);
    s.import_database(snap).unwrap();
    let now = at(1704067200);
    assert_eq!(s.next_due(now), Ok(1));
    assert_eq!(s.get_random_word(now).unwrap().word, "earliest");
    assert_eq!(s.next_due(at(1640995200)), Err(EngineError::NothingDue));
}

#[test]
fn retention_cases() {
    let mut s = Store::new();
    let mut a = word(1, "a", WordStatus::Seen, None);
    a.stability = None;
    let b = word(2, "b", WordStatus::Seen, None);
    let mut c = word(3, "c", WordStatus::Seen, None);
    c.last_review_date = Some("2024-01-01T00:00:00+00:00".to_string());
    let mut d = word(4, "d", WordStatus::Seen, None);
    d.last_review_date = Some("yesterday".to_string());
    let mut e = word(5, "e", WordStatus::Seen, None);
    e.last_review_date = Some("2024-02-01T00:00:00+00:00".to_string());
    s.import_database(snapshot(vec![a, b, c, d, e])).unwrap();
    let now = at(1704974400);
    assert_eq!(s.estimate_word_retention(1, now), Ok(Retention::NoData));
    assert_eq!(s.estimate_word_retention(2, now), Ok(Retention::Fresh));
    assert_eq!(
        s.estimate_word_retention(3, now),
        Ok(Retention::Decayed { elapsed_days: 10, stability: 2_000_000 })
    );
    assert_eq!(s.estimate_word_retention(4, now), Err(EngineError::InvalidInput));
    assert_eq!(
        s.estimate_word_retention(5, now),
        Ok(Retention::Decayed { elapsed_days: 0, stability: 2_000_000 })
    );
    assert_eq!(s.estimate_word_retention(9, now), Err(EngineError::NotFound));
}

#[test]
fn review_records_parameters_and_dates() {
    let mut s = Store::new();
    let mut w = word(1, "w", WordStatus::Seen, None);
    w.last_review_date = Some("2024-01-01T00:00:00+00:00".to_string());
    s.import_database(snapshot(vec![w])).unwrap();
    let now = at(1704412800);
    let inputs = s.review_inputs(1, now).unwrap();
    assert_eq!(inputs.elapsed_days, 4);
    assert_eq!(inputs.stability, 2_000_000);
    let p = s.review_word(1, "Again", now, 135_335).unwrap();
    assert_eq!(p.stability, 400_000);
    assert_eq!(p.scheduled_days, 1);
    let stored = &s.words[0];
    assert_eq!(stored.stability, Some(400_000));
    assert_eq!(stored.difficulty, Some(327_067));
    assert_eq!(stored.last_review_date.as_deref(), Some("2024-01-05T00:00:00+00:00"));
    assert_eq!(stored.next_review_date.as_deref(), Some("2024-01-06T00:00:00+00:00"));
}

#[test]
fn review_uses_base_values_on_a_first_review() {
    let mut s = Store::new();
    let mut w = word(1, "w", WordStatus::Seen, None);
    w.stability = None;
    w.difficulty = None;
    s.import_database(snapshot(vec![w])).unwrap();
    let inputs = s.review_inputs(1, at(1704412800)).unwrap();
    assert_eq!(inputs.stability, 500_000);
    assert_eq!(inputs.difficulty, 300_000);
    assert_eq!(inputs.elapsed_days, 1);
}

#[test]
fn review_failures() {
    let mut s = Store::new();
    let mut bad = word(2, "bad", WordStatus::Seen, None);
    bad.last_review_date = Some("garbage".to_string());
    s.import_database(snapshot(vec![word(1, "w", WordStatus::Seen, None), bad, word(3, "k", WordStatus::Known, None)]))
        .unwrap();
    let now = at(1704412800);
    assert_eq!(s.review_word(1, "Perfect", now, 500_000), Err(EngineError::InvalidInput));
    assert_eq!(s.review_word(1, "Good", now, 1_000_001), Err(EngineError::InvalidInput));
    assert_eq!(s.review_word(2, "Good", now, 500_000), Err(EngineError::InvalidInput));
    assert_eq!(s.review_word(3, "Good", now, 500_000), Err(EngineError::InvalidInput));
    assert_eq!(s.review_word(8, "Good", now, 500_000), Err(EngineError::NotFound));
    assert!(s.words[0].last_review_date.is_none());
}

#[test]
fn meaning_makes_a_word_due_now() {
    let mut s = Store::new();
    s.create_text("t".to_string(), "hola".to_string()).unwrap();
    let now = at(1709287200);
    s.update_word_meaning(1, "hello".to_string(), now).unwrap();
    assert_eq!(s.words[0].status, WordStatus::Seen);
    assert_eq!(s.words[0].meaning.as_deref(), Some("hello"));
    assert_eq!(s.words[0].next_review_date.as_deref(), Some("2024-03-01T10:00:00+00:00"));
    assert_eq!(s.next_due(now), Ok(0));
    assert_eq!(s.update_word_meaning(7, "x".to_string(), now), Err(EngineError::NotFound));
}

#[test]
fn known_words_stay_known() {
    let mut s = Store::new();
    s.create_text("t".to_string(), "uno".to_string()).unwrap();
    let now = at(1709287200);
    s.update_word_meaning(1, "one".to_string(), now).unwrap();
    s.mark_word_as_known(1).unwrap();
    assert_eq!(s.words[0].status, WordStatus::Known);
    assert!(s.words[0].next_review_date.is_none());
    s.update_word_meaning(1, "one!".to_string(), now).unwrap();
    assert_eq!(s.words[0].status, WordStatus::Known);
    assert!(s.words[0].next_review_date.is_none());
    assert_eq!(s.get_text_word_counts(1), (0, 0, 1));
    assert_eq!(s.mark_word_as_known(5), Err(EngineError::NotFound));
}

#[test]
fn deleting_cascades_links() {
    let mut s = Store::new();
    s.create_text("a".to_string(), "x y".to_string()).unwrap();
    s.create_text("b".to_string(), "y z".to_string()).unwrap();
    s.delete_word(2).unwrap();
    assert_eq!(s.words.len(), 2);
    assert!(s.text_words.iter().all(|l| l.word_id != 2));
    assert_eq!(s.text_words.len(), 2);
    assert_eq!(s.delete_word(2), Err(EngineError::NotFound));
    s.delete_text(1);
    assert_eq!(s.texts.len(), 1);
    assert_eq!(s.text_words, vec![TextWord { text_id: 2, word_id: 3 }]);
    assert_eq!(s.words.len(), 2);
    s.delete_text(42);
    assert_eq!(s.texts.len(), 1);
}

#[test]
fn text_lookup_and_display_words() {
    let mut s = Store::new();
    s.create_text("t".to_string(), "Hello, world! Hello.".to_string()).unwrap();
    let (t, words) = s.get_text_with_words(1).unwrap();
    assert_eq!(t.title, "t");
    let spellings: Vec<&str> = words.iter().map(|w| w.word.as_str()).collect();
    assert_eq!(spellings, vec!["Hello", "world", "Hello"]);
    assert!(s.get_text_with_words(2).is_err());
    assert_eq!(s.get_text_by_id(1).unwrap().content, "Hello, world! Hello.");
    assert!(s.get_text_by_id(3).is_none());
    assert_eq!(s.get_texts().len(), 1);
    assert_eq!(s.get_all_words().len(), 2);
}

#[test]
fn preference_is_replaced_not_appended() {
    let mut s = Store::new();
    assert_eq!(s.get_selected_country_code(), None);
    s.save_selected_country_code("FR".to_string()).unwrap();
    s.save_selected_country_code("JP".to_string()).unwrap();
    assert_eq!(s.user_preferences.len(), 1);
    assert_eq!(s.get_selected_country_code(), Some("JP".to_string()));
    assert_eq!(s.user_preferences[0].id, 2);
}

#[test]
fn clock_arithmetic() {
    let a = at(1704067200);
    let b = Timestamp { secs: 1704326399, nanos: 500_000_000 };
    assert_eq!(days_since(b, a), 2);
    assert_eq!(days_since(a, b), 0);
    assert!(is_not_after(a, b));
    assert!(!is_not_after(b, a));
    assert_eq!(add_days(a, 31), Some(at(1704067200 + 31 * 86_400)));
    assert!(add_days(Timestamp { secs: i64::MAX - 10, nanos: 0 }, 1).is_none());
}

#[test]
fn dates_are_read_with_their_offset() {
    let mut s = Store::new();
    let mut w = word(1, "w", WordStatus::Seen, None);
    w.last_review_date = Some("2024-01-01T02:00:00+02:00".to_string());
    let mut v = word(2, "v", WordStatus::Seen, None);
    v.last_review_date = Some("2024-13-01T00:00:00Z".to_string());
    s.import_database(snapshot(vec![w, v])).unwrap();
    assert_eq!(
        s.estimate_word_retention(1, at(1704067200 + 3 * 86_400)),
        Ok(Retention::Decayed { elapsed_days: 3, stability: 2_000_000 })
    );
    assert_eq!(s.estimate_word_retention(2, at(1704067200)), Err(EngineError::InvalidInput));
}

#[test]
fn linking_given_tokens() {
    let mut s = Store::new();
    let t = s.create_text("t".to_string(), "".to_string()).unwrap();
    assert!(s.words.is_empty());
    let toks = vec!["sol".to_string(), "luna".to_string(), "sol".to_string()];
    s.link_tokens(t.id, &toks).unwrap();
    assert_eq!(s.words.len(), 2);
    assert_eq!(s.text_words, vec![TextWord { text_id: 1, word_id: 1 }, TextWord { text_id: 1, word_id: 2 }]);
    s.link_tokens(t.id, &toks).unwrap();
    assert_eq!(s.words.len(), 2);
    assert_eq!(s.text_words.len(), 2);
    assert_eq!(s.link_tokens(5, &toks), Err(EngineError::NotFound));
}

#[test]
fn words_for_given_tokens() {
    let mut s = Store::new();
    s.create_text("t".to_string(), "sol luna".to_string()).unwrap();
    let toks = vec!["luna".to_string(), "mar".to_string(), "sol".to_string(), "luna".to_string()];
    let found: Vec<String> = s.words_for_tokens(&toks).iter().map(|w| w.word.clone()).collect();
    assert_eq!(found, vec!["luna", "sol", "luna"]);
}

#[test]
fn updating_a_text_relinks_only_new_words() {
    let mut s = Store::new();
    s.import_database(snapshot(vec![word(5, "alpha", WordStatus::New, None)])).unwrap();
    let t = s.create_text("t".to_string(), "beta".to_string()).unwrap();
    assert_eq!(s.words[1].id, 6);
    s.update_text(t.id, "t2".to_string(), "beta gamma".to_string()).unwrap();
    assert_eq!(s.words.len(), 3);
    assert_eq!(s.words[2].id, 7);
    assert_eq!(s.words[0].word, "alpha");
    assert_eq!(s.text_words, vec![TextWord { text_id: 1, word_id: 6 }, TextWord { text_id: 1, word_id: 7 }]);
    assert_eq!(s.texts[0].title, "t2");
}
