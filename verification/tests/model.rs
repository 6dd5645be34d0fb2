//! Tests for the term-frequency model and the phrase scorer.

use resume_tailor::word_cloud::WordCloud;

fn score(wc: &WordCloud, phrase: &str) -> i64 {
    wc.get_word_score(phrase.to_string()).get_word_weight()
}

#[test]
fn empty_model_has_no_words() {
    let wc = WordCloud::new();
    assert_eq!(wc.total_weight, 0);
    assert_eq!(score(&wc, "anything"), 0);
}

#[test]
fn total_weight_counts_tokens() {
    let wc = WordCloud::create_from_text("Python engineer builds scalable systems");
    assert_eq!(wc.total_weight, 5);
}

#[test]
fn total_weight_ignores_digits_and_punctuation() {
    let wc = WordCloud::create_from_text("Hello, world! 123");
    // "123" is removed entirely, so only two tokens remain
    assert_eq!(wc.total_weight, 2);
    assert_eq!(score(&wc, "hello"), 1);
    assert_eq!(score(&wc, "world"), 1);
}

#[test]
fn empty_reference_text_gives_zero_model() {
    let wc = WordCloud::create_from_text("");
    assert_eq!(wc.total_weight, 0);
    assert_eq!(score(&wc, "anything at all"), 0);
    assert_eq!(wc.get_word_score("x".to_string()).get_total_weight(), 0);
}

#[test]
fn whitespace_only_reference_text_gives_zero_model() {
    let wc = WordCloud::create_from_text("   \t\n  ");
    assert_eq!(wc.total_weight, 0);
    assert_eq!(score(&wc, "word"), 0);
}

#[test]
fn example_model_counts() {
    let wc = WordCloud::create_from_text("Python engineer builds scalable systems");
    assert_eq!(score(&wc, "Python"), 1);
    assert_eq!(score(&wc, "engineer"), 1);
    assert_eq!(score(&wc, "builds"), 1);
    assert_eq!(score(&wc, "scalable"), 1);
    assert_eq!(score(&wc, "systems"), 1);
    assert_eq!(score(&wc, "Java"), 0);
}

#[test]
fn repeated_words_accumulate() {
    let wc = WordCloud::create_from_text("rust rust go");
    assert_eq!(wc.total_weight, 3);
    assert_eq!(score(&wc, "rust"), 2);
    assert_eq!(score(&wc, "go"), 1);
}

#[test]
fn model_case_folds_reference_text() {
    let wc = WordCloud::create_from_text("PYTHON python");
    // both tokens fold to the same word
    assert_eq!(score(&wc, "python"), 2);
    assert_eq!(wc.total_weight, 2);
}

#[test]
fn lookup_case_folds_the_phrase() {
    let wc = WordCloud::create_from_text("python");
    assert_eq!(score(&wc, "PYTHON"), 1);
    assert_eq!(score(&wc, "PyThOn"), 1);
}

#[test]
fn filtering_merges_characters_within_a_token() {
    // "a1b" loses its digit and becomes the word "ab"
    let wc = WordCloud::create_from_text("a1b a");
    assert_eq!(wc.total_weight, 2);
    assert_eq!(score(&wc, "ab"), 1);
    assert_eq!(score(&wc, "a"), 1);
    assert_eq!(score(&wc, "ab a"), 2);
}

#[test]
fn tabs_separate_reference_tokens() {
    let wc = WordCloud::create_from_text("x\ty");
    assert_eq!(wc.total_weight, 2);
    assert_eq!(score(&wc, "x"), 1);
    assert_eq!(score(&wc, "y"), 1);
}

#[test]
fn phrase_weight_sums_matched_words() {
    let wc = WordCloud::create_from_text("Python engineer builds scalable systems");
    assert_eq!(score(&wc, "Python systems"), 2);
    assert_eq!(score(&wc, "built scalable systems"), 2);
    assert_eq!(score(&wc, "wrote code"), 0);
}

#[test]
fn phrase_with_all_words_present_scores_positive() {
    let wc = WordCloud::create_from_text("alpha beta gamma");
    assert!(score(&wc, "beta alpha") > 0);
}

#[test]
fn phrase_with_no_words_present_scores_zero() {
    let wc = WordCloud::create_from_text("alpha beta gamma");
    assert_eq!(score(&wc, "delta epsilon"), 0);
}

#[test]
fn double_space_yields_empty_token_that_misses() {
    let wc = WordCloud::create_from_text("a b");
    assert_eq!(score(&wc, "a  b"), 2);
    assert_eq!(score(&wc, ""), 0);
    assert_eq!(score(&wc, " "), 0);
}

#[test]
fn tab_inside_phrase_is_not_a_separator() {
    let wc = WordCloud::create_from_text("a b");
    // "a\tb" is a single token and matches nothing
    assert_eq!(score(&wc, "a\tb"), 0);
}

#[test]
fn scoring_is_deterministic() {
    let wc = WordCloud::create_from_text("Python engineer builds scalable systems");
    let first = wc.get_word_score("Python engineer".to_string());
    let second = wc.get_word_score("Python engineer".to_string());
    assert_eq!(first.get_word_weight(), second.get_word_weight());
    assert_eq!(first.get_total_weight(), second.get_total_weight());
}

#[test]
fn word_score_reports_model_total() {
    let wc = WordCloud::create_from_text("one two three");
    let s = wc.get_word_score("one".to_string());
    assert_eq!(s.get_word_weight(), 1);
    assert_eq!(s.get_total_weight(), 3);
}

#[test]
fn word_score_new_holds_both_fields() {
    let s = resume_tailor::word_cloud::WordScore::new(4, 9);
    assert_eq!(s.get_word_weight(), 4);
    assert_eq!(s.get_total_weight(), 9);
}

#[test]
fn reference_text_is_trimmed() {
    let wc = WordCloud::create_from_text("   rust   ");
    assert_eq!(wc.total_weight, 1);
    assert_eq!(score(&wc, "rust"), 1);
}

#[test]
fn model_words_are_inspectable() {
    let wc = WordCloud::create_from_text("go go rust");
    let mut found_go = false;
    let mut found_rust = false;
    for entry in &wc.word_cloud {
        let word: String = entry.word.iter().collect();
        if word == "go" {
            assert_eq!(entry.count, 2);
            found_go = true;
        }
        if word == "rust" {
            assert_eq!(entry.count, 1);
            found_rust = true;
        }
    }
    assert!(found_go && found_rust);
    assert_eq!(wc.word_cloud.len(), 2);
}
