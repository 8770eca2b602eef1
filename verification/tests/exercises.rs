//! The integer and word exercises on concrete values.

use website_checker::numbers::{
    check_guess, fizz_buzz, guesses_needed, is_even, largest, sum, sum_with_step, Call,
};
use website_checker::words::{find_most_frequent_word, most_frequent, most_frequent_word, split_words};

#[test]
fn parity() {
    assert!(is_even(0));
    assert!(is_even(4));
    assert!(is_even(-2));
    assert!(!is_even(9));
    assert!(!is_even(-7));
    assert!(is_even(i32::MIN));
    assert!(!is_even(i32::MAX));
}

#[test]
fn guess_is_low_high_or_right() {
    assert_eq!(check_guess(10, 17), -1);
    assert_eq!(check_guess(20, 17), 1);
    assert_eq!(check_guess(17, 17), 0);
    assert_eq!(check_guess(i32::MIN, i32::MAX), -1);
    assert_eq!(check_guess(i32::MAX, i32::MIN), 1);
}

#[test]
fn guessing_game_counts_its_guesses() {
    assert_eq!(guesses_needed(10, 17), 8);
    assert_eq!(guesses_needed(17, 17), 1);
    assert_eq!(guesses_needed(20, 17), 4);
    assert_eq!(guesses_needed(-3, 3), 7);
}

#[test]
fn sums_over_stepped_ranges() {
    let mut result = 0;
    sum_with_step(&mut result, 0, 100, 1);
    assert_eq!(result, 5050);

    result = 0;
    sum_with_step(&mut result, 0, 10, 2);
    assert_eq!(result, 30);

    result = 0;
    sum_with_step(&mut result, 5, 15, 3);
    assert_eq!(result, 38);
}

#[test]
fn sum_with_step_adds_to_what_is_there() {
    let mut result = 7;
    sum_with_step(&mut result, 1, 3, 1);
    assert_eq!(result, 13);
    // An empty range adds nothing, whatever the step.
    sum_with_step(&mut result, 5, 4, 0);
    assert_eq!(result, 13);
    sum_with_step(&mut result, 5, 4, -1);
    assert_eq!(result, 13);
    // Negative members.
    sum_with_step(&mut result, -4, 0, 2);
    assert_eq!(result, 7);
    // A single member at the upper end.
    let mut top = 0;
    sum_with_step(&mut top, 9, 9, 100);
    assert_eq!(top, 9);
}

#[test]
fn number_analysis() {
    let nums = [4, 9, 5, 19, 13, 15, 1, 18, 23, 26];
    let calls: Vec<Call> = nums.iter().map(|n| fizz_buzz(*n)).collect();
    assert_eq!(
        calls,
        vec![
            Call::Number,
            Call::Fizz,
            Call::Buzz,
            Call::Number,
            Call::Number,
            Call::FizzBuzz,
            Call::Number,
            Call::Fizz,
            Call::Number,
            Call::Number,
        ]
    );
    assert_eq!(fizz_buzz(0), Call::FizzBuzz);
    assert_eq!(fizz_buzz(-9), Call::Fizz);
    assert_eq!(fizz_buzz(-10), Call::Buzz);
    assert_eq!(sum(&nums), 133);
    assert_eq!(sum(&[]), 0);
    assert_eq!(sum(&[i32::MAX, -1, 1]), i32::MAX);
    assert_eq!(largest(&nums), 26);
    assert_eq!(largest(&[-5]), -5);
    assert_eq!(largest(&[3, 3, 2]), 3);
}

#[test]
fn most_frequent_word_of_a_sentence() {
    let text = "the quick brown fox jumps over the lazy dog the quick brown fox";
    let (word, count) = most_frequent_word(text);
    assert_eq!(word, "the");
    assert_eq!(count, 3);
}

#[test]
fn ties_go_to_the_word_that_comes_first() {
    assert_eq!(most_frequent_word("b a a b"), ("b".to_string(), 2));
    assert_eq!(most_frequent_word("x y z"), ("x".to_string(), 1));
    assert_eq!(most_frequent_word("a b b a b"), ("b".to_string(), 3));
    let words: Vec<String> = ["one", "two", "two", "one"].iter().map(|w| w.to_string()).collect();
    assert_eq!(most_frequent(&words), ("one".to_string(), 2));
}

#[test]
fn words_are_split_at_white_space() {
    assert_eq!(split_words("  a\tbc \n d  "), vec!["a", "bc", "d"]);
    assert_eq!(split_words("one"), vec!["one"]);
    assert_eq!(split_words("a\u{a0}b\u{3000}c"), vec!["a", "b", "c"]);
    assert_eq!(split_words("na\u{ef}ve caf\u{e9}"), vec!["na\u{ef}ve", "caf\u{e9}"]);
    assert!(split_words("").is_empty());
    assert!(split_words(" \t\r\n").is_empty());
    let text = "the quick  brown\nfox";
    let expected: Vec<String> = text.split_whitespace().map(|w| w.to_string()).collect();
    assert_eq!(split_words(text), expected);
}

#[test]
fn text_without_words_has_no_most_frequent_word() {
    assert_eq!(find_most_frequent_word(""), None);
    assert_eq!(find_most_frequent_word("   \n"), None);
    assert_eq!(find_most_frequent_word(" a  b a"), Some(("a".to_string(), 2)));
}
