use gomqlet::util::{
    chars_of, colour, fuzzy_match, match_subsequence, pad, trim_coloured_string_list,
};

#[test]
fn test_fuzzy_match_exact_match() {
    assert_eq!(fuzzy_match("hello", "hello"), Some(vec![0, 1, 2, 3, 4]));
}

#[test]
fn test_fuzzy_match_subset() {
    assert_eq!(fuzzy_match("hello", "hlo"), Some(vec![0, 2, 4]));
}

#[test]
fn test_fuzzy_match_case_insensitive() {
    assert_eq!(fuzzy_match("Hello", "hello"), Some(vec![0, 1, 2, 3, 4]));
    assert_eq!(fuzzy_match("WORLD", "world"), Some(vec![0, 1, 2, 3, 4]));
}

#[test]
fn test_fuzzy_match_no_match() {
    assert_eq!(fuzzy_match("hello", "world"), None);
}

#[test]
fn test_fuzzy_match_empty_pattern() {
    assert_eq!(fuzzy_match("hello", ""), Some(vec![]));
}

#[test]
fn test_fuzzy_match_pattern_longer_than_subject() {
    assert_eq!(fuzzy_match("hi", "hello"), None);
}

#[test]
fn test_fuzzy_match_scattered_characters() {
    assert_eq!(fuzzy_match("fibonacci", "fbi"), Some(vec![0, 2, 8]));
}

#[test]
fn fuzzy_match_lowers_both_sides() {
    assert_eq!(fuzzy_match("hello", "HLO"), Some(vec![0, 2, 4]));
    assert_eq!(match_subsequence("hello", "HLO"), None);
    assert_eq!(match_subsequence("Hello", "hello"), None);
    assert_eq!(match_subsequence("", ""), Some(vec![]));
    assert_eq!(match_subsequence("", "a"), None);
    assert_eq!(match_subsequence("aab", "ab"), Some(vec![0, 2]));
    assert_eq!(fuzzy_match("ÉCOLE", "éo"), Some(vec![0, 2]));
}

#[test]
fn characters_not_bytes() {
    assert_eq!(vec!['h', 'é', '✓'], chars_of("hé✓"));
    assert_eq!(match_subsequence("héllo", "lo"), Some(vec![2, 4]));
}

#[test]
fn test_trim_empty_list() {
    let input: Vec<(String, Option<usize>)> = vec![];
    assert_eq!(trim_coloured_string_list(input, 10), "");
}

#[test]
fn test_single_uncolored_string() {
    let input = vec![("hello".to_string(), None)];
    assert_eq!(trim_coloured_string_list(input, 10), "hello");
}

#[test]
fn test_single_colored_string() {
    let input = vec![("hello".to_string(), Some(31))]; // Red color
    assert_eq!(trim_coloured_string_list(input, 10), "\x1B[31mhello\x1B[0m");
}

#[test]
fn test_multiple_strings_no_trimming() {
    let input = vec![
        ("hello".to_string(), None),
        ("world".to_string(), Some(32)), // Green color
    ];
    assert_eq!(
        trim_coloured_string_list(input, 10),
        "hello\x1B[32mworld\x1B[0m"
    );
}

#[test]
fn test_trimming_single_string() {
    let input = vec![("hello world".to_string(), None)];
    assert_eq!(trim_coloured_string_list(input, 5), "hello");
}

#[test]
fn test_trimming_multiple_strings() {
    let input = vec![
        ("hello".to_string(), None),
        ("world".to_string(), Some(32)), // Green color
    ];
    assert_eq!(
        trim_coloured_string_list(input, 7),
        "hello\x1B[32mwo\x1B[0m"
    );
}

#[test]
fn test_zero_max_length() {
    let input = vec![("hello".to_string(), None)];
    assert_eq!(trim_coloured_string_list(input, 0), "");
}

#[test]
fn test_multiple_colored_strings() {
    let input = vec![
        ("hello".to_string(), Some(31)), // Red color
        ("world".to_string(), Some(32)), // Green color
    ];
    assert_eq!(
        trim_coloured_string_list(input, 10),
        "\x1B[31mhello\x1B[0m\x1B[32mworld\x1B[0m"
    );
}

#[test]
fn test_mixed_colored_and_uncolored() {
    let input = vec![
        ("hello".to_string(), Some(31)), // Red color
        ("world".to_string(), None),
        ("!".to_string(), Some(34)), // Blue color
    ];
    assert_eq!(
        trim_coloured_string_list(input, 11),
        "\x1B[31mhello\x1B[0mworld\x1B[34m!\x1B[0m"
    );
}

#[test]
fn test_trim_within_colored_string() {
    let input = vec![("hello world".to_string(), Some(31))]; // Red color
    assert_eq!(
        trim_coloured_string_list(input, 5),
        "\x1B[31mhello\x1B[0m"
    );
}

#[test]
fn trimming_keeps_whole_characters() {
    let input = vec![("aé".to_string(), None), ("b".to_string(), None)];
    assert_eq!(trim_coloured_string_list(input, 2), "ab");
    let input = vec![("éa".to_string(), Some(1))];
    assert_eq!(trim_coloured_string_list(input, 1), "\x1B[1m\x1B[0m");
}

#[test]
fn padding_and_colours() {
    assert_eq!("ab   ", pad("ab", 5));
    assert_eq!("ab", pad("ab", 2));
    assert_eq!("abc", pad("abc", 2));
    assert_eq!("é ", pad("é", 2));
    assert_eq!("", pad("", 0));
    assert_eq!("\x1B[97mx\x1B[0m", colour("x", Some(97)));
    assert_eq!("x", colour("x", None));
}
