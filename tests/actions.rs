use chatbot::actions::{contains_word, extract_actions, known_actions, parse_actions};

#[test]
fn known_actions_are_the_four_words() {
    assert_eq!(known_actions(), ["eat", "sleep", "code", "cycle"]);
}

#[test]
fn extraction_ignores_case_repeats_and_order() {
    let actions = extract_actions("SLEEP, then Eat, then eat again and sleep", &known_actions());
    assert_eq!(actions, vec!["eat".to_string(), "sleep".to_string()]);
}

#[test]
fn extraction_of_no_keyword_is_empty() {
    assert!(extract_actions("Nothing to see here", &known_actions()).is_empty());
    assert!(extract_actions("", &known_actions()).is_empty());
}

#[test]
fn extraction_of_every_keyword() {
    let actions = extract_actions("I cycle, code, sleep and eat", &known_actions());
    assert_eq!(actions, vec!["eat", "sleep", "code", "cycle"]);
}

#[test]
fn parse_actions_matches_lowercase_text_only() {
    let actions = parse_actions("EAT and code".to_string(), &known_actions());
    assert_eq!(actions, vec!["code".to_string()]);
}

#[test]
fn parse_actions_with_own_vocabulary() {
    let actions = parse_actions("go swim, then run".to_string(), &["run", "walk", "swim"]);
    assert_eq!(actions, vec!["run".to_string(), "swim".to_string()]);
}

#[test]
fn contains_word_finds_substrings() {
    assert!(contains_word("recycled", "cycle"));
    assert!(contains_word("eat", "eat"));
    assert!(contains_word("anything", ""));
    assert!(!contains_word("ea", "eat"));
    assert!(!contains_word("sleeP", "sleep"));
}
