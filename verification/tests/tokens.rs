use fuzzy_path::case::{case_permutations, letter, to_lower, to_upper};
use fuzzy_path::distinct::{contains_text, distinct_strings};
use fuzzy_path::pipeline::fuzzy_tokens;
use fuzzy_path::trigram::trigrams;

fn strings(items: &[&str]) -> Vec<String> {
    items.iter().map(|s| s.to_string()).collect()
}

#[test]
fn trigrams_slide_over_the_query() {
    assert_eq!(trigrams("websrv"), strings(&["web", "ebs", "bsr", "srv"]));
}

#[test]
fn trigrams_of_exactly_three_characters() {
    assert_eq!(trigrams("abc"), strings(&["abc"]));
}

#[test]
fn trigrams_count_is_length_minus_two() {
    let query = "src/tools/path.rs";
    let tokens = trigrams(query);
    assert_eq!(tokens.len(), query.chars().count() - 2);
    for (i, token) in tokens.iter().enumerate() {
        assert_eq!(token.chars().count(), 3);
        assert_eq!(token.as_str(), &query[i..i + 3]);
    }
}

#[test]
fn trigrams_of_short_query_is_the_query() {
    assert_eq!(trigrams("ab"), strings(&["ab"]));
    assert_eq!(trigrams("a"), strings(&["a"]));
}

#[test]
fn trigrams_of_empty_query_is_one_empty_token() {
    assert_eq!(trigrams(""), strings(&[""]));
}

#[test]
fn trigrams_repeat_per_occurrence() {
    assert_eq!(trigrams("aaaa"), strings(&["aaa", "aaa"]));
}

#[test]
fn trigrams_keep_other_characters_verbatim() {
    assert_eq!(trigrams("a-_/"), strings(&["a-_", "-_/"]));
}

#[test]
fn trigrams_count_characters_not_bytes() {
    assert_eq!(trigrams("héllo"), strings(&["hél", "éll", "llo"]));
    assert_eq!(trigrams("éé"), strings(&["éé"]));
}

#[test]
fn case_permutations_of_two_letters() {
    assert_eq!(case_permutations("ab"), strings(&["ab", "Ab", "aB", "AB"]));
}

#[test]
fn case_permutations_of_three_letters() {
    assert_eq!(
        case_permutations("web"),
        strings(&["web", "Web", "wEb", "WEb", "weB", "WeB", "wEB", "WEB"])
    );
}

#[test]
fn case_permutations_start_from_any_casing() {
    assert_eq!(case_permutations("Ab"), strings(&["ab", "Ab", "aB", "AB"]));
}

#[test]
fn case_permutations_hold_other_characters_fixed() {
    assert_eq!(case_permutations("a1b"), strings(&["a1b", "A1b", "a1B", "A1B"]));
    assert_eq!(case_permutations(".rs"), strings(&[".rs", ".Rs", ".rS", ".RS"]));
    assert_eq!(case_permutations("-_/"), strings(&["-_/"]));
    assert_eq!(case_permutations("é"), strings(&["é"]));
}

#[test]
fn case_permutations_of_empty_token() {
    assert_eq!(case_permutations(""), strings(&[""]));
}

#[test]
fn case_permutations_are_two_to_the_letters_and_distinct() {
    for token in ["abc", "a-c", "1b3", "___", "Zz", "q"] {
        let letters = token.chars().filter(|c| c.is_ascii_alphabetic()).count();
        let variants = case_permutations(token);
        assert_eq!(variants.len(), 1usize << letters);
        for (i, v) in variants.iter().enumerate() {
            assert_eq!(v.to_ascii_lowercase(), token.to_ascii_lowercase());
            for w in &variants[i + 1..] {
                assert_ne!(v, w);
            }
        }
    }
}

#[test]
fn letters_and_their_forms() {
    assert!(letter('a') && letter('z') && letter('A') && letter('Z'));
    assert!(!letter('0') && !letter('@') && !letter('[') && !letter('`') && !letter('{'));
    assert!(!letter('é'));
    assert_eq!(to_lower('Q'), 'q');
    assert_eq!(to_lower('q'), 'q');
    assert_eq!(to_upper('q'), 'Q');
    assert_eq!(to_upper('Q'), 'Q');
    assert_eq!(to_lower('1'), '1');
    assert_eq!(to_upper('é'), 'é');
}

#[test]
fn distinct_strings_keeps_first_occurrences() {
    let items = strings(&["b", "a", "b", "c", "a"]);
    assert_eq!(distinct_strings(&items), strings(&["b", "a", "c"]));
    assert_eq!(distinct_strings(&Vec::new()), Vec::<String>::new());
}

#[test]
fn contains_text_finds_items() {
    let items = strings(&["b", "a"]);
    assert!(contains_text(&items, &"a".to_string()));
    assert!(!contains_text(&items, &"c".to_string()));
}

#[test]
fn fuzzy_tokens_expand_every_trigram() {
    let tokens = fuzzy_tokens("websrv");
    assert_eq!(tokens.len(), 32);
    assert_eq!(&tokens[0..8], &case_permutations("web")[..]);
    assert_eq!(&tokens[8..16], &case_permutations("ebs")[..]);
    assert_eq!(&tokens[16..24], &case_permutations("bsr")[..]);
    assert_eq!(&tokens[24..32], &case_permutations("srv")[..]);
}

#[test]
fn fuzzy_tokens_list_each_token_once() {
    assert_eq!(fuzzy_tokens("aaaa"), case_permutations("aaa"));
    assert_eq!(fuzzy_tokens("aAa"), case_permutations("aaa"));
}

#[test]
fn fuzzy_tokens_of_short_queries() {
    assert_eq!(fuzzy_tokens("a"), strings(&["a", "A"]));
    assert_eq!(fuzzy_tokens(""), strings(&[""]));
}
