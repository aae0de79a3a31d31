use minigrep::{search, search_case_insensitive};

const POEM: &str = "\
Jeden to malo.
Dwa to wiecej niz jeden,
ale jeden jest wazne!
Z zerem moze stworzyc kazda liczbe.
Piekny jest system binarny.";

#[test]
fn one_result() {
    let query = "duct";
    let contents = "\
Rust:
safe, fast, productive.
Pick three.";
    assert_eq!(vec!["safe, fast, productive."], search(query, contents));
}

#[test]
fn two_results() {
    let query = "jeden";
    let contents = "\
Jeden to malo.
Dwa to wiecej niz jeden,
ale jeden jest wazne!
Z zerem moze stworzyc kazda liczbe.
Piekny jest system binarny.";
    assert_eq!(vec!["Dwa to wiecej niz jeden,", "ale jeden jest wazne!"], search(query, contents));
}

#[test]
fn three_results_case_insensitive() {
    let query = "jeden";
    let contents = "\
Jeden to malo.
Dwa to wiecej niz jeden,
ale jeden jest wazne!
Z zerem moze stworzyc kazda liczbe.
Piekny jest system binarny.";
    assert_eq!(vec!["Jeden to malo.", "Dwa to wiecej niz jeden,", "ale jeden jest wazne!"], search_case_insensitive(query, contents));
}

#[test]
fn no_results() {
    let query = "akimba";
    let contents = "\
Jeden to malo.
Dwa to wiecej niz jeden,
ale jeden jest wazne!
Z zerem moze stworzyc kazda liczbe.
Piekny jest system binarny.";
    assert_eq!(Vec::<String>::new(), search(query, contents));
}

#[test]
fn empty_query_finds_every_line_in_order() {
    let expected: Vec<&str> = POEM.lines().collect();
    assert_eq!(expected.len(), 5);
    assert_eq!(expected, search("", POEM));
    assert_eq!(expected, search_case_insensitive("", POEM));
}

#[test]
fn empty_contents_find_nothing() {
    assert!(search("a", "").is_empty());
    assert!(search("", "").is_empty());
    assert!(search_case_insensitive("a", "").is_empty());
    assert!(search_case_insensitive("", "").is_empty());
}

#[test]
fn empty_query_finds_empty_lines_too() {
    assert_eq!(vec!["", "a", ""], search("", "\na\n\n"));
}

#[test]
fn uppercase_query_matches_lowercase_line_without_case() {
    assert_eq!(vec!["ale jeden jest wazne!"], search_case_insensitive("ALE JEDEN", POEM));
    assert!(search("ALE JEDEN", POEM).is_empty());
}

#[test]
fn found_lines_are_given_as_they_stand() {
    assert_eq!(vec!["Jeden to malo."], search_case_insensitive("JEDEN TO", POEM));
}

#[test]
fn case_insensitive_finds_what_case_sensitive_finds() {
    let texts = [POEM, "AΣB\nxyz\nAΣ", "Straße\nSTRASSE\nstrasse", "İstanbul\nistanbul\nISTANBUL"];
    let queries = ["jeden", "Jeden", "AΣ", "Σ", "ß", "İ", "i", "I", "", "e", "S"];
    for text in texts {
        let all: Vec<&str> = text.lines().collect();
        for query in queries {
            let with_case = search(query, text);
            let without_case = search_case_insensitive(query, text);
            let mut next = 0;
            for line in &with_case {
                while next < without_case.len() && without_case[next] != *line {
                    next += 1;
                }
                assert!(next < without_case.len(), "{:?} lost {:?} of {:?}", query, line, all);
                next += 1;
            }
        }
    }
}

#[test]
fn sigma_before_a_letter_matches_sigma_at_the_end_of_the_query() {
    assert_eq!(vec!["AΣB"], search("AΣ", "AΣB"));
    assert_eq!(vec!["AΣB"], search_case_insensitive("AΣ", "AΣB"));
    assert_eq!(vec!["AΣB"], search_case_insensitive("aσ", "AΣB"));
}

#[test]
fn every_found_line_contains_the_query() {
    for query in ["jeden", "to", "e", "!", "binarny."] {
        for line in search(query, POEM) {
            assert!(line.contains(query));
        }
    }
}

#[test]
fn every_matching_line_is_found() {
    for query in ["jeden", "to", "e", "!", "binarny.", "zzz"] {
        let expected: Vec<&str> = POEM.lines().filter(|line| line.contains(query)).collect();
        assert_eq!(expected, search(query, POEM));
    }
}

#[test]
fn searching_twice_finds_the_same() {
    assert_eq!(search("jest", POEM), search("jest", POEM));
    assert_eq!(search_case_insensitive("JEST", POEM), search_case_insensitive("JEST", POEM));
    assert_eq!(vec!["ale jeden jest wazne!", "Piekny jest system binarny."], search("jest", POEM));
}

#[test]
fn found_lines_keep_the_order_of_the_text() {
    let found = search("a", "b a\nc\na b\na b\nd a");
    assert_eq!(vec!["b a", "a b", "a b", "d a"], found);
}

#[test]
fn a_line_with_several_occurrences_is_found_once() {
    assert_eq!(vec!["abcabcabc"], search("abc", "abcabcabc\nxyz"));
    assert_eq!(vec!["aaaa"], search("aa", "aaaa"));
}

#[test]
fn query_does_not_match_across_lines() {
    assert!(search("b\nc", "ab\ncd").is_empty());
    assert!(search("bc", "ab\ncd").is_empty());
}

#[test]
fn carriage_return_before_line_feed_is_no_part_of_the_line() {
    assert_eq!(vec!["one", "two"], search("o", "one\r\ntwo\r\nx"));
    assert!(search("\r", "one\r\ntwo\r\n").is_empty());
    assert_eq!(vec!["a\rb"], search("\r", "a\rb\r\nc"));
}

#[test]
fn non_ascii_query_is_found() {
    assert_eq!(vec!["zażółć gęślą jaźń"], search("gęślą", "abc\nzażółć gęślą jaźń\nxyz"));
    assert_eq!(vec!["ZAŻÓŁĆ GĘŚLĄ"], search_case_insensitive("gęślą", "abc\nZAŻÓŁĆ GĘŚLĄ\nxyz"));
    assert!(search("gęślą", "abc\nZAŻÓŁĆ GĘŚLĄ\nxyz").is_empty());
}

#[test]
fn part_of_a_character_is_no_match() {
    // "é" is C3 A9 and "ĩ" is C4 A9: they share a byte, not a character.
    assert!(search("é", "ĩ").is_empty());
    assert_eq!(vec!["né"], search("é", "ĩ\nné"));
}
