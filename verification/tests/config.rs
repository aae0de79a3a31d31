use minigrep::{run, Config};

fn args(words: &[&str]) -> Vec<String> {
    words.iter().map(|word| word.to_string()).collect()
}

#[test]
fn query_is_missing() {
    assert_eq!(Some("Didn't get a query string"), Config::new(&args(&[])).err());
    assert_eq!(Some("Didn't get a query string"), Config::new(&args(&["minigrep"])).err());
}

#[test]
fn file_name_is_missing() {
    assert_eq!(Some("Didn't get file name"), Config::new(&args(&["minigrep", "needle"])).err());
}

#[test]
fn query_and_file_name_are_read() {
    let config = Config::new(&args(&["minigrep", "needle", "haystack.txt"])).ok().unwrap();
    assert_eq!("needle", config.query);
    assert_eq!("haystack.txt", config.filename);
    assert!(config.case_sensitive);
}

#[test]
fn flag_switches_case_off() {
    let config = Config::new(&args(&["minigrep", "needle", "haystack.txt", "-i"])).ok().unwrap();
    assert_eq!("needle", config.query);
    assert_eq!("haystack.txt", config.filename);
    assert!(!config.case_sensitive);
}

#[test]
fn flag_is_found_among_other_arguments() {
    let config = Config::new(&args(&["minigrep", "q", "f", "-x", "-i", "more"])).ok().unwrap();
    assert!(!config.case_sensitive);
}

#[test]
fn other_arguments_are_ignored() {
    let config = Config::new(&args(&["minigrep", "q", "f", "-I", "i", "--i"])).ok().unwrap();
    assert!(config.case_sensitive);
}

#[test]
fn flag_in_place_of_query_or_file_name_is_no_flag() {
    let config = Config::new(&args(&["-i", "-i", "-i"])).ok().unwrap();
    assert_eq!("-i", config.query);
    assert_eq!("-i", config.filename);
    assert!(config.case_sensitive);
}

#[test]
fn empty_argument_ends_the_flags() {
    let config = Config::new(&args(&["minigrep", "q", "f", "", "-i"])).ok().unwrap();
    assert!(config.case_sensitive);
    let config = Config::new(&args(&["minigrep", "q", "f", "-i", ""])).ok().unwrap();
    assert!(!config.case_sensitive);
}

#[test]
fn empty_query_and_file_name_are_taken() {
    let config = Config::new(&args(&["minigrep", "", ""])).ok().unwrap();
    assert_eq!("", config.query);
    assert_eq!("", config.filename);
    assert!(config.case_sensitive);
}

#[test]
fn run_searches_with_regard_to_case() {
    let config = Config::new(&args(&["minigrep", "jeden", "poem.txt"])).ok().unwrap();
    let contents = "Jeden to malo.\nDwa to wiecej niz jeden,\nale jeden jest wazne!";
    assert_eq!(vec!["Dwa to wiecej niz jeden,", "ale jeden jest wazne!"], run(&config, contents));
}

#[test]
fn run_searches_without_regard_to_case() {
    let config = Config::new(&args(&["minigrep", "jeden", "poem.txt", "-i"])).ok().unwrap();
    let contents = "Jeden to malo.\nDwa to wiecej niz jeden,\nale jeden jest wazne!";
    assert_eq!(
        vec!["Jeden to malo.", "Dwa to wiecej niz jeden,", "ale jeden jest wazne!"],
        run(&config, contents)
    );
}

#[test]
fn run_takes_a_config_built_by_hand() {
    let config =
        Config { query: String::from("THREE"), filename: String::new(), case_sensitive: false };
    assert_eq!(vec!["Pick three."], run(&config, "Rust:\nsafe, fast, productive.\nPick three."));
}
