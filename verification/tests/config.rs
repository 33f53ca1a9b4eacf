use minigrep::config::CASE_INSENSITIVE;
use minigrep::{Config, ConfigError};

fn args(list: &[&str]) -> Vec<String> {
    list.iter().map(|arg| arg.to_string()).collect()
}

fn unset(_key: &str) -> Option<String> {
    None
}

#[test]
fn query_and_file_name_follow_the_program_name() {
    let config = Config::new(args(&["minigrep", "needle", "haystack.txt"]), unset).unwrap();
    assert_eq!("needle", config.query);
    assert_eq!("haystack.txt", config.filename);
    assert!(config.case_sensitive);
}

#[test]
fn missing_query_is_reported() {
    assert_eq!(Err(ConfigError::MissingQuery), Config::new(args(&["minigrep"]), unset));
    assert_eq!(Err(ConfigError::MissingQuery), Config::new(args(&[]), unset));
}

#[test]
fn missing_file_name_is_reported() {
    assert_eq!(
        Err(ConfigError::MissingTargetPath),
        Config::new(args(&["minigrep", "needle"]), unset)
    );
}

#[test]
fn further_arguments_are_ignored() {
    let config = Config::new(args(&["minigrep", "needle", "a.txt", "b.txt", "--flag"]), unset);
    assert_eq!(
        Ok(Config {
            query: String::from("needle"),
            filename: String::from("a.txt"),
            case_sensitive: true,
        }),
        config
    );
}

#[test]
fn an_empty_query_is_a_missing_query() {
    assert_eq!(
        Err(ConfigError::MissingQuery),
        Config::new(args(&["minigrep", "", "a.txt"]), unset)
    );
    assert_eq!(
        Err(ConfigError::MissingQuery),
        Config::new(args(&["minigrep", "", "a.txt", "b.txt"]), unset)
    );
}

#[test]
fn presence_is_judged_before_emptiness() {
    let set = |_key: &str| Some(String::from("1"));
    assert_eq!(
        Err(ConfigError::MissingTargetPath),
        Config::new(args(&["minigrep", ""]), unset)
    );
    assert_eq!(Err(ConfigError::MissingTargetPath), Config::new(args(&["minigrep", ""]), set));
    assert_eq!(
        Err(ConfigError::MissingTargetPath),
        Config::resolve(args(&["minigrep", ""]), None)
    );
    assert_eq!(
        Err(ConfigError::MissingTargetPath),
        Config::resolve(args(&["minigrep", ""]), Some(String::new()))
    );
    assert_eq!(Err(ConfigError::MissingQuery), Config::new(args(&[""]), unset));
}

#[test]
fn the_number_of_arguments_alone_decides_for_short_lists() {
    let words = ["", "a", "needle"];
    for toggle in [None, Some(String::new()), Some(String::from("1"))] {
        assert_eq!(
            Err(ConfigError::MissingQuery),
            Config::resolve(args(&[]), toggle.clone())
        );
        for first in words {
            assert_eq!(
                Err(ConfigError::MissingQuery),
                Config::resolve(args(&[first]), toggle.clone())
            );
            for second in words {
                assert_eq!(
                    Err(ConfigError::MissingTargetPath),
                    Config::resolve(args(&[first, second]), toggle.clone())
                );
            }
        }
    }
}

#[test]
fn an_empty_file_name_is_a_missing_file_name() {
    assert_eq!(
        Err(ConfigError::MissingTargetPath),
        Config::new(args(&["minigrep", "needle", ""]), unset)
    );
    assert_eq!(
        Err(ConfigError::MissingTargetPath),
        Config::new(args(&["minigrep", "needle", "", "b.txt"]), unset)
    );
}

#[test]
fn of_two_empty_arguments_the_query_is_reported() {
    assert_eq!(
        Err(ConfigError::MissingQuery),
        Config::new(args(&["minigrep", "", ""]), unset)
    );
    assert_eq!(
        Err(ConfigError::MissingQuery),
        Config::resolve(args(&["minigrep", "", ""]), Some(String::new()))
    );
}

#[test]
fn an_empty_program_name_does_not_matter() {
    let config = Config::new(args(&["", "needle", "a.txt"]), unset).unwrap();
    assert_eq!("needle", config.query);
    assert_eq!("a.txt", config.filename);
}

#[test]
fn a_configuration_that_was_built_names_a_query_and_a_file() {
    let words = ["", "a", "needle", " "];
    for first in words {
        for second in words {
            for third in words {
                let built = Config::new(args(&[first, second, third]), unset);
                assert_eq!(built.is_ok(), !second.is_empty() && !third.is_empty());
                if let Ok(config) = built {
                    assert!(!config.query.is_empty());
                    assert!(!config.filename.is_empty());
                }
            }
        }
    }
}

#[test]
fn the_toggle_is_not_looked_up_where_an_argument_is_missing() {
    let never = |_key: &str| -> Option<String> { panic!("looked up") };
    assert_eq!(Err(ConfigError::MissingQuery), Config::new(args(&[]), never));
    assert_eq!(Err(ConfigError::MissingQuery), Config::new(args(&["minigrep"]), never));
    assert_eq!(
        Err(ConfigError::MissingQuery),
        Config::new(args(&["minigrep", "", "a.txt"]), never)
    );
    assert_eq!(
        Err(ConfigError::MissingTargetPath),
        Config::new(args(&["minigrep", ""]), never)
    );
    assert_eq!(
        Err(ConfigError::MissingTargetPath),
        Config::new(args(&["minigrep", "needle"]), never)
    );
    assert_eq!(
        Err(ConfigError::MissingTargetPath),
        Config::new(args(&["minigrep", "needle", ""]), never)
    );
}

#[test]
fn the_toggle_turns_case_sensitivity_off_whatever_its_value() {
    for value in ["1", "true", "0", "false", ""] {
        let set = |_key: &str| Some(String::from(value));
        let config = Config::new(args(&["minigrep", "needle", "a.txt"]), set).unwrap();
        assert!(!config.case_sensitive);
    }
}

#[test]
fn the_toggle_set_to_the_empty_string_still_counts() {
    let config = Config::new(args(&["minigrep", "needle", "a.txt"]), |_key: &str| {
        Some(String::new())
    })
    .unwrap();
    assert!(!config.case_sensitive);
}

#[test]
fn the_toggle_is_looked_up_under_its_name() {
    assert_eq!("CASE_INSENSITIVE", CASE_INSENSITIVE);
    let only_the_toggle = |key: &str| {
        if key == "CASE_INSENSITIVE" {
            Some(String::from("1"))
        } else {
            None
        }
    };
    let config = Config::new(args(&["minigrep", "needle", "a.txt"]), only_the_toggle).unwrap();
    assert!(!config.case_sensitive);
    let anything_else = |key: &str| {
        if key == "CASE_INSENSITIVE" {
            None
        } else {
            Some(String::from("1"))
        }
    };
    let config = Config::new(args(&["minigrep", "needle", "a.txt"]), anything_else).unwrap();
    assert!(config.case_sensitive);
}

#[test]
fn missing_arguments_are_reported_whatever_the_toggle() {
    let set = |_key: &str| Some(String::from("1"));
    assert_eq!(Err(ConfigError::MissingQuery), Config::new(args(&["minigrep"]), set));
    assert_eq!(
        Err(ConfigError::MissingTargetPath),
        Config::new(args(&["minigrep", "needle"]), set)
    );
}

#[test]
fn resolve_takes_the_looked_up_value() {
    let list = ["minigrep", "needle", "a.txt"];
    assert!(Config::resolve(args(&list), None).unwrap().case_sensitive);
    assert!(!Config::resolve(args(&list), Some(String::new())).unwrap().case_sensitive);
    assert!(!Config::resolve(args(&list), Some(String::from("no"))).unwrap().case_sensitive);
    assert_eq!(
        Err(ConfigError::MissingTargetPath),
        Config::resolve(args(&list[..2]), Some(String::new()))
    );
    assert_eq!(Err(ConfigError::MissingQuery), Config::resolve(args(&list[..1]), None));
    assert_eq!(
        Err(ConfigError::MissingQuery),
        Config::resolve(args(&["minigrep", "", "a.txt"]), None)
    );
    assert_eq!(
        Err(ConfigError::MissingTargetPath),
        Config::resolve(args(&["minigrep", "needle", ""]), Some(String::from("1")))
    );
}

#[test]
fn each_error_has_its_message() {
    assert_eq!("Didn't get a query string", ConfigError::MissingQuery.message());
    assert_eq!("Didn't get a file name", ConfigError::MissingTargetPath.message());
}
