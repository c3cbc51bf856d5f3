use data_pipeline::configuration::{parse_selection, DataPipelineConfiguration};
use data_pipeline::environment::{load_env_vars, parse_env_line};
use data_pipeline::text::{str_contains, trim_str, u64_to_dec};

#[test]
fn menu_replies_parse_to_indices_below_the_limit() {
    assert_eq!(parse_selection("0", 2), Some(0));
    assert_eq!(parse_selection(" 1 \n", 2), Some(1));
    assert_eq!(parse_selection("+1", 2), Some(1));
    assert_eq!(parse_selection("2", 2), None);
    assert_eq!(parse_selection("abc", 2), None);
    assert_eq!(parse_selection("", 2), None);
    assert_eq!(parse_selection("99999999999999999999999999", 2), None);
}

#[test]
fn validated_arguments_select_their_index() {
    let program = DataPipelineConfiguration::new(
        ["Collect and sync", "Archive only"],
        ["repos", "workflows"],
    );
    assert_eq!(program.choose_context(Some(String::from(" 1 "))), 1);
    assert_eq!(program.choose_collection(Some(String::from("0"))), 0);
}

#[test]
fn trimming_strips_both_ends() {
    assert_eq!(trim_str("  a b \t\n"), "a b");
    assert_eq!(trim_str(""), "");
    assert_eq!(trim_str(" \t "), "");
    assert_eq!(trim_str("plain"), "plain");
}

#[test]
fn decimals_render_without_leading_zeroes() {
    assert_eq!(u64_to_dec(0), "0");
    assert_eq!(u64_to_dec(7), "7");
    assert_eq!(u64_to_dec(40), "40");
    assert_eq!(u64_to_dec(1234567890), "1234567890");
}

#[test]
fn substring_search_finds_needles() {
    assert!(str_contains("/w/.data/output/github/workflows/", "workflows"));
    assert!(!str_contains("/w/.data/output/github/repos/", "workflows"));
    assert!(str_contains("anything", ""));
}

#[test]
fn a_bare_sign_is_not_a_numeral() {
    assert_eq!(parse_selection("+", 2), None);
    assert_eq!(parse_selection("-1", 2), None);
    assert_eq!(parse_selection("1.5", 2), None);
}

#[test]
fn the_largest_value_renders_exactly() {
    assert_eq!(u64_to_dec(u64::MAX), "18446744073709551615");
}

#[test]
fn env_lines_split_on_the_first_equals() {
    assert_eq!(
        parse_env_line("GITHUB_TOKEN=abc123"),
        Some((String::from("GITHUB_TOKEN"), String::from("abc123")))
    );
    // The key is trimmed; the value keeps its spacing.
    assert_eq!(
        parse_env_line(" GPG_PASSPHRASE = hunter2"),
        Some((String::from("GPG_PASSPHRASE"), String::from(" hunter2")))
    );
    // Further separators are dropped when the segments are joined back.
    assert_eq!(
        parse_env_line("A=b=c"),
        Some((String::from("A"), String::from("bc")))
    );
    assert_eq!(parse_env_line("no separator here"), None);
}

#[test]
fn env_files_load_in_order_skipping_plain_lines() {
    let lines = vec![
        String::from("GITHUB_TOKEN=t"),
        String::from("# a comment"),
        String::from("MONGODB_DATABASE=db"),
    ];
    let vars = load_env_vars(&lines);
    assert_eq!(
        vars,
        vec![
            (String::from("GITHUB_TOKEN"), String::from("t")),
            (String::from("MONGODB_DATABASE"), String::from("db")),
        ]
    );
}
