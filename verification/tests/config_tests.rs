use fast_discord_tui::config::{
    clean_quoted, env_file_with_var, parse_delay_choice, parse_swap_choice, parse_token_list,
    profile_name,
};
use fast_discord_tui::models::ReactionDelayMode;

#[test]
fn env_file_adds_missing_key() {
    assert_eq!(env_file_with_var("", "DISCORD_TOKEN", "abc"), "DISCORD_TOKEN=\"abc\"\n");
    assert_eq!(
        env_file_with_var("PORT=1\n", "CHANNEL_ID", " \"'42'\" "),
        "PORT=1\nCHANNEL_ID=\"42\"\n"
    );
    // Single quotes inside double quotes are trimmed; the other way round the
    // double quotes stay.
    assert_eq!(
        env_file_with_var("", "K", " '\"42\"' "),
        "K=\"\"42\"\"\n"
    );
}

#[test]
fn env_file_replaces_first_setting_line() {
    let before = "A=1\r\n  KEY=old\nKEY=older\nB=2";
    assert_eq!(env_file_with_var(before, "KEY", "new"), "A=1\nKEY=\"new\"\nKEY=older\nB=2\n");
}

#[test]
fn env_file_keeps_empty_lines() {
    assert_eq!(env_file_with_var("\n\nX=1\n", "X", "2"), "\n\nX=\"2\"\n");
    assert_eq!(env_file_with_var("KEYS=1", "KEY", "2"), "KEYS=1\nKEY=\"2\"\n");
}

#[test]
fn token_lists() {
    assert_eq!(parse_token_list("a, \"b\" ,,c"), vec!["a", "b", "c"]);
    assert!(parse_token_list("").is_empty());
    assert!(parse_token_list(" , \"\" ").is_empty());
    assert_eq!(parse_token_list("one"), vec!["one"]);
}

#[test]
fn quoted_values() {
    assert_eq!(clean_quoted("  \"\"tok\"  "), "tok");
    assert_eq!(clean_quoted("x"), "x");
}

#[test]
fn swap_choices() {
    assert_eq!(parse_swap_choice("2\n"), 2);
    assert_eq!(parse_swap_choice(" 3 "), 3);
    assert_eq!(parse_swap_choice("+2"), 2);
    assert_eq!(parse_swap_choice("002"), 2);
    assert_eq!(parse_swap_choice("4"), 1);
    assert_eq!(parse_swap_choice("0"), 1);
    assert_eq!(parse_swap_choice(""), 1);
    assert_eq!(parse_swap_choice("two"), 1);
    assert_eq!(parse_swap_choice("99999999999999999999999999"), 1);
}

#[test]
fn delay_choices() {
    assert_eq!(parse_delay_choice("2"), ReactionDelayMode::Fast);
    assert_eq!(parse_delay_choice(" 3\n"), ReactionDelayMode::Instant);
    assert_eq!(parse_delay_choice("1"), ReactionDelayMode::Normal);
    assert_eq!(parse_delay_choice("22"), ReactionDelayMode::Normal);
}

#[test]
fn profiles() {
    let args = |v: &[&str]| v.iter().map(|s| s.to_string()).collect::<Vec<String>>();
    assert_eq!(profile_name(&args(&["bin", "--profile", "7"]), None), "7");
    assert_eq!(profile_name(&args(&["bin", "--3"]), None), "3");
    assert_eq!(profile_name(&args(&["bin", "--profile"]), None), "profile");
    assert_eq!(profile_name(&args(&["bin"]), Some("9".to_string())), "9");
    assert_eq!(profile_name(&args(&["bin"]), None), "1");
}
