//! The command line and the answers typed at the prompts.

use simple_rust_downloader::cli::{
    answer_char, conversion_choice, parse_command_line, ConvertChoice, Mode, UrlArgument,
};

fn args(v: &[&str]) -> Vec<String> {
    v.iter().map(|s| s.to_string()).collect()
}

#[test]
fn no_arguments_open_the_window() {
    let c = parse_command_line(&args(&["downloader"]));
    assert_eq!(c.mode, Mode::Gui);
    assert_eq!(c.url, UrlArgument::NotGiven);
    assert!(!c.debug && !c.override_existing && !c.help);
    assert_eq!(parse_command_line(&args(&[])).mode, Mode::Gui);
}

#[test]
fn cli_switch_wins_over_gui() {
    assert_eq!(parse_command_line(&args(&["d", "--cli"])).mode, Mode::Cli);
    assert_eq!(parse_command_line(&args(&["d", "-g", "-c"])).mode, Mode::Cli);
    assert_eq!(parse_command_line(&args(&["d", "--gui"])).mode, Mode::Gui);
    assert_eq!(parse_command_line(&args(&["d", "-g"])).mode, Mode::Gui);
}

#[test]
fn other_arguments_stay_on_the_terminal() {
    let c = parse_command_line(&args(&["d", "--url", "https://x.example/"]));
    assert_eq!(c.mode, Mode::Cli);
    assert_eq!(c.url, UrlArgument::Given("https://x.example/".to_string()));
}

#[test]
fn url_argument_forms() {
    assert_eq!(parse_command_line(&args(&["d", "-c", "-u"])).url, UrlArgument::Missing);
    assert_eq!(
        parse_command_line(&args(&["d", "-u", "a", "--url", "b"])).url,
        UrlArgument::Given("a".to_string())
    );
    assert_eq!(parse_command_line(&args(&["d", "-c"])).url, UrlArgument::NotGiven);
}

#[test]
fn switches() {
    let c = parse_command_line(&args(&["d", "-c", "-d", "-o", "-h"]));
    assert!(c.debug && c.override_existing && c.help);
    assert!(parse_command_line(&args(&["d", "--debug"])).debug);
    assert!(parse_command_line(&args(&["d", "--overrride"])).override_existing);
    assert!(parse_command_line(&args(&["d", "--ovveride"])).override_existing);
    assert!(!parse_command_line(&args(&["d", "--override"])).override_existing);
    assert!(parse_command_line(&args(&["d", "--help"])).help);
}

#[test]
fn answers_are_the_first_visible_character() {
    assert_eq!(answer_char("y\n"), Some('y'));
    assert_eq!(answer_char("  \tNo thanks\n"), Some('N'));
    assert_eq!(answer_char("\u{3000}n"), Some('n'));
    assert_eq!(answer_char("\n"), None);
    assert_eq!(answer_char(""), None);
}

#[test]
fn conversion_answer() {
    assert_eq!(conversion_choice('y'), ConvertChoice::Convert);
    assert_eq!(conversion_choice('n'), ConvertChoice::Skip);
    assert_eq!(conversion_choice('Y'), ConvertChoice::Invalid);
}
