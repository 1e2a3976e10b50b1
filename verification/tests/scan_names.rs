use alt::command_version::CommandVersion;
use alt::scan::path_suffix::parse_command_version;

#[test]
fn command_only_should_not_parse() {
    let res = parse_command_version("/usr/bin/python");
    assert_eq!(None, res)
}

#[test]
fn command_with_simple_number_suffix_should_parse() {
    let res = parse_command_version("/usr/bin/python2");
    assert_eq!(
        res,
        Some(CommandVersion::new("python", "2", "/usr/bin/python2"))
    )
}

#[test]
fn command_with_version_suffix_should_parse() {
    let res = parse_command_version("/usr/bin/python2.7");
    assert_eq!(
        res,
        Some(CommandVersion::new("python", "2.7", "/usr/bin/python2.7"))
    )
}

#[test]
fn command_with_version_suffix_and_dash_should_parse() {
    let res = parse_command_version("/usr/bin/ruby-2.5");
    assert_eq!(
        res,
        Some(CommandVersion::new("ruby", "2.5", "/usr/bin/ruby-2.5"))
    )
}

#[test]
fn command_with_text_suffix_should_not_parse() {
    let res = parse_command_version("/usr/bin/python-config");
    assert_eq!(res, None);
}

#[test]
fn command_trailing_period_in_suffix_should_not_parse() {
    let res = parse_command_version("/usr/bin/something-2.1.");
    assert_eq!(res, None);
}

#[test]
fn single_letter_command_with_single_digit_version() {
    let res = parse_command_version("/usr/bin/a2");
    assert_eq!(res, Some(CommandVersion::new("a", "2", "/usr/bin/a2")));
}

#[test]
fn single_letter_command_with_dot_version() {
    let res = parse_command_version("/usr/bin/a2.2");
    assert_eq!(res, Some(CommandVersion::new("a", "2.2", "/usr/bin/a2.2")));
}

#[test]
fn single_letter_command_with_dash_single_digit_version() {
    let res = parse_command_version("/usr/bin/a-2");
    assert_eq!(res, Some(CommandVersion::new("a", "2", "/usr/bin/a-2")));
}

#[test]
fn single_letter_command_with_dash_dot_version() {
    let res = parse_command_version("/usr/bin/a-2.2");
    assert_eq!(res, Some(CommandVersion::new("a", "2.2", "/usr/bin/a-2.2")));
}

#[test]
fn emoji_command_with_single_digit_version() {
    let res = parse_command_version("/usr/bin/\u{f0}\u{178}\u{2019}\u{a9}2");
    assert_eq!(
        res,
        Some(CommandVersion::new(
            "\u{f0}\u{178}\u{2019}\u{a9}",
            "2",
            "/usr/bin/\u{f0}\u{178}\u{2019}\u{a9}2"
        ))
    );
}

#[test]
fn emoji_command_with_dot_version() {
    let res = parse_command_version("/usr/bin/\u{f0}\u{178}\u{2019}\u{a9}2.2");
    assert_eq!(
        res,
        Some(CommandVersion::new(
            "\u{f0}\u{178}\u{2019}\u{a9}",
            "2.2",
            "/usr/bin/\u{f0}\u{178}\u{2019}\u{a9}2.2"
        ))
    );
}

#[test]
fn emoji_command_with_dash_single_digit_version() {
    let res = parse_command_version("/usr/bin/\u{f0}\u{178}\u{2019}\u{a9}-2");
    assert_eq!(
        res,
        Some(CommandVersion::new(
            "\u{f0}\u{178}\u{2019}\u{a9}",
            "2",
            "/usr/bin/\u{f0}\u{178}\u{2019}\u{a9}-2"
        ))
    );
}

#[test]
fn emoji_command_with_dash_dot_version() {
    let res = parse_command_version("/usr/bin/\u{f0}\u{178}\u{2019}\u{a9}-2.2");
    assert_eq!(
        res,
        Some(CommandVersion::new(
            "\u{f0}\u{178}\u{2019}\u{a9}",
            "2.2",
            "/usr/bin/\u{f0}\u{178}\u{2019}\u{a9}-2.2"
        ))
    );
}
