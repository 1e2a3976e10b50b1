use alt::command_version::CommandVersion;
use alt::scan::homebrew::parse_version_path;

#[test]
fn test_parse_version_path_node() {
    assert_eq!(
        parse_version_path("/usr/local/opt/node@8/bin/node"),
        CommandVersion::new("node", "8", "/usr/local/opt/node@8/bin/node")
    );
}

#[test]
fn test_parse_version_path_php() {
    assert_eq!(
        parse_version_path("/usr/local/opt/php@5.6/bin/php"),
        CommandVersion::new("php", "5.6", "/usr/local/opt/php@5.6/bin/php")
    );
}

#[test]
fn test_parse_opt_homebrew_path_node() {
    assert_eq!(
        parse_version_path("/opt/homebrew/opt/node@16/bin/node"),
        CommandVersion::new("node", "16", "/opt/homebrew/opt/node@16/bin/node")
    );
}

#[test]
fn test_parse_opt_homebrew_path_php() {
    assert_eq!(
        parse_version_path("/opt/homebrew/opt/php@8.2/bin/php"),
        CommandVersion::new("php", "8.2", "/opt/homebrew/opt/php@8.2/bin/php"),
    );
}

#[test]
fn test_parse_linuxbrew_path_node() {
    assert_eq!(
        parse_version_path("/home/linuxbrew/.linuxbrew/opt/node@8/bin/node"),
        CommandVersion::new("node", "8", "/home/linuxbrew/.linuxbrew/opt/node@8/bin/node")
    );
}

#[test]
fn keg_package_without_marker_is_whole_version() {
    assert_eq!(
        parse_version_path("/usr/local/opt/oldstyle/bin/tool"),
        CommandVersion::new("tool", "oldstyle", "/usr/local/opt/oldstyle/bin/tool")
    );
}
