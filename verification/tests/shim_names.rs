use alt::shim::{get_command, is_shim};

#[test]
fn test_non_alt_command_is_shim() {
    assert!(is_shim("node"))
}

#[test]
fn test_absolute_non_alt_is_not_shim() {
    assert!(is_shim("/home/whatever/.local/alt/shims/node"))
}

#[test]
fn test_relative_non_alt_is_not_shim() {
    assert!(is_shim("./my/node"))
}

#[test]
fn test_alt_command_is_not_shim() {
    assert!(!is_shim("alt"))
}

#[test]
fn test_absolute_alt_is_not_shim() {
    assert!(!is_shim("/usr/bin/alt"))
}

#[test]
fn test_relative_alt_is_not_shim() {
    assert!(!is_shim("./target/debug/alt"))
}

#[test]
fn test_get_command_command() {
    assert_eq!("foo", get_command("foo"))
}

#[test]
fn test_get_command_relative() {
    assert_eq!("foo", get_command("./something/foo"))
}

#[test]
fn test_get_command_absolute() {
    assert_eq!("foo", get_command("/usr/bin/foo"))
}

#[test]
fn test_get_command_strips_extension() {
    assert_eq!("node", get_command("/shims/node.exe"))
}

#[test]
fn test_get_command_keeps_leading_dot() {
    assert_eq!(".hidden", get_command("/home/user/.hidden"))
}
