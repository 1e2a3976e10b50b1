use alt::command_version::{AddError, CommandVersion, CommandVersionRegistry};

fn sorted_entries(registry: &CommandVersionRegistry) -> Vec<CommandVersion> {
    let mut res = registry.iter();
    res.sort_by(|a, b| {
        (&a.command_name, &a.version_name).cmp(&(&b.command_name, &b.version_name))
    });
    res
}

/// A registry with the given file text, for tests that start from stored
/// state.
fn registry_from_text(text: &str) -> CommandVersionRegistry {
    CommandVersionRegistry::load("not-important", text).unwrap()
}

#[test]
fn default_is_empty() {
    let registry = CommandVersionRegistry::new("not-important");
    assert!(registry.is_empty())
}

#[test]
fn load_or_new_returns_default_on_missing_file() {
    let registry = CommandVersionRegistry::load_or_new("does/not/exist", None).unwrap();
    assert!(registry.is_empty());
    assert!(registry.iter().is_empty());
}

#[test]
fn add_creates_new_command() {
    let mut registry = CommandVersionRegistry::new("not-important");
    assert!(registry.is_empty());

    registry
        .add(CommandVersion::new(
            "the-command",
            "42",
            "/path/to/the-command-v42",
        ))
        .unwrap();

    assert_eq!(
        sorted_entries(&registry),
        vec![CommandVersion::new(
            "the-command",
            "42",
            "/path/to/the-command-v42"
        )]
    );
}

#[test]
fn add_adds_version_to_existing_command() {
    let mut registry = CommandVersionRegistry::new("not-important");
    assert!(registry.is_empty());
    registry
        .add(CommandVersion::new(
            "the-command",
            "42",
            "/path/to/the-command-v42",
        ))
        .unwrap();
    assert!(registry.get("the-command", "42").is_some());

    registry
        .add(CommandVersion::new(
            "the-command",
            "43",
            "/path/to/the-command-v43",
        ))
        .unwrap();
    assert_eq!(
        sorted_entries(&registry),
        vec![
            CommandVersion::new("the-command", "42", "/path/to/the-command-v42"),
            CommandVersion::new("the-command", "43", "/path/to/the-command-v43"),
        ]
    );
}

#[test]
fn add_fails_with_relative_path() {
    let mut registry = CommandVersionRegistry::new("not-important");

    let res = registry.add(CommandVersion::new("foo", "42", "this/is/relative"));

    assert_eq!(
        res,
        Err(AddError::InvalidPathNotAbsolute(CommandVersion::new(
            "foo",
            "42",
            "this/is/relative"
        )))
    )
}

#[test]
fn failed_add_leaves_registry_unchanged() {
    let mut registry = CommandVersionRegistry::new("not-important");
    registry
        .add(CommandVersion::new("node", "18", "/path/to/node-18"))
        .unwrap();
    let before = registry.save();

    let res = registry.add(CommandVersion::new("foo", "42", "this/is/relative"));

    assert!(res.is_err());
    assert_eq!(registry.save(), before);
}

#[test]
fn get_returns_path_when_found() {
    let registry = registry_from_text("[\"node\"]\n\"18\" = \"path/to/node-18\"\n");

    let res = registry.get("node", "18");
    assert_eq!(
        res,
        Some(CommandVersion {
            command_name: "node".to_string(),
            version_name: "18".to_owned(),
            path: "path/to/node-18".to_string(),
        })
    );
}

#[test]
fn get_returns_none_on_missing_version() {
    let registry = registry_from_text("[\"node\"]\n\"18\" = \"path/to/node-18\"\n");

    let res = registry.get("node", "not-there");
    assert_eq!(res, None);
}

#[test]
fn get_returns_none_on_missing_command() {
    let registry = registry_from_text("[\"node\"]\n\"18\" = \"path/to/node-18\"\n");

    let res = registry.get("not-there", "not-there");
    assert_eq!(res, None);
}

#[test]
fn remove_does_nothing_when_version_does_not_exist() {
    let mut registry = CommandVersionRegistry::new("not-important");

    registry.remove("some-command", "42");

    assert!(registry.is_empty());
}

#[test]
fn remove_removes_a_version_but_keeps_other_around() {
    let mut registry = registry_from_text("[\"foo\"]\n\"42\" = \"path/to/foo-42\"\n\"43\" = \"path/to/foo-43\"\n[\"node\"]\n\"16\" = \"path/to/node-16\"\n\"18\" = \"path/to/node-18\"\n");

    registry.remove("foo", "42");

    assert_eq!(
        sorted_entries(&registry),
        vec![
            CommandVersion::new("foo", "43", "path/to/foo-43"),
            CommandVersion::new("node", "16", "path/to/node-16"),
            CommandVersion::new("node", "18", "path/to/node-18"),
        ]
    );
}

#[test]
fn remove_cleans_up_command_hashmap_when_removing_last_version() {
    let mut registry = registry_from_text("[\"foo\"]\n\"43\" = \"path/to/foo-43\"\n[\"node\"]\n\"16\" = \"path/to/node-16\"\n\"18\" = \"path/to/node-18\"\n");

    registry.remove("foo", "43");

    assert_eq!(
        sorted_entries(&registry),
        vec![
            CommandVersion::new("node", "16", "path/to/node-16"),
            CommandVersion::new("node", "18", "path/to/node-18"),
        ]
    );
    let names = registry.command_names();
    assert_eq!(names, vec!["node".to_string()]);
}

#[test]
fn iter_returns_no_results_on_empty() {
    let registry = CommandVersionRegistry::new("not-important");

    assert!(registry.iter().is_empty());
}

#[test]
fn iter_returns_everything() {
    let registry = registry_from_text("[\"the-command\"]\n\"42\" = \"path/to/the-command-v42\"\n\"43\" = \"path/to/the-command-v43\"\n[\"node\"]\n\"16\" = \"path/to/node-16\"\n\"18\" = \"path/to/node-18\"\n");

    let res = sorted_entries(&registry);

    assert_eq!(
        res,
        vec![
            CommandVersion::new("node", "16", "path/to/node-16"),
            CommandVersion::new("node", "18", "path/to/node-18"),
            CommandVersion::new("the-command", "42", "path/to/the-command-v42"),
            CommandVersion::new("the-command", "43", "path/to/the-command-v43"),
        ]
    )
}

#[test]
fn command_names_returns_nothing_with_empty_registry() {
    let registry = CommandVersionRegistry::new("not-important");

    assert!(registry.command_names().is_empty());
}

#[test]
fn command_names_returns_names_of_known_commands() {
    let registry = registry_from_text("[\"the-command\"]\n\"42\" = \"path/to/the-command-v42\"\n\"43\" = \"path/to/the-command-v43\"\n[\"node\"]\n\"16\" = \"path/to/node-16\"\n\"18\" = \"path/to/node-18\"\n");

    let mut res = registry.command_names();
    res.sort();

    assert_eq!(res, vec!["node", "the-command"]);
}

#[test]
fn is_empty_returns_true_when_empty() {
    let registry = CommandVersionRegistry::new("not-important");
    assert!(registry.is_empty())
}

#[test]
fn is_empty_returns_false_when_not_empty() {
    let registry = registry_from_text("[\"node\"]\n\"18\" = \"path/to/node-18\"\n");
    assert!(!registry.is_empty())
}

#[test]
fn load_reads_empty_file() {
    let registry = CommandVersionRegistry::load("not-important", "").unwrap();
    assert!(registry.is_empty());
}

#[test]
fn load_reads_file_with_content() {
    let registry = CommandVersionRegistry::load(
        "not-important",
        "[the-command]\n\"42\" = \"/path/to/something\"\n\"43\" = \"/path/to/something-else\"\n",
    )
    .unwrap();

    assert_eq!(
        sorted_entries(&registry),
        vec![
            CommandVersion::new("the-command", "42", "/path/to/something"),
            CommandVersion::new("the-command", "43", "/path/to/something-else"),
        ]
    );
}

#[test]
fn save_and_load_preserves_data() {
    let registry = registry_from_text(
        "[\"the-command\"]\n\"42\" = \"path/to/the-command-v42\"\n\"43\" = \"path/to/the-command-v43\"\n[\"node\"]\n\"16\" = \"path/to/node-16\"\n\"18\" = \"path/to/node-18\"\n",
    );

    let saved = registry.save();
    let loaded_registry = CommandVersionRegistry::load("not-important", saved.as_str()).unwrap();

    assert_eq!(sorted_entries(&registry), sorted_entries(&loaded_registry));
}

#[test]
fn load_reads_bare_section_and_keys() {
    let registry = CommandVersionRegistry::load(
        "not-important",
        "[node]\n16 = \"/opt/node16/bin/node\"\n18 = \"/opt/node18/bin/node\"\n",
    )
    .unwrap();

    assert_eq!(
        sorted_entries(&registry),
        vec![
            CommandVersion::new("node", "16", "/opt/node16/bin/node"),
            CommandVersion::new("node", "18", "/opt/node18/bin/node"),
        ]
    );
}

#[test]
fn load_accepts_any_spacing_around_equals() {
    let registry = CommandVersionRegistry::load(
        "not-important",
        "[node]\n16=\"/a\"\n\"18\"   =\t\"/b\"\n",
    )
    .unwrap();

    assert_eq!(
        sorted_entries(&registry),
        vec![
            CommandVersion::new("node", "16", "/a"),
            CommandVersion::new("node", "18", "/b"),
        ]
    );
}

#[test]
fn bare_and_quoted_keys_name_the_same_entry() {
    let bare = CommandVersionRegistry::load("not-important", "[node]\n16 = \"/a\"\n").unwrap();
    let quoted =
        CommandVersionRegistry::load("not-important", "[\"node\"]\n\"16\" = \"/a\"\n").unwrap();

    assert_eq!(sorted_entries(&bare), sorted_entries(&quoted));
    // Writing normalizes to the quoted form either way.
    assert_eq!(bare.save(), quoted.save());
}
