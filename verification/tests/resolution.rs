use alt::command::{find_selected_binary, find_selected_version, find_system_bin, Resolution,
    SearchEntry};
use alt::command_version::{CommandVersion, CommandVersionRegistry, LoadError};
use alt::doctor::{classify_bin, fix_decision, BinProblem, FixMode};
use alt::use_file;
use alt::use_file::UseFile;

fn node_registry() -> CommandVersionRegistry {
    let mut registry = CommandVersionRegistry::new("not-important");
    registry
        .add(CommandVersion::new("node", "16", "/opt/node16/bin/node"))
        .unwrap();
    registry
}

// An entry whose candidate binary exists and canonicalizes to `canonical`.
fn entry(dir: &str, canonical: &str) -> SearchEntry {
    SearchEntry {
        dir: dir.to_string(),
        canonical: Some(canonical.to_string()),
    }
}

// An entry whose directory holds no candidate binary.
fn empty_entry(dir: &str) -> SearchEntry {
    SearchEntry {
        dir: dir.to_string(),
        canonical: None,
    }
}

#[test]
fn registry_entry_survives_save_and_load() {
    let mut registry = CommandVersionRegistry::new("not-important");
    registry
        .add(CommandVersion::new("node", "16", "/opt/node16/bin/node"))
        .unwrap();

    let text = registry.save();
    let reloaded = CommandVersionRegistry::load("not-important", text.as_str()).unwrap();

    assert_eq!(
        reloaded.get("node", "16"),
        Some(CommandVersion::new("node", "16", "/opt/node16/bin/node"))
    );
}

#[test]
fn save_writes_expected_text() {
    let registry = node_registry();
    assert_eq!(
        registry.save(),
        "[\"node\"]\n\"16\" = \"/opt/node16/bin/node\"\n"
    );
}

#[test]
fn save_load_save_writes_identical_text() {
    let mut registry = CommandVersionRegistry::new("not-important");
    registry
        .add(CommandVersion::new("node", "16", "/opt/node16/bin/node"))
        .unwrap();
    registry
        .add(CommandVersion::new("node", "18", "/opt/node18/bin/node"))
        .unwrap();
    registry
        .add(CommandVersion::new("ruby", "2.5", "/opt/ruby/bin/ruby"))
        .unwrap();

    let first = registry.save();
    let reloaded = CommandVersionRegistry::load("not-important", first.as_str()).unwrap();
    let second = reloaded.save();

    assert_eq!(second, first);
}

#[test]
fn awkward_characters_survive_save_and_load() {
    let mut registry = CommandVersionRegistry::new("not-important");
    let cv = CommandVersion::new("we\"ird", "v\\1\n2", "/with\ttab/and \"quotes\"");
    registry.add(cv.clone()).unwrap();

    let text = registry.save();
    let reloaded = CommandVersionRegistry::load("not-important", text.as_str()).unwrap();

    assert_eq!(reloaded.get("we\"ird", "v\\1\n2"), Some(cv));
}

#[test]
fn load_rejects_text_outside_the_format() {
    let res = CommandVersionRegistry::load("not-important", "this is no registry file");
    assert_eq!(res.unwrap_err(), LoadError::Malformed);
}

#[test]
fn load_rejects_repeated_commands() {
    let text = "[\"node\"]\n\"16\" = \"/a\"\n[\"node\"]\n\"18\" = \"/b\"\n";
    let res = CommandVersionRegistry::load("not-important", text);
    assert_eq!(res.unwrap_err(), LoadError::Malformed);
}

#[test]
fn removing_last_version_removes_command_from_all() {
    let mut registry = CommandVersionRegistry::new("not-important");
    registry
        .add(CommandVersion::new("node", "16", "/opt/node16/bin/node"))
        .unwrap();
    registry
        .add(CommandVersion::new("node", "18", "/opt/node18/bin/node"))
        .unwrap();

    registry.remove("node", "16");
    registry.remove("node", "18");

    assert!(registry.command_names().is_empty());
    assert!(registry.iter().is_empty());
}

#[test]
fn nearest_override_file_wins() {
    let existing = vec!["/a/.alt.toml".to_string(), "/a/b/.alt.toml".to_string()];

    let found = use_file::find("/a/b/c", &existing);

    assert_eq!(found, Some("/a/b/.alt.toml".to_string()));
}

#[test]
fn override_walk_reaches_distant_ancestors() {
    let existing = vec!["/a/.alt.toml".to_string()];

    assert_eq!(
        use_file::find("/a/b/c", &existing),
        Some("/a/.alt.toml".to_string())
    );
    assert_eq!(use_file::find("/other/dir", &existing), None);
}

#[test]
fn find_or_dir_defaults_to_start_directory() {
    let existing: Vec<String> = vec![];

    let chosen = use_file::find_or_dir("/work/project", &existing);

    assert_eq!(chosen, "/work/project/.alt.toml");
}

#[test]
fn use_file_round_trips_through_text() {
    let mut mapping = UseFile::new();
    mapping.insert("node", "16");
    mapping.insert("ruby", "2.5");

    let text = use_file::save(&mapping);
    let reloaded = use_file::load(text.as_str()).unwrap();

    assert_eq!(reloaded.get("node"), Some("16".to_string()));
    assert_eq!(reloaded.get("ruby"), Some("2.5".to_string()));
    assert_eq!(reloaded.get("python"), None);
}

#[test]
fn use_file_load_rejects_garbage() {
    assert!(use_file::load("not an override file").is_none());
}

#[test]
fn use_file_remove_drops_the_selection() {
    let mut mapping = UseFile::new();
    mapping.insert("node", "16");
    mapping.remove("node");

    assert_eq!(mapping.get("node"), None);
}

#[test]
fn system_search_takes_first_match_in_path_order() {
    let entries = vec![
        empty_entry("/usr/local/bin"),
        entry("/usr/bin", "/usr/bin/node"),
        entry("/opt/other", "/opt/other/node"),
    ];

    let found = find_system_bin(&entries, "/home/me/.local/alt/shims", "/usr/bin/alt");

    assert_eq!(found, Some("/usr/bin/node".to_string()));
}

#[test]
fn system_search_skips_shim_dir_and_own_binary() {
    let shim_dir = "/home/me/.local/alt/shims";
    let current_exe = "/usr/local/bin/alt";
    // Both the shim directory and the tool itself sit on the search path.
    let entries = vec![
        entry(shim_dir, "/home/me/.local/alt/shims/node"),
        entry("/usr/local/bin", current_exe),
        entry("/usr/bin", "/usr/bin/node"),
    ];

    let found = find_system_bin(&entries, shim_dir, current_exe);

    assert_eq!(found, Some("/usr/bin/node".to_string()));
}

#[test]
fn system_search_finds_nothing_without_candidates() {
    let entries = vec![empty_entry("/usr/bin"), empty_entry("/bin")];
    assert_eq!(find_system_bin(&entries, "/shims", "/usr/bin/alt"), None);
}

#[test]
fn no_override_anywhere_falls_through_to_system_search() {
    // Scenario: the registry knows node 16, but no override file exists
    // anywhere above the working directory.
    let registry = node_registry();
    let selected = find_selected_version(None, "node");
    assert_eq!(selected, None);

    let resolution = find_selected_binary(&registry, "node", selected.as_ref());
    assert!(matches!(resolution, Resolution::UseSystem));

    // The shim then searches the inherited path, skipping its own layer.
    let shim_dir = "/home/me/.local/alt/shims";
    let entries = vec![
        entry(shim_dir, "/home/me/.local/alt/shims/node"),
        entry("/usr/bin", "/usr/bin/node"),
    ];
    assert_eq!(
        find_system_bin(&entries, shim_dir, "/usr/local/bin/alt"),
        Some("/usr/bin/node".to_string())
    );
}

#[test]
fn override_with_known_version_resolves_to_managed_binary() {
    // Scenario: the override file in the working directory selects node 16
    // and the registry holds that pair.
    let registry = node_registry();
    let mut mapping = UseFile::new();
    mapping.insert("node", "16");

    let selected = find_selected_version(Some(&mapping), "node");
    assert_eq!(selected, Some("16".to_string()));

    let resolution = find_selected_binary(&registry, "node", selected.as_ref());
    match resolution {
        Resolution::Managed(bin) => assert_eq!(bin, "/opt/node16/bin/node"),
        other => panic!("expected a managed binary, got {:?}", other),
    }
}

#[test]
fn override_with_unknown_version_reports_inconsistency() {
    // Scenario: the override selects node 99, which the registry lacks.
    // That is reported, never silently turned into a system fallback.
    let registry = node_registry();
    let mut mapping = UseFile::new();
    mapping.insert("node", "99");

    let selected = find_selected_version(Some(&mapping), "node");
    let resolution = find_selected_binary(&registry, "node", selected.as_ref());

    match resolution {
        Resolution::Inconsistent(version) => assert_eq!(version, "99"),
        other => panic!("expected an inconsistency, got {:?}", other),
    }
}

#[test]
fn override_naming_system_behaves_like_no_override() {
    // Scenario: the override selects the sentinel "system".
    let registry = node_registry();
    let mut mapping = UseFile::new();
    mapping.insert("node", "system");

    let selected = find_selected_version(Some(&mapping), "node");
    let resolution = find_selected_binary(&registry, "node", selected.as_ref());

    assert!(matches!(resolution, Resolution::UseSystem));
}

#[test]
fn selecting_system_in_use_file_removes_the_entry() {
    let mut mapping = UseFile::new();
    mapping.insert("node", "16");
    // Choosing the system version is stored by dropping the override.
    mapping.remove("node");

    let registry = node_registry();
    let selected = find_selected_version(Some(&mapping), "node");
    assert_eq!(selected, None);
    let resolution = find_selected_binary(&registry, "node", selected.as_ref());
    assert!(matches!(resolution, Resolution::UseSystem));
}

#[test]
fn classify_bin_reports_each_problem() {
    assert_eq!(classify_bin(false, false, 0), Some(BinProblem::Missing));
    assert_eq!(classify_bin(true, false, 0o755), Some(BinProblem::NotAFile));
    assert_eq!(
        classify_bin(true, true, 0o644),
        Some(BinProblem::NotExecutable)
    );
    assert_eq!(classify_bin(true, true, 0o755), None);
}

#[test]
fn fix_decision_asks_only_when_prompting() {
    assert_eq!(fix_decision(&FixMode::Auto), Some(true));
    assert_eq!(fix_decision(&FixMode::Never), Some(false));
    assert_eq!(fix_decision(&FixMode::Prompt), None);
}

#[test]
fn use_file_reads_bare_keys() {
    let mapping = use_file::load("node = \"16\"\nruby=\"2.5\"\n").unwrap();

    assert_eq!(mapping.get("node"), Some("16".to_string()));
    assert_eq!(mapping.get("ruby"), Some("2.5".to_string()));
}
