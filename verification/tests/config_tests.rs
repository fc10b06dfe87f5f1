use beaver::config::{CommandEntry, Config};
use beaver::error::BeError;
use beaver::text::{compare_tags, pad_right, TagOrder};

fn entry(desc: &str, cmd: &str) -> CommandEntry {
    CommandEntry { description: desc.to_string(), command: cmd.to_string() }
}

#[test]
fn validate_tag_accepts_letters_digits_underscore_hyphen() {
    assert!(Config::validate_tag("dev").is_ok());
    assert!(Config::validate_tag("Build_2-x").is_ok());
    assert!(Config::validate_tag("-_-").is_ok());
}

#[test]
fn validate_tag_refuses_empty() {
    let err = Config::validate_tag("").unwrap_err();
    assert_eq!(err, BeError::EmptyTag);
    assert_eq!(err.message(), "Tag name cannot be empty");
}

#[test]
fn validate_tag_refuses_invalid_characters() {
    let err = Config::validate_tag("my tag").unwrap_err();
    assert_eq!(err, BeError::InvalidTag("my tag".to_string()));
    assert_eq!(
        err.message(),
        "Tag 'my tag' contains invalid characters. Only [a-zA-Z0-9_-] allowed."
    );
    assert!(Config::validate_tag("a.b").is_err());
    assert!(Config::validate_tag("é").is_err());
}

#[test]
fn validate_tag_refuses_reserved_names() {
    for name in ["init", "manager", "list", "add", "remove", "edit", "help"] {
        let err = Config::validate_tag(name).unwrap_err();
        assert_eq!(err, BeError::ReservedTag(name.to_string()));
        assert_eq!(
            err.message(),
            format!("Tag '{}' conflicts with a built-in subcommand.", name)
        );
    }
    assert!(Config::validate_tag("Init").is_ok());
    assert!(Config::validate_tag("lists").is_ok());
}

#[test]
fn add_then_get_gives_back_the_entry() {
    let mut config = Config::new();
    config.add("dev", "npm run dev", "Start dev server").unwrap();
    let e = config.get("dev").unwrap();
    assert_eq!(e.command, "npm run dev");
    assert_eq!(e.description, "Start dev server");
    assert!(config.get("deploy").is_none());
    assert_eq!(config.len(), 1);
}

#[test]
fn add_refuses_existing_tag() {
    let mut config = Config::new();
    config.add("dev", "npm run dev", "").unwrap();
    let err = config.add("dev", "other", "x").unwrap_err();
    assert_eq!(err, BeError::TagExists("dev".to_string()));
    assert_eq!(err.message(), "Tag 'dev' already exists. Use `be edit` to modify it.");
    assert_eq!(config.get("dev").unwrap().command, "npm run dev");
    assert_eq!(config.len(), 1);
}

#[test]
fn add_refuses_invalid_tag_and_leaves_config() {
    let mut config = Config::new();
    assert_eq!(config.add("list", "ls", "").unwrap_err(), BeError::ReservedTag("list".to_string()));
    assert_eq!(config.add("", "ls", "").unwrap_err(), BeError::EmptyTag);
    assert!(config.is_empty());
}

#[test]
fn remove_gives_back_the_entry() {
    let mut config = Config::new();
    config.add("dev", "npm run dev", "Start").unwrap();
    let e = config.remove("dev").unwrap();
    assert_eq!(e.command, "npm run dev");
    assert_eq!(e.description, "Start");
    assert!(config.get("dev").is_none());
    assert!(config.is_empty());
}

#[test]
fn remove_missing_tag_is_refused() {
    let mut config = Config::new();
    let err = config.remove("nope").unwrap_err();
    assert_eq!(err, BeError::TagNotFound("nope".to_string()));
    assert_eq!(err.message(), "Tag 'nope' not found.");
}

#[test]
fn edit_changes_only_given_fields() {
    let mut config = Config::new();
    config.add("dev", "npm run dev", "Start").unwrap();
    config.add("b", "make", "Build").unwrap();
    config.edit("dev", Some("yarn dev"), None).unwrap();
    assert_eq!(config.get("dev").unwrap().command, "yarn dev");
    assert_eq!(config.get("dev").unwrap().description, "Start");
    config.edit("dev", None, Some("Dev server")).unwrap();
    assert_eq!(config.get("dev").unwrap().command, "yarn dev");
    assert_eq!(config.get("dev").unwrap().description, "Dev server");
    assert_eq!(config.get("b").unwrap().command, "make");
    let err = config.edit("zzz", Some("x"), None).unwrap_err();
    assert_eq!(err, BeError::TagNotFound("zzz".to_string()));
}

#[test]
fn tags_are_listed_in_byte_order() {
    let mut config = Config::new();
    for t in ["deploy", "build", "Zeta", "a-1", "a_1", "a1", "b"] {
        config.add(t, "x", "").unwrap();
    }
    config.insert("é".to_string(), entry("", "y"));
    config.insert("~".to_string(), entry("", "y"));
    assert_eq!(
        config.tags(),
        vec!["Zeta", "a-1", "a1", "a_1", "b", "build", "deploy", "~", "é"]
    );
}

#[test]
fn insert_replaces_an_existing_entry() {
    let mut config = Config::default();
    config.insert("dev".to_string(), entry("a", "b"));
    config.insert("dev".to_string(), entry("c", "d"));
    assert_eq!(config.len(), 1);
    assert_eq!(config.get("dev").unwrap().command, "d");
}

#[test]
fn compare_tags_orders_by_characters_then_length() {
    assert_eq!(compare_tags("a", "b"), TagOrder::Before);
    assert_eq!(compare_tags("ab", "a"), TagOrder::After);
    assert_eq!(compare_tags("abc", "abc"), TagOrder::Same);
    assert_eq!(compare_tags("", "a"), TagOrder::Before);
    assert_eq!(compare_tags("B", "a"), TagOrder::Before);
}

#[test]
fn pad_right_pads_to_width_in_characters() {
    assert_eq!(pad_right("ab", 5), "ab   ");
    assert_eq!(pad_right("abcdef", 3), "abcdef");
    assert_eq!(pad_right("é", 3), "é  ");
}

#[test]
fn find_config_path_from_looks_below_each_directory() {
    // `Cargo.toml` is a file; its `.be/config.toml` is not, nor is the one of
    // the directory above it, so nothing is found.
    assert_eq!(Config::find_config_path_from("Cargo.toml"), None);
    assert_eq!(Config::find_config_path_from("/nonexistent-dir-for-tests/a/b"), None);
}

#[test]
fn edit_with_no_fields_leaves_entry() {
    let mut config = Config::new();
    config.add("dev", "npm run dev", "Start").unwrap();
    config.edit("dev", None, None).unwrap();
    assert_eq!(config.get("dev").unwrap().command, "npm run dev");
    assert_eq!(config.get("dev").unwrap().description, "Start");
}

#[test]
fn add_then_remove_restores_config() {
    let mut config = Config::new();
    config.add("a", "1", "").unwrap();
    config.add("b", "2", "").unwrap();
    config.remove("b").unwrap();
    assert_eq!(config.tags(), vec!["a"]);
    assert_eq!(config.get("a").unwrap().command, "1");
}

#[test]
fn config_file_of_joins_be_dir() {
    assert_eq!(beaver::config::config_file_of("/tmp/proj"), "/tmp/proj/.be/config.toml");
    assert_eq!(beaver::config::config_file_of("/"), "/.be/config.toml");
    assert_eq!(beaver::config::config_file_of(""), ".be/config.toml");
}

#[test]
fn ancestor_dirs_climb_to_the_top() {
    assert_eq!(beaver::config::ancestor_dirs("/a/b"), vec!["/a/b", "/a", "/"]);
    assert_eq!(beaver::config::ancestor_dirs("a/b"), vec!["a/b", "a", ""]);
    assert_eq!(beaver::config::ancestor_dirs("/"), vec!["/"]);
}

#[test]
fn first_found_picks_first_true_answer() {
    let c = vec!["x".to_string(), "y".to_string(), "z".to_string()];
    assert_eq!(beaver::config::first_found(&c, &vec![false, true, true]), Some("y".to_string()));
    assert_eq!(beaver::config::first_found(&c, &vec![true]), Some("x".to_string()));
    assert_eq!(beaver::config::first_found(&c, &vec![false, false]), None);
    assert_eq!(beaver::config::first_found(&c, &vec![]), None);
}

#[test]
fn clone_copies_every_entry() {
    let mut config = Config::new();
    config.add("a", "1", "one").unwrap();
    config.add("b", "2", "").unwrap();
    let copy = config.clone();
    config.remove("a").unwrap();
    assert_eq!(copy.tags(), vec!["a", "b"]);
    assert_eq!(copy.get("a").unwrap().description, "one");
}
