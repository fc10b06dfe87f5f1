use beaver::config::Config;
use beaver::error::BeError;
use beaver::manager;

#[test]
fn list_of_empty_config_prints_hint() {
    let config = Config::new();
    assert_eq!(
        manager::list(&config),
        vec!["No commands saved yet. Use `be add <tag> -c <cmd>` to add one."]
    );
}

#[test]
fn list_pads_tags_and_prefers_description() {
    let mut config = Config::new();
    config.add("dev", "npm run dev", "Start dev server").unwrap();
    config.add("deploy", "docker build", "").unwrap();
    assert_eq!(
        manager::list(&config),
        vec![
            "Tag     Description",
            "---     -----------",
            "deploy  docker build",
            "dev     Start dev server",
        ]
    );
}

#[test]
fn list_uses_minimum_width_of_three() {
    let mut config = Config::new();
    config.add("a", "ls", "").unwrap();
    assert_eq!(manager::list(&config), vec!["Tag  Description", "---  -----------", "a    ls"]);
}

#[test]
fn list_width_counts_bytes() {
    let mut config = Config::new();
    config.insert(
        "éé".to_string(),
        beaver::config::CommandEntry { description: "d".to_string(), command: "c".to_string() },
    );
    // Four bytes wide, padded by characters as `format!` does.
    assert_eq!(manager::list(&config), vec!["Tag   Description", "---   -----------", "éé    d"]);
}

#[test]
fn add_remove_edit_messages() {
    let mut config = Config::new();
    assert_eq!(manager::add(&mut config, "dev", "npm run dev", "").unwrap(), "Added 'dev': npm run dev");
    assert_eq!(manager::edit(&mut config, "dev", None, Some("D")).unwrap(), "Updated 'dev'");
    assert_eq!(config.get("dev").unwrap().description, "D");
    assert_eq!(manager::remove(&mut config, "dev").unwrap(), "Removed 'dev'");
    assert_eq!(manager::remove(&mut config, "dev").unwrap_err(), BeError::TagNotFound("dev".to_string()));
}

#[test]
fn edit_with_nothing_is_refused() {
    let mut config = Config::new();
    config.add("dev", "x", "").unwrap();
    let err = manager::edit(&mut config, "dev", None, None).unwrap_err();
    assert_eq!(err, BeError::NothingToEdit);
    assert_eq!(err.message(), "Nothing to edit. Provide -c <cmd> and/or -d <desc>.");
    assert!(manager::check_edit_request(None, None).is_err());
    assert!(manager::check_edit_request(Some("x"), None).is_ok());
}

#[test]
fn run_by_tag_gives_the_command() {
    let mut config = Config::new();
    config.add("dev", "npm run dev", "").unwrap();
    assert_eq!(manager::run_by_tag(&config, "dev").unwrap(), "npm run dev");
    let err = manager::run_by_tag(&config, "prod").unwrap_err();
    assert_eq!(err.message(), "Unknown tag 'prod'. Use `be list` to see available commands.");
}

#[test]
fn tag_to_run_takes_the_first_word() {
    let args = vec!["dev".to_string(), "extra".to_string()];
    assert_eq!(manager::tag_to_run(&args).unwrap(), "dev");
    let err = manager::tag_to_run(&vec![]).unwrap_err();
    assert_eq!(err, BeError::NoTagProvided);
    assert_eq!(err.message(), "No tag provided");
}
