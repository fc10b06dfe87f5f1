use beaver::app::{Action, App, Effect, InputField, Key, Screen};
use beaver::config::Config;

fn app_with(tags: &[(&str, &str, &str)]) -> App {
    let mut config = Config::new();
    for (t, c, d) in tags {
        config.add(t, c, d).unwrap();
    }
    App::new(config, "/tmp/.be/config.toml".to_string())
}

fn type_text(app: &mut App, text: &str) {
    for c in text.chars() {
        assert_eq!(app.handle_key(Key::Char(c)), Effect::Nothing);
    }
}

#[test]
fn input_field_cycles() {
    assert_eq!(InputField::Tag.next(), InputField::Command);
    assert_eq!(InputField::Command.next(), InputField::Description);
    assert_eq!(InputField::Description.next(), InputField::Tag);
}

#[test]
fn action_labels() {
    assert_eq!(Action::Run.label(), "Run");
    assert_eq!(Action::Edit.label(), "Edit");
    assert_eq!(Action::Delete.label(), "Delete");
    assert_eq!(Action::all(), [Action::Run, Action::Edit, Action::Delete]);
}

#[test]
fn new_app_lists_tags_in_order() {
    let app = app_with(&[("b", "bb", ""), ("a", "aa", "")]);
    assert_eq!(app.command_tags, vec!["a", "b"]);
    assert_eq!(app.screen, Screen::CommandList);
    assert_eq!(app.selected_tag(), Some("a"));
    assert_eq!(app.selected_entry().unwrap().command, "aa");
}

#[test]
fn navigation_stays_in_range() {
    let mut app = app_with(&[("a", "1", ""), ("b", "2", "")]);
    app.handle_key(Key::Up);
    assert_eq!(app.selected_index, 0);
    app.handle_key(Key::Down);
    app.handle_key(Key::Char('j'));
    assert_eq!(app.selected_index, 1);
    app.handle_key(Key::Char('k'));
    assert_eq!(app.selected_index, 0);
}

#[test]
fn quit_keys() {
    let mut app = app_with(&[]);
    app.handle_key(Key::Esc);
    assert!(app.should_quit);
    let mut app = app_with(&[]);
    app.handle_key(Key::Char('q'));
    assert!(app.should_quit);
}

#[test]
fn empty_list_ignores_enter_and_delete() {
    let mut app = app_with(&[]);
    app.handle_key(Key::Enter);
    assert_eq!(app.screen, Screen::CommandList);
    app.handle_key(Key::Char('d'));
    assert_eq!(app.screen, Screen::CommandList);
}

#[test]
fn add_through_form_selects_new_tag() {
    let mut app = app_with(&[("a", "1", ""), ("z", "2", "")]);
    app.handle_key(Key::Char('a'));
    assert_eq!(app.screen, Screen::AddCommand);
    type_text(&mut app, "mid");
    app.handle_key(Key::Tab);
    type_text(&mut app, "echo hi");
    app.handle_key(Key::Tab);
    type_text(&mut app, "Say hi");
    assert_eq!(app.handle_key(Key::Enter), Effect::SaveConfig);
    assert_eq!(app.screen, Screen::CommandList);
    assert_eq!(app.command_tags, vec!["a", "mid", "z"]);
    assert_eq!(app.selected_index, 1);
    assert_eq!(app.status_message.as_deref(), Some("Added 'mid'"));
    assert_eq!(app.config.get("mid").unwrap().command, "echo hi");
    assert_eq!(app.config.get("mid").unwrap().description, "Say hi");
}

#[test]
fn add_form_requires_tag_and_command() {
    let mut app = app_with(&[]);
    app.handle_key(Key::Char('a'));
    type_text(&mut app, "t");
    assert_eq!(app.handle_key(Key::Enter), Effect::Nothing);
    assert_eq!(app.status_message.as_deref(), Some("Tag and command are required."));
    assert_eq!(app.screen, Screen::AddCommand);
}

#[test]
fn add_form_reports_refusal() {
    let mut app = app_with(&[]);
    app.handle_key(Key::Char('a'));
    type_text(&mut app, "list");
    app.handle_key(Key::Tab);
    type_text(&mut app, "ls");
    assert_eq!(app.handle_key(Key::Enter), Effect::Nothing);
    assert_eq!(
        app.status_message.as_deref(),
        Some("Tag 'list' conflicts with a built-in subcommand.")
    );
    // Any key clears the status line.
    app.handle_key(Key::Backspace);
    assert_eq!(app.status_message, None);
    assert_eq!(app.input_command, "l");
}

#[test]
fn backspace_on_empty_field_does_nothing() {
    let mut app = app_with(&[]);
    app.handle_key(Key::Char('a'));
    app.handle_key(Key::Backspace);
    assert_eq!(app.input_tag, "");
    app.handle_key(Key::Esc);
    assert_eq!(app.screen, Screen::CommandList);
}

#[test]
fn run_action_sets_pending_command() {
    let mut app = app_with(&[("dev", "npm run dev", "")]);
    app.handle_key(Key::Enter);
    assert_eq!(app.screen, Screen::ActionMenu);
    assert_eq!(app.action_index, 0);
    assert_eq!(app.handle_key(Key::Enter), Effect::Nothing);
    assert!(app.should_quit);
    assert_eq!(app.pending_command.as_deref(), Some("npm run dev"));
}

#[test]
fn edit_action_fills_form_and_saves() {
    let mut app = app_with(&[("dev", "npm run dev", "Start")]);
    app.handle_key(Key::Enter);
    app.handle_key(Key::Down);
    assert_eq!(app.action_index, 1);
    app.handle_key(Key::Enter);
    assert_eq!(app.screen, Screen::EditCommand);
    assert_eq!(app.input_tag, "dev");
    assert_eq!(app.input_command, "npm run dev");
    assert_eq!(app.input_desc, "Start");
    assert_eq!(app.active_field, InputField::Command);
    type_text(&mut app, "!");
    app.handle_key(Key::Tab);
    assert_eq!(app.active_field, InputField::Description);
    app.handle_key(Key::BackTab);
    assert_eq!(app.active_field, InputField::Command);
    assert_eq!(app.handle_key(Key::Enter), Effect::SaveConfig);
    assert_eq!(app.status_message.as_deref(), Some("Updated 'dev'"));
    assert_eq!(app.config.get("dev").unwrap().command, "npm run dev!");
}

#[test]
fn edit_form_requires_command() {
    let mut app = app_with(&[("dev", "x", "")]);
    app.handle_key(Key::Enter);
    app.handle_key(Key::Down);
    app.handle_key(Key::Enter);
    app.handle_key(Key::Backspace);
    assert_eq!(app.handle_key(Key::Enter), Effect::Nothing);
    assert_eq!(app.status_message.as_deref(), Some("Command cannot be empty."));
}

#[test]
fn menu_cursor_stays_on_items() {
    let mut app = app_with(&[("dev", "x", "")]);
    app.handle_key(Key::Enter);
    for _ in 0..5 {
        app.handle_key(Key::Char('j'));
    }
    assert_eq!(app.action_index, 2);
    app.handle_key(Key::Up);
    assert_eq!(app.action_index, 1);
    app.handle_key(Key::Char('q'));
    assert_eq!(app.screen, Screen::CommandList);
}

#[test]
fn delete_confirmed_removes_selected_tag() {
    let mut app = app_with(&[("a", "1", ""), ("b", "2", "")]);
    app.handle_key(Key::Down);
    app.handle_key(Key::Char('d'));
    assert_eq!(app.screen, Screen::ConfirmDelete);
    assert_eq!(app.handle_key(Key::Char('Y')), Effect::SaveConfig);
    assert_eq!(app.screen, Screen::CommandList);
    assert_eq!(app.command_tags, vec!["a"]);
    assert_eq!(app.selected_index, 0);
    assert_eq!(app.status_message.as_deref(), Some("Deleted 'b'"));
    assert!(app.config.get("b").is_none());
}

#[test]
fn delete_cancelled_by_other_key() {
    let mut app = app_with(&[("a", "1", "")]);
    app.handle_key(Key::Enter);
    app.handle_key(Key::Down);
    app.handle_key(Key::Down);
    app.handle_key(Key::Enter);
    assert_eq!(app.screen, Screen::ConfirmDelete);
    assert_eq!(app.handle_key(Key::Char('n')), Effect::Nothing);
    assert_eq!(app.screen, Screen::CommandList);
    assert_eq!(app.command_tags, vec!["a"]);
}

#[test]
fn texts_for_rendering() {
    let mut app = app_with(&[("dev", "npm run dev", "Start dev server"), ("x", "ls", "")]);
    assert_eq!(app.preview_text(), "$ npm run dev");
    assert_eq!(app.action_menu_title(), " 'dev' ");
    assert_eq!(app.confirm_delete_text(), "Delete 'dev'? (y/N)");
    assert_eq!(app.action_menu_lines(), vec!["> Run", "  Edit", "  Delete"]);
    let rows = app.command_list_rows();
    assert_eq!(rows[0], ("dev             ".to_string(), "  Start dev server".to_string()));
    assert_eq!(rows[1], ("x               ".to_string(), "  ls".to_string()));
    assert_eq!(Screen::ConfirmDelete.key_hints(), "y:Confirm  any:Cancel");
    app.handle_key(Key::Char('a'));
    assert_eq!(app.form_title(), " Add Command ");
    let empty = app_with(&[]);
    assert_eq!(empty.preview_text(), "");
    assert_eq!(empty.confirm_delete_text(), "Delete '?'? (y/N)");
}

#[test]
fn keys_without_save_leave_config() {
    let mut app = app_with(&[("a", "1", "")]);
    app.handle_key(Key::Char('a'));
    type_text(&mut app, "new");
    assert_eq!(app.handle_key(Key::Esc), Effect::Nothing);
    assert_eq!(app.screen, Screen::CommandList);
    assert!(app.config.get("new").is_none());
    assert_eq!(app.command_tags, vec!["a"]);
}
