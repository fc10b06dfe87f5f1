use vstd::prelude::*;
use vstd::string::*;
use crate::config::{
    CommandEntry, Config, EntryView, add_outcome, edit_outcome, sorted_tags, opt_text,
    lemma_sorted_tags_exist,
};
use crate::error::ErrorView;
use crate::text::{texts, join3, push_char, pop_char, compare_tags, TagOrder};

verus! {

/// Which screen the manager is showing.
#[derive(Debug, Clone, Copy, PartialEq, Eq, Structural)]
pub enum Screen {
    CommandList,
    ActionMenu,
    AddCommand,
    EditCommand,
    ConfirmDelete,
}

/// Which field of the add/edit form takes typed characters.
#[derive(Debug, Clone, Copy, PartialEq, Eq, Structural)]
pub enum InputField {
    Tag,
    Command,
    Description,
}

impl InputField {
    /// The field after this one: tag, command, description, then tag again.
    pub fn next(self) -> (r: InputField)
        ensures
            r == next_field(self),
    {
        match self {
            InputField::Tag => InputField::Command,
            InputField::Command => InputField::Description,
            InputField::Description => InputField::Tag,
        }
    }
}

/// The field after `f` in the add form's cycle.
pub open spec fn next_field(f: InputField) -> InputField {
    match f {
        InputField::Tag => InputField::Command,
        InputField::Command => InputField::Description,
        InputField::Description => InputField::Tag,
    }
}

/// The items of the action menu.
#[derive(Debug, Clone, Copy, PartialEq, Eq, Structural)]
pub enum Action {
    Run,
    Edit,
    Delete,
}

/// The action at position `i` of the menu.
pub open spec fn action_at(i: int) -> Action {
    if i == 0 {
        Action::Run
    } else if i == 1 {
        Action::Edit
    } else {
        Action::Delete
    }
}

/// The number of items in the action menu.
pub const ACTION_COUNT: usize = 3;

impl Action {
    /// The menu items, in the order they are shown.
    pub fn all() -> (r: [Action; 3])
        ensures
            forall|i: int| 0 <= i < 3 ==> #[trigger] r@[i] == action_at(i),
    {
        [Action::Run, Action::Edit, Action::Delete]
    }

    /// The text shown for the item.
    pub fn label(self) -> (r: &'static str)
        ensures
            r@ == action_label(self),
    {
        match self {
            Action::Run => "Run",
            Action::Edit => "Edit",
            Action::Delete => "Delete",
        }
    }
}

/// The text shown for an action.
pub open spec fn action_label(a: Action) -> Seq<char> {
    match a {
        Action::Run => "Run"@,
        Action::Edit => "Edit"@,
        Action::Delete => "Delete"@,
    }
}

/// A key press, as the manager sees it.
#[derive(Debug, Clone, Copy, PartialEq, Eq, Structural)]
pub enum Key {
    Char(char),
    Up,
    Down,
    Enter,
    Esc,
    Tab,
    BackTab,
    Backspace,
    Other,
}

/// What the caller must do after a key press has been handled.
#[derive(Debug, Clone, Copy, PartialEq, Eq, Structural)]
pub enum Effect {
    /// Nothing outside the manager's state changed.
    Nothing,
    /// The configuration changed and must be written to its file.
    SaveConfig,
}

/// The state of the terminal manager.
pub struct App {
    pub config: Config,
    pub config_path: String,
    pub screen: Screen,
    pub should_quit: bool,
    pub selected_index: usize,
    pub command_tags: Vec<String>,
    pub action_index: usize,
    pub input_tag: String,
    pub input_command: String,
    pub input_desc: String,
    pub active_field: InputField,
    pub pending_command: Option<String>,
    pub status_message: Option<String>,
}

/// The manager's state with its text taken by value.
pub struct AppView {
    pub config: Map<Seq<char>, EntryView>,
    pub screen: Screen,
    pub should_quit: bool,
    pub selected_index: int,
    pub command_tags: Seq<Seq<char>>,
    pub action_index: int,
    pub input_tag: Seq<char>,
    pub input_command: Seq<char>,
    pub input_desc: Seq<char>,
    pub active_field: InputField,
    pub pending_command: Option<Seq<char>>,
    pub status_message: Option<Seq<char>>,
}

/// The text of an optional string.
pub open spec fn opt_string_text(o: Option<String>) -> Option<Seq<char>> {
    match o {
        Some(t) => Some(t@),
        None => None,
    }
}

impl View for App {
    type V = AppView;

    open spec fn view(&self) -> AppView {
        AppView {
            config: self.config@,
            screen: self.screen,
            should_quit: self.should_quit,
            selected_index: self.selected_index as int,
            command_tags: texts(self.command_tags@),
            action_index: self.action_index as int,
            input_tag: self.input_tag@,
            input_command: self.input_command@,
            input_desc: self.input_desc@,
            active_field: self.active_field,
            pending_command: opt_string_text(self.pending_command),
            status_message: opt_string_text(self.status_message),
        }
    }
}

/// The invariant of the manager's state.
pub open spec fn app_state_ok(s: AppView) -> bool {
    &&& s.command_tags == sorted_tags(s.config.dom())
    &&& s.command_tags.len() > 0 ==> 0 <= s.selected_index < s.command_tags.len()
    &&& 0 <= s.selected_index
    &&& 0 <= s.action_index < 3
    &&& (s.screen == Screen::ActionMenu || s.screen == Screen::ConfirmDelete) ==> s.command_tags.len()
        > 0
    &&& s.pending_command is Some ==> s.should_quit
}

impl App {
    /// Well-formedness: the state keeps its invariant.
    pub open spec fn wf(&self) -> bool {
        &&& app_state_ok(self@)
    }
}

/// The tag under the cursor, if the cursor is on one.
pub open spec fn selected_tag_of(s: AppView) -> Option<Seq<char>> {
    if 0 <= s.selected_index < s.command_tags.len() {
        Some(s.command_tags[s.selected_index])
    } else {
        None
    }
}

/// The command under the cursor, if the cursor is on a saved one.
pub open spec fn selected_entry_of(s: AppView) -> Option<EntryView> {
    match selected_tag_of(s) {
        Some(t) => if s.config.contains_key(t) {
            Some(s.config[t])
        } else {
            None
        },
        None => None,
    }
}

/// The state after the tag list has been read again from the configuration,
/// with the cursor moved onto the last tag if it was past the end.
pub open spec fn refreshed(s: AppView) -> AppView {
    let tags = sorted_tags(s.config.dom());
    AppView {
        command_tags: tags,
        selected_index: if s.selected_index >= tags.len() && tags.len() > 0 {
            tags.len() - 1
        } else {
            s.selected_index
        },
        ..s
    }
}

/// The text of the form field that takes typed characters.
pub open spec fn active_input(s: AppView) -> Seq<char> {
    match s.active_field {
        InputField::Tag => s.input_tag,
        InputField::Command => s.input_command,
        InputField::Description => s.input_desc,
    }
}

/// The state with the active form field set to `text`.
pub open spec fn with_active_input(s: AppView, text: Seq<char>) -> AppView {
    match s.active_field {
        InputField::Tag => AppView { input_tag: text, ..s },
        InputField::Command => AppView { input_command: text, ..s },
        InputField::Description => AppView { input_desc: text, ..s },
    }
}

/// Typing into the form: a character is appended, Backspace removes the last one.
pub open spec fn typed(s: AppView, key: Key) -> AppView {
    match key {
        Key::Backspace => with_active_input(
            s,
            if active_input(s).len() > 0 {
                active_input(s).drop_last()
            } else {
                active_input(s)
            },
        ),
        Key::Char(c) => with_active_input(s, active_input(s).push(c)),
        _ => s,
    }
}

/// A key press on the command list.
pub open spec fn command_list_step(s: AppView, key: Key) -> AppView {
    match key {
        Key::Char('q') | Key::Esc => AppView { should_quit: true, ..s },
        Key::Up | Key::Char('k') => if s.selected_index > 0 {
            AppView { selected_index: s.selected_index - 1, ..s }
        } else {
            s
        },
        Key::Down | Key::Char('j') => if s.selected_index + 1 < s.command_tags.len() {
            AppView { selected_index: s.selected_index + 1, ..s }
        } else {
            s
        },
        Key::Enter => if s.command_tags.len() > 0 {
            AppView { action_index: 0, screen: Screen::ActionMenu, ..s }
        } else {
            s
        },
        Key::Char('a') => AppView {
            input_tag: Seq::empty(),
            input_command: Seq::empty(),
            input_desc: Seq::empty(),
            active_field: InputField::Tag,
            screen: Screen::AddCommand,
            ..s
        },
        Key::Char('d') => if s.command_tags.len() > 0 {
            AppView { screen: Screen::ConfirmDelete, ..s }
        } else {
            s
        },
        _ => s,
    }
}

/// A key press on the action menu.
pub open spec fn action_menu_step(s: AppView, key: Key) -> AppView {
    match key {
        Key::Esc | Key::Char('q') => AppView { screen: Screen::CommandList, ..s },
        Key::Up | Key::Char('k') => if s.action_index > 0 {
            AppView { action_index: s.action_index - 1, ..s }
        } else {
            s
        },
        Key::Down | Key::Char('j') => if s.action_index + 1 < 3 {
            AppView { action_index: s.action_index + 1, ..s }
        } else {
            s
        },
        Key::Enter => match action_at(s.action_index) {
            Action::Run => match selected_entry_of(s) {
                Some(e) => AppView { pending_command: Some(e.command), should_quit: true, ..s },
                None => s,
            },
            Action::Edit => match (selected_tag_of(s), selected_entry_of(s)) {
                (Some(t), Some(e)) => AppView {
                    input_tag: t,
                    input_command: e.command,
                    input_desc: e.description,
                    active_field: InputField::Command,
                    screen: Screen::EditCommand,
                    ..s
                },
                _ => s,
            },
            Action::Delete => AppView { screen: Screen::ConfirmDelete, ..s },
        },
        _ => s,
    }
}

/// The status line after a command was added under `tag`.
pub open spec fn added_text(tag: Seq<char>) -> Seq<char> {
    "Added '"@ + tag + "'"@
}

/// The status line after the command under `tag` was updated.
pub open spec fn updated_text(tag: Seq<char>) -> Seq<char> {
    "Updated '"@ + tag + "'"@
}

/// The status line after the command under `tag` was deleted.
pub open spec fn deleted_text(tag: Seq<char>) -> Seq<char> {
    "Deleted '"@ + tag + "'"@
}

/// A key press on the add form.
pub open spec fn add_command_step(s: AppView, key: Key) -> (AppView, Effect) {
    match key {
        Key::Esc => (AppView { screen: Screen::CommandList, ..s }, Effect::Nothing),
        Key::Tab | Key::BackTab => (
            AppView { active_field: next_field(s.active_field), ..s },
            Effect::Nothing,
        ),
        Key::Enter => if s.input_tag.len() == 0 || s.input_command.len() == 0 {
            (
                AppView { status_message: Some("Tag and command are required."@), ..s },
                Effect::Nothing,
            )
        } else {
            match add_outcome(s.config, s.input_tag, s.input_command, s.input_desc) {
                Ok(m) => {
                    let r = refreshed(AppView { config: m, ..s });
                    (
                        AppView {
                            selected_index: match r.command_tags.index_of_first(s.input_tag) {
                                Some(i) => i,
                                None => r.selected_index,
                            },
                            status_message: Some(added_text(s.input_tag)),
                            screen: Screen::CommandList,
                            ..r
                        },
                        Effect::SaveConfig,
                    )
                },
                Err(why) => (AppView { status_message: Some(why.text()), ..s }, Effect::Nothing),
            }
        },
        _ => (typed(s, key), Effect::Nothing),
    }
}

/// A key press on the edit form.
pub open spec fn edit_command_step(s: AppView, key: Key) -> (AppView, Effect) {
    match key {
        Key::Esc => (AppView { screen: Screen::CommandList, ..s }, Effect::Nothing),
        Key::Tab | Key::BackTab => (
            AppView {
                active_field: if s.active_field == InputField::Command {
                    InputField::Description
                } else {
                    InputField::Command
                },
                ..s
            },
            Effect::Nothing,
        ),
        Key::Enter => if s.input_command.len() == 0 {
            (
                AppView { status_message: Some("Command cannot be empty."@), ..s },
                Effect::Nothing,
            )
        } else {
            match edit_outcome(s.config, s.input_tag, Some(s.input_command), Some(s.input_desc)) {
                Ok(m) => (
                    AppView {
                        config: m,
                        status_message: Some(updated_text(s.input_tag)),
                        screen: Screen::CommandList,
                        ..s
                    },
                    Effect::SaveConfig,
                ),
                Err(why) => (AppView { status_message: Some(why.text()), ..s }, Effect::Nothing),
            }
        },
        _ => (typed(s, key), Effect::Nothing),
    }
}

/// A key press on the delete confirmation.
pub open spec fn confirm_delete_step(s: AppView, key: Key) -> (AppView, Effect) {
    match key {
        Key::Char('y') | Key::Char('Y') => match selected_tag_of(s) {
            Some(t) => if s.config.contains_key(t) {
                let r = refreshed(AppView { config: s.config.remove(t), ..s });
                (
                    AppView {
                        status_message: Some(deleted_text(t)),
                        screen: Screen::CommandList,
                        ..r
                    },
                    Effect::SaveConfig,
                )
            } else {
                (
                    AppView {
                        status_message: Some(ErrorView::TagNotFound(t).text()),
                        screen: Screen::CommandList,
                        ..s
                    },
                    Effect::Nothing,
                )
            },
            None => (AppView { screen: Screen::CommandList, ..s }, Effect::Nothing),
        },
        _ => (AppView { screen: Screen::CommandList, ..s }, Effect::Nothing),
    }
}

/// What a key press does: the status line is cleared, then the key is handled
/// by the screen that is showing.
pub open spec fn app_step(s: AppView, key: Key) -> (AppView, Effect) {
    let s0 = AppView { status_message: None, ..s };
    match s.screen {
        Screen::CommandList => (command_list_step(s0, key), Effect::Nothing),
        Screen::ActionMenu => (action_menu_step(s0, key), Effect::Nothing),
        Screen::AddCommand => add_command_step(s0, key),
        Screen::EditCommand => edit_command_step(s0, key),
        Screen::ConfirmDelete => confirm_delete_step(s0, key),
    }
}

/// The first position of `tag` in `tags`.
fn tag_position(tags: &Vec<String>, tag: &str) -> (r: Option<usize>)
    ensures
        match r {
            Some(i) => texts(tags@).index_of_first(tag@) == Some(i as int),
            None => texts(tags@).index_of_first(tag@) is None,
        },
{
    let n = tags.len();
    let mut i: usize = 0;
    proof {
        texts(tags@).index_of_first_ensures(tag@);
    }
    while i < n
        invariant
            n == tags@.len(),
            i <= n,
            forall|j: int| 0 <= j < i ==> (#[trigger] texts(tags@)[j]) != tag@,
            match texts(tags@).index_of_first(tag@) {
                Some(index) => {
                    &&& texts(tags@).contains(tag@)
                    &&& 0 <= index < texts(tags@).len()
                    &&& texts(tags@)[index] == tag@
                    &&& forall|j: int| 0 <= j < index < texts(tags@).len() ==> texts(tags@)[j] != tag@
                },
                None => !texts(tags@).contains(tag@),
            },
        decreases n - i,
    {
        if compare_tags(tags[i].as_str(), tag) == TagOrder::Same {
            assert(texts(tags@)[i as int] == tag@);
            return Some(i);
        }
        i = i + 1;
    }
    proof {
        if texts(tags@).contains(tag@) {
            let k = choose|k: int| 0 <= k < texts(tags@).len() && texts(tags@)[k] == tag@;
        }
    }
    None
}

impl App {
    /// A manager showing the command list of `config`, with the cursor on the first tag.
    pub fn new(config: Config, config_path: String) -> (r: App)
        ensures
            r.wf(),
            r.config_path == config_path,
            r@ == (AppView {
                config: config@,
                screen: Screen::CommandList,
                should_quit: false,
                selected_index: 0,
                command_tags: sorted_tags(config@.dom()),
                action_index: 0,
                input_tag: Seq::empty(),
                input_command: Seq::empty(),
                input_desc: Seq::empty(),
                active_field: InputField::Tag,
                pending_command: None,
                status_message: None,
            }),
    {
        let command_tags = config.tags();
        App {
            config,
            config_path,
            screen: Screen::CommandList,
            should_quit: false,
            selected_index: 0,
            command_tags,
            action_index: 0,
            input_tag: String::new(),
            input_command: String::new(),
            input_desc: String::new(),
            active_field: InputField::Tag,
            pending_command: None,
            status_message: None,
        }
    }

    /// Reads the tag list again from the configuration.
    fn refresh_tags(&mut self)
        ensures
            final(self)@ == refreshed(old(self)@),
            final(self).config == old(self).config,
            final(self).config_path == old(self).config_path,
    {
        self.command_tags = self.config.tags();
        if self.selected_index >= self.command_tags.len() && self.command_tags.len() > 0 {
            self.selected_index = self.command_tags.len() - 1;
        }
    }

    /// The tag under the cursor, if the cursor is on one.
    pub fn selected_tag(&self) -> (r: Option<&str>)
        ensures
            opt_text(r) == selected_tag_of(self@),
    {
        if self.selected_index < self.command_tags.len() {
            Some(self.command_tags[self.selected_index].as_str())
        } else {
            None
        }
    }

    /// The command under the cursor, if the cursor is on a saved one.
    pub fn selected_entry(&self) -> (r: Option<&CommandEntry>)
        ensures
            r is Some <==> selected_entry_of(self@) is Some,
            r matches Some(e) ==> selected_entry_of(self@) == Some(e@),
    {
        match self.selected_tag() {
            Some(tag) => self.config.get(tag),
            None => None,
        }
    }

    /// The form field that takes typed characters.
    fn active_input_mut(&mut self) -> (r: &mut String)
        ensures
            (*r)@ == active_input(old(self)@),
            final(self)@ == with_active_input(old(self)@, (*final(r))@),
            final(self).config == old(self).config,
            final(self).config_path == old(self).config_path,
    {
        match self.active_field {
            InputField::Tag => &mut self.input_tag,
            InputField::Command => &mut self.input_command,
            InputField::Description => &mut self.input_desc,
        }
    }

    /// Applies a typed character or Backspace to the active form field.
    fn type_key(&mut self, key: Key)
        ensures
            final(self)@ == typed(old(self)@, key),
            final(self).config == old(self).config,
            final(self).config_path == old(self).config_path,
    {
        match key {
            Key::Backspace => {
                let field = self.active_input_mut();
                pop_char(field);
            },
            Key::Char(c) => {
                let field = self.active_input_mut();
                push_char(field, c);
            },
            _ => {},
        }
    }
}

impl App {
    fn handle_command_list(&mut self, key: Key)
        ensures
            final(self)@ == command_list_step(old(self)@, key),
            final(self).config == old(self).config,
            final(self).config_path == old(self).config_path,
    {
        match key {
            Key::Char('q') | Key::Esc => {
                self.should_quit = true;
            },
            Key::Up | Key::Char('k') => {
                if self.selected_index > 0 {
                    self.selected_index = self.selected_index - 1;
                }
            },
            Key::Down | Key::Char('j') => {
                if self.command_tags.len() > 0 && self.selected_index < self.command_tags.len()
                    - 1 {
                    self.selected_index = self.selected_index + 1;
                }
            },
            Key::Enter => {
                if self.command_tags.len() > 0 {
                    self.action_index = 0;
                    self.screen = Screen::ActionMenu;
                }
            },
            Key::Char('a') => {
                self.input_tag = String::new();
                self.input_command = String::new();
                self.input_desc = String::new();
                self.active_field = InputField::Tag;
                self.screen = Screen::AddCommand;
            },
            Key::Char('d') => {
                if self.command_tags.len() > 0 {
                    self.screen = Screen::ConfirmDelete;
                }
            },
            _ => {},
        }
    }

    fn handle_action_menu(&mut self, key: Key)
        requires
            key == Key::Enter ==> old(self).action_index < 3,
        ensures
            final(self)@ == action_menu_step(old(self)@, key),
            final(self).config == old(self).config,
            final(self).config_path == old(self).config_path,
    {
        match key {
            Key::Esc | Key::Char('q') => {
                self.screen = Screen::CommandList;
            },
            Key::Up | Key::Char('k') => {
                if self.action_index > 0 {
                    self.action_index = self.action_index - 1;
                }
            },
            Key::Down | Key::Char('j') => {
                if self.action_index < ACTION_COUNT - 1 {
                    self.action_index = self.action_index + 1;
                }
            },
            Key::Enter => {
                let actions = Action::all();
                let action = actions[self.action_index];
                match action {
                    Action::Run => {
                        let command = match self.selected_entry() {
                            Some(entry) => Some(entry.command.clone()),
                            None => None,
                        };
                        if command.is_some() {
                            self.pending_command = command;
                            self.should_quit = true;
                        }
                    },
                    Action::Edit => {
                        let tag = match self.selected_tag() {
                            Some(t) => Some(String::from_str(t)),
                            None => None,
                        };
                        match tag {
                            Some(tag) => {
                                let fields = match self.config.get(tag.as_str()) {
                                    Some(entry) => Some(
                                        (entry.command.clone(), entry.description.clone()),
                                    ),
                                    None => None,
                                };
                                match fields {
                                    Some((command, description)) => {
                                        self.input_tag = tag;
                                        self.input_command = command;
                                        self.input_desc = description;
                                        self.active_field = InputField::Command;
                                        self.screen = Screen::EditCommand;
                                    },
                                    None => {},
                                }
                            },
                            None => {},
                        }
                    },
                    Action::Delete => {
                        self.screen = Screen::ConfirmDelete;
                    },
                }
            },
            _ => {},
        }
    }

    fn handle_add_command(&mut self, key: Key) -> (e: Effect)
        ensures
            (final(self)@, e) == add_command_step(old(self)@, key),
            final(self).config_path == old(self).config_path,
    {
        match key {
            Key::Esc => {
                self.screen = Screen::CommandList;
            },
            Key::Tab | Key::BackTab => {
                self.active_field = self.active_field.next();
            },
            Key::Enter => {
                if self.input_tag.as_str().is_empty() || self.input_command.as_str().is_empty() {
                    self.status_message = Some(String::from_str("Tag and command are required."));
                    return Effect::Nothing;
                }
                match self.config.add(
                    self.input_tag.as_str(),
                    self.input_command.as_str(),
                    self.input_desc.as_str(),
                ) {
                    Ok(()) => {
                        self.refresh_tags();
                        match tag_position(&self.command_tags, self.input_tag.as_str()) {
                            Some(pos) => {
                                self.selected_index = pos;
                            },
                            None => {},
                        }
                        self.status_message = Some(join3("Added '", self.input_tag.as_str(), "'"));
                        self.screen = Screen::CommandList;
                        return Effect::SaveConfig;
                    },
                    Err(err) => {
                        self.status_message = Some(err.message());
                    },
                }
            },
            _ => {
                self.type_key(key);
            },
        }
        Effect::Nothing
    }

    fn handle_edit_command(&mut self, key: Key) -> (e: Effect)
        ensures
            (final(self)@, e) == edit_command_step(old(self)@, key),
            final(self).config_path == old(self).config_path,
    {
        match key {
            Key::Esc => {
                self.screen = Screen::CommandList;
            },
            Key::Tab | Key::BackTab => {
                self.active_field = match self.active_field {
                    InputField::Command => InputField::Description,
                    _ => InputField::Command,
                };
            },
            Key::Enter => {
                if self.input_command.as_str().is_empty() {
                    self.status_message = Some(String::from_str("Command cannot be empty."));
                    return Effect::Nothing;
                }
                let tag = self.input_tag.clone();
                match self.config.edit(
                    tag.as_str(),
                    Some(self.input_command.as_str()),
                    Some(self.input_desc.as_str()),
                ) {
                    Ok(()) => {
                        self.status_message = Some(join3("Updated '", tag.as_str(), "'"));
                        self.screen = Screen::CommandList;
                        return Effect::SaveConfig;
                    },
                    Err(err) => {
                        self.status_message = Some(err.message());
                    },
                }
            },
            _ => {
                self.type_key(key);
            },
        }
        Effect::Nothing
    }

    fn handle_confirm_delete(&mut self, key: Key) -> (e: Effect)
        ensures
            (final(self)@, e) == confirm_delete_step(old(self)@, key),
            final(self).config_path == old(self).config_path,
    {
        let mut effect = Effect::Nothing;
        match key {
            Key::Char('y') | Key::Char('Y') => {
                let tag = match self.selected_tag() {
                    Some(t) => Some(String::from_str(t)),
                    None => None,
                };
                match tag {
                    Some(tag) => {
                        match self.config.remove(tag.as_str()) {
                            Ok(_) => {
                                self.refresh_tags();
                                self.status_message = Some(join3("Deleted '", tag.as_str(), "'"));
                                effect = Effect::SaveConfig;
                            },
                            Err(err) => {
                                self.status_message = Some(err.message());
                            },
                        }
                    },
                    None => {},
                }
                self.screen = Screen::CommandList;
            },
            _ => {
                self.screen = Screen::CommandList;
            },
        }
        effect
    }

    /// Handles one key press on whichever screen is showing, and says whether
    /// the configuration must now be written to its file.
    pub fn handle_key(&mut self, key: Key) -> (e: Effect)
        requires
            old(self).wf(),
        ensures
            final(self).wf(),
            (final(self)@, e) == app_step(old(self)@, key),
            final(self).config_path == old(self).config_path,
    {
        proof {
            use_type_invariant(&self.config);
            self.config.lemma_tag_order();
            lemma_step_keeps_state_ok(self@, key);
        }
        self.status_message = None;
        match self.screen {
            Screen::CommandList => {
                self.handle_command_list(key);
                Effect::Nothing
            },
            Screen::ActionMenu => {
                self.handle_action_menu(key);
                Effect::Nothing
            },
            Screen::AddCommand => self.handle_add_command(key),
            Screen::EditCommand => self.handle_edit_command(key),
            Screen::ConfirmDelete => self.handle_confirm_delete(key),
        }
    }
}

/// Every key press keeps the manager's invariant: the tag list is the
/// configuration's tags in order, the cursor is on a tag whenever there is
/// one, the menu cursor is on an item, the menu and the delete confirmation
/// only show while there is a tag, and a command is only pending when the
/// manager is quitting.
pub proof fn lemma_step_keeps_state_ok(s: AppView, key: Key)
    requires
        app_state_ok(s),
        s.config.dom().finite(),
    ensures
        app_state_ok(app_step(s, key).0),
        app_step(s, key).0.config.dom().finite(),
{
    let s0 = AppView { status_message: None, ..s };
    lemma_sorted_tags_exist(s.config.dom());
    match s.screen {
        Screen::AddCommand => {
            assert(app_step(s, key) == add_command_step(s0, key));
            match key {
                Key::Enter => {
                    if s0.input_tag.len() != 0 && s0.input_command.len() != 0 {
                        match add_outcome(s0.config, s0.input_tag, s0.input_command, s0.input_desc) {
                            Ok(m) => {
                                assert(m.dom() == s0.config.dom().insert(s0.input_tag));
                                lemma_sorted_tags_exist(m.dom());
                                let r = refreshed(AppView { config: m, ..s0 });
                                assert(m.dom().contains(s0.input_tag));
                                assert(r.command_tags.to_set().contains(s0.input_tag));
                                assert(r.command_tags.contains(s0.input_tag));
                                r.command_tags.index_of_first_ensures(s0.input_tag);
                            },
                            Err(_) => {},
                        }
                    }
                },
                Key::Esc | Key::Tab | Key::BackTab => {},
                _ => {
                    assert(typed(s0, key).config == s0.config);
                    assert(typed(s0, key).command_tags == s0.command_tags);
                },
            }
        },
        Screen::EditCommand => {
            assert(app_step(s, key) == edit_command_step(s0, key));
            match key {
                Key::Enter => {
                    if s0.input_command.len() != 0 {
                        match edit_outcome(s0.config, s0.input_tag, Some(s0.input_command), Some(s0.input_desc)) {
                            Ok(m) => {
                                assert(m.dom() =~= s0.config.dom());
                            },
                            Err(_) => {},
                        }
                    }
                },
                Key::Esc | Key::Tab | Key::BackTab => {},
                _ => {
                    assert(typed(s0, key).config == s0.config);
                    assert(typed(s0, key).command_tags == s0.command_tags);
                },
            }
        },
        Screen::ConfirmDelete => {
            match selected_tag_of(s0) {
                Some(t) => {
                    lemma_sorted_tags_exist(s0.config.remove(t).dom());
                },
                None => {},
            }
        },
        _ => {},
    }
}

} // verus!
