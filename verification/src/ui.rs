use vstd::prelude::*;
use vstd::string::*;
use crate::app::{App, AppView, Screen, Action, action_at, action_label, selected_tag_of, selected_entry_of};
use crate::manager::shown_text;
use crate::text::{texts, join3, padded, pad_right};

verus! {

/// The key hints the status bar shows on each screen.
pub open spec fn screen_hints(s: Screen) -> Seq<char> {
    match s {
        Screen::CommandList => "↑↓/jk:Navigate  Enter:Actions  a:Add  d:Delete  q:Quit"@,
        Screen::ActionMenu => "↑↓/jk:Navigate  Enter:Select  Esc:Back"@,
        Screen::AddCommand | Screen::EditCommand => "Tab:Next field  Enter:Save  Esc:Cancel"@,
        Screen::ConfirmDelete => "y:Confirm  any:Cancel"@,
    }
}

impl Screen {
    /// The key hints the status bar shows on this screen.
    pub fn key_hints(self) -> (r: &'static str)
        ensures
            r@ == screen_hints(self),
    {
        match self {
            Screen::CommandList => "↑↓/jk:Navigate  Enter:Actions  a:Add  d:Delete  q:Quit",
            Screen::ActionMenu => "↑↓/jk:Navigate  Enter:Select  Esc:Back",
            Screen::AddCommand | Screen::EditCommand => "Tab:Next field  Enter:Save  Esc:Cancel",
            Screen::ConfirmDelete => "y:Confirm  any:Cancel",
        }
    }
}

/// The tag under the cursor, or "?" when there is none.
pub open spec fn tag_or_mark(s: AppView) -> Seq<char> {
    match selected_tag_of(s) {
        Some(t) => t,
        None => "?"@,
    }
}

/// The text the list shows beside a tag.
pub open spec fn row_text(s: AppView, t: Seq<char>) -> Seq<char> {
    "  "@ + if s.config.contains_key(t) {
        shown_text(s.config[t])
    } else {
        Seq::empty()
    }
}

impl App {
    /// The preview line: the command under the cursor after a `$ ` prompt, or
    /// nothing when the cursor is on no saved command.
    pub fn preview_text(&self) -> (r: String)
        ensures
            r@ == match selected_entry_of(self@) {
                Some(e) => "$ "@ + e.command,
                None => Seq::empty(),
            },
    {
        match self.selected_entry() {
            Some(e) => {
                let mut r = String::from_str("$ ");
                r.append(e.command.as_str());
                r
            },
            None => String::new(),
        }
    }

    /// The title of the action menu: the tag under the cursor, quoted.
    pub fn action_menu_title(&self) -> (r: String)
        ensures
            r@ == " '"@ + tag_or_mark(self@) + "' "@,
    {
        match self.selected_tag() {
            Some(t) => join3(" '", t, "' "),
            None => join3(" '", "?", "' "),
        }
    }

    /// The items of the action menu, the one under the menu cursor marked with `> `.
    pub fn action_menu_lines(&self) -> (r: Vec<String>)
        ensures
            texts(r@) == Seq::new(
                3,
                |i: int|
                    (if i == self.action_index {
                        "> "@
                    } else {
                        "  "@
                    }) + action_label(action_at(i)),
            ),
    {
        let actions = Action::all();
        let mut r: Vec<String> = Vec::new();
        let mut i: usize = 0;
        while i < 3
            invariant
                i <= 3,
                forall|j: int| 0 <= j < 3 ==> #[trigger] actions@[j] == action_at(j),
                r@.len() == i,
                forall|j: int|
                    0 <= j < i ==> (#[trigger] r@[j])@ == (if j == self.action_index {
                        "> "@
                    } else {
                        "  "@
                    }) + action_label(action_at(j)),
            decreases 3 - i,
        {
            let prefix = if i == self.action_index { "> " } else { "  " };
            let mut line = String::from_str(prefix);
            line.append(actions[i].label());
            r.push(line);
            i = i + 1;
        }
        assert(texts(r@) =~= Seq::new(
            3,
            |i: int|
                (if i == self.action_index {
                    "> "@
                } else {
                    "  "@
                }) + action_label(action_at(i)),
        ));
        r
    }

    /// The question the delete confirmation asks.
    pub fn confirm_delete_text(&self) -> (r: String)
        ensures
            r@ == "Delete '"@ + tag_or_mark(self@) + "'? (y/N)"@,
    {
        match self.selected_tag() {
            Some(t) => join3("Delete '", t, "'? (y/N)"),
            None => join3("Delete '", "?", "'? (y/N)"),
        }
    }

    /// The title of the add/edit form: ` Add Command ` on the add form, and
    /// ` Edit '<tag>' ` otherwise.
    pub fn form_title(&self) -> (r: String)
        ensures
            r@ == if self.screen == Screen::AddCommand {
                " Add Command "@
            } else {
                " Edit '"@ + self.input_tag@ + "' "@
            },
    {
        if self.screen == Screen::AddCommand {
            String::from_str(" Add Command ")
        } else {
            join3(" Edit '", self.input_tag.as_str(), "' ")
        }
    }

    /// The rows of the command list: each tag padded to 16 characters, and the
    /// text shown beside it.
    pub fn command_list_rows(&self) -> (r: Vec<(String, String)>)
        ensures
            r@.len() == self@.command_tags.len(),
            forall|i: int|
                0 <= i < r@.len() ==> (#[trigger] r@[i]).0@ == padded(self@.command_tags[i], 16)
                    && r@[i].1@ == row_text(self@, self@.command_tags[i]),
    {
        let mut r: Vec<(String, String)> = Vec::new();
        let n = self.command_tags.len();
        let mut i: usize = 0;
        while i < n
            invariant
                n == self.command_tags@.len(),
                n == self@.command_tags.len(),
                i <= n,
                r@.len() == i,
                forall|j: int|
                    0 <= j < i ==> (#[trigger] r@[j]).0@ == padded(self@.command_tags[j], 16)
                        && r@[j].1@ == row_text(self@, self@.command_tags[j]),
            decreases n - i,
        {
            let tag = &self.command_tags[i];
            assert(self@.command_tags[i as int] == tag@);
            let left = pad_right(tag.as_str(), 16);
            let mut right = String::from_str("  ");
            match self.config.get(tag.as_str()) {
                Some(e) => {
                    right.append(e.shown_text().as_str());
                },
                None => {},
            }
            assert(right@ =~= row_text(self@, tag@));
            r.push((left, right));
            i = i + 1;
        }
        r
    }
}

} // verus!
