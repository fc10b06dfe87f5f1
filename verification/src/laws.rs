use vstd::prelude::*;
use crate::app::{
    AppView, Effect, InputField, Key, Screen, app_step, app_state_ok, next_field, selected_tag_of,
    lemma_step_keeps_state_ok,
};
use crate::config::{EntryView, add_outcome, edit_outcome, edited_entry, reserved_tags, tag_problem};
use crate::error::ErrorView;

verus! {

/// A command that was added can be looked up under its tag: the lookup gives
/// back the command and the description that were added.
pub proof fn law_add_then_get(
    m: Map<Seq<char>, EntryView>,
    tag: Seq<char>,
    command: Seq<char>,
    description: Seq<char>,
)
    requires
        add_outcome(m, tag, command, description) is Ok,
    ensures
        add_outcome(m, tag, command, description)->Ok_0.contains_key(tag),
        add_outcome(m, tag, command, description)->Ok_0[tag] == (EntryView { description, command }),
{
}

/// Adding a command touches no other tag.
pub proof fn law_add_keeps_others(
    m: Map<Seq<char>, EntryView>,
    tag: Seq<char>,
    command: Seq<char>,
    description: Seq<char>,
    other: Seq<char>,
)
    requires
        add_outcome(m, tag, command, description) is Ok,
        other != tag,
    ensures
        add_outcome(m, tag, command, description)->Ok_0.contains_key(other) == m.contains_key(other),
        m.contains_key(other) ==> add_outcome(m, tag, command, description)->Ok_0[other] == m[other],
{
}

/// Removing a command that was just added gives back the configuration as it was.
pub proof fn law_add_then_remove(
    m: Map<Seq<char>, EntryView>,
    tag: Seq<char>,
    command: Seq<char>,
    description: Seq<char>,
)
    requires
        add_outcome(m, tag, command, description) is Ok,
    ensures
        add_outcome(m, tag, command, description)->Ok_0.remove(tag) == m,
{
    assert(add_outcome(m, tag, command, description)->Ok_0.remove(tag) =~= m);
}

/// After a command is removed its tag is no longer found, and no other tag is touched.
pub proof fn law_remove_forgets(m: Map<Seq<char>, EntryView>, tag: Seq<char>, other: Seq<char>)
    ensures
        !m.remove(tag).contains_key(tag),
        other != tag ==> m.remove(tag).contains_key(other) == m.contains_key(other),
        other != tag && m.contains_key(other) ==> m.remove(tag)[other] == m[other],
{
}

/// Adding is refused exactly when the tag is invalid or already used, and a
/// tag that a successful add saved is always a valid one.
pub proof fn law_add_refusals(
    m: Map<Seq<char>, EntryView>,
    tag: Seq<char>,
    command: Seq<char>,
    description: Seq<char>,
)
    ensures
        add_outcome(m, tag, command, description) is Ok <==> tag_problem(tag) is None
            && !m.contains_key(tag),
        tag_problem(tag) is None && m.contains_key(tag) ==> add_outcome(
            m,
            tag,
            command,
            description,
        ) == Err::<Map<Seq<char>, EntryView>, ErrorView>(ErrorView::TagExists(tag)),
{
}

/// The names of the built-in subcommands are never accepted as tags.
pub proof fn law_reserved_never_added(
    m: Map<Seq<char>, EntryView>,
    i: int,
    command: Seq<char>,
    description: Seq<char>,
)
    requires
        0 <= i < reserved_tags().len(),
    ensures
        add_outcome(m, reserved_tags()[i], command, description) is Err,
{
    assert(reserved_tags().contains(reserved_tags()[i]));
}

/// Every valid tag is non-empty and made only of ASCII letters, digits, `_` and `-`.
pub proof fn law_valid_tag_chars(tag: Seq<char>, i: int)
    requires
        tag_problem(tag) is None,
        0 <= i < tag.len(),
    ensures
        tag.len() > 0,
        crate::config::is_tag_char(tag[i]),
{
}

/// A tag is accepted exactly when it is non-empty, every character is an
/// ASCII letter `a`-`z` or `A`-`Z`, an ASCII digit `0`-`9`, `_` or `-`, and it
/// is not one of the subcommand names.
pub proof fn law_tag_accepted_exactly(tag: Seq<char>)
    ensures
        tag_problem(tag) is None <==> {
            &&& tag.len() > 0
            &&& forall|i: int|
                0 <= i < tag.len() ==> {
                    let c = #[trigger] tag[i];
                    ||| 97 <= (c as int) <= 122
                    ||| 65 <= (c as int) <= 90
                    ||| 48 <= (c as int) <= 57
                    ||| c == '_'
                    ||| c == '-'
                }
            &&& tag != "init"@ && tag != "manager"@ && tag != "list"@ && tag != "add"@
            &&& tag != "remove"@ && tag != "edit"@ && tag != "help"@
        },
{
    assert(reserved_tags()[0] == "init"@);
    assert(reserved_tags()[1] == "manager"@);
    assert(reserved_tags()[2] == "list"@);
    assert(reserved_tags()[3] == "add"@);
    assert(reserved_tags()[4] == "remove"@);
    assert(reserved_tags()[5] == "edit"@);
    assert(reserved_tags()[6] == "help"@);
    if reserved_tags().contains(tag) {
        let k = choose|k: int| 0 <= k < reserved_tags().len() && reserved_tags()[k] == tag;
    }
}

/// Editing changes only the fields that were given, and only under the
/// edited tag.
pub proof fn law_edit_changes_only_given_fields(
    m: Map<Seq<char>, EntryView>,
    tag: Seq<char>,
    command: Option<Seq<char>>,
    description: Option<Seq<char>>,
    other: Seq<char>,
)
    requires
        m.contains_key(tag),
    ensures
        edit_outcome(m, tag, command, description) is Ok,
        edit_outcome(m, tag, command, description)->Ok_0.dom() == m.dom(),
        command matches Some(c) ==> edit_outcome(m, tag, command, description)->Ok_0[tag].command
            == c,
        description matches Some(d) ==> edit_outcome(m, tag, command, description)->Ok_0[tag].description
            == d,
        command is None ==> edit_outcome(m, tag, command, description)->Ok_0[tag].command
            == m[tag].command,
        description is None ==> edit_outcome(m, tag, command, description)->Ok_0[tag].description
            == m[tag].description,
        other != tag && m.contains_key(other) ==> edit_outcome(m, tag, command, description)->Ok_0[other]
            == m[other],
{
    assert(edit_outcome(m, tag, command, description)->Ok_0.dom() =~= m.dom());
}

/// An edit that gives no new field leaves the configuration as it was.
pub proof fn law_empty_edit_is_identity(m: Map<Seq<char>, EntryView>, tag: Seq<char>)
    requires
        m.contains_key(tag),
    ensures
        edit_outcome(m, tag, None, None) == Ok::<Map<Seq<char>, EntryView>, ErrorView>(m),
{
    assert(edited_entry(m[tag], None, None) == m[tag]);
    assert(m.insert(tag, m[tag]) =~= m);
}

/// Tab cycles the add form through its three fields.
pub proof fn law_field_cycle(f: InputField)
    ensures
        next_field(next_field(next_field(f))) == f,
        next_field(f) != f,
{
}

/// A key press that does not ask for the configuration to be saved leaves the
/// configuration unchanged.
pub proof fn law_no_save_no_change(s: AppView, key: Key)
    ensures
        app_step(s, key).1 == Effect::Nothing ==> app_step(s, key).0.config == s.config,
{
}

/// Every key press clears the previous status line; on the list and the menu
/// no new one is set, and on the forms and the confirmation a new one is set
/// only by Enter or by a confirmed delete.
pub proof fn law_status_cleared(s: AppView, key: Key)
    ensures
        (s.screen == Screen::CommandList || s.screen == Screen::ActionMenu) ==> app_step(
            s,
            key,
        ).0.status_message is None,
        (s.screen == Screen::AddCommand || s.screen == Screen::EditCommand) && key != Key::Enter
            ==> app_step(s, key).0.status_message is None,
        s.screen == Screen::ConfirmDelete && key != Key::Char('y') && key != Key::Char('Y')
            ==> app_step(s, key).0.status_message is None,
{
}

/// Confirming a delete on the confirmation screen removes the tag under the
/// cursor; any other key cancels and keeps the configuration.
pub proof fn law_confirm_delete(s: AppView, key: Key)
    requires
        app_state_ok(s),
        s.config.dom().finite(),
        s.screen == Screen::ConfirmDelete,
    ensures
        app_step(s, key).0.screen == Screen::CommandList,
        (key == Key::Char('y') || key == Key::Char('Y')) ==> (selected_tag_of(s) matches Some(t)
            && app_step(s, key).0.config == s.config.remove(t) && app_step(s, key).1
            == Effect::SaveConfig),
        !(key == Key::Char('y') || key == Key::Char('Y')) ==> app_step(s, key).0.config == s.config,
{
    crate::config::lemma_sorted_tags_exist(s.config.dom());
    let t = s.command_tags[s.selected_index];
    assert(s.command_tags.to_set().contains(t));
}

/// Adding a command on the add form puts the cursor on the new tag.
pub proof fn law_added_tag_selected(s: AppView)
    requires
        app_state_ok(s),
        s.config.dom().finite(),
        s.screen == Screen::AddCommand,
        app_step(s, Key::Enter).1 == Effect::SaveConfig,
    ensures
        selected_tag_of(app_step(s, Key::Enter).0) == Some(s.input_tag),
        app_step(s, Key::Enter).0.config.contains_key(s.input_tag),
{
    lemma_step_keeps_state_ok(s, Key::Enter);
    let m = add_outcome(s.config, s.input_tag, s.input_command, s.input_desc)->Ok_0;
    crate::config::lemma_sorted_tags_exist(m.dom());
    let tags = crate::config::sorted_tags(m.dom());
    assert(m.dom().contains(s.input_tag));
    assert(tags.to_set().contains(s.input_tag));
    tags.index_of_first_ensures(s.input_tag);
}

/// On the edit form, Enter with a command filled in saves the command and the
/// description as typed under the tag being edited, and nothing else changes
/// in the configuration.
pub proof fn law_edit_form_saves(s: AppView)
    requires
        s.screen == Screen::EditCommand,
        s.input_command.len() > 0,
        s.config.contains_key(s.input_tag),
    ensures
        app_step(s, Key::Enter).0.config == s.config.insert(
            s.input_tag,
            EntryView { description: s.input_desc, command: s.input_command },
        ),
        app_step(s, Key::Enter).1 == Effect::SaveConfig,
        app_step(s, Key::Enter).0.screen == Screen::CommandList,
{
}

/// Choosing Run in the action menu with the cursor on a saved tag makes that
/// tag's command (not its description) the one to run, and quits.
pub proof fn law_run_action_picks_command(s: AppView)
    requires
        s.screen == Screen::ActionMenu,
        s.action_index == 0,
        0 <= s.selected_index < s.command_tags.len(),
        s.config.contains_key(s.command_tags[s.selected_index]),
    ensures
        app_step(s, Key::Enter).0.pending_command == Some(
            s.config[s.command_tags[s.selected_index]].command,
        ),
        app_step(s, Key::Enter).0.should_quit,
        app_step(s, Key::Enter).0.config == s.config,
{
}

/// On the command list, Down and `j` move the cursor one tag down and Up and
/// `k` one tag up, staying put at the ends of the list.
pub proof fn law_cursor_moves_one_step(s: AppView)
    requires
        s.screen == Screen::CommandList,
    ensures
        app_step(s, Key::Down).0.selected_index == if s.selected_index + 1 < s.command_tags.len() {
            s.selected_index + 1
        } else {
            s.selected_index
        },
        app_step(s, Key::Char('j')).0.selected_index == app_step(s, Key::Down).0.selected_index,
        app_step(s, Key::Up).0.selected_index == if s.selected_index > 0 {
            s.selected_index - 1
        } else {
            s.selected_index
        },
        app_step(s, Key::Char('k')).0.selected_index == app_step(s, Key::Up).0.selected_index,
        app_step(s, Key::Down).0.command_tags == s.command_tags,
        app_step(s, Key::Up).0.command_tags == s.command_tags,
{
}

} // verus!
