use vstd::prelude::*;
use vstd::string::*;
use crate::config::{Config, EntryView, CommandEntry, sorted_tags, opt_text, add_outcome, edit_outcome};
use crate::error::{BeError, ErrorView};
use crate::text::{texts, join3, padded, pad_right};

verus! {

/// The text a listing shows for a command: its description, or the command
/// itself when the description is empty.
pub open spec fn shown_text(e: EntryView) -> Seq<char> {
    if e.description.len() == 0 {
        e.command
    } else {
        e.description
    }
}

impl CommandEntry {
    /// The text a listing shows for this command: its description, or the
    /// command itself when the description is empty.
    pub fn shown_text(&self) -> (r: &String)
        ensures
            r@ == shown_text(self@),
    {
        if self.description.as_str().is_empty() {
            &self.command
        } else {
            &self.description
        }
    }
}

/// The length in bytes of the longest tag in `tags`, or 0 when there is none.
pub open spec fn longest_tag_bytes(tags: Seq<Seq<char>>) -> nat
    decreases tags.len(),
{
    if tags.len() == 0 {
        0
    } else {
        let rest = longest_tag_bytes(tags.drop_last());
        let here = vstd::utf8::encode_utf8(tags.last()).len();
        if here > rest {
            here
        } else {
            rest
        }
    }
}

/// The width of the tag column: the longest tag's length in bytes, and at
/// least the width of the heading "Tag".
pub open spec fn tag_column_width(tags: Seq<Seq<char>>) -> nat {
    if longest_tag_bytes(tags) > 3 {
        longest_tag_bytes(tags)
    } else {
        3
    }
}

/// The message printed when no command is saved.
pub open spec fn empty_list_text() -> Seq<char> {
    "No commands saved yet. Use `be add <tag> -c <cmd>` to add one."@
}

/// The lines that listing the configuration `m` prints: a message when it is
/// empty; else a heading, a rule, and one line per tag in tag order, with the
/// tags padded to a common width.
pub open spec fn list_lines(m: Map<Seq<char>, EntryView>) -> Seq<Seq<char>> {
    let tags = sorted_tags(m.dom());
    let w = tag_column_width(tags);
    if tags.len() == 0 {
        seq![empty_list_text()]
    } else {
        seq![padded("Tag"@, w) + "  Description"@, padded("---"@, w) + "  -----------"@]
            + Seq::new(tags.len(), |i: int| padded(tags[i], w) + "  "@ + shown_text(m[tags[i]]))
    }
}

/// The lines that `be list` prints for `config`.
pub fn list(config: &Config) -> (r: Vec<String>)
    requires
        forall|t: Seq<char>| #[trigger] config@.contains_key(t) ==> vstd::utf8::encode_utf8(t).len()
            <= usize::MAX,
    ensures
        texts(r@) == list_lines(config@),
{
    let tags = config.tags();
    proof {
        use_type_invariant(config);
        config.lemma_tag_order();
        crate::config::lemma_sorted_tags_exist(config@.dom());
    }
    let ghost stags = sorted_tags(config@.dom());
    let mut lines: Vec<String> = Vec::new();
    if tags.len() == 0 {
        lines.push(String::from_str("No commands saved yet. Use `be add <tag> -c <cmd>` to add one."));
        assert(texts(lines@) =~= list_lines(config@));
        return lines;
    }
    let mut longest: usize = 0;
    let mut i: usize = 0;
    while i < tags.len()
        invariant
            texts(tags@) == stags,
            stags.to_set() == config@.dom(),
            forall|t: Seq<char>| #[trigger] config@.contains_key(t) ==> vstd::utf8::encode_utf8(t).len()
                <= usize::MAX,
            i <= tags@.len(),
            longest == longest_tag_bytes(stags.take(i as int)),
        decreases tags@.len() - i,
    {
        let n = tags[i].as_str().len();
        proof {
            assert(stags.take(i + 1).drop_last() =~= stags.take(i as int));
            assert(stags.take(i + 1).last() == tags@[i as int]@);
            assert(stags.to_set().contains(stags[i as int]));
            assert(config@.contains_key(tags@[i as int]@));
        }
        if n > longest {
            longest = n;
        }
        i = i + 1;
    }
    assert(stags.take(tags.len() as int) =~= stags);
    let width: usize = if longest > 3 { longest } else { 3 };
    let mut heading = pad_right("Tag", width);
    heading.append("  Description");
    let mut rule = pad_right("---", width);
    rule.append("  -----------");
    lines.push(heading);
    lines.push(rule);
    let mut j: usize = 0;
    while j < tags.len()
        invariant
            texts(tags@) == stags,
            stags == sorted_tags(config@.dom()),
            stags.to_set() == config@.dom(),
            j <= tags@.len(),
            width == tag_column_width(stags),
            lines@.len() == j + 2,
            texts(lines@) == list_lines(config@).take(j + 2),
        decreases tags@.len() - j,
    {
        let tag = &tags[j];
        assert(stags.contains(tag@)) by {
            assert(stags[j as int] == tag@);
        }
        let entry = config.get(tag.as_str());
        match entry {
            Some(e) => {
                let mut line = pad_right(tag.as_str(), width);
                line.append("  ");
                line.append(e.shown_text().as_str());
                let ghost before = lines@;
                lines.push(line);
                proof {
                    assert(texts(lines@) =~= texts(before).push(line@));
                    assert(list_lines(config@)[j + 2] == line@);
                    assert(list_lines(config@).take(j + 3) =~= list_lines(config@).take(j + 2).push(
                        line@,
                    ));
                }
            },
            None => {
                assert(false);
            },
        }
        j = j + 1;
    }
    assert(list_lines(config@).take(j + 2) =~= list_lines(config@));
    lines
}

/// Adds a command, as `be add` does, and gives the line it prints:
/// `Added '<tag>': <command>`.
pub fn add(config: &mut Config, tag: &str, cmd: &str, desc: &str) -> (r: Result<String, BeError>)
    ensures
        match add_outcome(old(config)@, tag@, cmd@, desc@) {
            Ok(m) => r matches Ok(line) && final(config)@ == m && line@ == "Added '"@ + tag@
                + "': "@ + cmd@,
            Err(why) => r matches Err(err) && err@ == why && final(config)@ == old(config)@,
        },
{
    match config.add(tag, cmd, desc) {
        Ok(()) => Ok(join3("Added '", tag, "': ").concat(cmd)),
        Err(err) => Err(err),
    }
}

/// Removes a command, as `be remove` does, and gives the line it prints:
/// `Removed '<tag>'`.
pub fn remove(config: &mut Config, tag: &str) -> (r: Result<String, BeError>)
    ensures
        old(config)@.contains_key(tag@) ==> (r matches Ok(line) && line@ == "Removed '"@ + tag@
            + "'"@ && final(config)@ == old(config)@.remove(tag@)),
        !old(config)@.contains_key(tag@) ==> (r matches Err(err) && err@ == ErrorView::TagNotFound(
            tag@,
        ) && final(config)@ == old(config)@),
{
    match config.remove(tag) {
        Ok(_) => Ok(join3("Removed '", tag, "'")),
        Err(err) => Err(err),
    }
}

/// Refuses an edit that names neither a new command nor a new description.
pub fn check_edit_request(cmd: Option<&str>, desc: Option<&str>) -> (r: Result<(), BeError>)
    ensures
        r is Ok <==> (cmd is Some || desc is Some),
        r matches Err(err) ==> err@ == ErrorView::NothingToEdit,
{
    if cmd.is_none() && desc.is_none() {
        Err(BeError::NothingToEdit)
    } else {
        Ok(())
    }
}

/// Edits a command, as `be edit` does, and gives the line it prints:
/// `Updated '<tag>'`.
pub fn edit(config: &mut Config, tag: &str, cmd: Option<&str>, desc: Option<&str>) -> (r: Result<
    String,
    BeError,
>)
    ensures
        cmd is None && desc is None ==> (r matches Err(err) && err@ == ErrorView::NothingToEdit
            && final(config)@ == old(config)@),
        cmd is Some || desc is Some ==> match edit_outcome(
            old(config)@,
            tag@,
            opt_text(cmd),
            opt_text(desc),
        ) {
            Ok(m) => r matches Ok(line) && final(config)@ == m && line@ == "Updated '"@ + tag@ + "'"@,
            Err(why) => r matches Err(err) && err@ == why && final(config)@ == old(config)@,
        },
{
    match check_edit_request(cmd, desc) {
        Err(err) => {
            return Err(err);
        },
        Ok(()) => {},
    }
    match config.edit(tag, cmd, desc) {
        Ok(()) => Ok(join3("Updated '", tag, "'")),
        Err(err) => Err(err),
    }
}

/// The shell command that `be <tag>` runs.
pub fn run_by_tag(config: &Config, tag: &str) -> (r: Result<String, BeError>)
    ensures
        config@.contains_key(tag@) ==> (r matches Ok(command) && command@ == config@[tag@].command),
        !config@.contains_key(tag@) ==> (r matches Err(err) && err@ == ErrorView::UnknownTag(tag@)),
{
    match config.get(tag) {
        Some(entry) => Ok(entry.command.clone()),
        None => Err(BeError::UnknownTag(String::from_str(tag))),
    }
}

/// The tag that `be <tag> ...` names: the first of the words that follow `be`.
pub fn tag_to_run(args: &Vec<String>) -> (r: Result<&String, BeError>)
    ensures
        args@.len() > 0 ==> r == Ok::<&String, BeError>(&args@[0]),
        args@.len() == 0 ==> (r matches Err(err) && err@ == ErrorView::NoTagProvided),
{
    if args.len() == 0 {
        Err(BeError::NoTagProvided)
    } else {
        Ok(&args[0])
    }
}

} // verus!
