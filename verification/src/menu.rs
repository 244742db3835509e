//! The main menu.
use vstd::prelude::*;
use crate::cli::Commands;
use crate::text::{chars_of, concat, pad_right, pad_right_chars, string_of};

verus! {

/// An entry of the main menu.
pub struct MenuItem {
    pub label: String,
    pub desc: String,
    pub command: Commands,
}

/// The (label, description) of the menu entries, in order.
pub open spec fn menu_table() -> Seq<(Seq<char>, Seq<char>)> {
    seq![
        ("New"@, "Initialize a new project from a template"@),
        ("Add"@, "Select files to stage (View Diffs with Right Arrow)"@),
        ("Commit"@, "Create a commit with a conventional message"@),
        ("Update"@, "Safe pull: Stash -> Rebase -> Pop"@),
        ("Branch"@, "Manage, switch, merge, or delete branches"@),
        ("Reset"@, "Undo changes (Reflog) or hard reset"@),
        ("Stats"@, "View project activity statistics"@),
        ("Context"@, "Generate Context MD and JSON Template"@),
        ("Tag"@, "Create semantic version tags"@),
        ("List"@, "List available project templates"@),
    ]
}

/// Views of menu entries: (label, description).
pub open spec fn menu_views(v: Seq<MenuItem>) -> Seq<(Seq<char>, Seq<char>)> {
    v.map_values(|m: MenuItem| (m.label@, m.desc@))
}

fn item(label: &str, desc: &str, command: Commands) -> (r: MenuItem)
    ensures
        r.label@ == label@,
        r.desc@ == desc@,
        r.command == command,
{
    MenuItem { label: String::from_str(label), desc: String::from_str(desc), command }
}

/// The entries of the main menu, each with the command it runs.
pub fn get_menu_items() -> (r: Vec<MenuItem>)
    ensures
        menu_views(r@) == menu_table(),
        r@[0].command == (Commands::New { project_name: None, template: None }),
        r@[1].command is Add,
        r@[2].command is Commit,
        r@[3].command is Update,
        r@[4].command is Branch,
        r@[5].command is Reset,
        r@[6].command is Stats,
        r@[7].command is Context,
        r@[8].command is Tag,
        r@[9].command is List,
{
    let mut r: Vec<MenuItem> = Vec::new();
    r.push(
        item(
            "New",
            "Initialize a new project from a template",
            Commands::New { project_name: None, template: None },
        ),
    );
    r.push(item("Add", "Select files to stage (View Diffs with Right Arrow)", Commands::Add));
    r.push(item("Commit", "Create a commit with a conventional message", Commands::Commit));
    r.push(item("Update", "Safe pull: Stash -> Rebase -> Pop", Commands::Update));
    r.push(item("Branch", "Manage, switch, merge, or delete branches", Commands::Branch));
    r.push(item("Reset", "Undo changes (Reflog) or hard reset", Commands::Reset));
    r.push(item("Stats", "View project activity statistics", Commands::Stats));
    r.push(item("Context", "Generate Context MD and JSON Template", Commands::Context));
    r.push(item("Tag", "Create semantic version tags", Commands::Tag));
    r.push(item("List", "List available project templates", Commands::List));
    assert(menu_views(r@) =~= menu_table());
    r
}

/// The label of a menu entry padded to 10 characters.
pub fn menu_label(label: &str) -> (r: String)
    ensures
        r@ == pad_right(label@, 10),
{
    string_of(pad_right_chars(chars_of(label).as_slice(), 10).as_slice())
}

/// The description of a menu entry as shown: `- <desc>`.
pub fn menu_desc(desc: &str) -> (r: String)
    ensures
        r@ == "- "@ + desc@,
{
    string_of(concat(chars_of("- ").as_slice(), chars_of(desc).as_slice()).as_slice())
}

/// The entry chosen at position `selection` of a menu of `count` entries followed by
/// `Exit`; `None` for `Exit`.
pub fn menu_choice(selection: usize, count: usize) -> (r: Option<usize>)
    ensures
        r == if selection == count {
            None
        } else {
            Some(selection)
        },
{
    if selection == count {
        None
    } else {
        Some(selection)
    }
}

} // verus!
