//! The interactive help: the commands by category, with their usage.
use vstd::prelude::*;
use crate::text::{chars_of, concat, join, join_chars, string_of, string_views, views};

verus! {

/// A command described in the help.
pub struct CmdInfo {
    pub name: String,
    pub usage: String,
    pub desc: String,
}

/// Views of command descriptions: (name, usage, description).
pub open spec fn cmd_views(v: Seq<CmdInfo>) -> Seq<(Seq<char>, Seq<char>, Seq<char>)> {
    v.map_values(|c: CmdInfo| (c.name@, c.usage@, c.desc@))
}

fn cmd_info(name: &str, usage: &str, desc: &str) -> (r: CmdInfo)
    ensures
        r.name@ == name@,
        r.usage@ == usage@,
        r.desc@ == desc@,
{
    CmdInfo { name: String::from_str(name), usage: String::from_str(usage), desc: String::from_str(desc) }
}

/// The project setup commands.
pub fn get_setup_cmds() -> (r: Vec<CmdInfo>)
    ensures
        cmd_views(r@) == seq![
            ("new"@, "wally new [project_name] [--template name]"@,
             "Initialize a new project. If parameters are missing, it starts an interactive wizard."@),
            ("context"@, "wally context"@,
             "Scans the project and creates 'info/context.md' containing the file tree and code for AI analysis."@),
        ],
{
    let mut r: Vec<CmdInfo> = Vec::new();
    r.push(
        cmd_info(
            "new",
            "wally new [project_name] [--template name]",
            "Initialize a new project. If parameters are missing, it starts an interactive wizard.",
        ),
    );
    r.push(
        cmd_info(
            "context",
            "wally context",
            "Scans the project and creates 'info/context.md' containing the file tree and code for AI analysis.",
        ),
    );
    assert(cmd_views(r@) =~= seq![
        ("new"@, "wally new [project_name] [--template name]"@,
         "Initialize a new project. If parameters are missing, it starts an interactive wizard."@),
        ("context"@, "wally context"@,
         "Scans the project and creates 'info/context.md' containing the file tree and code for AI analysis."@),
    ]);
    r
}

/// The development and sync commands.
pub fn get_dev_cmds() -> (r: Vec<CmdInfo>)
    ensures
        cmd_views(r@) == seq![
            ("update"@, "wally update"@,
             "Sync with remote safely: stashes work, pulls with rebase, and restores work automatically."@),
            ("commit"@, "wally commit"@,
             "Unified helper: choose files to stage, write standardized commit messages, and push to remote."@),
            ("branch"@, "wally branch"@,
             "Manage branches interactively: switch, create with prefixes (feat/fix), or delete safely."@),
            ("reset"@, "wally reset"@,
             "Choose from the last 20 commits to perform a HARD reset. All uncommitted changes will be lost."@),
        ],
{
    let mut r: Vec<CmdInfo> = Vec::new();
    r.push(
        cmd_info(
            "update",
            "wally update",
            "Sync with remote safely: stashes work, pulls with rebase, and restores work automatically.",
        ),
    );
    r.push(
        cmd_info(
            "commit",
            "wally commit",
            "Unified helper: choose files to stage, write standardized commit messages, and push to remote.",
        ),
    );
    r.push(
        cmd_info(
            "branch",
            "wally branch",
            "Manage branches interactively: switch, create with prefixes (feat/fix), or delete safely.",
        ),
    );
    r.push(
        cmd_info(
            "reset",
            "wally reset",
            "Choose from the last 20 commits to perform a HARD reset. All uncommitted changes will be lost.",
        ),
    );
    assert(cmd_views(r@) =~= seq![
        ("update"@, "wally update"@,
         "Sync with remote safely: stashes work, pulls with rebase, and restores work automatically."@),
        ("commit"@, "wally commit"@,
         "Unified helper: choose files to stage, write standardized commit messages, and push to remote."@),
        ("branch"@, "wally branch"@,
         "Manage branches interactively: switch, create with prefixes (feat/fix), or delete safely."@),
        ("reset"@, "wally reset"@,
         "Choose from the last 20 commits to perform a HARD reset. All uncommitted changes will be lost."@),
    ]);
    r
}

/// The template management commands.
pub fn get_tmpl_cmds() -> (r: Vec<CmdInfo>)
    ensures
        cmd_views(r@) == seq![
            ("list"@, "wally list"@, "Shows all project templates currently available in your system."@),
            ("install"@, "wally install <file.json>"@,
             "Adds a new custom project template from a local JSON configuration file."@),
            ("uninstall"@, "wally uninstall <template_name>"@,
             "Removes a previously installed custom template from the system."@),
        ],
{
    let mut r: Vec<CmdInfo> = Vec::new();
    r.push(cmd_info("list", "wally list", "Shows all project templates currently available in your system."));
    r.push(
        cmd_info(
            "install",
            "wally install <file.json>",
            "Adds a new custom project template from a local JSON configuration file.",
        ),
    );
    r.push(
        cmd_info(
            "uninstall",
            "wally uninstall <template_name>",
            "Removes a previously installed custom template from the system.",
        ),
    );
    assert(cmd_views(r@) =~= seq![
        ("list"@, "wally list"@, "Shows all project templates currently available in your system."@),
        ("install"@, "wally install <file.json>"@,
         "Adds a new custom project template from a local JSON configuration file."@),
        ("uninstall"@, "wally uninstall <template_name>"@,
         "Removes a previously installed custom template from the system."@),
    ]);
    r
}

/// The names of commands, in order.
pub open spec fn cmd_names(v: Seq<CmdInfo>) -> Seq<Seq<char>> {
    v.map_values(|c: CmdInfo| c.name@)
}

/// The names of `cmds`, in order.
pub fn command_names(cmds: &Vec<CmdInfo>) -> (r: Vec<String>)
    ensures
        string_views(r@) == cmd_names(cmds@),
{
    let mut r: Vec<String> = Vec::new();
    let n = cmds.len();
    for i in 0..n
        invariant
            n == cmds@.len(),
            string_views(r@) == cmd_names(cmds@).take(i as int),
    {
        let ghost before = r@;
        let s = string_of(chars_of(cmds[i].name.as_str()).as_slice());
        r.push(s);
        assert(string_views(r@) == string_views(before).push(s@));
        assert(cmd_names(cmds@).take(i + 1) == cmd_names(cmds@).take(i as int).push(cmds@[i as int].name@));
    }
    assert(cmd_names(cmds@).take(n as int) == cmd_names(cmds@));
    r
}

/// The menu entry of a category: `<title> (<name>, <name>, ...)`.
pub fn category_label(title: &str, cmds: &Vec<CmdInfo>) -> (r: String)
    ensures
        r@ == title@ + " ("@ + join(cmd_names(cmds@), ", "@) + ")"@,
{
    let mut names: Vec<Vec<char>> = Vec::new();
    let n = cmds.len();
    for i in 0..n
        invariant
            n == cmds@.len(),
            views(names@) == cmd_names(cmds@).take(i as int),
    {
        let ghost before = names@;
        let c = chars_of(cmds[i].name.as_str());
        names.push(c);
        assert(views(names@) == views(before).push(c@));
        assert(cmd_names(cmds@).take(i + 1) == cmd_names(cmds@).take(i as int).push(cmds@[i as int].name@));
    }
    assert(cmd_names(cmds@).take(n as int) == cmd_names(cmds@));
    let joined = join_chars(&names, chars_of(", ").as_slice());
    let a = concat(chars_of(title).as_slice(), chars_of(" (").as_slice());
    let b = concat(a.as_slice(), joined.as_slice());
    string_of(concat(b.as_slice(), chars_of(")").as_slice()).as_slice())
}

/// A choice in the main help menu.
#[derive(PartialEq, Eq, Structural, Clone, Copy, Debug)]
pub enum HelpChoice {
    Exit,
    Setup,
    Development,
    Templates,
}

/// The choice at position `selection` of the main help menu; anything past its four
/// entries leaves the help.
pub fn help_choice(selection: usize) -> (r: HelpChoice)
    ensures
        r == if selection == 1 {
            HelpChoice::Setup
        } else if selection == 2 {
            HelpChoice::Development
        } else if selection == 3 {
            HelpChoice::Templates
        } else {
            HelpChoice::Exit
        },
{
    if selection == 1 {
        HelpChoice::Setup
    } else if selection == 2 {
        HelpChoice::Development
    } else if selection == 3 {
        HelpChoice::Templates
    } else {
        HelpChoice::Exit
    }
}

/// The command whose details entry `selection` of a category menu shows; entry 0 goes back.
pub fn detail_index(selection: usize) -> (r: Option<usize>)
    ensures
        r == if selection == 0 {
            None
        } else {
            Some((selection - 1) as usize)
        },
{
    if selection == 0 {
        None
    } else {
        Some(selection - 1)
    }
}

} // verus!
