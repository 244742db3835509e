use wally::cli::Commands;
use wally::git::{git_command_line, step_header};
use wally::help::{
    category_label, command_names, detail_index, get_dev_cmds, get_setup_cmds, get_tmpl_cmds, help_choice,
    HelpChoice,
};
use wally::menu::{get_menu_items, menu_choice, menu_desc, menu_label};
use wally::reset::{
    empty_listing_message, entry_hash, entry_list_args, reset_args, reset_entries, reset_mode_for,
    reset_mode_labels, ResetError, ResetMode,
};

#[test]
fn help_tables() {
    assert_eq!(command_names(&get_setup_cmds()), vec!["new", "context"]);
    assert_eq!(command_names(&get_dev_cmds()), vec!["update", "commit", "branch", "reset"]);
    assert_eq!(command_names(&get_tmpl_cmds()), vec!["list", "install", "uninstall"]);
    assert_eq!(get_tmpl_cmds()[1].usage, "wally install <file.json>");
    assert_eq!(
        category_label("Template Management", &get_tmpl_cmds()),
        "Template Management (list, install, uninstall)"
    );
    assert_eq!(category_label("Empty", &Vec::new()), "Empty ()");
}

#[test]
fn help_navigation() {
    assert_eq!(help_choice(0), HelpChoice::Exit);
    assert_eq!(help_choice(1), HelpChoice::Setup);
    assert_eq!(help_choice(2), HelpChoice::Development);
    assert_eq!(help_choice(3), HelpChoice::Templates);
    assert_eq!(help_choice(9), HelpChoice::Exit);
    assert_eq!(detail_index(0), None);
    assert_eq!(detail_index(3), Some(2));
}

#[test]
fn main_menu() {
    let items = get_menu_items();
    let labels: Vec<&str> = items.iter().map(|i| i.label.as_str()).collect();
    assert_eq!(
        labels,
        vec!["New", "Add", "Commit", "Update", "Branch", "Reset", "Stats", "Context", "Tag", "List"]
    );
    assert!(matches!(items[0].command, Commands::New { project_name: None, template: None }));
    assert!(matches!(items[3].command, Commands::Update));
    assert_eq!(menu_label("Tag"), "Tag       ");
    assert_eq!(menu_label("LongerThanTen"), "LongerThanTen");
    assert_eq!(menu_desc("x"), "- x");
    assert_eq!(menu_choice(10, 10), None);
    assert_eq!(menu_choice(4, 10), Some(4));
}

#[test]
fn git_echo() {
    let args = vec!["push".to_string(), "-u".to_string(), "origin".to_string(), "main".to_string()];
    assert_eq!(git_command_line(&args), "git push -u origin main");
    assert_eq!(git_command_line(&Vec::new()), "git ");
    assert_eq!(step_header("Reset Options"), "==> Reset Options");
}

#[test]
fn reset_modes() {
    assert_eq!(
        reset_mode_labels(),
        vec!["Undo Recent Actions (Reflog)", "Reset to Specific Commit (Log)"]
    );
    assert_eq!(reset_mode_for(0), ResetMode::Reflog);
    assert_eq!(reset_mode_for(1), ResetMode::Log);
    assert_eq!(entry_list_args(ResetMode::Reflog), vec!["reflog", "-n", "20", "--pretty=format:%h - %gs: %s"]);
    assert_eq!(entry_list_args(ResetMode::Log), vec!["log", "--pretty=format:%h - %s (%cr)", "-n", "20"]);
    assert_eq!(empty_listing_message(ResetMode::Reflog), "No recent actions found in reflog.");
    assert_eq!(empty_listing_message(ResetMode::Log), "No commits found to reset to.");
}

#[test]
fn reset_entries_and_hashes() {
    let listing = "a1b2c3d - commit: one\ne4f5a6b - reset: moving to HEAD~1\n";
    let es = reset_entries(listing);
    assert_eq!(es, vec!["a1b2c3d - commit: one", "e4f5a6b - reset: moving to HEAD~1"]);
    assert_eq!(entry_hash(&es[1]), Ok("e4f5a6b".to_string()));
    assert_eq!(entry_hash("  9f9f9f9 x"), Ok("9f9f9f9".to_string()));
    assert_eq!(entry_hash("   "), Err(ResetError::InvalidEntry));
    assert_eq!(ResetError::InvalidEntry.message(), "Invalid entry format");
    assert_eq!(reset_args("e4f5a6b"), vec!["reset", "--hard", "e4f5a6b"]);
    assert!(reset_entries("").is_empty());
}
