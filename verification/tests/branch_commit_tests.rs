use wally::branch::{
    branch_action_for, branch_action_labels, branch_types, default_branch_index, deletable_branches,
    full_branch_name, get_branches, get_current_branch, is_current_branch, local_delete_args, merge_base_args,
    remote_delete_args, soft_reset_args, squash_base, squash_point, BranchAction,
};
use wally::commit::{build_commit_message, commit_type_items, commit_types, has_staged_changes};
use wally::input::{validate_branch_name, validate_subject, validate_template_name, InputError};

fn strings(v: &[&str]) -> Vec<String> {
    v.iter().map(|s| s.to_string()).collect()
}

#[test]
fn branch_menu_actions() {
    assert_eq!(branch_action_for(0), Some(BranchAction::Switch));
    assert_eq!(branch_action_for(1), Some(BranchAction::Create));
    assert_eq!(branch_action_for(2), Some(BranchAction::Squash));
    assert_eq!(branch_action_for(3), Some(BranchAction::Delete));
    assert_eq!(branch_action_for(4), None);
    assert_eq!(
        branch_action_labels(),
        strings(&["Switch Branch", "Create New Branch", "Squash Branch", "Delete Branch"])
    );
}

#[test]
fn branches_are_trimmed_lines() {
    assert_eq!(get_branches("main\n  dev \nfeat/x\n"), strings(&["main", "dev", "feat/x"]));
    assert!(get_branches("").is_empty());
    assert_eq!(get_current_branch(" dev\n"), "dev");
    assert_eq!(get_current_branch("\n"), "");
}

#[test]
fn switch_menu_starts_on_current() {
    let bs = strings(&["main", "dev", "dev"]);
    assert_eq!(default_branch_index(&bs, "dev"), 1);
    assert_eq!(default_branch_index(&bs, "gone"), 0);
    assert_eq!(default_branch_index(&Vec::new(), "main"), 0);
    assert!(is_current_branch("dev", "dev"));
    assert!(!is_current_branch("dev", "main"));
}

#[test]
fn new_branch_names() {
    assert_eq!(
        branch_types(),
        strings(&["feat", "fix", "chore", "docs", "refactor", "style", "test", "other"])
    );
    assert_eq!(full_branch_name("feat", "login-page"), "feat/login-page");
    assert_eq!(full_branch_name("other", "spike"), "spike");
}

#[test]
fn current_branch_cannot_be_deleted() {
    let bs = strings(&["main", "dev", "feat/x"]);
    assert_eq!(deletable_branches(&bs, "dev"), strings(&["main", "feat/x"]));
    assert_eq!(deletable_branches(&strings(&["main"]), "main"), Vec::<String>::new());
}

#[test]
fn commit_menu() {
    let types = commit_types();
    assert_eq!(types.len(), 11);
    assert_eq!(types[0].code, "feat");
    assert_eq!(types[10].code, "revert");
    let items = commit_type_items(&types);
    assert_eq!(items[0], "feat       A new feature");
    assert_eq!(items[4], "refactor   Code change that neither fixes a bug nor adds feature");
}

#[test]
fn staged_changes() {
    assert!(has_staged_changes("src/a.rs\n"));
    assert!(!has_staged_changes(" \n"));
    assert!(!has_staged_changes(""));
}

#[test]
fn commit_messages() {
    assert_eq!(build_commit_message("feat", "", "add login", ""), "feat: add login");
    assert_eq!(build_commit_message("fix", "ui", "align", "  "), "fix(ui): align");
    assert_eq!(
        build_commit_message("docs", " ", "readme", "More words."),
        "docs: readme\n\nMore words."
    );
    assert_eq!(build_commit_message("ci", "gh", "s", "b"), "ci(gh): s\n\nb");
}

#[test]
fn prompt_validation() {
    assert_eq!(validate_subject("  "), Err(InputError::EmptySubject));
    assert_eq!(validate_subject("x"), Ok(()));
    assert_eq!(validate_branch_name(""), Err(InputError::EmptyBranchName));
    assert_eq!(validate_branch_name("a b"), Err(InputError::SpaceInBranchName));
    assert_eq!(validate_branch_name(" ab"), Err(InputError::SpaceInBranchName));
    assert_eq!(validate_branch_name("ab"), Ok(()));
    assert_eq!(validate_template_name("\t"), Err(InputError::EmptyTemplateName));
    assert_eq!(validate_template_name("web"), Ok(()));
    assert_eq!(InputError::EmptySubject.message(), "Subject cannot be empty");
    assert_eq!(InputError::SpaceInBranchName.message(), "Branch name cannot contain spaces");
    assert_eq!(InputError::EmptyBranchName.message(), "Branch name cannot be empty");
    assert_eq!(InputError::EmptyTemplateName.message(), "Template name cannot be empty");
}

#[test]
fn squash_against_main_or_master() {
    assert_eq!(squash_base(&strings(&["main", "feat/x"]), "feat/x"), Some("main".to_string()));
    assert_eq!(squash_base(&strings(&["master", "feat/x"]), "feat/x"), Some("master".to_string()));
    assert_eq!(squash_base(&strings(&["main", "master"]), "main"), Some("master".to_string()));
    assert_eq!(squash_base(&strings(&["main"]), "main"), None);
    assert_eq!(squash_base(&strings(&["dev", "feat/x"]), "feat/x"), None);
    assert_eq!(merge_base_args("main"), strings(&["merge-base", "main", "HEAD"]));
    assert_eq!(squash_point("3f2a1bc\n"), Some("3f2a1bc".to_string()));
    assert_eq!(squash_point("  \n"), None);
    assert_eq!(soft_reset_args("3f2a1bc"), strings(&["reset", "--soft", "3f2a1bc"]));
}

#[test]
fn deletion_is_local_and_remote() {
    assert_eq!(local_delete_args("feat/x"), strings(&["branch", "-D", "feat/x"]));
    assert_eq!(remote_delete_args("feat/x"), strings(&["push", "origin", "--delete", "feat/x"]));
}
