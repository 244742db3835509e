use wally::models::ProjectTemplate;
use wally::templates::{
    classify_template_entry, desc_can_be_listed, list_header, pack_template, snapshot_template, template_choices,
    template_file_name, template_row, template_source, template_stem, walked_key, EntryKind, TemplateSource,
    WalkedEntry,
};
use wally::tree::{
    context_document, context_entry_allowed, estimated_tokens, file_section, pack_entry_allowed, render_level,
    render_tree_lines, render_tree_text, sort_entries, tree_entry_allowed, DirEntry, TreeNode,
};

#[test]
fn read_after_insert() {
    let mut t = ProjectTemplate::new("web".to_string(), "A site".to_string());
    assert_eq!(t.file_count(), 0);
    t.insert_file("src/".to_string(), String::new());
    t.insert_file("README.md".to_string(), "# Hi".to_string());
    t.insert_file("index.html".to_string(), "<p>".to_string());
    assert_eq!(t.get_file("README.md"), Some("# Hi".to_string()));
    assert_eq!(t.get_file("src/"), Some(String::new()));
    assert_eq!(t.get_file("missing"), None);
    t.insert_file("README.md".to_string(), "# Bye".to_string());
    assert_eq!(t.get_file("README.md"), Some("# Bye".to_string()));
    assert_eq!(t.file_count(), 3);
    let keys: Vec<&str> = t.files().iter().map(|(k, _)| k.as_str()).collect();
    assert_eq!(keys, vec!["README.md", "index.html", "src/"]);
    assert_eq!(t.template_name, "web");
    assert_eq!(t.description, "A site");
}

#[test]
fn template_names_and_sources() {
    assert_eq!(template_file_name("web"), "web.json");
    assert!(matches!(template_source("default"), TemplateSource::Default));
    match template_source("web") {
        TemplateSource::Installed(f) => assert_eq!(f, "web.json"),
        TemplateSource::Default => panic!("web is installed"),
    }
    assert_eq!(template_choices(&vec!["web".to_string()]), vec!["default", "web"]);
    assert_eq!(template_stem("web.json"), Some("web".to_string()));
    assert_eq!(template_stem("a.b.json"), Some("a.b".to_string()));
    assert_eq!(template_stem(".json"), None);
    assert_eq!(template_stem("notes.txt"), None);
    assert_eq!(template_stem("json"), None);
}

#[test]
fn template_listing() {
    let (h, d) = list_header();
    assert_eq!(h, format!("{:<20} | {}", "TEMPLATE", "DESCRIPTION"));
    assert_eq!(d, format!("{:-<20}-+-{:-<40}", "", ""));
    assert_eq!(template_row("default", "two\nlines"), format!("{:<20} | {}", "default", "two lines"));
    let long = "x".repeat(80);
    assert!(desc_can_be_listed(&long));
    assert_eq!(template_row("t", &long), format!("{:<20} | {}...", "t", "x".repeat(67)));
    let seventy = "y".repeat(70);
    assert_eq!(template_row("t", &seventy), format!("{:<20} | {}", "t", seventy));
    let awkward = format!("{}\u{e9}{}", "z".repeat(66), "z".repeat(10));
    assert!(!desc_can_be_listed(&awkward));
}

#[test]
fn template_entry_kinds() {
    assert_eq!(classify_template_entry("src/", ""), EntryKind::Directory);
    assert_eq!(classify_template_entry("temp", ""), EntryKind::Directory);
    assert_eq!(classify_template_entry("Makefile", "all:"), EntryKind::File);
    assert_eq!(classify_template_entry(".gitignore", ""), EntryKind::File);
    assert_eq!(classify_template_entry("run.sh", "echo"), EntryKind::Script);
    assert_eq!(classify_template_entry("empty.sh", ""), EntryKind::Script);
}

#[test]
fn packing_a_project() {
    let walked = vec![
        WalkedEntry { relative: "src".to_string(), is_dir: true, content: None },
        WalkedEntry { relative: "src\\main.rs".to_string(), is_dir: false, content: Some("fn main() {}".to_string()) },
        WalkedEntry { relative: "logo.png".to_string(), is_dir: false, content: None },
        WalkedEntry { relative: "docs/".to_string(), is_dir: true, content: None },
    ];
    let t = pack_template("proj", &walked);
    assert_eq!(t.template_name, "proj");
    assert_eq!(t.description, "");
    assert_eq!(t.file_count(), 3);
    assert_eq!(t.get_file("src/"), Some(String::new()));
    assert_eq!(t.get_file("src/main.rs"), Some("fn main() {}".to_string()));
    assert_eq!(t.get_file("docs/"), Some(String::new()));
    assert_eq!(t.get_file("logo.png"), None);
    assert_eq!(walked_key("a\\b", true), "a/b/");
    assert_eq!(walked_key("a/b/", true), "a/b/");
    assert_eq!(walked_key("a\\b.txt", false), "a/b.txt");
}

fn entry(name: &str, is_dir: bool) -> DirEntry {
    DirEntry { name: name.to_string(), is_dir }
}

#[test]
fn directory_entries_sorted_by_name() {
    let es = vec![entry("src", true), entry("Cargo.toml", false), entry("README.md", false), entry("build", true)];
    let names: Vec<String> = sort_entries(&es).into_iter().map(|e| e.name).collect();
    assert_eq!(names, vec!["Cargo.toml", "README.md", "build", "src"]);
}

#[test]
fn tree_level_drawing() {
    let es = vec![entry("src", true), entry("Cargo.toml", false)];
    let lines = render_level(&es, "");
    assert_eq!(lines.len(), 2);
    assert_eq!(lines[0].text, "\u{251c}\u{2500}\u{2500} Cargo.toml");
    assert_eq!(lines[0].child_prefix, None);
    assert_eq!(lines[1].text, "\u{2514}\u{2500}\u{2500} src/");
    assert_eq!(lines[1].child_prefix, Some("    ".to_string()));
    let nested = render_level(&vec![entry("a", true), entry("b", false)], "\u{2502}   ");
    assert_eq!(nested[0].child_prefix, Some("\u{2502}   \u{2502}   ".to_string()));
    assert_eq!(nested[1].text, "\u{2502}   \u{2514}\u{2500}\u{2500} b");
    assert!(render_level(&Vec::new(), "").is_empty());
}

#[test]
fn walk_filters() {
    assert!(!context_entry_allowed(".git"));
    assert!(!context_entry_allowed("node_modules"));
    assert!(context_entry_allowed("src"));
    assert!(!tree_entry_allowed("target"));
    assert!(tree_entry_allowed("node_modules"));
    assert!(!pack_entry_allowed(".git"));
    assert!(pack_entry_allowed("info"));
}

#[test]
fn context_document_parts() {
    assert_eq!(file_section("src/a.rs", "rs", "x"), "\n### src/a.rs\n```rs\nx\n```\n");
    assert_eq!(
        context_document("p", "p/\n", "S"),
        "# Project Context: p\n\n## File Structure\n\n```text\np/\n\n```\n\n## File Contents\nS"
    );
    assert_eq!(estimated_tokens(10), 2);
    assert_eq!(estimated_tokens(3), 0);
}

#[test]
fn packed_entries_lay_out_as_walked() {
    let walked = vec![
        WalkedEntry { relative: "src".to_string(), is_dir: true, content: None },
        WalkedEntry { relative: "src\\main.rs".to_string(), is_dir: false, content: Some("fn main() {}".to_string()) },
        WalkedEntry { relative: "build.sh".to_string(), is_dir: false, content: Some("make".to_string()) },
        WalkedEntry { relative: ".keep".to_string(), is_dir: false, content: Some(String::new()) },
    ];
    let t = pack_template("p", &walked);
    for (key, content) in t.files() {
        let is_dir = key == "src/";
        assert_eq!(classify_template_entry(key, content) == EntryKind::Directory, is_dir);
    }
    assert_eq!(classify_template_entry("build.sh", "make"), EntryKind::Script);
}

#[test]
fn empty_file_without_dot_comes_back_as_directory() {
    let walked = vec![WalkedEntry { relative: "LICENSE".to_string(), is_dir: false, content: Some(String::new()) }];
    let t = pack_template("p", &walked);
    assert_eq!(t.get_file("LICENSE"), Some(String::new()));
    assert_eq!(classify_template_entry("LICENSE", ""), EntryKind::Directory);
}

#[test]
fn insert_order_does_not_matter() {
    let mut a = ProjectTemplate::new("t".to_string(), String::new());
    a.insert_file("x".to_string(), "1".to_string());
    a.insert_file("y".to_string(), "2".to_string());
    let mut b = ProjectTemplate::new("t".to_string(), String::new());
    b.insert_file("y".to_string(), "2".to_string());
    b.insert_file("x".to_string(), "0".to_string());
    b.insert_file("x".to_string(), "1".to_string());
    assert_eq!(a.files(), b.files());
}

#[test]
fn context_snapshot_template() {
    let walked = vec![
        WalkedEntry { relative: "src".to_string(), is_dir: true, content: None },
        WalkedEntry { relative: "src/lib.rs".to_string(), is_dir: false, content: Some("pub fn f() {}".to_string()) },
    ];
    let t = snapshot_template("demo", &walked);
    assert_eq!(t.template_name, "demo");
    assert_eq!(t.description, "Context snapshot of demo");
    assert_eq!(t.get_file("src/"), Some(String::new()));
    assert_eq!(t.get_file("src/lib.rs"), Some("pub fn f() {}".to_string()));
    assert_eq!(t.file_count(), 2);
}

fn node(name: &str, children: Vec<TreeNode>) -> TreeNode {
    TreeNode { name: name.to_string(), is_dir: true, children }
}

fn file(name: &str) -> TreeNode {
    TreeNode { name: name.to_string(), is_dir: false, children: Vec::new() }
}

#[test]
fn whole_tree_text() {
    let root = node(
        "proj",
        vec![
            node("src", vec![file("main.rs"), node("bin", vec![file("tool.rs")]), file("lib.rs")]),
            file("README.md"),
            file("Cargo.toml"),
        ],
    );
    let lines = [
        "proj/",
        "\u{251c}\u{2500}\u{2500} Cargo.toml",
        "\u{251c}\u{2500}\u{2500} README.md",
        "\u{2514}\u{2500}\u{2500} src/",
        "    \u{251c}\u{2500}\u{2500} bin/",
        "    \u{2502}   \u{2514}\u{2500}\u{2500} tool.rs",
        "    \u{251c}\u{2500}\u{2500} lib.rs",
        "    \u{2514}\u{2500}\u{2500} main.rs",
    ];
    let want: String = lines.iter().map(|l| format!("{}\n", l)).collect();
    assert_eq!(render_tree_text(&root), want);
    assert_eq!(render_tree_lines(&node("e", Vec::new()), ""), Vec::<String>::new());
    assert_eq!(render_tree_text(&node("e", Vec::new())), "e/\n");
}
