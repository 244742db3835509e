use wally::conflict::{conflict_report, conflict_status_cuttable, get_conflicted_files, ConflictLine};

fn lines(v: &[&str]) -> Vec<String> {
    v.iter().map(|s| s.to_string()).collect()
}

#[test]
fn conflicted_files_from_porcelain() {
    let status = "UU src/a.rs\n M b.rs\nAA c.rs\nDU d\nUD e\nUU \n?? new.txt\n";
    assert!(conflict_status_cuttable(status));
    assert_eq!(
        get_conflicted_files(status),
        vec!["src/a.rs".to_string(), "c.rs".to_string(), "d".to_string(), "e".to_string()]
    );
}

#[test]
fn no_conflicted_files() {
    assert!(get_conflicted_files("").is_empty());
    assert!(get_conflicted_files(" M a\nA  b\n").is_empty());
}

#[test]
fn conflict_line_that_cannot_be_cut() {
    assert!(!conflict_status_cuttable("UU\u{e9}x\n"));
    assert!(conflict_status_cuttable(" M\u{e9}x\n"));
}

fn texts(r: &[ConflictLine]) -> Vec<String> {
    r.iter()
        .map(|l| match l {
            ConflictLine::Start(n) => format!("start {}", n),
            ConflictLine::Text(t) => format!("text {}", t),
            ConflictLine::End(n) => format!("end {}", n),
            ConflictLine::Blank => "blank".to_string(),
            ConflictLine::MoreHidden => "more".to_string(),
        })
        .collect()
}

#[test]
fn detailed_report_shows_each_conflict() {
    let file = lines(&["a", "<<<<<<< HEAD", "b", "=======", "c", ">>>>>>> x", "d"]);
    assert_eq!(
        texts(&conflict_report(&file, true)),
        vec![
            "start 2", "text <<<<<<< HEAD", "text b", "text =======", "text c", "text >>>>>>> x",
            "end 6", "blank",
        ]
    );
}

#[test]
fn detailed_report_stops_after_three() {
    let mut v: Vec<&str> = Vec::new();
    for _ in 0..4 {
        v.push("<<<<<<< ours");
        v.push(">>>>>>> theirs");
    }
    let r = conflict_report(&lines(&v), true);
    let t = texts(&r);
    assert_eq!(t.last().unwrap(), "more");
    assert_eq!(t.iter().filter(|s| s.starts_with("start")).count(), 3);
    assert_eq!(t[0], "start 1");
}

#[test]
fn brief_report_stops_at_first_close() {
    let file = lines(&["x", "<<<<<<< HEAD", "y", ">>>>>>> b", "<<<<<<< HEAD", "z"]);
    assert_eq!(
        texts(&conflict_report(&file, false)),
        vec!["start 2", "text <<<<<<< HEAD", "text y", "text >>>>>>> b"]
    );
}

#[test]
fn brief_report_stops_at_stray_close() {
    let file = lines(&[">>>>>>> stray", "<<<<<<< HEAD", "y"]);
    assert!(conflict_report(&file, false).is_empty());
}
