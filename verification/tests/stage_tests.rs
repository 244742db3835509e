use wally::stage::{
    add_args, build_render_lines, diff_display_lines, display_height, parse_status_entries, status_color,
    status_output_cuttable, RenderLine, StageAction, StageKey, StageView, StatusColor,
};

const STATUS: &str = "M  src/a.rs\n?? new.txt\nAB\n D gone.rs\n";

#[test]
fn status_lines_become_entries() {
    assert!(status_output_cuttable(STATUS));
    let es = parse_status_entries(STATUS);
    let got: Vec<(String, String)> = es.iter().map(|e| (e.status.clone(), e.path.clone())).collect();
    assert_eq!(
        got,
        vec![
            ("M ".to_string(), "src/a.rs".to_string()),
            ("??".to_string(), "new.txt".to_string()),
            (" D".to_string(), "gone.rs".to_string()),
        ]
    );
    assert!(es.iter().all(|e| !e.selected && !e.expanded && e.diff_cache.is_empty()));
}

#[test]
fn status_line_that_cannot_be_cut() {
    assert!(!status_output_cuttable("M\u{e9}xyz\n"));
}

#[test]
fn select_expand_and_stage() {
    let mut view = StageView::new(parse_status_entries(STATUS));
    let (lines, end) = view.layout(10);
    assert_eq!(lines, vec![RenderLine::FileHeader(0), RenderLine::FileHeader(1), RenderLine::FileHeader(2)]);
    assert_eq!(end, 3);
    assert_eq!(view.handle_key(StageKey::Down), StageAction::Redraw);
    assert_eq!(view.cursor_line, 1);
    assert_eq!(view.handle_key(StageKey::Char(' ')), StageAction::Redraw);
    assert!(view.entries[1].selected);
    assert_eq!(view.handle_key(StageKey::Right), StageAction::FetchDiff(1));
    assert!(view.entries[1].expanded);
    view.set_diff(1, vec!["+hello".to_string(), "+world".to_string()]);
    let (lines, _) = view.layout(10);
    assert_eq!(
        lines,
        vec![
            RenderLine::FileHeader(0),
            RenderLine::FileHeader(1),
            RenderLine::DiffLine(1, 0),
            RenderLine::DiffLine(1, 1),
            RenderLine::FileHeader(2),
        ]
    );
    assert_eq!(view.handle_key(StageKey::Down), StageAction::Redraw);
    assert_eq!(view.handle_key(StageKey::Left), StageAction::Redraw);
    assert!(!view.entries[1].expanded);
    let (lines, _) = view.layout(10);
    assert_eq!(lines.len(), 3);
    assert_eq!(view.cursor_line, 2);
    assert_eq!(view.handle_key(StageKey::Right), StageAction::FetchDiff(2));
    view.set_diff(2, vec!["-old".to_string()]);
    let (lines, _) = view.layout(10);
    assert_eq!(lines[3], RenderLine::DiffLine(2, 0));
    assert_eq!(view.handle_key(StageKey::Right), StageAction::Redraw);
    assert_eq!(view.handle_key(StageKey::Enter), StageAction::Finish);
    let paths = view.selected_paths();
    assert_eq!(paths, vec!["new.txt".to_string()]);
    assert_eq!(add_args(&paths), vec!["add".to_string(), "new.txt".to_string()]);
}

#[test]
fn toggle_all_twice() {
    let mut view = StageView::new(parse_status_entries(STATUS));
    view.layout(10);
    view.handle_key(StageKey::Char(' '));
    view.handle_key(StageKey::Char('a'));
    assert!(view.entries.iter().all(|e| e.selected));
    view.handle_key(StageKey::Char('a'));
    assert!(view.entries.iter().all(|e| !e.selected));
    assert!(view.selected_paths().is_empty());
}

#[test]
fn cursor_keys_at_the_edges() {
    let mut view = StageView::new(parse_status_entries(STATUS));
    view.layout(10);
    view.handle_key(StageKey::Up);
    assert_eq!(view.cursor_line, 0);
    view.handle_key(StageKey::Down);
    view.handle_key(StageKey::Down);
    view.handle_key(StageKey::Down);
    assert_eq!(view.cursor_line, 2);
    assert_eq!(view.handle_key(StageKey::Escape), StageAction::Cancel);
    assert_eq!(view.handle_key(StageKey::Char('q')), StageAction::Redraw);
    assert_eq!(view.handle_key(StageKey::Other), StageAction::Redraw);
}

#[test]
fn viewport_follows_cursor() {
    let mut view = StageView::new(parse_status_entries(STATUS));
    view.layout(5);
    assert_eq!(view.viewport_top, 0);
    view.handle_key(StageKey::Down);
    view.handle_key(StageKey::Down);
    let (_, end) = view.layout(5);
    assert_eq!(view.viewport_top, 2);
    assert_eq!(end, 3);
    view.handle_key(StageKey::Up);
    view.handle_key(StageKey::Up);
    view.layout(5);
    assert_eq!(view.viewport_top, 0);
}

#[test]
fn render_lines_of_collapsed_entries() {
    let es = parse_status_entries(STATUS);
    assert_eq!(build_render_lines(&es).len(), 3);
}

#[test]
fn display_rows_leave_room_for_help() {
    assert_eq!(display_height(24), 20);
    assert_eq!(display_height(4), 0);
    assert_eq!(display_height(2), 0);
}

#[test]
fn status_colours() {
    assert_eq!(status_color("M "), StatusColor::Yellow);
    assert_eq!(status_color(" M"), StatusColor::Yellow);
    assert_eq!(status_color("A "), StatusColor::Green);
    assert_eq!(status_color("??"), StatusColor::Green);
    assert_eq!(status_color(" D"), StatusColor::Red);
    assert_eq!(status_color("R "), StatusColor::Cyan);
    assert_eq!(status_color("MM"), StatusColor::Cyan);
}

#[test]
fn diff_preview_lines() {
    assert_eq!(diff_display_lines("  \n", "(none)"), vec!["(none)".to_string()]);
    assert_eq!(
        diff_display_lines("diff --git a b\n+x\n", "(none)"),
        vec!["diff --git a b".to_string(), "+x".to_string()]
    );
}
