use wally::stats::{
    get_commit_count_days, get_line_stats_days, get_top_modified_files, get_total_stats, since_arg,
    line_stats_fit, top_file_row,
};

#[test]
fn since_arg_counts_days_back() {
    assert_eq!(since_arg(7), "7 days ago");
    assert_eq!(since_arg(30), "30 days ago");
    assert_eq!(since_arg(0), "0 days ago");
}

#[test]
fn commit_count_is_line_count() {
    assert_eq!(get_commit_count_days("a1b2c3 first\nd4e5f6 second\n"), 2);
    assert_eq!(get_commit_count_days("a1b2c3 only"), 1);
    assert_eq!(get_commit_count_days(""), 0);
}

#[test]
fn line_stats_sum_numstat_fields() {
    let log = "10\t2\tsrc/a.rs\n-\t-\tlogo.png\n\n3\t0\tsrc/b.rs\n";
    assert!(line_stats_fit(log));
    assert_eq!(get_line_stats_days(log), (13, 2));
}

#[test]
fn line_stats_skip_short_and_non_numeric_lines() {
    assert_eq!(get_line_stats_days(""), (0, 0));
    assert_eq!(get_line_stats_days("7\n"), (0, 0));
    assert_eq!(get_line_stats_days("x\t4\tf\n+5\ty\tg\n"), (5, 4));
}

#[test]
fn line_stats_report_overflow() {
    let log = "18446744073709551615\t0\ta\n1\t0\tb\n";
    assert!(!line_stats_fit(log));
    assert!(line_stats_fit("18446744073709551615\t0\ta\n0\t7\tb\n"));
    assert_eq!(get_line_stats_days("18446744073709551615\t0\ta\n0\t7\tb\n"), (u64::MAX, 7));
}

#[test]
fn top_files_most_mentioned_first() {
    let log = "a.rs\nb.rs\n\na.rs\nc.rs\n  a.rs  \nb.rs\n";
    let top = get_top_modified_files(log, 2);
    assert_eq!(top, vec![("a.rs".to_string(), 3), ("b.rs".to_string(), 2)]);
}

#[test]
fn top_files_respect_limit() {
    let log = "a\nb\nc\n";
    assert_eq!(get_top_modified_files(log, 0), Vec::<(String, usize)>::new());
    let all = get_top_modified_files(log, 10);
    assert_eq!(all.len(), 3);
    assert!(all.iter().all(|(_, n)| *n == 1));
}

#[test]
fn top_files_of_empty_log() {
    assert!(get_top_modified_files("\n\n", 5).is_empty());
}

#[test]
fn total_stats_read_count_and_first_date() {
    let (count, first) = get_total_stats("42\n", "2023-01-05\n2023-02-01\n");
    assert_eq!(count, 42);
    assert_eq!(first, "2023-01-05");
}

#[test]
fn total_stats_fall_back() {
    let (count, first) = get_total_stats("fatal: bad revision", "");
    assert_eq!(count, 0);
    assert_eq!(first, "Unknown");
}

#[test]
fn top_file_rows_align_counts() {
    assert_eq!(top_file_row("src/a.rs", 3), format!("  {:>3} times - {}", 3, "src/a.rs"));
    assert_eq!(top_file_row("b", 1234), "  1234 times - b");
}

#[test]
fn line_stats_of_joined_outputs_add_up() {
    let a = "3\t1\ta.rs\n-\t-\tb.png\n";
    let b = "2\t5\tc.rs\n10\t0\td.rs";
    let (a1, d1) = get_line_stats_days(a);
    let (a2, d2) = get_line_stats_days(b);
    assert_eq!(get_line_stats_days(&format!("{}{}", a, b)), (a1 + a2, d1 + d2));
    assert_eq!(get_line_stats_days(&format!("{}{}", "", b)), (a2, d2));
    assert_eq!(get_line_stats_days(""), (0, 0));
}
