use wally::tag::{
    bump_for_selection, get_latest_tag, next_tag, parse_version, release_message, version_options,
    version_tag, Bump,
};

#[test]
fn latest_tag_defaults() {
    assert_eq!(get_latest_tag(false, "v1.0.0\n"), "v0.0.0");
    assert_eq!(get_latest_tag(true, "  v1.2.3\n"), "v1.2.3");
    assert_eq!(get_latest_tag(true, "\n"), "v0.0.0");
}

#[test]
fn parse_version_full_and_partial() {
    assert_eq!(parse_version("v1.2.3"), (1, 2, 3));
    assert_eq!(parse_version("1.2"), (1, 2, 0));
    assert_eq!(parse_version("v7"), (7, 0, 0));
    assert_eq!(parse_version("v0.0.0"), (0, 0, 0));
}

#[test]
fn parse_version_odd_inputs() {
    assert_eq!(parse_version("v1.2.3.4"), (0, 0, 0));
    assert_eq!(parse_version(""), (0, 0, 0));
    assert_eq!(parse_version("vv1.x.2"), (1, 2, 0));
    assert_eq!(parse_version("v+1.2.3"), (1, 2, 3));
    assert_eq!(parse_version("v1.2.99999999999"), (1, 2, 0));
    assert_eq!(parse_version("release"), (0, 0, 0));
}

#[test]
fn version_tag_formats() {
    assert_eq!(version_tag(1, 2, 3), "v1.2.3");
    assert_eq!(version_tag(0, 10, 0), "v0.10.0");
}

#[test]
fn next_tag_bumps() {
    assert_eq!(next_tag(Bump::Patch, 1, 2, 3), "v1.2.4");
    assert_eq!(next_tag(Bump::Minor, 1, 2, 3), "v1.3.0");
    assert_eq!(next_tag(Bump::Major, 1, 2, 3), "v2.0.0");
}

#[test]
fn next_tag_reads_back() {
    for (b, want) in [
        (Bump::Patch, (4, 5, 7)),
        (Bump::Minor, (4, 6, 0)),
        (Bump::Major, (5, 0, 0)),
    ] {
        assert_eq!(parse_version(&next_tag(b, 4, 5, 6)), want);
    }
}

#[test]
fn bump_selection_order() {
    assert_eq!(bump_for_selection(0), Bump::Patch);
    assert_eq!(bump_for_selection(1), Bump::Minor);
    assert_eq!(bump_for_selection(2), Bump::Major);
}

#[test]
fn version_options_texts() {
    assert_eq!(
        version_options(0, 0, 0),
        vec![
            "Patch: v0.0.1 (Bug fixes)".to_string(),
            "Minor: v0.1.0 (New features)".to_string(),
            "Major: v1.0.0 (Breaking changes)".to_string(),
        ]
    );
}

#[test]
fn release_message_names_tag() {
    assert_eq!(release_message("v1.0.0"), "Release v1.0.0");
}

#[test]
fn next_version_comes_after_current() {
    for b in [Bump::Patch, Bump::Minor, Bump::Major] {
        let next = parse_version(&next_tag(b, 1, 9, 9));
        assert!(next > (1, 9, 9));
    }
    assert_eq!(parse_version(&next_tag(Bump::Patch, 3, u32::MAX, 0)), (3, u32::MAX, 1));
}
