use lintdiff::diff_stats::{empty_stats, format_stats, format_stats_markdown, format_stats_short, from_file_stats, is_empty, merge_stats, net_lines, ChangeType, DiffStats, DiffStatsBuilder, FileDiffStats};

#[test]
fn change_type_display_works() {
    assert_eq!(ChangeType::Added.to_string(), "added");
    assert_eq!(ChangeType::Deleted.to_string(), "deleted");
    assert_eq!(ChangeType::Modified.to_string(), "modified");
    assert_eq!(ChangeType::Renamed.to_string(), "renamed");
}

#[test]
fn change_type_symbol_works() {
    assert_eq!(ChangeType::Added.symbol(), "A");
    assert_eq!(ChangeType::Deleted.symbol(), "D");
    assert_eq!(ChangeType::Modified.symbol(), "M");
    assert_eq!(ChangeType::Renamed.symbol(), "R");
}

#[test]
fn file_diff_stats_constructors_work() {
    let added = FileDiffStats::added("test.rs", 10);
    assert_eq!(added.path, "test.rs");
    assert_eq!(added.lines_added, 10);
    assert_eq!(added.lines_removed, 0);
    assert_eq!(added.change_type, ChangeType::Added);

    let deleted = FileDiffStats::deleted("old.rs", 5);
    assert_eq!(deleted.lines_added, 0);
    assert_eq!(deleted.lines_removed, 5);
    assert_eq!(deleted.change_type, ChangeType::Deleted);

    let modified = FileDiffStats::modified("src.rs", 10, 5);
    assert_eq!(modified.lines_added, 10);
    assert_eq!(modified.lines_removed, 5);
    assert_eq!(modified.change_type, ChangeType::Modified);

    let renamed = FileDiffStats::renamed("renamed.rs");
    assert_eq!(renamed.change_type, ChangeType::Renamed);
}

#[test]
fn diff_stats_add_works() {
    let a = DiffStats::from_values(2, 10, 5, 1, 0, 1);
    let b = DiffStats::from_values(3, 20, 10, 2, 1, 0);
    let merged = a + b;

    assert_eq!(merged.files_changed, 5);
    assert_eq!(merged.lines_added, 30);
    assert_eq!(merged.lines_removed, 15);
    assert_eq!(merged.files_added, 3);
    assert_eq!(merged.files_deleted, 1);
    assert_eq!(merged.files_renamed, 1);
}

#[test]
fn builder_produces_correct_stats() {
    let mut builder = DiffStatsBuilder::new();
    builder
        .add_file(&FileDiffStats::added("a.rs", 10))
        .add_file(&FileDiffStats::deleted("b.rs", 5))
        .add_file(&FileDiffStats::modified("c.rs", 3, 2))
        .add_file(&FileDiffStats::renamed("d.rs"));

    let stats = builder.build();
    assert_eq!(stats.files_changed, 4);
    assert_eq!(stats.lines_added, 13);
    assert_eq!(stats.lines_removed, 7);
    assert_eq!(stats.files_added, 1);
    assert_eq!(stats.files_deleted, 1);
    assert_eq!(stats.files_renamed, 1);
}

#[test]
fn lib_format_stats_empty_shows_no_changes() {
    let stats = DiffStats::new();
    assert_eq!(format_stats(&stats), "No changes");
}

#[test]
fn format_stats_short_works() {
    let stats = DiffStats::from_values(3, 10, 5, 0, 0, 0);
    assert_eq!(format_stats_short(&stats), "+10-5 files:3");
}

#[test]
fn net_lines_calculates_correctly() {
    let stats = DiffStats::from_values(1, 10, 5, 0, 0, 0);
    assert_eq!(net_lines(&stats), 5);

    let negative_stats = DiffStats::from_values(1, 5, 10, 0, 0, 0);
    assert_eq!(net_lines(&negative_stats), -5);
}
