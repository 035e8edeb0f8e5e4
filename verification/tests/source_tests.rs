use lintdiff::git_path::decode_git_path;
use lintdiff::line_ranges::merge_lines_to_ranges;
use lintdiff::source::{parse_source_change_set, parse_unified_diff, LocationMapping};
use lintdiff::types::{LineRange, NormPath};

/// Deterministic pseudo-random line lists standing in for generated inputs.
fn sample_lines(seed: u64) -> Vec<u32> {
    let mut state = seed.wrapping_mul(6364136223846793005).wrapping_add(1442695040888963407);
    state ^= state >> 33;
    let len = (state % 200) as usize;
    let mut out = Vec::with_capacity(len);
    for _ in 0..len {
        state = state.wrapping_mul(6364136223846793005).wrapping_add(1442695040888963407);
        out.push(1 + ((state >> 33) % 4999) as u32);
    }
    out
}

fn map(diff: &str, path: &str, line: u32) -> LocationMapping {
    parse_source_change_set(diff)
        .expect("valid source diff")
        .map_old_location(&NormPath::from_repo_path(path), line)
}

#[test]
fn mod_parses_simple_added_lines() {
    let diff = r#"
diff --git a/src/lib.rs b/src/lib.rs
--- a/src/lib.rs
+++ b/src/lib.rs
@@ -1,0 +1,3 @@
+fn a() {}
+fn b() {}
+fn c() {}
"#;

    let map = parse_unified_diff(diff).unwrap();
    let ranges = map.changed.get(&NormPath::new("src/lib.rs")).unwrap();
    assert_eq!(ranges, &vec![LineRange::new(1, 3)]);
    assert_eq!(map.stats.hunks, 1);
    assert_eq!(map.stats.added_lines, 3);
}

#[test]
fn strips_only_the_diff_transport_prefix_for_a_directory() {
    let diff = r#"
diff --git a/a/src/lib.rs b/a/src/lib.rs
--- a/a/src/lib.rs
+++ b/a/src/lib.rs
@@ -1,0 +1,1 @@
+fn a() {}
"#;

    let map = parse_unified_diff(diff).unwrap();
    assert!(map
        .changed
        .contains_key(&NormPath::from_repo_path("a/src/lib.rs")));
}

#[test]
fn decodes_quoted_paths_with_spaces() {
    let diff = r#"
diff --git "a/src/my file.rs" "b/src/my file.rs"
--- "a/src/my file.rs"
+++ "b/src/my file.rs"
@@ -1,0 +1,1 @@
+content
"#;

    let map = parse_unified_diff(diff).unwrap();
    assert!(map
        .changed
        .contains_key(&NormPath::from_repo_path("src/my file.rs")));
}

#[test]
fn preserves_repository_path_in_prefixless_diff_input() {
    let diff = r#"
diff --git a/src/lib.rs a/src/lib.rs
--- a/src/lib.rs
+++ a/src/lib.rs
@@ -1,0 +1,1 @@
+content
"#;

    let map = parse_unified_diff(diff).unwrap();
    assert!(map
        .changed
        .contains_key(&NormPath::from_repo_path("a/src/lib.rs")));
}

#[test]
fn accepts_patch_fragments_without_diff_git_metadata() {
    let diff = r#"--- a/src/lib.rs
+++ b/src/lib.rs
@@ -2 +2 @@
-old
+new
"#;
    let source = parse_source_change_set(diff).expect("valid patch fragment");
    assert_eq!(source.files.len(), 1);
    assert!(matches!(
        source.map_old_location(&NormPath::from_repo_path("src/lib.rs"), 2),
        LocationMapping::UnmappableChangedRegion { line: 2, .. }
    ));
}

#[test]
fn decodes_escaped_and_out_of_range_octal_path_bytes_deterministically() {
    assert_eq!(
        decode_git_path(r#""a/space\040name.rs""#),
        "a/space name.rs"
    );
    assert_eq!(
        decode_git_path(r#""a/invalid\400name.rs""#),
        "a/invalid?name.rs"
    );
}

#[test]
fn preserves_repository_a_directory_in_rename_records() {
    let diff = r#"
diff --git a/a/old.rs b/a/new.rs
similarity index 100%
rename from a/old.rs
rename to a/new.rs
"#;

    let map = parse_unified_diff(diff).unwrap();
    assert_eq!(
        map.renames.get(&NormPath::from_repo_path("a/old.rs")),
        Some(&NormPath::from_repo_path("a/new.rs"))
    );
}

#[test]
fn pure_insertion_shifts_following_lines_without_mapping_the_insertion() {
    let diff = r#"diff --git a/src/lib.rs b/src/lib.rs
--- a/src/lib.rs
+++ b/src/lib.rs
@@ -3,0 +3,2 @@
+added one
+added two
"#;
    assert_eq!(
        map(diff, "src/lib.rs", 2),
        LocationMapping::Exact {
            new_path: NormPath::from_repo_path("src/lib.rs"),
            new_line: 2,
        }
    );
    assert_eq!(
        map(diff, "src/lib.rs", 3),
        LocationMapping::Shifted {
            new_path: NormPath::from_repo_path("src/lib.rs"),
            new_line: 5,
        }
    );
}

#[test]
fn deletion_and_replacement_leave_changed_old_regions_unmappable() {
    let deletion = r#"diff --git a/src/lib.rs b/src/lib.rs
--- a/src/lib.rs
+++ b/src/lib.rs
@@ -3,2 +3,0 @@
-deleted one
-deleted two
"#;
    assert!(matches!(
        map(deletion, "src/lib.rs", 3),
        LocationMapping::UnmappableChangedRegion { line: 3, .. }
    ));
    assert_eq!(
        map(deletion, "src/lib.rs", 5),
        LocationMapping::Shifted {
            new_path: NormPath::from_repo_path("src/lib.rs"),
            new_line: 3,
        }
    );

    let replacement = r#"diff --git a/src/lib.rs b/src/lib.rs
--- a/src/lib.rs
+++ b/src/lib.rs
@@ -3,2 +3,1 @@
-old one
-old two
+new one
"#;
    assert!(matches!(
        map(replacement, "src/lib.rs", 4),
        LocationMapping::UnmappableChangedRegion { line: 4, .. }
    ));
    assert_eq!(
        map(replacement, "src/lib.rs", 5),
        LocationMapping::Shifted {
            new_path: NormPath::from_repo_path("src/lib.rs"),
            new_line: 4,
        }
    );
}

#[test]
fn rename_only_and_rename_with_edit_preserve_movement_evidence() {
    let rename_only = r#"diff --git a/src/old.rs b/src/new.rs
similarity index 100%
rename from src/old.rs
rename to src/new.rs
"#;
    assert_eq!(
        map(rename_only, "src/old.rs", 7),
        LocationMapping::Renamed {
            old_path: NormPath::from_repo_path("src/old.rs"),
            new_path: NormPath::from_repo_path("src/new.rs"),
            new_line: 7,
        }
    );

    let rename_with_edit = r#"diff --git a/src/old.rs b/src/new.rs
--- a/src/old.rs
+++ b/src/new.rs
@@ -2,0 +2,1 @@
+inserted
"#;
    assert_eq!(
        map(rename_with_edit, "src/old.rs", 2),
        LocationMapping::ShiftedAndRenamed {
            old_path: NormPath::from_repo_path("src/old.rs"),
            new_path: NormPath::from_repo_path("src/new.rs"),
            new_line: 3,
        }
    );
}

#[test]
fn created_deleted_and_missing_files_are_explicit() {
    let created = r#"diff --git a/new.rs b/new.rs
new file mode 100644
--- /dev/null
+++ b/new.rs
@@ -0,0 +1,1 @@
+new
"#;
    assert_eq!(
        map(created, "new.rs", 1),
        LocationMapping::FileCreated {
            path: NormPath::from_repo_path("new.rs")
        }
    );

    let deleted = r#"diff --git a/old.rs b/old.rs
deleted file mode 100644
--- a/old.rs
+++ /dev/null
@@ -1,1 +0,0 @@
-old
"#;
    assert_eq!(
        map(deleted, "old.rs", 1),
        LocationMapping::FileDeleted {
            path: NormPath::from_repo_path("old.rs")
        }
    );
    assert_eq!(map(deleted, "missing.rs", 1), LocationMapping::MissingFile);
}

#[test]
fn overlapping_hunks_do_not_bridge_unknown_regions() {
    let diff = r#"diff --git a/src/lib.rs b/src/lib.rs
--- a/src/lib.rs
+++ b/src/lib.rs
@@ -1,1 +1,1 @@
-old
+new
@@ -1,1 +1,1 @@
-old again
+new again
"#;
    assert!(matches!(
        map(diff, "src/lib.rs", 3),
        LocationMapping::UnmappableChangedRegion { .. }
    ));
}

#[test]
fn merge_lines_to_ranges_is_idempotent() {
    for seed in 0..64u64 {
        let lines = sample_lines(seed);
        let ranges1 = merge_lines_to_ranges(lines.clone());

        // Expand ranges back to a line vector and merge again.
        let mut expanded: Vec<u32> = Vec::new();
        for r in &ranges1 {
            for l in r.start..=r.end {
                expanded.push(l);
            }
        }
        let ranges2 = merge_lines_to_ranges(expanded);
        assert_eq!(ranges1, ranges2);
    }
}

#[test]
fn merged_ranges_are_strictly_increasing() {
    for seed in 0..64u64 {
        let ranges = merge_lines_to_ranges(sample_lines(seed));
        for w in ranges.windows(2) {
            assert!(w[0].end < w[1].start);
        }
    }
}
