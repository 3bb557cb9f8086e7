use kount::args::Args;
use kount::args::SortBy;
use kount::count;
use kount::count_lines;
use kount::count_newlines;
use kount::paths::extension_of;
use kount::types::CountConfig;
use kount::types::FileCount;
use kount::types::SortOrder;

fn write_file(dir: &tempfile::TempDir, name: &str, contents: &str) -> String {
    let path = dir.path().join(name);
    fs_err::write(&path, contents).expect("failed to write test file");
    path.to_string_lossy().into_owned()
}

fn config_for(dir: &tempfile::TempDir, sort: SortOrder) -> CountConfig {
    CountConfig {
        paths: vec![dir.path().to_string_lossy().into_owned()],
        extensions: vec![],
        globs: vec![],
        use_ignore: true,
        sort,
    }
}

#[test]
fn newline_bytes_are_the_line_count() {
    assert_eq!(count_newlines(b"one\ntwo\nthree\n"), 3);
    // A trailing partial line has no terminator and is not counted.
    assert_eq!(count_newlines(b"one\ntwo\nthree"), 2);
    assert_eq!(count_newlines(b""), 0);
    assert_eq!(count_newlines(b"\n\n\n"), 3);
    assert_eq!(count_newlines(b"no newline at all"), 0);
    // The count is binary-safe: other control bytes are not line ends.
    assert_eq!(count_newlines(&[0x0a, 0x0d, 0x0a, 0x00]), 2);
}

#[test]
fn file_without_trailing_newline() {
    let dir = tempfile::tempdir().expect("failed to create temp dir");
    let path = write_file(&dir, "partial.txt", "a\nb\nc");

    assert_eq!(count_lines(&path).0.expect("readable file"), 2);
}

#[test]
fn unreadable_file_reports_an_error() {
    let dir = tempfile::tempdir().expect("failed to create temp dir");
    let missing = dir.path().join("absent.txt").to_string_lossy().into_owned();

    let err = count_lines(&missing).0.expect_err("missing file must fail");
    assert!(!err.message.is_empty());
}

#[test]
fn extension_extraction_edge_cases() {
    assert_eq!(extension_of(&"dir/file.tar.gz".to_string()), "gz");
    assert_eq!(extension_of(&"archive.tar".to_string()), "tar");
    assert_eq!(extension_of(&"dir/.hidden".to_string()), "");
    assert_eq!(extension_of(&"trailingdot.".to_string()), "");
    assert_eq!(extension_of(&"dir.d/noext".to_string()), "");
    assert_eq!(extension_of(&"noext".to_string()), "");
}

#[test]
fn sort_modes_keep_totals_and_buckets() {
    let dir = tempfile::tempdir().expect("failed to create temp dir");
    write_file(&dir, "a.rs", "x\n");
    write_file(&dir, "b.md", "x\nx\nx\n");
    write_file(&dir, "c.rs", "x\nx\n");

    let by_lines = count(&config_for(&dir, SortOrder::Lines));
    let by_name = count(&config_for(&dir, SortOrder::Name));
    let unsorted = count(&config_for(&dir, SortOrder::Unsorted));

    for result in [&by_lines, &by_name, &unsorted] {
        assert_eq!(result.total_lines, 6);
        assert_eq!(result.total_files, 3);
        assert_eq!(result.by_extension.len(), 2);
        // The two buckets tie on 3 lines each; their relative order is
        // unspecified, so look them up by key.
        let rs = result.by_extension.iter().find(|b| b.extension == "rs").expect("rs bucket");
        assert_eq!(rs.file_count, 2);
        assert_eq!(rs.total_lines, 3);
        let md = result.by_extension.iter().find(|b| b.extension == "md").expect("md bucket");
        assert_eq!(md.file_count, 1);
        assert_eq!(md.total_lines, 3);
    }

    assert!(by_lines.files[0].path.ends_with("b.md"));
    assert_eq!(by_lines.files[0].lines, 3);
    assert!(by_name.files[0].path.ends_with("a.rs"));

    // The three orderings hold the same per-file entries.
    let mut seen: Vec<(String, u64)> =
        by_lines.files.iter().map(|f: &FileCount| (f.path.clone(), f.lines)).collect();
    seen.sort();
    for result in [&by_name, &unsorted] {
        let mut other: Vec<(String, u64)> =
            result.files.iter().map(|f: &FileCount| (f.path.clone(), f.lines)).collect();
        other.sort();
        assert_eq!(seen, other);
    }
}

#[test]
fn buckets_partition_the_files() {
    let dir = tempfile::tempdir().expect("failed to create temp dir");
    write_file(&dir, "a.rs", "x\n");
    write_file(&dir, "b.rs", "x\nx\n");
    write_file(&dir, "c.md", "x\nx\nx\n");
    write_file(&dir, "noext", "x\nx\nx\nx\n");

    let result = count(&config_for(&dir, SortOrder::Lines));

    assert_eq!(result.total_files, 4);
    assert_eq!(result.total_lines, 10);
    assert_eq!(result.by_extension.len(), 3);

    let count_sum: u64 = result.by_extension.iter().map(|b| b.file_count).sum();
    let line_sum: u64 = result.by_extension.iter().map(|b| b.total_lines).sum();
    assert_eq!(count_sum, result.total_files);
    assert_eq!(line_sum, result.total_lines);

    // Buckets come largest line total first, and each key appears once.
    for pair in result.by_extension.windows(2) {
        assert!(pair[0].total_lines >= pair[1].total_lines);
        assert_ne!(pair[0].extension, pair[1].extension);
    }
    let rs = result.by_extension.iter().find(|b| b.extension == "rs").expect("rs bucket");
    assert_eq!(rs.file_count, 2);
    assert_eq!(rs.total_lines, 3);
    let none = result.by_extension.iter().find(|b| b.extension.is_empty()).expect("empty bucket");
    assert_eq!(none.file_count, 1);
    assert_eq!(none.total_lines, 4);
}

#[test]
fn extension_and_glob_filters_union() {
    let dir = tempfile::tempdir().expect("failed to create temp dir");
    write_file(&dir, "code.rs", "x\n");
    write_file(&dir, "readme.md", "x\n");
    write_file(&dir, "data.json", "x\n");

    let mut config = config_for(&dir, SortOrder::Name);
    config.extensions = vec!["rs".to_string()];
    config.globs = vec!["*.md".to_string()];
    let result = count(&config);

    // A file matching either filter is included; one matching neither is not.
    assert_eq!(result.total_files, 2);
    assert!(result.files[0].path.ends_with("code.rs"));
    assert!(result.files[1].path.ends_with("readme.md"));
}

#[test]
fn ignore_rules_toggle() {
    let dir = tempfile::tempdir().expect("failed to create temp dir");
    write_file(&dir, "a.rs", "x\n");
    write_file(&dir, "b.rs", "x\nx\n");
    write_file(&dir, ".ignore", "b.rs\n");

    let with_rules = count(&config_for(&dir, SortOrder::Name));
    // The listed file is excluded, and so is the hidden ignore file itself.
    assert_eq!(with_rules.total_files, 1);
    assert!(with_rules.files[0].path.ends_with("a.rs"));

    let mut config = config_for(&dir, SortOrder::Name);
    config.use_ignore = false;
    let without_rules = count(&config);
    // With the rules off, the same file is included, and hidden entries too.
    assert_eq!(without_rules.total_files, 3);
    assert_eq!(without_rules.total_lines, 4);
}

#[test]
fn args_translate_to_config() {
    let args = Args {
        paths: vec!["src".to_string(), "docs".to_string()],
        ext: vec!["rs".to_string()],
        glob: vec!["*.md".to_string()],
        sort: SortBy::Name,
        no_ignore: true,
        json: false,
        summary: false,
        top: Some(5),
    };
    let config = args.to_config();

    assert_eq!(config.paths, vec!["src".to_string(), "docs".to_string()]);
    assert_eq!(config.extensions, vec!["rs".to_string()]);
    assert_eq!(config.globs, vec!["*.md".to_string()]);
    assert!(!config.use_ignore);
    assert!(matches!(config.sort, SortOrder::Name));

    let defaults = Args {
        paths: vec![],
        ext: vec![],
        glob: vec![],
        sort: SortBy::Lines,
        no_ignore: false,
        json: false,
        summary: false,
        top: None,
    };
    let config = defaults.to_config();
    assert!(config.use_ignore);
    assert!(matches!(config.sort, SortOrder::Lines));
}

#[test]
fn lines_sort_is_descending() {
    let dir = tempfile::tempdir().expect("failed to create temp dir");
    write_file(&dir, "small.txt", "x\n");
    write_file(&dir, "large.txt", "x\nx\nx\nx\n");
    write_file(&dir, "middle.txt", "x\nx\n");

    let result = count(&config_for(&dir, SortOrder::Lines));

    assert_eq!(result.files.len(), 3);
    assert_eq!(result.files[0].lines, 4);
    assert_eq!(result.files[1].lines, 2);
    assert_eq!(result.files[2].lines, 1);
}

#[test]
fn large_file_spans_many_chunks() {
    let dir = tempfile::tempdir().expect("failed to create temp dir");
    // Well past the 64 KiB chunk size, so the count crosses chunk borders.
    let path = write_file(&dir, "big.txt", &"x\n".repeat(100_000));

    assert_eq!(count_lines(&path).0.expect("readable file"), 100_000);
}

#[test]
fn name_sort_puts_prefix_first() {
    let dir = tempfile::tempdir().expect("failed to create temp dir");
    write_file(&dir, "ab.rs", "x\nx\n");
    write_file(&dir, "a.rs", "x\n");

    let result = count(&config_for(&dir, SortOrder::Name));

    assert_eq!(result.files.len(), 2);
    assert!(result.files[0].path.ends_with("/a.rs"));
    assert!(result.files[1].path.ends_with("/ab.rs"));
}

#[test]
fn chunk_accumulation_matches_whole_count() {
    assert_eq!(kount::counter::count_newlines_prefix(b"ab\ncd\n", 3), 1);
    assert_eq!(kount::counter::count_newlines_prefix(b"ab\ncd\n", 6), 2);
    assert_eq!(kount::counter::count_newlines_prefix(b"ab\ncd\n", 0), 0);

    // Counting chunk by chunk gives the same total as counting at once.
    let total = kount::counter::accumulate_chunk(kount::counter::accumulate_chunk(0, b"one\ntwo\n", 8), b"three\nfour", 10);
    assert_eq!(total, 3);
    assert_eq!(count_newlines(b"one\ntwo\nthree\nfour") as u64, total);

    // The running total clamps instead of wrapping.
    assert_eq!(kount::counter::accumulate_chunk(u64::MAX, b"\n", 1), u64::MAX);
}
