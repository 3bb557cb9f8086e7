use kount::count;
use kount::take_top;
use kount::types::CountConfig;
use kount::types::SortOrder;

fn write_lines(dir: &tempfile::TempDir, name: &str, lines: usize) -> String {
    let path = dir.path().join(name);
    let mut contents = String::new();
    for i in 0..lines {
        contents.push_str(&format!("line {}\n", i));
    }
    fs_err::write(&path, contents).expect("failed to write test file");
    path.to_string_lossy().into_owned()
}

fn dir_config(dir: &tempfile::TempDir, sort: SortOrder) -> CountConfig {
    CountConfig {
        paths: vec![dir.path().to_string_lossy().into_owned()],
        extensions: vec![],
        globs: vec![],
        use_ignore: true,
        sort,
    }
}

#[test]
fn count_single_file() {
    let dir = tempfile::tempdir().expect("failed to create temp dir");
    let file = write_lines(&dir, "hello.txt", 3);

    let config = CountConfig {
        paths: vec![file.clone()],
        extensions: vec![],
        globs: vec![],
        use_ignore: true,
        sort: SortOrder::Lines,
    };
    let result = count(&config);

    assert_eq!(result.files.len(), 1);
    assert_eq!(result.files[0].path, file);
    assert_eq!(result.files[0].lines, 3);
    assert_eq!(result.total_lines, 3);
    assert_eq!(result.total_files, 1);
}

#[test]
fn count_directory() {
    let dir = tempfile::tempdir().expect("failed to create temp dir");
    write_lines(&dir, "a.rs", 1);
    write_lines(&dir, "b.rs", 2);

    let result = count(&dir_config(&dir, SortOrder::Name));

    assert_eq!(result.files.len(), 2);
    assert!(result.files[0].path.ends_with("a.rs"));
    assert_eq!(result.files[0].lines, 1);
    assert!(result.files[1].path.ends_with("b.rs"));
    assert_eq!(result.files[1].lines, 2);
    assert_eq!(result.total_lines, 3);
    assert_eq!(result.total_files, 2);
}

#[test]
fn count_with_extension_filter() {
    let dir = tempfile::tempdir().expect("failed to create temp dir");
    write_lines(&dir, "code.rs", 1);
    write_lines(&dir, "readme.md", 1);
    write_lines(&dir, "data.json", 1);

    let mut config = dir_config(&dir, SortOrder::Name);
    config.extensions = vec!["rs".to_string()];
    let result = count(&config);

    assert_eq!(result.files.len(), 1);
    assert!(result.files[0].path.ends_with("code.rs"));
    assert_eq!(result.files[0].lines, 1);
    assert_eq!(result.total_lines, 1);
    assert_eq!(result.total_files, 1);
}

#[test]
fn count_json_output() {
    let dir = tempfile::tempdir().expect("failed to create temp dir");
    write_lines(&dir, "test.txt", 2);

    let result = count(&dir_config(&dir, SortOrder::Lines));

    assert_eq!(result.total_lines, 2);
    assert_eq!(result.total_files, 1);
}

#[test]
fn count_summary_output() {
    let dir = tempfile::tempdir().expect("failed to create temp dir");
    write_lines(&dir, "a.rs", 2);
    write_lines(&dir, "b.rs", 1);

    let result = count(&dir_config(&dir, SortOrder::Lines));

    assert_eq!(result.total_lines, 3);
    assert_eq!(result.total_files, 2);
    assert_eq!(result.by_extension.len(), 1);
    assert_eq!(result.by_extension[0].extension, "rs");
    assert_eq!(result.by_extension[0].total_lines, 3);
    assert_eq!(result.by_extension[0].file_count, 2);
}

#[test]
fn count_empty_directory() {
    let dir = tempfile::tempdir().expect("failed to create temp dir");

    let result = count(&dir_config(&dir, SortOrder::Lines));

    assert_eq!(result.files.len(), 0);
    assert_eq!(result.total_lines, 0);
    assert_eq!(result.total_files, 0);
    assert_eq!(result.by_extension.len(), 0);
}

#[test]
fn count_nonexistent_path() {
    let dir = tempfile::tempdir().expect("failed to create temp dir");
    let missing = dir.path().join("nonexistent").to_string_lossy().into_owned();

    let config = CountConfig {
        paths: vec![missing],
        extensions: vec![],
        globs: vec![],
        use_ignore: true,
        sort: SortOrder::Lines,
    };
    let result = count(&config);

    assert_eq!(result.files.len(), 0);
    assert_eq!(result.total_lines, 0);
    assert_eq!(result.total_files, 0);
    assert_eq!(result.by_extension.len(), 0);
}

#[test]
fn top_truncates_table_output() {
    let dir = tempfile::tempdir().expect("failed to create temp dir");
    write_lines(&dir, "a.rs", 10);
    write_lines(&dir, "b.rs", 5);
    write_lines(&dir, "c.rs", 1);

    let result = count(&dir_config(&dir, SortOrder::Lines));
    let shown = take_top(&result.files, 2);

    assert_eq!(shown.len(), 2);
    assert!(shown[0].path.ends_with("a.rs"));
    assert_eq!(shown[0].lines, 10);
    assert!(shown[1].path.ends_with("b.rs"));
    assert_eq!(shown[1].lines, 5);
    assert_eq!(result.total_lines, 16);
    assert_eq!(result.total_files, 3);
}

#[test]
fn top_truncates_json_output() {
    let dir = tempfile::tempdir().expect("failed to create temp dir");
    write_lines(&dir, "a.rs", 10);
    write_lines(&dir, "b.rs", 5);
    write_lines(&dir, "c.rs", 1);

    let result = count(&dir_config(&dir, SortOrder::Lines));
    let shown = take_top(&result.files, 2);

    assert_eq!(shown.len(), 2);
    assert_eq!(result.total_lines, 16);
    assert_eq!(result.total_files, 3);
}

#[test]
fn top_is_noop_for_summary() {
    let dir = tempfile::tempdir().expect("failed to create temp dir");
    write_lines(&dir, "a.rs", 10);
    write_lines(&dir, "b.rs", 5);

    let result = count(&dir_config(&dir, SortOrder::Lines));

    assert_eq!(result.total_lines, 15);
    assert_eq!(result.total_files, 2);
    assert_eq!(result.by_extension.len(), 1);
    assert_eq!(result.by_extension[0].extension, "rs");
    assert_eq!(result.by_extension[0].total_lines, 15);
    assert_eq!(result.by_extension[0].file_count, 2);
}

#[test]
fn top_zero_shows_no_files() {
    let dir = tempfile::tempdir().expect("failed to create temp dir");
    write_lines(&dir, "a.rs", 10);

    let result = count(&dir_config(&dir, SortOrder::Lines));
    let shown = take_top(&result.files, 0);

    assert_eq!(shown.len(), 0);
    assert_eq!(result.total_lines, 10);
    assert_eq!(result.total_files, 1);
}

#[test]
fn top_larger_than_file_count_shows_all() {
    let dir = tempfile::tempdir().expect("failed to create temp dir");
    write_lines(&dir, "a.rs", 5);
    write_lines(&dir, "b.rs", 3);

    let result = count(&dir_config(&dir, SortOrder::Name));
    let shown = take_top(&result.files, 100);

    assert_eq!(shown.len(), 2);
    assert!(shown[0].path.ends_with("a.rs"));
    assert_eq!(shown[0].lines, 5);
    assert!(shown[1].path.ends_with("b.rs"));
    assert_eq!(shown[1].lines, 3);
    assert_eq!(result.total_lines, 8);
    assert_eq!(result.total_files, 2);
}
