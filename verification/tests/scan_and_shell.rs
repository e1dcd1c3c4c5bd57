use sview::launcher::{exec_plan, extract_sview_metadata, generate_utf_thumbnail, is_sview_enhanced, ExecPlan};
use sview::scanner::{
    content_eligible, content_matches, dir_excluded, extension_accepted, name_matches,
    scan_accepts, size_within, FileEntry, FileScanner, ScannerConfig,
};
use sview::shell::{parse_shell_command, MemoryType, ShellCommand};
use sview::view::{
    entry_le, extension_of, file_name_of, layout_columns, name_column, sort_entries, str_le,
    truncate_name, SortBy,
};

fn entry(path: &str, size: u64, modified: Option<u64>) -> FileEntry {
    FileEntry {
        path: path.to_string(),
        is_dir: false,
        size,
        modified,
        file_type: Some("svg".to_string()),
    }
}

#[test]
fn test_size_window() {
    let mut cfg = ScannerConfig::default();
    assert!(size_within(&cfg, 0));
    cfg.min_size = Some(10);
    cfg.max_size = Some(100);
    assert!(!size_within(&cfg, 9));
    assert!(size_within(&cfg, 10));
    assert!(size_within(&cfg, 100));
    assert!(!size_within(&cfg, 101));
}

#[test]
fn test_extension_filter() {
    let mut cfg = ScannerConfig::default();
    assert!(extension_accepted(&cfg, &Some("png".to_string())));
    assert!(extension_accepted(&cfg, &None));
    cfg.extensions = Some(vec!["svg".to_string(), "png".to_string()]);
    assert!(extension_accepted(&cfg, &Some("SVG".to_string())));
    assert!(extension_accepted(&cfg, &Some("png".to_string())));
    assert!(!extension_accepted(&cfg, &Some("jpg".to_string())));
    assert!(!extension_accepted(&cfg, &None));
    assert!(scan_accepts(&cfg, &Some("svg".to_string()), 5));
}

#[test]
fn test_excluded_dirs() {
    let cfg = ScannerConfig::default();
    assert!(dir_excluded(&cfg, ".git"));
    assert!(dir_excluded(&cfg, ".GIT"));
    assert!(dir_excluded(&cfg, "node_modules"));
    assert!(!dir_excluded(&cfg, "src"));
}

#[test]
fn test_scanner_construction() {
    let scanner = FileScanner::new();
    assert!(scanner.config().recursive);
    let mut cfg = ScannerConfig::default();
    cfg.recursive = false;
    let scanner = scanner.with_config(cfg);
    assert!(!scanner.config().recursive);
}

#[test]
fn test_name_matching() {
    assert!(name_matches(".*", "anything.svg", false));
    assert!(name_matches("log", "catalog.svg", false));
    assert!(!name_matches("Log", "catalog.svg", false));
    assert!(name_matches("Log", "catalog.svg", true));
    assert!(!name_matches("zzz", "catalog.svg", false));
}

#[test]
fn test_content_matching() {
    assert!(content_eligible(true, 10));
    assert!(!content_eligible(true, 10_000_000));
    assert!(!content_eligible(false, 10));
    assert!(content_matches("needle", b"hay needle hay", false));
    assert!(content_matches("NEEDLE", b"hay needle hay", true));
    assert!(!content_matches("NEEDLE", b"hay needle hay", false));
}

#[test]
fn test_entry_order() {
    let a = entry("dir/alpha.svg", 10, Some(100));
    let b = entry("dir/beta.svg", 5, Some(200));
    assert!(entry_le(SortBy::Name, &a, &b));
    assert!(!entry_le(SortBy::Name, &b, &a));
    assert!(entry_le(SortBy::Size, &b, &a));
    assert!(entry_le(SortBy::Modified, &a, &b));
    let c = entry("dir/gamma.svg", 5, None);
    assert!(entry_le(SortBy::Modified, &c, &a));
}

#[test]
fn test_sort_entries_orders_listing() {
    let mut entries = vec![
        entry("d/charlie.svg", 3, Some(30)),
        entry("d/alpha.svg", 2, Some(10)),
        entry("d/bravo.svg", 1, Some(20)),
    ];
    sort_entries(&mut entries, SortBy::Name);
    let names: Vec<&str> = entries.iter().map(|e| e.path.as_str()).collect();
    assert_eq!(names, vec!["d/alpha.svg", "d/bravo.svg", "d/charlie.svg"]);
    sort_entries(&mut entries, SortBy::Size);
    let sizes: Vec<u64> = entries.iter().map(|e| e.size).collect();
    assert_eq!(sizes, vec![1, 2, 3]);
    sort_entries(&mut entries, SortBy::Modified);
    let stamps: Vec<Option<u64>> = entries.iter().map(|e| e.modified).collect();
    assert_eq!(stamps, vec![Some(10), Some(20), Some(30)]);
}

#[test]
fn test_sort_by_words() {
    assert_eq!(SortBy::default(), SortBy::Name);
    assert_eq!(SortBy::Name.as_str(), "name");
    assert_eq!(SortBy::Size.as_str(), "size");
    assert_eq!(SortBy::Modified.as_str(), "modified");
}

#[test]
fn test_path_parts() {
    assert_eq!(file_name_of("a/b/c.svg"), "c.svg");
    assert_eq!(file_name_of("plain.svg"), "plain.svg");
    assert_eq!(file_name_of("dir/"), "");
    assert_eq!(extension_of("c.svg"), "svg");
    assert_eq!(extension_of("archive.tar.gz"), "gz");
    assert_eq!(extension_of("noext"), "");
    assert!(str_le("alpha", "beta"));
    assert!(str_le("abc", "abcd"));
    assert!(!str_le("abcd", "abc"));
}

#[test]
fn test_truncate_name_column() {
    assert_eq!(truncate_name("short.svg", 12), "short.svg   ");
    // 20 characters cut to 10: 4 head characters, the dots, "svg".
    assert_eq!(truncate_name("averylongname123.svg", 10), "aver...svg");
}

#[test]
fn test_layout() {
    assert_eq!(layout_columns(80, 16), 4);
    assert_eq!(layout_columns(10, 30), 1);
    let entries = vec![entry("d/ab.svg", 1, None), entry("d/abcdef.svg", 1, None)];
    assert_eq!(name_column(&entries), 10);
    let none: Vec<FileEntry> = Vec::new();
    assert_eq!(name_column(&none), 20);
}

#[test]
fn test_shell_words() {
    let args: Vec<String> = Vec::new();
    assert!(matches!(parse_shell_command(&args), ShellCommand::Empty));

    let args: Vec<String> = vec!["ls".into(), "pics".into(), "-l".into()];
    match parse_shell_command(&args) {
        ShellCommand::List { path, long, reverse } => {
            assert_eq!(path, "pics");
            assert!(long);
            assert!(!reverse);
        }
        _ => panic!("expected a listing"),
    }

    let args: Vec<String> = vec!["view".into(), "a.svg".into(), "--sort".into(), "SIZE".into(), "-r".into()];
    match parse_shell_command(&args) {
        ShellCommand::View { path, browser, long, sort, reverse } => {
            assert_eq!(path, "a.svg");
            assert!(!browser);
            assert!(!long);
            assert_eq!(sort, SortBy::Size);
            assert!(reverse);
        }
        _ => panic!("expected a view"),
    }

    let args: Vec<String> = vec!["view".into()];
    assert!(matches!(parse_shell_command(&args), ShellCommand::ViewMissingFile));

    let args: Vec<String> = vec!["mem".into()];
    assert!(matches!(parse_shell_command(&args), ShellCommand::Memory));

    let args: Vec<String> = vec!["bogus".into()];
    match parse_shell_command(&args) {
        ShellCommand::Unknown(w) => assert_eq!(w, "bogus"),
        _ => panic!("expected an unknown word"),
    }
}

#[test]
fn test_memory_type_words() {
    assert_eq!(MemoryType::Factual.as_str(), "factual");
    assert_eq!(MemoryType::Episodic.as_str(), "episodic");
    assert_eq!(MemoryType::Semantic.as_str(), "semantic");
    assert_eq!(MemoryType::Working.as_str(), "working");
}

#[test]
fn test_sview_markers() {
    let enhanced = b"<svg xmlns:sview=\"x\" onclick=\"f()\" manifest>".to_vec();
    assert!(is_sview_enhanced(&enhanced));
    let meta = extract_sview_metadata(&enhanced);
    assert_eq!(meta.version, "1.0");
    assert!(!meta.memory_enabled);
    assert!(meta.pwa_capable);
    assert!(meta.interactive);
    let plain = b"<svg></svg>".to_vec();
    assert!(!is_sview_enhanced(&plain));
}

#[test]
fn test_thumbnail_priority() {
    let both = b"<svg><circle/><rect/></svg>".to_vec();
    assert_eq!(generate_utf_thumbnail(&both), "\u{1f535}");
    let rect = b"<svg><rect/></svg>".to_vec();
    assert_eq!(generate_utf_thumbnail(&rect), "\u{1f7ea}");
    let dull = b"<svg></svg>".to_vec();
    assert_eq!(generate_utf_thumbnail(&dull), "\u{1f4ca}");
}

#[test]
fn test_exec_plans() {
    assert_eq!(exec_plan("JavaScript"), ExecPlan::Node);
    assert_eq!(exec_plan("js"), ExecPlan::Node);
    assert_eq!(exec_plan("py"), ExecPlan::Python);
    assert_eq!(exec_plan("Rust"), ExecPlan::RustBuild);
    assert_eq!(exec_plan("cobol"), ExecPlan::Unsupported);
}
