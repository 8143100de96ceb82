use age_inbox_cli::paths::{path_to_url_path, LocalPath, PathComponent};
use age_inbox_cli::scan::{sort_paths, EntryKind, FolderScan};
use age_inbox_cli::error::CliError;

fn text(p: &LocalPath) -> String {
    let mut out = String::new();
    for c in &p.components {
        match c {
            PathComponent::RootDir => out.push('/'),
            other => {
                if !out.is_empty() && !out.ends_with('/') {
                    out.push('/');
                }
                match other {
                    PathComponent::CurDir => out.push('.'),
                    PathComponent::ParentDir => out.push_str(".."),
                    PathComponent::Normal(s) => out.push_str(s),
                    PathComponent::NonUnicode(b) => out.push_str(&String::from_utf8_lossy(b)),
                    PathComponent::RootDir => unreachable!(),
                }
            }
        }
    }
    out
}

#[test]
fn parse_follows_path_components() {
    let p = LocalPath::parse("./a//b/./../c/");
    assert_eq!(p.components.len(), 5);
    assert!(matches!(p.components[0], PathComponent::CurDir));
    assert!(matches!(&p.components[1], PathComponent::Normal(s) if s == "a"));
    assert!(matches!(&p.components[2], PathComponent::Normal(s) if s == "b"));
    assert!(matches!(p.components[3], PathComponent::ParentDir));
    assert!(matches!(&p.components[4], PathComponent::Normal(s) if s == "c"));
    let r = LocalPath::parse("/x/./y");
    assert_eq!(text(&r), "/x/y");
    assert_eq!(LocalPath::parse("").components.len(), 0);
    assert_eq!(text(&LocalPath::parse("a/./.")), "a");
}

#[test]
fn join_parent_file_name() {
    let dest = LocalPath::parse("/tmp/out");
    let joined = dest.join(&LocalPath::parse("test_folder")).join(&LocalPath::parse("secret.txt"));
    assert_eq!(text(&joined), "/tmp/out/test_folder/secret.txt");
    assert_eq!(text(&dest.join(&LocalPath::parse("/etc"))), "/etc");
    assert_eq!(text(&dest.join(&LocalPath::parse("./x"))), "/tmp/out/x");
    assert_eq!(text(&LocalPath::parse("").join(&LocalPath::parse("./x"))), "./x");
    assert_eq!(text(&joined.parent().unwrap()), "/tmp/out/test_folder");
    assert!(LocalPath::parse("/").parent().is_none());
    assert!(LocalPath::parse("").parent().is_none());
    assert_eq!(LocalPath::parse("a").parent().unwrap().components.len(), 0);
    assert_eq!(joined.file_name(), Some("secret.txt".to_string()));
    assert_eq!(LocalPath::parse("a/..").file_name(), None);
}

#[test]
fn strip_prefix_by_components() {
    let file = LocalPath::parse("batch/nested/b.txt");
    let rel = file.strip_prefix(&LocalPath::parse("batch")).unwrap();
    assert_eq!(text(&rel), "nested/b.txt");
    assert!(file.strip_prefix(&LocalPath::parse("bat")).is_none());
    assert_eq!(file.strip_prefix(&file).unwrap().components.len(), 0);
}

#[test]
fn url_path_of_paths() {
    assert_eq!(path_to_url_path(&LocalPath::parse("nested")), "nested");
    assert_eq!(path_to_url_path(&LocalPath::parse("./a/./b")), "a/b");
    assert_eq!(path_to_url_path(&LocalPath::parse("")), "");
    assert_eq!(path_to_url_path(&LocalPath::parse("/abs/x")), "//abs/x");
    assert_eq!(path_to_url_path(&LocalPath::parse("a\\b/c")), "a/b/c");
    assert_eq!(path_to_url_path(&LocalPath::parse("../up")), "../up");
}

#[test]
fn sorting_follows_path_order() {
    let paths = vec![
        LocalPath::parse("batch/nested/b.txt"),
        LocalPath::parse("batch/a.txt"),
        LocalPath::parse("batch/a-b.txt"),
        LocalPath::parse("batch/a/z.txt"),
    ];
    let sorted: Vec<String> = sort_paths(paths).iter().map(text).collect();
    // Components compare first: `a` < `a-b.txt` < `a.txt` < `nested`.
    assert_eq!(
        sorted,
        vec!["batch/a/z.txt", "batch/a-b.txt", "batch/a.txt", "batch/nested/b.txt"]
    );
}

#[test]
fn folder_scan_collects_files_depth_first_and_sorts() {
    let folder = LocalPath::parse("batch");
    let mut scan = FolderScan::start::<String>(&folder, true, true).unwrap();
    let first = scan.next_directory().unwrap();
    assert_eq!(text(&first), "batch");
    scan.record_entry(LocalPath::parse("batch/nested"), EntryKind::Directory);
    scan.record_entry(LocalPath::parse("batch/z.txt"), EntryKind::File);
    scan.record_entry(LocalPath::parse("batch/link"), EntryKind::Other);
    scan.record_entry(LocalPath::parse("batch/a.txt"), EntryKind::File);
    let second = scan.next_directory().unwrap();
    assert_eq!(text(&second), "batch/nested");
    scan.record_entry(LocalPath::parse("batch/nested/b.txt"), EntryKind::File);
    assert!(scan.next_directory().is_none());
    let files: Vec<String> = scan.finish().iter().map(text).collect();
    assert_eq!(files, vec!["batch/a.txt", "batch/nested/b.txt", "batch/z.txt"]);
}

#[test]
fn folder_scan_refuses_missing_or_plain_paths() {
    let folder = LocalPath::parse("nope");
    assert!(matches!(
        FolderScan::start::<String>(&folder, false, false),
        Err(CliError::FolderMissing { .. })
    ));
    assert!(matches!(
        FolderScan::start::<String>(&folder, true, false),
        Err(CliError::NotADirectory { .. })
    ));
}

#[test]
fn names_that_are_not_text_keep_their_bytes() {
    let mut p = LocalPath::parse("dir");
    p.components.push(PathComponent::NonUnicode(vec![0x66, 0xff]));
    assert_eq!(p.file_name(), None);
    assert_eq!(path_to_url_path(&p), "dir/f\u{fffd}");
    let mut q = LocalPath::parse("dir");
    q.components.push(PathComponent::Normal("f".to_string()));
    let mut r = LocalPath::parse("dir");
    r.components.push(PathComponent::Normal("g".to_string()));
    // Bytes order: "f" < [0x66, 0xff] < "g".
    assert!(q.le(&p));
    assert!(p.le(&r));
    assert!(!r.le(&p));
}

#[test]
fn url_path_of_a_relative_path_reads_back_as_itself() {
    for text in ["nested", "./a/./b", "", "a//b/", "../up/x", "x/../y", ".hidden/a.b"] {
        let r = path_to_url_path(&LocalPath::parse(text));
        assert_eq!(path_to_url_path(&LocalPath::parse(&r)), r, "for {:?}", text);
    }
    let raw = LocalPath {
        components: vec![
            PathComponent::Normal("dir".to_string()),
            PathComponent::NonUnicode(vec![0x66, 0xff]),
            PathComponent::NonUnicode(vec![0xc3]),
        ],
    };
    let r = path_to_url_path(&raw);
    assert_eq!(r, "dir/f\u{fffd}/\u{fffd}");
    assert_eq!(path_to_url_path(&LocalPath::parse(&r)), r);
}
