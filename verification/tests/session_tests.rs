use age_inbox_cli::cli::{Args, Command, DownloadArgs, ListedFile, UploadArgs};
use age_inbox_cli::download::TransferStep;
use age_inbox_cli::error::CliError;
use age_inbox_cli::paths::{LocalPath, PathComponent};
use age_inbox_cli::session::{Session, Stage, Step};

fn text(p: &LocalPath) -> String {
    let parts: Vec<String> = p
        .components
        .iter()
        .map(|c| match c {
            PathComponent::RootDir => String::new(),
            PathComponent::CurDir => ".".to_string(),
            PathComponent::ParentDir => "..".to_string(),
            PathComponent::Normal(s) => s.clone(),
            PathComponent::NonUnicode(b) => String::from_utf8_lossy(b).into_owned(),
        })
        .collect();
    parts.join("/")
}

fn download_args(file: Option<&str>, delete: bool) -> Args {
    Args {
        server: "http://127.0.0.1:3000/".to_string(),
        vault: "myvault".to_string(),
        pin_cert: None,
        command: Command::Download(DownloadArgs {
            dest: LocalPath::parse("/tmp/dest"),
            file: file.map(|f| f.to_string()),
            delete,
        }),
    }
}

fn upload_args(file: Option<&str>, folder: Option<&str>, delete: bool) -> Args {
    Args {
        server: "http://127.0.0.1:3000".to_string(),
        vault: "myvault".to_string(),
        pin_cert: Some(LocalPath::parse("server.pem")),
        command: Command::Upload(UploadArgs {
            file: file.map(LocalPath::parse),
            folder: folder.map(LocalPath::parse),
            delete_after_upload: delete,
        }),
    }
}

/// Walks a session through client building and the vault check.
fn past_vault_check(args: Args) -> (Session<String>, Step<String>) {
    let (mut s, step) = Session::<String>::new(args);
    assert!(matches!(step, Step::BuildClient { .. }));
    match s.client_built(Ok(())) {
        Step::CheckVault { url } => assert_eq!(url, "http://127.0.0.1:3000/inbox/myvault/raw/list"),
        _ => panic!("expected the vault check"),
    }
    let next = s.vault_checked(Ok(200));
    (s, next)
}

#[test]
fn full_vault_download_with_delete_locks_and_succeeds() {
    let (mut s, step) = past_vault_check(download_args(None, true));
    match step {
        Step::Unlock { url } => assert_eq!(url, "http://127.0.0.1:3000/inbox/myvault/unlock"),
        _ => panic!("expected unlock"),
    }
    match s.unlocked(Ok(200)) {
        Step::PrepareDestination { dest } => assert_eq!(text(&dest), "/tmp/dest"),
        _ => panic!("expected the destination"),
    }
    match s.destination_prepared(Ok(())) {
        Step::ListFiles { url } => assert_eq!(url, "http://127.0.0.1:3000/inbox/myvault/list"),
        _ => panic!("expected the list"),
    }
    assert!(matches!(s.list_answered(Ok(200)), Step::ReadFileList));
    let files = vec![
        ListedFile {
            path: "test_folder/secret.txt.age".to_string(),
            filename: Some("secret.txt".to_string()),
            origin: None,
            size: 11,
        },
        ListedFile {
            path: "second_folder/note.txt.age".to_string(),
            filename: Some("note.txt".to_string()),
            origin: None,
            size: 11,
        },
    ];
    let tasks = match s.list_read(Ok(files)) {
        Step::DownloadAll { tasks } => tasks,
        _ => panic!("expected downloads"),
    };
    assert_eq!(tasks.len(), 2);
    let mut targets = Vec::new();
    let mut deletes = Vec::new();
    for mut task in tasks {
        task.start::<String>();
        match task.response::<String>(Ok(200), None) {
            TransferStep::Write { target } => targets.push(text(&target)),
            _ => panic!("expected a write"),
        }
        match task.written::<String>(Ok(())) {
            TransferStep::DeleteRemote { url } => deletes.push(url),
            _ => panic!("expected a delete"),
        }
    }
    assert_eq!(targets, vec!["/tmp/dest/test_folder/secret.txt", "/tmp/dest/second_folder/note.txt"]);
    assert_eq!(
        deletes,
        vec![
            "http://127.0.0.1:3000/inbox/myvault/delete/test_folder/secret.txt.age",
            "http://127.0.0.1:3000/inbox/myvault/delete/second_folder/note.txt.age",
        ]
    );
    match s.all_downloaded() {
        Step::Lock { url } => assert_eq!(url, "http://127.0.0.1:3000/inbox/myvault/lock"),
        _ => panic!("expected lock"),
    }
    assert!(matches!(s.locked(), Step::Finish { result: Ok(()) }));
    assert_eq!(s.current_stage(), Stage::Finished);
}

#[test]
fn single_file_download_keeps_its_outcome_through_locking() {
    let (mut s, _) = past_vault_check(download_args(Some("test_folder/secret.txt.age"), false));
    s.unlocked(Ok(200));
    let mut task = match s.destination_prepared(Ok(())) {
        Step::DownloadFile { task } => task,
        _ => panic!("expected one download"),
    };
    task.start::<String>();
    match task.response::<String>(Ok(200), None) {
        TransferStep::Write { target } => assert_eq!(text(&target), "/tmp/dest/test_folder/secret.txt"),
        _ => panic!("expected a write"),
    }
    assert!(matches!(task.written::<String>(Ok(())), TransferStep::Done { result: Ok(()), .. }));
    assert!(matches!(
        s.file_downloaded(Err(CliError::DownloadFailed { status: 500 })),
        Step::Lock { .. }
    ));
    assert!(matches!(
        s.locked(),
        Step::Finish { result: Err(CliError::DownloadFailed { status: 500 }) }
    ));
}

#[test]
fn empty_vault_and_list_failures_still_lock() {
    let (mut s, _) = past_vault_check(download_args(None, false));
    s.unlocked(Ok(204));
    s.destination_prepared(Ok(()));
    s.list_answered(Ok(200));
    assert!(matches!(s.list_read(Ok(Vec::new())), Step::Lock { .. }));
    assert!(matches!(s.locked(), Step::Finish { result: Ok(()) }));

    let (mut s, _) = past_vault_check(download_args(None, false));
    s.unlocked(Ok(200));
    s.destination_prepared(Ok(()));
    assert!(matches!(s.list_answered(Ok(403)), Step::Lock { .. }));
    assert!(matches!(s.locked(), Step::Finish { result: Err(CliError::ListFailed { status: 403 }) }));

    let (mut s, _) = past_vault_check(download_args(None, false));
    s.unlocked(Ok(200));
    assert!(matches!(s.destination_prepared(Err("cannot create".to_string())), Step::Lock { .. }));
    assert!(matches!(s.locked(), Step::Finish { result: Err(CliError::External(_)) }));
}

#[test]
fn vault_check_and_unlock_failures_end_without_lock() {
    let (mut s, _) = Session::<String>::new(download_args(None, false));
    s.client_built(Ok(()));
    match s.vault_checked(Ok(404)) {
        Step::Finish { result: Err(CliError::VaultNotFound { vault }) } => assert_eq!(vault, "myvault"),
        _ => panic!("expected not found"),
    }
    let (mut s, _) = Session::<String>::new(download_args(None, false));
    s.client_built(Ok(()));
    assert!(matches!(
        s.vault_checked(Ok(500)),
        Step::Finish { result: Err(CliError::VaultQueryFailed { status: 500 }) }
    ));
    let (mut s, _) = past_vault_check(download_args(None, false));
    assert!(matches!(
        s.unlocked(Ok(401)),
        Step::Finish { result: Err(CliError::UnlockFailed { status: 401 }) }
    ));
}

#[test]
fn invalid_server_url_ends_the_run() {
    let mut args = download_args(None, false);
    args.server = "not a url".to_string();
    let (mut s, _) = Session::<String>::new(args);
    assert!(matches!(s.client_built(Ok(())), Step::Finish { result: Err(CliError::Url(_)) }));
    let (mut s, _) = Session::<String>::new(download_args(None, false));
    assert!(matches!(
        s.client_built(Err("bad certificate".to_string())),
        Step::Finish { result: Err(CliError::External(_)) }
    ));
}

#[test]
fn single_file_upload_goes_to_the_vault_root() {
    let (mut s, step) = past_vault_check(upload_args(Some("/tmp/x/upload.txt"), None, false));
    match step {
        Step::CheckLocalFile { path } => assert_eq!(text(&path), "/tmp/x/upload.txt"),
        _ => panic!("expected the file check"),
    }
    match s.local_file_checked(true) {
        Step::Upload { request } => {
            assert_eq!(text(&request.local), "/tmp/x/upload.txt");
            assert_eq!(request.filename, "upload.txt");
            assert_eq!(request.url, "http://127.0.0.1:3000/inbox/myvault/upload");
            assert_eq!(request.remote_dir, "");
        }
        _ => panic!("expected the upload"),
    }
    assert!(matches!(s.uploaded(Ok((200, String::new()))), Step::Finish { result: Ok(()) }));
}

#[test]
fn folder_upload_deletes_each_file_after_its_upload() {
    let (mut s, step) = past_vault_check(upload_args(None, Some("/tmp/batch"), true));
    match step {
        Step::ScanFolder { folder } => assert_eq!(text(&folder), "/tmp/batch"),
        _ => panic!("expected the scan"),
    }
    let files = vec![LocalPath::parse("/tmp/batch/a.txt"), LocalPath::parse("/tmp/batch/nested/b.txt")];
    match s.folder_scanned(Ok(files)) {
        Step::CheckLocalFile { path } => assert_eq!(text(&path), "/tmp/batch/a.txt"),
        _ => panic!("expected the first file"),
    }
    let mut remote_dirs = Vec::new();
    match s.local_file_checked(true) {
        Step::Upload { request } => remote_dirs.push(request.remote_dir),
        _ => panic!("expected an upload"),
    }
    match s.uploaded(Ok((200, String::new()))) {
        Step::RemoveLocalFile { path } => assert_eq!(text(&path), "/tmp/batch/a.txt"),
        _ => panic!("expected the local delete"),
    }
    match s.local_file_removed(Ok(())) {
        Step::CheckLocalFile { path } => assert_eq!(text(&path), "/tmp/batch/nested/b.txt"),
        _ => panic!("expected the second file"),
    }
    match s.local_file_checked(true) {
        Step::Upload { request } => {
            assert_eq!(request.url, "http://127.0.0.1:3000/inbox/myvault/upload/nested");
            remote_dirs.push(request.remote_dir)
        }
        _ => panic!("expected an upload"),
    }
    assert!(matches!(s.uploaded(Ok((201, String::new()))), Step::RemoveLocalFile { .. }));
    assert!(matches!(s.local_file_removed(Ok(())), Step::Finish { result: Ok(()) }));
    assert_eq!(remote_dirs, vec!["", "nested"]);
}

#[test]
fn refused_upload_stops_before_deleting() {
    let (mut s, _) = past_vault_check(upload_args(None, Some("/tmp/batch"), true));
    s.folder_scanned(Ok(vec![LocalPath::parse("/tmp/batch/a.txt"), LocalPath::parse("/tmp/batch/b.txt")]));
    s.local_file_checked(true);
    match s.uploaded(Ok((413, "too large".to_string()))) {
        Step::Finish { result: Err(CliError::UploadFailed { path, status, body }) } => {
            assert_eq!(text(&path), "/tmp/batch/a.txt");
            assert_eq!(status, 413);
            assert_eq!(body, "too large");
        }
        _ => panic!("expected the failure"),
    }
}

#[test]
fn upload_source_must_be_exactly_one() {
    let (_, step) = past_vault_check(upload_args(None, None, false));
    assert!(matches!(step, Step::Finish { result: Err(CliError::NoUploadSource) }));
    let (_, step) = past_vault_check(upload_args(Some("a"), Some("b"), false));
    assert!(matches!(step, Step::Finish { result: Err(CliError::NoUploadSource) }));
}

#[test]
fn upload_checks_of_local_files() {
    let (mut s, _) = past_vault_check(upload_args(Some("/tmp/missing.txt"), None, false));
    assert!(matches!(s.local_file_checked(false), Step::Finish { result: Err(CliError::LocalFileMissing { .. }) }));
    let (mut s, _) = past_vault_check(upload_args(Some("/tmp/.."), None, false));
    assert!(matches!(s.local_file_checked(true), Step::Finish { result: Err(CliError::UploadFilenameUnresolved) }));
    let (mut s, _) = past_vault_check(upload_args(None, Some("/tmp/batch"), false));
    assert!(matches!(s.folder_scanned(Ok(Vec::new())), Step::Finish { result: Ok(()) }));
    let (mut s, _) = past_vault_check(upload_args(None, Some("/tmp/batch"), false));
    assert!(matches!(
        s.folder_scanned(Ok(vec![LocalPath::parse("/other/a.txt")])),
        Step::Finish { result: Err(CliError::RelativePathFailed { .. }) }
    ));
}

#[test]
fn upload_of_a_name_that_is_not_text_is_refused() {
    let mut args = upload_args(Some("/tmp/x"), None, false);
    if let Command::Upload(u) = &mut args.command {
        let mut file = LocalPath::parse("/tmp");
        file.components.push(PathComponent::NonUnicode(vec![0x66, 0xff]));
        u.file = Some(file);
    }
    let (mut s, step) = past_vault_check(args);
    assert!(matches!(step, Step::CheckLocalFile { .. }));
    assert!(matches!(
        s.local_file_checked(true),
        Step::Finish { result: Err(CliError::UploadFilenameUnresolved) }
    ));
}

#[test]
fn trailing_slashes_of_the_server_change_no_url() {
    let mut with_slashes = download_args(None, false);
    with_slashes.server = "http://h/api///".to_string();
    let mut without = download_args(None, false);
    without.server = "http://h/api".to_string();
    let urls = |args: Args| {
        let (mut s, _) = Session::<String>::new(args);
        let check = match s.client_built(Ok(())) {
            Step::CheckVault { url } => url,
            _ => panic!("expected the vault check"),
        };
        let unlock = match s.vault_checked(Ok(200)) {
            Step::Unlock { url } => url,
            _ => panic!("expected unlock"),
        };
        (check, unlock)
    };
    let a = urls(with_slashes);
    let b = urls(without);
    assert_eq!(a, b);
    assert_eq!(a.0, "http://h/api/inbox/myvault/raw/list");
}

#[test]
fn folder_upload_without_delete_goes_through_files_in_order() {
    let (mut s, step) = past_vault_check(upload_args(None, Some("/tmp/batch"), false));
    assert!(matches!(step, Step::ScanFolder { .. }));
    let files = vec![
        LocalPath::parse("/tmp/batch/a.txt"),
        LocalPath::parse("/tmp/batch/x/y/b.txt"),
        LocalPath::parse("/tmp/batch/z.txt"),
    ];
    let mut seen = Vec::new();
    let mut step = s.folder_scanned(Ok(files));
    loop {
        match step {
            Step::CheckLocalFile { path } => {
                seen.push(format!("check {}", text(&path)));
                step = s.local_file_checked(true);
            }
            Step::Upload { request } => {
                seen.push(format!("upload {} {} {}", text(&request.local), request.filename, request.url));
                step = s.uploaded(Ok((200, String::new())));
            }
            Step::Finish { result } => {
                assert!(result.is_ok());
                break;
            }
            _ => panic!("unexpected step"),
        }
    }
    assert_eq!(
        seen,
        vec![
            "check /tmp/batch/a.txt",
            "upload /tmp/batch/a.txt a.txt http://127.0.0.1:3000/inbox/myvault/upload",
            "check /tmp/batch/x/y/b.txt",
            "upload /tmp/batch/x/y/b.txt b.txt http://127.0.0.1:3000/inbox/myvault/upload/x/y",
            "check /tmp/batch/z.txt",
            "upload /tmp/batch/z.txt z.txt http://127.0.0.1:3000/inbox/myvault/upload",
        ]
    );
    assert_eq!(s.current_stage(), Stage::Finished);
}
