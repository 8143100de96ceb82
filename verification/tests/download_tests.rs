use age_inbox_cli::download::{normalize_remote_path, target_path, FileDownload, TransferStep};
use age_inbox_cli::error::CliError;
use age_inbox_cli::paths::{LocalPath, PathComponent};

fn text(p: &LocalPath) -> String {
    let parts: Vec<String> = p
        .components
        .iter()
        .map(|c| match c {
            PathComponent::RootDir => String::new(),
            PathComponent::CurDir => ".".to_string(),
            PathComponent::ParentDir => "..".to_string(),
            PathComponent::Normal(s) => s.clone(),
            PathComponent::NonUnicode(b) => String::from_utf8_lossy(b).into_owned(),
        })
        .collect();
    parts.join("/")
}

#[test]
fn target_strips_age_suffix_and_keeps_remote_folder() {
    let dest = LocalPath::parse("/dest");
    let t = target_path(&dest, "test_folder/secret.txt.age", &None, &None);
    assert_eq!(text(&t), "/dest/test_folder/secret.txt");
    let t = target_path(&dest, "second_folder/note.txt.age", &None, &None);
    assert_eq!(text(&t), "/dest/second_folder/note.txt");
    let t = target_path(&dest, "plain.bin", &None, &None);
    assert_eq!(text(&t), "/dest/plain.bin");
    let t = target_path(&dest, "x.age.age", &None, &None);
    assert_eq!(text(&t), "/dest/x.age");
}

#[test]
fn target_prefers_metadata_then_header() {
    let dest = LocalPath::parse("/dest");
    let header = Some("attachment; filename=\"from-header.pdf\"".to_string());
    let t = target_path(&dest, "f/enc.age", &Some("meta.pdf".to_string()), &header);
    assert_eq!(text(&t), "/dest/f/meta.pdf");
    let t = target_path(&dest, "f/enc.age", &None, &header);
    assert_eq!(text(&t), "/dest/f/from-header.pdf");
    let t = target_path(&dest, "f/enc.age", &None, &Some("inline".to_string()));
    assert_eq!(text(&t), "/dest/f/enc");
}

#[test]
fn target_without_a_name_falls_back() {
    let dest = LocalPath::parse("/dest");
    let t = target_path(&dest, "folder/..", &None, &None);
    assert_eq!(text(&t), "/dest/folder/downloaded.bin");
}

#[test]
fn backslashes_are_normalized() {
    assert_eq!(normalize_remote_path("a\\b\\c.age"), "a/b/c.age");
}

#[test]
fn download_then_delete() {
    let dest = LocalPath::parse("/dest");
    let mut task = FileDownload::new("http://h", "myvault", &dest, true, "test_folder\\secret.txt.age", None);
    assert_eq!(task.remote_path(), "test_folder/secret.txt.age");
    match task.start::<String>() {
        TransferStep::Fetch { url } => {
            assert_eq!(url, "http://h/inbox/myvault/download/test_folder/secret.txt.age")
        }
        _ => panic!("expected a fetch"),
    }
    match task.response::<String>(Ok(200), None) {
        TransferStep::Write { target } => assert_eq!(text(&target), "/dest/test_folder/secret.txt"),
        _ => panic!("expected a write"),
    }
    match task.written::<String>(Ok(())) {
        TransferStep::DeleteRemote { url } => {
            assert_eq!(url, "http://h/inbox/myvault/delete/test_folder/secret.txt.age")
        }
        _ => panic!("expected a delete"),
    }
    match task.deleted::<String>(Ok(500)) {
        TransferStep::Done { result, refused_delete } => {
            assert!(result.is_ok());
            assert_eq!(refused_delete, Some(500));
        }
        _ => panic!("expected the end"),
    }
}

#[test]
fn download_without_delete_and_failures() {
    let dest = LocalPath::parse("d");
    let mut task = FileDownload::new("http://h", "v", &dest, false, "x.age", None);
    task.start::<String>();
    task.response::<String>(Ok(200), None);
    match task.written::<String>(Ok(())) {
        TransferStep::Done { result, refused_delete } => {
            assert!(result.is_ok());
            assert_eq!(refused_delete, None);
        }
        _ => panic!("expected the end"),
    }
    let mut failing = FileDownload::new("http://h", "v", &dest, true, "x.age", None);
    failing.start::<String>();
    match failing.response::<String>(Ok(404), None) {
        TransferStep::Done { result: Err(CliError::DownloadFailed { status }), .. } => assert_eq!(status, 404),
        _ => panic!("expected a failure"),
    }
    let mut broken = FileDownload::new("http://h", "v", &dest, true, "x.age", None);
    broken.start::<String>();
    broken.response::<String>(Ok(200), None);
    match broken.written(Err("disk full".to_string())) {
        TransferStep::Done { result: Err(CliError::External(e)), .. } => assert_eq!(e, "disk full"),
        _ => panic!("a failed write must not lead to a delete"),
    }
}

#[test]
fn download_with_bad_server_url() {
    let dest = LocalPath::parse("d");
    let mut task = FileDownload::new("::", "v", &dest, false, "x", None);
    assert!(matches!(
        task.start::<String>(),
        TransferStep::Done { result: Err(CliError::Url(_)), refused_delete: None }
    ));
}
