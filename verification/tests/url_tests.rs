use age_inbox_cli::paths::LocalPath;
use age_inbox_cli::upload::{remote_dir_of, upload_url};
use age_inbox_cli::urls::{fits_in_url, server_base_url, vault_url, vault_url_with_path, UrlError};

#[test]
fn vault_endpoint_urls() {
    assert_eq!(
        vault_url("http://127.0.0.1:3000", "myvault", "config").unwrap(),
        "http://127.0.0.1:3000/inbox/myvault/config"
    );
    assert_eq!(
        vault_url("https://api.example.com/base", "client-x", "unlock").unwrap(),
        "https://api.example.com/base/inbox/client-x/unlock"
    );
}

#[test]
fn vault_endpoint_with_path() {
    assert_eq!(
        vault_url_with_path("http://h:1", "myvault", "download", "test_folder/secret.txt.age")
            .unwrap(),
        "http://h:1/inbox/myvault/download/test_folder/secret.txt.age"
    );
    assert_eq!(
        vault_url_with_path("http://h:1", "v", "delete", "./a//b/").unwrap(),
        "http://h:1/inbox/v/delete/a/b"
    );
    assert_eq!(
        vault_url_with_path("http://h:1", "v", "download", "a b").unwrap(),
        "http://h:1/inbox/v/download/a%20b"
    );
}

#[test]
fn empty_path_gives_plain_endpoint() {
    assert_eq!(
        vault_url_with_path("http://h:1", "v", "upload", "").unwrap(),
        vault_url("http://h:1", "v", "upload").unwrap()
    );
    assert_eq!(
        vault_url_with_path("http://h:1", "v", "upload", "/./").unwrap(),
        vault_url("http://h:1", "v", "upload").unwrap()
    );
}

#[test]
fn bad_server_urls() {
    assert_eq!(vault_url("not a url", "v", "config"), Err(UrlError::InvalidServerUrl));
    assert_eq!(vault_url("mailto:someone@example.com", "v", "config"), Err(UrlError::CannotBeABase));
    assert_eq!(
        vault_url_with_path("mailto:x@y", "v", "download", "a"),
        Err(UrlError::CannotBeABase)
    );
}

#[test]
fn trailing_slashes_of_server_are_dropped() {
    assert_eq!(server_base_url("http://127.0.0.1:3000/"), "http://127.0.0.1:3000");
    assert_eq!(server_base_url("http://h///"), "http://h");
    assert_eq!(server_base_url("http://h"), "http://h");
    assert_eq!(server_base_url("///"), "");
}

#[test]
fn upload_folders_and_endpoints() {
    let folder = Some(LocalPath::parse("/tmp/batch"));
    let root_file = LocalPath::parse("/tmp/batch/a.txt");
    let nested_file = LocalPath::parse("/tmp/batch/nested/b.txt");
    let root_dir = remote_dir_of(&folder, &root_file).unwrap();
    let nested_dir = remote_dir_of(&folder, &nested_file).unwrap();
    let (root_url, root_text) = upload_url("http://h", "myvault", &root_dir);
    let (nested_url, nested_text) = upload_url("http://h", "myvault", &nested_dir);
    assert_eq!(root_text, "");
    assert_eq!(root_url.unwrap(), "http://h/inbox/myvault/upload");
    assert_eq!(nested_text, "nested");
    assert_eq!(nested_url.unwrap(), "http://h/inbox/myvault/upload/nested");
    assert!(remote_dir_of(&folder, &LocalPath::parse("/elsewhere/c.txt")).is_none());
    let single = remote_dir_of(&None, &LocalPath::parse("/tmp/x/upload.txt")).unwrap();
    assert_eq!(single.components.len(), 0);
}

#[test]
fn url_length_bound_counts_slash_and_twelve_bytes_per_char() {
    let max: usize = 4_294_967_295;
    assert!(fits_in_url(0, &vec![]));
    assert!(fits_in_url(max, &vec![]));
    assert!(!fits_in_url(max + 1, &vec![]));
    assert!(fits_in_url(max - 37, &vec!["abc".to_string()]));
    assert!(!fits_in_url(max - 36, &vec!["abc".to_string()]));
    assert!(fits_in_url(max - 13 - 13, &vec!["é".to_string(), "x".to_string()]));
    assert!(!fits_in_url(max - 13 - 12, &vec!["é".to_string(), "x".to_string()]));
}

#[test]
fn plain_path_is_appended_to_the_operation_url_as_is() {
    let base = vault_url("http://h:1", "myvault", "download").unwrap();
    assert_eq!(
        vault_url_with_path("http://h:1", "myvault", "download", "a/b-c_d.e~f").unwrap(),
        format!("{}/a/b-c_d.e~f", base)
    );
    assert_eq!(
        vault_url_with_path("http://h:1", "myvault", "download", "a//./b-c_d.e~f/").unwrap(),
        format!("{}/a/b-c_d.e~f", base)
    );
    let https = vault_url("https://api.example.com/base", "v", "upload").unwrap();
    assert_eq!(
        vault_url_with_path("https://api.example.com/base", "v", "upload", "x/y").unwrap(),
        format!("{}/x/y", https)
    );
}
