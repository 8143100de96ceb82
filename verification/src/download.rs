//! Downloading one vault file: where it goes, and when it may be deleted from
//! the server.
use vstd::prelude::*;
use crate::disposition::{disposition_filename, parse_content_disposition_filename};
use crate::error::CliError;
use crate::paths::{file_name_of, join_parts, parent_parts, parse_parts, LocalPath, Part};
use crate::text::{chars_of, ends_with, opt_view, replace_char, string_from_chars, strip_suffix_or_keep};
use crate::status::{is_success_status, status_is_success};
use crate::urls::{spec_vault_url_with_path, url_view, vault_url_with_path};

verus! {

/// `.age`, the suffix of encrypted files in a vault.
pub open spec fn age_suffix() -> Seq<char> {
    seq!['.', 'a', 'g', 'e']
}

/// The name a file downloaded from `remote` gets: the name from the vault's
/// metadata when there is one, else the name the server suggests in its
/// `Content-Disposition` header, else the last name of the remote path
/// (`downloaded.bin` when it has none) without its `.age` suffix.
pub open spec fn download_name(
    remote: Seq<char>,
    metadata_name: Option<Seq<char>>,
    disposition: Option<Seq<char>>,
) -> Seq<char> {
    match metadata_name {
        Some(name) => name,
        None => {
            let suggested = match disposition {
                Some(header) => disposition_filename(header),
                None => None,
            };
            match suggested {
                Some(name) => name,
                None => {
                    let base = match file_name_of(parse_parts(remote)) {
                        Some(name) => name,
                        None => "downloaded.bin"@,
                    };
                    strip_suffix_or_keep(base, age_suffix())
                },
            }
        },
    }
}

/// Where a file downloaded from `remote` is written: the destination folder,
/// then the folder of the remote path, then the download name.
pub open spec fn download_target(
    dest: Seq<Part>,
    remote: Seq<char>,
    metadata_name: Option<Seq<char>>,
    disposition: Option<Seq<char>>,
) -> Seq<Part> {
    let folder = match parent_parts(parse_parts(remote)) {
        Some(p) => p,
        None => Seq::<Part>::empty(),
    };
    join_parts(
        join_parts(dest, folder),
        parse_parts(download_name(remote, metadata_name, disposition)),
    )
}

/// Law: the name from the vault's metadata is used whenever there is one.
pub proof fn lemma_metadata_name_wins(remote: Seq<char>, name: Seq<char>, disposition: Option<Seq<char>>)
    ensures
        download_name(remote, Some(name), disposition) == name,
{
}

/// Law: without a metadata name, a file name suggested by the server is
/// preferred over the name taken from the remote path.
pub proof fn lemma_server_name_preferred(remote: Seq<char>, header: Seq<char>)
    requires
        disposition_filename(header) is Some,
    ensures
        download_name(remote, None, Some(header)) == disposition_filename(header)->0,
{
}

/// Law: otherwise an encrypted file `<folder>/<name>.age` is written to
/// `<dest>/<folder>/<name>`, when the folder is made of names and the name
/// without its suffix is a single plain name.
pub proof fn lemma_age_suffix_dropped(
    dest: Seq<Part>,
    remote: Seq<char>,
    folder: Seq<Part>,
    name: Seq<char>,
)
    requires
        parse_parts(remote) == folder.push(Part::Name(name)),
        forall|i: int| 0 <= i < folder.len() ==> #[trigger] folder[i] is Name,
        ends_with(name, age_suffix()),
        parse_parts(name.subrange(0, name.len() - 4)) == seq![
            Part::Name(name.subrange(0, name.len() - 4)),
        ],
    ensures
        download_target(dest, remote, None, None) == dest + folder + seq![
            Part::Name(name.subrange(0, name.len() - 4)),
        ],
{
    let stem = name.subrange(0, name.len() - 4);
    assert(folder.push(Part::Name(name)).drop_last() =~= folder);
    assert(download_name(remote, None, None) == stem);
    if folder.len() > 0 {
        assert(folder[0] is Name);
    }
    assert(join_parts(dest, folder) == dest + folder);
}

/// The remote path with backslashes turned into forward slashes.
pub open spec fn normalized_remote(path: Seq<char>) -> Seq<char> {
    replace_char(path, '\\', '/')
}

/// Law: normalizing a remote path changes only backslashes, each into `/`;
/// every other character stays where it is, so a path without backslashes is
/// left as it is.
pub proof fn lemma_normalizing_changes_only_backslashes(path: Seq<char>)
    ensures
        normalized_remote(path).len() == path.len(),
        forall|i: int|
            0 <= i < path.len() ==> #[trigger] normalized_remote(path)[i] == (if path[i] == '\\' {
                '/'
            } else {
                path[i]
            }),
        (forall|i: int| 0 <= i < path.len() ==> #[trigger] path[i] != '\\') ==> normalized_remote(
            path,
        ) == path,
{
    if forall|i: int| 0 <= i < path.len() ==> #[trigger] path[i] != '\\' {
        assert(normalized_remote(path) =~= path);
    }
}

/// The remote path with backslashes turned into forward slashes.
pub fn normalize_remote_path(path: &str) -> (r: String)
    ensures
        r@ == normalized_remote(path@),
{
    let chars = chars_of(path);
    let mut out: Vec<char> = Vec::new();
    let mut i: usize = 0;
    while i < chars.len()
        invariant
            chars@ == path@,
            i <= chars@.len(),
            out@ == normalized_remote(path@).take(i as int),
        decreases chars@.len() - i,
    {
        let c = chars[i];
        out.push(if c == '\\' {
            '/'
        } else {
            c
        });
        i = i + 1;
        assert(out@ =~= normalized_remote(path@).take(i as int));
    }
    assert(normalized_remote(path@).take(chars@.len() as int) =~= normalized_remote(path@));
    string_from_chars(out.as_slice())
}

/// Where a file downloaded from the (normalized) `remote` path is written.
pub fn target_path(
    dest: &LocalPath,
    remote: &str,
    metadata_name: &Option<String>,
    disposition: &Option<String>,
) -> (r: LocalPath)
    ensures
        r@ == download_target(dest@, remote@, opt_view(*metadata_name), opt_view(*disposition)),
        dest.wf() ==> r.wf(),
{
    let remote_path = LocalPath::parse(remote);
    let name: String = match metadata_name {
        Some(n) => n.clone(),
        None => {
            let suggested = match disposition {
                Some(header) => parse_content_disposition_filename(header.as_str()),
                None => None,
            };
            match suggested {
                Some(n) => n,
                None => {
                    let base: String = match remote_path.file_name() {
                        Some(b) => b,
                        None => "downloaded.bin".to_string(),
                    };
                    strip_age_suffix(&base)
                },
            }
        },
    };
    assert(name@ == download_name(remote@, opt_view(*metadata_name), opt_view(*disposition)));
    let folder = match remote_path.parent() {
        Some(p) => p,
        None => LocalPath::empty(),
    };
    let name_path = LocalPath::parse(name.as_str());
    dest.join(&folder).join(&name_path)
}

fn strip_age_suffix(name: &String) -> (r: String)
    ensures
        r@ == strip_suffix_or_keep(name@, age_suffix()),
{
    let chars = chars_of(name.as_str());
    let n = chars.len();
    if n >= 4 && chars[n - 4] == '.' && chars[n - 3] == 'a' && chars[n - 2] == 'g' && chars[n - 1]
        == 'e' {
        assert(chars@.subrange(n - 4, n as int) =~= age_suffix());
        let kept = crate::text::sub_chars(chars.as_slice(), 0, n - 4);
        string_from_chars(kept.as_slice())
    } else {
        assert(!crate::text::ends_with(chars@, age_suffix())) by {
            if n >= 4 {
                let tail = chars@.subrange(n - 4, n as int);
                if tail == age_suffix() {
                    assert(tail[0] == chars@[n - 4]);
                    assert(tail[1] == chars@[n - 3]);
                    assert(tail[2] == chars@[n - 2]);
                    assert(tail[3] == chars@[n - 1]);
                }
            }
        }
        name.clone()
    }
}

/// Where the download of one file stands.
#[derive(PartialEq, Eq, Structural, Debug, Clone, Copy)]
pub enum DownloadStage {
    /// Not started.
    Ready,
    /// Waiting for the response to the download request.
    Requesting,
    /// Waiting for the body to be written to the target file.
    Writing,
    /// Waiting for the response to the delete request.
    Deleting,
    /// Over.
    Done,
}

/// What the caller must do next for one file.
pub enum TransferStep<E> {
    /// Send `GET url`; report its status and `Content-Disposition` header
    /// with `FileDownload::response`.
    Fetch { url: String },
    /// Create the missing folders of `target`, write the response body there
    /// and report with `FileDownload::written`.
    Write { target: LocalPath },
    /// Send `DELETE url`; report its status with `FileDownload::deleted`.
    DeleteRemote { url: String },
    /// The download is over; `refused_delete` is the status with which the
    /// server refused the deletion, which is reported as a warning only.
    Done { result: Result<(), CliError<E>>, refused_delete: Option<u16> },
}

/// The download of one vault file into a destination folder.
pub struct FileDownload {
    base_url: String,
    vault: String,
    dest: LocalPath,
    delete: bool,
    remote: String,
    metadata_name: Option<String>,
    stage: DownloadStage,
}

impl FileDownload {
    pub closed spec fn stage(&self) -> DownloadStage {
        self.stage
    }

    pub closed spec fn base_url(&self) -> Seq<char> {
        self.base_url@
    }

    pub closed spec fn vault(&self) -> Seq<char> {
        self.vault@
    }

    pub closed spec fn dest(&self) -> Seq<Part> {
        self.dest@
    }

    pub closed spec fn deletes(&self) -> bool {
        self.delete
    }

    /// The remote path, backslashes already turned into forward slashes.
    pub closed spec fn remote(&self) -> Seq<char> {
        self.remote@
    }

    pub closed spec fn metadata_name(&self) -> Option<Seq<char>> {
        opt_view(self.metadata_name)
    }

    /// Whether `self` downloads the same file, in the same way, as `other`.
    pub open spec fn same_file(&self, other: Self) -> bool {
        &&& self.base_url() == other.base_url()
        &&& self.vault() == other.vault()
        &&& self.dest() == other.dest()
        &&& self.deletes() == other.deletes()
        &&& self.remote() == other.remote()
        &&& self.metadata_name() == other.metadata_name()
    }

    /// The download of `remote_path` from `vault` into `dest`, deleting the
    /// file from the server afterwards when `delete` is set.
    pub fn new(
        base_url: &str,
        vault: &str,
        dest: &LocalPath,
        delete: bool,
        remote_path: &str,
        metadata_name: Option<String>,
    ) -> (r: FileDownload)
        ensures
            r.stage() == DownloadStage::Ready,
            r.base_url() == base_url@,
            r.vault() == vault@,
            r.dest() == dest@,
            r.deletes() == delete,
            r.remote() == normalized_remote(remote_path@),
            r.metadata_name() == opt_view(metadata_name),
    {
        FileDownload {
            base_url: base_url.to_string(),
            vault: vault.to_string(),
            dest: dest.duplicate(),
            delete,
            remote: normalize_remote_path(remote_path),
            metadata_name,
            stage: DownloadStage::Ready,
        }
    }

    /// The stage the download is in.
    pub fn current_stage(&self) -> (r: DownloadStage)
        ensures
            r == self.stage(),
    {
        self.stage
    }

    /// The remote path (for messages).
    pub fn remote_path(&self) -> (r: &String)
        ensures
            r@ == self.remote(),
    {
        &self.remote
    }

    /// Starts the download: the request for the file.
    pub fn start<E>(&mut self) -> (r: TransferStep<E>)
        requires
            old(self).stage() == DownloadStage::Ready,
        ensures
            final(self).same_file(*old(self)),
            match spec_vault_url_with_path(
                old(self).base_url(),
                old(self).vault(),
                "download"@,
                old(self).remote(),
            ) {
                Ok(url) => {
                    &&& final(self).stage() == DownloadStage::Requesting
                    &&& r matches TransferStep::Fetch { url: u } && u@ == url
                },
                Err(e) => {
                    &&& final(self).stage() == DownloadStage::Done
                    &&& r matches TransferStep::Done {
                        result: Err(CliError::Url(f)),
                        refused_delete: None,
                    } && f == e
                },
            },
    {
        match vault_url_with_path(self.base_url.as_str(), self.vault.as_str(), "download", self.remote.as_str()) {
            Ok(url) => {
                self.stage = DownloadStage::Requesting;
                TransferStep::Fetch { url }
            },
            Err(e) => {
                self.stage = DownloadStage::Done;
                TransferStep::Done { result: Err(CliError::Url(e)), refused_delete: None }
            },
        }
    }
    /// The server answered the download request with `outcome` (its status, or
    /// the failure to get one) and the `Content-Disposition` header value
    /// `disposition`, when it has one that is valid text. On success the body
    /// is to be written to the target path.
    pub fn response<E>(&mut self, outcome: Result<u16, E>, disposition: Option<String>) -> (r:
        TransferStep<E>)
        requires
            old(self).stage() == DownloadStage::Requesting,
        ensures
            final(self).same_file(*old(self)),
            !(r is DeleteRemote),
            match outcome {
                Err(e) => {
                    &&& final(self).stage() == DownloadStage::Done
                    &&& r == TransferStep::<E>::Done {
                        result: Err(CliError::External(e)),
                        refused_delete: None,
                    }
                },
                Ok(status) => if is_success_status(status) {
                    &&& final(self).stage() == DownloadStage::Writing
                    &&& r matches TransferStep::Write { target } && target@ == download_target(
                        old(self).dest(),
                        old(self).remote(),
                        old(self).metadata_name(),
                        opt_view(disposition),
                    )
                } else {
                    &&& final(self).stage() == DownloadStage::Done
                    &&& r == TransferStep::<E>::Done {
                        result: Err(CliError::DownloadFailed { status }),
                        refused_delete: None,
                    }
                },
            },
    {
        match outcome {
            Err(e) => {
                self.stage = DownloadStage::Done;
                TransferStep::Done { result: Err(CliError::External(e)), refused_delete: None }
            },
            Ok(status) => {
                if status_is_success(status) {
                    let target = target_path(&self.dest, self.remote.as_str(), &self.metadata_name, &disposition);
                    self.stage = DownloadStage::Writing;
                    TransferStep::Write { target }
                } else {
                    self.stage = DownloadStage::Done;
                    TransferStep::Done {
                        result: Err(CliError::DownloadFailed { status }),
                        refused_delete: None,
                    }
                }
            },
        }
    }

    /// The body was written to the target path, or could not be (`outcome`).
    /// Only a completely written file leads to the request to delete it from
    /// the server, and only when deletion was asked for.
    pub fn written<E>(&mut self, outcome: Result<(), E>) -> (r: TransferStep<E>)
        requires
            old(self).stage() == DownloadStage::Writing,
        ensures
            final(self).same_file(*old(self)),
            match outcome {
                Err(e) => {
                    &&& final(self).stage() == DownloadStage::Done
                    &&& r == TransferStep::<E>::Done {
                        result: Err(CliError::External(e)),
                        refused_delete: None,
                    }
                },
                Ok(()) => if !old(self).deletes() {
                    &&& final(self).stage() == DownloadStage::Done
                    &&& r == TransferStep::<E>::Done { result: Ok(()), refused_delete: None }
                } else {
                    match spec_vault_url_with_path(
                        old(self).base_url(),
                        old(self).vault(),
                        "delete"@,
                        old(self).remote(),
                    ) {
                        Ok(url) => {
                            &&& final(self).stage() == DownloadStage::Deleting
                            &&& r matches TransferStep::DeleteRemote { url: u } && u@ == url
                        },
                        Err(e) => {
                            &&& final(self).stage() == DownloadStage::Done
                            &&& r == TransferStep::<E>::Done {
                                result: Err(CliError::Url(e)),
                                refused_delete: None,
                            }
                        },
                    }
                },
            },
    {
        match outcome {
            Err(e) => {
                self.stage = DownloadStage::Done;
                TransferStep::Done { result: Err(CliError::External(e)), refused_delete: None }
            },
            Ok(()) => {
                if !self.delete {
                    self.stage = DownloadStage::Done;
                    return TransferStep::Done { result: Ok(()), refused_delete: None };
                }
                match vault_url_with_path(self.base_url.as_str(), self.vault.as_str(), "delete", self.remote.as_str()) {
                    Ok(url) => {
                        self.stage = DownloadStage::Deleting;
                        TransferStep::DeleteRemote { url }
                    },
                    Err(e) => {
                        self.stage = DownloadStage::Done;
                        TransferStep::Done { result: Err(CliError::Url(e)), refused_delete: None }
                    },
                }
            },
        }
    }

    /// The server answered the delete request with `outcome`. A refusal is not
    /// a failure of the download; it is handed back for a warning.
    pub fn deleted<E>(&mut self, outcome: Result<u16, E>) -> (r: TransferStep<E>)
        requires
            old(self).stage() == DownloadStage::Deleting,
        ensures
            final(self).same_file(*old(self)),
            final(self).stage() == DownloadStage::Done,
            match outcome {
                Err(e) => r == TransferStep::<E>::Done {
                    result: Err(CliError::External(e)),
                    refused_delete: None,
                },
                Ok(status) => r == TransferStep::<E>::Done {
                    result: Ok(()),
                    refused_delete: if is_success_status(status) {
                        None
                    } else {
                        Some(status)
                    },
                },
            },
    {
        self.stage = DownloadStage::Done;
        match outcome {
            Err(e) => TransferStep::Done { result: Err(CliError::External(e)), refused_delete: None },
            Ok(status) => {
                if status_is_success(status) {
                    TransferStep::Done { result: Ok(()), refused_delete: None }
                } else {
                    TransferStep::Done { result: Ok(()), refused_delete: Some(status) }
                }
            },
        }
    }
}

} // verus!
