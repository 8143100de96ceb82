//! One run of the client, as a sequence of steps.
//!
//! The session decides what happens next; its caller performs each step
//! (network requests, file-system work) and reports the outcome back through
//! the method named in the step's documentation. Each method may only be called
//! in the stage its `requires` names, which `current_stage` reports.
use vstd::prelude::*;
use crate::cli::{Args, Command, ListedFile};
use crate::download::{normalized_remote, FileDownload, DownloadStage};
use crate::error::CliError;
use crate::paths::{file_name_of, opt_path_view, path_views, url_path_text, LocalPath, Part};
use crate::status::{is_success_status, status_is_success};
use crate::text::{free_of, lemma_split_on_free, opt_view, split_on, trim_end_char};
use crate::upload::{remote_dir_of, remote_dir_for, spec_upload_url, upload_url};
use crate::urls::{
    appended_len_bound, lemma_appended_len_bound_concat, remote_segments, server_base_url,
    spec_vault_url, spec_vault_url_with_path, url_can_be_base, url_parses, url_view, vault_segments,
    vault_url, vault_url_with_path, UrlError,
};

verus! {

/// Where a session stands.
#[derive(PartialEq, Eq, Structural, Debug, Clone, Copy)]
pub enum Stage {
    BuildingClient,
    CheckingVault,
    Unlocking,
    PreparingDestination,
    DownloadingFile,
    ListingFiles,
    ReadingList,
    DownloadingAll,
    Locking,
    ScanningFolder,
    CheckingLocalFile,
    Uploading,
    RemovingLocalFile,
    Finished,
}

/// An upload of one local file.
pub struct UploadRequest {
    /// The local file.
    pub local: LocalPath,
    /// The name the file is sent under.
    pub filename: String,
    /// The endpoint to post to.
    pub url: String,
    /// The URL path of the remote folder (empty for the vault root).
    pub remote_dir: String,
}

/// What the caller must do next.
pub enum Step<E> {
    /// Build the HTTP client, trusting only `pin_cert` when given; report with
    /// `client_built`.
    BuildClient { pin_cert: Option<LocalPath> },
    /// `GET url` (the vault's raw file list); report its status with
    /// `vault_checked`.
    CheckVault { url: String },
    /// Obtain the vault password and `POST` it to `url`; report with `unlocked`.
    Unlock { url: String },
    /// Create `dest` when it does not exist; report with `destination_prepared`.
    PrepareDestination { dest: LocalPath },
    /// Run the download of one file; report with `file_downloaded`.
    DownloadFile { task: FileDownload },
    /// `GET url` (the file list); report the status with `list_answered`.
    ListFiles { url: String },
    /// Decode the file list from the response body; report with `list_read`.
    ReadFileList,
    /// Run all downloads (concurrently), reporting each failure as an error
    /// message only; then call `all_downloaded`.
    DownloadAll { tasks: Vec<FileDownload> },
    /// `POST url` (locking the vault); whatever the outcome, call `locked`.
    Lock { url: String },
    /// Collect the files under `folder` (see `FolderScan`); report with
    /// `folder_scanned`.
    ScanFolder { folder: LocalPath },
    /// Check whether `path` exists; report with `local_file_checked`.
    CheckLocalFile { path: LocalPath },
    /// Read the file and post it as a multipart form; report with `uploaded`.
    Upload { request: UploadRequest },
    /// Delete the local file; report with `local_file_removed`.
    RemoveLocalFile { path: LocalPath },
    /// The run is over with `result`.
    Finish { result: Result<(), CliError<E>> },
}

/// The base URL of a run: the server URL without trailing slashes.
pub open spec fn run_base(args: Args) -> Seq<char> {
    trim_end_char(args.server@, '/')
}

/// Whether `task` is the download of `remote` (with metadata name `name`) that
/// a run with `args` starts.
pub open spec fn plans_download(
    task: FileDownload,
    args: Args,
    remote: Seq<char>,
    name: Option<Seq<char>>,
) -> bool {
    &&& task.stage() == DownloadStage::Ready
    &&& task.base_url() == run_base(args)
    &&& task.vault() == args.vault@
    &&& args.command matches Command::Download(d) && task.dest() == d.dest@ && task.deletes()
        == d.delete
    &&& task.remote() == normalized_remote(remote)
    &&& task.metadata_name() == name
}

/// Whether the URL `url` is the endpoint `operation` of the run's vault.
pub open spec fn is_endpoint(args: Args, operation: Seq<char>, url: String) -> bool {
    spec_vault_url(run_base(args), args.vault@, operation) == Ok::<Seq<char>, UrlError>(url@)
}

/// Once the vault check's endpoint `raw/list` is formed, so is every endpoint
/// of an operation of at most six characters (`unlock`, `lock`, `list`).
proof fn lemma_short_endpoints_fit(base: Seq<char>, vault: Seq<char>, operation: Seq<char>)
    requires
        spec_vault_url_with_path(base, vault, "raw"@, "list"@) is Ok,
        operation.len() <= 6,
    ensures
        spec_vault_url(base, vault, operation) is Ok,
{
    reveal_strlit("raw");
    reveal_strlit("list");
    let list = "list"@;
    assert(free_of(list, '/'));
    lemma_split_on_free(list, '/');
    let rest = remote_segments(split_on(list, '/'));
    assert(seq![list].drop_last() =~= Seq::<Seq<char>>::empty());
    assert(seq![list].last() == list);
    assert(!crate::paths::is_skipped_segment(list));
    assert(remote_segments(Seq::<Seq<char>>::empty()) =~= Seq::<Seq<char>>::empty());
    assert(rest =~= seq![list]);
    assert(appended_len_bound(Seq::<Seq<char>>::empty()) == 0);
    lemma_appended_len_bound_concat(vault_segments(vault, "raw"@), rest);
    let short = vault_segments(vault, operation);
    let long = vault_segments(vault, "raw"@);
    assert(short.drop_last() =~= long.drop_last());
    assert(appended_len_bound(rest) == 49);
    assert(appended_len_bound(short) <= appended_len_bound(long) + appended_len_bound(rest));
}

/// How a step goes with the stage it leaves the session in: the unlock request
/// exactly when unlocking, the lock request exactly when locking, and the end
/// of the run exactly when finished.
pub open spec fn step_fits<E>(r: Step<E>, stage: Stage) -> bool {
    &&& (r is Unlock <==> stage == Stage::Unlocking)
    &&& (r is Lock <==> stage == Stage::Locking)
    &&& (r is Finish <==> stage == Stage::Finished)
}

/// The position, in the steps of an upload run that goes without failure, of
/// the step that starts turn `i`: each turn takes a check, an upload and, when
/// files are removed after upload, a removal.
pub open spec fn turn_start(i: int, removes: bool) -> int {
    if removes {
        3 * i
    } else {
        2 * i
    }
}

/// Law: two runs whose server URLs differ only by trailing slashes have the same
/// base URL; every endpoint a session asks for is a function of that base (see
/// `is_endpoint`, `plans_download` and the upload endpoints), so the two runs
/// ask for the same URLs.
pub proof fn lemma_runs_share_base(a1: Args, a2: Args, extra: Seq<char>)
    requires
        a2.server@ == a1.server@ + extra,
        forall|i: int| 0 <= i < extra.len() ==> #[trigger] extra[i] == '/',
    ensures
        run_base(a1) == run_base(a2),
{
    crate::urls::lemma_trailing_slashes_do_not_matter(a1.server@, extra);
}

/// The stages in which the vault is unlocked by this session.
pub open spec fn unlocked_stage(stage: Stage) -> bool {
    ||| stage == Stage::PreparingDestination
    ||| stage == Stage::DownloadingFile
    ||| stage == Stage::ListingFiles
    ||| stage == Stage::ReadingList
    ||| stage == Stage::DownloadingAll
    ||| stage == Stage::Locking
}

/// One run of the client with the given arguments.
pub struct Session<E> {
    args: Args,
    base_url: String,
    stage: Stage,
    outcome: Result<(), CliError<E>>,
    uploads: Vec<LocalPath>,
    folder: Option<LocalPath>,
    turn: usize,
    remote_dir: LocalPath,
}

fn clone_opt_string(s: &Option<String>) -> (r: Option<String>)
    ensures
        opt_view(r) == opt_view(*s),
{
    match s {
        Some(v) => Some(v.clone()),
        None => None,
    }
}

fn duplicate_opt_path(p: &Option<LocalPath>) -> (r: Option<LocalPath>)
    ensures
        opt_path_view(r) == opt_path_view(*p),
{
    match p {
        Some(v) => Some(v.duplicate()),
        None => None,
    }
}

impl<E> Session<E> {
    pub closed spec fn stage(&self) -> Stage {
        self.stage
    }

    pub closed spec fn args(&self) -> Args {
        self.args
    }

    /// The result a download run ends with once the vault is locked again.
    pub closed spec fn outcome(&self) -> Result<(), CliError<E>> {
        self.outcome
    }

    /// The files of an upload run, in upload order.
    pub closed spec fn uploads(&self) -> Seq<Seq<Part>> {
        path_views(self.uploads@)
    }

    /// The uploaded folder (none when a single file is uploaded).
    pub closed spec fn folder(&self) -> Option<Seq<Part>> {
        opt_path_view(self.folder)
    }

    /// The index in `uploads` of the file being uploaded.
    pub closed spec fn turn(&self) -> int {
        self.turn as int
    }

    /// The remote folder of the file being uploaded.
    pub closed spec fn remote_dir(&self) -> Seq<Part> {
        self.remote_dir@
    }

    /// The session's internal consistency.
    pub closed spec fn wf(&self) -> bool {
        &&& self.base_url@ == run_base(self.args)
        &&& (self.stage != Stage::BuildingClient && self.stage != Stage::Finished)
            ==> spec_vault_url_with_path(self.base_url@, self.args.vault@, "raw"@, "list"@) is Ok
        &&& (unlocked_stage(self.stage) || self.stage == Stage::Unlocking) ==> self.args.command is Download
        &&& self.stage == Stage::ScanningFolder ==> (self.args.command matches Command::Upload(u)
            && u.folder is Some)
        &&& (self.stage == Stage::CheckingLocalFile || self.stage == Stage::Uploading
            || self.stage == Stage::RemovingLocalFile) ==> {
            &&& self.args.command is Upload
            &&& self.turn < self.uploads@.len()
            &&& remote_dir_for(opt_path_view(self.folder), self.uploads@[self.turn as int]@)
                == Some(self.remote_dir@)
        }
    }

    /// Whether `self` belongs to the same run as `other`.
    pub open spec fn same_run(&self, other: Self) -> bool {
        self.args() == other.args()
    }

    /// Whether `self` is at the start of upload turn `i` (or past the last
    /// file), having answered with `r`.
    pub open spec fn begins_turn(&self, r: Step<E>, i: int) -> bool {
        if i >= self.uploads().len() {
            &&& self.stage() == Stage::Finished
            &&& r matches Step::Finish { result: Ok(()) }
        } else {
            match remote_dir_for(self.folder(), self.uploads()[i]) {
                None => {
                    &&& self.stage() == Stage::Finished
                    &&& r matches Step::Finish {
                        result: Err(CliError::RelativePathFailed { path }),
                    } && path@ == self.uploads()[i]
                },
                Some(d) => {
                    &&& self.stage() == Stage::CheckingLocalFile
                    &&& self.turn() == i
                    &&& self.remote_dir() == d
                    &&& r matches Step::CheckLocalFile { path } && path@ == self.uploads()[i]
                },
            }
        }
    }

    /// The stage the session is in.
    pub fn current_stage(&self) -> (r: Stage)
        ensures
            r == self.stage(),
    {
        self.stage
    }

    /// The URL of `operation` on the run's vault.
    fn endpoint(&self, operation: &str) -> (r: String)
        requires
            self.wf(),
            self.stage != Stage::BuildingClient && self.stage != Stage::Finished,
            operation@.len() <= 6,
        ensures
            is_endpoint(self.args, operation@, r),
    {
        proof {
            lemma_short_endpoints_fit(self.base_url@, self.args.vault@, operation@);
        }
        match vault_url(self.base_url.as_str(), self.args.vault.as_str(), operation) {
            Ok(url) => url,
            Err(_) => {
                assert(false);
                String::new()
            },
        }
    }

    /// A run with `args`; the first step builds the HTTP client.
    pub fn new(args: Args) -> (r: (Session<E>, Step<E>))
        ensures
            r.0.wf(),
            r.0.args() == args,
            r.0.stage() == Stage::BuildingClient,
            step_fits(r.1, r.0.stage()),
            r.1 matches Step::BuildClient { pin_cert } && opt_path_view(pin_cert) == opt_path_view(
                args.pin_cert,
            ),
    {
        let base_url = server_base_url(args.server.as_str());
        let pin_cert = duplicate_opt_path(&args.pin_cert);
        let session = Session {
            args,
            base_url,
            stage: Stage::BuildingClient,
            outcome: Ok(()),
            uploads: Vec::new(),
            folder: None,
            turn: 0,
            remote_dir: LocalPath::empty(),
        };
        (session, Step::BuildClient { pin_cert })
    }

    /// The HTTP client was built, or could not be (`outcome`). Next, the vault's
    /// existence is checked by asking for its raw file list, which needs no
    /// unlocking.
    pub fn client_built(&mut self, outcome: Result<(), E>) -> (r: Step<E>)
        requires
            old(self).wf(),
            old(self).stage() == Stage::BuildingClient,
        ensures
            final(self).wf(),
            final(self).same_run(*old(self)),
            step_fits(r, final(self).stage()),
            match outcome {
                Err(e) => {
                    &&& final(self).stage() == Stage::Finished
                    &&& r == Step::<E>::Finish { result: Err(CliError::External(e)) }
                },
                Ok(()) => match spec_vault_url_with_path(
                    run_base(old(self).args()),
                    old(self).args().vault@,
                    "raw"@,
                    "list"@,
                ) {
                    Ok(url) => {
                        &&& final(self).stage() == Stage::CheckingVault
                        &&& r matches Step::CheckVault { url: u } && u@ == url
                    },
                    Err(e) => {
                        &&& final(self).stage() == Stage::Finished
                        &&& r == Step::<E>::Finish { result: Err(CliError::Url(e)) }
                    },
                },
            },
    {
        match outcome {
            Err(e) => {
                self.stage = Stage::Finished;
                Step::Finish { result: Err(CliError::External(e)) }
            },
            Ok(()) => {
                match vault_url_with_path(self.base_url.as_str(), self.args.vault.as_str(), "raw", "list") {
                    Ok(url) => {
                        self.stage = Stage::CheckingVault;
                        Step::CheckVault { url }
                    },
                    Err(e) => {
                        self.stage = Stage::Finished;
                        Step::Finish { result: Err(CliError::Url(e)) }
                    },
                }
            },
        }
    }
    /// Starts upload turn `i`: the file's remote folder is worked out, then its
    /// existence is checked; past the last file the run is over.
    fn begin_turn(&mut self, i: usize) -> (r: Step<E>)
        requires
            old(self).wf(),
            old(self).stage != Stage::BuildingClient,
            old(self).args.command is Upload,
            spec_vault_url_with_path(old(self).base_url@, old(self).args.vault@, "raw"@, "list"@) is Ok,
        ensures
            final(self).wf(),
            final(self).same_run(*old(self)),
            step_fits(r, final(self).stage()),
            final(self).uploads() == old(self).uploads(),
            final(self).folder() == old(self).folder(),
            final(self).begins_turn(r, i as int),
    {
        if i >= self.uploads.len() {
            self.stage = Stage::Finished;
            return Step::Finish { result: Ok(()) };
        }
        match remote_dir_of(&self.folder, &self.uploads[i]) {
            None => {
                self.stage = Stage::Finished;
                Step::Finish {
                    result: Err(CliError::RelativePathFailed { path: self.uploads[i].duplicate() }),
                }
            },
            Some(dir) => {
                self.turn = i;
                self.remote_dir = dir;
                self.stage = Stage::CheckingLocalFile;
                Step::CheckLocalFile { path: self.uploads[i].duplicate() }
            },
        }
    }

    /// The server answered the vault query with `outcome`. A download run then
    /// unlocks the vault; an upload run starts on its source (a single file, or
    /// the files under a folder), which must be exactly one of the two.
    pub fn vault_checked(&mut self, outcome: Result<u16, E>) -> (r: Step<E>)
        requires
            old(self).wf(),
            old(self).stage() == Stage::CheckingVault,
        ensures
            final(self).wf(),
            final(self).same_run(*old(self)),
            step_fits(r, final(self).stage()),
            match outcome {
                Err(e) => {
                    &&& final(self).stage() == Stage::Finished
                    &&& r == Step::<E>::Finish { result: Err(CliError::External(e)) }
                },
                Ok(status) => if status == 404 {
                    &&& final(self).stage() == Stage::Finished
                    &&& r == Step::<E>::Finish {
                        result: Err(CliError::VaultNotFound { vault: old(self).args().vault }),
                    }
                } else if !is_success_status(status) {
                    &&& final(self).stage() == Stage::Finished
                    &&& r == Step::<E>::Finish { result: Err(CliError::VaultQueryFailed { status }) }
                } else {
                    match old(self).args().command {
                        Command::Download(_) => {
                            &&& final(self).stage() == Stage::Unlocking
                            &&& r matches Step::Unlock { url } && is_endpoint(
                                old(self).args(),
                                "unlock"@,
                                url,
                            )
                        },
                        Command::Upload(u) => match (u.file, u.folder) {
                            (Some(file), None) => {
                                &&& final(self).uploads() == seq![file@]
                                &&& final(self).folder() is None
                                &&& final(self).begins_turn(r, 0)
                            },
                            (None, Some(folder)) => {
                                &&& final(self).stage() == Stage::ScanningFolder
                                &&& r matches Step::ScanFolder { folder: f } && f@ == folder@
                            },
                            _ => {
                                &&& final(self).stage() == Stage::Finished
                                &&& r == Step::<E>::Finish { result: Err(CliError::NoUploadSource) }
                            },
                        },
                    }
                },
            },
    {
        let status = match outcome {
            Err(e) => {
                self.stage = Stage::Finished;
                return Step::Finish { result: Err(CliError::External(e)) };
            },
            Ok(status) => status,
        };
        if status == 404 {
            self.stage = Stage::Finished;
            return Step::Finish { result: Err(CliError::VaultNotFound { vault: self.args.vault.clone() }) };
        }
        if !status_is_success(status) {
            self.stage = Stage::Finished;
            return Step::Finish { result: Err(CliError::VaultQueryFailed { status }) };
        }
        match &self.args.command {
            Command::Download(_) => {
                let url = {
            proof {
                reveal_strlit("unlock");
            }
            self.endpoint("unlock")
        };
                self.stage = Stage::Unlocking;
                Step::Unlock { url }
            },
            Command::Upload(u) => {
                match (&u.file, &u.folder) {
                    (Some(file), None) => {
                        let mut uploads: Vec<LocalPath> = Vec::new();
                        uploads.push(file.duplicate());
                        self.uploads = uploads;
                        self.folder = None;
                        assert(path_views(self.uploads@) =~= seq![file@]);
                        self.begin_turn(0)
                    },
                    (None, Some(folder)) => {
                        self.stage = Stage::ScanningFolder;
                        Step::ScanFolder { folder: folder.duplicate() }
                    },
                    _ => {
                        self.stage = Stage::Finished;
                        Step::Finish { result: Err(CliError::NoUploadSource) }
                    },
                }
            },
        }
    }
    /// Records the result of the downloads and asks for the vault to be
    /// locked again.
    fn start_locking(&mut self, outcome: Result<(), CliError<E>>) -> (r: Step<E>)
        requires
            old(self).wf(),
            unlocked_stage(old(self).stage),
        ensures
            final(self).wf(),
            final(self).same_run(*old(self)),
            step_fits(r, final(self).stage()),
            final(self).stage() == Stage::Locking,
            final(self).outcome() == outcome,
            r matches Step::Lock { url } && is_endpoint(old(self).args(), "lock"@, url),
    {
        let url = {
            proof {
                reveal_strlit("lock");
            }
            self.endpoint("lock")
        };
        self.outcome = outcome;
        self.stage = Stage::Locking;
        Step::Lock { url }
    }

    /// The server answered the unlock request with `outcome`. Once unlocked,
    /// the destination folder is prepared.
    pub fn unlocked(&mut self, outcome: Result<u16, E>) -> (r: Step<E>)
        requires
            old(self).wf(),
            old(self).stage() == Stage::Unlocking,
        ensures
            final(self).wf(),
            final(self).same_run(*old(self)),
            step_fits(r, final(self).stage()),
            match outcome {
                Err(e) => {
                    &&& final(self).stage() == Stage::Finished
                    &&& r == Step::<E>::Finish { result: Err(CliError::External(e)) }
                },
                Ok(status) => if is_success_status(status) {
                    &&& final(self).stage() == Stage::PreparingDestination
                    &&& old(self).args().command matches Command::Download(d) && (
                    r matches Step::PrepareDestination { dest } && dest@ == d.dest@)
                } else {
                    &&& final(self).stage() == Stage::Finished
                    &&& r == Step::<E>::Finish { result: Err(CliError::UnlockFailed { status }) }
                },
            },
    {
        let status = match outcome {
            Err(e) => {
                self.stage = Stage::Finished;
                return Step::Finish { result: Err(CliError::External(e)) };
            },
            Ok(status) => status,
        };
        if !status_is_success(status) {
            self.stage = Stage::Finished;
            return Step::Finish { result: Err(CliError::UnlockFailed { status }) };
        }
        match &self.args.command {
            Command::Download(d) => {
                let dest = d.dest.duplicate();
                self.stage = Stage::PreparingDestination;
                Step::PrepareDestination { dest }
            },
            Command::Upload(_) => {
                assert(false);
                Step::Finish { result: Ok(()) }
            },
        }
    }

    /// The destination folder exists, or could not be created (`outcome`). A
    /// single file is then downloaded, or else the file list is requested.
    pub fn destination_prepared(&mut self, outcome: Result<(), E>) -> (r: Step<E>)
        requires
            old(self).wf(),
            old(self).stage() == Stage::PreparingDestination,
        ensures
            final(self).wf(),
            final(self).same_run(*old(self)),
            step_fits(r, final(self).stage()),
            unlocked_stage(final(self).stage()),
            !(r is Finish),
            match outcome {
                Err(e) => {
                    &&& final(self).stage() == Stage::Locking
                    &&& final(self).outcome() == Err::<(), CliError<E>>(CliError::External(e))
                    &&& r matches Step::Lock { url } && is_endpoint(old(self).args(), "lock"@, url)
                },
                Ok(()) => match old(self).args().command {
                    Command::Download(d) => match d.file {
                        Some(file) => {
                            &&& final(self).stage() == Stage::DownloadingFile
                            &&& r matches Step::DownloadFile { task } && plans_download(
                                task,
                                old(self).args(),
                                file@,
                                None,
                            )
                        },
                        None => {
                            &&& final(self).stage() == Stage::ListingFiles
                            &&& r matches Step::ListFiles { url } && is_endpoint(
                                old(self).args(),
                                "list"@,
                                url,
                            )
                        },
                    },
                    Command::Upload(_) => false,
                },
            },
    {
        match outcome {
            Err(e) => self.start_locking(Err(CliError::External(e))),
            Ok(()) => {
                match &self.args.command {
                    Command::Download(d) => {
                        match &d.file {
                            Some(file) => {
                                let task = FileDownload::new(
                                    self.base_url.as_str(),
                                    self.args.vault.as_str(),
                                    &d.dest,
                                    d.delete,
                                    file.as_str(),
                                    None,
                                );
                                self.stage = Stage::DownloadingFile;
                                Step::DownloadFile { task }
                            },
                            None => {
                                let url = {
            proof {
                reveal_strlit("list");
            }
            self.endpoint("list")
        };
                                self.stage = Stage::ListingFiles;
                                Step::ListFiles { url }
                            },
                        }
                    },
                    Command::Upload(_) => {
                        assert(false);
                        Step::ReadFileList
                    },
                }
            },
        }
    }

    /// The single-file download ended with `outcome`; the vault is locked
    /// again, and the run ends with that outcome.
    pub fn file_downloaded(&mut self, outcome: Result<(), CliError<E>>) -> (r: Step<E>)
        requires
            old(self).wf(),
            old(self).stage() == Stage::DownloadingFile,
        ensures
            final(self).wf(),
            final(self).same_run(*old(self)),
            step_fits(r, final(self).stage()),
            final(self).stage() == Stage::Locking,
            final(self).outcome() == outcome,
            r matches Step::Lock { url } && is_endpoint(old(self).args(), "lock"@, url),
    {
        self.start_locking(outcome)
    }

    /// The server answered the file list request with `outcome`. On success its
    /// body is to be decoded.
    pub fn list_answered(&mut self, outcome: Result<u16, E>) -> (r: Step<E>)
        requires
            old(self).wf(),
            old(self).stage() == Stage::ListingFiles,
        ensures
            final(self).wf(),
            final(self).same_run(*old(self)),
            step_fits(r, final(self).stage()),
            unlocked_stage(final(self).stage()),
            !(r is Finish),
            match outcome {
                Err(e) => {
                    &&& final(self).stage() == Stage::Locking
                    &&& final(self).outcome() == Err::<(), CliError<E>>(CliError::External(e))
                    &&& r matches Step::Lock { url } && is_endpoint(old(self).args(), "lock"@, url)
                },
                Ok(status) => if is_success_status(status) {
                    &&& final(self).stage() == Stage::ReadingList
                    &&& r is ReadFileList
                } else {
                    &&& final(self).stage() == Stage::Locking
                    &&& final(self).outcome() == Err::<(), CliError<E>>(
                        CliError::ListFailed { status },
                    )
                    &&& r matches Step::Lock { url } && is_endpoint(old(self).args(), "lock"@, url)
                },
            },
    {
        match outcome {
            Err(e) => self.start_locking(Err(CliError::External(e))),
            Ok(status) => {
                if status_is_success(status) {
                    self.stage = Stage::ReadingList;
                    Step::ReadFileList
                } else {
                    self.start_locking(Err(CliError::ListFailed { status }))
                }
            },
        }
    }

    /// The file list was decoded, or could not be (`outcome`). An empty vault
    /// needs no download; otherwise every listed file is downloaded under the
    /// name its metadata gives.
    pub fn list_read(&mut self, outcome: Result<Vec<ListedFile>, E>) -> (r: Step<E>)
        requires
            old(self).wf(),
            old(self).stage() == Stage::ReadingList,
        ensures
            final(self).wf(),
            final(self).same_run(*old(self)),
            step_fits(r, final(self).stage()),
            unlocked_stage(final(self).stage()),
            !(r is Finish),
            match outcome {
                Err(e) => {
                    &&& final(self).stage() == Stage::Locking
                    &&& final(self).outcome() == Err::<(), CliError<E>>(CliError::External(e))
                    &&& r matches Step::Lock { url } && is_endpoint(old(self).args(), "lock"@, url)
                },
                Ok(files) => if files@.len() == 0 {
                    &&& final(self).stage() == Stage::Locking
                    &&& final(self).outcome() == Ok::<(), CliError<E>>(())
                    &&& r matches Step::Lock { url } && is_endpoint(old(self).args(), "lock"@, url)
                } else {
                    &&& final(self).stage() == Stage::DownloadingAll
                    &&& r matches Step::DownloadAll { tasks } && tasks@.len() == files@.len() && (
                    forall|i: int|
                        0 <= i < files@.len() ==> plans_download(
                            #[trigger] tasks@[i],
                            old(self).args(),
                            files@[i].path@,
                            opt_view(files@[i].filename),
                        ))
                },
            },
    {
        let files = match outcome {
            Err(e) => {
                return self.start_locking(Err(CliError::External(e)));
            },
            Ok(files) => files,
        };
        if files.len() == 0 {
            return self.start_locking(Ok(()));
        }
        match &self.args.command {
            Command::Download(d) => {
                let mut tasks: Vec<FileDownload> = Vec::new();
                let mut i: usize = 0;
                while i < files.len()
                    invariant
                        self.args == old(self).args,
                        self.base_url@ == run_base(self.args),
                        self.args.command == Command::Download(*d),
                        i <= files@.len(),
                        tasks@.len() == i,
                        forall|k: int|
                            0 <= k < i ==> plans_download(
                                #[trigger] tasks@[k],
                                self.args,
                                files@[k].path@,
                                opt_view(files@[k].filename),
                            ),
                    decreases files@.len() - i,
                {
                    let task = FileDownload::new(
                        self.base_url.as_str(),
                        self.args.vault.as_str(),
                        &d.dest,
                        d.delete,
                        files[i].path.as_str(),
                        clone_opt_string(&files[i].filename),
                    );
                    tasks.push(task);
                    i = i + 1;
                }
                self.stage = Stage::DownloadingAll;
                Step::DownloadAll { tasks }
            },
            Command::Upload(_) => {
                assert(false);
                Step::ReadFileList
            },
        }
    }

    /// All downloads of the listed files have run. A failure of one of them
    /// was reported on its own and does not fail the run.
    pub fn all_downloaded(&mut self) -> (r: Step<E>)
        requires
            old(self).wf(),
            old(self).stage() == Stage::DownloadingAll,
        ensures
            final(self).wf(),
            final(self).same_run(*old(self)),
            step_fits(r, final(self).stage()),
            final(self).stage() == Stage::Locking,
            final(self).outcome() == Ok::<(), CliError<E>>(()),
            r matches Step::Lock { url } && is_endpoint(old(self).args(), "lock"@, url),
    {
        self.start_locking(Ok(()))
    }

    /// The lock request was sent (its outcome does not matter). The run ends
    /// with the outcome of the downloads.
    pub fn locked(&mut self) -> (r: Step<E>)
        requires
            old(self).wf(),
            old(self).stage() == Stage::Locking,
        ensures
            final(self).wf(),
            final(self).same_run(*old(self)),
            step_fits(r, final(self).stage()),
            final(self).stage() == Stage::Finished,
            r == (Step::<E>::Finish { result: old(self).outcome() }),
    {
        let mut outcome: Result<(), CliError<E>> = Ok(());
        core::mem::swap(&mut outcome, &mut self.outcome);
        self.stage = Stage::Finished;
        Step::Finish { result: outcome }
    }
    /// The files under the uploaded folder were collected, or could not be
    /// (`outcome`). An empty folder ends the run; otherwise the files are
    /// uploaded one after the other, in the order given.
    pub fn folder_scanned(&mut self, outcome: Result<Vec<LocalPath>, CliError<E>>) -> (r: Step<E>)
        requires
            old(self).wf(),
            old(self).stage() == Stage::ScanningFolder,
        ensures
            final(self).wf(),
            final(self).same_run(*old(self)),
            step_fits(r, final(self).stage()),
            match outcome {
                Err(e) => {
                    &&& final(self).stage() == Stage::Finished
                    &&& r == (Step::<E>::Finish { result: Err(e) })
                },
                Ok(files) => if files@.len() == 0 {
                    &&& final(self).stage() == Stage::Finished
                    &&& r matches Step::Finish { result: Ok(()) }
                } else {
                    &&& old(self).args().command matches Command::Upload(u) && (u.folder matches Some(
                        folder,
                    ) && final(self).folder() == Some(folder@))
                    &&& final(self).uploads() == path_views(files@)
                    &&& final(self).begins_turn(r, 0)
                },
            },
    {
        let files = match outcome {
            Err(e) => {
                self.stage = Stage::Finished;
                return Step::Finish { result: Err(e) };
            },
            Ok(files) => files,
        };
        if files.len() == 0 {
            self.stage = Stage::Finished;
            return Step::Finish { result: Ok(()) };
        }
        let folder = match &self.args.command {
            Command::Upload(u) => duplicate_opt_path(&u.folder),
            Command::Download(_) => None,
        };
        self.uploads = files;
        self.folder = folder;
        self.begin_turn(0)
    }

    /// What `local_file_checked` does with the answer `exists` in state `old`,
    /// leaving `new` and giving `r`: a missing file, or one without a name,
    /// ends the run; otherwise the file is uploaded to the endpoint of its
    /// remote folder, unless that endpoint cannot be formed.
    pub open spec fn file_checked_step(old: Self, exists: bool, new: Self, r: Step<E>) -> bool {
        &&& new.same_run(old)
        &&& new.uploads() == old.uploads()
        &&& new.folder() == old.folder()
        &&& new.turn() == old.turn()
        &&& {
        let file = old.uploads()[old.turn()];
        if !exists {
            &&& new.stage() == Stage::Finished
            &&& r matches Step::Finish {
                result: Err(CliError::LocalFileMissing { path }),
            } && path@ == file
        } else {
            match file_name_of(file) {
                None => {
                    &&& new.stage() == Stage::Finished
                    &&& r matches Step::Finish {
                        result: Err(CliError::UploadFilenameUnresolved),
                    }
                },
                Some(name) => match spec_upload_url(
                    run_base(old.args()),
                    old.args().vault@,
                    old.remote_dir(),
                ) {
                    Ok(url) => {
                        &&& new.stage() == Stage::Uploading
                        &&& r matches Step::Upload { request } && {
                            &&& request.local@ == file
                            &&& request.filename@ == name
                            &&& request.url@ == url
                            &&& request.remote_dir@ == url_path_text(old.remote_dir())
                        }
                    },
                    Err(e) => {
                        &&& new.stage() == Stage::Finished
                        &&& r == Step::<E>::Finish { result: Err(CliError::Url(e)) }
                    },
                },
            }
        }
        }
    }

    /// What `uploaded` does with `outcome` in state `old`, leaving `new` and
    /// giving `r`.
    pub open spec fn uploaded_step(
        old: Self,
        outcome: Result<(u16, String), E>,
        new: Self,
        r: Step<E>,
    ) -> bool {
        &&& new.same_run(old)
        &&& new.uploads() == old.uploads()
        &&& new.folder() == old.folder()
        &&& {
            let file = old.uploads()[old.turn()];
            match outcome {
                Err(e) => {
                    &&& new.stage() == Stage::Finished
                    &&& r == (Step::<E>::Finish { result: Err(CliError::External(e)) })
                },
                Ok((status, body)) => if !is_success_status(status) {
                    &&& new.stage() == Stage::Finished
                    &&& r matches Step::Finish {
                        result: Err(CliError::UploadFailed { path, status: s, body: b }),
                    } && path@ == file && s == status && b == body
                } else if old.args().command matches Command::Upload(u) && u.delete_after_upload {
                    &&& new.stage() == Stage::RemovingLocalFile
                    &&& new.turn() == old.turn()
                    &&& r matches Step::RemoveLocalFile { path } && path@ == file
                } else {
                    new.begins_turn(r, old.turn() + 1)
                },
            }
        }
    }

    /// What `local_file_removed` does with `outcome` in state `old`, leaving
    /// `new` and giving `r`.
    pub open spec fn file_removed_step(old: Self, outcome: Result<(), E>, new: Self, r: Step<E>) -> bool {
        &&& new.same_run(old)
        &&& new.uploads() == old.uploads()
        &&& new.folder() == old.folder()
        &&& match outcome {
            Err(e) => {
                &&& new.stage() == Stage::Finished
                &&& r == (Step::<E>::Finish { result: Err(CliError::External(e)) })
            },
            Ok(()) => new.begins_turn(r, old.turn() + 1),
        }
    }

    /// Whether the local file of the current turn exists. An existing file with
    /// a name is then uploaded to the endpoint of its remote folder.
    pub fn local_file_checked(&mut self, exists: bool) -> (r: Step<E>)
        requires
            old(self).wf(),
            old(self).stage() == Stage::CheckingLocalFile,
        ensures
            final(self).wf(),
            step_fits(r, final(self).stage()),
            Self::file_checked_step(*old(self), exists, *final(self), r),
    {
        let i = self.turn;
        if !exists {
            self.stage = Stage::Finished;
            return Step::Finish {
                result: Err(CliError::LocalFileMissing { path: self.uploads[i].duplicate() }),
            };
        }
        let filename = match self.uploads[i].file_name() {
            None => {
                self.stage = Stage::Finished;
                return Step::Finish { result: Err(CliError::UploadFilenameUnresolved) };
            },
            Some(name) => name,
        };
        let (url_result, remote_dir) = upload_url(
            self.base_url.as_str(),
            self.args.vault.as_str(),
            &self.remote_dir,
        );
        let url = match url_result {
            Ok(url) => url,
            Err(e) => {
                self.stage = Stage::Finished;
                return Step::Finish { result: Err(CliError::Url(e)) };
            },
        };
        self.stage = Stage::Uploading;
        Step::Upload {
            request: UploadRequest { local: self.uploads[i].duplicate(), filename, url, remote_dir },
        }
    }

    /// The server answered the upload with `outcome`: its status, and its body
    /// text when the status is not a success. A refused upload ends the run;
    /// an accepted one is followed by deleting the local file when that was
    /// asked for, and otherwise by the next file.
    pub fn uploaded(&mut self, outcome: Result<(u16, String), E>) -> (r: Step<E>)
        requires
            old(self).wf(),
            old(self).stage() == Stage::Uploading,
        ensures
            final(self).wf(),
            step_fits(r, final(self).stage()),
            Self::uploaded_step(*old(self), outcome, *final(self), r),
    {
        let i = self.turn;
        let (status, body) = match outcome {
            Err(e) => {
                self.stage = Stage::Finished;
                return Step::Finish { result: Err(CliError::External(e)) };
            },
            Ok(response) => response,
        };
        if !status_is_success(status) {
            self.stage = Stage::Finished;
            return Step::Finish {
                result: Err(CliError::UploadFailed { path: self.uploads[i].duplicate(), status, body }),
            };
        }
        let remove = match &self.args.command {
            Command::Upload(u) => u.delete_after_upload,
            Command::Download(_) => false,
        };
        if remove {
            self.stage = Stage::RemovingLocalFile;
            Step::RemoveLocalFile { path: self.uploads[i].duplicate() }
        } else {
            // The turn indexes `uploads`, so the next index fits in `usize`.
            let count = self.uploads.len();
            assert(i < count);
            self.begin_turn(i + 1)
        }
    }

    /// The local file of the current turn was deleted, or could not be
    /// (`outcome`); on success the next file follows.
    pub fn local_file_removed(&mut self, outcome: Result<(), E>) -> (r: Step<E>)
        requires
            old(self).wf(),
            old(self).stage() == Stage::RemovingLocalFile,
        ensures
            final(self).wf(),
            step_fits(r, final(self).stage()),
            Self::file_removed_step(*old(self), outcome, *final(self), r),
    {
        match outcome {
            Err(e) => {
                self.stage = Stage::Finished;
                Step::Finish { result: Err(CliError::External(e)) }
            },
            Ok(()) => {
                // The turn indexes `uploads`, so the next index fits in `usize`.
                let count = self.uploads.len();
                assert(self.turn < count);
                let next = self.turn + 1;
                self.begin_turn(next)
            },
        }
    }
    /// Whether the run removes each file after its upload.
    pub open spec fn removes_after_upload(&self) -> bool {
        self.args().command matches Command::Upload(u) && u.delete_after_upload
    }

    /// Whether upload `i` of the run can go ahead: its file lies under the
    /// uploaded folder (if any), has a name, and its endpoint can be formed.
    pub open spec fn upload_possible(&self, i: int) -> bool {
        let file = self.uploads()[i];
        match remote_dir_for(self.folder(), file) {
            None => false,
            Some(d) => file_name_of(file) is Some && spec_upload_url(
                run_base(self.args()),
                self.args().vault@,
                d,
            ) is Ok,
        }
    }

    /// Whether `r` is the upload of file `i`: the file, its name, the endpoint
    /// of its remote folder and that folder's URL path.
    pub open spec fn is_planned_upload(&self, i: int, r: Step<E>) -> bool {
        let file = self.uploads()[i];
        let d = remote_dir_for(self.folder(), file)->0;
        r matches Step::Upload { request } && {
            &&& request.local@ == file
            &&& request.filename@ == file_name_of(file)->0
            &&& spec_upload_url(run_base(self.args()), self.args().vault@, d) == Ok::<
                Seq<char>,
                UrlError,
            >(request.url@)
            &&& request.remote_dir@ == url_path_text(d)
        }
    }

    /// Whether, in `new`, the session answered a successful outcome of the step
    /// of `old` with `r`: the file exists, the upload is accepted with `status`
    /// (and `body`), the removal succeeds. No other stage is answered so.
    pub open spec fn answered_with_success(
        old: Self,
        new: Self,
        r: Step<E>,
        status: u16,
        body: String,
    ) -> bool {
        match old.stage() {
            Stage::CheckingLocalFile => Self::file_checked_step(old, true, new, r),
            Stage::Uploading => is_success_status(status) && Self::uploaded_step(
                old,
                Ok((status, body)),
                new,
                r,
            ),
            Stage::RemovingLocalFile => Self::file_removed_step(old, Ok(()), new, r),
            _ => false,
        }
    }

    /// Whether `steps` is an upload run in which every step after the first is
    /// the answer to a successful outcome in the state before it.
    pub open spec fn successful_upload_trace(
        states: Seq<Self>,
        steps: Seq<Step<E>>,
        statuses: Seq<u16>,
        bodies: Seq<String>,
    ) -> bool {
        &&& states.len() == steps.len()
        &&& statuses.len() == steps.len()
        &&& bodies.len() == steps.len()
        &&& forall|k: int|
            0 <= k < states.len() - 1 ==> #[trigger] Self::answered_with_success(
                states[k],
                states[k + 1],
                steps[k + 1],
                statuses[k],
                bodies[k],
            )
    }

    /// Whether `steps` go through turn `i` of the run of `s` as planned, as far
    /// as they reach: the check of file `i`, its upload, and its removal when
    /// files are removed.
    pub open spec fn follows_turn(s: Self, steps: Seq<Step<E>>, i: int) -> bool {
        let p = turn_start(i, s.removes_after_upload());
        &&& p < steps.len() ==> (steps[p] matches Step::CheckLocalFile { path } && path@
            == s.uploads()[i])
        &&& p + 1 < steps.len() ==> s.is_planned_upload(i, steps[p + 1])
        &&& (s.removes_after_upload() && p + 2 < steps.len()) ==> (steps[p
            + 2] matches Step::RemoveLocalFile { path } && path@ == s.uploads()[i])
    }

    /// Whether `steps` stop at the end of the last turn of the run of `s`, and
    /// where they reach it, end the run with success.
    pub open spec fn ends_after_last_turn(s: Self, steps: Seq<Step<E>>) -> bool {
        let end = turn_start(s.uploads().len() as int, s.removes_after_upload());
        &&& steps.len() <= end + 1
        &&& steps.len() == end + 1 ==> steps[end] matches Step::Finish { result: Ok(()) }
    }

    proof fn lemma_turns_from(
        states: Seq<Self>,
        steps: Seq<Step<E>>,
        statuses: Seq<u16>,
        bodies: Seq<String>,
        i: int,
    )
        requires
            Self::successful_upload_trace(states, steps, statuses, bodies),
            forall|j: int| 0 <= j < states[0].uploads().len() ==> states[0].upload_possible(j),
            0 <= i <= states[0].uploads().len(),
            turn_start(i, states[0].removes_after_upload()) < states.len(),
            ({
                let s = states[turn_start(i, states[0].removes_after_upload())];
                &&& s.args() == states[0].args()
                &&& s.uploads() == states[0].uploads()
                &&& s.folder() == states[0].folder()
                &&& s.begins_turn(steps[turn_start(i, states[0].removes_after_upload())], i)
            }),
        ensures
            forall|j: int|
                i <= j < states[0].uploads().len() ==> #[trigger] Self::follows_turn(
                    states[0],
                    steps,
                    j,
                ),
            Self::ends_after_last_turn(states[0], steps),
        decreases states[0].uploads().len() - i,
    {
        let s0 = states[0];
        let n = s0.uploads().len() as int;
        let del = s0.removes_after_upload();
        let p = turn_start(i, del);
        let s = states[p];
        let len = states.len() as int;
        if i == n {
            if p + 1 < len {
                assert(Self::answered_with_success(
                    states[p],
                    states[p + 1],
                    steps[p + 1],
                    statuses[p],
                    bodies[p],
                ));
            }
        } else {
            assert(s0.upload_possible(i));
            let file = s0.uploads()[i];
            if p + 1 < len {
                assert(Self::answered_with_success(
                    states[p],
                    states[p + 1],
                    steps[p + 1],
                    statuses[p],
                    bodies[p],
                ));
                let s1 = states[p + 1];
                if p + 2 < len {
                    let k1 = p + 1;
                    assert(Self::answered_with_success(
                        states[k1],
                        states[k1 + 1],
                        steps[k1 + 1],
                        statuses[k1],
                        bodies[k1],
                    ));
                    assert(k1 + 1 == p + 2);
                    if del {
                        if p + 3 < len {
                            let k2 = p + 2;
                            assert(Self::answered_with_success(
                                states[k2],
                                states[k2 + 1],
                                steps[k2 + 1],
                                statuses[k2],
                                bodies[k2],
                            ));
                            assert(k2 + 1 == p + 3);
                            assert(turn_start(i + 1, del) == p + 3);
                            Self::lemma_turns_from(states, steps, statuses, bodies, i + 1);
                        } else {
                            assert forall|j: int| i < j < n implies turn_start(j, del) >= len by {}
                        }
                    } else {
                        assert(turn_start(i + 1, del) == p + 2);
                        Self::lemma_turns_from(states, steps, statuses, bodies, i + 1);
                    }
                } else {
                    assert forall|j: int| i < j < n implies turn_start(j, del) >= len by {}
                }
            } else {
                assert forall|j: int| i < j < n implies turn_start(j, del) >= len by {}
            }
            assert(Self::follows_turn(s0, steps, i));
            assert forall|j: int| i <= j < n implies #[trigger] Self::follows_turn(s0, steps, j) by {
                if j > i && turn_start(j, del) >= len {
                    assert(turn_start(j, del) + 1 >= len);
                }
            }
        }
    }

    /// Law: an upload run in which every file exists, every upload is accepted
    /// and every removal succeeds goes through its files in order. Turn `i`
    /// checks that file `i` exists, uploads it to the endpoint of its remote
    /// folder (the folder of its path relative to the uploaded folder, the
    /// vault root at top level) and, only when `delete_after_upload` is set,
    /// removes it; after the last file the run ends with success, and nothing
    /// else happens. This holds where each file lies under the folder, has a
    /// name and an endpoint that can be formed.
    pub proof fn lemma_upload_run_follows_files(
        states: Seq<Self>,
        steps: Seq<Step<E>>,
        statuses: Seq<u16>,
        bodies: Seq<String>,
    )
        requires
            states.len() > 0,
            states[0].begins_turn(steps[0], 0),
            Self::successful_upload_trace(states, steps, statuses, bodies),
            forall|i: int| 0 <= i < states[0].uploads().len() ==> states[0].upload_possible(i),
        ensures
            forall|i: int|
                0 <= i < states[0].uploads().len() ==> #[trigger] Self::follows_turn(
                    states[0],
                    steps,
                    i,
                ),
            Self::ends_after_last_turn(states[0], steps),
    {
        assert(turn_start(0, states[0].removes_after_upload()) == 0);
        Self::lemma_turns_from(states, steps, statuses, bodies, 0);
    }

    /// Law: an upload answered with a status outside 200..=299 ends the run
    /// with `UploadFailed` for the file being uploaded, that status and that
    /// body; nothing follows, neither a removal nor the next file.
    pub proof fn lemma_refused_upload_fails_run(
        old: Self,
        status: u16,
        body: String,
        new: Self,
        r: Step<E>,
    )
        requires
            !(200 <= status && status < 300),
            Self::uploaded_step(old, Ok((status, body)), new, r),
        ensures
            new.stage() == Stage::Finished,
            r matches Step::Finish { result: Err(CliError::UploadFailed { path, status: s, body: b }) }
                && path@ == old.uploads()[old.turn()] && s == status && b == body,
    {
    }

    /// Law: an upload answered with a status in 200..=299 is followed by the
    /// removal of that file when files are removed after upload, and
    /// otherwise by the next file (or the successful end of the run).
    pub proof fn lemma_accepted_upload_moves_on(
        old: Self,
        status: u16,
        body: String,
        new: Self,
        r: Step<E>,
    )
        requires
            200 <= status && status < 300,
            Self::uploaded_step(old, Ok((status, body)), new, r),
        ensures
            old.removes_after_upload() ==> (new.stage() == Stage::RemovingLocalFile && new.turn()
                == old.turn() && (r matches Step::RemoveLocalFile { path } && path@
                == old.uploads()[old.turn()])),
            !old.removes_after_upload() ==> new.begins_turn(r, old.turn() + 1),
    {
    }

    /// Law: only a download run unlocks the vault. In an upload run the session
    /// is never unlocking or unlocked, so no step it gives (each step fits the
    /// stage it leaves, see `step_fits`) asks for the password, the unlock
    /// request or the lock request.
    pub proof fn lemma_upload_run_never_unlocks(s: Self, r: Step<E>)
        requires
            s.wf(),
            s.args().command is Upload,
            step_fits(r, s.stage()),
        ensures
            s.stage() != Stage::Unlocking,
            !unlocked_stage(s.stage()),
            !(r is Unlock),
            !(r is Lock),
    {
    }

    /// Law: while the vault is unlocked, the run is a download run, and the
    /// only stage that can end it is `Locking`, whose one way on (`locked`)
    /// ends the run with the recorded outcome. So a successful unlock is
    /// followed by exactly one lock request before the run ends.
    pub proof fn lemma_unlocked_run_ends_through_lock(s: Self, r: Step<E>)
        requires
            s.wf(),
            unlocked_stage(s.stage()),
            step_fits(r, s.stage()),
        ensures
            s.args().command is Download,
            !(r is Finish),
            s.stage() == Stage::Locking <==> r is Lock,
    {
    }
}

} // verus!
