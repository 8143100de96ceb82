//! Why a run of the client ends without success.
use vstd::prelude::*;
use crate::paths::LocalPath;
use crate::urls::UrlError;

verus! {

/// The failures the client reports. `E` is the error type of the layer that
/// performs network and file-system work on the library's behalf.
#[derive(Debug)]
pub enum CliError<E> {
    /// An endpoint URL could not be formed from the server URL.
    Url(UrlError),
    /// The server answered 404 for the vault's configuration.
    VaultNotFound { vault: String },
    /// The server answered the vault query with another non-success status.
    VaultQueryFailed { status: u16 },
    /// The unlock request was refused.
    UnlockFailed { status: u16 },
    /// The file list request was refused.
    ListFailed { status: u16 },
    /// A download request was refused.
    DownloadFailed { status: u16 },
    /// `upload` was given neither or both of a file and a folder.
    NoUploadSource,
    /// The folder to upload does not exist.
    FolderMissing { folder: LocalPath },
    /// The path to upload as a folder is not a directory.
    NotADirectory { folder: LocalPath },
    /// A collected file does not lie under the uploaded folder.
    RelativePathFailed { path: LocalPath },
    /// The local file to upload does not exist.
    LocalFileMissing { path: LocalPath },
    /// The local file to upload has no file name.
    UploadFilenameUnresolved,
    /// The server refused an upload.
    UploadFailed { path: LocalPath, status: u16, body: String },
    /// A failure of the network or file-system layer.
    External(E),
}

} // verus!
