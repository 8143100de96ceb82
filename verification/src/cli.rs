//! The command line of the client and the records its server lists.
use vstd::prelude::*;
use crate::paths::LocalPath;

verus! {

/// Global arguments and the chosen subcommand.
pub struct Args {
    /// Server URL.
    pub server: String,
    /// Vault name.
    pub vault: String,
    /// Optional certificate file for HTTPS pinning.
    pub pin_cert: Option<LocalPath>,
    pub command: Command,
}

/// The subcommand.
pub enum Command {
    /// Download one file or all files from a vault.
    Download(DownloadArgs),
    /// Upload one file or all files from a folder.
    Upload(UploadArgs),
}

/// Arguments of `download`.
pub struct DownloadArgs {
    /// Destination folder.
    pub dest: LocalPath,
    /// Optional single file path in the vault (all files when absent).
    pub file: Option<String>,
    /// Delete files on the server after downloading.
    pub delete: bool,
}

/// Arguments of `upload`.
pub struct UploadArgs {
    /// Local file to upload.
    pub file: Option<LocalPath>,
    /// Local folder to upload recursively.
    pub folder: Option<LocalPath>,
    /// Delete each local file after its successful upload.
    pub delete_after_upload: bool,
}

/// One entry of the vault's file list.
pub struct ListedFile {
    /// Path of the encrypted file in the vault.
    pub path: String,
    /// Decrypted name the file was uploaded under, when the server knows it.
    pub filename: Option<String>,
    pub origin: Option<String>,
    /// Size of the encrypted file in bytes.
    pub size: u64,
}

} // verus!
