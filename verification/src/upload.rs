//! Where an uploaded file goes on the server.
use vstd::prelude::*;
use vstd::string::StrSliceExecFns;
use crate::paths::{
    parent_parts, path_to_url_path, strip_prefix_parts, url_path_text, LocalPath, Part,
    opt_path_view,
};
use crate::urls::{
    lemma_empty_path_adds_nothing, remote_segments, spec_vault_url, spec_vault_url_with_path,
    url_view, vault_url, vault_url_with_path, UrlError,
};

verus! {

/// The remote folder a file goes to: the root for a single file (no `folder`),
/// else the folder of the file's path relative to `folder`; `None` when the
/// file does not lie under `folder`.
pub open spec fn remote_dir_for(folder: Option<Seq<Part>>, file: Seq<Part>) -> Option<Seq<Part>> {
    match folder {
        None => Some(Seq::<Part>::empty()),
        Some(f) => match strip_prefix_parts(file, f) {
            None => None,
            Some(rel) => Some(
                match parent_parts(rel) {
                    Some(p) => p,
                    None => Seq::<Part>::empty(),
                },
            ),
        },
    }
}

/// The upload endpoint for files going to `remote_dir`: the vault root's
/// `upload` when the folder's URL path is empty, else `upload/<folder>`.
pub open spec fn spec_upload_url(base: Seq<char>, vault: Seq<char>, remote_dir: Seq<Part>) -> Result<
    Seq<char>,
    UrlError,
> {
    let text = url_path_text(remote_dir);
    if text.len() == 0 {
        spec_vault_url(base, vault, "upload"@)
    } else {
        spec_vault_url_with_path(base, vault, "upload"@, text)
    }
}

/// The remote folder of `file` (see `remote_dir_for`).
pub fn remote_dir_of(folder: &Option<LocalPath>, file: &LocalPath) -> (r: Option<LocalPath>)
    ensures
        opt_path_view(r) == remote_dir_for(opt_path_view(*folder), file@),
{
    match folder {
        None => Some(LocalPath::empty()),
        Some(f) => match file.strip_prefix(f) {
            None => None,
            Some(rel) => match rel.parent() {
                Some(p) => Some(p),
                None => Some(LocalPath::empty()),
            },
        },
    }
}

/// The upload endpoint for files going to `remote_dir`, with the URL path of
/// that folder.
pub fn upload_url(base_url: &str, vault: &str, remote_dir: &LocalPath) -> (r: (
    Result<String, UrlError>,
    String,
))
    ensures
        url_view(r.0) == spec_upload_url(base_url@, vault@, remote_dir@),
        r.1@ == url_path_text(remote_dir@),
{
    let text = path_to_url_path(remote_dir);
    if text.as_str().unicode_len() == 0 {
        (vault_url(base_url, vault, "upload"), text)
    } else {
        (vault_url_with_path(base_url, vault, "upload", text.as_str()), text)
    }
}

/// Law: a file that lies directly in the uploaded folder goes to the vault root.
pub proof fn lemma_top_level_file_goes_to_root(folder: Seq<Part>, name: Seq<char>)
    ensures
        remote_dir_for(Some(folder), folder.push(Part::Name(name))) == Some(
            Seq::<Part>::empty(),
        ),
{
    let file = folder.push(Part::Name(name));
    assert(file.take(folder.len() as int) =~= folder);
    assert(file.skip(folder.len() as int) =~= seq![Part::Name(name)]);
    assert(seq![Part::Name(name)].drop_last() =~= Seq::<Part>::empty());
}

/// Law: the vault root's upload endpoint is used exactly when the remote
/// folder has an empty URL path.
pub proof fn lemma_root_upload_url(base: Seq<char>, vault: Seq<char>, remote_dir: Seq<Part>)
    requires
        url_path_text(remote_dir).len() == 0,
    ensures
        spec_upload_url(base, vault, remote_dir) == spec_vault_url(base, vault, "upload"@),
{
}

/// Law: a file goes to the `upload` endpoint of the vault with the URL path
/// text of its remote folder, exactly as that text is, as path (the vault root
/// when the text is empty).
pub proof fn lemma_upload_url_takes_folder_text(
    base: Seq<char>,
    vault: Seq<char>,
    remote_dir: Seq<Part>,
)
    ensures
        spec_upload_url(base, vault, remote_dir) == spec_vault_url_with_path(
            base,
            vault,
            "upload"@,
            url_path_text(remote_dir),
        ),
{
    let text = url_path_text(remote_dir);
    if text.len() == 0 {
        assert(text =~= Seq::<char>::empty());
        let pieces = crate::text::split_on(text, '/');
        assert(pieces == seq![Seq::<char>::empty()]);
        assert(pieces.drop_last() =~= Seq::<Seq<char>>::empty());
        assert(remote_segments(pieces.drop_last()) =~= Seq::<Seq<char>>::empty());
        assert(remote_segments(pieces) =~= Seq::<Seq<char>>::empty());
        lemma_empty_path_adds_nothing(base, vault, "upload"@, text);
    }
}

} // verus!
