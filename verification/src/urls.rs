//! Endpoint URLs of the vault API: `<server>/inbox/<vault>/<operation>[/<path>]`.
use vstd::prelude::*;
use crate::paths::is_skipped_segment;
use crate::text::{
    chars_of, free_of, join_with, lemma_join_split, lemma_trim_end_char_shape, split_chars, split_on, string_from_chars,
    trim_end_char, views,
};

verus! {

/// Why an endpoint URL could not be formed from the server URL.
#[derive(Debug, PartialEq, Eq, Structural)]
pub enum UrlError {
    /// The server URL does not parse as a URL.
    InvalidServerUrl,
    /// The server URL parses but cannot carry path segments (e.g. `mailto:`).
    CannotBeABase,
    /// The URL would be longer than the 4 GiB (`u32::MAX` bytes) that the URL
    /// type can index: the parsed server URL plus, for each appended segment,
    /// a `/` and twelve bytes per character would not fit.
    TooLong,
}

/// Whether `Url::parse` accepts `base`.
pub uninterp spec fn url_parses(base: Seq<char>) -> bool;

/// Whether the URL that `Url::parse` makes of `base` gives access to its path
/// segments (`Url::path_segments_mut` succeeds, i.e. it is not cannot-be-a-base).
pub uninterp spec fn url_can_be_base(base: Seq<char>) -> bool;

/// The length in bytes of the text (`Url::as_str`) of the URL that
/// `Url::parse` makes of `base`.
pub uninterp spec fn parsed_url_len(base: Seq<char>) -> nat;

/// The text of the URL parsed from `base` after `PathSegmentsMut::extend`
/// appended `segments` to its path.
pub uninterp spec fn url_with_segments(base: Seq<char>, segments: Seq<Seq<char>>) -> Seq<char>;

/// The most bytes that appending `segments` adds to a URL's text: a `/` per
/// segment, and per character at most four bytes of UTF-8, each written as a
/// three-byte percent escape.
pub open spec fn appended_len_bound(segments: Seq<Seq<char>>) -> int
    decreases segments.len(),
{
    if segments.len() == 0 {
        0
    } else {
        appended_len_bound(segments.drop_last()) + 1 + 12 * segments.last().len()
    }
}

/// Whether the URL parsed from `base`, with `segments` appended, stays within
/// `u32::MAX` bytes by the bound above.
pub open spec fn url_fits(base: Seq<char>, segments: Seq<Seq<char>>) -> bool {
    parsed_url_len(base) + appended_len_bound(segments) <= u32::MAX
}

/// Whether `c` is an ASCII letter or digit, `-`, `.`, `_` or `~`: a character
/// that no percent-encode set of a URL path holds.
pub open spec fn unreserved_char(c: char) -> bool {
    ('a' <= c && c <= 'z') || ('A' <= c && c <= 'Z') || ('0' <= c && c <= '9') || c == '-' || c
        == '.' || c == '_' || c == '~'
}

/// Whether a segment goes into a URL path as it stands: not empty, neither
/// `.` nor `..`, and made of unreserved characters only.
pub open spec fn plain_segment(seg: Seq<char>) -> bool {
    &&& seg.len() > 0
    &&& seg != seq!['.']
    &&& seg != seq!['.', '.']
    &&& forall|i: int| 0 <= i < seg.len() ==> #[trigger] unreserved_char(seg[i])
}

/// `/` before each segment: the text that appending plain segments adds.
pub open spec fn slash_prefixed(segments: Seq<Seq<char>>) -> Seq<char>
    decreases segments.len(),
{
    if segments.len() == 0 {
        Seq::<char>::empty()
    } else {
        slash_prefixed(segments.drop_last()).push('/') + segments.last()
    }
}

/// Whether `base` starts with `http://` or `https://` and holds neither `?`
/// nor `#`, so that the URL parsed from it has no query and no fragment.
pub open spec fn plain_http_base(base: Seq<char>) -> bool {
    &&& (base.len() >= 7 && base.take(7) == seq!['h', 't', 't', 'p', ':', '/', '/'] || base.len()
        >= 8 && base.take(8) == seq![
        'h',
        't',
        't',
        'p',
        's',
        ':',
        '/',
        '/',
    ])
    &&& free_of(base, '?')
    &&& free_of(base, '#')
}

/// Whether the URL text of `base` with `segments` appended is the text with
/// the first `k` of them appended, then `/` and each further segment.
pub open spec fn appends_plainly(base: Seq<char>, segments: Seq<Seq<char>>, k: int) -> bool {
    url_with_segments(base, segments) == url_with_segments(base, segments.take(k)) + slash_prefixed(
        segments.skip(k),
    )
}

/// Whether the segments from `k` on are plain.
pub open spec fn plain_from(segments: Seq<Seq<char>>, k: int) -> bool {
    forall|j: int| k <= j < segments.len() ==> #[trigger] plain_segment(segments[j])
}

/// Whether `seg` holds no ASCII tab, line feed or carriage return, the
/// characters that URL parsing drops.
pub open spec fn no_tab_or_newline(seg: Seq<char>) -> bool {
    free_of(seg, '\t') && free_of(seg, '\n') && free_of(seg, '\r')
}

/// What the source of `PathSegmentsMut::extend` shows for an `http(s)` URL
/// without query or fragment, segments without tab or newline, and a plain
/// first segment: each further plain segment adds `/` and itself.
pub open spec fn extends_plainly(base: Seq<char>, segments: Seq<Seq<char>>) -> bool {
    (plain_http_base(base) && segments.len() > 0 && plain_segment(segments[0]) && (forall|j: int|
        0 <= j < segments.len() ==> #[trigger] no_tab_or_newline(segments[j]))) ==> forall|k: int|
        1 <= k <= segments.len() && plain_from(segments, k) ==> #[trigger] appends_plainly(
            base,
            segments,
            k,
        )
}

/// The outcome of appending `segments` to the path of the server URL `base`.
pub open spec fn url_result(base: Seq<char>, segments: Seq<Seq<char>>) -> Result<
    Seq<char>,
    UrlError,
> {
    if !url_parses(base) {
        Err(UrlError::InvalidServerUrl)
    } else if !url_can_be_base(base) {
        Err(UrlError::CannotBeABase)
    } else if !url_fits(base, segments) {
        Err(UrlError::TooLong)
    } else {
        Ok(url_with_segments(base, segments))
    }
}

/// The view of a URL outcome.
pub open spec fn url_view(r: Result<String, UrlError>) -> Result<Seq<char>, UrlError> {
    match r {
        Ok(s) => Ok(s@),
        Err(e) => Err(e),
    }
}

/// The views of a sequence of strings.
pub open spec fn string_views(v: Seq<String>) -> Seq<Seq<char>> {
    v.map_values(|s: String| s@)
}

/// Parses `base` and tells, where it parses, the length in bytes of the URL's
/// text and whether the URL is cannot-be-a-base.
///
/// Trusted: calls `url::Url::parse` (through `reqwest::Url`), then `Url::as_str`
/// (whose length is named by `parsed_url_len`) and `Url::cannot_be_a_base`, the
/// test by which `Url::path_segments_mut` refuses to hand out the segments.
#[verifier::external_body]
fn parsed_url_shape(base: &str) -> (r: Option<(usize, bool)>)
    ensures
        r is Some <==> url_parses(base@),
        r matches Some((len, cannot_be_a_base)) ==> len == parsed_url_len(base@)
            && cannot_be_a_base == !url_can_be_base(base@),
{
    match reqwest::Url::parse(base) {
        Ok(url) => Some((url.as_str().len(), url.cannot_be_a_base())),
        Err(_) => None,
    }
}

/// Appends `segments` to the path of the server URL `base` and returns the
/// resulting URL text.
///
/// Trusted: parses `base` with `url::Url::parse` (through `reqwest::Url`),
/// takes `Url::path_segments_mut` and calls `PathSegmentsMut::extend` with the
/// segments, then converts the URL into its text. The contract says that the
/// outcome is a function of `base` and `segments` alone: which error comes is
/// decided by `base` (parse failure first, then cannot-be-a-base), and the text
/// is named by `url_with_segments`. How segments are percent-encoded, and that
/// `.` and `..` segments are ignored, is left to that name, with one fact
/// that `extend`'s source shows (`extends_plainly`): for an `http(s)` URL
/// without `?` or `#`, once a plain first segment is in the path, the path is
/// longer than `/`; it stays so, since a segment other than `.` and `..`
/// (which are skipped) can only shorten it by becoming `..` when tabs or line
/// breaks are dropped from it, and `%` is escaped; so each further segment
/// gets a `/` before it, a plain segment holds no character of the
/// percent-encode set it is written with, and nothing follows the path. `PathSegmentsMut`
/// converts the length of the text to `u32` with `unwrap` when it is made and
/// when it is dropped, so `requires` keeps the parsed text plus what the
/// segments can add (`appended_len_bound`) within `u32::MAX` bytes.
#[verifier::external_body]
fn extend_url_path(base: &str, segments: &Vec<String>) -> (r: Result<String, UrlError>)
    requires
        url_parses(base@) && url_can_be_base(base@) ==> url_fits(base@, string_views(segments@)),
    ensures
        match r {
            Ok(text) => url_parses(base@) && url_can_be_base(base@) && text@ == url_with_segments(
                base@,
                string_views(segments@),
            ),
            Err(UrlError::InvalidServerUrl) => !url_parses(base@),
            Err(UrlError::CannotBeABase) => url_parses(base@) && !url_can_be_base(base@),
            Err(UrlError::TooLong) => false,
        },
        r is Ok ==> extends_plainly(base@, string_views(segments@)),
{
    let mut url = match reqwest::Url::parse(base) {
        Ok(url) => url,
        Err(_) => return Err(UrlError::InvalidServerUrl),
    };
    match url.path_segments_mut() {
        Ok(mut path) => {
            path.extend(segments.iter());
        },
        Err(()) => return Err(UrlError::CannotBeABase),
    }
    Ok(url.into())
}

proof fn lemma_appended_len_bound_step(segments: Seq<Seq<char>>, i: int)
    requires
        0 <= i < segments.len(),
    ensures
        appended_len_bound(segments.take(i + 1)) == appended_len_bound(segments.take(i)) + 1 + 12
            * segments[i].len(),
{
    assert(segments.take(i + 1).drop_last() =~= segments.take(i));
}

proof fn lemma_appended_len_bound_prefix(segments: Seq<Seq<char>>, i: int)
    requires
        0 <= i <= segments.len(),
    ensures
        0 <= appended_len_bound(segments.take(i)) <= appended_len_bound(segments),
    decreases segments.len(),
{
    if i == segments.len() {
        assert(segments.take(i) =~= segments);
        if segments.len() > 0 {
            lemma_appended_len_bound_prefix(segments.drop_last(), i - 1);
        }
    } else {
        lemma_appended_len_bound_prefix(segments.drop_last(), i);
        assert(segments.drop_last().take(i) =~= segments.take(i));
    }
}

/// Appending two lists of segments adds what each adds.
pub proof fn lemma_appended_len_bound_concat(a: Seq<Seq<char>>, b: Seq<Seq<char>>)
    ensures
        appended_len_bound(a + b) == appended_len_bound(a) + appended_len_bound(b),
    decreases b.len(),
{
    if b.len() == 0 {
        assert(a + b =~= a);
    } else {
        lemma_appended_len_bound_concat(a, b.drop_last());
        assert((a + b).drop_last() =~= a + b.drop_last());
    }
}

/// Whether a URL text of `len` bytes, with `segments` appended, stays within
/// `u32::MAX` bytes by `appended_len_bound`.
pub fn fits_in_url(len: usize, segments: &Vec<String>) -> (ok: bool)
    ensures
        ok <==> len + appended_len_bound(string_views(segments@)) <= u32::MAX,
{
    let ghost views = string_views(segments@);
    let max: u64 = 0xFFFF_FFFF;
    proof {
        lemma_appended_len_bound_prefix(views, 0);
    }
    if len as u64 > max {
        return false;
    }
    let mut total: u64 = len as u64;
    let mut i: usize = 0;
    assert(views.take(0) =~= Seq::<Seq<char>>::empty());
    while i < segments.len()
        invariant
            views == string_views(segments@),
            i <= segments@.len(),
            total <= max,
            max == 0xFFFF_FFFFu64,
            total == len + appended_len_bound(views.take(i as int)),
        decreases segments@.len() - i,
    {
        let n = segments[i].as_str().unicode_len();
        proof {
            lemma_appended_len_bound_step(views, i as int);
            lemma_appended_len_bound_prefix(views, i + 1);
        }
        if n as u64 > max / 12 {
            return false;
        }
        let add: u64 = 1 + 12 * (n as u64);
        if total + add > max {
            return false;
        }
        total = total + add;
        i = i + 1;
    }
    assert(views.take(segments@.len() as int) =~= views);
    true
}

/// The outcome of appending `segments` to the path of the server URL `base`.
fn extend_checked(base_url: &str, segments: &Vec<String>) -> (r: Result<String, UrlError>)
    ensures
        url_view(r) == url_result(base_url@, string_views(segments@)),
        r is Ok ==> extends_plainly(base_url@, string_views(segments@)),
{
    match parsed_url_shape(base_url) {
        None => Err(UrlError::InvalidServerUrl),
        Some((len, cannot_be_a_base)) => {
            if cannot_be_a_base {
                Err(UrlError::CannotBeABase)
            } else if !fits_in_url(len, segments) {
                Err(UrlError::TooLong)
            } else {
                extend_url_path(base_url, segments)
            }
        },
    }
}

/// The segments of a remote path that go into a URL: the `/`-separated pieces
/// that are neither empty nor `.`.
pub open spec fn remote_segments(pieces: Seq<Seq<char>>) -> Seq<Seq<char>>
    decreases pieces.len(),
{
    if pieces.len() == 0 {
        Seq::<Seq<char>>::empty()
    } else {
        let prev = remote_segments(pieces.drop_last());
        if is_skipped_segment(pieces.last()) {
            prev
        } else {
            prev.push(pieces.last())
        }
    }
}

/// The segments `inbox`, the vault name and the operation.
pub open spec fn vault_segments(vault: Seq<char>, operation: Seq<char>) -> Seq<Seq<char>> {
    seq!["inbox"@, vault, operation]
}

/// `<base>/inbox/<vault>/<operation>`.
pub open spec fn spec_vault_url(base: Seq<char>, vault: Seq<char>, operation: Seq<char>) -> Result<
    Seq<char>,
    UrlError,
> {
    url_result(base, vault_segments(vault, operation))
}

/// `<base>/inbox/<vault>/<operation>/<segments of path>`.
pub open spec fn spec_vault_url_with_path(
    base: Seq<char>,
    vault: Seq<char>,
    operation: Seq<char>,
    path: Seq<char>,
) -> Result<Seq<char>, UrlError> {
    url_result(base, vault_segments(vault, operation) + remote_segments(split_on(path, '/')))
}

/// The server URL without trailing slashes (`str::trim_end_matches('/')`).
pub fn server_base_url(server: &str) -> (r: String)
    ensures
        r@ == trim_end_char(server@, '/'),
{
    let chars = chars_of(server);
    let mut hi = chars.len();
    assert(chars@.subrange(0, hi as int) =~= chars@);
    while hi > 0 && chars[hi - 1] == '/'
        invariant
            hi <= chars@.len(),
            chars@ == server@,
            trim_end_char(server@, '/') == trim_end_char(chars@.subrange(0, hi as int), '/'),
        decreases hi,
    {
        assert(chars@.subrange(0, hi as int).drop_last() =~= chars@.subrange(0, hi - 1));
        hi = hi - 1;
    }
    let kept = crate::text::sub_chars(chars.as_slice(), 0, hi);
    string_from_chars(kept.as_slice())
}

fn vault_segment_list(vault: &str, operation: &str) -> (r: Vec<String>)
    ensures
        string_views(r@) == vault_segments(vault@, operation@),
{
    let mut r: Vec<String> = Vec::new();
    r.push("inbox".to_string());
    r.push(vault.to_string());
    r.push(operation.to_string());
    assert(string_views(r@) =~= vault_segments(vault@, operation@));
    r
}

/// The URL of `operation` on `vault`: `<base>/inbox/<vault>/<operation>`.
pub fn vault_url(base_url: &str, vault: &str, operation: &str) -> (r: Result<String, UrlError>)
    ensures
        url_view(r) == spec_vault_url(base_url@, vault@, operation@),
{
    let segments = vault_segment_list(vault, operation);
    extend_checked(base_url, &segments)
}

/// The URL of `operation` on `vault` for a remote `path`:
/// `<base>/inbox/<vault>/<operation>` followed by the pieces of `path`
/// between `/` that are neither empty nor `.`.
pub fn vault_url_with_path(base_url: &str, vault: &str, operation: &str, path: &str) -> (r: Result<
    String,
    UrlError,
>)
    ensures
        url_view(r) == spec_vault_url_with_path(base_url@, vault@, operation@, path@),
        (r is Ok && plain_http_base(base_url@) && no_tab_or_newline(vault@) && no_tab_or_newline(
            operation@,
        ) && plain_from(remote_segments(split_on(path@, '/')), 0)) ==> spec_vault_url(base_url@, vault@, operation@) is Ok && r->Ok_0@ == spec_vault_url(
            base_url@,
            vault@,
            operation@,
        )->Ok_0 + slash_prefixed(remote_segments(split_on(path@, '/'))),
{
    let mut segments = vault_segment_list(vault, operation);
    let chars = chars_of(path);
    let pieces = split_chars(chars.as_slice(), '/');
    let ghost ps = split_on(path@, '/');
    let ghost head = string_views(segments@);
    let mut i: usize = 0;
    assert(ps.take(0) =~= Seq::<Seq<char>>::empty());
    assert(head =~= head + remote_segments(ps.take(0)));
    while i < pieces.len()
        invariant
            ps == split_on(path@, '/'),
            views(pieces@) == ps,
            head == vault_segments(vault@, operation@),
            i <= pieces@.len(),
            string_views(segments@) == head + remote_segments(ps.take(i as int)),
        decreases pieces@.len() - i,
    {
        let piece = &pieces[i];
        assert(ps[i as int] == piece@);
        assert(ps.take(i + 1).drop_last() =~= ps.take(i as int));
        let dot = piece.len() == 1 && piece[0] == '.';
        if dot {
            assert(piece@ =~= seq!['.']);
        } else {
            assert(!(piece@ =~= seq!['.']));
        }
        if piece.len() > 0 && !dot {
            let ghost before = string_views(segments@);
            segments.push(string_from_chars(piece.as_slice()));
            assert(string_views(segments@) =~= before.push(piece@));
        }
        i = i + 1;
        assert(string_views(segments@) =~= head + remote_segments(ps.take(i as int)));
    }
    assert(ps.take(pieces@.len() as int) =~= ps);
    let r = extend_checked(base_url, &segments);
    proof {
        let all = string_views(segments@);
        let tail = remote_segments(ps);
        if r is Ok && plain_http_base(base_url@) && no_tab_or_newline(vault@) && no_tab_or_newline(
            operation@,
        ) && plain_from(tail, 0) {
            reveal_strlit("inbox");
            let inbox = all[0];
            assert(inbox == "inbox"@);
            assert forall|k: int| 0 <= k < inbox.len() implies #[trigger] unreserved_char(inbox[k]) by {}
            assert(plain_segment(inbox));
            assert(no_tab_or_newline(inbox));
            assert forall|j: int| 0 <= j < all.len() implies #[trigger] no_tab_or_newline(all[j]) by {
                if j >= 3 {
                    assert(all[j] == tail[j - 3]);
                    assert(plain_segment(tail[j - 3]));
                    let t = tail[j - 3];
                    assert forall|c: int| 0 <= c < t.len() implies #[trigger] t[c] != '\t' by {
                        assert(unreserved_char(t[c]));
                    }
                    assert forall|c: int| 0 <= c < t.len() implies #[trigger] t[c] != '\n' by {
                        assert(unreserved_char(t[c]));
                    }
                    assert forall|c: int| 0 <= c < t.len() implies #[trigger] t[c] != '\r' by {
                        assert(unreserved_char(t[c]));
                    }
                }
            }
            assert(all.take(3) =~= head);
            assert(all.skip(3) =~= tail);
            assert forall|j: int| 3 <= j < all.len() implies #[trigger] plain_segment(all[j]) by {
                assert(all[j] == tail[j - 3]);
            }
            assert(appends_plainly(base_url@, all, 3));
            lemma_appended_len_bound_concat(head, tail);
            lemma_appended_len_bound_prefix(tail, 0);
        }
    }
    r
}

/// Law: the base URL of a run does not end with `/`, and it is the server URL
/// with only trailing slashes removed.
pub proof fn lemma_base_url_shape(server: Seq<char>)
    ensures
        trim_end_char(server, '/').len() == 0 || trim_end_char(server, '/').last() != '/',
        server.take(trim_end_char(server, '/').len() as int) == trim_end_char(server, '/'),
        forall|i: int|
            trim_end_char(server, '/').len() <= i < server.len() ==> #[trigger] server[i] == '/',
    decreases server.len(),
{
    lemma_trim_end_char_shape(server, '/');
    if server.len() > 0 && server.last() == '/' {
        lemma_base_url_shape(server.drop_last());
        assert forall|i: int|
            trim_end_char(server, '/').len() <= i < server.len() implies #[trigger] server[i]
            == '/' by {
            if i < server.len() - 1 {
                assert(server.drop_last()[i] == server[i]);
            }
        }
    }
}

/// Law: slashes added at the end of the server URL do not change the base URL,
/// and so no endpoint of a run.
pub proof fn lemma_trailing_slashes_do_not_matter(server: Seq<char>, extra: Seq<char>)
    requires
        forall|i: int| 0 <= i < extra.len() ==> #[trigger] extra[i] == '/',
    ensures
        trim_end_char(server + extra, '/') == trim_end_char(server, '/'),
    decreases extra.len(),
{
    if extra.len() > 0 {
        let shorter = extra.drop_last();
        assert forall|i: int| 0 <= i < shorter.len() implies #[trigger] shorter[i] == '/' by {
            assert(shorter[i] == extra[i]);
        }
        lemma_trailing_slashes_do_not_matter(server, shorter);
        assert((server + extra).drop_last() =~= server + shorter);
        assert((server + extra).last() == extra[extra.len() - 1]);
    } else {
        assert(server + extra =~= server);
    }
}

/// Law: a remote path whose pieces between `/` are all plain goes into the
/// URL as it stands: `vault_url_with_path` gives the URL of the operation,
/// `/` and the path (see its contract, which adds `/` and each segment).
pub proof fn lemma_plain_path_appends_as_is(path: Seq<char>)
    requires
        plain_from(split_on(path, '/'), 0),
    ensures
        slash_prefixed(remote_segments(split_on(path, '/'))) == seq!['/'] + path,
{
    let pieces = split_on(path, '/');
    lemma_remote_segments_of_plain(pieces);
    crate::text::lemma_split_on_nonempty(path, '/');
    lemma_slash_prefixed_join(pieces);
    lemma_join_split(path, '/');
}

proof fn lemma_remote_segments_of_plain(pieces: Seq<Seq<char>>)
    requires
        plain_from(pieces, 0),
    ensures
        remote_segments(pieces) == pieces,
    decreases pieces.len(),
{
    if pieces.len() > 0 {
        let init = pieces.drop_last();
        assert forall|j: int| 0 <= j < init.len() implies #[trigger] plain_segment(init[j]) by {
            assert(init[j] == pieces[j]);
        }
        lemma_remote_segments_of_plain(init);
        assert(plain_segment(pieces[pieces.len() - 1]));
        assert(!is_skipped_segment(pieces.last()));
        assert(init.push(pieces.last()) =~= pieces);
    }
}

proof fn lemma_slash_prefixed_join(pieces: Seq<Seq<char>>)
    requires
        pieces.len() > 0,
    ensures
        slash_prefixed(pieces) == seq!['/'] + join_with(pieces, '/'),
    decreases pieces.len(),
{
    let init = pieces.drop_last();
    if pieces.len() == 1 {
        assert(init =~= Seq::<Seq<char>>::empty());
        assert(slash_prefixed(init) =~= Seq::<char>::empty());
        assert(Seq::<char>::empty().push('/') + pieces.last() =~= seq!['/'] + pieces[0]);
    } else {
        lemma_slash_prefixed_join(init);
        assert((seq!['/'] + join_with(init, '/')).push('/') + pieces.last() =~= seq!['/'] + (join_with(
            init,
            '/',
        ).push('/') + pieces.last()));
    }
}

/// Law: a path that names no segment (empty, or only `/` and `.`) adds nothing:
/// the URL with that path is the URL without a path.
pub proof fn lemma_empty_path_adds_nothing(
    base: Seq<char>,
    vault: Seq<char>,
    operation: Seq<char>,
    path: Seq<char>,
)
    requires
        remote_segments(split_on(path, '/')).len() == 0,
    ensures
        spec_vault_url_with_path(base, vault, operation, path) == spec_vault_url(
            base,
            vault,
            operation,
        ),
{
    assert(vault_segments(vault, operation) + remote_segments(split_on(path, '/'))
        =~= vault_segments(vault, operation));
}

/// Law: whether the server URL parses and can carry a path depends on the
/// server URL alone. Where one endpoint fails for either reason, every
/// operation, vault and path fails with the same error; where one endpoint is
/// formed, another is formed unless it is too long.
pub proof fn lemma_url_outcome_depends_on_server_only(
    base: Seq<char>,
    vault1: Seq<char>,
    operation1: Seq<char>,
    vault2: Seq<char>,
    operation2: Seq<char>,
    path: Seq<char>,
)
    ensures
        spec_vault_url(base, vault1, operation1) matches Err(e) && e != UrlError::TooLong
            ==> spec_vault_url_with_path(base, vault2, operation2, path) == spec_vault_url(
            base,
            vault1,
            operation1,
        ),
        spec_vault_url(base, vault1, operation1) is Ok ==> (spec_vault_url_with_path(
            base,
            vault2,
            operation2,
            path,
        ) is Ok <==> url_fits(
            base,
            vault_segments(vault2, operation2) + remote_segments(split_on(path, '/')),
        )),
{
}

} // verus!
