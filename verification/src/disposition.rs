//! Reading the file name a server suggests in a `Content-Disposition` header.
use vstd::prelude::*;
use crate::text::{
    free_of, lemma_split_pieces_free, lemma_trim_char_ends, lemma_trims_stay_free, trim_start_char,
    trim_start_space,
    chars_of, opt_view, split_chars, split_on, string_from_chars, trim_char, trim_char_chars,
    trim_space, trim_space_chars, views, sub_chars,
};

verus! {

/// `filename=` in lower case.
pub open spec fn filename_key_lower() -> Seq<char> {
    seq!['f', 'i', 'l', 'e', 'n', 'a', 'm', 'e', '=']
}

/// `FILENAME=` in upper case.
pub open spec fn filename_key_upper() -> Seq<char> {
    seq!['F', 'I', 'L', 'E', 'N', 'A', 'M', 'E', '=']
}

/// Whether `t` starts with `filename=`, letters compared without regard to case.
///
/// This is exactly when the lower-cased `t` starts with `filename=`: the only
/// non-ASCII characters whose lower case begins with an ASCII letter of the key
/// are U+0130 (lower case "i" followed by U+0307, which the key never continues
/// with) and U+212A (lower case "k", not in the key).
pub open spec fn has_filename_key(t: Seq<char>) -> bool {
    &&& t.len() >= 9
    &&& forall|i: int|
        0 <= i < 9 ==> #[trigger] t[i] == filename_key_lower()[i] || t[i]
            == filename_key_upper()[i]
}

/// The file name one `;`-separated piece of the header gives, if any: the text
/// after `filename=` in the trimmed piece, with surrounding double quotes
/// removed, when that text is not empty.
pub open spec fn piece_filename(piece: Seq<char>) -> Option<Seq<char>> {
    let t = trim_space(piece);
    if has_filename_key(t) {
        let value = trim_char(t.skip(9), '"');
        if value.len() > 0 {
            Some(value)
        } else {
            None
        }
    } else {
        None
    }
}

/// The file name given by the first piece that gives one.
pub open spec fn first_filename(pieces: Seq<Seq<char>>) -> Option<Seq<char>>
    decreases pieces.len(),
{
    if pieces.len() == 0 {
        None
    } else {
        match first_filename(pieces.drop_last()) {
            Some(name) => Some(name),
            None => piece_filename(pieces.last()),
        }
    }
}

/// The file name a `Content-Disposition` header value names.
pub open spec fn disposition_filename(header: Seq<char>) -> Option<Seq<char>> {
    first_filename(split_on(header, ';'))
}

/// Once a prefix of the pieces names a file, so do all the pieces.
proof fn lemma_first_filename_prefix(pieces: Seq<Seq<char>>, k: int)
    requires
        0 <= k <= pieces.len(),
        first_filename(pieces.take(k)) is Some,
    ensures
        first_filename(pieces) == first_filename(pieces.take(k)),
    decreases pieces.len() - k,
{
    if k < pieces.len() {
        assert(pieces.take(k + 1).drop_last() =~= pieces.take(k));
        lemma_first_filename_prefix(pieces, k + 1);
    } else {
        assert(pieces.take(k) =~= pieces);
    }
}

/// Some piece gives the name that the pieces give.
proof fn lemma_first_filename_from_piece(pieces: Seq<Seq<char>>)
    ensures
        first_filename(pieces) matches Some(n) ==> exists|i: int|
            0 <= i < pieces.len() && piece_filename(#[trigger] pieces[i]) == Some(n),
    decreases pieces.len(),
{
    if pieces.len() > 0 {
        lemma_first_filename_from_piece(pieces.drop_last());
        match first_filename(pieces.drop_last()) {
            Some(n) => {
                let i = choose|i: int|
                    0 <= i < pieces.drop_last().len() && piece_filename(
                        #[trigger] pieces.drop_last()[i],
                    ) == Some(n);
                assert(pieces[i] == pieces.drop_last()[i]);
            },
            None => {
                assert(pieces[pieces.len() - 1] == pieces.last());
            },
        }
    }
}

/// The name a piece free of `;` gives has the shape of the law below.
proof fn lemma_piece_filename_shape(piece: Seq<char>)
    requires
        free_of(piece, ';'),
    ensures
        piece_filename(piece) matches Some(n) ==> n.len() > 0 && n[0] != '"' && n.last() != '"'
            && free_of(n, ';'),
{
    let t = trim_space(piece);
    lemma_trims_stay_free(piece, ';', '"');
    lemma_trims_stay_free(trim_start_space(piece), ';', '"');
    if has_filename_key(t) {
        let rest = t.skip(9);
        assert(free_of(rest, ';'));
        lemma_trims_stay_free(rest, ';', '"');
        lemma_trims_stay_free(trim_start_char(rest, '"'), ';', '"');
        lemma_trim_char_ends(rest, '"');
    }
}

/// Law: a file name read from a `Content-Disposition` header is never empty,
/// keeps no double quote at either end, and holds no `;`.
pub proof fn lemma_disposition_name_shape(header: Seq<char>)
    ensures
        disposition_filename(header) matches Some(n) ==> n.len() > 0 && n[0] != '"' && n.last()
            != '"' && free_of(n, ';'),
{
    let pieces = split_on(header, ';');
    lemma_first_filename_from_piece(pieces);
    lemma_split_pieces_free(header, ';');
    if let Some(n) = first_filename(pieces) {
        let i = choose|i: int| 0 <= i < pieces.len() && piece_filename(#[trigger] pieces[i]) == Some(n);
        lemma_piece_filename_shape(pieces[i]);
    }
}

/// Whether `key` is `filename=` written in any case.
pub open spec fn is_filename_key(key: Seq<char>) -> bool {
    &&& key.len() == 9
    &&& forall|i: int|
        0 <= i < 9 ==> #[trigger] key[i] == filename_key_lower()[i] || key[i]
            == filename_key_upper()[i]
}

/// `attachment; ` followed by `key` and `value`.
pub open spec fn attachment_header(key: Seq<char>, value: Seq<char>) -> Seq<char> {
    seq!['a', 't', 't', 'a', 'c', 'h', 'm', 'e', 'n', 't', ';', ' '] + key + value
}

/// In `attachment; <key><v>` the name read is `v` without surrounding `"`.
proof fn lemma_attachment_value(key: Seq<char>, v: Seq<char>)
    requires
        is_filename_key(key),
        v.len() > 0,
        free_of(v, ';'),
        !crate::text::is_space(v.last()),
    ensures
        disposition_filename(attachment_header(key, v)) == (if trim_char(v, '"').len() > 0 {
            Some(trim_char(v, '"'))
        } else {
            None
        }),
{
    let kind = seq!['a', 't', 't', 'a', 'c', 'h', 'm', 'e', 'n', 't'];
    let t = key + v;
    let piece = seq![' '] + t;
    let header = attachment_header(key, v);
    assert(header =~= kind.push(';') + piece);
    assert forall|i: int| 0 <= i < piece.len() implies #[trigger] piece[i] != ';' by {
        if 1 <= i < 10 {
            assert(piece[i] == key[i - 1]);
            assert(key[i - 1] == filename_key_lower()[i - 1] || key[i - 1]
                == filename_key_upper()[i - 1]);
        } else if 10 <= i {
            assert(piece[i] == v[i - 10]);
        }
    }
    assert forall|i: int| 0 <= i < kind.len() implies #[trigger] kind[i] != ';' by {}
    crate::text::lemma_split_on_free(kind, ';');
    crate::text::lemma_split_on_append_piece(kind, ';', piece);
    let pieces = split_on(header, ';');
    assert(pieces =~= seq![kind, piece]);
    assert(pieces.drop_last() =~= seq![kind]);
    assert(seq![kind].drop_last() =~= Seq::<Seq<char>>::empty());
    // The first piece names no file.
    assert(trim_start_space(kind) == kind);
    assert(crate::text::trim_end_space(kind) == kind);
    assert(!has_filename_key(kind)) by {
        assert(kind[0] == 'a');
    }
    assert(first_filename(Seq::<Seq<char>>::empty()) is None);
    assert(seq![kind].last() == kind);
    assert(first_filename(seq![kind]) == piece_filename(kind));
    assert(pieces.last() == piece);
    // The second piece: one leading space, none at the end.
    assert(piece[0] == ' ');
    assert(piece.drop_first() =~= t);
    assert(t[0] == key[0]);
    assert(t[0] == filename_key_lower()[0] || t[0] == filename_key_upper()[0]);
    assert(trim_start_space(t) == t);
    assert(trim_start_space(piece) == t);
    assert(t.last() == v.last());
    assert(crate::text::trim_end_space(t) == t);
    assert(trim_space(piece) == t);
    assert forall|i: int| 0 <= i < 9 implies #[trigger] t[i] == filename_key_lower()[i] || t[i]
        == filename_key_upper()[i] by {
        assert(t[i] == key[i]);
    }
    assert(has_filename_key(t));
    assert(t.skip(9) =~= v);
}

/// Law: in `attachment; filename="<n>"`, with the key `filename=` written in
/// any case, the name read is the whole of `n`, spaces included, for every
/// non-empty `n` without `;` and without `"` at either end.
pub proof fn lemma_quoted_filename_read_whole(key: Seq<char>, n: Seq<char>)
    requires
        is_filename_key(key),
        n.len() > 0,
        free_of(n, ';'),
        n[0] != '"',
        n.last() != '"',
    ensures
        disposition_filename(attachment_header(key, seq!['"'] + n + seq!['"'])) == Some(n),
{
    let value = seq!['"'] + n + seq!['"'];
    assert forall|i: int| 0 <= i < value.len() implies #[trigger] value[i] != ';' by {
        if 1 <= i < value.len() - 1 {
            assert(value[i] == n[i - 1]);
        }
    }
    assert(value.last() == '"');
    lemma_attachment_value(key, value);
    assert(value.drop_first() =~= n + seq!['"']);
    assert((n + seq!['"'])[0] == n[0]);
    assert(trim_start_char(n + seq!['"'], '"') == n + seq!['"']);
    assert(trim_start_char(value, '"') == n + seq!['"']);
    assert((n + seq!['"']).drop_last() =~= n);
    assert(crate::text::trim_end_char(n, '"') == n);
    assert(trim_char(value, '"') == n);
}

/// Law: in `attachment; filename=<n>` without quotes, with the key written in
/// any case, the name read is the whole of `n`, for every non-empty `n`
/// without `;`, without `"` at either end and not ending in whitespace.
pub proof fn lemma_bare_filename_read_whole(key: Seq<char>, n: Seq<char>)
    requires
        is_filename_key(key),
        n.len() > 0,
        free_of(n, ';'),
        n[0] != '"',
        n.last() != '"',
        !crate::text::is_space(n.last()),
    ensures
        disposition_filename(attachment_header(key, n)) == Some(n),
{
    lemma_attachment_value(key, n);
    assert(trim_start_char(n, '"') == n);
    assert(crate::text::trim_end_char(n, '"') == n);
}

fn has_filename_key_exec(t: &Vec<char>) -> (r: bool)
    ensures
        r == has_filename_key(t@),
{
    if t.len() < 9 {
        return false;
    }
    let lower = ['f', 'i', 'l', 'e', 'n', 'a', 'm', 'e', '='];
    let upper = ['F', 'I', 'L', 'E', 'N', 'A', 'M', 'E', '='];
    assert(lower@ =~= filename_key_lower());
    assert(upper@ =~= filename_key_upper());
    let mut i: usize = 0;
    while i < 9
        invariant
            t@.len() >= 9,
            lower@ == filename_key_lower(),
            upper@ == filename_key_upper(),
            i <= 9,
            forall|j: int| 0 <= j < i ==> #[trigger] t@[j] == lower@[j] || t@[j] == upper@[j],
        decreases 9 - i,
    {
        if t[i] != lower[i] && t[i] != upper[i] {
            return false;
        }
        i = i + 1;
    }
    true
}

fn piece_filename_exec(piece: &Vec<char>) -> (r: Option<Vec<char>>)
    ensures
        match r {
            Some(v) => piece_filename(piece@) == Some(v@),
            None => piece_filename(piece@) is None,
        },
{
    let t = trim_space_chars(piece.as_slice());
    if !has_filename_key_exec(&t) {
        return None;
    }
    let rest = sub_chars(t.as_slice(), 9, t.len());
    assert(rest@ =~= t@.skip(9));
    let value = trim_char_chars(rest.as_slice(), '"');
    if value.len() > 0 {
        Some(value)
    } else {
        None
    }
}

/// Parses the `Content-Disposition` header and returns the `filename=` value
/// when present, e.g. `attachment; filename="report.pdf"` gives `report.pdf`.
pub fn parse_content_disposition_filename(header: &str) -> (r: Option<String>)
    ensures
        opt_view(r) == disposition_filename(header@),
{
    let chars = chars_of(header);
    let pieces = split_chars(chars.as_slice(), ';');
    let ghost ps = split_on(header@, ';');
    assert(views(pieces@) == ps);
    assert(ps.take(0) =~= Seq::<Seq<char>>::empty());
    let mut i: usize = 0;
    while i < pieces.len()
        invariant
            ps == split_on(header@, ';'),
            views(pieces@) == ps,
            ps.len() == pieces@.len(),
            i <= pieces@.len(),
            first_filename(ps.take(i as int)) is None,
        decreases pieces@.len() - i,
    {
        assert(ps[i as int] == pieces@[i as int]@);
        assert(ps.take(i + 1).drop_last() =~= ps.take(i as int));
        assert(ps.take(i + 1).last() == ps[i as int]);
        match piece_filename_exec(&pieces[i]) {
            Some(v) => {
                proof {
                    assert(first_filename(ps.take(i + 1)) == Some(v@));
                    lemma_first_filename_prefix(ps, i + 1);
                }
                return Some(string_from_chars(v.as_slice()));
            },
            None => {},
        }
        i = i + 1;
    }
    assert(ps.take(pieces@.len() as int) =~= ps);
    None
}

} // verus!
