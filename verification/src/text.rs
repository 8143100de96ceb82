//! Character-level helpers shared by the header, path and URL logic.
//!
//! Text is handled as sequences of `char`; the spec functions below state what
//! the std string operations used by the client compute on such sequences.
use vstd::prelude::*;
use vstd::string::StrSliceExecFns;

verus! {

/// Unicode `White_Space` characters, the set that `char::is_whitespace`
/// (and therefore `str::trim`) recognises.
pub open spec fn is_space(c: char) -> bool {
    ||| ('\u{9}' <= c && c <= '\u{d}')
    ||| c == ' '
    ||| c == '\u{85}'
    ||| c == '\u{a0}'
    ||| c == '\u{1680}'
    ||| ('\u{2000}' <= c && c <= '\u{200a}')
    ||| c == '\u{2028}'
    ||| c == '\u{2029}'
    ||| c == '\u{202f}'
    ||| c == '\u{205f}'
    ||| c == '\u{3000}'
}

pub fn char_is_space(c: char) -> (r: bool)
    ensures
        r == is_space(c),
{
    ('\u{9}' <= c && c <= '\u{d}') || c == ' ' || c == '\u{85}' || c == '\u{a0}' || c == '\u{1680}'
        || ('\u{2000}' <= c && c <= '\u{200a}') || c == '\u{2028}' || c == '\u{2029}' || c
        == '\u{202f}' || c == '\u{205f}' || c == '\u{3000}'
}

/// `s` without its leading whitespace.
pub open spec fn trim_start_space(s: Seq<char>) -> Seq<char>
    decreases s.len(),
{
    if s.len() > 0 && is_space(s[0]) {
        trim_start_space(s.drop_first())
    } else {
        s
    }
}

/// `s` without its trailing whitespace.
pub open spec fn trim_end_space(s: Seq<char>) -> Seq<char>
    decreases s.len(),
{
    if s.len() > 0 && is_space(s.last()) {
        trim_end_space(s.drop_last())
    } else {
        s
    }
}

/// `str::trim`: whitespace removed from both ends.
pub open spec fn trim_space(s: Seq<char>) -> Seq<char> {
    trim_end_space(trim_start_space(s))
}

/// `s` without every leading occurrence of `c`.
pub open spec fn trim_start_char(s: Seq<char>, c: char) -> Seq<char>
    decreases s.len(),
{
    if s.len() > 0 && s[0] == c {
        trim_start_char(s.drop_first(), c)
    } else {
        s
    }
}

/// `s` without every trailing occurrence of `c`.
pub open spec fn trim_end_char(s: Seq<char>, c: char) -> Seq<char>
    decreases s.len(),
{
    if s.len() > 0 && s.last() == c {
        trim_end_char(s.drop_last(), c)
    } else {
        s
    }
}

/// `str::trim_matches(c)` for a single character `c`.
pub open spec fn trim_char(s: Seq<char>, c: char) -> Seq<char> {
    trim_end_char(trim_start_char(s, c), c)
}

/// The pieces of `s` between occurrences of `sep`, as `str::split(sep)`
/// yields them: there is always at least one piece, and two adjacent
/// separators give an empty piece.
pub open spec fn split_on(s: Seq<char>, sep: char) -> Seq<Seq<char>>
    decreases s.len(),
{
    if s.len() == 0 {
        seq![Seq::<char>::empty()]
    } else {
        let prev = split_on(s.drop_last(), sep);
        if s.last() == sep {
            prev.push(Seq::<char>::empty())
        } else {
            prev.update(prev.len() - 1, prev.last().push(s.last()))
        }
    }
}

/// `s` with every `from` replaced by `to`.
pub open spec fn replace_char(s: Seq<char>, from: char, to: char) -> Seq<char> {
    s.map_values(|c: char| if c == from { to } else { c })
}

/// The pieces joined with `sep` between neighbours, as `[T]::join`.
pub open spec fn join_with(pieces: Seq<Seq<char>>, sep: char) -> Seq<char>
    decreases pieces.len(),
{
    if pieces.len() == 0 {
        Seq::<char>::empty()
    } else if pieces.len() == 1 {
        pieces[0]
    } else {
        join_with(pieces.drop_last(), sep).push(sep) + pieces.last()
    }
}

/// Whether `s` ends with `suffix`.
pub open spec fn ends_with(s: Seq<char>, suffix: Seq<char>) -> bool {
    suffix.len() <= s.len() && s.subrange(s.len() - suffix.len(), s.len() as int) == suffix
}

/// `str::strip_suffix(suffix).unwrap_or(s)`.
pub open spec fn strip_suffix_or_keep(s: Seq<char>, suffix: Seq<char>) -> Seq<char> {
    if ends_with(s, suffix) {
        s.subrange(0, s.len() - suffix.len())
    } else {
        s
    }
}

pub proof fn lemma_split_on_nonempty(s: Seq<char>, sep: char)
    ensures
        split_on(s, sep).len() >= 1,
    decreases s.len(),
{
    if s.len() > 0 {
        lemma_split_on_nonempty(s.drop_last(), sep);
    }
}

/// The views of a sequence of character vectors.
pub open spec fn views(v: Seq<Vec<char>>) -> Seq<Seq<char>> {
    v.map_values(|x: Vec<char>| x@)
}

/// The view of an optional `String`.
pub open spec fn opt_view(o: Option<String>) -> Option<Seq<char>> {
    match o {
        Some(s) => Some(s@),
        None => None,
    }
}

/// The characters `s[lo..hi]`.
pub fn sub_chars(s: &[char], lo: usize, hi: usize) -> (r: Vec<char>)
    requires
        lo <= hi <= s@.len(),
    ensures
        r@ == s@.subrange(lo as int, hi as int),
{
    let mut r: Vec<char> = Vec::new();
    let mut i = lo;
    while i < hi
        invariant
            lo <= i <= hi <= s@.len(),
            r@ == s@.subrange(lo as int, i as int),
        decreases hi - i,
    {
        r.push(s[i]);
        i = i + 1;
        assert(r@ =~= s@.subrange(lo as int, i as int));
    }
    r
}

/// `str::trim` on a character sequence.
pub fn trim_space_chars(s: &[char]) -> (r: Vec<char>)
    ensures
        r@ == trim_space(s@),
{
    let n = s.len();
    let mut lo: usize = 0;
    assert(s@.skip(0) =~= s@);
    while lo < n && char_is_space(s[lo])
        invariant
            n == s@.len(),
            lo <= n,
            trim_start_space(s@) == trim_start_space(s@.skip(lo as int)),
        decreases n - lo,
    {
        assert(s@.skip(lo as int).drop_first() =~= s@.skip(lo + 1));
        lo = lo + 1;
    }
    let ghost t = s@.skip(lo as int);
    assert(trim_start_space(s@) == t);
    let mut hi: usize = n;
    while hi > lo && char_is_space(s[hi - 1])
        invariant
            n == s@.len(),
            lo <= hi <= n,
            t == s@.subrange(lo as int, n as int),
            trim_end_space(t) == trim_end_space(s@.subrange(lo as int, hi as int)),
        decreases hi - lo,
    {
        assert(s@.subrange(lo as int, hi as int).drop_last() =~= s@.subrange(lo as int, hi - 1));
        hi = hi - 1;
    }
    assert(t =~= s@.subrange(lo as int, n as int));
    sub_chars(s, lo, hi)
}

/// `str::trim_matches(c)` on a character sequence.
pub fn trim_char_chars(s: &[char], c: char) -> (r: Vec<char>)
    ensures
        r@ == trim_char(s@, c),
{
    let n = s.len();
    let mut lo: usize = 0;
    assert(s@.skip(0) =~= s@);
    while lo < n && s[lo] == c
        invariant
            n == s@.len(),
            lo <= n,
            trim_start_char(s@, c) == trim_start_char(s@.skip(lo as int), c),
        decreases n - lo,
    {
        assert(s@.skip(lo as int).drop_first() =~= s@.skip(lo + 1));
        lo = lo + 1;
    }
    let ghost t = s@.skip(lo as int);
    assert(trim_start_char(s@, c) == t);
    let mut hi: usize = n;
    while hi > lo && s[hi - 1] == c
        invariant
            n == s@.len(),
            lo <= hi <= n,
            t == s@.subrange(lo as int, n as int),
            trim_end_char(t, c) == trim_end_char(s@.subrange(lo as int, hi as int), c),
        decreases hi - lo,
    {
        assert(s@.subrange(lo as int, hi as int).drop_last() =~= s@.subrange(lo as int, hi - 1));
        hi = hi - 1;
    }
    assert(t =~= s@.subrange(lo as int, n as int));
    sub_chars(s, lo, hi)
}

/// `str::split(sep)` on a character sequence.
pub fn split_chars(s: &[char], sep: char) -> (r: Vec<Vec<char>>)
    ensures
        views(r@) == split_on(s@, sep),
{
    let n = s.len();
    let mut pieces: Vec<Vec<char>> = Vec::new();
    let mut cur: Vec<char> = Vec::new();
    let mut i: usize = 0;
    assert(s@.take(0) =~= Seq::<char>::empty());
    assert(views(pieces@).push(cur@) =~= split_on(s@.take(0), sep));
    while i < n
        invariant
            n == s@.len(),
            i <= n,
            views(pieces@).push(cur@) == split_on(s@.take(i as int), sep),
        decreases n - i,
    {
        let c = s[i];
        let ghost prev = split_on(s@.take(i as int), sep);
        assert(s@.take(i + 1).drop_last() =~= s@.take(i as int));
        if c == sep {
            pieces.push(cur);
            cur = Vec::new();
            assert(views(pieces@).push(cur@) =~= prev.push(Seq::<char>::empty()));
        } else {
            cur.push(c);
            assert(views(pieces@).push(cur@) =~= prev.update(prev.len() - 1, prev.last().push(c)));
        }
        i = i + 1;
    }
    assert(s@.take(n as int) =~= s@);
    pieces.push(cur);
    assert(views(pieces@) =~= split_on(s@, sep));
    pieces
}

/// Whether `c` does not occur in `s`.
pub open spec fn free_of(s: Seq<char>, c: char) -> bool {
    forall|i: int| 0 <= i < s.len() ==> #[trigger] s[i] != c
}

/// A text without the separator splits into itself alone.
pub proof fn lemma_split_on_free(s: Seq<char>, sep: char)
    requires
        free_of(s, sep),
    ensures
        split_on(s, sep) == seq![s],
    decreases s.len(),
{
    if s.len() > 0 {
        let init = s.drop_last();
        assert forall|i: int| 0 <= i < init.len() implies #[trigger] init[i] != sep by {
            assert(init[i] == s[i]);
        }
        lemma_split_on_free(init, sep);
        assert(s[s.len() - 1] != sep);
        assert(init.push(s.last()) =~= s);
        assert(seq![init].update(0, init.push(s.last())) =~= seq![s]);
    } else {
        assert(s =~= Seq::<char>::empty());
    }
}

/// Splitting `s`, a separator and a piece without the separator gives the
/// pieces of `s` followed by that piece.
pub proof fn lemma_split_on_append_piece(s: Seq<char>, sep: char, b: Seq<char>)
    requires
        free_of(b, sep),
    ensures
        split_on(s.push(sep) + b, sep) == split_on(s, sep).push(b),
    decreases b.len(),
{
    let x = s.push(sep) + b;
    if b.len() == 0 {
        assert(x =~= s.push(sep));
        assert(x.drop_last() =~= s);
        assert(x.last() == sep);
        assert(b =~= Seq::<char>::empty());
    } else {
        let init = b.drop_last();
        assert forall|i: int| 0 <= i < init.len() implies #[trigger] init[i] != sep by {
            assert(init[i] == b[i]);
        }
        lemma_split_on_append_piece(s, sep, init);
        assert(x.drop_last() =~= s.push(sep) + init);
        assert(x.last() == b[b.len() - 1]);
        assert(init.push(b.last()) =~= b);
        let prev = split_on(s, sep).push(init);
        assert(split_on(x.drop_last(), sep) == prev);
        assert(x.last() != sep);
        assert(prev.update(prev.len() - 1, prev.last().push(x.last())) =~= split_on(s, sep).push(b));
    }
}

/// Pieces without the separator, joined with it, split back into themselves.
pub proof fn lemma_split_join(pieces: Seq<Seq<char>>, sep: char)
    requires
        pieces.len() > 0,
        forall|i: int| 0 <= i < pieces.len() ==> free_of(#[trigger] pieces[i], sep),
    ensures
        split_on(join_with(pieces, sep), sep) == pieces,
    decreases pieces.len(),
{
    if pieces.len() == 1 {
        assert(free_of(pieces[0], sep));
        lemma_split_on_free(pieces[0], sep);
        assert(seq![pieces[0]] =~= pieces);
    } else {
        let init = pieces.drop_last();
        assert forall|i: int| 0 <= i < init.len() implies free_of(#[trigger] init[i], sep) by {
            assert(init[i] == pieces[i]);
        }
        lemma_split_join(init, sep);
        assert(free_of(pieces[pieces.len() - 1], sep));
        lemma_split_on_append_piece(join_with(init, sep), sep, pieces.last());
        assert(init.push(pieces.last()) =~= pieces);
    }
}

/// Joining the pieces of a split with the separator gives the text back.
pub proof fn lemma_join_split(s: Seq<char>, sep: char)
    ensures
        join_with(split_on(s, sep), sep) == s,
    decreases s.len(),
{
    if s.len() == 0 {
        assert(split_on(s, sep) == seq![Seq::<char>::empty()]);
        assert(s =~= Seq::<char>::empty());
    } else {
        let init = s.drop_last();
        lemma_join_split(init, sep);
        lemma_split_on_nonempty(init, sep);
        let prev = split_on(init, sep);
        if s.last() == sep {
            let next = prev.push(Seq::<char>::empty());
            assert(next.drop_last() =~= prev);
            assert(join_with(prev, sep).push(sep) + Seq::<char>::empty() =~= s);
        } else {
            let next = prev.update(prev.len() - 1, prev.last().push(s.last()));
            if prev.len() == 1 {
                assert(next[0] =~= init.push(s.last()));
                assert(init.push(s.last()) =~= s);
            } else {
                assert(next.drop_last() =~= prev.drop_last());
                assert(join_with(prev.drop_last(), sep).push(sep) + prev.last().push(s.last())
                    =~= (join_with(prev.drop_last(), sep).push(sep) + prev.last()).push(s.last()));
                assert(init.push(s.last()) =~= s);
            }
        }
    }
}

/// A join of pieces starts with the first piece.
pub proof fn lemma_join_starts_with_first(pieces: Seq<Seq<char>>, sep: char)
    requires
        pieces.len() > 0,
    ensures
        pieces[0].len() <= join_with(pieces, sep).len(),
        forall|k: int| 0 <= k < pieces[0].len() ==> #[trigger] join_with(pieces, sep)[k] == pieces[0][k],
    decreases pieces.len(),
{
    if pieces.len() > 1 {
        let init = pieces.drop_last();
        lemma_join_starts_with_first(init, sep);
        assert(init[0] == pieces[0]);
        let j = join_with(init, sep);
        assert forall|k: int| 0 <= k < pieces[0].len() implies #[trigger] join_with(pieces, sep)[k]
            == pieces[0][k] by {
            assert((j.push(sep) + pieces.last())[k] == j[k]);
        }
    }
}

/// Every piece of a split is free of the separator.
pub proof fn lemma_split_pieces_free(s: Seq<char>, sep: char)
    ensures
        forall|i: int| 0 <= i < split_on(s, sep).len() ==> free_of(#[trigger] split_on(s, sep)[i], sep),
    decreases s.len(),
{
    lemma_split_on_nonempty(s, sep);
    if s.len() > 0 {
        lemma_split_pieces_free(s.drop_last(), sep);
        lemma_split_on_nonempty(s.drop_last(), sep);
        let prev = split_on(s.drop_last(), sep);
        if s.last() != sep {
            let last = prev.last().push(s.last());
            assert(free_of(prev[prev.len() - 1], sep));
            assert(free_of(last, sep));
        }
    }
}

/// Trimming keeps a character out.
pub proof fn lemma_trims_stay_free(s: Seq<char>, c: char, d: char)
    requires
        free_of(s, c),
    ensures
        free_of(trim_start_space(s), c),
        free_of(trim_end_space(s), c),
        free_of(trim_start_char(s, d), c),
        free_of(trim_end_char(s, d), c),
    decreases s.len(),
{
    if s.len() > 0 {
        assert(free_of(s.drop_first(), c));
        assert(free_of(s.drop_last(), c));
        lemma_trims_stay_free(s.drop_first(), c, d);
        lemma_trims_stay_free(s.drop_last(), c, d);
    }
}

/// After `trim_start_char(s, c)`, the first character (if any) is not `c`.
pub proof fn lemma_trim_start_char_head(s: Seq<char>, c: char)
    ensures
        trim_start_char(s, c).len() > 0 ==> trim_start_char(s, c)[0] != c,
    decreases s.len(),
{
    if s.len() > 0 && s[0] == c {
        lemma_trim_start_char_head(s.drop_first(), c);
    }
}

/// `trim_end_char(s, c)` is a prefix of `s` that does not end in `c`.
pub proof fn lemma_trim_end_char_prefix(s: Seq<char>, c: char)
    ensures
        trim_end_char(s, c).len() <= s.len(),
        trim_end_char(s, c) == s.take(trim_end_char(s, c).len() as int),
        trim_end_char(s, c).len() > 0 ==> trim_end_char(s, c).last() != c,
    decreases s.len(),
{
    if s.len() > 0 && s.last() == c {
        lemma_trim_end_char_prefix(s.drop_last(), c);
        let r = trim_end_char(s.drop_last(), c);
        assert(s.drop_last().take(r.len() as int) =~= s.take(r.len() as int));
    } else {
        assert(s.take(s.len() as int) =~= s);
    }
}

/// `trim_end_char(s, '/')` does not end in `/`, and is a prefix of `s`.
pub proof fn lemma_trim_end_char_shape(s: Seq<char>, c: char)
    ensures
        s.take(trim_end_char(s, c).len() as int) == trim_end_char(s, c),
        trim_end_char(s, c).len() == 0 || trim_end_char(s, c).last() != c,
{
    lemma_trim_end_char_prefix(s, c);
}

/// `trim_char(s, c)`, when not empty, neither starts nor ends with `c`.
pub proof fn lemma_trim_char_ends(s: Seq<char>, c: char)
    ensures
        trim_char(s, c).len() > 0 ==> trim_char(s, c)[0] != c && trim_char(s, c).last() != c,
{
    let u = trim_start_char(s, c);
    lemma_trim_start_char_head(s, c);
    lemma_trim_end_char_prefix(u, c);
    let v = trim_end_char(u, c);
    if v.len() > 0 {
        assert(v[0] == u.take(v.len() as int)[0]);
    }
}

/// The characters of `s`, in order.
pub fn chars_of(s: &str) -> (v: Vec<char>)
    ensures
        v@ == s@,
{
    let n = s.unicode_len();
    let mut v: Vec<char> = Vec::new();
    let mut i: usize = 0;
    while i < n
        invariant
            n == s@.len(),
            i <= n,
            v@ == s@.take(i as int),
        decreases n - i,
    {
        v.push(s.get_char(i));
        i = i + 1;
        assert(v@ =~= s@.take(i as int));
    }
    assert(v@ =~= s@);
    v
}

/// The `String` made of `chars`.
///
/// Trusted: collects the characters with `FromIterator<&char> for String`,
/// which std documents as appending each character in order.
#[verifier::external_body]
pub(crate) fn string_from_chars(chars: &[char]) -> (s: String)
    ensures
        s@ == chars@,
{
    chars.iter().collect()
}

} // verus!
