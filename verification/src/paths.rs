//! Local and remote paths as sequences of components.
//!
//! A path is held as its components (root, `.`, `..` and names), the way
//! `std::path::Path::components` reports them for `/`-separated paths; joining,
//! taking the parent or the file name, and stripping a prefix are then
//! operations on that sequence.
use vstd::prelude::*;
use crate::text::{chars_of, join_with, replace_char, split_chars, split_on, string_from_chars, views};
use vstd::utf8::{decode_utf8, encode_utf8, encode_utf8_decode_utf8, valid_utf8};
use crate::text::{
    free_of, lemma_join_starts_with_first, lemma_split_join, lemma_split_pieces_free,
};

verus! {

/// One component of a path, as seen in specifications.
pub enum Part {
    Root,
    Cur,
    Parent,
    /// A name that is valid text.
    Name(Seq<char>),
    /// A name whose bytes are not valid UTF-8.
    Raw(Seq<u8>),
}

/// One component of a path (`std::path::Component` without Windows prefixes).
#[derive(Debug)]
pub enum PathComponent {
    RootDir,
    CurDir,
    ParentDir,
    /// A name that is valid text.
    Normal(String),
    /// A name whose bytes are not valid UTF-8 (possible in local file names).
    NonUnicode(Vec<u8>),
}

impl View for PathComponent {
    type V = Part;

    open spec fn view(&self) -> Part {
        match self {
            PathComponent::RootDir => Part::Root,
            PathComponent::CurDir => Part::Cur,
            PathComponent::ParentDir => Part::Parent,
            PathComponent::Normal(s) => Part::Name(s@),
            PathComponent::NonUnicode(b) => Part::Raw(b@),
        }
    }
}

/// A path, held as its components.
#[derive(Debug)]
pub struct LocalPath {
    pub components: Vec<PathComponent>,
}

impl View for LocalPath {
    type V = Seq<Part>;

    open spec fn view(&self) -> Seq<Part> {
        self.components@.map_values(|c: PathComponent| c@)
    }
}

/// The views of a sequence of paths.
pub open spec fn path_views(paths: Seq<LocalPath>) -> Seq<Seq<Part>> {
    paths.map_values(|p: LocalPath| p@)
}

/// The views of an optional path.
pub open spec fn opt_path_view(p: Option<LocalPath>) -> Option<Seq<Part>> {
    match p {
        Some(q) => Some(q@),
        None => None,
    }
}

/// The component that one `/`-separated segment of a path text stands for.
pub open spec fn segment_part(seg: Seq<char>) -> Part {
    if seg == seq!['.', '.'] {
        Part::Parent
    } else {
        Part::Name(seg)
    }
}

/// Whether a segment of a path text stands for no component (an empty
/// segment between two separators, or `.`).
pub open spec fn is_skipped_segment(seg: Seq<char>) -> bool {
    seg.len() == 0 || seg == seq!['.']
}

/// The components that the segments stand for, skipping empty and `.` ones.
pub open spec fn segment_parts(segs: Seq<Seq<char>>) -> Seq<Part>
    decreases segs.len(),
{
    if segs.len() == 0 {
        Seq::<Part>::empty()
    } else {
        let prev = segment_parts(segs.drop_last());
        if is_skipped_segment(segs.last()) {
            prev
        } else {
            prev.push(segment_part(segs.last()))
        }
    }
}

/// The components of a `/`-separated path text: a root when the text starts
/// with `/`, a leading `.` when the first segment is `.` in a relative path, then
/// the names and `..` of the remaining segments.
pub open spec fn parse_parts(text: Seq<char>) -> Seq<Part> {
    let segs = split_on(text, '/');
    let lead = if text.len() > 0 && text[0] == '/' {
        seq![Part::Root]
    } else if segs[0] == seq!['.'] {
        seq![Part::Cur]
    } else {
        Seq::<Part>::empty()
    };
    lead + segment_parts(segs)
}

/// `base.join(rel)`: an absolute `rel` replaces `base`, otherwise the
/// components of `rel` follow those of `base` (a leading `.` of `rel` is
/// dropped when `base` is not empty).
pub open spec fn join_parts(base: Seq<Part>, rel: Seq<Part>) -> Seq<Part> {
    if rel.len() > 0 && rel[0] == Part::Root {
        rel
    } else if base.len() > 0 && rel.len() > 0 && rel[0] == Part::Cur {
        base + rel.drop_first()
    } else {
        base + rel
    }
}

/// `Path::parent`: the path without its last component, unless it is empty or
/// ends in the root.
pub open spec fn parent_parts(p: Seq<Part>) -> Option<Seq<Part>> {
    if p.len() == 0 || p.last() == Part::Root {
        None
    } else {
        Some(p.drop_last())
    }
}

/// `Path::file_name`: the last component when it is a name.
pub open spec fn file_name_of(p: Seq<Part>) -> Option<Seq<char>> {
    if p.len() > 0 {
        match p.last() {
            Part::Name(s) => Some(s),
            _ => None,
        }
    } else {
        None
    }
}

/// `Path::strip_prefix`: what follows `base` when `p` starts with its components.
pub open spec fn strip_prefix_parts(p: Seq<Part>, base: Seq<Part>) -> Option<Seq<Part>> {
    if base.len() <= p.len() && p.take(base.len() as int) == base {
        Some(p.skip(base.len() as int))
    } else {
        None
    }
}

/// The text of one component.
pub open spec fn part_text(p: Part) -> Seq<char> {
    match p {
        Part::Root => seq!['/'],
        Part::Cur => seq!['.'],
        Part::Parent => seq!['.', '.'],
        Part::Name(s) => s,
        Part::Raw(b) => lossy_utf8(b),
    }
}

/// The URL segments a path gives: the text of each component that is neither
/// empty nor `.`, with backslashes turned into forward slashes.
pub open spec fn url_segments(p: Seq<Part>) -> Seq<Seq<char>>
    decreases p.len(),
{
    if p.len() == 0 {
        Seq::<Seq<char>>::empty()
    } else {
        let prev = url_segments(p.drop_last());
        let t = part_text(p.last());
        if is_skipped_segment(t) {
            prev
        } else {
            prev.push(replace_char(t, '\\', '/'))
        }
    }
}

/// The URL path text of a path: its URL segments joined with `/`.
pub open spec fn url_path_text(p: Seq<Part>) -> Seq<char> {
    join_with(url_segments(p), '/')
}

/// Whether a component can stand at position `i` of a path, as
/// `Path::components` would report it: the root and `.` only first; a name not
/// empty, without `/`, and neither `.` nor `..`; a raw name without the byte
/// of `/` and not valid UTF-8.
pub open spec fn part_fits(p: Part, i: int) -> bool {
    match p {
        Part::Root => i == 0,
        Part::Cur => i == 0,
        Part::Parent => true,
        Part::Name(s) => s.len() > 0 && free_of(s, '/') && s != seq!['.'] && s != seq!['.', '.'],
        Part::Raw(b) => b.len() > 0 && (forall|k: int| 0 <= k < b.len() ==> #[trigger] b[k] != 0x2fu8)
            && !valid_utf8(b),
    }
}

/// Whether the components form a path that `Path::components` could report.
pub open spec fn path_wf(p: Seq<Part>) -> bool {
    forall|i: int| 0 <= i < p.len() ==> part_fits(#[trigger] p[i], i)
}

/// A component that fits anywhere: `..` or a plain name.
pub open spec fn fits_anywhere(p: Part) -> bool {
    forall|i: int| part_fits(p, i)
}

proof fn lemma_segment_parts_fit(segs: Seq<Seq<char>>)
    requires
        forall|k: int| 0 <= k < segs.len() ==> free_of(#[trigger] segs[k], '/'),
    ensures
        forall|j: int| 0 <= j < segment_parts(segs).len() ==> fits_anywhere(#[trigger] segment_parts(segs)[j]),
    decreases segs.len(),
{
    if segs.len() > 0 {
        let prev = segs.drop_last();
        assert forall|k: int| 0 <= k < prev.len() implies free_of(#[trigger] prev[k], '/') by {
            assert(prev[k] == segs[k]);
        }
        lemma_segment_parts_fit(prev);
        let g = segs.last();
        assert(free_of(segs[segs.len() - 1], '/'));
        if is_skipped_segment(g) {
            assert(segment_parts(segs) == segment_parts(prev));
        } else {
            let part = segment_part(g);
            assert forall|i: int| part_fits(part, i) by {}
            assert(fits_anywhere(part));
            assert(segment_parts(segs) == segment_parts(prev).push(part));
            let sp = segment_parts(segs);
            assert forall|j: int| 0 <= j < sp.len() implies fits_anywhere(#[trigger] sp[j]) by {
                if j < sp.len() - 1 {
                    assert(sp[j] == segment_parts(prev)[j]);
                }
            }
        }
    }
}

/// `Path::components` reports a well-formed path for every text.
pub proof fn lemma_parse_parts_wf(text: Seq<char>)
    ensures
        path_wf(parse_parts(text)),
{
    let segs = split_on(text, '/');
    lemma_split_pieces_free(text, '/');
    lemma_segment_parts_fit(segs);
    let p = parse_parts(text);
    let sp = segment_parts(segs);
    let lead_len = p.len() - sp.len();
    assert forall|i: int| 0 <= i < p.len() implies part_fits(#[trigger] p[i], i) by {
        if i >= lead_len {
            assert(p[i] == sp[i - lead_len]);
            assert(fits_anywhere(sp[i - lead_len]));
        }
    }
}

/// Joining well-formed paths gives a well-formed path.
pub proof fn lemma_join_wf(base: Seq<Part>, rel: Seq<Part>)
    requires
        path_wf(base),
        path_wf(rel),
    ensures
        path_wf(join_parts(base, rel)),
{
    let r = join_parts(base, rel);
    if rel.len() > 0 && rel[0] == Part::Root {
    } else if base.len() > 0 && rel.len() > 0 && rel[0] == Part::Cur {
        assert forall|i: int| 0 <= i < r.len() implies part_fits(#[trigger] r[i], i) by {
            if i >= base.len() {
                assert(r[i] == rel[i - base.len() + 1]);
                assert(part_fits(rel[i - base.len() + 1], i - base.len() + 1));
            } else {
                assert(r[i] == base[i]);
            }
        }
    } else {
        assert forall|i: int| 0 <= i < r.len() implies part_fits(#[trigger] r[i], i) by {
            if i >= base.len() {
                assert(r[i] == rel[i - base.len()]);
                assert(part_fits(rel[i - base.len()], i - base.len()));
            } else {
                assert(r[i] == base[i]);
            }
        }
    }
}

/// Dropping components from the end or the front keeps a path well-formed.
pub proof fn lemma_sub_path_wf(p: Seq<Part>, lo: int, hi: int)
    requires
        path_wf(p),
        0 <= lo <= hi <= p.len(),
    ensures
        path_wf(p.subrange(lo, hi)),
{
    let r = p.subrange(lo, hi);
    assert forall|i: int| 0 <= i < r.len() implies part_fits(#[trigger] r[i], i) by {
        assert(r[i] == p[i + lo]);
        assert(part_fits(p[i + lo], i + lo));
    }
}

/// Order rank of a component kind, as `std::path::Component` orders them.
pub open spec fn part_rank(p: Part) -> int {
    match p {
        Part::Root => 0,
        Part::Cur => 1,
        Part::Parent => 2,
        Part::Name(_) => 3,
        Part::Raw(_) => 3,
    }
}

/// The bytes of a name (its UTF-8 encoding, or its raw bytes).
pub open spec fn name_bytes(p: Part) -> Seq<u8> {
    match p {
        Part::Name(s) => encode_utf8(s),
        Part::Raw(b) => b,
        _ => Seq::<u8>::empty(),
    }
}

/// Whether a component is a name.
pub open spec fn is_name(p: Part) -> bool {
    p is Name || p is Raw
}

/// Lexicographic order of byte sequences.
pub open spec fn bytes_le(a: Seq<u8>, b: Seq<u8>) -> bool
    decreases a.len(),
{
    if a.len() == 0 {
        true
    } else if b.len() == 0 {
        false
    } else if a[0] != b[0] {
        a[0] < b[0]
    } else {
        bytes_le(a.drop_first(), b.drop_first())
    }
}

/// Order of single components: kinds by rank, names by their bytes (the order
/// of `OsStr`). Two names with equal bytes, one text and one not, cannot both
/// come from real paths; they are ordered text first.
pub open spec fn part_le(a: Part, b: Part) -> bool {
    if is_name(a) && is_name(b) {
        if name_bytes(a) != name_bytes(b) {
            bytes_le(name_bytes(a), name_bytes(b))
        } else {
            a is Name || b is Raw
        }
    } else {
        part_rank(a) <= part_rank(b)
    }
}

/// `Path` order: lexicographic over components.
pub open spec fn parts_le(a: Seq<Part>, b: Seq<Part>) -> bool
    decreases a.len(),
{
    if a.len() == 0 {
        true
    } else if b.len() == 0 {
        false
    } else if a[0] != b[0] {
        part_le(a[0], b[0])
    } else {
        parts_le(a.drop_first(), b.drop_first())
    }
}

/// Whether a sequence of paths is in ascending `Path` order.
pub open spec fn sorted_paths(s: Seq<Seq<Part>>) -> bool {
    forall|i: int, j: int| 0 <= i < j < s.len() ==> parts_le(#[trigger] s[i], #[trigger] s[j])
}

pub proof fn lemma_bytes_le_total(a: Seq<u8>, b: Seq<u8>)
    ensures
        bytes_le(a, b) || bytes_le(b, a),
    decreases a.len(),
{
    if a.len() > 0 && b.len() > 0 && a[0] == b[0] {
        lemma_bytes_le_total(a.drop_first(), b.drop_first());
    }
}

pub proof fn lemma_bytes_le_trans(a: Seq<u8>, b: Seq<u8>, c: Seq<u8>)
    requires
        bytes_le(a, b),
        bytes_le(b, c),
    ensures
        bytes_le(a, c),
    decreases a.len(),
{
    if a.len() > 0 && b.len() > 0 && c.len() > 0 && a[0] == b[0] && b[0] == c[0] {
        lemma_bytes_le_trans(a.drop_first(), b.drop_first(), c.drop_first());
    }
}

pub proof fn lemma_bytes_le_antisym(a: Seq<u8>, b: Seq<u8>)
    requires
        bytes_le(a, b),
        bytes_le(b, a),
    ensures
        a == b,
    decreases a.len(),
{
    if a.len() > 0 && b.len() > 0 {
        if a[0] == b[0] {
            lemma_bytes_le_antisym(a.drop_first(), b.drop_first());
            assert(a =~= seq![a[0]] + a.drop_first());
            assert(b =~= seq![b[0]] + b.drop_first());
        }
    } else {
        assert(a =~= b);
    }
}

proof fn lemma_part_le_total(a: Part, b: Part)
    ensures
        part_le(a, b) || part_le(b, a),
{
    lemma_bytes_le_total(name_bytes(a), name_bytes(b));
}

proof fn lemma_part_le_antisym(a: Part, b: Part)
    requires
        part_le(a, b),
        part_le(b, a),
    ensures
        a == b,
{
    if is_name(a) && is_name(b) {
        if name_bytes(a) != name_bytes(b) {
            lemma_bytes_le_antisym(name_bytes(a), name_bytes(b));
        } else {
            match (a, b) {
                (Part::Name(x), Part::Name(y)) => {
                    encode_utf8_decode_utf8(x);
                    encode_utf8_decode_utf8(y);
                },
                _ => {},
            }
        }
    }
}

proof fn lemma_part_le_trans(a: Part, b: Part, c: Part)
    requires
        part_le(a, b),
        part_le(b, c),
    ensures
        part_le(a, c),
{
    if is_name(a) && is_name(b) && is_name(c) {
        let (x, y, z) = (name_bytes(a), name_bytes(b), name_bytes(c));
        if x != y && y != z {
            lemma_bytes_le_trans(x, y, z);
            if x == z {
                lemma_bytes_le_antisym(x, y);
            }
        }
    }
}

pub proof fn lemma_parts_le_total(a: Seq<Part>, b: Seq<Part>)
    ensures
        parts_le(a, b) || parts_le(b, a),
    decreases a.len(),
{
    if a.len() > 0 && b.len() > 0 {
        if a[0] == b[0] {
            lemma_parts_le_total(a.drop_first(), b.drop_first());
        } else {
            lemma_part_le_total(a[0], b[0]);
        }
    }
}

pub proof fn lemma_parts_le_trans(a: Seq<Part>, b: Seq<Part>, c: Seq<Part>)
    requires
        parts_le(a, b),
        parts_le(b, c),
    ensures
        parts_le(a, c),
    decreases a.len(),
{
    if a.len() > 0 && b.len() > 0 && c.len() > 0 {
        if a[0] == b[0] && b[0] == c[0] {
            lemma_parts_le_trans(a.drop_first(), b.drop_first(), c.drop_first());
        } else if a[0] == b[0] {
            // a[0] == b[0] != c[0]
        } else if b[0] == c[0] {
            // a[0] != b[0] == c[0]
        } else {
            lemma_part_le_trans(a[0], b[0], c[0]);
            if a[0] == c[0] {
                lemma_part_le_antisym(a[0], b[0]);
            }
        }
    }
}

impl PathComponent {
    /// A component equal to this one.
    pub fn duplicate(&self) -> (r: PathComponent)
        ensures
            r@ == self@,
    {
        match self {
            PathComponent::RootDir => PathComponent::RootDir,
            PathComponent::CurDir => PathComponent::CurDir,
            PathComponent::ParentDir => PathComponent::ParentDir,
            PathComponent::Normal(s) => PathComponent::Normal(s.clone()),
            PathComponent::NonUnicode(b) => PathComponent::NonUnicode(copy_bytes(b.as_slice())),
        }
    }

    /// The bytes of a name.
    fn name_bytes(&self) -> (r: &[u8])
        requires
            is_name(self@),
        ensures
            r@ == name_bytes(self@),
    {
        match self {
            PathComponent::Normal(s) => s.as_str().as_bytes(),
            PathComponent::NonUnicode(b) => b.as_slice(),
            _ => {
                assert(false);
                &[]
            },
        }
    }

    fn is_name(&self) -> (r: bool)
        ensures
            r == is_name(self@),
    {
        match self {
            PathComponent::Normal(_) => true,
            PathComponent::NonUnicode(_) => true,
            _ => false,
        }
    }

    fn is_text(&self) -> (r: bool)
        ensures
            r == (self@ is Name),
    {
        match self {
            PathComponent::Normal(_) => true,
            _ => false,
        }
    }

    /// Whether this component orders before or equal to `other`.
    fn le(&self, other: &PathComponent) -> (r: bool)
        ensures
            r == part_le(self@, other@),
    {
        if self.is_name() && other.is_name() {
            let a = self.name_bytes();
            let b = other.name_bytes();
            if !bytes_eq(a, b) {
                bytes_le_exec(a, b)
            } else {
                self.is_text() || !other.is_text()
            }
        } else {
            self.rank() <= other.rank()
        }
    }

    fn rank(&self) -> (r: u8)
        ensures
            r as int == part_rank(self@),
    {
        match self {
            PathComponent::RootDir => 0,
            PathComponent::CurDir => 1,
            PathComponent::ParentDir => 2,
            PathComponent::Normal(_) => 3,
            PathComponent::NonUnicode(_) => 3,
        }
    }

    /// Whether this component equals `other`.
    fn same(&self, other: &PathComponent) -> (r: bool)
        ensures
            r == (self@ == other@),
    {
        match (self, other) {
            (PathComponent::Normal(x), PathComponent::Normal(y)) => x.eq(y),
            (PathComponent::NonUnicode(x), PathComponent::NonUnicode(y)) => bytes_eq(
                x.as_slice(),
                y.as_slice(),
            ),
            (PathComponent::RootDir, PathComponent::RootDir) => true,
            (PathComponent::CurDir, PathComponent::CurDir) => true,
            (PathComponent::ParentDir, PathComponent::ParentDir) => true,
            _ => false,
        }
    }
}

fn copy_bytes(b: &[u8]) -> (r: Vec<u8>)
    ensures
        r@ == b@,
{
    let mut r: Vec<u8> = Vec::new();
    let mut i: usize = 0;
    while i < b.len()
        invariant
            i <= b@.len(),
            r@ == b@.take(i as int),
        decreases b@.len() - i,
    {
        r.push(b[i]);
        i = i + 1;
        assert(r@ =~= b@.take(i as int));
    }
    assert(b@.take(b@.len() as int) =~= b@);
    r
}

fn bytes_eq(a: &[u8], b: &[u8]) -> (r: bool)
    ensures
        r == (a@ == b@),
{
    if a.len() != b.len() {
        return false;
    }
    let mut i: usize = 0;
    while i < a.len()
        invariant
            a@.len() == b@.len(),
            i <= a@.len(),
            forall|k: int| 0 <= k < i ==> a@[k] == b@[k],
        decreases a@.len() - i,
    {
        if a[i] != b[i] {
            return false;
        }
        i = i + 1;
    }
    assert(a@ =~= b@);
    true
}

fn bytes_le_exec(a: &[u8], b: &[u8]) -> (r: bool)
    ensures
        r == bytes_le(a@, b@),
{
    let mut i: usize = 0;
    assert(a@.skip(0) =~= a@);
    assert(b@.skip(0) =~= b@);
    while i < a.len() && i < b.len() && a[i] == b[i]
        invariant
            i <= a@.len(),
            i <= b@.len(),
            bytes_le(a@, b@) == bytes_le(a@.skip(i as int), b@.skip(i as int)),
        decreases a@.len() - i,
    {
        assert(a@.skip(i as int).drop_first() =~= a@.skip(i + 1));
        assert(b@.skip(i as int).drop_first() =~= b@.skip(i + 1));
        i = i + 1;
    }
    if i == a.len() {
        true
    } else if i == b.len() {
        false
    } else {
        a[i] < b[i]
    }
}

/// The text `String::from_utf8_lossy` makes of `bytes`.
pub uninterp spec fn lossy_utf8(bytes: Seq<u8>) -> Seq<char>;

/// The text of `bytes`, invalid sequences replaced by U+FFFD.
///
/// Trusted: calls `String::from_utf8_lossy` and takes the owned text. Its
/// result depends on the bytes alone and is named by `lossy_utf8`. Stated of it
/// besides, as std documents the function: valid UTF-8 is decoded as it is;
/// otherwise each invalid sequence becomes U+FFFD, so the text holds that
/// character; bytes give a text only if they are not empty; and since UTF-8
/// writes `/` only as the byte 0x2F, which no multi-byte sequence holds, the
/// text holds `/` only where the bytes hold 0x2F. Which characters the rest of
/// the text holds is not stated.
#[verifier::external_body]
fn lossy_text(bytes: &[u8]) -> (r: String)
    ensures
        r@ == lossy_utf8(bytes@),
        valid_utf8(bytes@) ==> r@ == decode_utf8(bytes@),
        !valid_utf8(bytes@) ==> r@.contains('\u{FFFD}'),
        bytes@.len() > 0 ==> r@.len() > 0,
        (forall|k: int| 0 <= k < bytes@.len() ==> #[trigger] bytes@[k] != 0x2fu8) ==> free_of(
            r@,
            '/',
        ),
{
    String::from_utf8_lossy(bytes).into_owned()
}

impl LocalPath {
    /// Whether this path is one that `Path::components` could report.
    pub open spec fn wf(&self) -> bool {
        path_wf(self@)
    }

    /// The empty path.
    pub fn empty() -> (r: LocalPath)
        ensures
            r@ == Seq::<Part>::empty(),
            r.wf(),
    {
        let r = LocalPath { components: Vec::new() };
        assert(r@ =~= Seq::<Part>::empty());
        r
    }

    /// A path equal to this one.
    pub fn duplicate(&self) -> (r: LocalPath)
        ensures
            r@ == self@,
    {
        let mut out: Vec<PathComponent> = Vec::new();
        let mut i: usize = 0;
        while i < self.components.len()
            invariant
                i <= self.components@.len(),
                out@.len() == i,
                forall|k: int| 0 <= k < i ==> #[trigger] out@[k]@ == self.components@[k]@,
            decreases self.components@.len() - i,
        {
            out.push(self.components[i].duplicate());
            i = i + 1;
        }
        let r = LocalPath { components: out };
        assert(r@ =~= self@);
        r
    }

    /// The path with the components of `self` then those of `tail`.
    fn concat(&self, tail: &LocalPath, skip_first: bool) -> (r: LocalPath)
        requires
            skip_first ==> tail@.len() > 0,
        ensures
            r@ == self@ + (if skip_first {
                tail@.drop_first()
            } else {
                tail@
            }),
    {
        let mut r = self.duplicate();
        let mut i: usize = if skip_first {
            1
        } else {
            0
        };
        let ghost t = if skip_first {
            tail@.drop_first()
        } else {
            tail@
        };
        let ghost start = i as int;
        while i < tail.components.len()
            invariant
                start == (if skip_first {
                    1int
                } else {
                    0int
                }),
                t == (if skip_first {
                    tail@.drop_first()
                } else {
                    tail@
                }),
                start <= i <= tail@.len(),
                r@ == self@ + tail@.subrange(start, i as int),
            decreases tail@.len() - i,
        {
            let c = tail.components[i].duplicate();
            assert(c@ == tail@[i as int]);
            let ghost before = r@;
            r.components.push(c);
            assert(r@ =~= before.push(tail@[i as int]));
            assert(tail@.subrange(start, i + 1) =~= tail@.subrange(start, i as int).push(
                tail@[i as int],
            ));
            i = i + 1;
            assert(r@ =~= self@ + tail@.subrange(start, i as int));
        }
        assert(tail@.subrange(start, tail@.len() as int) =~= t);
        r
    }

    /// `Path::join`: `rel` appended to this path, or `rel` alone when absolute.
    pub fn join(&self, rel: &LocalPath) -> (r: LocalPath)
        ensures
            r@ == join_parts(self@, rel@),
            self.wf() && rel.wf() ==> r.wf(),
    {
        proof {
            if self.wf() && rel.wf() {
                lemma_join_wf(self@, rel@);
            }
        }
        if rel.components.len() > 0 {
            match &rel.components[0] {
                PathComponent::RootDir => {
                    return rel.duplicate();
                },
                PathComponent::CurDir => {
                    if self.components.len() > 0 {
                        return self.concat(rel, true);
                    }
                },
                _ => {},
            }
        }
        self.concat(rel, false)
    }

    /// `Path::parent`.
    pub fn parent(&self) -> (r: Option<LocalPath>)
        ensures
            opt_path_view(r) == parent_parts(self@),
            self.wf() ==> (r matches Some(p) ==> p.wf()),
    {
        proof {
            if self.wf() && self@.len() > 0 {
                lemma_sub_path_wf(self@, 0, self@.len() - 1);
                assert(self@.subrange(0, self@.len() - 1) =~= self@.drop_last());
            }
        }
        let n = self.components.len();
        if n == 0 {
            return None;
        }
        match &self.components[n - 1] {
            PathComponent::RootDir => None,
            _ => {
                let mut out: Vec<PathComponent> = Vec::new();
                let mut i: usize = 0;
                while i < n - 1
                    invariant
                        n == self.components@.len(),
                        n > 0,
                        i <= n - 1,
                        out@.len() == i,
                        forall|k: int| 0 <= k < i ==> #[trigger] out@[k]@ == self.components@[k]@,
                    decreases n - 1 - i,
                {
                    out.push(self.components[i].duplicate());
                    i = i + 1;
                }
                let r = LocalPath { components: out };
                assert(r@ =~= self@.drop_last());
                Some(r)
            },
        }
    }

    /// `Path::file_name`.
    pub fn file_name(&self) -> (r: Option<String>)
        ensures
            crate::text::opt_view(r) == file_name_of(self@),
    {
        let n = self.components.len();
        if n == 0 {
            return None;
        }
        match &self.components[n - 1] {
            PathComponent::Normal(s) => Some(s.clone()),
            _ => None,
        }
    }

    /// `Path::strip_prefix`.
    pub fn strip_prefix(&self, base: &LocalPath) -> (r: Option<LocalPath>)
        ensures
            opt_path_view(r) == strip_prefix_parts(self@, base@),
            self.wf() ==> (r matches Some(p) ==> p.wf()),
    {
        proof {
            if self.wf() && base@.len() <= self@.len() {
                lemma_sub_path_wf(self@, base@.len() as int, self@.len() as int);
                assert(self@.subrange(base@.len() as int, self@.len() as int) =~= self@.skip(
                    base@.len() as int,
                ));
            }
        }
        let n = self.components.len();
        let m = base.components.len();
        if m > n {
            return None;
        }
        let mut i: usize = 0;
        while i < m
            invariant
                n == self@.len(),
                m == base@.len(),
                m <= n,
                i <= m,
                forall|k: int| 0 <= k < i ==> #[trigger] self@[k] == base@[k],
            decreases m - i,
        {
            if !self.components[i].same(&base.components[i]) {
                assert(self@.take(m as int)[i as int] != base@[i as int]);
                return None;
            }
            i = i + 1;
        }
        assert(self@.take(m as int) =~= base@);
        let mut out: Vec<PathComponent> = Vec::new();
        let mut j: usize = m;
        while j < n
            invariant
                n == self.components@.len(),
                m <= j <= n,
                out@.len() == j - m,
                forall|k: int| 0 <= k < j - m ==> #[trigger] out@[k]@ == self.components@[k + m]@,
            decreases n - j,
        {
            out.push(self.components[j].duplicate());
            j = j + 1;
        }
        let r = LocalPath { components: out };
        assert(r@ =~= self@.skip(m as int));
        Some(r)
    }

    /// The components of a `/`-separated path text, as `Path::components`
    /// gives them.
    pub fn parse(text: &str) -> (r: LocalPath)
        ensures
            r@ == parse_parts(text@),
            r.wf(),
    {
        proof {
            lemma_parse_parts_wf(text@);
        }
        let chars = chars_of(text);
        let segs = split_chars(chars.as_slice(), '/');
        let ghost ss = split_on(text@, '/');
        proof {
            crate::text::lemma_split_on_nonempty(text@, '/');
        }
        let mut out: Vec<PathComponent> = Vec::new();
        if chars.len() > 0 && chars[0] == '/' {
            out.push(PathComponent::RootDir);
        } else if segs[0].len() == 1 && segs[0][0] == '.' {
            assert(views(segs@)[0] =~= seq!['.']);
            out.push(PathComponent::CurDir);
        } else {
            assert(!(ss[0] =~= seq!['.']) ==> ss[0] != seq!['.']);
            assert(ss[0] == segs@[0]@);
        }
        let ghost lead = out@.map_values(|c: PathComponent| c@);
        assert(lead =~= (if text@.len() > 0 && text@[0] == '/' {
            seq![Part::Root]
        } else if ss[0] == seq!['.'] {
            seq![Part::Cur]
        } else {
            Seq::<Part>::empty()
        }));
        let mut i: usize = 0;
        assert(ss.take(0) =~= Seq::<Seq<char>>::empty());
        while i < segs.len()
            invariant
                ss == split_on(text@, '/'),
                views(segs@) == ss,
                i <= segs@.len(),
                out@.map_values(|c: PathComponent| c@) == lead + segment_parts(ss.take(i as int)),
            decreases segs@.len() - i,
        {
            let seg = &segs[i];
            assert(ss[i as int] == seg@);
            assert(ss.take(i + 1).drop_last() =~= ss.take(i as int));
            let empty = seg.len() == 0;
            let dot = seg.len() == 1 && seg[0] == '.';
            if dot {
                assert(seg@ =~= seq!['.']);
            } else {
                assert(!(seg@ =~= seq!['.']));
            }
            let ghost before = out@.map_values(|c: PathComponent| c@);
            if !empty && !dot {
                let dotdot = seg.len() == 2 && seg[0] == '.' && seg[1] == '.';
                let comp = if dotdot {
                    assert(seg@ =~= seq!['.', '.']);
                    PathComponent::ParentDir
                } else {
                    assert(!(seg@ =~= seq!['.', '.']));
                    PathComponent::Normal(string_from_chars(seg.as_slice()))
                };
                assert(comp@ == segment_part(seg@));
                out.push(comp);
                assert(out@.map_values(|c: PathComponent| c@) =~= before.push(segment_part(seg@)));
            }
            i = i + 1;
            assert(out@.map_values(|c: PathComponent| c@) =~= lead + segment_parts(
                ss.take(i as int),
            ));
        }
        assert(ss.take(segs@.len() as int) =~= ss);
        let r = LocalPath { components: out };
        r
    }

    /// Whether this path orders before or equal to `other` (`Path` order).
    pub fn le(&self, other: &LocalPath) -> (r: bool)
        ensures
            r == parts_le(self@, other@),
    {
        let n = self.components.len();
        let m = other.components.len();
        let mut i: usize = 0;
        assert(self@.skip(0) =~= self@);
        assert(other@.skip(0) =~= other@);
        while i < n && i < m && self.components[i].same(&other.components[i])
            invariant
                n == self@.len(),
                m == other@.len(),
                i <= n,
                i <= m,
                parts_le(self@, other@) == parts_le(self@.skip(i as int), other@.skip(i as int)),
            decreases n - i,
        {
            assert(self@.skip(i as int).drop_first() =~= self@.skip(i + 1));
            assert(other@.skip(i as int).drop_first() =~= other@.skip(i + 1));
            i = i + 1;
        }
        if i == n {
            true
        } else if i == m {
            false
        } else {
            self.components[i].le(&other.components[i])
        }
    }
}

/// Whether a URL path segment reads back as itself: not empty, not `.`, and
/// without `/` or `\`.
pub open spec fn segment_clean(seg: Seq<char>) -> bool {
    seg.len() > 0 && seg != seq!['.'] && free_of(seg, '/') && free_of(seg, '\\')
}

/// Whether every segment reads back as itself.
pub open spec fn segments_clean(segs: Seq<Seq<char>>) -> bool {
    forall|j: int| 0 <= j < segs.len() ==> segment_clean(#[trigger] segs[j])
}

/// Whether a path is relative (no root) and no component's text holds `\`.
pub open spec fn relative_without_backslash(p: Seq<Part>) -> bool {
    forall|i: int| 0 <= i < p.len() ==> #[trigger] p[i] != Part::Root && free_of(part_text(p[i]), '\\')
}

proof fn lemma_segment_parts_read_back(segs: Seq<Seq<char>>)
    requires
        segments_clean(segs),
    ensures
        url_segments(segment_parts(segs)) == segs,
    decreases segs.len(),
{
    if segs.len() > 0 {
        let init = segs.drop_last();
        assert forall|j: int| 0 <= j < init.len() implies segment_clean(#[trigger] init[j]) by {
            assert(init[j] == segs[j]);
        }
        lemma_segment_parts_read_back(init);
        let g = segs.last();
        assert(segment_clean(segs[segs.len() - 1]));
        let q = segment_part(g);
        assert(part_text(q) == g);
        let parts = segment_parts(segs);
        assert(parts == segment_parts(init).push(q));
        assert(parts.drop_last() =~= segment_parts(init));
        assert(replace_char(g, '\\', '/') =~= g);
        assert(init.push(g) =~= segs);
    }
}

/// Law: a URL path text whose segments are not empty, not `.`, and hold no `/`
/// or `\` is read back as itself: `Path::new(text)` has that URL path text.
pub proof fn lemma_clean_url_path_reads_back(segs: Seq<Seq<char>>)
    requires
        segments_clean(segs),
    ensures
        url_path_text(parse_parts(join_with(segs, '/'))) == join_with(segs, '/'),
{
    let t = join_with(segs, '/');
    if segs.len() == 0 {
        let pieces = split_on(t, '/');
        assert(t =~= Seq::<char>::empty());
        assert(pieces == seq![Seq::<char>::empty()]);
        assert(pieces.drop_last() =~= Seq::<Seq<char>>::empty());
        assert(is_skipped_segment(pieces.last()));
        assert(segment_parts(pieces.drop_last()) =~= Seq::<Part>::empty());
        assert(segment_parts(pieces) =~= Seq::<Part>::empty());
        assert(parse_parts(t) =~= Seq::<Part>::empty());
    } else {
        assert forall|j: int| 0 <= j < segs.len() implies free_of(#[trigger] segs[j], '/') by {
            assert(segment_clean(segs[j]));
        }
        lemma_split_join(segs, '/');
        lemma_join_starts_with_first(segs, '/');
        assert(segment_clean(segs[0]));
        assert(t[0] == segs[0][0]);
        assert(t[0] != '/');
        assert(parse_parts(t) =~= segment_parts(segs));
        lemma_segment_parts_read_back(segs);
    }
}

/// Law: the URL path text of a relative path without `\` in its components
/// is read back as itself: `path_to_url_path(Path::new(&r)) == r` for
/// `r == path_to_url_path(p)`. Stated here for paths of text names; for names
/// that are not UTF-8 it is part of the contract of `path_to_url_path`.
pub proof fn lemma_url_path_reads_back(p: Seq<Part>)
    requires
        path_wf(p),
        relative_without_backslash(p),
        forall|i: int| 0 <= i < p.len() ==> !(#[trigger] p[i] is Raw),
    ensures
        url_path_text(parse_parts(url_path_text(p))) == url_path_text(p),
{
    lemma_url_segments_clean(p);
    lemma_clean_url_path_reads_back(url_segments(p));
}

proof fn lemma_url_segments_clean(p: Seq<Part>)
    requires
        path_wf(p),
        relative_without_backslash(p),
        forall|i: int| 0 <= i < p.len() ==> !(#[trigger] p[i] is Raw),
    ensures
        segments_clean(url_segments(p)),
    decreases p.len(),
{
    if p.len() > 0 {
        let init = p.drop_last();
        assert forall|i: int| 0 <= i < init.len() implies part_fits(#[trigger] init[i], i) by {
            assert(init[i] == p[i]);
            assert(part_fits(p[i], i));
        }
        assert forall|i: int| 0 <= i < init.len() implies #[trigger] init[i] != Part::Root && free_of(
            part_text(init[i]),
            '\\',
        ) && !(init[i] is Raw) by {
            assert(init[i] == p[i]);
        }
        lemma_url_segments_clean(init);
        let last = p[p.len() - 1];
        assert(part_fits(last, p.len() - 1));
        assert(last != Part::Root && free_of(part_text(last), '\\') && !(last is Raw));
        lemma_part_segment_clean(last, p.len() - 1);
        let t = part_text(last);
        let segs = url_segments(p);
        if !is_skipped_segment(t) {
            assert(replace_char(t, '\\', '/') =~= t);
            assert forall|j: int| 0 <= j < segs.len() implies segment_clean(#[trigger] segs[j]) by {
                if j < segs.len() - 1 {
                    assert(segs[j] == url_segments(init)[j]);
                }
            }
        }
    }
}

/// The text of a component that fits at `i`, is not the root, holds no `\`
/// and is not skipped, is a clean segment; for a raw name this takes what
/// `lossy_text` states of its text.
proof fn lemma_part_segment_clean(q: Part, i: int)
    requires
        part_fits(q, i),
        q != Part::Root,
        free_of(part_text(q), '\\'),
        q is Raw ==> free_of(part_text(q), '/'),
    ensures
        !is_skipped_segment(part_text(q)) ==> segment_clean(part_text(q)),
{
    if q == Part::Parent {
        let dots = seq!['.', '.'];
        assert(dots[0] == '.' && dots[1] == '.');
        assert(free_of(dots, '/'));
    }
}

/// Converts a path to the URL path text used for remote folders: the
/// components that are neither `.` nor empty, backslashes replaced by `/`,
/// joined with `/`. For a relative path without `\` in its components, the
/// text reads back as itself.
pub fn path_to_url_path(path: &LocalPath) -> (r: String)
    ensures
        r@ == url_path_text(path@),
        path_wf(path@) && relative_without_backslash(path@) ==> url_path_text(parse_parts(r@))
            == r@,
{
    let mut out: Vec<char> = Vec::new();
    let mut count: usize = 0;
    let mut i: usize = 0;
    let ghost p = path@;
    assert(p.take(0) =~= Seq::<Part>::empty());
    while i < path.components.len()
        invariant
            p == path@,
            i <= p.len(),
            count <= i,
            count == url_segments(p.take(i as int)).len(),
            out@ == join_with(url_segments(p.take(i as int)), '/'),
            path_wf(p) && relative_without_backslash(p) ==> segments_clean(
                url_segments(p.take(i as int)),
            ),
        decreases p.len() - i,
    {
        let ghost clean = path_wf(p) && relative_without_backslash(p);
        proof {
            if clean {
                assert(part_fits(p[i as int], i as int));
                assert(p[i as int] != Part::Root && free_of(part_text(p[i as int]), '\\'));
            }
        }
        assert(p.take(i + 1).drop_last() =~= p.take(i as int));
        let text: Vec<char> = match &path.components[i] {
            PathComponent::RootDir => {
                let t = vec!['/'];
                assert(t@ =~= seq!['/']);
                t
            },
            PathComponent::CurDir => {
                let t = vec!['.'];
                assert(t@ =~= seq!['.']);
                t
            },
            PathComponent::ParentDir => {
                let t = vec!['.', '.'];
                assert(t@ =~= seq!['.', '.']);
                t
            },
            PathComponent::Normal(s) => chars_of(s.as_str()),
            PathComponent::NonUnicode(b) => {
                let t = lossy_text(b.as_slice());
                proof {
                    if clean {
                        assert(p[i as int] == Part::Raw(b@));
                        assert(free_of(t@, '/'));
                    }
                }
                chars_of(t.as_str())
            },
        };
        assert(text@ == part_text(p[i as int]));
        proof {
            if clean {
                lemma_part_segment_clean(p[i as int], i as int);
            }
        }
        let skipped = text.len() == 0 || (text.len() == 1 && text[0] == '.');
        if text.len() == 1 && text[0] == '.' {
            assert(text@ =~= seq!['.']);
        }
        if !skipped {
            assert(!(text@ =~= seq!['.']));
            let ghost prev = url_segments(p.take(i as int));
            let ghost seg = replace_char(text@, '\\', '/');
            if count > 0 {
                out.push('/');
            }
            let mut k: usize = 0;
            let ghost base = out@;
            while k < text.len()
                invariant
                    k <= text@.len(),
                    out@ == base + replace_char(text@, '\\', '/').take(k as int),
                decreases text@.len() - k,
            {
                let c = text[k];
                out.push(if c == '\\' {
                    '/'
                } else {
                    c
                });
                k = k + 1;
                assert(out@ =~= base + replace_char(text@, '\\', '/').take(k as int));
            }
            assert(replace_char(text@, '\\', '/').take(text@.len() as int) =~= seg);
            assert(prev.push(seg).drop_last() =~= prev);
            proof {
                if clean {
                    assert(seg =~= text@);
                    let segs = prev.push(seg);
                    assert forall|j: int| 0 <= j < segs.len() implies segment_clean(
                        #[trigger] segs[j],
                    ) by {
                        if j < prev.len() {
                            assert(segs[j] == prev[j]);
                        }
                    }
                }
            }
            if count > 0 {
                assert(out@ =~= join_with(prev, '/').push('/') + seg);
            } else {
                assert(out@ =~= seg);
            }
            count = count + 1;
        }
        i = i + 1;
    }
    assert(p.take(p.len() as int) =~= p);
    proof {
        if path_wf(p) && relative_without_backslash(p) {
            lemma_clean_url_path_reads_back(url_segments(p));
        }
    }
    string_from_chars(out.as_slice())
}

} // verus!
