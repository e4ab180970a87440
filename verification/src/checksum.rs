//! Content checksums: the SHA-256 digest of some bytes, kept in its base64
//! text form of exactly 44 bytes.
use crate::paths::compare_paths;
use crate::paths::parts_le;
use crate::paths::PathPart;
use crate::paths::PathPartView;
use crate::sorting::rank_relation;
use crate::sorting::sort_stable;
use crate::sorting::views;
use crate::sorting::Ranking;
use crate::text::bytes_le;
use crate::text::lex_le;
use crate::text::str_eq;
use crate::text::str_le;
use crate::text::text_le;
use sha2::Digest;
use vstd::prelude::*;
use vstd::utf8::encode_utf8;
use vstd::utf8::is_ascii_chars;

verus! {

/// The length, in bytes, of a checksum's text: base64 of a 32-byte digest.
pub const CHECKSUM_LEN: usize = 44;

/// The SHA-256 digest of `data`.
pub uninterp spec fn sha256(data: Seq<u8>) -> Seq<u8>;

/// The base64 text of `bytes`, in the standard alphabet with padding.
pub uninterp spec fn base64_standard(bytes: Seq<u8>) -> Seq<char>;

/// The checksum text of `data`: its SHA-256 digest in base64.
pub open spec fn checksum_text(data: Seq<u8>) -> Seq<char> {
    base64_standard(sha256(data))
}

/// The same bytes give the same checksum, wherever they come from.
pub proof fn lemma_same_bytes_same_checksum(a: Seq<u8>, b: Seq<u8>)
    requires
        a == b,
    ensures
        checksum_text(a) == checksum_text(b),
{
}

/// Calls `sha2::Sha256::digest`. Trusted: the 32 bytes returned are the
/// SHA-256 digest of `data`, a function of the bytes of `data` alone.
#[verifier::external_body]
fn sha256_digest(data: &[u8]) -> (digest: [u8; 32])
    ensures
        digest@ == sha256(data@),
{
    sha2::Sha256::digest(data).into()
}

/// Calls `base64::Engine::encode` on the `STANDARD` engine. Trusted: the
/// text returned is the padded base64 encoding of the 32 bytes, which has
/// 44 characters, all of them ASCII.
#[verifier::external_body]
fn base64_encode(digest: &[u8; 32]) -> (text: String)
    ensures
        text@ == base64_standard(digest@),
        text@.len() == 44,
        is_ascii_chars(text@),
{
    base64::Engine::encode(&base64::engine::general_purpose::STANDARD, digest)
}

/// A running SHA-256 hash: the hasher of `sha2`, which takes the bytes of a
/// message piece by piece.
#[verifier::external_body]
pub struct Hasher {
    inner: sha2::Sha256,
}

/// The bytes that a hasher has taken so far, in the order in which it took
/// them.
pub uninterp spec fn taken(hasher: Hasher) -> Seq<u8>;

/// Calls `sha2::Sha256::new`. Trusted: the hasher has taken no byte.
#[verifier::external_body]
fn hasher_new() -> (hasher: Hasher)
    ensures
        taken(hasher) == Seq::<u8>::empty(),
{
    Hasher { inner: sha2::Sha256::new() }
}

/// Calls `sha2::Sha256::update`. Trusted: the hasher has then taken the
/// bytes it had taken before, and `bytes` after them.
#[verifier::external_body]
fn hasher_update(hasher: &mut Hasher, bytes: &[u8])
    ensures
        taken(*final(hasher)) == taken(*old(hasher)) + bytes@,
{
    hasher.inner.update(bytes)
}

/// Calls `sha2::Sha256::finalize`. Trusted: the 32 bytes returned are the
/// SHA-256 digest of the bytes that the hasher has taken, however they
/// were cut into pieces.
#[verifier::external_body]
fn hasher_finalize(hasher: Hasher) -> (digest: [u8; 32])
    ensures
        digest@ == sha256(taken(hasher)),
{
    hasher.inner.finalize().into()
}

/// Why a text is not a checksum.
#[derive(Debug, PartialEq, Eq, Structural, Clone, Copy)]
pub enum ChecksumError {
    /// The text is `found` bytes long where 44 are expected.
    InvalidLength { found: usize },
}

/// A SHA-256 checksum in base64 text form. Its text is always 44 bytes
/// long.
#[derive(Debug, Hash)]
pub struct Checksum {
    text: String,
}

impl View for Checksum {
    type V = Seq<char>;

    closed spec fn view(&self) -> Seq<char> {
        self.text@
    }
}

impl Checksum {
    #[verifier::type_invariant]
    spec fn fixed_length(&self) -> bool {
        encode_utf8(self.text@).len() == CHECKSUM_LEN
    }

    /// Makes a checksum from a SHA-256 digest.
    pub fn from_sha256(hash: &[u8; 32]) -> (c: Checksum)
        ensures
            c@ == base64_standard(hash@),
    {
        let text = base64_encode(hash);
        proof {
            vstd::utf8::is_ascii_chars_encode_utf8(text@);
        }
        Checksum { text }
    }

    /// The checksum of `data`.
    pub fn from_data(data: &[u8]) -> (c: Checksum)
        ensures
            c@ == checksum_text(data@),
    {
        let hash = sha256_digest(data);
        Checksum::from_sha256(&hash)
    }

    /// Reads a checksum back from its text form. The text must be exactly
    /// 44 bytes long; any other length is rejected.
    pub fn from_encoded(text: &str) -> (r: Result<Checksum, ChecksumError>)
        ensures
            match r {
                Ok(c) => encode_utf8(text@).len() == CHECKSUM_LEN && c@ == text@,
                Err(e) => encode_utf8(text@).len() != CHECKSUM_LEN && e == (
                ChecksumError::InvalidLength { found: encode_utf8(text@).len() as usize }),
            },
    {
        let n: usize = text.as_bytes().len();
        if n != CHECKSUM_LEN {
            return Err(ChecksumError::InvalidLength { found: n });
        }
        Ok(Checksum { text: text.to_owned() })
    }

    /// Whether two checksums are the same.
    pub fn same_as(&self, other: &Checksum) -> (r: bool)
        ensures
            r == (self@ == other@),
    {
        self.text == other.text
    }

    /// The checksum as text.
    pub fn as_str(&self) -> (s: &str)
        ensures
            s@ == self@,
            encode_utf8(s@).len() == CHECKSUM_LEN,
    {
        proof {
            use_type_invariant(self);
        }
        self.text.as_str()
    }
}

/// A checksum in the making, for content that comes piece by piece and
/// need never be in memory as a whole.
pub struct ChecksumStream {
    hasher: Hasher,
}

impl View for ChecksumStream {
    type V = Seq<u8>;

    /// The bytes taken so far.
    closed spec fn view(&self) -> Seq<u8> {
        taken(self.hasher)
    }
}

impl ChecksumStream {
    /// A stream that has taken no byte.
    pub fn new() -> (stream: ChecksumStream)
        ensures
            stream@ == Seq::<u8>::empty(),
    {
        ChecksumStream { hasher: hasher_new() }
    }

    /// Takes the next piece of the content.
    pub fn update(&mut self, bytes: &[u8])
        ensures
            final(self)@ == old(self)@ + bytes@,
    {
        hasher_update(&mut self.hasher, bytes);
    }

    /// The checksum of the content: that of all the bytes taken, whatever
    /// the pieces were in which they came.
    pub fn finish(self) -> (c: Checksum)
        ensures
            c@ == checksum_text(self@),
    {
        let digest = hasher_finalize(self.hasher);
        Checksum::from_sha256(&digest)
    }
}

/// What a stream has taken once it has taken the pieces of `pieces`, one
/// after the other, on top of `start`.
pub open spec fn streamed(start: Seq<u8>, pieces: Seq<Seq<u8>>) -> Seq<u8>
    decreases pieces.len(),
{
    if pieces.len() == 0 {
        start
    } else {
        streamed(start, pieces.drop_last()) + pieces.last()
    }
}

/// A new stream that takes content piece by piece has taken the content.
pub proof fn lemma_streamed_is_content(pieces: Seq<Seq<u8>>)
    ensures
        streamed(Seq::empty(), pieces) == pieces.flatten(),
    decreases pieces.len(),
{
    pieces.lemma_flatten_and_flatten_alt_are_equivalent();
    if pieces.len() == 0 {
    } else {
        lemma_streamed_is_content(pieces.drop_last());
        pieces.drop_last().lemma_flatten_and_flatten_alt_are_equivalent();
    }
}

/// The checksum of streamed content is the checksum of the content: it
/// depends on the bytes alone, not on the pieces in which they came, nor on
/// the path or the name of the file they were read from.
pub proof fn lemma_stream_checksum_is_content_checksum(a: Seq<Seq<u8>>, b: Seq<Seq<u8>>)
    requires
        a.flatten() == b.flatten(),
    ensures
        checksum_text(streamed(Seq::empty(), a)) == checksum_text(a.flatten()),
        checksum_text(streamed(Seq::empty(), a)) == checksum_text(streamed(Seq::empty(), b)),
{
    lemma_streamed_is_content(a);
    lemma_streamed_is_content(b);
}

impl crate::keyed::Alike for Checksum {
    open spec fn alike(a: Seq<char>, b: Seq<char>) -> bool {
        a == b
    }

    fn is_alike(&self, other: &Self) -> (r: bool) {
        self.same_as(other)
    }
}

impl Clone for Checksum {
    fn clone(&self) -> (c: Self)
        ensures
            c@ == self@,
    {
        proof {
            use_type_invariant(self);
        }
        Checksum { text: self.text.clone() }
    }
}

impl PartialEq for Checksum {
    fn eq(&self, other: &Self) -> (r: bool) {
        self.text == other.text
    }
}

impl Eq for Checksum {

}

impl vstd::std_specs::cmp::PartialEqSpecImpl for Checksum {
    open spec fn obeys_eq_spec() -> bool {
        true
    }

    open spec fn eq_spec(&self, other: &Self) -> bool {
        self@ == other@
    }
}

/// One file that a pattern matched, with what could be read of it.
pub struct MatchedFile {
    /// The path of the file, component by component.
    pub path: Vec<PathPart>,
    /// The file's bytes, or `None` where it could not be read.
    pub content: Option<Vec<u8>>,
}

/// A `MatchedFile` as a mathematical value.
pub struct MatchedFileView {
    pub path: Seq<PathPartView>,
    pub content: Option<Seq<u8>>,
}

impl View for MatchedFile {
    type V = MatchedFileView;

    open spec fn view(&self) -> MatchedFileView {
        MatchedFileView {
            path: views(self.path@),
            content: match self.content {
                Some(bytes) => Some(bytes@),
                None => None,
            },
        }
    }
}

/// One pattern of a list, with the files that it matched. A pattern that
/// the list names twice stands in it twice.
pub struct GlobMatch {
    /// The pattern.
    pub pattern: String,
    /// The files that the pattern matched, in any order.
    pub files: Vec<MatchedFile>,
}

/// A `GlobMatch` as a mathematical value.
pub struct GlobMatchView {
    pub pattern: Seq<char>,
    pub files: Seq<MatchedFileView>,
}

impl View for GlobMatch {
    type V = GlobMatchView;

    open spec fn view(&self) -> GlobMatchView {
        GlobMatchView { pattern: self.pattern@, files: views(self.files@) }
    }
}

/// The order of what was read of two files: an unreadable file first, then
/// by the bytes.
pub open spec fn content_le(a: Option<Seq<u8>>, b: Option<Seq<u8>>) -> bool {
    match (a, b) {
        (None, _) => true,
        (Some(_), None) => false,
        (Some(x), Some(y)) => lex_le(x, y),
    }
}

/// The order of the files of one pattern: by path, component by component;
/// two files of one path, which no listing of a directory gives, by content.
pub open spec fn file_le(a: MatchedFileView, b: MatchedFileView) -> bool {
    if a.path != b.path {
        parts_le(a.path, b.path)
    } else {
        content_le(a.content, b.content)
    }
}

/// The ranking of the files of one pattern by `file_le`.
pub struct PathOrder;

impl Ranking<MatchedFile> for PathOrder {
    open spec fn rank_le(a: MatchedFileView, b: MatchedFileView) -> bool {
        file_le(a, b)
    }

    proof fn lemma_rank_total(a: MatchedFileView, b: MatchedFileView) {
        crate::paths::lemma_parts_le_total(a.path, b.path);
        if a.content is Some && b.content is Some {
            crate::text::lemma_lex_le_total(a.content->0, b.content->0);
        }
    }

    proof fn lemma_rank_transitive(a: MatchedFileView, b: MatchedFileView, c: MatchedFileView) {
        if a.path == b.path && b.path == c.path {
            if a.content is Some && b.content is Some && c.content is Some {
                crate::text::lemma_lex_le_transitive(a.content->0, b.content->0, c.content->0);
            }
        } else if a.path == b.path || b.path == c.path {
        } else {
            crate::paths::lemma_parts_le_transitive(a.path, b.path, c.path);
            if a.path == c.path {
                crate::paths::lemma_parts_le_antisymmetric(a.path, b.path);
            }
        }
    }

    fn ranks_before(a: &MatchedFile, b: &MatchedFile) -> (r: bool) {
        let (same, before) = compare_paths(&a.path, &b.path);
        if !same {
            before
        } else {
            match (&a.content, &b.content) {
                (None, _) => true,
                (Some(_), None) => false,
                (Some(x), Some(y)) => bytes_le(x.as_slice(), y.as_slice()),
            }
        }
    }
}

/// `file_le` is a total order: two files that rank the same are the same.
pub proof fn lemma_file_le_total_order()
    ensures
        vstd::relations::total_ordering(rank_relation::<MatchedFile, PathOrder>()),
{
    let r = rank_relation::<MatchedFile, PathOrder>();
    assert forall|x: MatchedFileView| #[trigger] r(x, x) by {
        if x.content is Some {
            crate::text::lemma_lex_le_reflexive(x.content->0);
        }
    }
    assert forall|x: MatchedFileView, y: MatchedFileView| #[trigger]
        r(x, y) && #[trigger] r(y, x) implies x == y by {
        if x.path != y.path {
            crate::paths::lemma_parts_le_antisymmetric(x.path, y.path);
        }
        if x.content is Some && y.content is Some {
            crate::text::lemma_lex_le_antisymmetric(x.content->0, y.content->0);
        }
    }
    assert forall|x: MatchedFileView, y: MatchedFileView, z: MatchedFileView| #[trigger]
        r(x, y) && #[trigger] r(y, z) implies r(x, z) by {
        PathOrder::lemma_rank_transitive(x, y, z);
    }
    assert forall|x: MatchedFileView, y: MatchedFileView| #[trigger]
        r(x, y) || #[trigger] r(y, x) by {
        PathOrder::lemma_rank_total(x, y);
    }
    assert(vstd::relations::reflexive(r));
    assert(vstd::relations::antisymmetric(r));
    assert(vstd::relations::transitive(r));
    assert(vstd::relations::strongly_connected(r));
}

/// The digests of the readable files of `files`, one after the other in
/// the order of `files`. A file that could not be read adds nothing.
pub open spec fn digest_fold(files: Seq<MatchedFileView>) -> Seq<u8>
    decreases files.len(),
{
    if files.len() == 0 {
        Seq::empty()
    } else {
        digest_fold(files.drop_last()) + (match files.last().content {
            Some(bytes) => sha256(bytes),
            None => Seq::empty(),
        })
    }
}

/// A file could be read.
pub open spec fn is_readable(file: MatchedFileView) -> bool {
    file.content is Some
}

/// Files that could not be read add nothing: the fold of a list is the
/// fold of its readable files.
pub proof fn lemma_unreadable_files_add_nothing(files: Seq<MatchedFileView>)
    ensures
        digest_fold(files) == digest_fold(files.filter(|f: MatchedFileView| is_readable(f))),
    decreases files.len(),
{
    let readable = |f: MatchedFileView| is_readable(f);
    reveal(Seq::filter);
    if files.len() > 0 {
        let front = files.drop_last();
        lemma_unreadable_files_add_nothing(front);
        if is_readable(files.last()) {
            assert(files.filter(readable) == front.filter(readable).push(files.last()));
            assert(front.filter(readable).push(files.last()).drop_last() =~= front.filter(
                readable,
            ));
        } else {
            assert(files.filter(readable) == front.filter(readable));
            assert(digest_fold(front) + Seq::<u8>::empty() =~= digest_fold(front));
        }
    }
}

/// What one pattern adds to the fold: the digests of its readable files, in
/// the order of their paths.
pub open spec fn pattern_fold(files: Seq<MatchedFileView>) -> Seq<u8> {
    digest_fold(files.sort_by(rank_relation::<MatchedFile, PathOrder>()))
}

/// A pattern with what it adds to the fold.
pub struct PatternFold {
    pattern: String,
    fold: Vec<u8>,
}

/// A `PatternFold` as a mathematical value.
pub struct PatternFoldView {
    pub pattern: Seq<char>,
    pub fold: Seq<u8>,
}

impl View for PatternFold {
    type V = PatternFoldView;

    closed spec fn view(&self) -> PatternFoldView {
        PatternFoldView { pattern: self.pattern@, fold: self.fold@ }
    }
}

/// The order of the patterns of a list: by the bytes of the pattern. A
/// pattern that the list names twice has matched the same files twice and
/// adds the same twice; should it not, what it adds decides.
pub open spec fn pattern_le(a: PatternFoldView, b: PatternFoldView) -> bool {
    if a.pattern != b.pattern {
        text_le(a.pattern, b.pattern)
    } else {
        lex_le(a.fold, b.fold)
    }
}

/// The ranking of the patterns of a list by `pattern_le`.
pub struct PatternOrder;

impl Ranking<PatternFold> for PatternOrder {
    open spec fn rank_le(a: PatternFoldView, b: PatternFoldView) -> bool {
        pattern_le(a, b)
    }

    proof fn lemma_rank_total(a: PatternFoldView, b: PatternFoldView) {
        crate::text::lemma_text_le_total_order();
        crate::text::lemma_lex_le_total(a.fold, b.fold);
    }

    proof fn lemma_rank_transitive(a: PatternFoldView, b: PatternFoldView, c: PatternFoldView) {
        crate::text::lemma_text_le_total_order();
        if a.pattern == b.pattern && b.pattern == c.pattern {
            crate::text::lemma_lex_le_transitive(a.fold, b.fold, c.fold);
        }
    }

    fn ranks_before(a: &PatternFold, b: &PatternFold) -> (r: bool) {
        if !str_eq(a.pattern.as_str(), b.pattern.as_str()) {
            str_le(a.pattern.as_str(), b.pattern.as_str())
        } else {
            bytes_le(a.fold.as_slice(), b.fold.as_slice())
        }
    }
}

/// `pattern_le` is a total order.
pub proof fn lemma_pattern_le_total_order()
    ensures
        vstd::relations::total_ordering(rank_relation::<PatternFold, PatternOrder>()),
{
    let r = rank_relation::<PatternFold, PatternOrder>();
    crate::text::lemma_text_le_total_order();
    assert forall|x: PatternFoldView| #[trigger] r(x, x) by {
        crate::text::lemma_lex_le_reflexive(x.fold);
    }
    assert forall|x: PatternFoldView, y: PatternFoldView| #[trigger]
        r(x, y) && #[trigger] r(y, x) implies x == y by {
        if x.pattern == y.pattern {
            crate::text::lemma_lex_le_antisymmetric(x.fold, y.fold);
        }
    }
    assert forall|x: PatternFoldView, y: PatternFoldView, z: PatternFoldView| #[trigger]
        r(x, y) && #[trigger] r(y, z) implies r(x, z) by {
        PatternOrder::lemma_rank_transitive(x, y, z);
    }
    assert forall|x: PatternFoldView, y: PatternFoldView| #[trigger]
        r(x, y) || #[trigger] r(y, x) by {
        PatternOrder::lemma_rank_total(x, y);
    }
    assert(vstd::relations::reflexive(r));
    assert(vstd::relations::antisymmetric(r));
    assert(vstd::relations::transitive(r));
    assert(vstd::relations::strongly_connected(r));
}

/// Each pattern of a list with what it adds to the fold, in the order of
/// the list.
pub open spec fn pattern_folds(matches: Seq<GlobMatchView>) -> Seq<PatternFoldView> {
    matches.map_values(
        |m: GlobMatchView| PatternFoldView { pattern: m.pattern, fold: pattern_fold(m.files) },
    )
}

/// What the patterns add, one after the other in the order of `folds`.
pub open spec fn joined(folds: Seq<PatternFoldView>) -> Seq<u8>
    decreases folds.len(),
{
    if folds.len() == 0 {
        Seq::empty()
    } else {
        joined(folds.drop_last()) + folds.last().fold
    }
}

/// The one checksum of what a list of patterns matched: the patterns are
/// taken in the order of their bytes, each adds the digests of its readable
/// files in the order of their paths, and what they add together is hashed.
pub open spec fn globs_checksum(matches: Seq<GlobMatchView>) -> Seq<char> {
    checksum_text(
        joined(pattern_folds(matches).sort_by(rank_relation::<PatternFold, PatternOrder>())),
    )
}

/// What a pattern adds does not depend on the order in which its files
/// were found.
pub proof fn lemma_pattern_fold_ignores_order(a: Seq<MatchedFileView>, b: Seq<MatchedFileView>)
    requires
        a.to_multiset() == b.to_multiset(),
    ensures
        pattern_fold(a) == pattern_fold(b),
{
    let r = rank_relation::<MatchedFile, PathOrder>();
    lemma_file_le_total_order();
    a.lemma_sort_by_ensures(r);
    b.lemma_sort_by_ensures(r);
    vstd::seq_lib::lemma_sorted_unique(a.sort_by(r), b.sort_by(r), r);
}

/// Two lists with the same elements give the same elements when a function
/// is applied to each element.
proof fn lemma_same_elements_mapped<A, B>(a: Seq<A>, b: Seq<A>, f: spec_fn(A) -> B)
    requires
        a.to_multiset() == b.to_multiset(),
    ensures
        a.map_values(f).to_multiset() == b.map_values(f).to_multiset(),
    decreases a.len(),
{
    broadcast use vstd::seq_lib::group_to_multiset_ensures;

    a.to_multiset_ensures();
    b.to_multiset_ensures();
    if a.len() == 0 {
        assert(b.len() == 0);
        assert(a.map_values(f) =~= b.map_values(f));
    } else {
        let x = a.last();
        assert(a.to_multiset().count(x) > 0) by {
            assert(a[a.len() - 1] == x);
            assert(a.contains(x));
        }
        assert(b.contains(x));
        let i = choose|i: int| 0 <= i < b.len() && b[i] == x;
        let a1 = a.drop_last();
        let b1 = b.remove(i);
        assert(a1 =~= a.remove(a.len() - 1));
        vstd::seq_lib::to_multiset_remove(a, a.len() - 1);
        vstd::seq_lib::to_multiset_remove(b, i);
        lemma_same_elements_mapped(a1, b1, f);
        assert(a.map_values(f) =~= a1.map_values(f).push(f(x)));
        assert(b.map_values(f) =~= b1.map_values(f).insert(i, f(x)));
        vstd::seq_lib::to_multiset_build(a1.map_values(f), f(x));
        vstd::seq_lib::to_multiset_insert(b1.map_values(f), i, f(x));
    }
}

/// The checksum does not depend on the order in which the patterns are
/// listed, nor on the order in which the files of a pattern were found:
/// two lists in which the same patterns add the same give the same
/// checksum.
pub proof fn lemma_globs_checksum_by_what_patterns_add(
    a: Seq<GlobMatchView>,
    b: Seq<GlobMatchView>,
)
    requires
        pattern_folds(a).to_multiset() == pattern_folds(b).to_multiset(),
    ensures
        globs_checksum(a) == globs_checksum(b),
{
    let r = rank_relation::<PatternFold, PatternOrder>();
    lemma_pattern_le_total_order();
    pattern_folds(a).lemma_sort_by_ensures(r);
    pattern_folds(b).lemma_sort_by_ensures(r);
    vstd::seq_lib::lemma_sorted_unique(pattern_folds(a).sort_by(r), pattern_folds(b).sort_by(r), r);
}

/// The checksum of a list of patterns is that of the list in any other
/// order.
pub proof fn lemma_globs_checksum_ignores_order(a: Seq<GlobMatchView>, b: Seq<GlobMatchView>)
    requires
        a.to_multiset() == b.to_multiset(),
    ensures
        globs_checksum(a) == globs_checksum(b),
{
    lemma_same_elements_mapped(
        a,
        b,
        |m: GlobMatchView| PatternFoldView { pattern: m.pattern, fold: pattern_fold(m.files) },
    );
    lemma_globs_checksum_by_what_patterns_add(a, b);
}

/// The digests of the readable files of `files`, in the order of `files`.
fn fold_digests(files: &Vec<MatchedFile>) -> (fold: Vec<u8>)
    ensures
        fold@ == digest_fold(views(files@)),
{
    let mut fold: Vec<u8> = Vec::new();
    let mut i: usize = 0;
    while i < files.len()
        invariant
            i <= files@.len(),
            fold@ == digest_fold(views(files@).subrange(0, i as int)),
        decreases files@.len() - i,
    {
        let ghost upto = views(files@).subrange(0, i + 1);
        proof {
            assert(upto.drop_last() =~= views(files@).subrange(0, i as int));
            assert(upto.last() == files@[i as int]@);
        }
        match &files[i].content {
            Some(bytes) => {
                let digest = sha256_digest(bytes.as_slice());
                append_bytes(&mut fold, digest.as_slice());
            },
            None => {
                assert(fold@ + Seq::<u8>::empty() =~= fold@);
            },
        }
        i += 1;
    }
    proof {
        assert(views(files@).subrange(0, i as int) =~= views(files@));
    }
    fold
}

/// Puts `bytes` at the end of `out`.
fn append_bytes(out: &mut Vec<u8>, bytes: &[u8])
    ensures
        final(out)@ == old(out)@ + bytes@,
{
    let ghost before = out@;
    let mut k: usize = 0;
    proof {
        assert(bytes@.subrange(0, 0) =~= Seq::<u8>::empty());
        assert(out@ =~= before + bytes@.subrange(0, 0));
    }
    while k < bytes.len()
        invariant
            k <= bytes@.len(),
            out@ == before + bytes@.subrange(0, k as int),
        decreases bytes@.len() - k,
    {
        out.push(bytes[k]);
        proof {
            assert(bytes@.subrange(0, k + 1) =~= bytes@.subrange(0, k as int).push(
                bytes@[k as int],
            ));
            assert(out@ =~= before + bytes@.subrange(0, k + 1));
        }
        k += 1;
    }
    proof {
        assert(bytes@.subrange(0, k as int) =~= bytes@);
    }
}

impl Checksum {
    /// One checksum for all the files that a list of patterns matched.
    ///
    /// The patterns and the files of each pattern may come in any order.
    /// The patterns are taken in the order of their bytes; each adds the
    /// digests of its files in the order of their paths, compared component
    /// by component. A file that could not be read adds nothing, and a
    /// pattern that the list names twice adds its files twice.
    pub fn from_globs_par(matches: Vec<GlobMatch>) -> (c: Checksum)
        ensures
            c@ == globs_checksum(views(matches@)),
    {
        let ghost input = views(matches@);
        let mut folds: Vec<PatternFold> = Vec::new();
        proof {
            assert(views(folds@) =~= pattern_folds(input.subrange(0, 0)));
        }
        for found in it: matches
            invariant
                it.seq() == matches@,
                input == views(matches@),
                views(folds@) == pattern_folds(input.subrange(0, it.index() as int)),
        {
            let ghost before = views(folds@);
            let ghost files = found@.files;
            let GlobMatch { pattern, files: found_files } = found;
            let sorted = sort_stable::<MatchedFile, PathOrder>(found_files);
            proof {
                let r = rank_relation::<MatchedFile, PathOrder>();
                lemma_file_le_total_order();
                files.lemma_sort_by_ensures(r);
                vstd::seq_lib::lemma_sorted_unique(views(sorted@), files.sort_by(r), r);
            }
            let fold = fold_digests(&sorted);
            let entry = PatternFold { pattern, fold };
            folds.push(entry);
            proof {
                assert(views(folds@) =~= before.push(entry@));
                assert(pattern_folds(input.subrange(0, it.index() + 1)) =~= pattern_folds(
                    input.subrange(0, it.index() as int),
                ).push(entry@));
            }
        }
        proof {
            assert(input.subrange(0, input.len() as int) =~= input);
        }
        let ghost all = views(folds@);
        let ordered = sort_stable::<PatternFold, PatternOrder>(folds);
        proof {
            let r = rank_relation::<PatternFold, PatternOrder>();
            lemma_pattern_le_total_order();
            all.lemma_sort_by_ensures(r);
            vstd::seq_lib::lemma_sorted_unique(views(ordered@), all.sort_by(r), r);
        }
        let mut whole: Vec<u8> = Vec::new();
        let mut i: usize = 0;
        while i < ordered.len()
            invariant
                i <= ordered@.len(),
                whole@ == joined(views(ordered@).subrange(0, i as int)),
            decreases ordered@.len() - i,
        {
            proof {
                let upto = views(ordered@).subrange(0, i + 1);
                assert(upto.drop_last() =~= views(ordered@).subrange(0, i as int));
                assert(upto.last() == ordered@[i as int]@);
            }
            append_bytes(&mut whole, ordered[i].fold.as_slice());
            i += 1;
        }
        proof {
            assert(views(ordered@).subrange(0, i as int) =~= views(ordered@));
        }
        Checksum::from_data(whole.as_slice())
    }
}

} // verus!
