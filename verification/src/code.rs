//! Source buffers, the store that interns them, and spans into them.
//!
//! A buffer is identified by the SHA-256 digest of its text. The store keeps
//! one buffer for each digest: loading the same text again hands out the
//! buffer that is already there.

use bytes::Bytes;
use sha2::{Digest, Sha256};
use std::path::Path;
use std::sync::Arc;
use vstd::prelude::*;
use vstd::utf8::encode_utf8;

verus! {

/// `bytes::Bytes`, a shared byte string. Nothing of its inside is read here.
#[verifier::external_type_specification]
#[verifier::external_body]
pub struct ExBytes(Bytes);

/// The bytes that a `Bytes` holds, in order.
pub uninterp spec fn bytes_contents(b: Bytes) -> Seq<u8>;

/// `Bytes::from` takes over the bytes of a vector, in order.
#[verifier::external_body]
fn bytes_from_vec(v: Vec<u8>) -> (b: Bytes)
    ensures
        bytes_contents(b) == v@,
{
    Bytes::from(v)
}

/// `==` on `Bytes` compares what the two hold, byte for byte.
#[verifier::external_body]
fn bytes_equal(a: &Bytes, b: &Bytes) -> (r: bool)
    ensures
        r == (bytes_contents(*a) == bytes_contents(*b)),
{
    a == b
}

/// The SHA-256 digest of a byte string.
pub uninterp spec fn sha256_digest(data: Seq<u8>) -> Seq<u8>;

/// `Sha256::digest` computes the SHA-256 digest of `data`.
#[verifier::external_body]
fn sha256(data: &[u8]) -> (digest: Vec<u8>)
    ensures
        digest@ == sha256_digest(data@),
{
    Sha256::digest(data).to_vec()
}

/// `Path::file_name` gives the final component of a path, if it has one.
/// What counts as a component depends on the platform, so nothing is stated
/// of the result.
#[verifier::external_body]
fn path_file_name(path: &str) -> (name: Option<String>) {
    match Path::new(path).file_name() {
        Some(name) => Some(name.to_string_lossy().into_owned()),
        None => None,
    }
}

/// The characters of an optional string.
pub open spec fn optional_text(s: Option<String>) -> Option<Seq<char>> {
    match s {
        Some(s) => Some(s@),
        None => None,
    }
}

/// A source buffer: immutable text, and where it came from.
#[derive(Debug, PartialEq, Eq, Hash)]
pub struct Code {
    sha: Bytes,
    pub name: Option<String>,
    pub file_path: Option<String>,
    pub text: Arc<String>,
}

/// The mathematical value of a [`Code`].
pub struct CodeView {
    /// The digest that identifies the buffer.
    pub digest: Seq<u8>,
    /// The file name of the origin, if the text came from a file.
    pub name: Option<Seq<char>>,
    /// The path of the origin, if the text came from a file.
    pub file_path: Option<Seq<char>>,
    /// The text.
    pub text: Seq<char>,
}

impl CodeView {
    /// The bytes of the text. Spans count their offsets in these.
    pub open spec fn bytes(self) -> Seq<u8> {
        encode_utf8(self.text)
    }
}

impl View for Code {
    type V = CodeView;

    closed spec fn view(&self) -> CodeView {
        CodeView {
            digest: bytes_contents(self.sha),
            name: optional_text(self.name),
            file_path: optional_text(self.file_path),
            text: self.text@,
        }
    }
}

impl Code {
    /// The bytes of the text.
    pub fn as_bytes(&self) -> (bytes: &[u8])
        ensures
            bytes@ == self@.bytes(),
    {
        self.text.as_str().as_bytes()
    }

    /// The text.
    pub fn as_str(&self) -> (text: &str)
        ensures
            text@ == self@.text,
    {
        self.text.as_str()
    }

    /// The path of the file that the text came from, if it came from one.
    pub fn origin(&self) -> (path: Option<&str>)
        ensures
            match path {
                Some(p) => self@.file_path == Some(p@),
                None => self@.file_path is None,
            },
    {
        match &self.file_path {
            Some(p) => Some(p.as_str()),
            None => None,
        }
    }
}

/// The entries of a store in which every buffer carries the digest of its
/// own text and no two buffers carry the same digest.
pub open spec fn well_formed(entries: Seq<CodeView>) -> bool {
    &&& forall|i: int|
        0 <= i < entries.len() ==> (#[trigger] entries[i]).digest == sha256_digest(
            entries[i].bytes(),
        )
    &&& forall|i: int, j: int|
        0 <= i < entries.len() && 0 <= j < entries.len() && i != j ==> (#[trigger] entries[i]).digest
            != (#[trigger] entries[j]).digest
}

/// The first index at or after `from` of an entry with the given digest.
pub open spec fn find_from(entries: Seq<CodeView>, digest: Seq<u8>, from: int) -> Option<int>
    decreases entries.len() - from,
{
    if from < 0 || from >= entries.len() {
        None
    } else if entries[from].digest == digest {
        Some(from)
    } else {
        find_from(entries, digest, from + 1)
    }
}

/// What interning a text does to the entries of a store, and the buffer it
/// hands out: the buffer already stored under the digest of the text, or
/// else a new buffer, which is added last.
pub open spec fn spec_intern(
    entries: Seq<CodeView>,
    text: Seq<char>,
    file_path: Option<Seq<char>>,
    name: Option<Seq<char>>,
) -> (Seq<CodeView>, CodeView) {
    let digest = sha256_digest(encode_utf8(text));
    match find_from(entries, digest, 0) {
        Some(i) => (entries, entries[i]),
        None => {
            let code = CodeView { digest, name, file_path, text };
            (entries.push(code), code)
        },
    }
}

/// The digest that identifies a buffer with the given text.
pub fn content_digest(text: &str) -> (digest: Vec<u8>)
    ensures
        digest@ == sha256_digest(encode_utf8(text@)),
{
    sha256(text.as_bytes())
}

/// The store of source buffers, one for each distinct content.
pub struct CodeAtlas {
    entries: Vec<Arc<Code>>,
}

impl View for CodeAtlas {
    type V = Seq<CodeView>;

    closed spec fn view(&self) -> Seq<CodeView> {
        Seq::new(self.entries@.len(), |i: int| self.entries@[i]@)
    }
}

impl CodeAtlas {
    /// A store without buffers.
    pub fn new() -> (atlas: CodeAtlas)
        ensures
            atlas@ == Seq::<CodeView>::empty(),
            well_formed(atlas@),
    {
        let atlas = CodeAtlas { entries: Vec::new() };
        assert(atlas@ =~= Seq::<CodeView>::empty());
        atlas
    }

    /// The number of buffers in the store.
    pub fn len(&self) -> (n: usize)
        ensures
            n == self@.len(),
    {
        self.entries.len()
    }

    /// Interns `text` with the given origin: hands out the buffer stored for
    /// this content, or stores a new one.
    pub fn intern_named(
        &mut self,
        text: String,
        file_path: Option<String>,
        name: Option<String>,
    ) -> (handle: Arc<Code>)
        ensures
            (final(self)@, handle@) == spec_intern(
                old(self)@,
                text@,
                optional_text(file_path),
                optional_text(name),
            ),
            well_formed(old(self)@) ==> well_formed(final(self)@),
    {
        let sha = bytes_from_vec(content_digest(text.as_str()));
        let mut i: usize = 0;
        while i < self.entries.len()
            invariant
                i <= self.entries.len(),
                self@ == old(self)@,
                self.entries@.len() == self@.len(),
                bytes_contents(sha) == sha256_digest(encode_utf8(text@)),
                find_from(self@, bytes_contents(sha), i as int) == find_from(
                    self@,
                    bytes_contents(sha),
                    0,
                ),
            decreases self.entries.len() - i,
        {
            if bytes_equal(&self.entries[i].sha, &sha) {
                return Arc::clone(&self.entries[i]);
            }
            i += 1;
        }
        let code = Arc::new(Code { sha, name, file_path, text: Arc::new(text) });
        let handle = Arc::clone(&code);
        self.entries.push(code);
        proof {
            assert(self@ =~= old(self)@.push(handle@));
            lemma_find_none(old(self)@, handle@.digest, 0);
        }
        handle
    }
}

/// When no entry from `from` on has the digest, each of them has another.
pub proof fn lemma_find_none(entries: Seq<CodeView>, digest: Seq<u8>, from: int)
    requires
        0 <= from,
        find_from(entries, digest, from) is None,
    ensures
        forall|i: int| from <= i < entries.len() ==> (#[trigger] entries[i]).digest != digest,
    decreases entries.len() - from,
{
    if from < entries.len() {
        lemma_find_none(entries, digest, from + 1);
    }
}

impl Code {
    /// Interns a snippet that comes from no file.
    pub fn from_snippet(atlas: &mut CodeAtlas, src: &str) -> (handle: Arc<Code>)
        ensures
            (final(atlas)@, handle@) == spec_intern(old(atlas)@, src@, None, None),
            well_formed(old(atlas)@) ==> well_formed(final(atlas)@),
    {
        atlas.intern_named(src.to_owned(), None, None)
    }

    /// Interns `text` that was read from the file at `file_path`, or that
    /// comes from no file. The buffer's name is the final component of the path.
    pub fn intern(atlas: &mut CodeAtlas, text: String, file_path: Option<String>) -> (handle: Arc<
        Code,
    >)
        ensures
            exists|name: Option<Seq<char>>|
                (file_path is None ==> name is None) && (final(atlas)@, handle@) == #[trigger] spec_intern(
                    old(atlas)@,
                    text@,
                    optional_text(file_path),
                    name,
                ),
            well_formed(old(atlas)@) ==> well_formed(final(atlas)@),
    {
        let name = match &file_path {
            Some(path) => path_file_name(path.as_str()),
            None => None,
        };
        let ghost witness = optional_text(name);
        let handle = atlas.intern_named(text, file_path, name);
        assert((atlas@, handle@) == spec_intern(
            old(atlas)@,
            text@,
            optional_text(file_path),
            witness,
        ));
        handle
    }

    /// The place where parsing of this buffer starts.
    pub fn span(arc: &Arc<Code>) -> (start: ParserSpan)
        ensures
            start.extra == *arc,
            start.offset == 0,
            start.wf(),
    {
        ParserSpan { extra: Arc::clone(arc), offset: 0 }
    }
}

/// A place in a buffer at which the parser stands: all that lies before
/// `offset` has been consumed.
#[derive(Debug)]
pub struct ParserSpan {
    /// The buffer.
    pub extra: Arc<Code>,
    /// The number of bytes consumed.
    pub offset: usize,
}

impl ParserSpan {
    /// Whether the place lies within its buffer.
    pub open spec fn wf(&self) -> bool {
        self.offset <= self.extra@.bytes().len()
    }

    /// The number of bytes consumed.
    pub fn location_offset(&self) -> (offset: usize)
        ensures
            offset == self.offset,
    {
        self.offset
    }
}

/// A byte range of a buffer.
#[derive(Debug, PartialEq, Eq, Hash)]
pub struct CodeSpan {
    pub code: Arc<Code>,
    pub start: usize,
    pub end: usize,
}

/// The mathematical value of a [`CodeSpan`].
pub struct CodeSpanView {
    pub code: CodeView,
    pub start: int,
    pub end: int,
}

impl CodeSpanView {
    /// Whether the range lies within the buffer.
    pub open spec fn wf(self) -> bool {
        0 <= self.start <= self.end <= self.code.bytes().len()
    }

    /// The bytes that the span covers.
    pub open spec fn slice(self) -> Seq<u8> {
        self.code.bytes().subrange(self.start, self.end)
    }
}

impl View for CodeSpan {
    type V = CodeSpanView;

    open spec fn view(&self) -> CodeSpanView {
        CodeSpanView { code: self.code@, start: self.start as int, end: self.end as int }
    }
}

impl Clone for CodeSpan {
    fn clone(&self) -> (r: Self)
        ensures
            r == *self,
    {
        CodeSpan { code: Arc::clone(&self.code), start: self.start, end: self.end }
    }
}

impl CodeSpan {
    /// The span of `code` from byte `start` up to byte `end`.
    pub fn new(code: Arc<Code>, start: usize, end: usize) -> (span: CodeSpan)
        requires
            start <= end <= code@.bytes().len(),
        ensures
            span == (CodeSpan { code, start, end }),
            span@.wf(),
    {
        CodeSpan { code, start, end }
    }
}

/// The span of what is left at a place: from its offset to the end of the
/// buffer. At a place beyond the end, the span is empty.
pub open spec fn remainder(place: ParserSpan) -> CodeSpanView {
    CodeSpanView {
        code: place.extra@,
        start: place.offset as int,
        end: if place.offset <= place.extra@.bytes().len() {
            place.extra@.bytes().len() as int
        } else {
            place.offset as int
        },
    }
}

impl vstd::std_specs::convert::FromSpecImpl<ParserSpan> for CodeSpan {
    open spec fn obeys_from_spec() -> bool {
        true
    }

    open spec fn from_spec(place: ParserSpan) -> CodeSpan {
        CodeSpan {
            code: place.extra,
            start: place.offset,
            end: if place.offset <= place.extra@.bytes().len() {
                place.extra@.bytes().len() as usize
            } else {
                place.offset
            },
        }
    }
}

impl From<ParserSpan> for CodeSpan {
    /// The span of what is left at `place`.
    fn from(place: ParserSpan) -> (span: CodeSpan)
        ensures
            span@ == remainder(place),
            span.code == place.extra,
    {
        let len = place.extra.as_bytes().len();
        let start = place.offset;
        let end = if start <= len {
            len
        } else {
            start
        };
        CodeSpan { code: place.extra, start, end }
    }
}

/// A value together with the span of source text that produced it.
#[derive(Debug)]
pub struct Spanned<T> {
    pub value: T,
    pub span: CodeSpan,
}

impl<T: Clone> Clone for Spanned<T> {
    fn clone(&self) -> (r: Self)
        ensures
            r.span == self.span,
    {
        Spanned { value: self.value.clone(), span: self.span.clone() }
    }
}

/// Loading one text twice hands out one buffer: the second load returns what
/// the first returned and leaves the store as the first left it, whatever
/// origins the two loads name.
pub proof fn lemma_interning_idempotent(
    entries: Seq<CodeView>,
    text: Seq<char>,
    first_path: Option<Seq<char>>,
    first_name: Option<Seq<char>>,
    second_path: Option<Seq<char>>,
    second_name: Option<Seq<char>>,
)
    ensures
        ({
            let first = spec_intern(entries, text, first_path, first_name);
            let second = spec_intern(first.0, text, second_path, second_name);
            second.1 == first.1 && second.0 == first.0
        }),
{
    let digest = sha256_digest(encode_utf8(text));
    let first = spec_intern(entries, text, first_path, first_name);
    match find_from(entries, digest, 0) {
        Some(i) => {},
        None => {
            lemma_find_none(entries, digest, 0);
            lemma_find_first(first.0, digest, 0, entries.len() as int);
        },
    }
}

/// The entry at `at` is the first from `from` on with the digest, when it
/// has the digest and none before it has.
pub proof fn lemma_find_first(entries: Seq<CodeView>, digest: Seq<u8>, from: int, at: int)
    requires
        0 <= from <= at < entries.len(),
        entries[at].digest == digest,
        forall|i: int| from <= i < at ==> (#[trigger] entries[i]).digest != digest,
    ensures
        find_from(entries, digest, from) == Some(at),
    decreases at - from,
{
    if from < at {
        lemma_find_first(entries, digest, from + 1, at);
    }
}

/// An entry that a search finds has the digest and lies in the store.
pub proof fn lemma_find_some(entries: Seq<CodeView>, digest: Seq<u8>, from: int)
    requires
        0 <= from,
        find_from(entries, digest, from) is Some,
    ensures
        from <= find_from(entries, digest, from).unwrap() < entries.len(),
        entries[find_from(entries, digest, from).unwrap()].digest == digest,
    decreases entries.len() - from,
{
    if from < entries.len() && entries[from].digest != digest {
        lemma_find_some(entries, digest, from + 1);
    }
}

/// The buffer that a load hands out carries the digest of the text loaded.
pub proof fn lemma_handle_digest(
    entries: Seq<CodeView>,
    text: Seq<char>,
    file_path: Option<Seq<char>>,
    name: Option<Seq<char>>,
)
    ensures
        spec_intern(entries, text, file_path, name).1.digest == sha256_digest(encode_utf8(text)),
{
    let digest = sha256_digest(encode_utf8(text));
    if find_from(entries, digest, 0) is Some {
        lemma_find_some(entries, digest, 0);
    }
}

/// Loading two texts whose digests differ hands out two different buffers.
pub proof fn lemma_distinct_content(
    entries: Seq<CodeView>,
    first_text: Seq<char>,
    first_path: Option<Seq<char>>,
    first_name: Option<Seq<char>>,
    second_text: Seq<char>,
    second_path: Option<Seq<char>>,
    second_name: Option<Seq<char>>,
)
    requires
        sha256_digest(encode_utf8(first_text)) != sha256_digest(encode_utf8(second_text)),
    ensures
        ({
            let first = spec_intern(entries, first_text, first_path, first_name);
            let second = spec_intern(first.0, second_text, second_path, second_name);
            second.1 != first.1
        }),
{
    let first = spec_intern(entries, first_text, first_path, first_name);
    lemma_handle_digest(entries, first_text, first_path, first_name);
    lemma_handle_digest(first.0, second_text, second_path, second_name);
}

/// A load leaves the store well formed.
pub proof fn lemma_intern_well_formed(
    entries: Seq<CodeView>,
    text: Seq<char>,
    file_path: Option<Seq<char>>,
    name: Option<Seq<char>>,
)
    requires
        well_formed(entries),
    ensures
        well_formed(spec_intern(entries, text, file_path, name).0),
{
    let digest = sha256_digest(encode_utf8(text));
    if find_from(entries, digest, 0) is None {
        lemma_find_none(entries, digest, 0);
    }
}

/// A load removes nothing from the store and moves nothing in it: what was
/// stored before is stored after, at the same place.
pub proof fn lemma_store_grows(
    entries: Seq<CodeView>,
    text: Seq<char>,
    file_path: Option<Seq<char>>,
    name: Option<Seq<char>>,
)
    ensures
        entries.len() <= spec_intern(entries, text, file_path, name).0.len() <= entries.len() + 1,
        forall|i: int|
            0 <= i < entries.len() ==> spec_intern(entries, text, file_path, name).0[i]
                == #[trigger] entries[i],
{
}

/// A well-formed store holds at most one buffer for each text.
pub proof fn lemma_one_buffer_per_content(entries: Seq<CodeView>, i: int, j: int)
    requires
        well_formed(entries),
        0 <= i < entries.len(),
        0 <= j < entries.len(),
        entries[i].text == entries[j].text,
    ensures
        i == j,
{
}

} // verus!
