//! How a file is sent: in one request when it is small, else in chunks of
//! one mebibyte, posted in order until one is refused.
use vstd::prelude::*;

use crate::relay::{file_id_of, PiRelayClient};

verus! {

/// Bytes in one chunk of a file sent in chunks (1 MiB).
pub const CHUNK_SIZE: usize = 1048576;

/// Largest file sent in one request (5 MiB).
pub const SMALL_FILE_SIZE: usize = 5242880;

/// How a file goes to the server.
#[derive(Clone, Copy, Debug, PartialEq, Eq, Structural)]
pub enum UploadMode {
    /// One multipart request.
    Small,
    /// One request per chunk.
    Chunked,
}

/// Files of at most 5 MiB go in one request, larger ones in chunks.
pub open spec fn upload_mode_for(size: nat) -> UploadMode {
    if size <= SMALL_FILE_SIZE {
        UploadMode::Small
    } else {
        UploadMode::Chunked
    }
}

/// How a file of `size` bytes goes to the server.
pub fn upload_mode(size: usize) -> (m: UploadMode)
    ensures
        m == upload_mode_for(size as nat),
{
    if size <= SMALL_FILE_SIZE {
        UploadMode::Small
    } else {
        UploadMode::Chunked
    }
}

/// The directory that relative paths are taken from when `path` is sent:
/// the path itself for a directory, else its parent (`parent`, as
/// `Path::parent` gives it), or the path itself when it has none.
pub open spec fn upload_base_of(path: Seq<char>, is_dir: bool, parent: Option<Seq<char>>) -> Seq<
    char,
> {
    if is_dir {
        path
    } else {
        match parent {
            Some(p) => p,
            None => path,
        }
    }
}

/// The base of a directory is the directory itself; the base of anything
/// else is its parent whenever it has one, whatever that parent is (the empty
/// parent of a bare file name included), and the path itself otherwise.
pub proof fn lemma_upload_base(path: Seq<char>, parent: Option<Seq<char>>)
    ensures
        upload_base_of(path, true, parent) == path,
        parent matches Some(p) ==> upload_base_of(path, false, parent) == p,
        parent is None ==> upload_base_of(path, false, parent) == path,
{
}

/// The directory that relative paths are taken from when `path` is sent.
pub fn upload_base(path: &String, is_dir: bool, parent: Option<String>) -> (r: String)
    ensures
        r@ == upload_base_of(path@, is_dir, match parent {
            Some(p) => Some(p@),
            None => None,
        }),
{
    if is_dir {
        path.clone()
    } else {
        match parent {
            Some(p) => p,
            None => path.clone(),
        }
    }
}

/// What is sent for one file.
#[derive(Debug)]
pub struct FileUpload {
    /// The path of the file below the directory being sent.
    pub relative_path: String,
    /// The identifier of the file on the server.
    pub file_id: String,
    /// One request or chunks.
    pub mode: UploadMode,
}

impl PiRelayClient {
    /// Plans sending the file at `file_path`, of `size` bytes. `stripped` is
    /// the file path below the base directory (`Path::strip_prefix`), when
    /// the file lies below it; the whole path stands in for it otherwise.
    pub fn plan_file_upload(&self, file_path: &String, stripped: Option<String>, size: usize) -> (r:
        FileUpload)
        ensures
            r.relative_path@ == (match stripped {
                Some(s) => s@,
                None => file_path@,
            }),
            r.file_id@ == file_id_of(self@.username, r.relative_path@),
            r.mode == upload_mode_for(size as nat),
    {
        let relative_path = match stripped {
            Some(s) => s,
            None => file_path.clone(),
        };
        let file_id = self.file_id(relative_path.as_str());
        FileUpload { relative_path, file_id, mode: upload_mode(size) }
    }
}

/// Number of chunks of a file of `len` bytes: `len / CHUNK_SIZE` rounded up.
pub open spec fn chunk_count(len: nat) -> nat {
    ((len + CHUNK_SIZE - 1) / (CHUNK_SIZE as int)) as nat
}

/// First byte of chunk `index`.
pub open spec fn chunk_start(index: nat) -> nat {
    (index * CHUNK_SIZE) as nat
}

/// One past the last byte of chunk `index` of a file of `len` bytes.
pub open spec fn chunk_end(len: nat, index: nat) -> nat {
    if index * CHUNK_SIZE + CHUNK_SIZE <= len {
        (index * CHUNK_SIZE + CHUNK_SIZE) as nat
    } else {
        len
    }
}

/// Number of chunks of a file of `len` bytes.
pub fn chunk_total(len: usize) -> (n: usize)
    ensures
        n == chunk_count(len as nat),
{
    let whole = len / CHUNK_SIZE;
    if len % CHUNK_SIZE == 0 {
        whole
    } else {
        whole + 1
    }
}

/// The chunks of a file cover it exactly, in order and without overlap: the
/// first starts at byte 0, each ends where the next starts, the last ends at
/// the end of the file, and each holds between 1 byte and one chunk size.
pub proof fn lemma_chunks_cover(len: nat)
    ensures
        chunk_count(len) == 0 <==> len == 0,
        forall|i: nat|
            i < chunk_count(len) ==> chunk_start(i) < #[trigger] chunk_end(len, i) && chunk_end(len, i)
                - chunk_start(i) <= CHUNK_SIZE,
        forall|i: nat| i + 1 < chunk_count(len) ==> #[trigger] chunk_end(len, i) == chunk_start(i + 1),
        chunk_count(len) > 0 ==> chunk_end(len, (chunk_count(len) - 1) as nat) == len,
        forall|i: nat| i + 1 < chunk_count(len) ==> #[trigger] chunk_end(len, i) - chunk_start(i) == CHUNK_SIZE,
{
    let n = chunk_count(len);
    assert(n * CHUNK_SIZE >= len && (n == 0 || (n - 1) * CHUNK_SIZE < len)) by (nonlinear_arith)
        requires
            n == ((len + CHUNK_SIZE - 1) / (CHUNK_SIZE as int)) as nat,
    ;
    assert forall|i: nat| i < n implies chunk_start(i) < #[trigger] chunk_end(len, i) && chunk_end(
        len,
        i,
    ) - chunk_start(i) <= CHUNK_SIZE by {
        assert(i * CHUNK_SIZE <= (n - 1) * CHUNK_SIZE) by (nonlinear_arith)
            requires
                i < n,
        ;
    }
    assert forall|i: nat| i + 1 < n implies #[trigger] chunk_end(len, i) == chunk_start(i + 1) by {
        assert(i * CHUNK_SIZE + CHUNK_SIZE == (i + 1) * CHUNK_SIZE) by (nonlinear_arith);
        assert((i + 1) * CHUNK_SIZE <= (n - 1) * CHUNK_SIZE) by (nonlinear_arith)
            requires
                i + 1 < n,
        ;
    }
    assert forall|i: nat| i + 1 < n implies #[trigger] chunk_end(len, i) - chunk_start(i)
        == CHUNK_SIZE by {
        assert(i * CHUNK_SIZE + CHUNK_SIZE == (i + 1) * CHUNK_SIZE) by (nonlinear_arith);
        assert((i + 1) * CHUNK_SIZE <= (n - 1) * CHUNK_SIZE) by (nonlinear_arith)
            requires
                i + 1 < n,
        ;
    }
    if n > 0 {
        assert((n - 1) * CHUNK_SIZE + CHUNK_SIZE == n * CHUNK_SIZE) by (nonlinear_arith);
    }
}

/// The bytes of chunks `0..k` of `data`, one after another.
pub open spec fn chunks_joined(data: Seq<u8>, k: nat) -> Seq<u8>
    decreases k,
{
    if k == 0 {
        Seq::empty()
    } else {
        chunks_joined(data, (k - 1) as nat) + data.subrange(
            chunk_start((k - 1) as nat) as int,
            chunk_end(data.len(), (k - 1) as nat) as int,
        )
    }
}

proof fn lemma_chunks_joined_prefix(data: Seq<u8>, k: nat)
    requires
        0 < k <= chunk_count(data.len()),
    ensures
        chunks_joined(data, k) == data.take(chunk_end(data.len(), (k - 1) as nat) as int),
    decreases k,
{
    lemma_chunks_cover(data.len());
    let i = (k - 1) as nat;
    assert(chunk_start(i) < chunk_end(data.len(), i));
    assert(chunk_end(data.len(), i) <= data.len());
    if k == 1 {
        assert(chunk_start(0) == 0);
        assert(chunks_joined(data, 0) =~= Seq::<u8>::empty());
        assert(chunks_joined(data, 1) =~= data.take(chunk_end(data.len(), 0) as int));
    } else {
        lemma_chunks_joined_prefix(data, (k - 1) as nat);
        let j = (k - 2) as nat;
        assert(j + 1 < chunk_count(data.len()));
        assert(chunk_end(data.len(), j) == chunk_start(j + 1));
        assert(chunks_joined(data, k) =~= data.take(chunk_end(data.len(), i) as int));
    }
}

/// Posting the chunks of a file in order sends the file: the bodies of chunks
/// `0, 1, ..., chunk_count - 1`, joined in that order, are the file's bytes.
pub proof fn lemma_chunks_join(data: Seq<u8>)
    ensures
        chunks_joined(data, chunk_count(data.len())) == data,
{
    lemma_chunks_cover(data.len());
    let n = chunk_count(data.len());
    if n == 0 {
        assert(data =~= Seq::<u8>::empty());
    } else {
        lemma_chunks_joined_prefix(data, n);
        assert(data.take(data.len() as int) =~= data);
    }
}

/// One chunk of a file: bytes `start..end`, posted as number `index`.
#[derive(Clone, Copy, Debug, PartialEq, Eq, Structural)]
pub struct Chunk {
    pub index: usize,
    pub start: usize,
    pub end: usize,
}

/// Where a chunked upload stands after a reply.
#[derive(Clone, Copy, Debug, PartialEq, Eq, Structural)]
pub enum UploadStatus {
    /// More chunks are to be sent.
    InProgress,
    /// Every chunk was accepted.
    Completed,
    /// A chunk was refused; nothing more is sent.
    Failed,
}

/// The state of sending one file in chunks.
#[derive(Debug)]
pub struct ChunkedUpload {
    len: usize,
    total: usize,
    sent: usize,
    failed: bool,
}

/// A chunked upload as plain values: the file length, the number of chunks,
/// how many were accepted, and whether one was refused.
pub struct ChunkedUploadModel {
    pub len: nat,
    pub total: nat,
    pub sent: nat,
    pub failed: bool,
}

impl View for ChunkedUpload {
    type V = ChunkedUploadModel;

    closed spec fn view(&self) -> ChunkedUploadModel {
        ChunkedUploadModel {
            len: self.len as nat,
            total: self.total as nat,
            sent: self.sent as nat,
            failed: self.failed,
        }
    }
}

/// The state of a chunked upload that has just started on a file of `len`
/// bytes.
pub open spec fn upload_started(len: nat) -> ChunkedUploadModel {
    ChunkedUploadModel { len, total: chunk_count(len), sent: 0, failed: false }
}

/// The chunk to send in state `m`, as its number, first byte and end: the
/// first one not yet accepted, unless one was refused or all were accepted.
pub open spec fn pending_chunk(m: ChunkedUploadModel) -> Option<(nat, nat, nat)> {
    if !m.failed && m.sent < m.total {
        Some((m.sent, chunk_start(m.sent), chunk_end(m.len, m.sent)))
    } else {
        None
    }
}

/// The state after the reply to the pending chunk: an accepted chunk moves on
/// to the next one, a refused one ends the upload.
pub open spec fn after_reply(m: ChunkedUploadModel, accepted: bool) -> ChunkedUploadModel {
    if accepted {
        ChunkedUploadModel { sent: m.sent + 1, ..m }
    } else {
        ChunkedUploadModel { failed: true, ..m }
    }
}

/// The chunks sent from state `m` on when the server accepts every one.
pub open spec fn accepted_run(m: ChunkedUploadModel) -> Seq<(nat, nat, nat)>
    decreases m.total - m.sent,
{
    match pending_chunk(m) {
        None => Seq::empty(),
        Some(c) => seq![c] + accepted_run(after_reply(m, true)),
    }
}

/// A chunk as its number, first byte and end.
pub open spec fn chunk_triple(c: Chunk) -> (nat, nat, nat) {
    (c.index as nat, c.start as nat, c.end as nat)
}

proof fn lemma_accepted_run_from(m: ChunkedUploadModel)
    requires
        !m.failed,
        m.sent <= m.total,
        m.total == chunk_count(m.len),
    ensures
        accepted_run(m) == Seq::new(
            (m.total - m.sent) as nat,
            |i: int| ((m.sent + i) as nat, chunk_start((m.sent + i) as nat), chunk_end(m.len, (m.sent + i) as nat)),
        ),
    decreases m.total - m.sent,
{
    let expected = Seq::new(
        (m.total - m.sent) as nat,
        |i: int| ((m.sent + i) as nat, chunk_start((m.sent + i) as nat), chunk_end(m.len, (m.sent + i) as nat)),
    );
    if m.sent == m.total {
        assert(accepted_run(m) =~= expected);
    } else {
        let next = after_reply(m, true);
        lemma_accepted_run_from(next);
        assert(accepted_run(m) =~= expected);
    }
}

/// When the server accepts every chunk of a file of `len` bytes, the upload
/// sends chunks `0, 1, ..., chunk_count(len) - 1` in that order, chunk `i`
/// holding bytes `chunk_start(i)..chunk_end(len, i)`, and nothing more; the
/// bodies of those chunks, joined in order, are the file's bytes.
pub proof fn lemma_upload_sends_every_chunk(data: Seq<u8>)
    ensures
        accepted_run(upload_started(data.len())) == Seq::new(
            chunk_count(data.len()),
            |i: int| (i as nat, chunk_start(i as nat), chunk_end(data.len(), i as nat)),
        ),
        chunks_joined(data, chunk_count(data.len())) == data,
{
    let m = upload_started(data.len());
    lemma_accepted_run_from(m);
    assert(accepted_run(m) =~= Seq::new(
        chunk_count(data.len()),
        |i: int| (i as nat, chunk_start(i as nat), chunk_end(data.len(), i as nat)),
    ));
    lemma_chunks_join(data);
}

impl ChunkedUpload {
    #[verifier::type_invariant]
    spec fn consistent(self) -> bool {
        &&& self.total == chunk_count(self.len as nat)
        &&& self.sent <= self.total
    }

    /// Starts sending a file of `len` bytes.
    pub fn new(len: usize) -> (u: Self)
        ensures
            u@ == upload_started(len as nat),
    {
        ChunkedUpload { len, total: chunk_total(len), sent: 0, failed: false }
    }

    /// Number of chunks of the file.
    pub fn total_chunks(&self) -> (n: usize)
        ensures
            n == self@.total,
            n == chunk_count(self@.len),
            self@.sent <= self@.total,
    {
        proof {
            use_type_invariant(self);
        }
        self.total
    }

    /// The upload is over: every chunk accepted, or one refused.
    pub fn is_finished(&self) -> (b: bool)
        ensures
            b == (self@.failed || self@.sent == self@.total),
    {
        self.failed || self.sent == self.total
    }

    /// The chunk to send now: the first one not yet accepted, unless one was
    /// refused or all were accepted.
    pub fn next_chunk(&self) -> (r: Option<Chunk>)
        ensures
            r is Some <==> pending_chunk(self@) is Some,
            r matches Some(c) ==> pending_chunk(self@) == Some(chunk_triple(c)),
    {
        proof {
            use_type_invariant(self);
            lemma_chunks_cover(self.len as nat);
        }
        if self.failed || self.sent >= self.total {
            return None;
        }
        assert(chunk_start(self.sent as nat) < self.len) by {
            assert(chunk_start(self.sent as nat) < chunk_end(self.len as nat, self.sent as nat));
        }
        let start = self.sent * CHUNK_SIZE;
        let end = if self.len >= CHUNK_SIZE && start <= self.len - CHUNK_SIZE {
            start + CHUNK_SIZE
        } else {
            self.len
        };
        Some(Chunk { index: self.sent, start, end })
    }

    /// Records the server's reply to the chunk just sent: an accepted chunk
    /// moves on to the next one, a refused one ends the upload.
    pub fn record_reply(&mut self, accepted: bool) -> (s: UploadStatus)
        requires
            !old(self)@.failed,
            old(self)@.sent < old(self)@.total,
        ensures
            final(self)@ == after_reply(old(self)@, accepted),
            s == (if !accepted {
                UploadStatus::Failed
            } else if final(self)@.sent == final(self)@.total {
                UploadStatus::Completed
            } else {
                UploadStatus::InProgress
            }),
    {
        proof {
            use_type_invariant(&*self);
        }
        if accepted {
            self.sent = self.sent + 1;
            if self.sent == self.total {
                UploadStatus::Completed
            } else {
                UploadStatus::InProgress
            }
        } else {
            self.failed = true;
            UploadStatus::Failed
        }
    }
}

} // verus!
