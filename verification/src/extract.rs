//! The extraction of one file, as a sequence of steps: each tells what to read or write next.

use vstd::prelude::*;
use crate::decoder::MsiXVDDecoder;
use crate::hash_tree;
use crate::hash_tree::{Extensions, HashTreeParams};
use crate::plan::{ExtractJob, PlannedJob};
use crate::xts_laws;

verus! {

/// How many bytes of a package the program reads at a time.
pub const CHUNK_SIZE: usize = 0x40_0000;

/// How many bytes are written before they are reported, unless a report is due.
pub const REPORT_SIZE: u64 = 0x10_0000;

/// Whether a report is due that many milliseconds after the last one.
pub fn report_is_due(milliseconds: u128) -> (r: bool)
    ensures
        r == (milliseconds >= 200),
{
    milliseconds >= 200
}

/// What the user is told that a file is going through.
pub open spec fn stage_title(decrypted: bool) -> Seq<char> {
    if decrypted {
        "Расшифровка файлов..."@
    } else {
        "Копирование файлов..."@
    }
}

/// What the user is told that a file is going through.
pub fn stage_text(decrypted: bool) -> (r: &'static str)
    ensures
        r@ == stage_title(decrypted),
{
    if decrypted {
        "Расшифровка файлов..."
    } else {
        "Копирование файлов..."
    }
}

/// What the last step of a run has asked for.
#[derive(Debug, Clone, Copy, PartialEq, Eq, Structural)]
pub enum Stage {
    /// Nothing of the next chunk.
    Between,
    /// The chunk, or a page of the hash tree.
    Chunk,
    /// That the chunk be written.
    Written,
    /// Nothing more.
    Done,
}

/// What is to be done before the next step.
#[derive(Debug, Clone, Copy, PartialEq, Eq, Structural)]
pub enum Action {
    /// Read `len` bytes of the package from `offset` on into the buffer.
    ReadChunk { offset: u64, len: u64 },
    /// Read the page of the hash tree at `offset`.
    ReadHashPage { offset: u64 },
    /// Write the first `len` bytes of the decrypted bytes, or of the buffer.
    Write { len: u64, decrypted: bool },
    /// Tell the user that `bytes` more bytes have been written.
    Report { bytes: u64, decrypted: bool },
    /// Close the file.
    Finish,
}

/// How far the extraction of a file has come.
#[derive(Debug, Clone, Copy)]
pub struct JobRun {
    pub stage: Stage,
    /// How many bytes are read at a time.
    pub room: u64,
    /// The bytes of the pages of the file that are still to be read.
    pub remaining: u64,
    /// Where the next chunk stands.
    pub file_offset: u64,
    /// The bytes of the chunks that have been written.
    pub written: u64,
    /// The block with which the next chunk begins.
    pub block_index: u64,
    /// The page of the hash tree that was last asked for.
    pub cached_hash_page: u64,
    /// The bytes that have been written and not reported.
    pub pending: u64,
    /// The bytes of the chunk at hand.
    pub len: u64,
    /// The pages of the chunk that have been decrypted.
    pub page: u64,
    /// What the tweak of the next page starts from.
    pub iv: [u8; 16],
}

/// A [`JobRun`], as contracts speak of it.
pub struct RunState {
    pub stage: Stage,
    pub room: int,
    pub remaining: int,
    pub file_offset: int,
    pub written: int,
    pub block_index: int,
    pub cached_hash_page: int,
    pub pending: int,
    pub len: int,
    pub page: int,
    pub iv: Seq<u8>,
}

impl View for JobRun {
    type V = RunState;

    open spec fn view(&self) -> RunState {
        RunState {
            stage: self.stage,
            room: self.room as int,
            remaining: self.remaining as int,
            file_offset: self.file_offset as int,
            written: self.written as int,
            block_index: self.block_index as int,
            cached_hash_page: self.cached_hash_page as int,
            pending: self.pending as int,
            len: self.len as int,
            page: self.page as int,
            iv: self.iv@,
        }
    }
}

/// The size of a file, rounded up to whole pages.
pub open spec fn aligned_size(file_size: int) -> int {
    hash_tree::ceil_div(file_size, 0x1000) * 0x1000
}

/// The page of the hash tree and the entry in it that belong to a block.
pub open spec fn block_place(tree: HashTreeParams, block: int) -> (int, int) {
    hash_tree::hash_place(
        tree.kind,
        tree.levels as int,
        tree.total_hashed_pages as int,
        block,
        0,
        tree.resiliency,
    )
}

/// Where the page `page` of the hash tree stands.
pub open spec fn hash_page_offset(tree: HashTreeParams, page: int) -> int {
    tree.tree_offset + page * 0x1000
}

/// Where the four bytes of a hash entry stand that go into the tweak.
pub open spec fn entry_mark(entry: int, encrypted: bool) -> int {
    24 * entry + if encrypted {
        20int
    } else {
        24int
    }
}

/// What the tweak of a page starts from: the four bytes of its hash entry, and behind them the
/// rest of `iv`.
pub open spec fn marked_iv(iv: Seq<u8>, hash_page: Seq<u8>, entry: int, encrypted: bool) -> Seq<
    u8,
> {
    let at = entry_mark(entry, encrypted);
    if at + 4 <= hash_page.len() {
        hash_page.subrange(at, at + 4) + iv.subrange(4, 16)
    } else {
        iv
    }
}

/// Whether the blocks of a file can be looked up in the hash tree, the last one without leaving
/// 64 bits.
pub open spec fn tree_reaches(tree: HashTreeParams, last_block: int) -> bool {
    &&& tree.kind <= 1 ==> hash_tree::lookup_fits(
        tree.levels as int,
        tree.total_hashed_pages as int,
        0,
    )
    &&& hash_page_offset(tree, block_place(tree, last_block).0) <= u64::MAX
}

/// Whether the places that the extraction of a file reads lie where 64 bits can address them.
pub open spec fn job_fits(job: PlannedJob, tree: HashTreeParams) -> bool {
    let pages = hash_tree::ceil_div(job.file_size, 0x1000);
    &&& job.file_size + 0xFFF <= u64::MAX
    &&& job.input_offset + pages * 0x1000 <= u64::MAX
    &&& job.start_block_index + pages <= u64::MAX
    &&& job.file_size > 0 && job.should_decrypt && tree.data_integrity ==> tree_reaches(
        tree,
        job.start_block_index + pages - 1,
    )
}

/// The beginning of a run that reads `room` bytes at a time.
pub open spec fn run_start(job: PlannedJob, room: int) -> RunState {
    RunState {
        stage: Stage::Between,
        room,
        remaining: aligned_size(job.file_size),
        file_offset: job.input_offset,
        written: 0,
        block_index: job.start_block_index,
        cached_hash_page: u64::MAX as int,
        pending: 0,
        len: 0,
        page: 0,
        iv: job.base_iv,
    }
}

/// How many bytes of the chunk at hand belong to the file.
pub open spec fn write_len(job: PlannedJob, s: RunState) -> int {
    if s.written + s.len > job.file_size {
        job.file_size - s.written
    } else {
        s.len
    }
}

/// The step between two chunks.
pub open spec fn chunk_step(job: PlannedJob, s: RunState) -> (RunState, Action) {
    if s.remaining == 0 {
        if s.pending > 0 {
            (
                RunState { stage: Stage::Done, pending: 0, ..s },
                Action::Report { bytes: s.pending as u64, decrypted: job.should_decrypt },
            )
        } else {
            (RunState { stage: Stage::Done, ..s }, Action::Finish)
        }
    } else {
        let len = if s.room <= s.remaining {
            s.room
        } else {
            s.remaining
        };
        (
            RunState { stage: Stage::Chunk, len, page: 0, iv: job.base_iv, ..s },
            Action::ReadChunk { offset: s.file_offset as u64, len: len as u64 },
        )
    }
}

/// The step behind a chunk that has been written.
pub open spec fn written_step(job: PlannedJob, s: RunState, due: bool) -> (RunState, Action) {
    let pending = s.pending + write_len(job, s);
    let after = RunState {
        stage: Stage::Between,
        remaining: s.remaining - s.len,
        file_offset: s.file_offset + s.len,
        written: s.written + s.len,
        block_index: s.block_index + s.len / 0x1000,
        ..s
    };
    if pending >= REPORT_SIZE || due {
        (
            RunState { pending: 0, ..after },
            Action::Report { bytes: pending as u64, decrypted: job.should_decrypt },
        )
    } else {
        chunk_step(job, RunState { pending, ..after })
    }
}

/// The bytes `out` with the page `page` replaced by what the same page of `chunk` decrypts to.
pub open spec fn page_decrypted(
    decoder: MsiXVDDecoder,
    chunk: Seq<u8>,
    out: Seq<u8>,
    page: int,
    iv: Seq<u8>,
) -> Seq<u8> {
    out.take(page * 0x1000) + decoder.decrypted(
        chunk.subrange(page * 0x1000, page * 0x1000 + 0x1000),
        iv,
    ) + out.skip(page * 0x1000 + 0x1000)
}

/// The step within a chunk: pages are decrypted until one needs another page of the hash tree,
/// or until the chunk can be written.
pub open spec fn pages_step(
    job: PlannedJob,
    tree: HashTreeParams,
    decoder: MsiXVDDecoder,
    s: RunState,
    chunk: Seq<u8>,
    out: Seq<u8>,
    hash_page: Seq<u8>,
) -> (RunState, Seq<u8>, Action)
    decreases s.len / 0x1000 - s.page,
{
    if !job.should_decrypt || s.page >= s.len / 0x1000 {
        (
            RunState { stage: Stage::Written, ..s },
            out,
            Action::Write { len: write_len(job, s) as u64, decrypted: job.should_decrypt },
        )
    } else if !tree.data_integrity {
        pages_step(
            job,
            tree,
            decoder,
            RunState { page: s.page + 1, ..s },
            chunk,
            page_decrypted(decoder, chunk, out, s.page, s.iv),
            hash_page,
        )
    } else {
        let place = block_place(tree, s.block_index + s.page);
        if place.0 != s.cached_hash_page {
            (
                RunState { cached_hash_page: place.0, ..s },
                out,
                Action::ReadHashPage { offset: hash_page_offset(tree, place.0) as u64 },
            )
        } else {
            let iv = marked_iv(s.iv, hash_page, place.1, tree.is_encrypted);
            pages_step(
                job,
                tree,
                decoder,
                RunState { page: s.page + 1, iv, ..s },
                chunk,
                page_decrypted(decoder, chunk, out, s.page, iv),
                hash_page,
            )
        }
    }
}

/// Whether every page that a step within a chunk decrypts is recovered: nothing but the decrypted
/// page encrypts to the page of the chunk.
pub open spec fn pages_recovered(
    job: PlannedJob,
    tree: HashTreeParams,
    decoder: MsiXVDDecoder,
    s: RunState,
    chunk: Seq<u8>,
    hash_page: Seq<u8>,
) -> bool
    decreases s.len / 0x1000 - s.page,
{
    if !job.should_decrypt || s.page >= s.len / 0x1000 {
        true
    } else {
        let stored = chunk.subrange(s.page * 0x1000, s.page * 0x1000 + 0x1000);
        let place = block_place(tree, s.block_index + s.page);
        if !tree.data_integrity {
            decoder.recovers(stored, s.iv) && pages_recovered(
                job,
                tree,
                decoder,
                RunState { page: s.page + 1, ..s },
                chunk,
                hash_page,
            )
        } else if place.0 != s.cached_hash_page {
            true
        } else {
            let iv = marked_iv(s.iv, hash_page, place.1, tree.is_encrypted);
            decoder.recovers(stored, iv) && pages_recovered(
                job,
                tree,
                decoder,
                RunState { page: s.page + 1, iv, ..s },
                chunk,
                hash_page,
            )
        }
    }
}

/// One step: the state behind it, the decrypted bytes behind it, and what it asks for. `due`
/// tells whether the last report was long enough ago.
pub open spec fn run_step(
    job: PlannedJob,
    tree: HashTreeParams,
    decoder: MsiXVDDecoder,
    s: RunState,
    chunk: Seq<u8>,
    out: Seq<u8>,
    hash_page: Seq<u8>,
    due: bool,
) -> (RunState, Seq<u8>, Action) {
    match s.stage {
        Stage::Between => {
            let (after, action) = chunk_step(job, s);
            (after, out, action)
        },
        Stage::Chunk => pages_step(job, tree, decoder, s, chunk, out, hash_page),
        Stage::Written => {
            let (after, action) = written_step(job, s, due);
            (after, out, action)
        },
        Stage::Done => (s, out, Action::Finish),
    }
}

impl RunState {
    /// What is true of a run at all times: chunks are whole pages, what has been read and what
    /// is still to be read make up the pages of the file, and less than a report's worth of
    /// bytes is pending.
    pub open spec fn wf(&self, job: PlannedJob) -> bool {
        let size = aligned_size(job.file_size);
        &&& 0 < self.room
        &&& self.room % 0x1000 == 0
        &&& 0 <= self.remaining
        &&& 0 <= self.written
        &&& self.remaining % 0x1000 == 0
        &&& self.written + self.remaining == size
        &&& self.file_offset == job.input_offset + self.written
        &&& self.block_index == job.start_block_index + self.written / 0x1000
        &&& 0 <= self.pending < REPORT_SIZE
        &&& self.pending <= self.written
        &&& self.iv.len() == 16
        &&& self.stage == Stage::Chunk || self.stage == Stage::Written ==> {
            &&& 0 < self.len <= self.remaining
            &&& self.len <= self.room
            &&& self.len % 0x1000 == 0
            &&& 0 <= self.page <= self.len / 0x1000
        }
    }
}

/// Rounding up to whole pages adds less than a page.
pub proof fn lemma_aligned_size(file_size: int)
    requires
        0 <= file_size,
    ensures
        file_size <= aligned_size(file_size) < file_size + 0x1000,
        aligned_size(file_size) % 0x1000 == 0,
{
}

/// A later block is looked up in a later page of the hash tree, or in the same.
pub proof fn lemma_places_ascend(tree: HashTreeParams, a: int, b: int)
    requires
        0 <= a <= b,
    ensures
        block_place(tree, a).0 <= block_place(tree, b).0,
{
    hash_tree::lemma_pow170();
}

/// Decrypting a page keeps the number of bytes.
pub proof fn lemma_page_decrypted_len(
    decoder: MsiXVDDecoder,
    chunk: Seq<u8>,
    out: Seq<u8>,
    page: int,
    iv: Seq<u8>,
)
    requires
        0 <= page,
        page * 0x1000 + 0x1000 <= chunk.len(),
        page * 0x1000 + 0x1000 <= out.len(),
    ensures
        page_decrypted(decoder, chunk, out, page, iv).len() == out.len(),
{
    let text = chunk.subrange(page * 0x1000, page * 0x1000 + 0x1000);
    xts_laws::lemma_xts_len(
        decoder.decipher(),
        decoder.first_tweak(iv),
        text,
    );
}

/// Whether the places that the extraction of a file reads lie where 64 bits can address them.
pub fn job_is_addressable(job: &ExtractJob, tree: &HashTreeParams) -> (r: bool)
    ensures
        r == job_fits(job@, *tree),
{
    if job.file_size > u64::MAX - 0xFFF {
        return false;
    }
    let pages: u64 = (job.file_size + 0xFFF) / 0x1000;
    if job.input_offset > u64::MAX - pages * 0x1000 || job.start_block_index > u64::MAX - pages {
        return false;
    }
    if job.file_size == 0 || !job.should_decrypt || !tree.data_integrity {
        return true;
    }
    if tree.kind <= 1 && !hash_tree::lookup_stays_within_bits(
        tree.levels,
        tree.total_hashed_pages,
        0,
    ) {
        return false;
    }
    let (last_page, _entry): (u64, u64) = Extensions::compute_hash_block_index(
        tree.kind,
        tree.levels,
        tree.total_hashed_pages,
        job.start_block_index + pages - 1,
        0,
        tree.resiliency,
    );
    last_page <= u64::MAX / 0x1000 && tree.tree_offset <= u64::MAX - last_page * 0x1000
}

/// What the tweak of a page starts from, `iv` changed in place.
fn mark_iv(iv: &mut [u8; 16], hash_page: &[u8], entry: u64, encrypted: bool)
    requires
        entry < 170,
    ensures
        final(iv)@ == marked_iv(old(iv)@, hash_page@, entry as int, encrypted),
{
    let entry_len: usize = if encrypted {
        20
    } else {
        24
    };
    let at: usize = (entry as usize) * 24 + entry_len;
    if at + 4 <= hash_page.len() {
        iv[0] = hash_page[at];
        iv[1] = hash_page[at + 1];
        iv[2] = hash_page[at + 2];
        iv[3] = hash_page[at + 3];
        assert(iv@ =~= marked_iv(old(iv)@, hash_page@, entry as int, encrypted));
    }
}

/// Decrypts the page `page` of `chunk` into the same page of `out`.
fn decrypt_page(
    decoder: &MsiXVDDecoder,
    chunk: &[u8],
    out: &mut [u8],
    page: usize,
    iv: &[u8; 16],
)
    requires
        page * 0x1000 + 0x1000 <= chunk.len(),
        page * 0x1000 + 0x1000 <= old(out).len(),
    ensures
        final(out)@ == page_decrypted(*decoder, chunk@, old(out)@, page as int, iv@),
        decoder.recovers(chunk@.subrange(page * 0x1000, page * 0x1000 + 0x1000), iv@),
        final(out)@.len() == old(out)@.len(),
{
    proof {
        lemma_page_decrypted_len(*decoder, chunk@, out@, page as int, iv@);
    }
    let start: usize = page * 0x1000;
    let end: usize = start + 0x1000;
    let ghost before = out@;
    let text: &[u8] = &chunk[start..end];
    let (_head, tail): (&mut [u8], &mut [u8]) = out.split_at_mut(start);
    let _n: usize = decoder.decrypt(text, tail, iv);
    proof {
        assert(text@.take(0x1000) =~= text@);
        assert(before.subrange(start as int, before.len() as int).skip(0x1000) =~= before.skip(
            end as int,
        ));
        assert(before.subrange(0, start as int) =~= before.take(start as int));
    }
    assert(out@ =~= page_decrypted(*decoder, chunk@, before, page as int, iv@));
}

impl JobRun {
    /// The beginning of a run that reads `chunk_size` bytes at a time.
    pub fn new(job: &ExtractJob, chunk_size: usize) -> (r: JobRun)
        requires
            job.file_size + 0xFFF <= u64::MAX,
            chunk_size > 0,
            chunk_size % 0x1000 == 0,
        ensures
            r@ == run_start(job@, chunk_size as int),
            r@.wf(job@),
    {
        let remaining: u64 = ((job.file_size + 0xFFF) / 0x1000) * 0x1000;
        JobRun {
            stage: Stage::Between,
            room: chunk_size as u64,
            remaining,
            file_offset: job.input_offset,
            written: 0,
            block_index: job.start_block_index,
            cached_hash_page: u64::MAX,
            pending: 0,
            len: 0,
            page: 0,
            iv: job.base_iv,
        }
    }

    /// How many bytes of the chunk at hand belong to the file.
    fn bytes_to_write(&self, job: &ExtractJob) -> (r: u64)
        requires
            self@.wf(job@),
            self.stage == Stage::Chunk || self.stage == Stage::Written,
            job.file_size + 0xFFF <= u64::MAX,
        ensures
            r == write_len(job@, self@),
            self.written + r <= job.file_size,
    {
        proof {
            lemma_aligned_size(job.file_size as int);
        }
        if self.written + self.len > job.file_size {
            job.file_size - self.written
        } else {
            self.len
        }
    }

    fn step_between(&mut self, job: &ExtractJob) -> (r: Action)
        requires
            old(self)@.wf(job@),
        ensures
            (final(self)@, r) == chunk_step(job@, old(self)@),
            final(self)@.wf(job@),
    {
        if self.remaining == 0 {
            self.stage = Stage::Done;
            if self.pending > 0 {
                let bytes: u64 = self.pending;
                self.pending = 0;
                return Action::Report { bytes, decrypted: job.should_decrypt };
            }
            return Action::Finish;
        }
        self.len = if self.room <= self.remaining {
            self.room
        } else {
            self.remaining
        };
        self.stage = Stage::Chunk;
        self.page = 0;
        self.iv = job.base_iv;
        Action::ReadChunk { offset: self.file_offset, len: self.len }
    }

    fn step_written(&mut self, job: &ExtractJob, due: bool) -> (r: Action)
        requires
            old(self)@.wf(job@),
            old(self).stage == Stage::Written,
            job.file_size + 0xFFF <= u64::MAX,
            job.input_offset + aligned_size(job.file_size as int) <= u64::MAX,
            job.start_block_index + aligned_size(job.file_size as int) / 0x1000 <= u64::MAX,
        ensures
            (final(self)@, r) == written_step(job@, old(self)@, due),
            final(self)@.wf(job@),
    {
        let bytes: u64 = self.pending.saturating_add(self.bytes_to_write(job));
        self.stage = Stage::Between;
        self.remaining = self.remaining - self.len;
        self.file_offset = self.file_offset + self.len;
        self.block_index = self.block_index + self.len / 0x1000;
        self.written = self.written + self.len;
        if bytes >= REPORT_SIZE || due {
            self.pending = 0;
            return Action::Report { bytes, decrypted: job.should_decrypt };
        }
        self.pending = bytes;
        self.step_between(job)
    }

    fn step_chunk(
        &mut self,
        job: &ExtractJob,
        tree: &HashTreeParams,
        decoder: &MsiXVDDecoder,
        chunk: &[u8],
        out: &mut [u8],
        hash_page: &[u8],
    ) -> (r: Action)
        requires
            job_fits(job@, *tree),
            old(self)@.wf(job@),
            old(self).stage == Stage::Chunk,
            chunk@.len() >= old(self).room,
            old(out)@.len() >= old(self).room,
        ensures
            (final(self)@, final(out)@, r) == pages_step(
                job@,
                *tree,
                *decoder,
                old(self)@,
                chunk@,
                old(out)@,
                hash_page@,
            ),
            pages_recovered(job@, *tree, *decoder, old(self)@, chunk@, hash_page@),
            final(self)@.wf(job@),
            final(out)@.len() == old(out)@.len(),
    {
        while job.should_decrypt && self.page < self.len / 0x1000
            invariant
                job_fits(job@, *tree),
                self@.wf(job@),
                self.stage == Stage::Chunk,
                self.room == old(self).room,
                chunk.len() >= self.room,
                out@.len() >= self.room,
                out@.len() == old(out)@.len(),
                pages_step(job@, *tree, *decoder, old(self)@, chunk@, old(out)@, hash_page@)
                    == pages_step(job@, *tree, *decoder, self@, chunk@, out@, hash_page@),
                pages_recovered(job@, *tree, *decoder, old(self)@, chunk@, hash_page@)
                    == pages_recovered(job@, *tree, *decoder, self@, chunk@, hash_page@),
            decreases self.len / 0x1000 - self.page,
        {
            if tree.data_integrity {
                proof {
                    lemma_aligned_size(job.file_size as int);
                    lemma_places_ascend(
                        *tree,
                        self.block_index + self.page,
                        job.start_block_index + hash_tree::ceil_div(job.file_size as int, 0x1000)
                            - 1,
                    );
                }
                let (hash_page_idx, entry_idx): (u64, u64) = Extensions::compute_hash_block_index(
                    tree.kind,
                    tree.levels,
                    tree.total_hashed_pages,
                    self.block_index + self.page,
                    0,
                    tree.resiliency,
                );
                if hash_page_idx != self.cached_hash_page {
                    self.cached_hash_page = hash_page_idx;
                    return Action::ReadHashPage {
                        offset: tree.tree_offset + hash_page_idx * 0x1000,
                    };
                }
                mark_iv(&mut self.iv, hash_page, entry_idx, tree.is_encrypted);
            }
            decrypt_page(decoder, chunk, out, self.page as usize, &self.iv);
            self.page = self.page + 1;
        }
        let len: u64 = self.bytes_to_write(job);
        self.stage = Stage::Written;
        Action::Write { len, decrypted: job.should_decrypt }
    }

    /// Goes one step on. `chunk`, with room for what is read at a time, and `hash_page` hold what was last asked for, `out` takes the
    /// decrypted bytes, and `due` tells whether the last report was long enough ago.
    pub fn step(
        &mut self,
        job: &ExtractJob,
        tree: &HashTreeParams,
        decoder: &MsiXVDDecoder,
        chunk: &[u8],
        out: &mut [u8],
        hash_page: &[u8],
        due: bool,
    ) -> (r: Action)
        requires
            job_fits(job@, *tree),
            old(self)@.wf(job@),
            chunk@.len() >= old(self).room,
            old(out)@.len() >= old(self).room,
        ensures
            (final(self)@, final(out)@, r) == run_step(
                job@,
                *tree,
                *decoder,
                old(self)@,
                chunk@,
                old(out)@,
                hash_page@,
                due,
            ),
            old(self).stage == Stage::Chunk ==> pages_recovered(
                job@,
                *tree,
                *decoder,
                old(self)@,
                chunk@,
                hash_page@,
            ),
            final(self)@.wf(job@),
            final(out)@.len() == old(out)@.len(),
    {
        match self.stage {
            Stage::Between => self.step_between(job),
            Stage::Chunk => self.step_chunk(job, tree, decoder, chunk, out, hash_page),
            Stage::Written => self.step_written(job, due),
            Stage::Done => Action::Finish,
        }
    }
}

} // verus!
