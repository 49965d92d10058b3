//! What a run of the extraction as a whole comes to, when everything it asks for is done.

use vstd::prelude::*;
use crate::decoder::MsiXVDDecoder;
use crate::extract;
use crate::extract::{Action, RunState, Stage};
use crate::hash_tree;
use crate::hash_tree::HashTreeParams;
use crate::plan::PlannedJob;
use crate::xts_laws;

verus! {

/// The extraction of one file out of a package with the bytes `image`; `due` tells, by the
/// bytes that remain, whether a report is due.
pub struct Extraction {
    pub job: PlannedJob,
    pub tree: HashTreeParams,
    pub decoder: MsiXVDDecoder,
    pub image: Seq<u8>,
    pub due: spec_fn(int) -> bool,
}

/// A run with all that surrounds it: the three buffers, the bytes that have been written to the
/// file, and the bytes that have been reported.
pub struct Machine {
    pub run: RunState,
    pub chunk: Seq<u8>,
    pub out: Seq<u8>,
    pub hash_page: Seq<u8>,
    pub output: Seq<u8>,
    pub reported: int,
}

impl Extraction {
    /// How many pages the file takes up.
    pub open spec fn pages(&self) -> int {
        hash_tree::ceil_div(self.job.file_size, 0x1000)
    }

    /// The page `page` of the hash tree.
    pub open spec fn hash_page_at(&self, page: int) -> Seq<u8> {
        let offset = extract::hash_page_offset(self.tree, page);
        self.image.subrange(offset, offset + 0x1000)
    }

    /// What the tweak of the page `p` of the file starts from.
    pub open spec fn page_iv(&self, p: int) -> Seq<u8> {
        if self.tree.data_integrity {
            let place = extract::block_place(self.tree, self.job.start_block_index + p);
            extract::marked_iv(
                self.job.base_iv,
                self.hash_page_at(place.0),
                place.1,
                self.tree.is_encrypted,
            )
        } else {
            self.job.base_iv
        }
    }

    /// The page `p` of the file as it stands in the package.
    pub open spec fn stored_page(&self, p: int) -> Seq<u8> {
        let start = self.job.input_offset + p * 0x1000;
        self.image.subrange(start, start + 0x1000)
    }

    /// The page `p` of the file.
    pub open spec fn plain_page(&self, p: int) -> Seq<u8> {
        if self.job.should_decrypt {
            self.decoder.decrypted(self.stored_page(p), self.page_iv(p))
        } else {
            self.stored_page(p)
        }
    }

    /// The pages of the file from `a` on and before `b`.
    pub open spec fn plain_pages(&self, a: int, b: int) -> Seq<u8>
        decreases b - a,
    {
        if b <= a {
            seq![]
        } else {
            self.plain_pages(a, b - 1) + self.plain_page(b - 1)
        }
    }

    /// The file.
    pub open spec fn file(&self) -> Seq<u8> {
        self.plain_pages(0, self.pages()).take(self.job.file_size)
    }

    /// Whether all that the extraction reads lies within the package.
    pub open spec fn reads_within_the_package(&self) -> bool {
        &&& 0 <= self.job.input_offset
        &&& self.job.input_offset + self.pages() * 0x1000 <= self.image.len()
        &&& self.job.file_size > 0 && self.job.should_decrypt && self.tree.data_integrity
            ==> extract::hash_page_offset(
            self.tree,
            extract::block_place(self.tree, self.job.start_block_index + self.pages() - 1).0,
        ) + 0x1000 <= self.image.len()
    }

    /// Whether the extraction can be carried out.
    pub open spec fn wf(&self) -> bool {
        &&& 0 <= self.job.file_size
        &&& 0 <= self.job.start_block_index
        &&& self.job.base_iv.len() == 16
        &&& extract::job_fits(self.job, self.tree)
        &&& self.reads_within_the_package()
    }

    /// The beginning of a run that reads `room` bytes at a time, with the buffers as they may be.
    pub open spec fn start(
        &self,
        room: int,
        chunk: Seq<u8>,
        out: Seq<u8>,
        hash_page: Seq<u8>,
    ) -> Machine {
        Machine {
            run: extract::run_start(self.job, room),
            chunk,
            out,
            hash_page,
            output: seq![],
            reported: 0,
        }
    }

    /// One step of a run, and what it asks for being done.
    pub open spec fn step(&self, m: Machine) -> Machine {
        let (run, out, action) = extract::run_step(
            self.job,
            self.tree,
            self.decoder,
            m.run,
            m.chunk,
            m.out,
            m.hash_page,
            (self.due)(m.run.remaining),
        );
        match action {
            Action::ReadChunk { offset, len } => Machine {
                run,
                out,
                chunk: self.image.subrange(offset as int, offset + len) + m.chunk.skip(len as int),
                ..m
            },
            Action::ReadHashPage { offset } => Machine {
                run,
                out,
                hash_page: self.image.subrange(offset as int, offset + 0x1000),
                ..m
            },
            Action::Write { len, decrypted } => Machine {
                run,
                out,
                output: m.output + if decrypted {
                    out.take(len as int)
                } else {
                    m.chunk.take(len as int)
                },
                ..m
            },
            Action::Report { bytes, decrypted: _ } => Machine {
                run,
                out,
                reported: m.reported + bytes,
                ..m
            },
            Action::Finish => Machine { run, out, ..m },
        }
    }

    /// `n` steps of a run.
    pub open spec fn steps(&self, m: Machine, n: nat) -> Machine
        decreases n,
    {
        if n == 0 {
            m
        } else {
            self.steps(self.step(m), (n - 1) as nat)
        }
    }

    /// Whether a run has ended with the whole file written and reported.
    pub open spec fn is_complete(&self, m: Machine) -> bool {
        &&& m.run.stage == Stage::Done
        &&& m.output == self.file()
        &&& m.reported == self.job.file_size
    }

    /// How many bytes of the file the first `read` bytes of its pages hold.
    spec fn part(&self, read: int) -> int {
        if read <= self.job.file_size {
            read
        } else {
            self.job.file_size
        }
    }

    /// What is true of a run within a chunk.
    spec fn chunk_holds(&self, s: RunState, chunk: Seq<u8>, out: Seq<u8>, hash_page: Seq<u8>) -> bool {
        let first = s.written / 0x1000;
        &&& s.wf(self.job)
        &&& s.stage == Stage::Chunk
        &&& chunk.len() >= s.room
        &&& out.len() >= s.room
        &&& chunk.take(s.len) == self.image.subrange(s.file_offset, s.file_offset + s.len)
        &&& self.job.should_decrypt ==> out.take(s.page * 0x1000) == self.plain_pages(
            first,
            first + s.page,
        )
        &&& s.iv.subrange(4, 16) == self.job.base_iv.subrange(4, 16)
        &&& !self.tree.data_integrity ==> s.iv == self.job.base_iv
        &&& self.cache_holds(s, hash_page)
    }

    /// Whether the page of the hash tree at hand is the one that was last asked for.
    spec fn cache_holds(&self, s: RunState, hash_page: Seq<u8>) -> bool {
        s.cached_hash_page == u64::MAX || hash_page == self.hash_page_at(s.cached_hash_page)
    }

    /// What is true of a run at all times.
    spec fn holds(&self, m: Machine) -> bool {
        let s = m.run;
        let read = if s.stage == Stage::Written {
            s.written + s.len
        } else {
            s.written
        };
        &&& s.wf(self.job)
        &&& m.chunk.len() >= s.room
        &&& m.out.len() >= s.room
        &&& self.cache_holds(s, m.hash_page)
        &&& s.stage == Stage::Chunk ==> self.chunk_holds(s, m.chunk, m.out, m.hash_page)
        &&& m.output == self.plain_pages(0, read / 0x1000).take(self.part(read))
        &&& m.reported + s.pending == self.part(s.written)
        &&& s.stage == Stage::Done ==> s.remaining == 0 && s.pending == 0
    }

    pub proof fn lemma_plain_page_len(&self, p: int)
        requires
            self.wf(),
            0 <= p < self.pages(),
        ensures
            self.plain_page(p).len() == 0x1000,
    {
        let text = self.stored_page(p);
        assert(text.len() == 0x1000);
        xts_laws::lemma_xts_len(
            self.decoder.decipher(),
            self.decoder.first_tweak(self.page_iv(p)),
            text,
        );
    }

    pub proof fn lemma_plain_pages_len(&self, a: int, b: int)
        requires
            self.wf(),
            0 <= a <= b <= self.pages(),
        ensures
            self.plain_pages(a, b).len() == (b - a) * 0x1000,
        decreases b - a,
    {
        if a < b {
            self.lemma_plain_pages_len(a, b - 1);
            self.lemma_plain_page_len(b - 1);
        }
    }

    pub proof fn lemma_plain_pages_join(&self, a: int, b: int, c: int)
        requires
            a <= b <= c,
        ensures
            self.plain_pages(a, b) + self.plain_pages(b, c) == self.plain_pages(a, c),
        decreases c - b,
    {
        if b < c {
            self.lemma_plain_pages_join(a, b, c - 1);
            assert(self.plain_pages(a, b) + (self.plain_pages(b, c - 1) + self.plain_page(c - 1))
                =~= (self.plain_pages(a, b) + self.plain_pages(b, c - 1)) + self.plain_page(c - 1));
        } else {
            assert(self.plain_pages(a, b) + self.plain_pages(b, c) =~= self.plain_pages(a, b));
        }
    }

    /// What is looked up for a page of the file lies within the package and is addressable.
    proof fn lemma_hash_page_within(&self, p: int)
        requires
            self.wf(),
            self.job.should_decrypt,
            self.tree.data_integrity,
            0 <= p < self.pages(),
        ensures
            ({
                let place = extract::block_place(self.tree, self.job.start_block_index + p);
                let offset = extract::hash_page_offset(self.tree, place.0);
                &&& 0 <= place.0 < u64::MAX
                &&& 0 <= offset <= u64::MAX
                &&& offset + 0x1000 <= self.image.len()
                &&& 0 <= place.1 < 170
            }),
    {
        let last = self.job.start_block_index + self.pages() - 1;
        extract::lemma_places_ascend(self.tree, self.job.start_block_index + p, last);
        hash_tree::lemma_pow170();
        hash_tree::hash_place_is_not_negative(
            self.tree.kind,
            self.tree.levels as int,
            self.tree.total_hashed_pages as int,
            self.job.start_block_index + p,
            self.tree.resiliency,
        );
    }

    /// One page is decrypted as it should be.
    proof fn lemma_one_page(
        &self,
        s: RunState,
        chunk: Seq<u8>,
        out: Seq<u8>,
        hash_page: Seq<u8>,
        iv: Seq<u8>,
    )
        requires
            self.wf(),
            self.job.should_decrypt,
            self.chunk_holds(s, chunk, out, hash_page),
            s.page < s.len / 0x1000,
            iv == self.page_iv(s.written / 0x1000 + s.page),
        ensures
            ({
                let next = extract::page_decrypted(self.decoder, chunk, out, s.page, iv);
                let first = s.written / 0x1000;
                &&& next.len() == out.len()
                &&& next.take((s.page + 1) * 0x1000) == self.plain_pages(first, first + s.page + 1)
            }),
    {
        extract::lemma_aligned_size(self.job.file_size);
        let first = s.written / 0x1000;
        let p = first + s.page;
        let at = s.page * 0x1000;
        let text = chunk.subrange(at, at + 0x1000);
        assert(text =~= self.stored_page(p)) by {
            assert forall|i: int| 0 <= i < 0x1000 implies text[i] == self.stored_page(p)[i] by {
                assert(text[i] == chunk.take(s.len)[at + i]);
            }
        }
        extract::lemma_page_decrypted_len(self.decoder, chunk, out, s.page, iv);
        self.lemma_plain_page_len(p);
        let next = extract::page_decrypted(self.decoder, chunk, out, s.page, iv);
        assert(next.take((s.page + 1) * 0x1000) =~= out.take(at) + self.plain_page(p));
    }

    /// What a step within a chunk comes to.
    spec fn chunk_step_comes_to(
        &self,
        s: RunState,
        chunk: Seq<u8>,
        out: Seq<u8>,
        hash_page: Seq<u8>,
        after: (RunState, Seq<u8>, Action),
    ) -> bool {
        let (t, done, action) = after;
        let first = s.written / 0x1000;
        &&& done.len() == out.len()
        &&& match action {
            Action::Write { len, decrypted } => {
                &&& t == RunState { stage: Stage::Written, page: t.page, iv: t.iv, ..s }
                &&& t.wf(self.job)
                &&& len == extract::write_len(self.job, s)
                &&& decrypted == self.job.should_decrypt
                &&& decrypted ==> done.take(s.len) == self.plain_pages(
                    first,
                    first + s.len / 0x1000,
                )
            },
            Action::ReadHashPage { offset } => {
                let needed = extract::block_place(self.tree, t.block_index + t.page).0;
                &&& t == RunState {
                    page: t.page,
                    iv: t.iv,
                    cached_hash_page: t.cached_hash_page,
                    ..s
                }
                &&& s.page <= t.page < s.len / 0x1000
                &&& t.cached_hash_page == needed
                &&& needed != s.cached_hash_page
                &&& offset == extract::hash_page_offset(self.tree, needed)
                &&& self.chunk_holds(t, chunk, done, self.hash_page_at(needed))
            },
            _ => false,
        }
    }

    proof fn lemma_pages_step(
        &self,
        s: RunState,
        chunk: Seq<u8>,
        out: Seq<u8>,
        hash_page: Seq<u8>,
    )
        requires
            self.wf(),
            self.chunk_holds(s, chunk, out, hash_page),
        ensures
            self.chunk_step_comes_to(
                s,
                chunk,
                out,
                hash_page,
                extract::pages_step(
                    self.job,
                    self.tree,
                    self.decoder,
                    s,
                    chunk,
                    out,
                    hash_page,
                ),
            ),
        decreases s.len / 0x1000 - s.page,
    {
        extract::lemma_aligned_size(self.job.file_size);
        let first = s.written / 0x1000;
        let p = first + s.page;
        if !self.job.should_decrypt || s.page >= s.len / 0x1000 {
            assert(s.page >= s.len / 0x1000 ==> s.page * 0x1000 == s.len);
        } else if !self.tree.data_integrity {
            let next = extract::page_decrypted(self.decoder, chunk, out, s.page, s.iv);
            self.lemma_one_page(s, chunk, out, hash_page, s.iv);
            self.lemma_pages_step(RunState { page: s.page + 1, ..s }, chunk, next, hash_page);
        } else {
            self.lemma_hash_page_within(p);
            let place = extract::block_place(self.tree, s.block_index + s.page);
            if place.0 == s.cached_hash_page {
                let iv = extract::marked_iv(s.iv, hash_page, place.1, self.tree.is_encrypted);
                assert(iv == self.page_iv(p));
                assert(iv.subrange(4, 16) =~= self.job.base_iv.subrange(4, 16)) by {
                    let mark = extract::entry_mark(place.1, self.tree.is_encrypted);
                    assert(iv =~= hash_page.subrange(mark, mark + 4) + s.iv.subrange(4, 16));
                    assert(iv.subrange(4, 16) =~= s.iv.subrange(4, 16));
                }
                let next = extract::page_decrypted(self.decoder, chunk, out, s.page, iv);
                self.lemma_one_page(s, chunk, out, hash_page, iv);
                self.lemma_pages_step(
                    RunState { page: s.page + 1, iv, ..s },
                    chunk,
                    next,
                    hash_page,
                );
            }
        }
    }

    /// Pages that are not decrypted are those of the package.
    proof fn lemma_stored_pages(&self, a: int, b: int)
        requires
            self.wf(),
            !self.job.should_decrypt,
            0 <= a <= b <= self.pages(),
        ensures
            self.plain_pages(a, b) == self.image.subrange(
                self.job.input_offset + a * 0x1000,
                self.job.input_offset + b * 0x1000,
            ),
        decreases b - a,
    {
        let from = self.job.input_offset + a * 0x1000;
        let to = self.job.input_offset + b * 0x1000;
        if a < b {
            self.lemma_stored_pages(a, b - 1);
            assert(self.plain_pages(a, b) =~= self.image.subrange(from, to));
        } else {
            assert(self.plain_pages(a, b) =~= self.image.subrange(from, to));
        }
    }

    /// The bytes that are written of a chunk come behind those that were written before it.
    proof fn lemma_output_grows(&self, m: Machine, pages: Seq<u8>)
        requires
            self.wf(),
            self.holds(m),
            m.run.stage == Stage::Chunk,
            pages == self.plain_pages(
                m.run.written / 0x1000,
                m.run.written / 0x1000 + m.run.len / 0x1000,
            ),
        ensures
            ({
                let read = m.run.written + m.run.len;
                m.output + pages.take(extract::write_len(self.job, m.run)) == self.plain_pages(
                    0,
                    read / 0x1000,
                ).take(self.part(read))
            }),
    {
        let s = m.run;
        let first = s.written / 0x1000;
        let behind = first + s.len / 0x1000;
        extract::lemma_aligned_size(self.job.file_size);
        self.lemma_plain_pages_len(0, first);
        self.lemma_plain_pages_len(first, behind);
        self.lemma_plain_pages_join(0, first, behind);
        assert((s.written + s.len) / 0x1000 == behind);
        assert(m.output =~= self.plain_pages(0, first));
        assert(m.output + pages.take(extract::write_len(self.job, s)) =~= self.plain_pages(
            0,
            behind,
        ).take(self.part(s.written + s.len)));
    }

    proof fn lemma_between(&self, m: Machine)
        requires
            self.wf(),
            self.holds(m),
            m.run.stage == Stage::Between,
        ensures
            self.holds(self.step(m)),
            self.step(m).run.remaining == m.run.remaining,
            self.step(m).run.stage == Stage::Chunk || self.step(m).run.stage == Stage::Done,
    {
        let s = m.run;
        let after = self.step(m);
        if s.remaining > 0 {
            extract::lemma_aligned_size(self.job.file_size);
            let read = self.image.subrange(s.file_offset, s.file_offset + after.run.len);
            assert(after.chunk.take(after.run.len) =~= read);
            assert(m.out.take(0) =~= self.plain_pages(s.written / 0x1000, s.written / 0x1000));
        }
    }

    proof fn lemma_written(&self, m: Machine)
        requires
            self.wf(),
            self.holds(m),
            m.run.stage == Stage::Written,
        ensures
            self.holds(self.step(m)),
            self.step(m).run.remaining < m.run.remaining,
    {
        let s = m.run;
        extract::lemma_aligned_size(self.job.file_size);
        let pending = s.pending + extract::write_len(self.job, s);
        let between = RunState {
            stage: Stage::Between,
            remaining: s.remaining - s.len,
            file_offset: s.file_offset + s.len,
            written: s.written + s.len,
            block_index: s.block_index + s.len / 0x1000,
            pending,
            ..s
        };
        assert(between.block_index == self.job.start_block_index + between.written / 0x1000);
        if pending >= extract::REPORT_SIZE || (self.due)(s.remaining) {
            assert(self.step(m) == (Machine {
                run: RunState { pending: 0, ..between },
                reported: m.reported + pending,
                ..m
            }));
        } else {
            let before = Machine { run: between, ..m };
            assert(self.holds(before));
            self.lemma_between(before);
            assert(self.step(m) == self.step(before));
        }
    }

    proof fn lemma_chunk(&self, m: Machine)
        requires
            self.wf(),
            self.holds(m),
            m.run.stage == Stage::Chunk,
        ensures
            self.holds(self.step(m)),
            self.step(m).run.remaining == m.run.remaining,
            self.step(m).run.stage == Stage::Written || (self.step(m).run.stage == Stage::Chunk
                && self.step(m).run.len == m.run.len && self.step(m).run.page >= m.run.page
                && self.misses(self.step(m).run) == 0 && (self.step(m).run.page == m.run.page
                ==> self.misses(m.run) == 1)),
    {
        let s = m.run;
        self.lemma_pages_step(s, m.chunk, m.out, m.hash_page);
        let (t, done, action) = extract::pages_step(
            self.job,
            self.tree,
            self.decoder,
            s,
            m.chunk,
            m.out,
            m.hash_page,
        );
        extract::lemma_aligned_size(self.job.file_size);
        let first = s.written / 0x1000;
        let behind = first + s.len / 0x1000;
        if let Action::Write { len, decrypted } = action {
            let pages = self.plain_pages(first, behind);
            self.lemma_plain_pages_len(first, behind);
            self.lemma_output_grows(m, pages);
            if decrypted {
                assert(done.take(len as int) =~= done.take(s.len).take(len as int));
            } else {
                self.lemma_stored_pages(first, behind);
                assert(m.chunk.take(len as int) =~= m.chunk.take(s.len).take(len as int));
            }
        }
    }

    proof fn lemma_step(&self, m: Machine)
        requires
            self.wf(),
            self.holds(m),
        ensures
            self.holds(self.step(m)),
    {
        match m.run.stage {
            Stage::Between => self.lemma_between(m),
            Stage::Chunk => self.lemma_chunk(m),
            Stage::Written => self.lemma_written(m),
            Stage::Done => {},
        }
    }

    /// Whether the next page needs another page of the hash tree than the one at hand.
    spec fn misses(&self, s: RunState) -> int {
        if extract::block_place(self.tree, s.block_index + s.page).0 == s.cached_hash_page {
            0
        } else {
            1
        }
    }
}

/// How far a stage is from the end of a chunk.
spec fn stage_rank(stage: Stage) -> int {
    match stage {
        Stage::Between => 2,
        Stage::Chunk => 1,
        Stage::Written => 0,
        Stage::Done => 0,
    }
}

proof fn lemma_runs_to_the_end(e: Extraction, m: Machine) -> (n: nat)
    requires
        e.wf(),
        e.holds(m),
    ensures
        e.is_complete(e.steps(m, n)),
    decreases
            m.run.remaining,
            stage_rank(m.run.stage),
            m.run.len / 0x1000 - m.run.page,
            e.misses(m.run),
{
    if m.run.stage == Stage::Done {
        extract::lemma_aligned_size(e.job.file_size);
        0
    } else {
        let next = e.step(m);
        match m.run.stage {
            Stage::Between => e.lemma_between(m),
            Stage::Chunk => e.lemma_chunk(m),
            _ => e.lemma_written(m),
        }
        let rest = lemma_runs_to_the_end(e, next);
        assert(e.steps(m, rest + 1) == e.steps(next, rest));
        rest + 1
    }
}

/// Whether buffers serve a run that reads `room` bytes at a time: whole pages, and room for them.
pub open spec fn buffers_serve(room: int, chunk: Seq<u8>, out: Seq<u8>) -> bool {
    0 < room && room % 0x1000 == 0 && chunk.len() >= room && out.len() >= room
}

proof fn lemma_start_holds(
    e: Extraction,
    room: int,
    chunk: Seq<u8>,
    out: Seq<u8>,
    hash_page: Seq<u8>,
)
    requires
        e.wf(),
        buffers_serve(room, chunk, out),
    ensures
        e.holds(e.start(room, chunk, out, hash_page)),
{
    extract::lemma_aligned_size(e.job.file_size);
    assert(e.start(room, chunk, out, hash_page).output =~= e.plain_pages(0, 0).take(0));
}

proof fn lemma_steps_hold(e: Extraction, m: Machine, n: nat)
    requires
        e.wf(),
        e.holds(m),
    ensures
        e.holds(e.steps(m, n)),
    decreases n,
{
    if n > 0 {
        e.lemma_step(m);
        lemma_steps_hold(e, e.step(m), (n - 1) as nat);
    }
}

/// A run that gets all it asks for ends after finitely many steps, with the file written and
/// every byte of it reported once, whatever the buffers held, however much was read at a time
/// and whenever reports were due.
pub proof fn run_writes_the_file(
    e: Extraction,
    room: int,
    chunk: Seq<u8>,
    out: Seq<u8>,
    hash_page: Seq<u8>,
)
    requires
        e.wf(),
        buffers_serve(room, chunk, out),
    ensures
        exists|n: nat| e.is_complete(#[trigger] e.steps(e.start(room, chunk, out, hash_page), n)),
{
    let m = e.start(room, chunk, out, hash_page);
    lemma_start_holds(e, room, chunk, out, hash_page);
    let n = lemma_runs_to_the_end(e, m);
    assert(e.is_complete(e.steps(m, n)));
}

/// A run that has ended has written the file and reported every byte of it, after however many
/// steps that is.
pub proof fn ended_run_has_written_the_file(
    e: Extraction,
    room: int,
    chunk: Seq<u8>,
    out: Seq<u8>,
    hash_page: Seq<u8>,
    n: nat,
)
    requires
        e.wf(),
        buffers_serve(room, chunk, out),
        e.steps(e.start(room, chunk, out, hash_page), n).run.stage == Stage::Done,
    ensures
        e.is_complete(e.steps(e.start(room, chunk, out, hash_page), n)),
{
    lemma_start_holds(e, room, chunk, out, hash_page);
    lemma_steps_hold(e, e.start(room, chunk, out, hash_page), n);
    extract::lemma_aligned_size(e.job.file_size);
}

/// Two runs of the same job on the same package write the same bytes: neither how much is read
/// at a time, nor what the buffers held before, nor when reports were due shows in the file.
pub proof fn buffers_do_not_show_in_the_file(
    e: Extraction,
    f: Extraction,
    a: Machine,
    b: Machine,
    n: nat,
    m: nat,
)
    requires
        e.wf(),
        f == (Extraction { due: f.due, ..e }),
        buffers_serve(a.run.room, a.chunk, a.out),
        buffers_serve(b.run.room, b.chunk, b.out),
        a == e.start(a.run.room, a.chunk, a.out, a.hash_page),
        b == f.start(b.run.room, b.chunk, b.out, b.hash_page),
        e.steps(a, n).run.stage == Stage::Done,
        f.steps(b, m).run.stage == Stage::Done,
    ensures
        e.steps(a, n).output == f.steps(b, m).output,
{
    ended_run_has_written_the_file(e, a.run.room, a.chunk, a.out, a.hash_page, n);
    ended_run_has_written_the_file(f, b.run.room, b.chunk, b.out, b.hash_page, m);
    lemma_file_is_the_same(e, f, e.pages());
}

proof fn lemma_file_is_the_same(e: Extraction, f: Extraction, n: int)
    requires
        f == (Extraction { due: f.due, ..e }),
    ensures
        e.plain_pages(0, n) == f.plain_pages(0, n),
    decreases n,
{
    if n > 0 {
        lemma_file_is_the_same(e, f, n - 1);
        assert(e.plain_page(n - 1) == f.plain_page(n - 1));
    }
}

/// Where a file is not encrypted, the run writes its bytes as they stand in the package.
pub proof fn plain_file_is_copied(e: Extraction)
    requires
        e.wf(),
        !e.job.should_decrypt,
    ensures
        e.file() == e.image.subrange(e.job.input_offset, e.job.input_offset + e.job.file_size),
{
    extract::lemma_aligned_size(e.job.file_size);
    e.lemma_stored_pages(0, e.pages());
    assert(e.file() =~= e.image.subrange(
        e.job.input_offset,
        e.job.input_offset + e.job.file_size,
    ));
}

impl Extraction {
    /// Whether every page that the next step decrypts is recovered, which every step does.
    pub open spec fn step_recovers(&self, m: Machine) -> bool {
        m.run.stage == Stage::Chunk ==> extract::pages_recovered(
            self.job,
            self.tree,
            self.decoder,
            m.run,
            m.chunk,
            m.hash_page,
        )
    }

    /// Whether the page `p` of the file is what alone encrypts to the page as it is stored.
    spec fn page_recovered(&self, p: int) -> bool {
        self.decoder.recovers(self.stored_page(p), self.page_iv(p))
    }

    /// How many pages of the file have been decrypted.
    spec fn pages_done(&self, s: RunState) -> int {
        if s.stage == Stage::Chunk {
            s.written / 0x1000 + s.page
        } else if s.stage == Stage::Written {
            (s.written + s.len) / 0x1000
        } else {
            s.written / 0x1000
        }
    }

    proof fn lemma_chunk_recovers(
        &self,
        s: RunState,
        chunk: Seq<u8>,
        out: Seq<u8>,
        hash_page: Seq<u8>,
    )
        requires
            self.wf(),
            self.job.should_decrypt,
            self.chunk_holds(s, chunk, out, hash_page),
            extract::pages_recovered(self.job, self.tree, self.decoder, s, chunk, hash_page),
        ensures
            ({
                let after = extract::pages_step(
                    self.job,
                    self.tree,
                    self.decoder,
                    s,
                    chunk,
                    out,
                    hash_page,
                );
                forall|p: int|
                    self.pages_done(s) <= p < self.pages_done(after.0)
                        ==> #[trigger] self.page_recovered(p)
            }),
        decreases s.len / 0x1000 - s.page,
    {
        extract::lemma_aligned_size(self.job.file_size);
        let p = s.written / 0x1000 + s.page;
        let at = s.page * 0x1000;
        if s.page >= s.len / 0x1000 {
            assert((s.written + s.len) / 0x1000 == s.written / 0x1000 + s.len / 0x1000);
        } else {
            let text = chunk.subrange(at, at + 0x1000);
            assert(text =~= self.stored_page(p)) by {
                assert forall|i: int| 0 <= i < 0x1000 implies text[i] == self.stored_page(p)[i] by {
                    assert(text[i] == chunk.take(s.len)[at + i]);
                }
            }
            if !self.tree.data_integrity {
                let next = extract::page_decrypted(self.decoder, chunk, out, s.page, s.iv);
                self.lemma_one_page(s, chunk, out, hash_page, s.iv);
                assert(self.page_recovered(p));
                self.lemma_chunk_recovers(
                    RunState { page: s.page + 1, ..s },
                    chunk,
                    next,
                    hash_page,
                );
            } else {
                self.lemma_hash_page_within(p);
                let place = extract::block_place(self.tree, s.block_index + s.page);
                if place.0 == s.cached_hash_page {
                    let iv = extract::marked_iv(s.iv, hash_page, place.1, self.tree.is_encrypted);
                    assert(iv == self.page_iv(p));
                    assert(iv.subrange(4, 16) =~= self.job.base_iv.subrange(4, 16)) by {
                        let mark = extract::entry_mark(place.1, self.tree.is_encrypted);
                        assert(iv =~= hash_page.subrange(mark, mark + 4) + s.iv.subrange(4, 16));
                        assert(iv.subrange(4, 16) =~= s.iv.subrange(4, 16));
                    }
                    let next = extract::page_decrypted(self.decoder, chunk, out, s.page, iv);
                    self.lemma_one_page(s, chunk, out, hash_page, iv);
                    assert(self.page_recovered(p));
                    self.lemma_chunk_recovers(
                        RunState { page: s.page + 1, iv, ..s },
                        chunk,
                        next,
                        hash_page,
                    );
                }
            }
        }
    }
}

proof fn lemma_run_recovers(e: Extraction, m: Machine)
    requires
        e.wf(),
        e.job.should_decrypt,
        e.holds(m),
        forall|n: nat| e.step_recovers(#[trigger] e.steps(m, n)),
    ensures
        forall|p: int| e.pages_done(m.run) <= p < e.pages() ==> #[trigger] e.page_recovered(p),
    decreases
            m.run.remaining,
            stage_rank(m.run.stage),
            m.run.len / 0x1000 - m.run.page,
            e.misses(m.run),
{
    if m.run.stage == Stage::Done {
        extract::lemma_aligned_size(e.job.file_size);
    } else {
        let next = e.step(m);
        assert(e.steps(m, 0) == m);
        assert(e.step_recovers(m));
        match m.run.stage {
            Stage::Between => e.lemma_between(m),
            Stage::Chunk => {
                e.lemma_chunk(m);
                e.lemma_chunk_recovers(m.run, m.chunk, m.out, m.hash_page);
            },
            _ => e.lemma_written(m),
        }
        assert forall|n: nat| e.step_recovers(#[trigger] e.steps(next, n)) by {
            assert(e.steps(m, n + 1) == e.steps(next, n));
        }
        lemma_run_recovers(e, next);
    }
}

/// Where the pages of a text were encrypted with AES-XTS under the two keys of the decoder, each
/// from the starting value that the hash tree gives for it, a run writes the text. Of the steps
/// it is asked that they recover the pages they decrypt, which the contract of
/// [`extract::JobRun::step`] says of every one.
pub proof fn encrypted_file_is_recovered(e: Extraction, start: Machine, text: Seq<u8>)
    requires
        e.wf(),
        e.job.should_decrypt,
        buffers_serve(start.run.room, start.chunk, start.out),
        start == e.start(start.run.room, start.chunk, start.out, start.hash_page),
        forall|n: nat| e.step_recovers(#[trigger] e.steps(start, n)),
        text.len() == e.pages() * 0x1000,
        forall|p: int|
            0 <= p < e.pages() ==> #[trigger] e.stored_page(p) == e.decoder.encrypted(
                text.subrange(p * 0x1000, p * 0x1000 + 0x1000),
                e.page_iv(p),
            ),
    ensures
        e.file() == text.take(e.job.file_size),
        exists|n: nat|
            {
                let m = #[trigger] e.steps(start, n);
                m.run.stage == Stage::Done && m.output == text.take(e.job.file_size)
            },
{
    let room = start.run.room;
    extract::lemma_aligned_size(e.job.file_size);
    lemma_start_holds(e, room, start.chunk, start.out, start.hash_page);
    lemma_run_recovers(e, start);
    lemma_pages_recovered(e, text, e.pages());
    assert(text.take(text.len() as int) =~= text);
    let n = lemma_runs_to_the_end(e, start);
    assert(e.is_complete(e.steps(start, n)));
}

proof fn lemma_pages_recovered(e: Extraction, text: Seq<u8>, n: int)
    requires
        e.wf(),
        e.job.should_decrypt,
        0 <= n <= e.pages(),
        text.len() == e.pages() * 0x1000,
        forall|p: int| 0 <= p < e.pages() ==> #[trigger] e.page_recovered(p),
        forall|p: int|
            0 <= p < e.pages() ==> #[trigger] e.stored_page(p) == e.decoder.encrypted(
                text.subrange(p * 0x1000, p * 0x1000 + 0x1000),
                e.page_iv(p),
            ),
    ensures
        e.plain_pages(0, n) == text.take(n * 0x1000),
    decreases n,
{
    if n > 0 {
        let p = n - 1;
        lemma_pages_recovered(e, text, p);
        let page = text.subrange(p * 0x1000, p * 0x1000 + 0x1000);
        assert(e.page_recovered(p));
        assert(e.stored_page(p).len() == 0x1000);
        assert(e.plain_page(p) == page);
        assert(text.take(n * 0x1000) =~= text.take(p * 0x1000) + page);
    } else {
        assert(e.plain_pages(0, n) =~= text.take(0));
    }
}

} // verus!
