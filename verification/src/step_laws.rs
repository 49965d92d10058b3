//! What each step of an extraction asks for and does, in plain numbers.

use vstd::prelude::*;
use crate::decoder::MsiXVDDecoder;
use crate::extract;
use crate::extract::{job_is_addressable, Action, JobRun, RunState, Stage};
use crate::extract_laws::{Extraction, Machine};
use crate::hash_tree;
use crate::hash_tree::HashTreeParams;
use crate::plan::{ExtractJob, PlannedJob};

verus! {

/// The page of the hash tree, counted from its beginning, that has the entry of a block: behind
/// all pages of the levels above the lowest, with every page twice in a resilient package.
pub open spec fn page_of_block(tree: HashTreeParams, block: int) -> int {
    let above = (if tree.levels >= 2 {
        (tree.total_hashed_pages + 28899) / 28900
    } else {
        0
    }) + (if tree.levels >= 3 {
        (tree.total_hashed_pages + 4912999) / 4913000
    } else {
        0
    }) + (if tree.levels >= 4 {
        (tree.total_hashed_pages + 835209999) / 835210000
    } else {
        0
    });
    if tree.kind > 1 {
        0xFFFF
    } else if tree.resiliency {
        2 * (block / 170 + above)
    } else {
        block / 170 + above
    }
}

/// The entry, within its page of the hash tree, of a block.
pub open spec fn entry_of_block(tree: HashTreeParams, block: int) -> int {
    if tree.kind > 1 {
        0
    } else {
        block % 170
    }
}

proof fn lemma_place(tree: HashTreeParams, block: int)
    requires
        0 <= block,
        tree.kind <= 1 ==> tree.levels >= 1,
    ensures
        extract::block_place(tree, block) == (page_of_block(tree, block), entry_of_block(tree, block)),
{
    hash_tree::lemma_pow170();
    reveal_with_fuel(hash_tree::pages_from, 5);
}

/// A run begins with the least number of whole pages that hold the file still to be read, from
/// where the file stands, with nothing written, reported or looked up.
pub proof fn run_begins_at_the_file(job: ExtractJob, chunk_size: usize, r: JobRun)
    requires
        job.file_size + 0xFFF <= u64::MAX,
        chunk_size > 0,
        chunk_size % 0x1000 == 0,
        call_ensures(JobRun::new, (&job, chunk_size), r),
    ensures
        r.stage == Stage::Between,
        r.room == chunk_size,
        r.remaining % 0x1000 == 0,
        r.remaining - 0x1000 < job.file_size <= r.remaining,
        r.file_offset == job.input_offset,
        r.block_index == job.start_block_index,
        r.written == 0,
        r.pending == 0,
        r.cached_hash_page == u64::MAX,
{
    let v = r@;
}

/// Between two chunks the next one is asked for, as much of what remains as there is room for,
/// from where the last one ended; where nothing remains, what is pending is reported, and with
/// nothing pending the run finishes.
pub proof fn next_chunk_is_asked_for(
    run: &mut JobRun,
    job: ExtractJob,
    tree: HashTreeParams,
    decoder: MsiXVDDecoder,
    chunk: &[u8],
    out: &mut [u8],
    hash_page: &[u8],
    due: bool,
    r: Action,
)
    requires
        old(run).stage == Stage::Between,
        call_ensures(
            JobRun::step,
            (run, &job, &tree, &decoder, chunk, out, hash_page, due),
            r,
        ),
    ensures
        final(out)@ == old(out)@,
        old(run).remaining > 0 ==> {
            let len = if old(run).room <= old(run).remaining {
                old(run).room
            } else {
                old(run).remaining
            };
            &&& r == (Action::ReadChunk { offset: old(run).file_offset, len })
            &&& final(run).stage == Stage::Chunk
            &&& final(run).len == len
            &&& final(run).page == 0
            &&& final(run).iv@ == job.base_iv@
            &&& final(run).pending == old(run).pending
            &&& final(run).cached_hash_page == old(run).cached_hash_page
            &&& final(run).remaining == old(run).remaining
            &&& final(run).written == old(run).written
            &&& final(run).block_index == old(run).block_index
            &&& final(run).room == old(run).room
        },
        old(run).remaining == 0 && old(run).pending > 0 ==> r == (Action::Report {
            bytes: old(run).pending,
            decrypted: job.should_decrypt,
        }) && final(run).stage == Stage::Done,
        old(run).remaining == 0 && old(run).pending == 0 ==> r == Action::Finish
            && final(run).stage == Stage::Done,
{
    let v = final(run)@;
}

/// A chunk that is not encrypted is written at once; of every chunk the part is written that
/// belongs to the file.
pub proof fn file_part_of_a_chunk_is_written(
    run: &mut JobRun,
    job: ExtractJob,
    tree: HashTreeParams,
    decoder: MsiXVDDecoder,
    chunk: &[u8],
    out: &mut [u8],
    hash_page: &[u8],
    due: bool,
    r: Action,
)
    requires
        old(run)@.wf(job@),
        old(run).stage == Stage::Chunk,
        job.file_size + 0xFFF <= u64::MAX,
        call_ensures(
            JobRun::step,
            (run, &job, &tree, &decoder, chunk, out, hash_page, due),
            r,
        ),
    ensures
        !job.should_decrypt ==> r is Write && final(out)@ == old(out)@,
        r is Write || r is ReadHashPage,
        r is Write ==> {
            let end = old(run).written + old(run).len;
            &&& r->Write_decrypted == job.should_decrypt
            &&& end <= job.file_size ==> r->Write_len == old(run).len
            &&& end > job.file_size ==> r->Write_len == job.file_size - old(run).written
            &&& final(run).stage == Stage::Written
            &&& job.should_decrypt ==> final(run).page == old(run).len / 0x1000
        },
        final(run).len == old(run).len,
        final(run).written == old(run).written,
        final(run).remaining == old(run).remaining,
        final(run).file_offset == old(run).file_offset,
        final(run).block_index == old(run).block_index,
        final(run).pending == old(run).pending,
{
    extract::lemma_aligned_size(job.file_size as int);
    lemma_pages(job@, tree, decoder, old(run)@, chunk@, old(out)@, hash_page@);
    let v = final(run)@;
}

/// What a step within a chunk leaves as it is, and where it stops.
proof fn lemma_pages(
    job: PlannedJob,
    tree: HashTreeParams,
    decoder: MsiXVDDecoder,
    s: RunState,
    chunk: Seq<u8>,
    out: Seq<u8>,
    hash_page: Seq<u8>,
)
    requires
        s.wf(job),
        s.stage == Stage::Chunk,
    ensures
        ({
            let (t, done, action) = extract::pages_step(
                job,
                tree,
                decoder,
                s,
                chunk,
                out,
                hash_page,
            );
            &&& action is Write || action is ReadHashPage
            &&& t.len == s.len && t.written == s.written && t.remaining == s.remaining
            &&& t.file_offset == s.file_offset && t.block_index == s.block_index && t.pending
                == s.pending
            &&& s.page <= t.page <= s.len / 0x1000
            &&& action is Write ==> action == (Action::Write {
                len: extract::write_len(job, s) as u64,
                decrypted: job.should_decrypt,
            }) && t.stage == Stage::Written && (job.should_decrypt ==> t.page == s.len / 0x1000)
            &&& action is ReadHashPage ==> job.should_decrypt && tree.data_integrity && t.page
                < s.len / 0x1000 && t.cached_hash_page == extract::block_place(
                tree,
                t.block_index + t.page,
            ).0 && action->ReadHashPage_offset == extract::hash_page_offset(
                tree,
                t.cached_hash_page,
            ) as u64
        }),
    decreases s.len / 0x1000 - s.page,
{
    if job.should_decrypt && s.page < s.len / 0x1000 {
        if !tree.data_integrity {
            let next = extract::page_decrypted(decoder, chunk, out, s.page, s.iv);
            lemma_pages(
                job,
                tree,
                decoder,
                RunState { page: s.page + 1, ..s },
                chunk,
                next,
                hash_page,
            );
        } else {
            let place = extract::block_place(tree, s.block_index + s.page);
            if place.0 == s.cached_hash_page {
                let iv = extract::marked_iv(s.iv, hash_page, place.1, tree.is_encrypted);
                let next = extract::page_decrypted(decoder, chunk, out, s.page, iv);
                assert(iv.len() == 16);
                lemma_pages(
                    job,
                    tree,
                    decoder,
                    RunState { page: s.page + 1, iv, ..s },
                    chunk,
                    next,
                    hash_page,
                );
            }
        }
    }
}

/// The page of the hash tree that is asked for is the one with the entry of the next block to
/// decrypt. In a resilient package it stands at an even place, twice as far behind the beginning
/// of the tree as it would otherwise.
pub proof fn hash_page_of_the_next_block_is_asked_for(
    run: &mut JobRun,
    job: ExtractJob,
    tree: HashTreeParams,
    decoder: MsiXVDDecoder,
    chunk: &[u8],
    out: &mut [u8],
    hash_page: &[u8],
    due: bool,
    r: Action,
)
    requires
        old(run)@.wf(job@),
        call_ensures(job_is_addressable, (&job, &tree), true),
        call_ensures(
            JobRun::step,
            (run, &job, &tree, &decoder, chunk, out, hash_page, due),
            r,
        ),
        r is ReadHashPage,
    ensures
        old(run).stage == Stage::Chunk,
        job.should_decrypt,
        tree.data_integrity,
        ({
            let block = job.start_block_index + old(run).written / 0x1000 + final(run).page;
            let second = if tree.levels >= 2 {
                (tree.total_hashed_pages + 28899) / 28900
            } else {
                0
            };
            let third = if tree.levels >= 3 {
                (tree.total_hashed_pages + 4912999) / 4913000
            } else {
                0
            };
            let fourth = if tree.levels >= 4 {
                (tree.total_hashed_pages + 835209999) / 835210000
            } else {
                0
            };
            let page = block / 170 + second + third + fourth;
            &&& old(run).page <= final(run).page < old(run).len / 0x1000
            &&& tree.kind <= 1 && !tree.resiliency ==> r->ReadHashPage_offset == tree.tree_offset
                + page * 0x1000
            &&& tree.kind <= 1 && tree.resiliency ==> r->ReadHashPage_offset == tree.tree_offset
                + 2 * page * 0x1000
            &&& tree.kind > 1 ==> r->ReadHashPage_offset == tree.tree_offset + 0xFFFF * 0x1000
            &&& final(run).cached_hash_page * 0x1000 == r->ReadHashPage_offset - tree.tree_offset
            &&& final(run).stage == Stage::Chunk
        }),
{
    let s = old(run)@;
    let v = final(run)@;
    extract::lemma_aligned_size(job.file_size as int);
    if s.stage == Stage::Chunk {
        lemma_pages(job@, tree, decoder, s, chunk@, old(out)@, hash_page@);
        let pages = hash_tree::ceil_div(job.file_size as int, 0x1000);
        let block = v.block_index + v.page;
        lemma_place(tree, block);
        extract::lemma_places_ascend(tree, block, job.start_block_index + pages - 1);
        lemma_stage_is_kept(job@, tree, decoder, s, chunk@, old(out)@, hash_page@);
    }
}

proof fn lemma_stage_is_kept(
    job: PlannedJob,
    tree: HashTreeParams,
    decoder: MsiXVDDecoder,
    s: RunState,
    chunk: Seq<u8>,
    out: Seq<u8>,
    hash_page: Seq<u8>,
)
    ensures
        ({
            let (t, done, action) = extract::pages_step(
                job,
                tree,
                decoder,
                s,
                chunk,
                out,
                hash_page,
            );
            action is ReadHashPage ==> t.stage == s.stage
        }),
    decreases s.len / 0x1000 - s.page,
{
    if job.should_decrypt && s.page < s.len / 0x1000 {
        if !tree.data_integrity {
            let next = extract::page_decrypted(decoder, chunk, out, s.page, s.iv);
            lemma_stage_is_kept(
                job,
                tree,
                decoder,
                RunState { page: s.page + 1, ..s },
                chunk,
                next,
                hash_page,
            );
        } else {
            let place = extract::block_place(tree, s.block_index + s.page);
            if place.0 == s.cached_hash_page {
                let iv = extract::marked_iv(s.iv, hash_page, place.1, tree.is_encrypted);
                let next = extract::page_decrypted(decoder, chunk, out, s.page, iv);
                lemma_stage_is_kept(
                    job,
                    tree,
                    decoder,
                    RunState { page: s.page + 1, iv, ..s },
                    chunk,
                    next,
                    hash_page,
                );
            }
        }
    }
}

/// Behind a chunk that was written the run stands a chunk further on. The bytes of the file in
/// it are reported with those pending, if that makes 0x100000 of them or a report is due;
/// otherwise they stay pending, unless nothing remains to be read.
pub proof fn written_bytes_are_reported(
    run: &mut JobRun,
    job: ExtractJob,
    tree: HashTreeParams,
    decoder: MsiXVDDecoder,
    chunk: &[u8],
    out: &mut [u8],
    hash_page: &[u8],
    due: bool,
    r: Action,
)
    requires
        old(run)@.wf(job@),
        old(run).stage == Stage::Written,
        job.file_size + 0xFFF <= u64::MAX,
        call_ensures(
            JobRun::step,
            (run, &job, &tree, &decoder, chunk, out, hash_page, due),
            r,
        ),
    ensures
        ({
            let part = if old(run).written + old(run).len <= job.file_size {
                old(run).len as int
            } else {
                job.file_size - old(run).written
            };
            let bytes = old(run).pending + part;
            &&& final(out)@ == old(out)@
            &&& final(run).remaining == old(run).remaining - old(run).len
            &&& final(run).file_offset == old(run).file_offset + old(run).len
            &&& final(run).written == old(run).written + old(run).len
            &&& final(run).block_index == old(run).block_index + old(run).len / 0x1000
            &&& final(run).cached_hash_page == old(run).cached_hash_page
            &&& bytes >= 0x10_0000 || due ==> r == (Action::Report {
                bytes: bytes as u64,
                decrypted: job.should_decrypt,
            }) && final(run).pending == 0 && final(run).stage == Stage::Between
            &&& bytes < 0x10_0000 && !due && old(run).remaining > old(run).len
                ==> final(run).pending == bytes && r is ReadChunk && r->ReadChunk_offset == old(run).file_offset
                + old(run).len
            &&& bytes < 0x10_0000 && !due && old(run).remaining == old(run).len && bytes > 0 ==> r
                == (Action::Report { bytes: bytes as u64, decrypted: job.should_decrypt })
                && final(run).pending == 0 && final(run).stage == Stage::Done
        }),
{
    extract::lemma_aligned_size(job.file_size as int);
    let v = final(run)@;
}

/// A step within a chunk decrypts one page after the other, each from the four bytes in the
/// entry of its own block and behind them what the vector of the run has there, and without a
/// hash tree from the vector alone. A page is decrypted only while the page of the hash tree with
/// its entry is at hand, and all other bytes stay as they were.
pub proof fn pages_are_decrypted_from_their_own_entries(
    run: &mut JobRun,
    job: ExtractJob,
    tree: HashTreeParams,
    decoder: MsiXVDDecoder,
    chunk: &[u8],
    out: &mut [u8],
    hash_page: &[u8],
    due: bool,
    r: Action,
    q: int,
)
    requires
        old(run)@.wf(job@),
        old(run).stage == Stage::Chunk,
        chunk@.len() >= old(run).room,
        old(out)@.len() >= old(run).room,
        hash_page@.len() >= 0x1000,
        tree.levels >= 1,
        call_ensures(
            JobRun::step,
            (run, &job, &tree, &decoder, chunk, out, hash_page, due),
            r,
        ),
        0 <= q < old(run).len / 0x1000,
    ensures
        ({
            let done = old(run).page <= q < final(run).page;
            let block = job.start_block_index + old(run).written / 0x1000 + q;
            let mark = 24 * entry_of_block(tree, block) + if tree.is_encrypted {
                20int
            } else {
                24int
            };
            let iv = if tree.data_integrity {
                hash_page@.subrange(mark, mark + 4) + old(run).iv@.subrange(4, 16)
            } else {
                old(run).iv@
            };
            let stored = chunk@.subrange(q * 0x1000, q * 0x1000 + 0x1000);
            let page = final(out)@.subrange(q * 0x1000, q * 0x1000 + 0x1000);
            &&& done && job.should_decrypt ==> page == decoder.decrypted(stored, iv)
            &&& done && tree.data_integrity ==> old(run).cached_hash_page == page_of_block(
                tree,
                block,
            )
            &&& !done ==> page == old(out)@.subrange(q * 0x1000, q * 0x1000 + 0x1000)
        }),
{
    let v = final(run)@;
    lemma_decrypted_pages(job@, tree, decoder, old(run)@, chunk@, old(out)@, hash_page@, q);
    lemma_pages(job@, tree, decoder, old(run)@, chunk@, old(out)@, hash_page@);
    if !job.should_decrypt {
        assert(extract::pages_step(
            job@,
            tree,
            decoder,
            old(run)@,
            chunk@,
            old(out)@,
            hash_page@,
        ).0.page == old(run)@.page);
    }
}

proof fn lemma_decrypted_pages(
    job: PlannedJob,
    tree: HashTreeParams,
    decoder: MsiXVDDecoder,
    s: RunState,
    chunk: Seq<u8>,
    out: Seq<u8>,
    hash_page: Seq<u8>,
    q: int,
)
    requires
        s.wf(job),
        s.stage == Stage::Chunk,
        0 <= job.start_block_index,
        chunk.len() >= s.room,
        out.len() >= s.room,
        hash_page.len() >= 0x1000,
        tree.levels >= 1,
        0 <= q < s.len / 0x1000,
    ensures
        ({
            let (t, after, action) = extract::pages_step(
                job,
                tree,
                decoder,
                s,
                chunk,
                out,
                hash_page,
            );
            let done = s.page <= q < t.page;
            let block = job.start_block_index + s.written / 0x1000 + q;
            let mark = 24 * entry_of_block(tree, block) + if tree.is_encrypted {
                20int
            } else {
                24int
            };
            let iv = if tree.data_integrity {
                hash_page.subrange(mark, mark + 4) + s.iv.subrange(4, 16)
            } else {
                s.iv
            };
            let stored = chunk.subrange(q * 0x1000, q * 0x1000 + 0x1000);
            let page = after.subrange(q * 0x1000, q * 0x1000 + 0x1000);
            &&& after.len() == out.len()
            &&& done ==> page == decoder.decrypted(stored, iv)
            &&& done && tree.data_integrity ==> s.cached_hash_page == page_of_block(tree, block)
            &&& !done ==> page == out.subrange(q * 0x1000, q * 0x1000 + 0x1000)
        }),
    decreases s.len / 0x1000 - s.page,
{
    if job.should_decrypt && s.page < s.len / 0x1000 {
        let block = s.block_index + s.page;
        lemma_place(tree, block);
        let place = extract::block_place(tree, block);
        if !tree.data_integrity || place.0 == s.cached_hash_page {
            let iv = if tree.data_integrity {
                extract::marked_iv(s.iv, hash_page, place.1, tree.is_encrypted)
            } else {
                s.iv
            };
            let next = extract::page_decrypted(decoder, chunk, out, s.page, iv);
            let t = RunState { page: s.page + 1, iv, ..s };
            let at = s.page * 0x1000;
            extract::lemma_page_decrypted_len(decoder, chunk, out, s.page, iv);
            assert(iv.len() == 16);
            assert(iv.subrange(4, 16) =~= s.iv.subrange(4, 16));
            lemma_decrypted_pages(job, tree, decoder, t, chunk, next, hash_page, q);
            lemma_pages(job, tree, decoder, t, chunk, next, hash_page);
            let plain = decoder.decrypted(chunk.subrange(at, at + 0x1000), iv);
            assert(plain.len() == 0x1000);
            let was = out.subrange(q * 0x1000, q * 0x1000 + 0x1000);
            let now = next.subrange(q * 0x1000, q * 0x1000 + 0x1000);
            if q == s.page {
                assert(now =~= plain);
            } else {
                assert(now =~= was);
            }
        }
    }
}

/// The first page that a step decrypts starts from the four bytes of its entry where the page of
/// the hash tree at hand reaches so far, and otherwise from the vector as it was.
pub proof fn short_hash_pages_leave_the_vector(
    run: &mut JobRun,
    job: ExtractJob,
    tree: HashTreeParams,
    decoder: MsiXVDDecoder,
    chunk: &[u8],
    out: &mut [u8],
    hash_page: &[u8],
    due: bool,
    r: Action,
)
    requires
        old(run)@.wf(job@),
        old(run).stage == Stage::Chunk,
        chunk@.len() >= old(run).room,
        old(out)@.len() >= old(run).room,
        tree.levels >= 1,
        job.should_decrypt,
        tree.data_integrity,
        call_ensures(
            JobRun::step,
            (run, &job, &tree, &decoder, chunk, out, hash_page, due),
            r,
        ),
        final(run).page > old(run).page,
    ensures
        ({
            let q = old(run).page;
            let block = job.start_block_index + old(run).written / 0x1000 + q;
            let mark = 24 * entry_of_block(tree, block) + if tree.is_encrypted {
                20int
            } else {
                24int
            };
            let iv = if mark + 4 <= hash_page@.len() {
                hash_page@.subrange(mark, mark + 4) + old(run).iv@.subrange(4, 16)
            } else {
                old(run).iv@
            };
            final(out)@.subrange(q * 0x1000, q * 0x1000 + 0x1000) == decoder.decrypted(
                chunk@.subrange(q * 0x1000, q * 0x1000 + 0x1000),
                iv,
            )
        }),
{
    let s = old(run)@;
    let v = final(run)@;
    let at = s.page * 0x1000;
    let block = s.block_index + s.page;
    lemma_place(tree, block);
    lemma_pages(job@, tree, decoder, s, chunk@, old(out)@, hash_page@);
    let place = extract::block_place(tree, block);
    if s.page < s.len / 0x1000 && place.0 == s.cached_hash_page {
        let iv = extract::marked_iv(s.iv, hash_page@, place.1, tree.is_encrypted);
        let next = extract::page_decrypted(decoder, chunk@, old(out)@, s.page, iv);
        let t = RunState { page: s.page + 1, iv, ..s };
        assert(iv.len() == 16);
        extract::lemma_page_decrypted_len(decoder, chunk@, old(out)@, s.page, iv);
        lemma_earlier_pages_stay(job@, tree, decoder, t, chunk@, next, hash_page@, s.page);
        let plain = decoder.decrypted(chunk@.subrange(at, at + 0x1000), iv);
        assert(plain.len() == 0x1000);
        assert(next.subrange(at, at + 0x1000) =~= plain);
    }
}

proof fn lemma_earlier_pages_stay(
    job: PlannedJob,
    tree: HashTreeParams,
    decoder: MsiXVDDecoder,
    s: RunState,
    chunk: Seq<u8>,
    out: Seq<u8>,
    hash_page: Seq<u8>,
    q: int,
)
    requires
        s.wf(job),
        s.stage == Stage::Chunk,
        chunk.len() >= s.room,
        out.len() >= s.room,
        0 <= q < s.page,
    ensures
        extract::pages_step(job, tree, decoder, s, chunk, out, hash_page).1.subrange(
            q * 0x1000,
            q * 0x1000 + 0x1000,
        ) == out.subrange(q * 0x1000, q * 0x1000 + 0x1000),
    decreases s.len / 0x1000 - s.page,
{
    if job.should_decrypt && s.page < s.len / 0x1000 {
        let place = extract::block_place(tree, s.block_index + s.page);
        if !tree.data_integrity || place.0 == s.cached_hash_page {
            let iv = if tree.data_integrity {
                extract::marked_iv(s.iv, hash_page, place.1, tree.is_encrypted)
            } else {
                s.iv
            };
            assert(iv.len() == 16);
            let next = extract::page_decrypted(decoder, chunk, out, s.page, iv);
            extract::lemma_page_decrypted_len(decoder, chunk, out, s.page, iv);
            lemma_earlier_pages_stay(
                job,
                tree,
                decoder,
                RunState { page: s.page + 1, iv, ..s },
                chunk,
                next,
                hash_page,
                q,
            );
            assert(next.subrange(q * 0x1000, q * 0x1000 + 0x1000) =~= out.subrange(
                q * 0x1000,
                q * 0x1000 + 0x1000,
            ));
        }
    }
}

/// The extraction of a file can be carried out wherever the file ends below the end of 64 bits
/// and, if it is encrypted in a package with a hash tree of up to three levels, the last page of
/// the tree that it needs begins below it; it cannot be where the file does not end below it.
pub proof fn ordinary_jobs_can_be_carried_out(job: ExtractJob, tree: HashTreeParams, r: bool)
    requires
        call_ensures(job_is_addressable, (&job, &tree), r),
    ensures
        ({
            let pages = (job.file_size + 0xFFF) / 0x1000;
            let last = page_of_block(tree, job.start_block_index + pages - 1);
            let ends = job.file_size + 0xFFF <= u64::MAX && job.input_offset + pages * 0x1000
                <= u64::MAX && job.start_block_index + pages <= u64::MAX;
            &&& !ends ==> !r
            &&& ends && (job.file_size == 0 || !job.should_decrypt || !tree.data_integrity) ==> r
            &&& ends && 1 <= tree.levels <= 3 && tree.total_hashed_pages + 4913000 <= u64::MAX
                && tree.tree_offset + last * 0x1000 <= u64::MAX ==> r
            &&& r && job.file_size > 0 && job.should_decrypt && tree.data_integrity && tree.levels
                >= 1 ==> tree.tree_offset + last * 0x1000 <= u64::MAX
        }),
{
    hash_tree::lemma_pow170();
    let pages = (job.file_size + 0xFFF) / 0x1000;
    if job.file_size > 0 && tree.levels >= 1 {
        lemma_place(tree, job.start_block_index + pages - 1);
    }
}

/// A step is what runs are made of: from a state of a run it leads to the next one.
pub proof fn runs_are_made_of_steps(
    e: Extraction,
    m: Machine,
    run: &mut JobRun,
    job: ExtractJob,
    chunk: &[u8],
    out: &mut [u8],
    hash_page: &[u8],
    due: bool,
    r: Action,
)
    requires
        job@ == e.job,
        m.run == old(run)@,
        m.chunk == chunk@,
        m.out == old(out)@,
        m.hash_page == hash_page@,
        due == (e.due)(m.run.remaining),
        call_ensures(
            JobRun::step,
            (run, &job, &e.tree, &e.decoder, chunk, out, hash_page, due),
            r,
        ),
    ensures
        e.step(m).run == final(run)@,
        e.step(m).out == final(out)@,
        r is ReadChunk && r->ReadChunk_offset + r->ReadChunk_len <= e.image.len() ==> e.step(
            m,
        ).chunk.take(r->ReadChunk_len as int) == e.image.subrange(
            r->ReadChunk_offset as int,
            r->ReadChunk_offset + r->ReadChunk_len,
        ),
        r is ReadHashPage ==> e.step(m).hash_page == e.image.subrange(
            r->ReadHashPage_offset as int,
            r->ReadHashPage_offset + 0x1000,
        ),
        r is Write && r->Write_decrypted ==> e.step(m).output == m.output + final(out)@.take(
            r->Write_len as int,
        ),
        r is Write && !r->Write_decrypted ==> e.step(m).output == m.output + chunk@.take(
            r->Write_len as int,
        ),
        r is Report ==> e.step(m).reported == m.reported + r->Report_bytes,
{
    if let Action::ReadChunk { offset, len } = r {
        if offset + len <= e.image.len() {
            let part = e.image.subrange(offset as int, offset + len);
            assert(e.step(m).chunk.take(len as int) =~= part);
        }
    }
}

/// The vector from which a page of a file is decrypted: four bytes of the hash tree, which stand
/// in the entry of the page's block behind 20 or, in a package that is not encrypted, behind 24
/// bytes of it, and the last twelve bytes of the vector of the job.
pub proof fn page_vector_comes_from_the_hash_tree(e: Extraction, p: int)
    requires
        e.wf(),
        e.job.should_decrypt,
        0 <= p < e.pages(),
        e.tree.levels >= 1,
    ensures
        ({
            let block = e.job.start_block_index + p;
            let at = e.tree.tree_offset + page_of_block(e.tree, block) * 0x1000 + 24
                * entry_of_block(e.tree, block) + if e.tree.is_encrypted {
                20int
            } else {
                24int
            };
            &&& e.tree.data_integrity ==> e.page_iv(p) == e.image.subrange(at, at + 4)
                + e.job.base_iv.subrange(4, 16)
            &&& !e.tree.data_integrity ==> e.page_iv(p) == e.job.base_iv
        }),
{
    if e.tree.data_integrity {
        let block = e.job.start_block_index + p;
        let pages = e.pages();
        lemma_place(e.tree, block);
        extract::lemma_places_ascend(e.tree, block, e.job.start_block_index + pages - 1);
        hash_tree::hash_place_is_not_negative(
            e.tree.kind,
            e.tree.levels as int,
            e.tree.total_hashed_pages as int,
            block,
            e.tree.resiliency,
        );
        let from = extract::hash_page_offset(e.tree, page_of_block(e.tree, block));
        let mark = extract::entry_mark(entry_of_block(e.tree, block), e.tree.is_encrypted);
        let page = e.image.subrange(from, from + 0x1000);
        assert(page.subrange(mark, mark + 4) =~= e.image.subrange(from + mark, from + mark + 4));
    }
}

/// The bytes of a file are those of its pages in order, each as it stands in the package or as it
/// decrypts, cut off at the size of the file.
pub proof fn file_is_made_of_its_pages(e: Extraction, i: int)
    requires
        e.wf(),
    ensures
        e.file().len() == e.job.file_size,
        0 <= i < e.job.file_size ==> {
            let start = e.job.input_offset + i / 0x1000 * 0x1000;
            let stored = e.image.subrange(start, start + 0x1000);
            &&& !e.job.should_decrypt ==> e.file()[i] == e.image[e.job.input_offset + i]
            &&& e.job.should_decrypt ==> e.file()[i] == e.decoder.decrypted(
                stored,
                e.page_iv(i / 0x1000),
            )[i % 0x1000]
        },
{
    extract::lemma_aligned_size(e.job.file_size);
    e.lemma_plain_pages_len(0, e.pages());
    if 0 <= i < e.job.file_size {
        let p = i / 0x1000;
        e.lemma_plain_pages_len(0, p);
        e.lemma_plain_page_len(p);
        e.lemma_plain_pages_join(0, p + 1, e.pages());
        e.lemma_plain_pages_len(0, p + 1);
        assert(e.file()[i] == e.plain_pages(0, e.pages())[i]);
        assert(e.plain_pages(0, e.pages())[i] == e.plain_pages(0, p + 1)[i]);
        assert(e.plain_pages(0, p + 1)[i] == e.plain_page(p)[i - p * 0x1000]);
    }
}

} // verus!
