//! What holds of the plan as a whole.

use vstd::prelude::*;
use crate::plan;
use crate::key::{CikKey, KeyError};
use crate::plan::{ExtractJob, ExtractPlan, PlannedJob};
use crate::record;
use crate::stream::MsiXVDStream;
use crate::tables::{SegmentsAbout, XvcRegionHeader};

verus! {

proof fn lemma_job_at(
    stream: MsiXVDStream,
    region: XvcRegionHeader,
    segment: int,
    offset: int,
    pages: int,
    k: int,
)
    requires
        0 <= segment,
        0 <= k < stream.jobs_from(region, segment, offset, pages).len(),
    ensures
        ({
            let jobs = stream.jobs_from(region, segment, offset, pages);
            &&& segment + k < stream.segments@.len()
            &&& jobs[k] == stream.job_for(region, segment + k, jobs[k].input_offset)
            &&& jobs[0].input_offset == offset
            &&& offset <= jobs[k].input_offset
            &&& jobs[k].input_offset + 0x1000 <= offset + pages * 0x1000
            &&& (jobs[k].input_offset - offset) % 0x1000 == 0
            &&& k + 1 < jobs.len() ==> jobs[k + 1].input_offset == jobs[k].input_offset
                + plan::segment_pages(jobs[k].file_size) * 0x1000
        }),
    decreases stream.segments@.len() - segment,
{
    let jobs = stream.jobs_from(region, segment, offset, pages);
    let taken = stream.pages_taken(segment, pages);
    let next = offset + taken * 0x1000;
    let rest = stream.jobs_from(region, segment + 1, next, pages - taken);
    assert(jobs[0] == stream.job_for(region, segment, offset));
    if k > 0 {
        assert(jobs[k] == rest[k - 1]);
        lemma_job_at(stream, region, segment + 1, next, pages - taken, k - 1);
        if k + 1 < jobs.len() {
            assert(jobs[k + 1] == rest[k]);
        }
    } else if jobs.len() > 1 {
        assert(jobs[1] == rest[0]);
        assert(pages - taken > 0);
        lemma_job_at(stream, region, segment + 1, next, pages - taken, 0);
    }
}

/// The jobs of a region follow its segments: the `k`th has the size and the path of the `k`th
/// segment from the first of the region on, and the vector of the region.
pub proof fn jobs_follow_the_segments(stream: MsiXVDStream, region: XvcRegionHeader, k: int)
    requires
        0 <= k < stream.region_jobs(region).len(),
    ensures
        ({
            let job = stream.region_jobs(region)[k];
            let segment = region.first_segment_index + k;
            &&& segment < stream.segments@.len()
            &&& job.file_size == stream.segments@[segment].file_size
            &&& job.path == stream.segment_paths@[segment]@
            &&& job.should_decrypt == stream.decrypts(region)
            &&& job.base_iv == plan::region_iv(
                stream.decrypts(region),
                region.id,
                stream.header.vd_uid@,
            )
        }),
{
    lemma_job_at(
        stream,
        region,
        region.first_segment_index as int,
        region.offset as int,
        (region.length / 0x1000) as int,
        k,
    );
}

/// The files of a region stand back to back: the first where the region begins, and each next
/// one behind the least number of pages that hold the one before it, which is one page for an
/// empty file.
pub proof fn files_stand_back_to_back(stream: MsiXVDStream, region: XvcRegionHeader, k: int)
    requires
        0 <= k < stream.region_jobs(region).len(),
    ensures
        ({
            let jobs = stream.region_jobs(region);
            let step = jobs[k + 1].input_offset - jobs[k].input_offset;
            &&& jobs[0].input_offset == region.offset
            &&& k + 1 < jobs.len() ==> step % 0x1000 == 0
            &&& k + 1 < jobs.len() && jobs[k].file_size == 0 ==> step == 0x1000
            &&& k + 1 < jobs.len() && jobs[k].file_size > 0 ==> step - 0x1000 < jobs[k].file_size
                <= step
        }),
{
    lemma_job_at(
        stream,
        region,
        region.first_segment_index as int,
        region.offset as int,
        (region.length / 0x1000) as int,
        k,
    );
}

/// A region has a job for its first segment if there is one and the region has a whole page.
pub proof fn region_with_a_page_has_a_job(stream: MsiXVDStream, region: XvcRegionHeader)
    ensures
        stream.region_jobs(region).len() > 0 <==> region.first_segment_index
            < stream.segments@.len() && region.length >= 0x1000,
{
}

/// The jobs of a region end only with the last segment or where its last file reaches to the end
/// of the whole pages of the region.
pub proof fn jobs_go_on_to_the_end_of_the_region(stream: MsiXVDStream, region: XvcRegionHeader)
    requires
        stream.region_jobs(region).len() > 0,
        region.first_segment_index + stream.region_jobs(region).len() < stream.segments@.len(),
    ensures
        ({
            let last = stream.region_jobs(region).last();
            let end = region.offset + region.length - region.length % 0x1000;
            &&& last.file_size == 0 ==> last.input_offset + 0x1000 == end
            &&& last.file_size > 0 ==> last.input_offset + last.file_size > end - 0x1000
        }),
{
    lemma_last_job_reaches_the_end(
        stream,
        region,
        region.first_segment_index as int,
        region.offset as int,
        (region.length / 0x1000) as int,
    );
}

proof fn lemma_last_job_reaches_the_end(
    stream: MsiXVDStream,
    region: XvcRegionHeader,
    segment: int,
    offset: int,
    pages: int,
)
    requires
        0 <= segment,
        stream.jobs_from(region, segment, offset, pages).len() > 0,
        segment + stream.jobs_from(region, segment, offset, pages).len() < stream.segments@.len(),
    ensures
        ({
            let last = stream.jobs_from(region, segment, offset, pages).last();
            let end = offset + pages * 0x1000;
            &&& last.file_size == 0 ==> last.input_offset + 0x1000 == end
            &&& last.file_size > 0 ==> last.input_offset + last.file_size > end - 0x1000
        }),
    decreases stream.segments@.len() - segment,
{
    let jobs = stream.jobs_from(region, segment, offset, pages);
    let taken = stream.pages_taken(segment, pages);
    let next = offset + taken * 0x1000;
    let rest = stream.jobs_from(region, segment + 1, next, pages - taken);
    assert(jobs[0] == stream.job_for(region, segment, offset));
    assert(jobs.len() == rest.len() + 1);
    if rest.len() > 0 {
        lemma_last_job_reaches_the_end(stream, region, segment + 1, next, pages - taken);
        assert(jobs.last() == rest.last());
    } else {
        assert(pages - taken <= 0);
        assert(jobs.last() == jobs[0]);
    }
}

/// What a job says of its file, on the fields of the package and the region: the size and the
/// path of its segment; whether it is encrypted, which takes an encrypted package and another key
/// than 0xFFFF; the vector, which holds the number of the region behind four zeros and half of
/// the identity of the volume behind that, and zeros alone for a file that is not encrypted; and
/// the page of the user data in which it begins, which is 0 for a file before the user data.
pub proof fn jobs_describe_their_files(stream: MsiXVDStream, region: XvcRegionHeader, k: int)
    requires
        0 <= k < stream.region_jobs(region).len(),
    ensures
        ({
            let job = stream.region_jobs(region)[k];
            let segment = region.first_segment_index + k;
            let start = stream.xvd_user_data_offset;
            &&& segment < stream.segments@.len()
            &&& job.file_size == stream.segments@[segment].file_size
            &&& job.path == stream.segment_paths@[segment]@
            &&& job.should_decrypt <==> stream.is_encrypted && region.key_id != 0xFFFF
            &&& job.base_iv.len() == 16
            &&& job.should_decrypt ==> {
                &&& job.base_iv.take(4) == seq![0u8, 0, 0, 0]
                &&& record::le_value(job.base_iv.subrange(4, 8)) == region.id
                &&& job.base_iv.skip(8) == stream.header.vd_uid@.take(8)
            }
            &&& !job.should_decrypt ==> forall|i: int| 0 <= i < 16 ==> job.base_iv[i] == 0
            &&& job.input_offset >= start ==> start + job.start_block_index * 0x1000
                <= job.input_offset < start + (job.start_block_index + 1) * 0x1000
            &&& job.input_offset < start ==> job.start_block_index == 0
        }),
{
    lemma_job_at(
        stream,
        region,
        region.first_segment_index as int,
        region.offset as int,
        (region.length / 0x1000) as int,
        k,
    );
    let job = stream.region_jobs(region)[k];
    if job.should_decrypt {
        plan::le_bytes_stand_for_the_number(region.id);
        assert(job.base_iv.take(4) =~= seq![0u8, 0, 0, 0]);
        assert(job.base_iv.subrange(4, 8) =~= plan::le_bytes(region.id));
        assert(job.base_iv.skip(8) =~= stream.header.vd_uid@.take(8));
    }
}

/// Which regions are extracted: a package without regions has no jobs, and a further region adds
/// its jobs at the end exactly if it begins with another segment than the first, or if there are
/// update segments and it begins, not at 0, with the page of the first of them, whatever update
/// segments follow.
pub proof fn further_region_adds_its_jobs(
    before: MsiXVDStream,
    after: MsiXVDStream,
    region: XvcRegionHeader,
    few: Vec<ExtractJob>,
    many: Vec<ExtractJob>,
)
    requires
        after == (MsiXVDStream { xvc_regions: after.xvc_regions, ..before }),
        after.xvc_regions@ == before.xvc_regions@.push(region),
        call_ensures(MsiXVDStream::extract_jobs, (&before,), few),
        call_ensures(MsiXVDStream::extract_jobs, (&after,), many),
    ensures
        before.xvc_regions@.len() == 0 ==> few@.len() == 0,
        ({
            let updates = before.xvc_update_segments@;
            let extracted = region.first_segment_index != 0 || (updates.len() > 0 && region.offset
                > 0 && region.offset == 0x1000 * updates[0].page_num);
            plan::job_views(many@) == plan::job_views(few@) + if extracted {
                after.region_jobs(region)
            } else {
                seq![]
            }
        }),
{
    let n = before.xvc_regions@.len() as int;
    assert(few@.len() == plan::job_views(few@).len());
    assert(after.xvc_regions@[n] == region);
    lemma_same_jobs(before, after, n);
    assert(before.jobs_of(n) + Seq::<PlannedJob>::empty() =~= before.jobs_of(n));
}

proof fn lemma_same_jobs(before: MsiXVDStream, after: MsiXVDStream, n: int)
    requires
        after == (MsiXVDStream { xvc_regions: after.xvc_regions, ..before }),
        0 <= n <= before.xvc_regions@.len() <= after.xvc_regions@.len(),
        forall|i: int| 0 <= i < n ==> before.xvc_regions@[i] == #[trigger] after.xvc_regions@[i],
    ensures
        before.jobs_of(n) == after.jobs_of(n),
    decreases n,
{
    if n > 0 {
        lemma_same_jobs(before, after, n - 1);
        let region = after.xvc_regions@[n - 1];
        assert(before.xvc_regions@[n - 1] == region);
        lemma_same_region_jobs(
            before,
            after,
            region,
            region.first_segment_index as int,
            region.offset as int,
            (region.length / 0x1000) as int,
        );
        assert(before.holds_files(region) == after.holds_files(region));
    }
}

proof fn lemma_same_region_jobs(
    before: MsiXVDStream,
    after: MsiXVDStream,
    region: XvcRegionHeader,
    segment: int,
    offset: int,
    pages: int,
)
    requires
        after == (MsiXVDStream { xvc_regions: after.xvc_regions, ..before }),
    ensures
        before.jobs_from(region, segment, offset, pages) == after.jobs_from(
            region,
            segment,
            offset,
            pages,
        ),
    decreases before.segments@.len() - segment,
{
    if segment < before.segments@.len() && pages > 0 {
        let taken = before.pages_taken(segment, pages);
        lemma_same_region_jobs(
            before,
            after,
            region,
            segment + 1,
            offset + taken * 0x1000,
            pages - taken,
        );
    }
}

/// What an extraction takes: the jobs of the package, the sum of the sizes of their files, the
/// numbers and switches of the hash tree, and a decoder with the two halves of the chosen key.
pub proof fn extraction_takes_what_the_package_says(
    stream: MsiXVDStream,
    jobs: Vec<ExtractJob>,
    key: Result<CikKey, KeyError>,
    r: Result<ExtractPlan, KeyError>,
)
    requires
        call_ensures(MsiXVDStream::extract_to, (&stream,), r),
        call_ensures(MsiXVDStream::extract_jobs, (&stream,), jobs),
        call_ensures(MsiXVDStream::select_cik, (&stream,), key),
    ensures
        r is Ok,
        key is Ok,
        ({
            let plan = r->Ok_0;
            &&& plan::job_views(plan.jobs@) == plan::job_views(jobs@)
            &&& plan.total_size == plan::total_size(plan::job_views(jobs@))
            &&& plan.hash_tree.kind == stream.header.kind
            &&& plan.hash_tree.levels == stream.hash_tree_levels
            &&& plan.hash_tree.total_hashed_pages == stream.header.page_counts.hashed
            &&& plan.hash_tree.resiliency == stream.resiliency
            &&& plan.hash_tree.tree_offset == stream.hash_tree_page_offset
            &&& plan.hash_tree.is_encrypted == stream.is_encrypted
            &&& plan.hash_tree.data_integrity == stream.data_integrity
            &&& plan.decoder.tweak_key() == key->Ok_0.t_key@
            &&& plan.decoder.data_key() == key->Ok_0.d_key@
        }),
{
}

/// The sum of the sizes of no files is 0, and a further file adds its size.
pub proof fn further_file_adds_its_size(jobs: Seq<PlannedJob>, job: PlannedJob)
    ensures
        plan::total_size(seq![]) == 0,
        plan::total_size(jobs.push(job)) == plan::total_size(jobs) + job.file_size,
{
    assert(jobs.push(job).drop_last() =~= jobs);
}

/// A plan can be made wherever no size leaves less than a page to the end of 64 bits, no region
/// ends beyond it, and the sizes of the planned files add up below it; it cannot be where they do
/// not.
pub proof fn ordinary_packages_can_be_planned(stream: MsiXVDStream, r: bool)
    requires
        call_ensures(MsiXVDStream::jobs_fit, (&stream,), r),
    ensures
        ({
            &&& forall|i: int|
                0 <= i < stream.segments@.len() ==> (#[trigger] stream.segments@[i]).file_size
                    + 0xFFF <= u64::MAX
            &&& forall|i: int|
                0 <= i < stream.xvc_regions@.len() ==> (#[trigger] stream.xvc_regions@[i]).offset
                    + stream.xvc_regions@[i].length <= u64::MAX
            &&& plan::total_size(stream.planned_jobs()) <= u64::MAX
        }) ==> r,
        r ==> plan::total_size(stream.planned_jobs()) <= u64::MAX,
{
    if (forall|i: int|
        0 <= i < stream.segments@.len() ==> (#[trigger] stream.segments@[i]).file_size + 0xFFF
            <= u64::MAX) && (forall|i: int|
        0 <= i < stream.xvc_regions@.len() ==> (#[trigger] stream.xvc_regions@[i]).offset
            + stream.xvc_regions@[i].length <= u64::MAX) {
        assert forall|i: int|
            0 <= i < stream.xvc_regions@.len() && stream.holds_files(
                #[trigger] stream.xvc_regions@[i],
            ) implies stream.region_fits(stream.xvc_regions@[i]) by {
            let region = stream.xvc_regions@[i];
            lemma_ordinary_segments_fit(
                stream,
                region.first_segment_index as int,
                region.offset as int,
                (region.length / 0x1000) as int,
            );
        }
    }
}

proof fn lemma_ordinary_segments_fit(stream: MsiXVDStream, segment: int, offset: int, pages: int)
    requires
        0 <= segment,
        forall|i: int|
            0 <= i < stream.segments@.len() ==> (#[trigger] stream.segments@[i]).file_size + 0xFFF
                <= u64::MAX,
        offset + pages * 0x1000 <= u64::MAX,
    ensures
        stream.segments_fit(segment, offset, pages),
    decreases stream.segments@.len() - segment,
{
    if segment < stream.segments@.len() && pages > 0 {
        let taken = stream.pages_taken(segment, pages);
        assert(stream.segments@[segment].file_size + 0xFFF <= u64::MAX);
        lemma_ordinary_segments_fit(stream, segment + 1, offset + taken * 0x1000, pages - taken);
    }
}

/// Where the pages of a job of a region end, which is no further than those of the region.
pub open spec fn pages_end(region: XvcRegionHeader, job: PlannedJob) -> int {
    let end = region.offset + region.length - region.length % 0x1000;
    let behind = job.input_offset + if job.file_size == 0 {
        0x1000
    } else {
        (job.file_size + 0xFFF) / 0x1000 * 0x1000
    };
    if behind <= end {
        behind
    } else {
        end
    }
}

/// Whether every one of some jobs of a region has a size that can be rounded up to a page, and
/// pages that end below the end of 64 bits.
pub open spec fn can_be_planned(region: XvcRegionHeader, jobs: Seq<PlannedJob>) -> bool {
    forall|k: int|
        0 <= k < jobs.len() ==> (#[trigger] jobs[k]).file_size + 0xFFF <= u64::MAX && pages_end(
            region,
            jobs[k],
        ) <= u64::MAX
}

/// A plan can be made exactly where, for every job of every region that is extracted, the size
/// can be rounded up to a page and the pages of the job end below the end of 64 bits, and where
/// the sizes add up below it.
pub proof fn packages_that_can_be_planned(stream: MsiXVDStream, r: bool)
    requires
        call_ensures(MsiXVDStream::jobs_fit, (&stream,), r),
    ensures
        r <==> {
            &&& forall|i: int|
                0 <= i < stream.xvc_regions@.len() && is_extracted(
                    stream,
                    #[trigger] stream.xvc_regions@[i],
                ) ==> can_be_planned(
                    stream.xvc_regions@[i],
                    stream.region_jobs(stream.xvc_regions@[i]),
                )
            &&& plan::total_size(stream.planned_jobs()) <= u64::MAX
        },
{
    assert forall|i: int| 0 <= i < stream.xvc_regions@.len() implies stream.region_fits(
        #[trigger] stream.xvc_regions@[i],
    ) == can_be_planned(
        stream.xvc_regions@[i],
        stream.region_jobs(stream.xvc_regions@[i]),
    ) by {
        let region = stream.xvc_regions@[i];
        lemma_segments_fit(
            stream,
            region,
            region.first_segment_index as int,
            region.offset as int,
            (region.length / 0x1000) as int,
        );
    }
}

/// Whether a region is extracted, on its fields and those of the first update segment.
pub open spec fn is_extracted(stream: MsiXVDStream, region: XvcRegionHeader) -> bool {
    let updates = stream.xvc_update_segments@;
    region.first_segment_index != 0 || (updates.len() > 0 && region.offset > 0 && region.offset
        == 0x1000 * updates[0].page_num)
}

proof fn lemma_segments_fit(
    stream: MsiXVDStream,
    region: XvcRegionHeader,
    segment: int,
    offset: int,
    pages: int,
)
    requires
        0 <= segment,
        offset + pages * 0x1000 == region.offset + region.length - region.length % 0x1000,
    ensures
        stream.segments_fit(segment, offset, pages) == can_be_planned(
            region,
            stream.jobs_from(region, segment, offset, pages),
        ),
    decreases stream.segments@.len() - segment,
{
    let jobs = stream.jobs_from(region, segment, offset, pages);
    if segment < stream.segments@.len() && pages > 0 {
        let taken = stream.pages_taken(segment, pages);
        let next = offset + taken * 0x1000;
        let rest = stream.jobs_from(region, segment + 1, next, pages - taken);
        lemma_segments_fit(stream, region, segment + 1, next, pages - taken);
        assert(jobs[0] == stream.job_for(region, segment, offset));
        assert(pages_end(region, jobs[0]) == next);
        assert forall|k: int| 0 < k < jobs.len() implies #[trigger] jobs[k] == rest[k - 1] by {}
        assert forall|k: int| 0 <= k < rest.len() implies #[trigger] rest[k] == jobs[k + 1] by {}
    }
}

/// Every file of a region begins with a whole page within the region, a number of pages behind
/// its beginning.
pub proof fn files_begin_within_their_region(stream: MsiXVDStream, region: XvcRegionHeader, k: int)
    requires
        0 <= k < stream.region_jobs(region).len(),
    ensures
        ({
            let job = stream.region_jobs(region)[k];
            &&& region.offset <= job.input_offset
            &&& job.input_offset + 0x1000 <= region.offset + region.length
            &&& (job.input_offset - region.offset) % 0x1000 == 0
        }),
{
    lemma_job_at(
        stream,
        region,
        region.first_segment_index as int,
        region.offset as int,
        (region.length / 0x1000) as int,
        k,
    );
}

/// How many pages the segments from `segment` on take up together.
pub open spec fn pages_wanted(segments: Seq<SegmentsAbout>, segment: int) -> int
    decreases segments.len() - segment,
{
    if segment >= segments.len() {
        0
    } else {
        plan::segment_pages(segments[segment].file_size as int) + pages_wanted(
            segments,
            segment + 1,
        )
    }
}

/// A region with room for all segments from its first on has a job for each of them.
pub proof fn roomy_region_has_every_segment(stream: MsiXVDStream, region: XvcRegionHeader)
    requires
        region.first_segment_index <= stream.segments@.len(),
        pages_wanted(stream.segments@, region.first_segment_index as int) <= region.length / 0x1000,
    ensures
        stream.region_jobs(region).len() == stream.segments@.len() - region.first_segment_index,
{
    lemma_jobs_of_roomy_region(
        stream,
        region,
        region.first_segment_index as int,
        region.offset as int,
        (region.length / 0x1000) as int,
    );
}

proof fn lemma_pages_wanted(segments: Seq<SegmentsAbout>, segment: int)
    requires
        0 <= segment <= segments.len(),
    ensures
        pages_wanted(segments, segment) >= segments.len() - segment,
    decreases segments.len() - segment,
{
    if segment < segments.len() {
        lemma_pages_wanted(segments, segment + 1);
        assert(plan::segment_pages(segments[segment].file_size as int) >= 1);
    }
}

proof fn lemma_jobs_of_roomy_region(
    stream: MsiXVDStream,
    region: XvcRegionHeader,
    segment: int,
    offset: int,
    pages: int,
)
    requires
        0 <= segment <= stream.segments@.len(),
        pages_wanted(stream.segments@, segment) <= pages,
    ensures
        stream.jobs_from(region, segment, offset, pages).len() == stream.segments@.len() - segment,
    decreases stream.segments@.len() - segment,
{
    if segment < stream.segments@.len() {
        let taken = stream.pages_taken(segment, pages);
        lemma_pages_wanted(stream.segments@, segment);
        lemma_pages_wanted(stream.segments@, segment + 1);
        lemma_jobs_of_roomy_region(
            stream,
            region,
            segment + 1,
            offset + taken * 0x1000,
            pages - taken,
        );
    }
}

/// Every job of the plan is a job of a region that holds files.
pub proof fn jobs_come_from_regions_with_files(stream: MsiXVDStream, j: int)
    requires
        0 <= j < stream.planned_jobs().len(),
    ensures
        exists|i: int, k: int|
            {
                &&& 0 <= i < stream.xvc_regions@.len()
                &&& stream.holds_files(stream.xvc_regions@[i])
                &&& 0 <= k < stream.region_jobs(stream.xvc_regions@[i]).len()
                &&& stream.planned_jobs()[j] == #[trigger] stream.region_jobs(
                    stream.xvc_regions@[i],
                )[k]
            },
{
    lemma_job_of_some_region(stream, stream.xvc_regions@.len() as int, j);
}

proof fn lemma_job_of_some_region(stream: MsiXVDStream, n: int, j: int)
    requires
        0 <= n <= stream.xvc_regions@.len(),
        0 <= j < stream.jobs_of(n).len(),
    ensures
        exists|i: int, k: int|
            {
                &&& 0 <= i < n
                &&& stream.holds_files(stream.xvc_regions@[i])
                &&& 0 <= k < stream.region_jobs(stream.xvc_regions@[i]).len()
                &&& stream.jobs_of(n)[j] == #[trigger] stream.region_jobs(stream.xvc_regions@[i])[k]
            },
    decreases n,
{
    let earlier = stream.jobs_of(n - 1);
    if j < earlier.len() {
        lemma_job_of_some_region(stream, n - 1, j);
        let (i, k) = choose|i: int, k: int|
            {
                &&& 0 <= i < n - 1
                &&& stream.holds_files(stream.xvc_regions@[i])
                &&& 0 <= k < stream.region_jobs(stream.xvc_regions@[i]).len()
                &&& earlier[j] == #[trigger] stream.region_jobs(stream.xvc_regions@[i])[k]
            };
        assert(stream.jobs_of(n)[j] == stream.region_jobs(stream.xvc_regions@[i])[k]);
    } else {
        let k = j - earlier.len();
        assert(stream.jobs_of(n)[j] == stream.region_jobs(stream.xvc_regions@[n - 1])[k]);
    }
}

/// Every job of a region that holds files is in the plan.
pub proof fn every_file_is_planned(stream: MsiXVDStream, i: int, k: int)
    requires
        0 <= i < stream.xvc_regions@.len(),
        stream.holds_files(stream.xvc_regions@[i]),
        0 <= k < stream.region_jobs(stream.xvc_regions@[i]).len(),
    ensures
        stream.planned_jobs().contains(stream.region_jobs(stream.xvc_regions@[i])[k]),
{
    let job = stream.region_jobs(stream.xvc_regions@[i])[k];
    let before = stream.jobs_of(i);
    assert(stream.jobs_of(i + 1)[before.len() + k] == job);
    lemma_jobs_stay(stream, i + 1, stream.xvc_regions@.len() as int, job);
}

proof fn lemma_jobs_stay(stream: MsiXVDStream, n: int, m: int, job: PlannedJob)
    requires
        0 <= n <= m,
        stream.jobs_of(n).contains(job),
    ensures
        stream.jobs_of(m).contains(job),
    decreases m - n,
{
    if n < m {
        lemma_jobs_stay(stream, n, m - 1, job);
        let earlier = stream.jobs_of(m - 1);
        let j = choose|j: int| 0 <= j < earlier.len() && earlier[j] == job;
        assert(stream.jobs_of(m)[j] == job);
    }
}

/// The block of a file that stands in the user data or behind it is the page, counted from the
/// beginning of the user data, in which the file begins.
pub proof fn block_index_counts_pages(
    stream: MsiXVDStream,
    region: XvcRegionHeader,
    segment: int,
    offset: int,
)
    requires
        offset >= stream.xvd_user_data_offset,
    ensures
        ({
            let block = stream.job_for(region, segment, offset).start_block_index;
            let start = stream.xvd_user_data_offset + block * 0x1000;
            start <= offset < start + 0x1000
        }),
{
}

/// Encrypted regions with different numbers start their tweaks from different vectors.
pub proof fn regions_have_their_own_vectors(a: u32, b: u32, vd_uid: Seq<u8>)
    requires
        a != b,
    ensures
        plan::region_iv(true, a, vd_uid) != plan::region_iv(true, b, vd_uid),
{
    let s = plan::region_iv(true, a, vd_uid);
    let t = plan::region_iv(true, b, vd_uid);
    if s == t {
        assert(plan::le_bytes(a) =~= s.subrange(4, 8));
        assert(plan::le_bytes(b) =~= t.subrange(4, 8));
        plan::le_bytes_stand_for_the_number(a);
        plan::le_bytes_stand_for_the_number(b);
        assert(record::le_value(plan::le_bytes(a)) == record::le_value(plan::le_bytes(b)));
    }
}

} // verus!
