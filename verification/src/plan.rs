//! The plan by which the files of a package are extracted: one job for each segment of each
//! region that holds files.

use vstd::prelude::*;
use crate::decoder::MsiXVDDecoder;
use crate::hash_tree;
use crate::hash_tree::HashTreeParams;
use crate::key::KeyError;
use crate::record;
use crate::stream::MsiXVDStream;
use crate::tables::{XvcRegionHeader, XvcUpdateSegment};
use crate::text;

verus! {

/// One file to extract: where it stands in the package, its size and its path, and what it
/// takes to decrypt it.
#[derive(Debug, PartialEq, Eq)]
pub struct ExtractJob {
    pub input_offset: u64,
    pub file_size: u64,
    pub path: String,
    pub base_iv: [u8; 16],
    pub should_decrypt: bool,
    pub start_block_index: u64,
}

/// An [`ExtractJob`], as contracts speak of it.
pub struct PlannedJob {
    pub input_offset: int,
    pub file_size: int,
    pub path: Seq<char>,
    pub base_iv: Seq<u8>,
    pub should_decrypt: bool,
    pub start_block_index: int,
}

impl View for ExtractJob {
    type V = PlannedJob;

    open spec fn view(&self) -> PlannedJob {
        PlannedJob {
            input_offset: self.input_offset as int,
            file_size: self.file_size as int,
            path: self.path@,
            base_iv: self.base_iv@,
            should_decrypt: self.should_decrypt,
            start_block_index: self.start_block_index as int,
        }
    }
}

/// The jobs of a vector, as contracts speak of them.
pub open spec fn job_views(jobs: Seq<ExtractJob>) -> Seq<PlannedJob> {
    jobs.map_values(|job: ExtractJob| job@)
}

/// The sizes of the files of jobs, added up.
pub open spec fn total_size(jobs: Seq<PlannedJob>) -> int
    decreases jobs.len(),
{
    if jobs.len() == 0 {
        0
    } else {
        total_size(jobs.drop_last()) + jobs.last().file_size
    }
}

/// Where the first update segment begins, and 0 where there is none.
pub open spec fn first_update_offset(updates: Seq<XvcUpdateSegment>) -> int {
    if updates.len() == 0 {
        0
    } else {
        updates[0].page_num * 0x1000
    }
}

/// How many pages a file takes up; an empty one takes up a page too.
pub open spec fn segment_pages(file_size: int) -> int {
    if file_size == 0 {
        1
    } else {
        hash_tree::ceil_div(file_size, 0x1000)
    }
}

/// The four bytes of a number, least significant byte first.
pub open spec fn le_bytes(n: u32) -> Seq<u8> {
    seq![
        (n % 256) as u8,
        (n / 256 % 256) as u8,
        (n / 0x1_0000 % 256) as u8,
        (n / 0x100_0000) as u8,
    ]
}

/// The bytes of a number stand for it.
pub proof fn le_bytes_stand_for_the_number(n: u32)
    ensures
        record::le_value(le_bytes(n)) == n,
{
    let s = le_bytes(n);
    reveal_with_fuel(record::le_value, 5);
    assert(s.skip(1).skip(1).skip(1).skip(1).len() == 0);
    assert(s.skip(1)[0] == s[1]);
    assert(s.skip(1).skip(1)[0] == s[2]);
    assert(s.skip(1).skip(1).skip(1)[0] == s[3]);
}

/// What the files of a region start their tweaks from: nothing but zeros where they are not
/// encrypted, and otherwise four zeros, the number of the region and half of the identity of
/// the volume.
pub open spec fn region_iv(decrypts: bool, id: u32, vd_uid: Seq<u8>) -> Seq<u8> {
    if decrypts {
        seq![0u8, 0, 0, 0] + le_bytes(id) + vd_uid.subrange(0, 8)
    } else {
        Seq::new(16, |i: int| 0u8)
    }
}

fn make_region_iv(decrypts: bool, id: u32, vd_uid: &[u8; 16]) -> (r: [u8; 16])
    ensures
        r@ == region_iv(decrypts, id, vd_uid@),
{
    let mut iv: [u8; 16] = [0u8; 16];
    if decrypts {
        iv[4] = (id % 256) as u8;
        iv[5] = (id / 256 % 256) as u8;
        iv[6] = (id / 0x1_0000 % 256) as u8;
        iv[7] = (id / 0x100_0000) as u8;
        let mut i: usize = 0;
        while i < 8
            invariant
                i <= 8,
                iv@.take(8) == seq![0u8, 0, 0, 0] + le_bytes(id),
                forall|k: int| 0 <= k < i ==> iv@[8 + k] == vd_uid@[k],
            decreases 8 - i,
        {
            let ghost before = iv@;
            iv[8 + i] = vd_uid[i];
            assert(iv@.take(8) =~= before.take(8));
            i = i + 1;
        }
        assert forall|k: int| 0 <= k < 16 implies iv@[k] == region_iv(decrypts, id, vd_uid@)[k] by {
            if k < 8 {
                assert(iv@[k] == iv@.take(8)[k]);
            } else {
                assert(iv@[8 + (k - 8)] == vd_uid@[k - 8]);
            }
        }
    }
    assert(iv@ =~= region_iv(decrypts, id, vd_uid@));
    iv
}

impl MsiXVDStream {
    /// Whether a region holds files: it does not begin with the first segment, or it begins
    /// with the first update segment.
    pub open spec fn holds_files(&self, region: XvcRegionHeader) -> bool {
        let first = first_update_offset(self.xvc_update_segments@);
        region.first_segment_index != 0 || (first > 0 && first == region.offset)
    }

    /// Whether the files of a region are encrypted.
    pub open spec fn decrypts(&self, region: XvcRegionHeader) -> bool {
        self.is_encrypted && region.key_id != 0xFFFF
    }

    /// The job for the segment `segment`, which stands at `offset`.
    pub open spec fn job_for(
        &self,
        region: XvcRegionHeader,
        segment: int,
        offset: int,
    ) -> PlannedJob {
        PlannedJob {
            input_offset: offset,
            file_size: self.segments@[segment].file_size as int,
            path: self.segment_paths@[segment]@,
            base_iv: region_iv(self.decrypts(region), region.id, self.header.vd_uid@),
            should_decrypt: self.decrypts(region),
            start_block_index: if offset >= self.xvd_user_data_offset {
                (offset - self.xvd_user_data_offset) / 0x1000
            } else {
                0
            },
        }
    }

    /// How many of `pages` pages the segment `segment` takes up.
    pub open spec fn pages_taken(&self, segment: int, pages: int) -> int {
        let wanted = segment_pages(self.segments@[segment].file_size as int);
        if wanted <= pages {
            wanted
        } else {
            pages
        }
    }

    /// The jobs of a region from the segment `segment` on, which stands at `offset`, with
    /// `pages` pages of the region left.
    pub open spec fn jobs_from(
        &self,
        region: XvcRegionHeader,
        segment: int,
        offset: int,
        pages: int,
    ) -> Seq<PlannedJob>
        decreases self.segments@.len() - segment,
    {
        if segment >= self.segments@.len() || pages <= 0 {
            seq![]
        } else {
            let taken = self.pages_taken(segment, pages);
            seq![self.job_for(region, segment, offset)] + self.jobs_from(
                region,
                segment + 1,
                offset + taken * 0x1000,
                pages - taken,
            )
        }
    }

    /// The jobs of a region.
    pub open spec fn region_jobs(&self, region: XvcRegionHeader) -> Seq<PlannedJob> {
        self.jobs_from(
            region,
            region.first_segment_index as int,
            region.offset as int,
            (region.length / 0x1000) as int,
        )
    }

    /// The jobs of the first `n` regions.
    pub open spec fn jobs_of(&self, n: int) -> Seq<PlannedJob>
        decreases n,
    {
        if n <= 0 {
            seq![]
        } else if self.holds_files(self.xvc_regions@[n - 1]) {
            self.jobs_of(n - 1) + self.region_jobs(self.xvc_regions@[n - 1])
        } else {
            self.jobs_of(n - 1)
        }
    }

    /// All jobs of the package.
    pub open spec fn planned_jobs(&self) -> Seq<PlannedJob> {
        self.jobs_of(self.xvc_regions@.len() as int)
    }

    /// Whether the sizes of the segments and the places where they stand fit into 64 bits,
    /// from the segment `segment` on.
    pub open spec fn segments_fit(
        &self,
        segment: int,
        offset: int,
        pages: int,
    ) -> bool
        decreases self.segments@.len() - segment,
    {
        segment >= self.segments@.len() || pages <= 0 || {
            let taken = self.pages_taken(segment, pages);
            &&& self.segments@[segment].file_size + 0xFFF <= u64::MAX
            &&& offset + taken * 0x1000 <= u64::MAX
            &&& self.segments_fit(segment + 1, offset + taken * 0x1000, pages - taken)
        }
    }

    /// Whether the files of a region have sizes and places that fit into 64 bits.
    pub open spec fn region_fits(&self, region: XvcRegionHeader) -> bool {
        self.segments_fit(
            region.first_segment_index as int,
            region.offset as int,
            (region.length / 0x1000) as int,
        )
    }

    /// Whether the sizes of the files, the places where they stand and the sum of the sizes
    /// fit into 64 bits.
    pub open spec fn plan_fits(&self) -> bool {
        &&& forall|i: int|
            0 <= i < self.xvc_regions@.len() && self.holds_files(
                #[trigger] self.xvc_regions@[i],
            ) ==> self.region_fits(self.xvc_regions@[i])
        &&& total_size(self.planned_jobs()) <= u64::MAX
    }
}

proof fn lemma_total_of_two(a: Seq<PlannedJob>, b: Seq<PlannedJob>)
    ensures
        total_size(a + b) == total_size(a) + total_size(b),
    decreases b.len(),
{
    if b.len() == 0 {
        assert(a + b =~= a);
    } else {
        assert((a + b).drop_last() =~= a + b.drop_last());
        lemma_total_of_two(a, b.drop_last());
    }
}

proof fn lemma_total_is_not_negative(jobs: Seq<PlannedJob>)
    requires
        forall|i: int| 0 <= i < jobs.len() ==> (#[trigger] jobs[i]).file_size >= 0,
    ensures
        total_size(jobs) >= 0,
    decreases jobs.len(),
{
    if jobs.len() > 0 {
        lemma_total_is_not_negative(jobs.drop_last());
    }
}

/// The sizes of the first jobs add up to no more than those of all.
proof fn lemma_total_of_front(jobs: Seq<PlannedJob>, n: int)
    requires
        0 <= n <= jobs.len(),
        forall|i: int| 0 <= i < jobs.len() ==> (#[trigger] jobs[i]).file_size >= 0,
    ensures
        total_size(jobs.take(n)) <= total_size(jobs),
{
    assert(jobs.take(n) + jobs.skip(n) =~= jobs);
    lemma_total_of_two(jobs.take(n), jobs.skip(n));
    lemma_total_is_not_negative(jobs.skip(n));
}

/// The sizes of the files of jobs, added up.
fn sum_of_sizes(jobs: &Vec<ExtractJob>) -> (r: u64)
    requires
        total_size(job_views(jobs@)) <= u64::MAX,
    ensures
        r == total_size(job_views(jobs@)),
{
    let mut total: u64 = 0;
    let mut i: usize = 0;
    let ghost views = job_views(jobs@);
    while i < jobs.len()
        invariant
            i <= jobs@.len(),
            views == job_views(jobs@),
            total_size(views) <= u64::MAX,
            total == total_size(views.take(i as int)),
        decreases jobs@.len() - i,
    {
        proof {
            assert(views.take(i + 1).drop_last() =~= views.take(i as int));
            lemma_total_of_front(views, i + 1);
        }
        total = total + jobs[i].file_size;
        i = i + 1;
    }
    assert(views.take(i as int) =~= views);
    total
}

/// What the extraction of a package takes: the decoder, the jobs, the sum of the sizes of their
/// files, the hash tree, and the versions to report.
pub struct ExtractPlan {
    pub decoder: MsiXVDDecoder,
    pub jobs: Vec<ExtractJob>,
    pub total_size: u64,
    pub hash_tree: HashTreeParams,
    pub package_version: String,
    pub format_version: u32,
}

/// The four numbers of a version with dots between them.
pub open spec fn version_text(a: u16, b: u16, c: u16, d: u16) -> Seq<char> {
    text::decimal(a as nat) + "."@ + text::decimal(b as nat) + "."@ + text::decimal(c as nat)
        + "."@ + text::decimal(d as nat)
}

/// The four numbers of a version with dots between them.
pub fn format_package_version(
    package_version1: u16,
    package_version2: u16,
    package_version3: u16,
    package_version4: u16,
) -> (r: String)
    ensures
        r@ == version_text(package_version1, package_version2, package_version3, package_version4),
{
    let mut version: String = "".to_owned();
    proof {
        reveal_strlit("");
        assert(version@ + text::decimal(package_version1 as nat) =~= text::decimal(
            package_version1 as nat,
        ));
    }
    text::append_decimal(&mut version, package_version1 as u64);
    version.append(".");
    text::append_decimal(&mut version, package_version2 as u64);
    version.append(".");
    text::append_decimal(&mut version, package_version3 as u64);
    version.append(".");
    text::append_decimal(&mut version, package_version4 as u64);
    version
}

impl MsiXVDStream {
    fn first_update(&self) -> (r: u64)
        ensures
            r == first_update_offset(self.xvc_update_segments@),
    {
        if self.xvc_update_segments.len() == 0 {
            0
        } else {
            let page: u64 = self.xvc_update_segments[0].page_num as u64;
            assert(page << 12 == page * 0x1000) by (bit_vector)
                requires
                    page <= 0xffff_ffff,
            ;
            page << 12
        }
    }

    fn has_files(&self, region: &XvcRegionHeader) -> (r: bool)
        ensures
            r == self.holds_files(*region),
    {
        let first: u64 = self.first_update();
        region.first_segment_index != 0 || (first > 0 && first == region.offset)
    }

    /// The jobs of a region, added to `jobs`.
    fn add_region_jobs(&self, region: &XvcRegionHeader, jobs: &mut Vec<ExtractJob>)
        requires
            self.every_segment_has_a_path(),
            self.region_fits(*region),
        ensures
            job_views(final(jobs)@) == job_views(old(jobs)@) + self.region_jobs(*region),
    {
        let should_decrypt: bool = self.is_encrypted && region.key_id != 0xFFFF;
        let base_iv: [u8; 16] = make_region_iv(should_decrypt, region.id, &self.header.vd_uid);
        let mut current_offset: u64 = region.offset;
        let mut remaining_pages: u64 = region.length / 0x1000;
        let mut seg_idx: usize = region.first_segment_index as usize;
        let ghost goal = job_views(jobs@) + self.region_jobs(*region);
        while seg_idx < self.segments.len() && remaining_pages > 0
            invariant
                self.every_segment_has_a_path(),
                should_decrypt == self.decrypts(*region),
                base_iv@ == region_iv(should_decrypt, region.id, self.header.vd_uid@),
                self.segments_fit(seg_idx as int, current_offset as int, remaining_pages as int),
                goal == job_views(jobs@) + self.jobs_from(
                    *region,
                    seg_idx as int,
                    current_offset as int,
                    remaining_pages as int,
                ),
            decreases self.segments@.len() - seg_idx,
        {
            let file_size: u64 = self.segments[seg_idx].file_size;
            let seg_pages: u64 = if file_size == 0 {
                1
            } else {
                (file_size + 0xFFF) / 0x1000
            };
            let pages_to_process: u64 = if seg_pages <= remaining_pages {
                seg_pages
            } else {
                remaining_pages
            };
            let start_block_index: u64 = current_offset.saturating_sub(self.xvd_user_data_offset)
                / 0x1000;
            let path: String = self.segment_paths[seg_idx].as_str().to_owned();
            let ghost before = job_views(jobs@);
            let ghost next = self.job_for(*region, seg_idx as int, current_offset as int);
            let ghost rest = self.jobs_from(
                *region,
                seg_idx + 1,
                current_offset + pages_to_process * 0x1000,
                remaining_pages - pages_to_process,
            );
            jobs.push(
                ExtractJob {
                    input_offset: current_offset,
                    file_size,
                    path,
                    base_iv,
                    should_decrypt,
                    start_block_index,
                },
            );
            proof {
                assert(jobs@.last()@ == next);
                assert(job_views(jobs@) =~= before.push(next));
                assert(before + (seq![next] + rest) =~= before.push(next) + rest);
            }
            current_offset = current_offset + pages_to_process * 0x1000;
            remaining_pages = remaining_pages - pages_to_process;
            seg_idx = seg_idx + 1;
        }
        assert(goal =~= job_views(jobs@));
    }

    /// The jobs of the package, one for each file.
    pub fn extract_jobs(&self) -> (r: Vec<ExtractJob>)
        requires
            self.every_segment_has_a_path(),
            self.plan_fits(),
        ensures
            job_views(r@) == self.planned_jobs(),
    {
        let mut jobs: Vec<ExtractJob> = Vec::new();
        let mut i: usize = 0;
        assert(job_views(jobs@) =~= self.jobs_of(0));
        while i < self.xvc_regions.len()
            invariant
                self.every_segment_has_a_path(),
                self.plan_fits(),
                i <= self.xvc_regions@.len(),
                job_views(jobs@) == self.jobs_of(i as int),
            decreases self.xvc_regions@.len() - i,
        {
            let region: XvcRegionHeader = self.xvc_regions[i];
            if self.has_files(&region) {
                self.add_region_jobs(&region, &mut jobs);
            }
            i = i + 1;
        }
        jobs
    }

    /// What it takes to extract the package to a directory.
    pub fn extract_to(&self) -> (r: Result<ExtractPlan, KeyError>)
        requires
            self.every_segment_has_a_path(),
            self.plan_fits(),
        ensures
            r is Ok && self.is_planned(r->Ok_0),
    {
        let package_version: String = format_package_version(
            self.header.package_version1,
            self.header.package_version2,
            self.header.package_version3,
            self.header.package_version4,
        );
        let cik = self.select_cik()?;
        let decoder = MsiXVDDecoder::new(&cik)?;
        let jobs: Vec<ExtractJob> = self.extract_jobs();
        let total_size: u64 = sum_of_sizes(&jobs);
        Ok(
            ExtractPlan {
                decoder,
                jobs,
                total_size,
                hash_tree: self.hash_tree_params(),
                package_version,
                format_version: self.header.format_version,
            },
        )
    }

    /// Whether this is what the extraction of the package takes.
    pub open spec fn is_planned(&self, plan: ExtractPlan) -> bool {
        &&& plan.decoder.tweak_key() == self.cik().subrange(16, 32)
        &&& plan.decoder.data_key() == self.cik().subrange(32, 48)
        &&& job_views(plan.jobs@) == self.planned_jobs()
        &&& plan.total_size == total_size(self.planned_jobs())
        &&& plan.hash_tree == self.tree()
        &&& plan.package_version@ == version_text(
            self.header.package_version1,
            self.header.package_version2,
            self.header.package_version3,
            self.header.package_version4,
        )
        &&& plan.format_version == self.header.format_version
    }

    /// The sum `total` with the sizes of the files of a region added, if all numbers of the
    /// region fit into 64 bits.
    fn add_region_sizes(&self, region: &XvcRegionHeader, total: u64) -> (r: Option<u64>)
        ensures
            match r {
                Some(sum) => self.region_fits(*region) && sum == total + total_size(
                    self.region_jobs(*region),
                ),
                None => !self.region_fits(*region) || total + total_size(self.region_jobs(*region))
                    > u64::MAX,
            },
    {
        let mut current_offset: u64 = region.offset;
        let mut remaining_pages: u64 = region.length / 0x1000;
        let mut seg_idx: usize = region.first_segment_index as usize;
        let mut sum: u64 = total;
        while seg_idx < self.segments.len() && remaining_pages > 0
            invariant
                self.region_fits(*region) == self.segments_fit(
                    seg_idx as int,
                    current_offset as int,
                    remaining_pages as int,
                ),
                total + total_size(self.region_jobs(*region)) == sum + total_size(
                    self.jobs_from(
                        *region,
                        seg_idx as int,
                        current_offset as int,
                        remaining_pages as int,
                    ),
                ),
            decreases self.segments@.len() - seg_idx,
        {
            let file_size: u64 = self.segments[seg_idx].file_size;
            if file_size > u64::MAX - 0xFFF {
                return None;
            }
            let seg_pages: u64 = if file_size == 0 {
                1
            } else {
                (file_size + 0xFFF) / 0x1000
            };
            let pages_to_process: u64 = if seg_pages <= remaining_pages {
                seg_pages
            } else {
                remaining_pages
            };
            let ghost rest = self.jobs_from(
                *region,
                seg_idx + 1,
                current_offset + pages_to_process * 0x1000,
                remaining_pages - pages_to_process,
            );
            proof {
                let first = self.job_for(*region, seg_idx as int, current_offset as int);
                lemma_total_of_two(seq![first], rest);
                reveal_with_fuel(total_size, 2);
                self.lemma_sizes_from(
                    *region,
                    seg_idx + 1,
                    current_offset + pages_to_process * 0x1000,
                    remaining_pages - pages_to_process,
                );
                lemma_total_is_not_negative(rest);
            }
            match (current_offset.checked_add(pages_to_process * 0x1000), sum.checked_add(
                file_size,
            )) {
                (Some(next), Some(more)) => {
                    current_offset = next;
                    sum = more;
                },
                _ => {
                    return None;
                },
            }
            remaining_pages = remaining_pages - pages_to_process;
            seg_idx = seg_idx + 1;
        }
        Some(sum)
    }

    proof fn lemma_sizes_from(
        &self,
        region: XvcRegionHeader,
        segment: int,
        offset: int,
        pages: int,
    )
        ensures
            forall|i: int|
                #![trigger self.jobs_from(region, segment, offset, pages)[i]]
                0 <= i < self.jobs_from(region, segment, offset, pages).len() ==> self.jobs_from(
                    region,
                    segment,
                    offset,
                    pages,
                )[i].file_size >= 0,
        decreases self.segments@.len() - segment,
    {
        if segment < self.segments@.len() && pages > 0 {
            let taken = self.pages_taken(segment, pages);
            self.lemma_sizes_from(region, segment + 1, offset + taken * 0x1000, pages - taken);
            let jobs = self.jobs_from(region, segment, offset, pages);
            let rest = self.jobs_from(
                region,
                segment + 1,
                offset + taken * 0x1000,
                pages - taken,
            );
            assert forall|i: int| 0 <= i < jobs.len() implies (#[trigger] jobs[i]).file_size
                >= 0 by {
                if i > 0 {
                    assert(jobs[i] == rest[i - 1]);
                }
            }
        }
    }

    /// The sizes of the files of the first regions add up to no more than those of all.
    proof fn lemma_total_of_regions(&self, n: int, m: int)
        requires
            0 <= n <= m,
        ensures
            total_size(self.jobs_of(n)) <= total_size(self.jobs_of(m)),
        decreases m - n,
    {
        if n < m {
            let region = self.xvc_regions@[m - 1];
            self.lemma_total_of_regions(n, m - 1);
            lemma_total_of_two(self.jobs_of(m - 1), self.region_jobs(region));
            self.lemma_sizes_from(
                region,
                region.first_segment_index as int,
                region.offset as int,
                (region.length / 0x1000) as int,
            );
            lemma_total_is_not_negative(self.region_jobs(region));
        }
    }

    /// Whether the sizes of the files, the places where they stand and the sum of the sizes
    /// fit into 64 bits.
    pub fn jobs_fit(&self) -> (r: bool)
        ensures
            r == self.plan_fits(),
    {
        let mut total: u64 = 0;
        let mut i: usize = 0;
        while i < self.xvc_regions.len()
            invariant
                i <= self.xvc_regions@.len(),
                total == total_size(self.jobs_of(i as int)),
                forall|k: int|
                    0 <= k < i && self.holds_files(#[trigger] self.xvc_regions@[k])
                        ==> self.region_fits(self.xvc_regions@[k]),
            decreases self.xvc_regions@.len() - i,
        {
            let region: XvcRegionHeader = self.xvc_regions[i];
            if self.has_files(&region) {
                proof {
                    lemma_total_of_two(self.jobs_of(i as int), self.region_jobs(region));
                    self.lemma_total_of_regions(i + 1, self.xvc_regions@.len() as int);
                }
                match self.add_region_sizes(&region, total) {
                    Some(sum) => {
                        total = sum;
                    },
                    None => {
                        return false;
                    },
                }
            }
            i = i + 1;
        }
        true
    }
}

} // verus!
