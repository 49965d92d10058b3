//! An opened package: its header, where its parts lie in the file, and its tables.

use vstd::prelude::*;
use crate::hash_tree;
use crate::hash_tree::{calculate_number_hash_pages, HashTreeParams};
use crate::key::block_at;
use crate::layout::{
    AreaLayout, HeaderLayout, PageCountLayout, SegmentLayout, UserDataLayout, VolumeBits,
};
use crate::record;
use crate::record::{read_struct_at, StreamError};
use crate::tables;
use crate::tables::{SegmentsAbout, XvcRegionHeader, XvcUpdateSegment};
use crate::text;

verus! {

/// How many bytes the header of a package takes up, with its signature.
pub const XVD_HEADER_INCL_SIGNATURE_SIZE: u64 = 0x3000;

/// The sizes that follow from the header of a package.
#[derive(Debug, Clone, Copy, PartialEq, Eq)]
pub struct PageCounts {
    /// The pages of the embedded package.
    pub embedded_xvd: u64,
    /// The bytes, not pages, of the mutable data.
    pub mutable_data_length: u64,
    /// The pages that the hash tree covers.
    pub hashed: u64,
    /// The pages of the user data.
    pub user_data: u64,
}

/// How many pages `bytes` bytes take up.
fn pages_of(bytes: u64) -> (r: u64)
    ensures
        r == hash_tree::ceil_div(bytes as int, 0x1000),
        r <= 0x10_0000_0000_0000,
{
    let whole: u64 = bytes / 0x1000;
    if bytes % 0x1000 == 0 {
        whole
    } else {
        whole + 1
    }
}

/// The sizes that follow from the lengths in the header at the front of `data`.
pub fn page_counts(layout: &PageCountLayout, data: &[u8]) -> (r: PageCounts)
    requires
        layout.wf(),
        layout.size <= data@.len(),
    ensures
        r.embedded_xvd == hash_tree::ceil_div(layout.embedded_xvd_length.of(data@) as int, 0x1000),
        r.mutable_data_length == layout.mutable_data_pages.of(data@) * 0x1000,
        r.user_data == hash_tree::ceil_div(layout.user_data_length.of(data@) as int, 0x1000),
        r.hashed == hash_tree::ceil_div(layout.drive_size.of(data@) as int, 0x1000)
            + hash_tree::ceil_div(layout.user_data_length.of(data@) as int, 0x1000)
            + hash_tree::ceil_div(layout.xvc_data_length.of(data@) as int, 0x1000)
            + hash_tree::ceil_div(layout.dynamic_header_length.of(data@) as int, 0x1000),
{
    assert(layout.size <= data.len());
    let user_data: u64 = pages_of(layout.user_data_length.read(data));
    let hashed: u64 = pages_of(layout.drive_size.read(data)) + user_data + pages_of(
        layout.xvc_data_length.read(data),
    ) + pages_of(layout.dynamic_header_length.read(data));
    PageCounts {
        embedded_xvd: pages_of(layout.embedded_xvd_length.read(data)),
        mutable_data_length: layout.mutable_data_pages.read(data) * 0x1000,
        hashed,
        user_data,
    }
}

/// What the header of a package says.
#[derive(Debug, Clone, Copy, PartialEq, Eq)]
pub struct MsiXVDHeader {
    pub volumes: u32,
    pub format_version: u32,
    pub vd_uid: [u8; 16],
    pub kind: u32,
    pub user_data_length: u32,
    pub xvc_data_length: u32,
    pub package_version1: u16,
    pub package_version2: u16,
    pub package_version3: u16,
    pub package_version4: u16,
    pub page_counts: PageCounts,
}

impl MsiXVDHeader {
    /// Whether these are the numbers at the front of `data`.
    pub open spec fn is_read_from(&self, layout: HeaderLayout, data: Seq<u8>) -> bool {
        let header = record::record_of(data, 0, layout.size as int);
        &&& self.volumes == layout.volumes.of(header)
        &&& self.format_version == layout.format_version.of(header)
        &&& self.vd_uid@ == header.subrange(layout.vd_uid as int, layout.vd_uid + 16)
        &&& self.kind == layout.kind.of(header)
        &&& self.user_data_length == layout.user_data_length.of(header)
        &&& self.xvc_data_length == layout.xvc_data_length.of(header)
        &&& self.package_version1 == layout.package_version1.of(header)
        &&& self.package_version2 == layout.package_version2.of(header)
        &&& self.package_version3 == layout.package_version3.of(header)
        &&& self.package_version4 == layout.package_version4.of(header)
    }
}

/// The bytes of `pages` pages, as a 64-bit number counts them.
pub open spec fn page_bytes(pages: int) -> int {
    (pages * 0x1000) % 0x1_0000_0000_0000_0000
}

fn shifted(pages: u64) -> (r: u64)
    ensures
        r == page_bytes(pages as int),
{
    assert((pages << 12) == (pages * 0x1000) % 0x1_0000_0000_0000_0000) by (bit_vector);
    pages << 12
}

/// Whether the sectors of a package are encrypted.
pub open spec fn encrypted(header: MsiXVDHeader, bits: VolumeBits) -> bool {
    header.volumes & bits.encryption_disabled == 0
}

/// Whether a package has every page of its hash tree twice.
pub open spec fn resilient(header: MsiXVDHeader, bits: VolumeBits) -> bool {
    header.volumes & bits.resiliency_enabled != 0
}

/// Whether a package has a hash tree.
pub open spec fn integrity_kept(header: MsiXVDHeader, bits: VolumeBits) -> bool {
    header.volumes & bits.data_integrity_disabled == 0
}

/// How many pages the hash tree of a package takes up, if it has one.
pub open spec fn hash_tree_page_count(header: MsiXVDHeader, bits: VolumeBits) -> int {
    let pages = hash_tree::tree_pages(header.page_counts.hashed as int);
    if resilient(header, bits) {
        2 * pages
    } else {
        pages
    }
}

/// Where the hash tree begins: behind the header, the embedded package and the mutable data.
pub open spec fn hash_tree_start(header: MsiXVDHeader) -> int {
    page_bytes(header.page_counts.embedded_xvd as int) + XVD_HEADER_INCL_SIGNATURE_SIZE
        + header.page_counts.mutable_data_length
}

/// Where the user data begins: behind the hash tree, if there is one.
pub open spec fn user_data_start(header: MsiXVDHeader, bits: VolumeBits) -> int {
    if integrity_kept(header, bits) {
        hash_tree_start(header) + page_bytes(hash_tree_page_count(header, bits))
    } else {
        hash_tree_start(header)
    }
}

/// Whether the parts of a package lie where 64 bits can address them.
pub open spec fn parts_addressable(header: MsiXVDHeader, bits: VolumeBits) -> bool {
    &&& header.page_counts.hashed + 4913000 <= u64::MAX
    &&& user_data_start(header, bits) <= u64::MAX
}

/// An opened package.
#[derive(Debug, PartialEq, Eq)]
pub struct MsiXVDStream {
    pub header: MsiXVDHeader,
    pub is_encrypted: bool,
    pub segments: Vec<SegmentsAbout>,
    pub segment_paths: Vec<String>,
    pub xvc_regions: Vec<XvcRegionHeader>,
    pub xvc_update_segments: Vec<XvcUpdateSegment>,
    pub encryption_key_ids: Vec<[u8; 16]>,
    pub xvd_user_data_offset: u64,
    pub hash_tree_page_offset: u64,
    pub hash_tree_levels: u64,
    pub data_integrity: bool,
    pub resiliency: bool,
}

/// Reads the header at the front of `data`; the sizes that follow from it are given.
pub fn parse_file_header(layout: &HeaderLayout, counts: PageCounts, data: &[u8]) -> (r: Result<
    MsiXVDHeader,
    StreamError,
>)
    requires
        layout.wf(),
    ensures
        layout.size <= data@.len() ==> r is Ok && r->Ok_0.is_read_from(*layout, data@)
            && r->Ok_0.page_counts == counts,
        layout.size > data@.len() ==> r == Err::<MsiXVDHeader, StreamError>(
            record::missing_record(data@.len() as int, 0, layout.size as int, 0),
        ),
{
    let header: &[u8] = match read_struct_at(data, 0, layout.size) {
        Ok(header) => header,
        Err(error) => {
            return Err(error);
        },
    };
    let vd_uid: [u8; 16] = block_at(header, layout.vd_uid as usize);
    let volumes: u32 = layout.volumes.read(header) as u32;
    let format_version: u32 = layout.format_version.read(header) as u32;
    let kind: u32 = layout.kind.read(header) as u32;
    let user_data_length: u32 = layout.user_data_length.read(header) as u32;
    let xvc_data_length: u32 = layout.xvc_data_length.read(header) as u32;
    let package_version1: u16 = layout.package_version1.read(header) as u16;
    let package_version2: u16 = layout.package_version2.read(header) as u16;
    let package_version3: u16 = layout.package_version3.read(header) as u16;
    let package_version4: u16 = layout.package_version4.read(header) as u16;
    Ok(
        MsiXVDHeader {
            volumes,
            format_version,
            vd_uid,
            kind,
            user_data_length,
            xvc_data_length,
            package_version1,
            package_version2,
            package_version3,
            package_version4,
            page_counts: counts,
        },
    )
}

/// Whether the parts of a package lie where 64 bits can address them.
pub fn parts_are_addressable(header: &MsiXVDHeader, bits: &VolumeBits) -> (r: bool)
    ensures
        r == parts_addressable(*header, *bits),
{
    let counts: PageCounts = header.page_counts;
    if counts.hashed > u64::MAX - 4913000 {
        return false;
    }
    let is_resilient: bool = header.volumes & bits.resiliency_enabled != 0;
    let (page_count, _levels): (u64, u64) = calculate_number_hash_pages(
        counts.hashed,
        is_resilient,
    );
    let tree: u64 = match shifted(counts.embedded_xvd).checked_add(XVD_HEADER_INCL_SIGNATURE_SIZE) {
        Some(start) => match start.checked_add(counts.mutable_data_length) {
            Some(tree) => tree,
            None => {
                return false;
            },
        },
        None => {
            return false;
        },
    };
    if header.volumes & bits.data_integrity_disabled != 0 {
        return true;
    }
    tree.checked_add(shifted(page_count)).is_some()
}

/// What reading the segment metadata comes to: the segments are taken over up to the first that
/// is missing, and the paths where none is.
pub open spec fn metadata_outcome(
    layout: SegmentLayout,
    data: Seq<u8>,
    before: MsiXVDStream,
    after: MsiXVDStream,
    r: Result<(), StreamError>,
) -> bool {
    let len = data.len() as int;
    if layout.header_size > len {
        &&& r == Err::<(), StreamError>(
            record::missing_record(len, 0, layout.header_size as int, 0),
        )
        &&& after == before
    } else {
        &&& after == (MsiXVDStream {
            segments: after.segments,
            segment_paths: after.segment_paths,
            ..before
        })
        &&& after.segments@ == tables::segments_listed(layout, data)
        &&& match tables::missing_segment(layout, data) {
            Some(i) => {
                &&& r == Err::<(), StreamError>(
                    record::missing_record(
                        len,
                        layout.header_size as int,
                        layout.entry_size as int,
                        i,
                    ),
                )
                &&& after.segment_paths == before.segment_paths
            },
            None => {
                &&& r is Ok
                &&& text::texts(after.segment_paths@) == tables::paths_listed(layout, data)
            },
        }
    }
}

/// What reading the user data comes to.
pub open spec fn user_data_outcome(
    user: UserDataLayout,
    segment: SegmentLayout,
    data: Seq<u8>,
    before: MsiXVDStream,
    after: MsiXVDStream,
    r: Result<(), StreamError>,
) -> bool {
    match tables::metadata_range(user, data) {
        Err(error) => r == Err::<(), StreamError>(error) && after == before,
        Ok(None) => r is Ok && after == before,
        Ok(Some(range)) => metadata_outcome(
            segment,
            data.subrange(range.0, range.1),
            before,
            after,
            r,
        ),
    }
}

/// Whether the segment metadata, where the user data has one, lies within it, and the paths of
/// the segments lie within the metadata.
pub open spec fn user_data_in_bounds(
    user: UserDataLayout,
    segment: SegmentLayout,
    data: Seq<u8>,
) -> bool {
    match tables::metadata_range(user, data) {
        Ok(Some(range)) => range.1 <= data.len() && tables::paths_in_bounds(
            segment,
            data.subrange(range.0, range.1),
        ),
        _ => true,
    }
}

/// Whether the segment metadata, where the user data has one, lies within it, and the paths of
/// the segments lie within the metadata.
pub fn user_data_lies_in_bounds(user: &UserDataLayout, segment: &SegmentLayout, data: &[u8]) -> (r:
    bool)
    requires
        user.wf(),
        segment.wf(),
    ensures
        r == user_data_in_bounds(*user, *segment, data@),
{
    match tables::locate_segment_metadata(user, data) {
        Ok(Some(range)) => {
            let (from, to): (u64, u64) = range;
            assert(data.len() <= usize::MAX);
            to <= data.len() as u64 && tables::paths_lie_in_bounds(
                segment,
                &data[from as usize..to as usize],
            )
        },
        _ => true,
    }
}

impl MsiXVDStream {
    /// The package whose header is given, with nothing read of its tables.
    pub fn new(header: MsiXVDHeader, bits: &VolumeBits) -> (r: MsiXVDStream)
        requires
            parts_addressable(header, *bits),
        ensures
            r.is_opened(header, *bits),
            r.wf(),
            r.every_segment_has_a_path(),
            r.segments@.len() == 0,
            r.segment_paths@.len() == 0,
            r.xvc_regions@.len() == 0,
            r.xvc_update_segments@.len() == 0,
            r.encryption_key_ids@.len() == 0,
    {
        let is_encrypted: bool = header.volumes & bits.encryption_disabled == 0;
        let resiliency: bool = header.volumes & bits.resiliency_enabled != 0;
        let data_integrity: bool = header.volumes & bits.data_integrity_disabled == 0;
        let (page_count, hash_tree_levels): (u64, u64) = calculate_number_hash_pages(
            header.page_counts.hashed,
            resiliency,
        );
        let mutable_data_offset: u64 = shifted(header.page_counts.embedded_xvd)
            + XVD_HEADER_INCL_SIGNATURE_SIZE;
        let hash_tree_page_offset: u64 = header.page_counts.mutable_data_length
            + mutable_data_offset;
        let xvd_user_data_offset: u64 = if data_integrity {
            hash_tree_page_offset + shifted(page_count)
        } else {
            hash_tree_page_offset
        };
        MsiXVDStream {
            header,
            is_encrypted,
            segments: Vec::new(),
            segment_paths: Vec::new(),
            xvc_regions: Vec::new(),
            xvc_update_segments: Vec::new(),
            encryption_key_ids: Vec::new(),
            xvd_user_data_offset,
            hash_tree_page_offset,
            hash_tree_levels,
            data_integrity,
            resiliency,
        }
    }

    /// Whether the switches and offsets are those that follow from the header.
    pub open spec fn is_opened(&self, header: MsiXVDHeader, bits: VolumeBits) -> bool {
        &&& self.header == header
        &&& self.is_encrypted == encrypted(header, bits)
        &&& self.resiliency == resilient(header, bits)
        &&& self.data_integrity == integrity_kept(header, bits)
        &&& self.hash_tree_levels == hash_tree::tree_levels(header.page_counts.hashed as int)
        &&& self.hash_tree_page_offset == hash_tree_start(header)
        &&& self.xvd_user_data_offset == user_data_start(header, bits)
    }

    /// Whether every segment has a path.
    pub open spec fn every_segment_has_a_path(&self) -> bool {
        self.segments@.len() <= self.segment_paths@.len()
    }

    /// The hash tree is as deep as the pages that it covers ask for.
    pub open spec fn wf(&self) -> bool {
        &&& self.header.page_counts.hashed + 4913000 <= u64::MAX
        &&& self.hash_tree_levels == hash_tree::tree_levels(self.header.page_counts.hashed as int)
    }

    /// Reads the segment metadata of a package of which no segments have been read.
    pub fn parse_segment_metadata(&mut self, layout: &SegmentLayout, data: &[u8]) -> (r: Result<
        (),
        StreamError,
    >)
        requires
            layout.wf(),
            tables::paths_in_bounds(*layout, data@),
            old(self).wf(),
            old(self).segments@.len() == 0,
            old(self).segment_paths@.len() == 0,
        ensures
            metadata_outcome(*layout, data@, *old(self), *final(self), r),
            final(self).wf(),
            r is Ok ==> final(self).every_segment_has_a_path(),
    {
        if let Err(error) = read_struct_at(data, 0, layout.header_size) {
            return Err(error);
        }
        let read: Result<(), StreamError> = tables::read_segments(
            layout,
            data,
            &mut self.segments,
        );
        assert(self.segments@ =~= tables::segments_listed(*layout, data@));
        if let Err(error) = read {
            return Err(error);
        }
        self.segment_paths = tables::read_paths(layout, data, &self.segments);
        assert(self.segment_paths@.len() == text::texts(self.segment_paths@).len());
        Ok(())
    }

    /// Reads the user data of a package of which no segments have been read: the segments and
    /// their paths, where it has them.
    pub fn parse_user_data(
        &mut self,
        user: &UserDataLayout,
        segment: &SegmentLayout,
        data: &[u8],
    ) -> (r: Result<(), StreamError>)
        requires
            user.wf(),
            segment.wf(),
            user_data_in_bounds(*user, *segment, data@),
            old(self).wf(),
            old(self).segments@.len() == 0,
            old(self).segment_paths@.len() == 0,
        ensures
            user_data_outcome(*user, *segment, data@, *old(self), *final(self), r),
            final(self).wf(),
            r is Ok ==> final(self).every_segment_has_a_path(),
    {
        let (from, to): (u64, u64) = match tables::locate_segment_metadata(user, data) {
            Ok(Some(range)) => range,
            Ok(None) => {
                return Ok(());
            },
            Err(error) => {
                return Err(error);
            },
        };
        assert(data.len() <= usize::MAX);
        self.parse_segment_metadata(segment, &data[from as usize..to as usize])
    }

    /// Where the area information begins: behind the pages of the user data.
    pub open spec fn area_start(&self) -> int {
        self.xvd_user_data_offset + page_bytes(self.header.page_counts.user_data as int)
    }

    /// Whether the area information lies where 64 bits can address it.
    pub fn area_is_addressable(&self) -> (r: bool)
        ensures
            r == (self.area_start() <= u64::MAX),
    {
        self.xvd_user_data_offset.checked_add(shifted(self.header.page_counts.user_data)).is_some()
    }

    /// Where the area information begins.
    pub fn area_info_offset(&self) -> (r: u64)
        requires
            self.area_start() <= u64::MAX,
        ensures
            r == self.area_start(),
    {
        self.xvd_user_data_offset + shifted(self.header.page_counts.user_data)
    }

    /// Reads the area information: the GUIDs of the keys, the regions and the update segments
    /// are added to those that the package has.
    pub fn parse_area_info(&mut self, layout: &AreaLayout, data: &[u8]) -> (r: Result<
        (),
        StreamError,
    >)
        requires
            layout.wf(),
            old(self).wf(),
        ensures
            area_info_outcome(*layout, data@, *old(self), *final(self), r),
            final(self).wf(),
    {
        let header: &[u8] = match read_struct_at(data, 0, layout.info_size) {
            Ok(header) => header,
            Err(error) => {
                return Err(error);
            },
        };
        tables::read_key_ids(layout, header, &mut self.encryption_key_ids);
        assert(self.encryption_key_ids@ =~= old(self).encryption_key_ids@
            + self.encryption_key_ids@.skip(old(self).encryption_key_ids@.len() as int));
        if let Err(error) = tables::read_regions(layout, data, &mut self.xvc_regions) {
            return Err(error);
        }
        tables::read_updates(layout, data, &mut self.xvc_update_segments)
    }

    /// How the hash tree of the package is laid out.
    pub open spec fn tree(&self) -> HashTreeParams {
        HashTreeParams {
            kind: self.header.kind,
            levels: self.hash_tree_levels,
            total_hashed_pages: self.header.page_counts.hashed,
            resiliency: self.resiliency,
            tree_offset: self.hash_tree_page_offset,
            is_encrypted: self.is_encrypted,
            data_integrity: self.data_integrity,
        }
    }

    /// How the hash tree of the package is laid out.
    pub fn hash_tree_params(&self) -> (r: HashTreeParams)
        ensures
            r == self.tree(),
    {
        HashTreeParams {
            kind: self.header.kind,
            levels: self.hash_tree_levels,
            total_hashed_pages: self.header.page_counts.hashed,
            resiliency: self.resiliency,
            tree_offset: self.hash_tree_page_offset,
            is_encrypted: self.is_encrypted,
            data_integrity: self.data_integrity,
        }
    }
}

/// What reading the area information comes to: the GUIDs, the regions and behind them the update
/// segments are added up to the first that is missing, which is the one reported.
pub open spec fn area_info_outcome(
    layout: AreaLayout,
    data: Seq<u8>,
    before: MsiXVDStream,
    after: MsiXVDStream,
    r: Result<(), StreamError>,
) -> bool {
    let len = data.len() as int;
    if layout.info_size > len {
        &&& r == Err::<(), StreamError>(record::missing_record(len, 0, layout.info_size as int, 0))
        &&& after == before
    } else {
        let added = after.encryption_key_ids@.skip(before.encryption_key_ids@.len() as int);
        &&& after == (MsiXVDStream {
            encryption_key_ids: after.encryption_key_ids,
            xvc_regions: after.xvc_regions,
            xvc_update_segments: after.xvc_update_segments,
            ..before
        })
        &&& after.encryption_key_ids@ == before.encryption_key_ids@ + added
        &&& tables::id_views(added) == tables::key_ids_named(layout, data)
        &&& after.xvc_regions@ == before.xvc_regions@ + tables::regions_listed(layout, data)
        &&& match tables::missing_region(layout, data) {
            Some(i) => {
                &&& r == Err::<(), StreamError>(
                    record::missing_record(
                        len,
                        layout.info_size as int,
                        layout.region_size as int,
                        i,
                    ),
                )
                &&& after.xvc_update_segments == before.xvc_update_segments
            },
            None => {
                &&& after.xvc_update_segments@ == before.xvc_update_segments@
                    + tables::updates_listed(layout, data)
                &&& match tables::missing_update(layout, data) {
                    Some(i) => r == Err::<(), StreamError>(
                        record::missing_record(
                            len,
                            tables::updates_start(layout, data),
                            layout.update_size as int,
                            i,
                        ),
                    ),
                    None => r is Ok,
                }
            },
        }
    }
}

} // verus!
