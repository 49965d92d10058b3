//! The tables of a package: its segments with their paths, the list of package files in which
//! the segment metadata is found, and the regions.

use vstd::prelude::*;
use crate::guid;
use crate::key::block_at;
use crate::layout::{AreaLayout, SegmentLayout, UserDataLayout};
use crate::record;
use crate::record::{read_struct_at, StreamError};
use crate::text;

verus! {

/// A segment: where its path stands among the paths, how many 16-bit units the path has, and
/// the size of the file.
#[derive(Debug, Clone, Copy, PartialEq, Eq)]
pub struct SegmentsAbout {
    pub path_offset: u32,
    pub path_length: u32,
    pub file_size: u64,
}

/// The segment that a record describes.
pub open spec fn segment_of(layout: SegmentLayout, entry: Seq<u8>) -> SegmentsAbout {
    SegmentsAbout {
        path_offset: layout.path_offset.of(entry) as u32,
        path_length: layout.path_length.of(entry) as u32,
        file_size: layout.file_size.of(entry) as u64,
    }
}

/// How many segments the header of the metadata announces.
pub open spec fn segment_count(layout: SegmentLayout, data: Seq<u8>) -> int {
    layout.segment_count.of(record::record_of(data, 0, layout.header_size as int)) as int
}

/// The `i`th segment of the metadata.
pub open spec fn segment_at(layout: SegmentLayout, data: Seq<u8>, i: int) -> SegmentsAbout {
    segment_of(
        layout,
        record::record_of(
            data,
            layout.header_size + i * layout.entry_size,
            layout.entry_size as int,
        ),
    )
}

/// The first segment that the metadata announces but does not hold.
pub open spec fn missing_segment(layout: SegmentLayout, data: Seq<u8>) -> Option<int> {
    record::first_missing(
        data.len() as int,
        layout.header_size as int,
        layout.entry_size as int,
        segment_count(layout, data),
        0,
    )
}

/// Where the paths begin: behind the header and 16 bytes for every segment.
pub open spec fn paths_start(layout: SegmentLayout, data: Seq<u8>) -> int {
    layout.header_length.of(record::record_of(data, 0, layout.header_size as int))
        + segment_count(layout, data) * 0x10
}

/// Where the path of the `i`th segment begins.
pub open spec fn path_start(layout: SegmentLayout, data: Seq<u8>, i: int) -> int {
    paths_start(layout, data) + segment_at(layout, data, i).path_offset
}

/// Where the path of the `i`th segment ends.
pub open spec fn path_end(layout: SegmentLayout, data: Seq<u8>, i: int) -> int {
    path_start(layout, data, i) + 2 * segment_at(layout, data, i).path_length
}

/// The path of the `i`th segment, without NUL characters around it.
pub open spec fn path_at(layout: SegmentLayout, data: Seq<u8>, i: int) -> Seq<char> {
    text::nul_trimmed(
        text::utf16_lossy(
            record::utf16_units(
                data.subrange(path_start(layout, data, i), path_end(layout, data, i)),
            ),
        ),
    )
}

/// Whether all segments are there.
pub open spec fn segments_complete(layout: SegmentLayout, data: Seq<u8>) -> bool {
    layout.header_size <= data.len() && missing_segment(layout, data) is None
}

/// Whether the paths of all segments lie within the metadata, if the segments do.
pub open spec fn paths_in_bounds(layout: SegmentLayout, data: Seq<u8>) -> bool {
    segments_complete(layout, data) ==> forall|i: int|
        0 <= i < segment_count(layout, data) ==> #[trigger] path_end(layout, data, i) <= data.len()
}

/// The segments that the metadata holds, up to the first that is missing.
pub open spec fn segments_listed(layout: SegmentLayout, data: Seq<u8>) -> Seq<SegmentsAbout> {
    Seq::new(
        (match missing_segment(layout, data) {
            Some(i) => i,
            None => segment_count(layout, data),
        }) as nat,
        |i: int| segment_at(layout, data, i),
    )
}

/// The paths of all segments that the metadata announces.
pub open spec fn paths_listed(layout: SegmentLayout, data: Seq<u8>) -> Seq<Seq<char>> {
    Seq::new(segment_count(layout, data) as nat, |i: int| path_at(layout, data, i))
}

/// All segments are there exactly where the header and the segments end within the metadata.
pub proof fn segments_are_complete_exactly_where_they_fit(layout: SegmentLayout, data: Seq<u8>)
    ensures
        segments_complete(layout, data) <==> layout.header_size + segment_count(layout, data)
            * layout.entry_size <= data.len(),
{
    let n = segment_count(layout, data);
    let size = layout.entry_size as int;
    assert(n * size >= 0) by (nonlinear_arith)
        requires
            n >= 0,
            size >= 0,
    ;
    record::first_missing_record_is_reported(
        data.len() as int,
        layout.header_size as int,
        size,
        n,
    );
    if let Some(k) = missing_segment(layout, data) {
        assert((k + 1) * size <= n * size) by (nonlinear_arith)
            requires
                k + 1 <= n,
                size >= 0,
        ;
    }
    assert(n == 0 ==> n * size == 0);
}

/// Reads the segments, adding them to `segments`, up to the first that is missing.
pub fn read_segments(
    layout: &SegmentLayout,
    data: &[u8],
    segments: &mut Vec<SegmentsAbout>,
) -> (r: Result<(), StreamError>)
    requires
        layout.wf(),
        layout.header_size <= data@.len(),
    ensures
        final(segments)@ == old(segments)@ + segments_listed(*layout, data@),
        match missing_segment(*layout, data@) {
            Some(i) => r == Err::<(), StreamError>(
                record::missing_record(
                    data@.len() as int,
                    layout.header_size as int,
                    layout.entry_size as int,
                    i,
                ),
            ),
            None => r is Ok,
        },
{
    let header: &[u8] = &data[0..layout.header_size as usize];
    let count: u64 = layout.segment_count.read(header);
    let mut curr: u64 = layout.header_size as u64;
    let mut i: u64 = 0;
    let ghost listed = |k: int| segment_at(*layout, data@, k);
    assert(segments@ =~= old(segments)@ + Seq::new(0, listed));
    while i < count
        invariant
            layout.wf(),
            i <= count,
            count == segment_count(*layout, data@),
            curr <= data.len(),
            curr == layout.header_size + i * layout.entry_size,
            listed == (|k: int| segment_at(*layout, data@, k)),
            segments@ == old(segments)@ + Seq::new(i as nat, listed),
            missing_segment(*layout, data@) == record::first_missing(
                data@.len() as int,
                layout.header_size as int,
                layout.entry_size as int,
                count as int,
                i as int,
            ),
        decreases count - i,
    {
        match read_struct_at(data, curr, layout.entry_size) {
            Ok(entry) => {
                let path_offset: u32 = layout.path_offset.read(entry) as u32;
                let path_length: u32 = layout.path_length.read(entry) as u32;
                let file_size: u64 = layout.file_size.read(entry);
                segments.push(SegmentsAbout { path_offset, path_length, file_size });
                assert(segments@ =~= old(segments)@ + Seq::new((i + 1) as nat, listed));
            },
            Err(error) => {
                return Err(error);
            },
        }
        assert((i + 1) * layout.entry_size == i * layout.entry_size + layout.entry_size)
            by (nonlinear_arith);
        curr = curr + layout.entry_size as u64;
        i = i + 1;
    }
    Ok(())
}

/// Whether the paths of all segments lie within the metadata, if the segments do.
pub fn paths_lie_in_bounds(layout: &SegmentLayout, data: &[u8]) -> (r: bool)
    requires
        layout.wf(),
    ensures
        r == paths_in_bounds(*layout, data@),
{
    if layout.header_size as u64 > data.len() as u64 {
        return true;
    }
    let mut segments: Vec<SegmentsAbout> = Vec::new();
    if read_segments(layout, data, &mut segments).is_err() {
        return true;
    }
    assert(segments@ =~= segments_listed(*layout, data@));
    let header: &[u8] = &data[0..layout.header_size as usize];
    let start: u64 = layout.header_length.read(header) + layout.segment_count.read(header) * 0x10;
    let mut i: usize = 0;
    while i < segments.len()
        invariant
            i <= segments@.len(),
            segments@.len() == segment_count(*layout, data@),
            start == paths_start(*layout, data@),
            start <= 0x20_0000_0000,
            segments_complete(*layout, data@),
            forall|k: int|
                0 <= k < segments@.len() ==> #[trigger] segments@[k] == segment_at(
                    *layout,
                    data@,
                    k,
                ),
            forall|k: int| 0 <= k < i ==> #[trigger] path_end(*layout, data@, k) <= data@.len(),
        decreases segments@.len() - i,
    {
        let end: u64 = start + segments[i].path_offset as u64 + 2 * (segments[i].path_length as u64);
        assert(end == path_end(*layout, data@, i as int));
        if end > data.len() as u64 {
            return false;
        }
        i = i + 1;
    }
    true
}

/// Reads the paths of `segments`, which are those of the metadata.
pub fn read_paths(layout: &SegmentLayout, data: &[u8], segments: &Vec<SegmentsAbout>) -> (r: Vec<
    String,
>)
    requires
        layout.wf(),
        segments_complete(*layout, data@),
        paths_in_bounds(*layout, data@),
        segments@ == segments_listed(*layout, data@),
    ensures
        text::texts(r@) == paths_listed(*layout, data@),
{
    let header: &[u8] = &data[0..layout.header_size as usize];
    let first: u64 = layout.header_length.read(header) + layout.segment_count.read(header) * 0x10;
    let mut paths: Vec<String> = Vec::new();
    let mut i: usize = 0;
    while i < segments.len()
        invariant
            i <= segments@.len(),
            segments@.len() == segment_count(*layout, data@),
            first == paths_start(*layout, data@),
            first <= 0x20_0000_0000,
            segments_complete(*layout, data@),
            paths_in_bounds(*layout, data@),
            forall|k: int|
                0 <= k < segments@.len() ==> #[trigger] segments@[k] == segment_at(
                    *layout,
                    data@,
                    k,
                ),
            paths@.len() == i,
            forall|k: int| 0 <= k < i ==> (#[trigger] paths@[k])@ == path_at(*layout, data@, k),
        decreases segments@.len() - i,
    {
        let segment: SegmentsAbout = segments[i];
        let start: u64 = first + segment.path_offset as u64;
        let end: u64 = start + 2 * (segment.path_length as u64);
        assert(end == path_end(*layout, data@, i as int));
        assert(data.len() <= usize::MAX);
        let units: Vec<u16> = record::read_units(&data[start as usize..end as usize]);
        let path: String = text::utf16_text(&units);
        paths.push(text::trim_nul(path.as_str()));
        i = i + 1;
    }
    assert(text::texts(paths@) =~= paths_listed(*layout, data@));
    paths
}

/// The name of the package file that holds the segment metadata.
pub open spec fn metadata_name() -> Seq<char> {
    "SegmentMetadata.bin"@
}

/// The path in an entry of the list of package files: the units before the first NUL, decoded.
pub open spec fn entry_path(layout: UserDataLayout, entry: Seq<u8>) -> Seq<char> {
    text::utf16_lossy(
        record::before_nul(
            record::utf16_units(
                entry.subrange(
                    layout.entry_path as int,
                    layout.entry_path + 2 * layout.entry_path_units,
                ),
            ),
        ),
    )
}

/// How long the header of the user data says it is.
pub open spec fn user_header_length(layout: UserDataLayout, data: Seq<u8>) -> int {
    layout.length.of(record::record_of(data, 0, layout.header_size as int)) as int
}

/// Where the entries of the list of package files begin.
pub open spec fn entries_start(layout: UserDataLayout, data: Seq<u8>) -> int {
    user_header_length(layout, data) + layout.files_header_size
}

/// How many package files the list announces.
pub open spec fn file_count(layout: UserDataLayout, data: Seq<u8>) -> int {
    layout.file_count.of(
        record::record_of(
            data,
            user_header_length(layout, data),
            layout.files_header_size as int,
        ),
    ) as int
}

/// The `i`th entry of the list of package files.
pub open spec fn entry_at(layout: UserDataLayout, data: Seq<u8>, i: int) -> Seq<u8> {
    record::record_of(
        data,
        entries_start(layout, data) + i * layout.entry_size,
        layout.entry_size as int,
    )
}

/// The byte range that holds the segment metadata according to the entries from `i` on; an
/// entry that is announced but not there is an error, and it is no error if no entry has the
/// name.
pub open spec fn metadata_range_from(layout: UserDataLayout, data: Seq<u8>, i: int) -> Result<
    Option<(int, int)>,
    StreamError,
>
    decreases file_count(layout, data) - i,
{
    let start = entries_start(layout, data);
    let size = layout.entry_size as int;
    if i >= file_count(layout, data) {
        Ok(None)
    } else if start + i * size + size > data.len() {
        Err(record::missing_record(data.len() as int, start, size, i))
    } else {
        let entry = entry_at(layout, data, i);
        if entry_path(layout, entry) == metadata_name() {
            let from = user_header_length(layout, data) + layout.entry_offset.of(entry);
            Ok(Some((from, from + layout.entry_length.of(entry))))
        } else {
            metadata_range_from(layout, data, i + 1)
        }
    }
}

/// The byte range of the user data that holds the segment metadata.
pub open spec fn metadata_range(layout: UserDataLayout, data: Seq<u8>) -> Result<
    Option<(int, int)>,
    StreamError,
> {
    let len = data.len() as int;
    if layout.header_size > len {
        Err(record::missing_record(len, 0, layout.header_size as int, 0))
    } else if layout.data_type.of(record::record_of(data, 0, layout.header_size as int))
        != layout.package_files {
        Err(StreamError::UnsupportedUserData)
    } else if entries_start(layout, data) > len {
        Err(
            record::missing_record(
                len,
                user_header_length(layout, data),
                layout.files_header_size as int,
                0,
            ),
        )
    } else {
        metadata_range_from(layout, data, 0)
    }
}

/// Whether the result says of the byte range what is the case.
pub open spec fn range_outcome(
    range: Result<Option<(int, int)>, StreamError>,
    r: Result<Option<(u64, u64)>, StreamError>,
) -> bool {
    match (range, r) {
        (Ok(Some(range)), Ok(Some(found))) => found.0 == range.0 && found.1 == range.1 && found.0
            <= found.1,
        (Ok(None), Ok(None)) => true,
        (Err(error), Err(reported)) => error == reported,
        _ => false,
    }
}

/// Whether an entry of the list of package files has the name of the segment metadata.
fn is_metadata_entry(layout: &UserDataLayout, entry: &[u8]) -> (r: bool)
    requires
        layout.wf(),
        entry@.len() == layout.entry_size,
    ensures
        r == (entry_path(*layout, entry@) == metadata_name()),
{
    let from: usize = layout.entry_path as usize;
    assert(entry.len() == layout.entry_size);
    let to: usize = from + 2 * (layout.entry_path_units as usize);
    let units: Vec<u16> = record::read_units(&entry[from..to]);
    let end: usize = record::nul_position(&units);
    let path: String = text::utf16_text(&units[0..end]);
    path == "SegmentMetadata.bin".to_owned()
}

/// Looks in the list of package files for the byte range that holds the segment metadata.
pub fn locate_segment_metadata(layout: &UserDataLayout, data: &[u8]) -> (r: Result<
    Option<(u64, u64)>,
    StreamError,
>)
    requires
        layout.wf(),
    ensures
        range_outcome(metadata_range(*layout, data@), r),
{
    let header: &[u8] = match read_struct_at(data, 0, layout.header_size) {
        Ok(header) => header,
        Err(error) => {
            return Err(error);
        },
    };
    if layout.data_type.read(header) != layout.package_files as u64 {
        return Err(StreamError::UnsupportedUserData);
    }
    let length: u64 = layout.length.read(header);
    let files_header: &[u8] = match read_struct_at(data, length, layout.files_header_size) {
        Ok(files_header) => files_header,
        Err(error) => {
            return Err(error);
        },
    };
    let count: u64 = layout.file_count.read(files_header);
    let mut curr: u64 = length + layout.files_header_size as u64;
    let mut i: u64 = 0;
    while i < count
        invariant
            layout.wf(),
            i <= count,
            count == file_count(*layout, data@),
            length == user_header_length(*layout, data@),
            length <= u32::MAX,
            curr <= data.len(),
            curr == entries_start(*layout, data@) + i * layout.entry_size,
            metadata_range(*layout, data@) == metadata_range_from(*layout, data@, i as int),
        decreases count - i,
    {
        match read_struct_at(data, curr, layout.entry_size) {
            Ok(entry) => {
                if is_metadata_entry(layout, entry) {
                    let from: u64 = length + layout.entry_offset.read(entry);
                    return Ok(Some((from, from + layout.entry_length.read(entry))));
                }
            },
            Err(error) => {
                return Err(error);
            },
        }
        assert((i + 1) * layout.entry_size == i * layout.entry_size + layout.entry_size)
            by (nonlinear_arith);
        curr = curr + layout.entry_size as u64;
        i = i + 1;
    }
    Ok(None)
}

/// A region: its number, the number of its key, the first of its segments, and the byte range
/// that it takes up in the file.
#[derive(Debug, Clone, Copy, PartialEq, Eq)]
pub struct XvcRegionHeader {
    pub id: u32,
    pub key_id: u32,
    pub first_segment_index: u32,
    pub offset: u64,
    pub length: u64,
}

/// An update segment, by the page at which it begins.
#[derive(Debug, Clone, Copy, PartialEq, Eq)]
pub struct XvcUpdateSegment {
    pub page_num: u32,
}

/// The header of the area information.
pub open spec fn area_header(layout: AreaLayout, data: Seq<u8>) -> Seq<u8> {
    record::record_of(data, 0, layout.info_size as int)
}

/// The `k`th GUID that the header has room for.
pub open spec fn key_id_at(layout: AreaLayout, header: Seq<u8>, k: int) -> Seq<u8> {
    let stored = header.subrange(layout.key_ids + 16 * k, layout.key_ids + 16 * k + 16);
    if layout.key_id_fields_turned {
        guid::guid_flipped(stored)
    } else {
        stored
    }
}

/// The GUIDs among the first `n` that are not nil, in order.
pub open spec fn key_ids_listed(layout: AreaLayout, header: Seq<u8>, n: int) -> Seq<Seq<u8>>
    decreases n,
{
    if n <= 0 {
        seq![]
    } else {
        let id = key_id_at(layout, header, n - 1);
        let earlier = key_ids_listed(layout, header, n - 1);
        if guid::is_nil(id) {
            earlier
        } else {
            earlier.push(id)
        }
    }
}

/// How many regions the area information announces.
pub open spec fn region_count(layout: AreaLayout, data: Seq<u8>) -> int {
    layout.region_count.of(area_header(layout, data)) as int
}

/// How many update segments the area information announces.
pub open spec fn update_count(layout: AreaLayout, data: Seq<u8>) -> int {
    layout.update_segment_count.of(area_header(layout, data)) as int
}

/// Where the update segments begin: behind the regions.
pub open spec fn updates_start(layout: AreaLayout, data: Seq<u8>) -> int {
    layout.info_size + region_count(layout, data) * layout.region_size
}

/// The `i`th region.
pub open spec fn region_at(layout: AreaLayout, data: Seq<u8>, i: int) -> XvcRegionHeader {
    let entry = record::record_of(
        data,
        layout.info_size + i * layout.region_size,
        layout.region_size as int,
    );
    XvcRegionHeader {
        id: layout.region_id.of(entry) as u32,
        key_id: layout.region_key_id.of(entry) as u32,
        first_segment_index: layout.region_first_segment.of(entry) as u32,
        offset: layout.region_offset.of(entry) as u64,
        length: layout.region_length.of(entry) as u64,
    }
}

/// The `i`th update segment.
pub open spec fn update_at(layout: AreaLayout, data: Seq<u8>, i: int) -> XvcUpdateSegment {
    let entry = record::record_of(
        data,
        updates_start(layout, data) + i * layout.update_size,
        layout.update_size as int,
    );
    XvcUpdateSegment { page_num: layout.update_page_num.of(entry) as u32 }
}

/// The first region that is announced but not there.
pub open spec fn missing_region(layout: AreaLayout, data: Seq<u8>) -> Option<int> {
    record::first_missing(
        data.len() as int,
        layout.info_size as int,
        layout.region_size as int,
        region_count(layout, data),
        0,
    )
}

/// The first update segment that is announced but not there.
pub open spec fn missing_update(layout: AreaLayout, data: Seq<u8>) -> Option<int> {
    record::first_missing(
        data.len() as int,
        updates_start(layout, data),
        layout.update_size as int,
        update_count(layout, data),
        0,
    )
}

/// The GUIDs of a sequence, as contracts speak of them.
pub open spec fn id_views(ids: Seq<[u8; 16]>) -> Seq<Seq<u8>> {
    ids.map_values(|id: [u8; 16]| id@)
}

/// The GUIDs of keys that the area information names.
pub open spec fn key_ids_named(layout: AreaLayout, data: Seq<u8>) -> Seq<Seq<u8>> {
    key_ids_listed(layout, area_header(layout, data), layout.key_id_count as int)
}

/// The regions that the area information holds, up to the first that is missing.
pub open spec fn regions_listed(layout: AreaLayout, data: Seq<u8>) -> Seq<XvcRegionHeader> {
    Seq::new(
        (match missing_region(layout, data) {
            Some(i) => i,
            None => region_count(layout, data),
        }) as nat,
        |i: int| region_at(layout, data, i),
    )
}

/// The update segments that the area information holds, up to the first that is missing.
pub open spec fn updates_listed(layout: AreaLayout, data: Seq<u8>) -> Seq<XvcUpdateSegment> {
    Seq::new(
        (match missing_update(layout, data) {
            Some(i) => i,
            None => update_count(layout, data),
        }) as nat,
        |i: int| update_at(layout, data, i),
    )
}

/// Whether all regions and update segments are there.
pub open spec fn area_complete(layout: AreaLayout, data: Seq<u8>) -> bool {
    &&& layout.info_size <= data.len()
    &&& missing_region(layout, data) is None
    &&& missing_update(layout, data) is None
}

/// All regions and update segments are there exactly where the header, the regions and the
/// update segments end within the area information.
pub proof fn area_is_complete_exactly_where_it_fits(layout: AreaLayout, data: Seq<u8>)
    ensures
        area_complete(layout, data) <==> layout.info_size + region_count(layout, data)
            * layout.region_size + update_count(layout, data) * layout.update_size <= data.len(),
{
    let len = data.len() as int;
    let (n, size) = (region_count(layout, data), layout.region_size as int);
    let (m, width) = (update_count(layout, data), layout.update_size as int);
    assert(n * size >= 0) by (nonlinear_arith)
        requires
            n >= 0,
            size >= 0,
    ;
    assert(m * width >= 0) by (nonlinear_arith)
        requires
            m >= 0,
            width >= 0,
    ;
    assert(n == 0 ==> n * size == 0);
    assert(m == 0 ==> m * width == 0);
    record::first_missing_record_is_reported(len, layout.info_size as int, size, n);
    record::first_missing_record_is_reported(len, updates_start(layout, data), width, m);
    if let Some(k) = missing_region(layout, data) {
        assert((k + 1) * size <= n * size) by (nonlinear_arith)
            requires
                k + 1 <= n,
                size >= 0,
        ;
    }
    if let Some(k) = missing_update(layout, data) {
        assert((k + 1) * width <= m * width) by (nonlinear_arith)
            requires
                k + 1 <= m,
                width >= 0,
        ;
    }
}

/// Reads the GUIDs of keys that are not nil, adding them to `ids`.
pub fn read_key_ids(layout: &AreaLayout, header: &[u8], ids: &mut Vec<[u8; 16]>)
    requires
        layout.wf(),
        header@.len() == layout.info_size,
    ensures
        old(ids)@.len() <= final(ids)@.len(),
        final(ids)@.take(old(ids)@.len() as int) == old(ids)@,
        id_views(final(ids)@.skip(old(ids)@.len() as int)) == key_ids_listed(
            *layout,
            header@,
            layout.key_id_count as int,
        ),
{
    let mut k: u32 = 0;
    let ghost n = ids@.len() as int;
    assert(ids@.take(n) =~= old(ids)@);
    assert(id_views(ids@.skip(n)) =~= key_ids_listed(*layout, header@, 0));
    while k < layout.key_id_count
        invariant
            layout.wf(),
            header@.len() == layout.info_size,
            k <= layout.key_id_count,
            n == old(ids)@.len(),
            n <= ids@.len(),
            ids@.take(n) == old(ids)@,
            id_views(ids@.skip(n)) == key_ids_listed(*layout, header@, k as int),
        decreases layout.key_id_count - k,
    {
        assert(header.len() == layout.info_size);
        let stored: [u8; 16] = block_at(header, layout.key_ids as usize + 16 * (k as usize));
        let id: [u8; 16] = if layout.key_id_fields_turned {
            guid::guid_from_stored(stored)
        } else {
            stored
        };
        assert(id@ == key_id_at(*layout, header@, k as int));
        let ghost before = ids@;
        if !guid::guid_is_nil(id) {
            ids.push(id);
            assert(ids@.take(n) =~= before.take(n));
            assert(id_views(ids@.skip(n)) =~= id_views(before.skip(n)).push(id@));
        }
        k = k + 1;
    }
}

/// Reads the regions, adding them to `regions`, up to the first that is missing.
pub fn read_regions(layout: &AreaLayout, data: &[u8], regions: &mut Vec<XvcRegionHeader>) -> (r:
    Result<(), StreamError>)
    requires
        layout.wf(),
        layout.info_size <= data@.len(),
    ensures
        final(regions)@ == old(regions)@ + regions_listed(*layout, data@),
        match missing_region(*layout, data@) {
            Some(i) => r == Err::<(), StreamError>(
                record::missing_record(
                    data@.len() as int,
                    layout.info_size as int,
                    layout.region_size as int,
                    i,
                ),
            ),
            None => r is Ok && updates_start(*layout, data@) <= data@.len(),
        },
{
    let header: &[u8] = &data[0..layout.info_size as usize];
    let count: u64 = layout.region_count.read(header);
    let mut curr: u64 = layout.info_size as u64;
    let mut i: u64 = 0;
    let ghost listed = |k: int| region_at(*layout, data@, k);
    assert(regions@ =~= old(regions)@ + Seq::new(0, listed));
    while i < count
        invariant
            layout.wf(),
            i <= count,
            count == region_count(*layout, data@),
            curr <= data.len(),
            curr == layout.info_size + i * layout.region_size,
            listed == (|k: int| region_at(*layout, data@, k)),
            regions@ == old(regions)@ + Seq::new(i as nat, listed),
            missing_region(*layout, data@) == record::first_missing(
                data@.len() as int,
                layout.info_size as int,
                layout.region_size as int,
                count as int,
                i as int,
            ),
        decreases count - i,
    {
        match read_struct_at(data, curr, layout.region_size) {
            Ok(entry) => {
                let id: u32 = layout.region_id.read(entry) as u32;
                let key_id: u32 = layout.region_key_id.read(entry) as u32;
                let first_segment_index: u32 = layout.region_first_segment.read(entry) as u32;
                let offset: u64 = layout.region_offset.read(entry);
                let length: u64 = layout.region_length.read(entry);
                regions.push(XvcRegionHeader { id, key_id, first_segment_index, offset, length });
                assert(regions@ =~= old(regions)@ + Seq::new((i + 1) as nat, listed));
            },
            Err(error) => {
                return Err(error);
            },
        }
        assert((i + 1) * layout.region_size == i * layout.region_size + layout.region_size)
            by (nonlinear_arith);
        curr = curr + layout.region_size as u64;
        i = i + 1;
    }
    Ok(())
}

/// Reads the update segments, adding them to `updates`, up to the first that is missing.
pub fn read_updates(layout: &AreaLayout, data: &[u8], updates: &mut Vec<XvcUpdateSegment>) -> (r:
    Result<(), StreamError>)
    requires
        layout.wf(),
        layout.info_size <= data@.len(),
        updates_start(*layout, data@) <= data@.len(),
    ensures
        final(updates)@ == old(updates)@ + updates_listed(*layout, data@),
        match missing_update(*layout, data@) {
            Some(i) => r == Err::<(), StreamError>(
                record::missing_record(
                    data@.len() as int,
                    updates_start(*layout, data@),
                    layout.update_size as int,
                    i,
                ),
            ),
            None => r is Ok,
        },
{
    let header: &[u8] = &data[0..layout.info_size as usize];
    let region_total: u64 = layout.region_count.read(header);
    let count: u64 = layout.update_segment_count.read(header);
    assert(region_total * layout.region_size >= 0) by (nonlinear_arith);
    assert(data.len() <= usize::MAX);
    let start: u64 = layout.info_size as u64 + region_total * layout.region_size as u64;
    let mut curr: u64 = start;
    let mut i: u64 = 0;
    let ghost listed = |k: int| update_at(*layout, data@, k);
    assert(updates@ =~= old(updates)@ + Seq::new(0, listed));
    while i < count
        invariant
            layout.wf(),
            i <= count,
            start == updates_start(*layout, data@),
            count == update_count(*layout, data@),
            curr <= data.len(),
            curr == start + i * layout.update_size,
            listed == (|k: int| update_at(*layout, data@, k)),
            updates@ == old(updates)@ + Seq::new(i as nat, listed),
            missing_update(*layout, data@) == record::first_missing(
                data@.len() as int,
                start as int,
                layout.update_size as int,
                count as int,
                i as int,
            ),
        decreases count - i,
    {
        match read_struct_at(data, curr, layout.update_size) {
            Ok(entry) => {
                let page_num: u32 = layout.update_page_num.read(entry) as u32;
                updates.push(XvcUpdateSegment { page_num });
                assert(updates@ =~= old(updates)@ + Seq::new((i + 1) as nat, listed));
            },
            Err(error) => {
                return Err(error);
            },
        }
        assert((i + 1) * layout.update_size == i * layout.update_size + layout.update_size)
            by (nonlinear_arith);
        curr = curr + layout.update_size as u64;
        i = i + 1;
    }
    Ok(())
}

} // verus!
