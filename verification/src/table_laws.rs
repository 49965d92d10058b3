//! What is read of the tables of a package, by where it stands in the bytes.

use vstd::prelude::*;
use crate::guid;
use crate::layout::{AreaLayout, SegmentLayout, UserDataLayout};
use crate::record;
use crate::record::{Field, StreamError};
use crate::stream::{user_data_lies_in_bounds, MsiXVDStream};
use crate::tables;
use crate::tables::{locate_segment_metadata, paths_lie_in_bounds};
use crate::text;

verus! {

/// The number in a field of the record that begins at `start`.
pub open spec fn number_at(data: Seq<u8>, start: int, field: Field) -> nat {
    record::le_value(
        data.subrange(start + field.offset, start + field.offset + field.width),
    )
}

proof fn lemma_number_of_record(data: Seq<u8>, start: int, size: int, field: Field)
    requires
        0 <= start,
        start + size <= data.len(),
        field.offset + field.width <= size,
    ensures
        field.of(record::record_of(data, start, size)) == number_at(data, start, field),
{
    assert(record::record_of(data, start, size).subrange(
        field.offset as int,
        field.offset + field.width,
    ) =~= data.subrange(start + field.offset, start + field.offset + field.width));
}

/// Fields of a few bytes hold small numbers.
proof fn lemma_small_number(data: Seq<u8>, start: int, field: Field)
    requires
        0 <= start,
        start + field.offset + field.width <= data.len(),
    ensures
        field.width <= 4 ==> number_at(data, start, field) <= u32::MAX,
        field.width <= 8 ==> number_at(data, start, field) <= u64::MAX,
{
    let bytes = data.subrange(start + field.offset, start + field.offset + field.width);
    record::lemma_le_value_bound(bytes);
    record::lemma_pow256_bounds(field.width as nat);
}

/// Segments stand behind the header of the metadata, one record after the other; their paths
/// begin behind the length that the header gives and 16 bytes for each segment, however large
/// their records are. There the path of a segment has two bytes for each of its units, from its
/// own offset on, and NUL characters around it are left out.
pub proof fn segments_stand_in_the_metadata(
    package: &mut MsiXVDStream,
    layout: SegmentLayout,
    data: &[u8],
    r: Result<(), StreamError>,
    i: int,
)
    requires
        layout.wf(),
        old(package).segments@.len() == 0,
        old(package).segment_paths@.len() == 0,
        call_ensures(MsiXVDStream::parse_segment_metadata, (package, &layout, data), r),
    ensures
        ({
            let count = number_at(data@, 0, layout.segment_count) as int;
            let paths = number_at(data@, 0, layout.header_length) + 16 * count;
            let at = layout.header_size + i * layout.entry_size;
            &&& r is Ok ==> layout.header_size <= data@.len()
            &&& layout.header_size <= data@.len() ==> (r is Ok <==> layout.header_size + count
                * layout.entry_size <= data@.len())
            &&& r is Ok ==> final(package).segments@.len() == count
            &&& r is Ok ==> final(package).segment_paths@.len() == count
            &&& r is Ok && 0 <= i < count ==> {
                let segment = final(package).segments@[i];
                let from = paths + segment.path_offset;
                &&& segment.path_offset == number_at(data@, at, layout.path_offset)
                &&& segment.path_length == number_at(data@, at, layout.path_length)
                &&& segment.file_size == number_at(data@, at, layout.file_size)
                &&& final(package).segment_paths@[i]@ == text::nul_trimmed(
                    text::utf16_lossy(
                        record::utf16_units(
                            data@.subrange(from, from + 2 * segment.path_length),
                        ),
                    ),
                )
            }
            &&& final(package).header == old(package).header
            &&& final(package).xvc_regions == old(package).xvc_regions
            &&& final(package).xvc_update_segments == old(package).xvc_update_segments
            &&& final(package).encryption_key_ids == old(package).encryption_key_ids
        }),
{
    if layout.header_size <= data@.len() {
        lemma_number_of_record(data@, 0, layout.header_size as int, layout.segment_count);
        lemma_number_of_record(data@, 0, layout.header_size as int, layout.header_length);
        tables::segments_are_complete_exactly_where_they_fit(layout, data@);
        let count = tables::segment_count(layout, data@);
        let paths = text::texts(final(package).segment_paths@);
        assert(final(package).segment_paths@.len() == paths.len());
        if r is Ok && 0 <= i < count {
            let size = layout.entry_size as int;
            let at = layout.header_size + i * size;
            assert(0 <= i * size && i * size + size <= count * size) by (nonlinear_arith)
                requires
                    0 <= i < count,
                    0 <= size,
            ;
            lemma_number_of_record(data@, at, size, layout.path_offset);
            lemma_number_of_record(data@, at, size, layout.path_length);
            lemma_number_of_record(data@, at, size, layout.file_size);
            lemma_small_number(data@, at, layout.path_offset);
            lemma_small_number(data@, at, layout.path_length);
            lemma_small_number(data@, at, layout.file_size);
            assert(final(package).segments@[i] == tables::segment_at(layout, data@, i));
            assert(final(package).segment_paths@[i]@ == paths[i]);
        }
    }
}

/// Where the path of the `i`th segment ends: its offset and two bytes for each of its units
/// behind the length that the header gives and 16 bytes for each segment.
pub open spec fn path_ends_at(layout: SegmentLayout, data: Seq<u8>, i: int) -> nat {
    let at = layout.header_size + i * layout.entry_size;
    number_at(data, 0, layout.header_length) + 16 * number_at(data, 0, layout.segment_count)
        + number_at(data, at, layout.path_offset) + 2 * number_at(data, at, layout.path_length)
}

/// The paths lie within the metadata exactly if none ends beyond it, where the segments are all
/// there.
pub proof fn paths_end_within_the_metadata(layout: SegmentLayout, data: &[u8], r: bool)
    requires
        layout.wf(),
        layout.header_size + number_at(data@, 0, layout.segment_count) * layout.entry_size
            <= data@.len(),
        layout.header_size <= data@.len(),
        call_ensures(paths_lie_in_bounds, (&layout, data), r),
    ensures
        r <==> forall|i: int|
            0 <= i < number_at(data@, 0, layout.segment_count) ==> #[trigger] path_ends_at(
                layout,
                data@,
                i,
            ) <= data@.len(),
{
    lemma_number_of_record(data@, 0, layout.header_size as int, layout.segment_count);
    lemma_number_of_record(data@, 0, layout.header_size as int, layout.header_length);
    tables::segments_are_complete_exactly_where_they_fit(layout, data@);
    let count = tables::segment_count(layout, data@);
    let size = layout.entry_size as int;
    assert forall|i: int| 0 <= i < count implies #[trigger] tables::path_end(layout, data@, i)
        == path_ends_at(layout, data@, i) by {
        let at = layout.header_size + i * size;
        assert(0 <= i * size && i * size + size <= count * size) by (nonlinear_arith)
            requires
                0 <= i < count,
                0 <= size,
        ;
        lemma_number_of_record(data@, at, size, layout.path_offset);
        lemma_number_of_record(data@, at, size, layout.path_length);
        lemma_small_number(data@, at, layout.path_offset);
        lemma_small_number(data@, at, layout.path_length);
    }
    assert forall|i: int| 0 <= i < count implies tables::path_end(layout, data@, i)
        == #[trigger] path_ends_at(layout, data@, i) by {
        assert(tables::path_end(layout, data@, i) == path_ends_at(layout, data@, i));
    }
}

/// Where the `i`th entry of the list of package files begins: behind the length that the header
/// of the user data gives, the header of the list and the entries before it.
pub open spec fn entry_begins_at(layout: UserDataLayout, data: Seq<u8>, i: int) -> int {
    number_at(data, 0, layout.length) + layout.files_header_size + i * layout.entry_size
}

/// Whether the `i`th entry of the list has the name of the segment metadata: as the text of its
/// units before the first that is zero, of the room that it has for them.
pub open spec fn is_metadata(layout: UserDataLayout, data: Seq<u8>, i: int) -> bool {
    let path = entry_begins_at(layout, data, i) + layout.entry_path;
    text::utf16_lossy(
        record::before_nul(
            record::utf16_units(data.subrange(path, path + 2 * layout.entry_path_units)),
        ),
    ) == "SegmentMetadata.bin"@
}

/// Whether `range` is what the `i`th entry says, counted from the end of the header of the user
/// data.
pub open spec fn is_range_of(
    layout: UserDataLayout,
    data: Seq<u8>,
    i: int,
    range: (int, int),
) -> bool {
    let at = entry_begins_at(layout, data, i);
    &&& range.0 == number_at(data, 0, layout.length) + number_at(data, at, layout.entry_offset)
    &&& range.1 == range.0 + number_at(data, at, layout.entry_length)
}

/// The segment metadata is looked for in the entries of the list of package files. The list
/// begins where the header of the user data says that it ends, and the entries stand behind the
/// header of the list. The first entry with the name of the metadata counts; its range begins as
/// far behind the end of the header of the user data as the entry says.
pub proof fn metadata_is_looked_for_in_the_list(
    layout: UserDataLayout,
    data: &[u8],
    r: Result<Option<(u64, u64)>, StreamError>,
)
    requires
        layout.wf(),
        call_ensures(locate_segment_metadata, (&layout, data), r),
    ensures
        layout.header_size > data@.len() ==> r is Err,
        layout.header_size <= data@.len() ==> {
            let list = number_at(data@, 0, layout.length) as int;
            let count = number_at(data@, list, layout.file_count) as int;
            let other = number_at(data@, 0, layout.data_type) != layout.package_files;
            &&& other <==> r == Err::<Option<(u64, u64)>, StreamError>(
                StreamError::UnsupportedUserData,
            )
            &&& !other && list + layout.files_header_size > data@.len() ==> r is Err
            &&& !other && r is Err ==> list + layout.files_header_size > data@.len()
                || entry_begins_at(layout, data@, count) > data@.len()
            &&& r is Ok && r->Ok_0 is Some ==> {
                let (from, to) = r->Ok_0->0;
                exists|i: int|
                    {
                        &&& 0 <= i < count
                        &&& #[trigger] is_metadata(layout, data@, i)
                        &&& is_range_of(layout, data@, i, (from as int, to as int))
                        &&& forall|k: int| 0 <= k < i ==> !#[trigger] is_metadata(layout, data@, k)
                    }
            }
            &&& r is Ok && r->Ok_0 is None ==> forall|k: int|
                0 <= k < count ==> !#[trigger] is_metadata(layout, data@, k)
        },
{
    if layout.header_size <= data@.len() {
        lemma_number_of_record(data@, 0, layout.header_size as int, layout.length);
        lemma_number_of_record(data@, 0, layout.header_size as int, layout.data_type);
        let length = tables::user_header_length(layout, data@);
        if tables::entries_start(layout, data@) <= data@.len() {
            lemma_number_of_record(
                data@,
                length,
                layout.files_header_size as int,
                layout.file_count,
            );
            lemma_search(layout, data@, 0);
            if let Ok(Some(range)) = tables::metadata_range_from(layout, data@, 0) {
                let i = choose|i: int| finds(layout, data@, 0, i, range);
                assert(finds(layout, data@, 0, i, range));
                assert(is_metadata(layout, data@, i));
            }
        }
    }
}

/// Whether the `j`th entry is the first, from the `i`th on, with the name of the metadata, and
/// has the range.
spec fn finds(layout: UserDataLayout, data: Seq<u8>, i: int, j: int, range: (int, int)) -> bool {
    &&& i <= j < tables::file_count(layout, data)
    &&& is_metadata(layout, data, j)
    &&& is_range_of(layout, data, j, range)
    &&& forall|k: int| i <= k < j ==> !#[trigger] is_metadata(layout, data, k)
}

proof fn lemma_search(layout: UserDataLayout, data: Seq<u8>, i: int)
    requires
        layout.wf(),
        layout.header_size <= data.len(),
        tables::entries_start(layout, data) <= data.len(),
        number_at(data, 0, layout.length) == tables::user_header_length(layout, data),
        0 <= i,
    ensures
        match tables::metadata_range_from(layout, data, i) {
            Ok(Some(range)) => exists|j: int| finds(layout, data, i, j, range),
            Ok(None) => forall|k: int|
                i <= k < tables::file_count(layout, data) ==> !#[trigger] is_metadata(
                    layout,
                    data,
                    k,
                ),
            Err(error) => error is OutOfBounds && entry_begins_at(
                layout,
                data,
                tables::file_count(layout, data),
            ) > data.len(),
        },
    decreases tables::file_count(layout, data) - i,
{
    let count = tables::file_count(layout, data);
    let size = layout.entry_size as int;
    let at = entry_begins_at(layout, data, i);
    assert(0 <= i * size) by (nonlinear_arith)
        requires
            0 <= i,
            0 <= size,
    ;
    assert((i + 1) * size == i * size + size) by (nonlinear_arith);
    if i < count {
        if at + size > data.len() {
            assert((i + 1) * size <= count * size) by (nonlinear_arith)
                requires
                    i + 1 <= count,
                    0 <= size,
            ;
        } else {
            let entry = tables::entry_at(layout, data, i);
            lemma_number_of_record(data, at, size, layout.entry_offset);
            lemma_number_of_record(data, at, size, layout.entry_length);
            assert(entry.subrange(
                layout.entry_path as int,
                layout.entry_path + 2 * layout.entry_path_units,
            ) =~= data.subrange(
                at + layout.entry_path,
                at + layout.entry_path + 2 * layout.entry_path_units,
            ));
            assert(is_metadata(layout, data, i) == (tables::entry_path(layout, entry)
                == "SegmentMetadata.bin"@));
            if is_metadata(layout, data, i) {
                let range = tables::metadata_range_from(layout, data, i)->Ok_0->0;
                assert(finds(layout, data, i, i, range));
            } else {
                lemma_search(layout, data, i + 1);
                if let Ok(Some(range)) = tables::metadata_range_from(layout, data, i + 1) {
                    let next = i + 1;
                    let j = choose|j: int| finds(layout, data, next, j, range);
                    assert(finds(layout, data, next, j, range));
                    assert(finds(layout, data, i, j, range));
                }
            }
        }
    }
}

/// Regions stand behind the header of the area information and update segments behind the
/// regions, one record after the other. Where all are there they are added behind what the
/// package had, each number from the field of its own name.
pub proof fn regions_stand_in_the_area_information(
    package: &mut MsiXVDStream,
    layout: AreaLayout,
    data: &[u8],
    r: Result<(), StreamError>,
    i: int,
)
    requires
        layout.wf(),
        call_ensures(MsiXVDStream::parse_area_info, (package, &layout, data), r),
    ensures
        r is Ok ==> layout.info_size <= data@.len(),
        layout.info_size <= data@.len() ==> {
            let regions = number_at(data@, 0, layout.region_count) as int;
            let updates = number_at(data@, 0, layout.update_segment_count) as int;
            let behind = layout.info_size + regions * layout.region_size;
            let had = old(package).xvc_regions@.len() as int;
            let was = old(package).xvc_update_segments@.len() as int;
            &&& r is Ok <==> behind + updates * layout.update_size <= data@.len()
            &&& r is Ok ==> final(package).xvc_regions@.len() == had + regions
            &&& r is Ok ==> final(package).xvc_update_segments@.len() == was + updates
            &&& r is Ok && 0 <= i < regions ==> {
                let region = final(package).xvc_regions@[had + i];
                let at = layout.info_size + i * layout.region_size;
                &&& region.id == number_at(data@, at, layout.region_id)
                &&& region.key_id == number_at(data@, at, layout.region_key_id)
                &&& region.first_segment_index == number_at(data@, at, layout.region_first_segment)
                &&& region.offset == number_at(data@, at, layout.region_offset)
                &&& region.length == number_at(data@, at, layout.region_length)
            }
            &&& r is Ok && 0 <= i < updates ==> final(package).xvc_update_segments@[was
                + i].page_num == number_at(
                data@,
                behind + i * layout.update_size,
                layout.update_page_num,
            )
        },
        0 <= i < old(package).xvc_regions@.len() ==> final(package).xvc_regions@[i] == old(package).xvc_regions@[i],
        0 <= i < old(package).xvc_update_segments@.len() ==> final(package).xvc_update_segments@[i] == old(package).xvc_update_segments@[i],
        final(package).header == old(package).header,
        final(package).segments == old(package).segments,
        final(package).segment_paths == old(package).segment_paths,
{
    if layout.info_size <= data@.len() {
        lemma_number_of_record(data@, 0, layout.info_size as int, layout.region_count);
        lemma_number_of_record(data@, 0, layout.info_size as int, layout.update_segment_count);
        tables::area_is_complete_exactly_where_it_fits(layout, data@);
        let regions = tables::region_count(layout, data@);
        let updates = tables::update_count(layout, data@);
        let behind = tables::updates_start(layout, data@);
        let size = layout.region_size as int;
        let width = layout.update_size as int;
        assert(0 <= updates * width) by (nonlinear_arith)
            requires
                0 <= updates,
                0 <= width,
        ;
        assert(0 <= regions * size) by (nonlinear_arith)
            requires
                0 <= regions,
                0 <= size,
        ;
        if r is Ok && 0 <= i < regions {
            let at = layout.info_size + i * size;
            assert(0 <= i * size && i * size + size <= regions * size) by (nonlinear_arith)
                requires
                    0 <= i < regions,
                    0 <= size,
            ;
            lemma_number_of_record(data@, at, size, layout.region_id);
            lemma_number_of_record(data@, at, size, layout.region_key_id);
            lemma_number_of_record(data@, at, size, layout.region_first_segment);
            lemma_number_of_record(data@, at, size, layout.region_offset);
            lemma_number_of_record(data@, at, size, layout.region_length);
            lemma_small_number(data@, at, layout.region_id);
            lemma_small_number(data@, at, layout.region_key_id);
            lemma_small_number(data@, at, layout.region_first_segment);
            lemma_small_number(data@, at, layout.region_offset);
            lemma_small_number(data@, at, layout.region_length);
        }
        if r is Ok && 0 <= i < updates {
            let at = behind + i * width;
            assert(0 <= i * width && i * width + width <= updates * width) by (nonlinear_arith)
                requires
                    0 <= i < updates,
                    0 <= width,
            ;
            lemma_number_of_record(data@, at, width, layout.update_page_num);
            lemma_small_number(data@, at, layout.update_page_num);
        }
    }
}

/// The bytes of the `k`th GUID in the header of the area information, in written order.
pub open spec fn guid_in_slot(layout: AreaLayout, data: Seq<u8>, k: int) -> Seq<u8> {
    let b = data.subrange(layout.key_ids + 16 * k, layout.key_ids + 16 * k + 16);
    if layout.key_id_fields_turned {
        seq![b[3], b[2], b[1], b[0], b[5], b[4], b[7], b[6]] + b.skip(8)
    } else {
        b
    }
}

/// Whether one of 16 bytes is not zero.
pub open spec fn some_byte_is_set(id: Seq<u8>) -> bool {
    exists|i: int| 0 <= i < 16 && #[trigger] id[i] != 0
}

/// How many of the first `n` GUIDs have a byte that is not zero.
pub open spec fn guids_before(layout: AreaLayout, data: Seq<u8>, n: int) -> int
    decreases n,
{
    if n <= 0 {
        0
    } else {
        guids_before(layout, data, n - 1) + if some_byte_is_set(
            guid_in_slot(layout, data, n - 1),
        ) {
            1int
        } else {
            0int
        }
    }
}

/// The GUIDs of keys that are not all zeros are added behind those that the package had, every
/// one of them, in the order of their slots.
pub proof fn key_guids_are_kept_in_order(
    package: &mut MsiXVDStream,
    layout: AreaLayout,
    data: &[u8],
    r: Result<(), StreamError>,
    k: int,
)
    requires
        layout.wf(),
        layout.info_size <= data@.len(),
        call_ensures(MsiXVDStream::parse_area_info, (package, &layout, data), r),
        0 <= k < layout.key_id_count,
    ensures
        ({
            let had = old(package).encryption_key_ids@.len() as int;
            let ids = final(package).encryption_key_ids@;
            let id = guid_in_slot(layout, data@, k);
            &&& ids.len() == had + guids_before(layout, data@, layout.key_id_count as int)
            &&& ids.take(had) == old(package).encryption_key_ids@
            &&& some_byte_is_set(id) ==> had + guids_before(layout, data@, k)
                < ids.len() && ids[had + guids_before(layout, data@, k)]@ == id
        }),
{
    let had = old(package).encryption_key_ids@.len() as int;
    let ids = final(package).encryption_key_ids@;
    let added = ids.skip(had);
    let header = tables::area_header(layout, data@);
    lemma_guids_listed(layout, data@, layout.key_id_count as int, k);
    assert(tables::id_views(added).len() == added.len());
    assert(ids.take(had) =~= old(package).encryption_key_ids@);
    let at = guids_before(layout, data@, k);
    if some_byte_is_set(guid_in_slot(layout, data@, k)) {
        assert(tables::id_views(added)[at] == added[at]@);
        assert(added[at] == ids[had + at]);
    }
}

proof fn lemma_guids_listed(layout: AreaLayout, data: Seq<u8>, n: int, k: int)
    requires
        layout.wf(),
        layout.info_size <= data.len(),
        0 <= n <= layout.key_id_count,
    ensures
        ({
            let listed = tables::key_ids_listed(layout, tables::area_header(layout, data), n);
            let id = guid_in_slot(layout, data, k);
            &&& listed.len() == guids_before(layout, data, n)
            &&& 0 <= k < n && some_byte_is_set(id) ==> 0 <= guids_before(
                layout,
                data,
                k,
            ) < listed.len() && listed[guids_before(layout, data, k)] == id
        }),
    decreases n,
{
    if n > 0 {
        let header = tables::area_header(layout, data);
        lemma_guids_listed(layout, data, n - 1, k);
        let id = tables::key_id_at(layout, header, n - 1);
        let slot = guid_in_slot(layout, data, n - 1);
        assert(header.subrange(layout.key_ids + 16 * (n - 1), layout.key_ids + 16 * (n - 1) + 16)
            =~= data.subrange(layout.key_ids + 16 * (n - 1), layout.key_ids + 16 * (n - 1) + 16));
        assert(id =~= slot);
        if some_byte_is_set(slot) {
            let i = choose|i: int| 0 <= i < 16 && #[trigger] slot[i] != 0;
            assert(!guid::is_nil(id));
        } else {
            assert(guid::is_nil(id));
        }
    }
}

/// The user data can be read wherever the range of the segment metadata, if there is one, ends
/// within them and the paths end within the metadata.
pub proof fn user_data_that_can_be_read(
    user: UserDataLayout,
    segment: SegmentLayout,
    data: &[u8],
    metadata: &[u8],
    located: Result<Option<(u64, u64)>, StreamError>,
    paths: bool,
    r: bool,
)
    requires
        user.wf(),
        segment.wf(),
        call_ensures(locate_segment_metadata, (&user, data), located),
        call_ensures(user_data_lies_in_bounds, (&user, &segment, data), r),
        call_ensures(paths_lie_in_bounds, (&segment, metadata), paths),
    ensures
        !(located is Ok && located->Ok_0 is Some) ==> r,
        located is Ok && located->Ok_0 is Some ==> {
            let (from, to) = located->Ok_0->0;
            &&& to > data@.len() ==> !r
            &&& to <= data@.len() && metadata@ == data@.subrange(from as int, to as int) ==> r
                == paths
        },
{
}

/// Reading the user data is reading the segment metadata where they are located; without them
/// nothing is read, and what goes wrong in the search is handed on.
pub proof fn user_data_hold_the_metadata(
    package: &mut MsiXVDStream,
    other: &mut MsiXVDStream,
    user: UserDataLayout,
    segment: SegmentLayout,
    data: &[u8],
    metadata: &[u8],
    located: Result<Option<(u64, u64)>, StreamError>,
    r: Result<(), StreamError>,
    q: Result<(), StreamError>,
)
    requires
        call_ensures(locate_segment_metadata, (&user, data), located),
        call_ensures(MsiXVDStream::parse_user_data, (package, &user, &segment, data), r),
        call_ensures(MsiXVDStream::parse_segment_metadata, (other, &segment, metadata), q),
        *old(other) == *old(package),
    ensures
        located is Err ==> r == Err::<(), StreamError>(located->Err_0) && *final(package) == *old(package),
        located == Ok::<Option<(u64, u64)>, StreamError>(None) ==> r is Ok && *final(package)
            == *old(package),
        located is Ok && located->Ok_0 is Some ==> {
            let (from, to) = located->Ok_0->0;
            metadata@ == data@.subrange(from as int, to as int) ==> {
                &&& r is Ok <==> q is Ok
                &&& r is Err ==> r == q
                &&& final(package).segments@ == final(other).segments@
                &&& text::texts(final(package).segment_paths@) == text::texts(
                    final(other).segment_paths@,
                )
            }
        },
{
}

} // verus!
