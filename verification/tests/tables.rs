use bedrock_repacker::layout::{AreaLayout, SegmentLayout, UserDataLayout, VolumeBits};
use bedrock_repacker::record::{read_struct_at, Field, StreamError};
use bedrock_repacker::stream::{MsiXVDHeader, MsiXVDStream, PageCounts};
use bedrock_repacker::tables::{
    locate_segment_metadata, paths_lie_in_bounds, SegmentsAbout, XvcRegionHeader, XvcUpdateSegment,
};

fn package() -> MsiXVDStream {
    let header = MsiXVDHeader {
        volumes: 0,
        format_version: 0,
        vd_uid: [0; 16],
        kind: 0,
        user_data_length: 0,
        xvc_data_length: 0,
        package_version1: 0,
        package_version2: 0,
        package_version3: 0,
        package_version4: 0,
        page_counts: PageCounts { embedded_xvd: 0, mutable_data_length: 0, hashed: 1, user_data: 0 },
    };
    let bits =
        VolumeBits { encryption_disabled: 1, resiliency_enabled: 2, data_integrity_disabled: 4 };
    MsiXVDStream::new(header, &bits)
}

fn segments_of(data: &[u8]) -> (MsiXVDStream, Result<(), StreamError>) {
    let mut stream = package();
    let outcome = stream.parse_segment_metadata(&segment_layout(), data);
    (stream, outcome)
}

fn area_of(turned: bool, data: &[u8]) -> (MsiXVDStream, Result<(), StreamError>) {
    let mut stream = package();
    let outcome = stream.parse_area_info(&area_layout(turned), data);
    (stream, outcome)
}

fn field(offset: u32, width: u32) -> Field {
    Field { offset, width }
}

fn segment_layout() -> SegmentLayout {
    SegmentLayout {
        header_size: 8,
        header_length: field(0, 4),
        segment_count: field(4, 4),
        entry_size: 16,
        path_offset: field(4, 4),
        path_length: field(2, 2),
        file_size: field(8, 8),
    }
}

fn user_layout() -> UserDataLayout {
    UserDataLayout {
        header_size: 8,
        length: field(0, 4),
        data_type: field(4, 4),
        package_files: 7,
        files_header_size: 4,
        file_count: field(0, 4),
        entry_size: 56,
        entry_path: 0,
        entry_path_units: 24,
        entry_length: field(48, 4),
        entry_offset: field(52, 4),
    }
}

fn area_layout(turned: bool) -> AreaLayout {
    AreaLayout {
        info_size: 56,
        key_ids: 0,
        key_id_count: 3,
        key_id_fields_turned: turned,
        region_count: field(48, 4),
        update_segment_count: field(52, 4),
        region_size: 32,
        region_id: field(0, 4),
        region_key_id: field(4, 2),
        region_first_segment: field(8, 4),
        region_offset: field(16, 8),
        region_length: field(24, 8),
        update_size: 12,
        update_page_num: field(0, 4),
    }
}

fn segment_entry(path_length: u16, path_offset: u32, file_size: u64) -> Vec<u8> {
    let mut entry = vec![0u8; 2];
    entry.extend(path_length.to_le_bytes());
    entry.extend(path_offset.to_le_bytes());
    entry.extend(file_size.to_le_bytes());
    entry
}

fn utf16(text: &str) -> Vec<u8> {
    text.encode_utf16().flat_map(|unit| unit.to_le_bytes()).collect()
}

fn two_segments() -> Vec<u8> {
    let mut data = vec![8, 0, 0, 0, 2, 0, 0, 0];
    data.extend(segment_entry(5, 0, 5000));
    data.extend(segment_entry(3, 10, 0));
    data.extend(utf16("a/ä\u{0}\u{0}"));
    data.extend(utf16("\u{0}b\u{0}"));
    data
}

fn user_data(name: &str, length: u32, offset: u32, behind: &[u8]) -> Vec<u8> {
    let mut data = vec![8, 0, 0, 0, 7, 0, 0, 0, 2, 0, 0, 0];
    for (name, length, offset) in [("Other.bin", 1u32, 2u32), (name, length, offset)] {
        let mut path = utf16(name);
        path.resize(48, 0);
        data.extend(path);
        data.extend(length.to_le_bytes());
        data.extend(offset.to_le_bytes());
    }
    data.extend_from_slice(behind);
    data
}

fn area(ids: [[u8; 16]; 3], regions: u32, updates: u32) -> Vec<u8> {
    let mut data: Vec<u8> = ids.concat();
    data.extend(regions.to_le_bytes());
    data.extend(updates.to_le_bytes());
    data
}

fn region_entry(id: u32, key_id: u16, first: u32, offset: u64, length: u64) -> Vec<u8> {
    let mut entry: Vec<u8> = id.to_le_bytes().to_vec();
    entry.extend(key_id.to_le_bytes());
    entry.extend([0xee; 2]);
    entry.extend(first.to_le_bytes());
    entry.extend([0xee; 4]);
    entry.extend(offset.to_le_bytes());
    entry.extend(length.to_le_bytes());
    entry
}

#[test]
fn layouts_are_checked() {
    assert!(segment_layout().is_valid());
    assert!(user_layout().is_valid());
    assert!(area_layout(true).is_valid());
    assert!(!SegmentLayout { header_size: 7, ..segment_layout() }.is_valid());
    assert!(!UserDataLayout { entry_path_units: 29, ..user_layout() }.is_valid());
    assert!(!AreaLayout { key_id_count: 4, ..area_layout(true) }.is_valid());
}

#[test]
fn numbers_are_read_least_significant_byte_first() {
    let record = [1, 2, 3, 4, 5, 6, 7, 8, 9];
    assert_eq!(field(1, 2).read(&record), 0x0302);
    assert_eq!(field(0, 8).read(&record), 0x0807_0605_0403_0201);
    assert_eq!(field(5, 0).read(&record), 0);
}

#[test]
fn records_outside_the_buffer_are_refused() {
    assert_eq!(read_struct_at(&[1, 2, 3, 4], 1, 3).unwrap(), &[2, 3, 4]);
    let error = read_struct_at(&[1, 2, 3, 4], 2, 3).unwrap_err();
    assert_eq!(error, StreamError::OutOfBounds { size: 3, offset: 2, total: 4 });
    assert_eq!(error.message(), "读取越界: 需要 3 字节，偏移 2，总长 4");
    assert!(read_struct_at(&[], u64::MAX, 1).is_err());
    assert!(read_struct_at(&[], 0, 0).is_ok());
}

#[test]
fn segments_and_their_paths_are_read() {
    let data = two_segments();
    assert!(paths_lie_in_bounds(&segment_layout(), &data));
    let (table, outcome) = segments_of(&data);
    assert_eq!(outcome, Ok(()));
    assert_eq!(
        table.segments,
        vec![
            SegmentsAbout { path_offset: 0, path_length: 5, file_size: 5000 },
            SegmentsAbout { path_offset: 10, path_length: 3, file_size: 0 },
        ]
    );
    assert_eq!(table.segment_paths, vec!["a/ä", "b"]);
}

#[test]
fn lone_surrogates_are_replaced() {
    let mut data = vec![8, 0, 0, 0, 1, 0, 0, 0];
    data.extend(segment_entry(4, 0, 1));
    data.extend([0x3d, 0xd8, 0x00, 0xde, 0x3d, 0xd8, 0x41, 0x00]);
    let (table, outcome) = segments_of(&data);
    assert_eq!(outcome, Ok(()));
    assert_eq!(table.segment_paths, vec!["\u{1f600}\u{fffd}A"]);
}

#[test]
fn missing_segments_are_reported() {
    let data = two_segments();
    let (table, outcome) = segments_of(&data[..39]);
    assert_eq!(outcome, Err(StreamError::OutOfBounds { size: 16, offset: 24, total: 39 }));
    assert_eq!(table.segments.len(), 1);
    assert!(table.segment_paths.is_empty());
    let (table, outcome) = segments_of(&data[..7]);
    assert_eq!(outcome, Err(StreamError::OutOfBounds { size: 8, offset: 0, total: 7 }));
    assert!(table.segments.is_empty());
}

#[test]
fn paths_outside_the_metadata_are_noticed() {
    let data = two_segments();
    assert!(!paths_lie_in_bounds(&segment_layout(), &data[..data.len() - 1]));
    assert!(paths_lie_in_bounds(&segment_layout(), &data[..39]));
    assert!(paths_lie_in_bounds(&segment_layout(), &[]));
}

#[test]
fn segment_metadata_is_located() {
    let data = user_data("SegmentMetadata.bin", 6, 100, &[]);
    assert_eq!(locate_segment_metadata(&user_layout(), &data), Ok(Some((108, 114))));
    let data = user_data("segmentmetadata.bin", 6, 100, &[]);
    assert_eq!(locate_segment_metadata(&user_layout(), &data), Ok(None));
}

#[test]
fn unreadable_user_data_is_reported() {
    let mut data = user_data("SegmentMetadata.bin", 6, 100, &[]);
    assert_eq!(
        locate_segment_metadata(&user_layout(), &data[..100]),
        Err(StreamError::OutOfBounds { size: 56, offset: 68, total: 100 })
    );
    assert_eq!(
        locate_segment_metadata(&user_layout(), &data[..11]),
        Err(StreamError::OutOfBounds { size: 4, offset: 8, total: 11 })
    );
    assert_eq!(
        locate_segment_metadata(&user_layout(), &data[..7]),
        Err(StreamError::OutOfBounds { size: 8, offset: 0, total: 7 })
    );
    data[4] = 6;
    let error = locate_segment_metadata(&user_layout(), &data[..8]).unwrap_err();
    assert_eq!(error, StreamError::UnsupportedUserData);
    assert_eq!(error.message(), "Unsupported UserData type");
}

#[test]
fn an_entry_that_is_found_hides_missing_ones() {
    let mut data = user_data("x", 6, 100, &[]);
    data.truncate(12);
    let mut path = utf16("SegmentMetadata.bin");
    path.resize(48, 0);
    data.extend(path);
    data.extend([1, 0, 0, 0, 0, 0, 0, 0]);
    assert_eq!(locate_segment_metadata(&user_layout(), &data), Ok(Some((8, 9))));
}

#[test]
fn area_information_is_read() {
    let mut id = [0u8; 16];
    for i in 0..16 {
        id[i] = i as u8;
    }
    let mut data = area([[0; 16], id, [9; 16]], 2, 1);
    data.extend(region_entry(3, 0xffff, 4, 0x5000, 0x6000));
    data.extend(region_entry(7, 1, 0, 0x1_0000_0000, 1));
    data.extend([0x21, 0x43, 0, 0, 1, 1, 1, 1, 1, 1, 1, 1]);
    let (info, outcome) = area_of(false, &data);
    assert_eq!(outcome, Ok(()));
    assert_eq!(info.encryption_key_ids, vec![id, [9; 16]]);
    assert_eq!(
        info.xvc_regions,
        vec![
            XvcRegionHeader {
                id: 3,
                key_id: 0xffff,
                first_segment_index: 4,
                offset: 0x5000,
                length: 0x6000
            },
            XvcRegionHeader {
                id: 7,
                key_id: 1,
                first_segment_index: 0,
                offset: 0x1_0000_0000,
                length: 1
            },
        ]
    );
    assert_eq!(info.xvc_update_segments, vec![XvcUpdateSegment { page_num: 0x4321 }]);
    let (turned, _) = area_of(true, &data);
    assert_eq!(
        turned.encryption_key_ids[0],
        [3, 2, 1, 0, 5, 4, 7, 6, 8, 9, 10, 11, 12, 13, 14, 15]
    );
}

#[test]
fn incomplete_area_information_is_reported() {
    let ids = [[0; 16]; 3];
    let data = area(ids, 0, 0);
    assert_eq!(
        area_of(true, &data[..55]).1,
        Err(StreamError::OutOfBounds { size: 56, offset: 0, total: 55 })
    );
    assert_eq!(area_of(true, &data).1, Ok(()));
    let mut data = area(ids, 1, 1);
    assert_eq!(
        area_of(true, &data).1,
        Err(StreamError::OutOfBounds { size: 32, offset: 56, total: 56 })
    );
    data.extend(region_entry(1, 1, 1, 1, 1));
    assert_eq!(
        area_of(true, &data).1,
        Err(StreamError::OutOfBounds { size: 12, offset: 88, total: 88 })
    );
}

#[test]
fn area_information_is_added_to_what_the_package_has() {
    let ids = [[1; 16], [0; 16], [1; 16]];
    let mut data = area(ids, 1, 1);
    data.extend(region_entry(1, 1, 1, 1, 1));
    data.extend([5, 0, 0, 0, 0, 0, 0, 0, 0, 0, 0, 0]);
    let (mut stream, _) = area_of(false, &data);
    data[56] = 2;
    data[88] = 6;
    assert_eq!(stream.parse_area_info(&area_layout(false), &data), Ok(()));
    assert_eq!(stream.encryption_key_ids, vec![[1; 16]; 4]);
    let numbers: Vec<u32> = stream.xvc_regions.iter().map(|region| region.id).collect();
    assert_eq!(numbers, vec![1, 2]);
    let pages: Vec<u32> = stream.xvc_update_segments.iter().map(|u| u.page_num).collect();
    assert_eq!(pages, vec![5, 6]);
    assert!(stream.segments.is_empty());
}

#[test]
fn what_stands_before_a_missing_record_is_kept() {
    let mut data = area([[1; 16]; 3], 2, 1);
    data.extend(region_entry(7, 1, 1, 1, 1));
    let (stream, outcome) = area_of(false, &data);
    assert_eq!(outcome, Err(StreamError::OutOfBounds { size: 32, offset: 88, total: 88 }));
    assert_eq!(stream.encryption_key_ids.len(), 3);
    assert_eq!(stream.xvc_regions.len(), 1);
    assert!(stream.xvc_update_segments.is_empty());
}
