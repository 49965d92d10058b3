use bedrock_repacker::extract::{
    job_is_addressable, report_is_due, stage_text, Action, JobRun, CHUNK_SIZE,
};
use bedrock_repacker::hash_tree::{Extensions, HashTreeParams};
use bedrock_repacker::key::KeySignal;
use bedrock_repacker::layout::{
    AreaLayout, HeaderLayout, PageCountLayout, SegmentLayout, UserDataLayout, VolumeBits,
};
use bedrock_repacker::plan::ExtractJob;
use bedrock_repacker::record::{Field, StreamError};
use bedrock_repacker::selection::{get_pre_release_key_bytes, get_release_key_bytes};
use bedrock_repacker::stream::{
    page_counts, parse_file_header, parts_are_addressable, user_data_lies_in_bounds, MsiXVDHeader, MsiXVDStream,
    PageCounts,
};
use bedrock_repacker::tables::{SegmentsAbout, XvcRegionHeader, XvcUpdateSegment};

const BITS: VolumeBits =
    VolumeBits { encryption_disabled: 2, resiliency_enabled: 16, data_integrity_disabled: 4 };

const RELEASE_GUID: [u8; 16] = [
    0xbd, 0xb9, 0xe7, 0x91, 0xc9, 0x7c, 0x37, 0x34, 0xe1, 0xa8, 0xbc, 0x60, 0x25, 0x52, 0xdf, 0x06,
];

const PREVIEW_GUID: [u8; 16] = [
    0x1f, 0x49, 0xd6, 0x3f, 0x8b, 0xf5, 0x1f, 0x8d, 0xed, 0x7e, 0xdb, 0xd8, 0x94, 0x77, 0xda, 0xd9,
];

fn field(offset: u32, width: u32) -> Field {
    Field { offset, width }
}

fn counts(hashed: u64) -> PageCounts {
    PageCounts { embedded_xvd: 1, mutable_data_length: 0x2000, hashed, user_data: 3 }
}

fn header(volumes: u32, hashed: u64) -> MsiXVDHeader {
    let mut vd_uid = [0u8; 16];
    for i in 0..16 {
        vd_uid[i] = 0xa0 + i as u8;
    }
    MsiXVDHeader {
        volumes,
        format_version: 3,
        vd_uid,
        kind: 0,
        user_data_length: 100,
        xvc_data_length: 200,
        package_version1: 1,
        package_version2: 20,
        package_version3: 0,
        package_version4: 5,
        page_counts: counts(hashed),
    }
}

fn segment(file_size: u64) -> SegmentsAbout {
    SegmentsAbout { path_offset: 0, path_length: 0, file_size }
}

fn region(id: u32, key_id: u32, first: u32, offset: u64, length: u64) -> XvcRegionHeader {
    XvcRegionHeader { id, key_id, first_segment_index: first, offset, length }
}

fn opened() -> MsiXVDStream {
    let mut stream = MsiXVDStream::new(header(0, 171), &BITS);
    stream.segments = vec![segment(9), segment(0x1001), segment(0), segment(0x1000)];
    stream.segment_paths = vec!["zero".into(), "one".into(), "two".into(), "three".into()];
    stream
}

#[test]
fn header_is_read() {
    let layout = HeaderLayout {
        size: 48,
        volumes: field(0, 4),
        format_version: field(4, 4),
        vd_uid: 8,
        kind: field(24, 4),
        user_data_length: field(28, 4),
        xvc_data_length: field(32, 4),
        package_version1: field(36, 2),
        package_version2: field(38, 2),
        package_version3: field(40, 2),
        package_version4: field(42, 2),
    };
    assert!(layout.is_valid());
    assert!(!HeaderLayout { vd_uid: 33, ..layout }.is_valid());
    let data: Vec<u8> = (0..50).collect();
    let header = parse_file_header(&layout, counts(9), &data).unwrap();
    assert_eq!(header.volumes, 0x03020100);
    assert_eq!(header.format_version, 0x07060504);
    assert_eq!(header.vd_uid.to_vec(), (8..24).collect::<Vec<u8>>());
    assert_eq!(header.kind, 0x1b1a1918);
    assert_eq!(header.user_data_length, 0x1f1e1d1c);
    assert_eq!(header.xvc_data_length, 0x23222120);
    assert_eq!(header.package_version1, 0x2524);
    assert_eq!(header.package_version4, 0x2b2a);
    assert_eq!(header.page_counts, counts(9));
    assert_eq!(
        parse_file_header(&layout, counts(9), &data[..47]),
        Err(StreamError::OutOfBounds { size: 48, offset: 0, total: 47 })
    );
}

#[test]
fn parts_follow_the_header() {
    let plain = MsiXVDStream::new(header(0, 171), &BITS);
    assert!(plain.is_encrypted && plain.data_integrity && !plain.resiliency);
    assert_eq!(plain.hash_tree_levels, 2);
    assert_eq!(plain.hash_tree_page_offset, 0x1000 + 0x3000 + 0x2000);
    assert_eq!(plain.xvd_user_data_offset, 0x6000 + 3 * 0x1000);
    assert!(plain.area_is_addressable());
    assert_eq!(plain.area_info_offset(), 0x9000 + 3 * 0x1000);
    let resilient = MsiXVDStream::new(header(16, 171), &BITS);
    assert!(resilient.resiliency);
    assert_eq!(resilient.xvd_user_data_offset, 0x6000 + 6 * 0x1000);
    let open = MsiXVDStream::new(header(2 | 4, 171), &BITS);
    assert!(!open.is_encrypted && !open.data_integrity);
    assert_eq!(open.xvd_user_data_offset, 0x6000);
}

#[test]
fn hash_pages_lie_before_the_user_data() {
    let stream = MsiXVDStream::new(header(0, 171), &BITS);
    for block in 0..171 {
        let (page, _) =
            Extensions::compute_hash_block_index(0, stream.hash_tree_levels, 171, block, 0, false);
        let offset = stream.hash_tree_page_offset + page * 0x1000;
        assert!(offset + 0x1000 <= stream.xvd_user_data_offset);
    }
}

#[test]
fn parts_that_leave_the_bits_are_told() {
    assert!(parts_are_addressable(&header(0, 171), &BITS));
    assert!(!parts_are_addressable(&header(0, u64::MAX), &BITS));
    let mut far = header(4, 171);
    far.page_counts.mutable_data_length = u64::MAX - 0x4000;
    assert!(parts_are_addressable(&far, &BITS));
    far.page_counts.embedded_xvd = 2;
    assert!(!parts_are_addressable(&far, &BITS));
    let mut last = header(0, 171);
    last.page_counts.mutable_data_length = u64::MAX - 0x4000;
    assert!(!parts_are_addressable(&last, &BITS));
    let mut stream = MsiXVDStream::new(header(0, 171), &BITS);
    stream.xvd_user_data_offset = u64::MAX;
    assert!(!stream.area_is_addressable());
}

#[test]
fn tables_are_taken_over() {
    let user = UserDataLayout {
        header_size: 8,
        length: field(0, 4),
        data_type: field(4, 4),
        package_files: 0,
        files_header_size: 4,
        file_count: field(0, 4),
        entry_size: 56,
        entry_path: 0,
        entry_path_units: 24,
        entry_length: field(48, 4),
        entry_offset: field(52, 4),
    };
    let segment = SegmentLayout {
        header_size: 8,
        header_length: field(0, 4),
        segment_count: field(4, 4),
        entry_size: 16,
        path_offset: field(4, 4),
        path_length: field(2, 2),
        file_size: field(8, 8),
    };
    let mut data = vec![8u8, 0, 0, 0, 0, 0, 0, 0, 1, 0, 0, 0];
    let mut path: Vec<u8> =
        "SegmentMetadata.bin".encode_utf16().flat_map(|unit| unit.to_le_bytes()).collect();
    path.resize(48, 0);
    data.extend(path);
    data.extend([26, 0, 0, 0, 60, 0, 0, 0]);
    data.extend([8, 0, 0, 0, 1, 0, 0, 0]);
    data.extend([0, 0, 1, 0, 0, 0, 0, 0, 77, 0, 0, 0, 0, 0, 0, 0]);
    data.extend([0x51, 0]);
    assert!(user_data_lies_in_bounds(&user, &segment, &data));
    assert!(!user_data_lies_in_bounds(&user, &segment, &data[..data.len() - 1]));
    let mut stream = MsiXVDStream::new(header(0, 171), &BITS);
    assert_eq!(stream.parse_user_data(&user, &segment, &data), Ok(()));
    assert_eq!(stream.segments.len(), 1);
    assert_eq!(stream.segments[0].file_size, 77);
    assert_eq!(stream.segment_paths, vec!["Q"]);

    let mut empty = MsiXVDStream::new(header(0, 171), &BITS);
    data[8] = 0;
    assert_eq!(empty.parse_user_data(&user, &segment, &data), Ok(()));
    assert_eq!(empty.segments.len(), 0);
    data[4] = 1;
    assert_eq!(
        empty.parse_user_data(&user, &segment, &data),
        Err(StreamError::UnsupportedUserData)
    );

    let area = AreaLayout {
        info_size: 24,
        key_ids: 0,
        key_id_count: 1,
        key_id_fields_turned: true,
        region_count: field(16, 4),
        update_segment_count: field(20, 4),
        region_size: 8,
        region_id: field(0, 1),
        region_key_id: field(1, 1),
        region_first_segment: field(2, 1),
        region_offset: field(3, 2),
        region_length: field(5, 2),
        update_size: 2,
        update_page_num: field(0, 2),
    };
    let mut data = vec![1u8; 16];
    data.extend([1, 0, 0, 0, 1, 0, 0, 0]);
    data.extend([1, 2, 3, 4, 0, 5, 0, 0]);
    data.extend([6, 0]);
    assert_eq!(stream.parse_area_info(&area, &data), Ok(()));
    assert_eq!(stream.encryption_key_ids, vec![[1; 16]]);
    assert_eq!(stream.xvc_regions, vec![region(1, 2, 3, 4, 5)]);
    assert_eq!(stream.xvc_update_segments, vec![XvcUpdateSegment { page_num: 6 }]);
    assert!(empty.parse_area_info(&area, &data[..31]).is_err());
    assert_eq!(empty.encryption_key_ids.len(), 1);
    assert_eq!(empty.xvc_regions.len(), 0);
}

#[test]
fn key_is_chosen_by_guid_and_version() {
    let release = get_release_key_bytes().unwrap();
    let preview = get_pre_release_key_bytes().unwrap();
    let mut stream = opened();
    assert_eq!(stream.select_cik().unwrap().d_key[..], release[32..]);
    stream.encryption_key_ids = vec![[7; 16], PREVIEW_GUID, RELEASE_GUID];
    assert_eq!(stream.select_cik().unwrap().d_key[..], preview[32..]);
    stream.encryption_key_ids = vec![[7; 16], RELEASE_GUID, PREVIEW_GUID];
    assert_eq!(stream.select_cik().unwrap().guid, RELEASE_GUID);
    stream.encryption_key_ids = vec![[7; 16]];
    stream.header.package_version2 = 0;
    assert_eq!(stream.select_cik().unwrap().guid, PREVIEW_GUID);
}

#[test]
fn jobs_follow_the_segments_of_each_region() {
    let mut stream = opened();
    stream.xvc_regions = vec![
        region(9, 1, 0, 0x5000, 0x10_0000),
        region(0x04030201, 2, 1, 0x20000, 0x10_0000),
        region(5, 0xffff, 3, 0x1000, 0x1fff),
    ];
    assert!(stream.jobs_fit());
    let jobs = stream.extract_jobs();
    let mut iv = [0u8; 16];
    iv[4..8].copy_from_slice(&[1, 2, 3, 4]);
    iv[8..].copy_from_slice(&stream.header.vd_uid[..8]);
    let job = |input_offset, file_size, path: &str, decrypt: bool, start_block_index| ExtractJob {
        input_offset,
        file_size,
        path: path.to_string(),
        base_iv: if decrypt { iv } else { [0; 16] },
        should_decrypt: decrypt,
        start_block_index,
    };
    assert_eq!(
        jobs,
        vec![
            job(0x20000, 0x1001, "one", true, 0x17),
            job(0x22000, 0, "two", true, 0x19),
            job(0x23000, 0x1000, "three", true, 0x1a),
            job(0x1000, 0x1000, "three", false, 0),
        ]
    );
    let plan = stream.extract_to().unwrap();
    assert_eq!(plan.jobs, jobs);
    assert_eq!(plan.total_size, 0x3001);
    assert_eq!(plan.package_version, "1.20.0.5");
    assert_eq!(plan.format_version, 3);
    assert_eq!(
        plan.hash_tree,
        HashTreeParams {
            kind: 0,
            levels: 2,
            total_hashed_pages: 171,
            resiliency: false,
            tree_offset: 0x6000,
            is_encrypted: true,
            data_integrity: true,
        }
    );
}

#[test]
fn region_of_the_first_update_is_taken_and_short_regions_end_early() {
    let mut stream = opened();
    stream.xvc_update_segments = vec![XvcUpdateSegment { page_num: 5 }];
    stream.xvc_regions = vec![region(9, 1, 0, 0x5000, 0x2fff), region(9, 1, 0, 0x6000, 0x2fff)];
    let jobs = stream.extract_jobs();
    let places: Vec<(u64, u64)> = jobs.iter().map(|job| (job.input_offset, job.file_size)).collect();
    assert_eq!(places, vec![(0x5000, 9), (0x6000, 0x1001)]);
    stream.xvc_update_segments = vec![XvcUpdateSegment { page_num: 0 }];
    stream.xvc_regions = vec![region(9, 1, 0, 0, 0x3000)];
    assert!(stream.extract_jobs().is_empty());
    stream.is_encrypted = false;
    stream.xvc_regions = vec![region(9, 1, 9, 0, 0x3000), region(9, 1, 1, 0, 0x1000)];
    let jobs = stream.extract_jobs();
    assert_eq!(jobs.len(), 1);
    assert!(!jobs[0].should_decrypt);
}

#[test]
fn plans_that_leave_the_bits_are_told() {
    let mut stream = opened();
    stream.xvc_regions = vec![region(9, 1, 1, u64::MAX - 0x1000, 0x3000)];
    assert!(!stream.jobs_fit());
    stream.xvc_regions = vec![region(9, 1, 1, u64::MAX - 0x2000, 0x2000)];
    assert!(stream.jobs_fit());
    stream.segments[1].file_size = u64::MAX - 0xffe;
    assert!(!stream.jobs_fit());
    stream.segments[1].file_size = u64::MAX - 0xfff;
    assert!(stream.jobs_fit());
    stream.xvc_regions.push(region(9, 1, 3, 0, 0x2000));
    assert!(!stream.jobs_fit());
}

fn tree(total: u64) -> HashTreeParams {
    HashTreeParams {
        kind: 0,
        levels: 1,
        total_hashed_pages: total,
        resiliency: false,
        tree_offset: 0x1000,
        is_encrypted: true,
        data_integrity: true,
    }
}

fn job(file_size: u64, should_decrypt: bool) -> ExtractJob {
    let mut base_iv = [0u8; 16];
    if should_decrypt {
        base_iv[4..].copy_from_slice(&[3; 12]);
    }
    ExtractJob {
        input_offset: 0x3000,
        file_size,
        path: String::new(),
        base_iv,
        should_decrypt,
        start_block_index: 160,
    }
}

fn encrypted_page(d: &KeySignal, t: &KeySignal, plain: &[u8], iv: [u8; 16]) -> Vec<u8> {
    let mut tweak = iv;
    t.encrypt_block(&mut tweak);
    let mut stored = Vec::new();
    for chunk in plain.chunks(16) {
        let mut block = [0u8; 16];
        for i in 0..16 {
            block[i] = chunk[i] ^ tweak[i];
        }
        d.encrypt_block(&mut block);
        stored.extend((0..16).map(|i| block[i] ^ tweak[i]));
        bedrock_repacker::decoder::MsiXVDDecoder::gf128_mul(&mut tweak);
    }
    stored
}

fn run(job: &ExtractJob, tree: &HashTreeParams, image: &[u8], due: bool) -> (Vec<u8>, Vec<Action>) {
    run_in(job, tree, image, due, CHUNK_SIZE, 0x77)
}

fn run_in(
    job: &ExtractJob,
    tree: &HashTreeParams,
    image: &[u8],
    due: bool,
    room: usize,
    rest: u8,
) -> (Vec<u8>, Vec<Action>) {
    let decoder = opened().extract_to().unwrap().decoder;
    assert!(job_is_addressable(job, tree));
    let mut run = JobRun::new(job, room);
    let mut chunk = vec![rest; room];
    let mut out = vec![rest; room];
    let mut hash_page = vec![rest; 0x1000];
    let mut output = Vec::new();
    let mut actions = Vec::new();
    loop {
        let action = run.step(job, tree, &decoder, &chunk, &mut out, &hash_page, due);
        actions.push(action);
        match action {
            Action::ReadChunk { offset, len } => chunk[..len as usize]
                .copy_from_slice(&image[offset as usize..(offset + len) as usize]),
            Action::ReadHashPage { offset } => {
                hash_page.copy_from_slice(&image[offset as usize..offset as usize + 0x1000])
            }
            Action::Write { len, decrypted } => {
                output.extend_from_slice(if decrypted {
                    &out[..len as usize]
                } else {
                    &chunk[..len as usize]
                });
            }
            Action::Report { .. } => {}
            Action::Finish => return (output, actions),
        }
    }
}

#[test]
fn encrypted_file_is_recovered() {
    let raw = get_release_key_bytes().unwrap();
    let t = KeySignal::new(&raw[16..32]).unwrap();
    let d = KeySignal::new(&raw[32..48]).unwrap();
    let job = job(0x10800, true);
    let plain: Vec<u8> = (0..0x11000u32).map(|i| (i * 7 / 3) as u8).collect();
    let mut image = vec![0u8; 0x3000];
    for i in 0..0x2000 {
        image[0x1000 + i] = (i / 5) as u8;
    }
    for page in 0..0x11 {
        let block = 160 + page;
        let mark = 0x1000 + (block / 170) * 0x1000 + (block % 170) * 24 + 20;
        let mut iv = job.base_iv;
        iv[..4].copy_from_slice(&image[mark..mark + 4]);
        let stored = encrypted_page(&d, &t, &plain[page * 0x1000..(page + 1) * 0x1000], iv);
        image.extend(stored);
    }
    let (output, actions) = run(&job, &tree(10), &image, false);
    assert_eq!(output, plain[..0x10800].to_vec());
    for room in [0x1000, 0x3000, 0x11000] {
        assert_eq!(run_in(&job, &tree(10), &image, room == 0x3000, room, 0).0, output);
    }
    assert_eq!(
        actions,
        vec![
            Action::ReadChunk { offset: 0x3000, len: 0x11000 },
            Action::ReadHashPage { offset: 0x1000 },
            Action::ReadHashPage { offset: 0x2000 },
            Action::Write { len: 0x10800, decrypted: true },
            Action::Report { bytes: 0x10800, decrypted: true },
            Action::Finish,
        ]
    );
}

#[test]
fn marks_stand_further_behind_where_the_package_is_not_encrypted() {
    let raw = get_release_key_bytes().unwrap();
    let t = KeySignal::new(&raw[16..32]).unwrap();
    let d = KeySignal::new(&raw[32..48]).unwrap();
    let job = job(5, true);
    let mut params = tree(10);
    params.is_encrypted = false;
    let mut image = vec![0u8; 0x3000];
    let mark = 0x1000 + 160 * 24 + 24;
    image[mark..mark + 4].copy_from_slice(&[1, 2, 3, 4]);
    let mut iv = job.base_iv;
    iv[..4].copy_from_slice(&[1, 2, 3, 4]);
    image.extend(encrypted_page(&d, &t, &[0x42; 0x1000], iv));
    assert_eq!(run(&job, &params, &image, false).0, vec![0x42; 5]);
    params.data_integrity = false;
    let mut image = vec![0u8; 0x3000];
    image.extend(encrypted_page(&d, &t, &[0x43; 0x1000], job.base_iv));
    assert_eq!(run(&job, &params, &image, false).0, vec![0x43; 5]);
}

#[test]
fn plain_file_is_copied_in_chunks() {
    let size = 2 * CHUNK_SIZE as u64 + 10;
    let job = job(size, false);
    let image: Vec<u8> = (0..0x3000 + size as usize + 0x1000).map(|i| (i % 251) as u8).collect();
    let (output, actions) = run(&job, &tree(10), &image, false);
    assert!(output == image[0x3000..0x3000 + size as usize]);
    let chunk = CHUNK_SIZE as u64;
    assert_eq!(
        actions,
        vec![
            Action::ReadChunk { offset: 0x3000, len: chunk },
            Action::Write { len: chunk, decrypted: false },
            Action::Report { bytes: chunk, decrypted: false },
            Action::ReadChunk { offset: 0x3000 + chunk, len: chunk },
            Action::Write { len: chunk, decrypted: false },
            Action::Report { bytes: chunk, decrypted: false },
            Action::ReadChunk { offset: 0x3000 + 2 * chunk, len: 0x1000 },
            Action::Write { len: 10, decrypted: false },
            Action::Report { bytes: 10, decrypted: false },
            Action::Finish,
        ]
    );
}

#[test]
fn due_report_comes_at_once_and_empty_file_needs_nothing() {
    let image = vec![1u8; 0x4000];
    let (output, actions) = run(&job(3, false), &tree(10), &image, true);
    assert_eq!(output, vec![1; 3]);
    assert_eq!(
        actions,
        vec![
            Action::ReadChunk { offset: 0x3000, len: 0x1000 },
            Action::Write { len: 3, decrypted: false },
            Action::Report { bytes: 3, decrypted: false },
            Action::Finish,
        ]
    );
    assert_eq!(run(&job(0, true), &tree(10), &image, true), (vec![], vec![Action::Finish]));
}

#[test]
fn jobs_that_leave_the_bits_are_told() {
    assert!(job_is_addressable(&job(0x10800, true), &tree(10)));
    assert!(!job_is_addressable(&job(u64::MAX, false), &tree(10)));
    let mut far = job(0x1001, true);
    far.input_offset = u64::MAX - 0x1fff;
    assert!(!job_is_addressable(&far, &tree(10)));
    far.input_offset = u64::MAX - 0x2000;
    assert!(job_is_addressable(&far, &tree(10)));
    far.start_block_index = u64::MAX;
    assert!(!job_is_addressable(&far, &tree(10)));
    let mut late = tree(10);
    late.tree_offset = u64::MAX - 0xfff;
    assert!(job_is_addressable(&job(1, true), &late));
    assert!(!job_is_addressable(&job(0xb000, true), &late));
    assert!(job_is_addressable(&job(0xb000, false), &late));
    let mut shallow = tree(10);
    shallow.levels = 0;
    assert!(!job_is_addressable(&job(1, true), &shallow));
    shallow.kind = 2;
    assert!(job_is_addressable(&job(1, true), &shallow));
}

#[test]
fn reports_say_what_is_done_and_when() {
    assert_eq!(stage_text(true), "Расшифровка файлов...");
    assert_eq!(stage_text(false), "Копирование файлов...");
    assert!(!report_is_due(199));
    assert!(report_is_due(200));
}

#[test]
fn page_counts_round_up() {
    let layout = PageCountLayout {
        size: 28,
        drive_size: field(0, 8),
        embedded_xvd_length: field(8, 4),
        mutable_data_pages: field(12, 1),
        user_data_length: field(16, 4),
        xvc_data_length: field(20, 4),
        dynamic_header_length: field(24, 4),
    };
    assert!(layout.is_valid());
    assert!(!PageCountLayout { size: 27, ..layout }.is_valid());
    let mut data: Vec<u8> = 0x5001u64.to_le_bytes().to_vec();
    for number in [0x1000u32, 3, 0x1001, 1, 0] {
        data.extend(number.to_le_bytes());
    }
    assert_eq!(
        page_counts(&layout, &data),
        PageCounts { embedded_xvd: 1, mutable_data_length: 0x3000, hashed: 6 + 2 + 1, user_data: 2 }
    );
    data[..8].copy_from_slice(&[0xff; 8]);
    assert_eq!(page_counts(&layout, &data).hashed, 0x10_0000_0000_0000 + 3);
}
