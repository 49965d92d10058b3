//! Where the numbers of each record stand.
//!
//! The readers of this crate take the places as a value, so that one reader serves every
//! revision of the format.

use vstd::prelude::*;
use crate::record::Field;

verus! {

/// The bits of the volume attributes that decide how a package is read.
#[derive(Debug, Clone, Copy, PartialEq, Eq)]
pub struct VolumeBits {
    pub encryption_disabled: u32,
    pub resiliency_enabled: u32,
    pub data_integrity_disabled: u32,
}

/// The header of a package file.
#[derive(Debug, Clone, Copy, PartialEq, Eq)]
pub struct HeaderLayout {
    pub size: u32,
    pub volumes: Field,
    pub format_version: Field,
    /// The first of the 16 bytes that identify the volume.
    pub vd_uid: u32,
    pub kind: Field,
    pub user_data_length: Field,
    pub xvc_data_length: Field,
    pub package_version1: Field,
    pub package_version2: Field,
    pub package_version3: Field,
    pub package_version4: Field,
}

impl HeaderLayout {
    /// Every field lies within the record and is no wider than its number may be.
    pub open spec fn wf(&self) -> bool {
        &&& self.volumes.fits(self.size, 4)
        &&& self.format_version.fits(self.size, 4)
        &&& self.vd_uid + 16 <= self.size
        &&& self.kind.fits(self.size, 4)
        &&& self.user_data_length.fits(self.size, 4)
        &&& self.xvc_data_length.fits(self.size, 4)
        &&& self.package_version1.fits(self.size, 2)
        &&& self.package_version2.fits(self.size, 2)
        &&& self.package_version3.fits(self.size, 2)
        &&& self.package_version4.fits(self.size, 2)
    }

    /// Whether every field lies within the record and is no wider than its number may be.
    pub fn is_valid(&self) -> (r: bool)
        ensures
            r == self.wf(),
    {
        self.volumes.is_within(self.size, 4) && self.format_version.is_within(self.size, 4)
            && self.vd_uid as u64 + 16 <= self.size as u64 && self.kind.is_within(self.size, 4)
            && self.user_data_length.is_within(self.size, 4) && self.xvc_data_length.is_within(
            self.size,
            4,
        ) && self.package_version1.is_within(self.size, 2) && self.package_version2.is_within(
            self.size,
            2,
        ) && self.package_version3.is_within(self.size, 2) && self.package_version4.is_within(
            self.size,
            2,
        )
    }
}

/// The lengths in the header of a package from which its page counts follow.
#[derive(Debug, Clone, Copy, PartialEq, Eq)]
pub struct PageCountLayout {
    pub size: u32,
    pub drive_size: Field,
    pub embedded_xvd_length: Field,
    /// The mutable data, in pages.
    pub mutable_data_pages: Field,
    pub user_data_length: Field,
    pub xvc_data_length: Field,
    pub dynamic_header_length: Field,
}

impl PageCountLayout {
    /// Every field lies within the record and is no wider than its number may be.
    pub open spec fn wf(&self) -> bool {
        &&& self.drive_size.fits(self.size, 8)
        &&& self.embedded_xvd_length.fits(self.size, 4)
        &&& self.mutable_data_pages.fits(self.size, 4)
        &&& self.user_data_length.fits(self.size, 4)
        &&& self.xvc_data_length.fits(self.size, 4)
        &&& self.dynamic_header_length.fits(self.size, 4)
    }

    /// Whether every field lies within the record and is no wider than its number may be.
    pub fn is_valid(&self) -> (r: bool)
        ensures
            r == self.wf(),
    {
        self.drive_size.is_within(self.size, 8) && self.embedded_xvd_length.is_within(self.size, 4)
            && self.mutable_data_pages.is_within(self.size, 4) && self.user_data_length.is_within(
            self.size,
            4,
        ) && self.xvc_data_length.is_within(self.size, 4) && self.dynamic_header_length.is_within(
            self.size,
            4,
        )
    }
}

/// The user data: a header, the header of the list of package files, and the entries of that
/// list.
#[derive(Debug, Clone, Copy, PartialEq, Eq)]
pub struct UserDataLayout {
    pub header_size: u32,
    pub length: Field,
    pub data_type: Field,
    /// The type of user data that is a list of package files.
    pub package_files: u32,
    pub files_header_size: u32,
    pub file_count: Field,
    pub entry_size: u32,
    /// The first byte of the path of an entry.
    pub entry_path: u32,
    /// How many 16-bit units the path of an entry has room for.
    pub entry_path_units: u32,
    pub entry_length: Field,
    pub entry_offset: Field,
}

impl UserDataLayout {
    /// Every field lies within its record and is no wider than its number may be.
    pub open spec fn wf(&self) -> bool {
        &&& self.length.fits(self.header_size, 4)
        &&& self.data_type.fits(self.header_size, 4)
        &&& self.file_count.fits(self.files_header_size, 4)
        &&& self.entry_path + 2 * self.entry_path_units <= self.entry_size
        &&& self.entry_length.fits(self.entry_size, 4)
        &&& self.entry_offset.fits(self.entry_size, 4)
    }

    /// Whether every field lies within its record and is no wider than its number may be.
    pub fn is_valid(&self) -> (r: bool)
        ensures
            r == self.wf(),
    {
        self.length.is_within(self.header_size, 4) && self.data_type.is_within(self.header_size, 4)
            && self.file_count.is_within(self.files_header_size, 4) && self.entry_path as u64 + 2
            * (self.entry_path_units as u64) <= self.entry_size as u64
            && self.entry_length.is_within(self.entry_size, 4) && self.entry_offset.is_within(
            self.entry_size,
            4,
        )
    }
}

/// The segment metadata: a header, the segments, and their paths.
#[derive(Debug, Clone, Copy, PartialEq, Eq)]
pub struct SegmentLayout {
    pub header_size: u32,
    pub header_length: Field,
    pub segment_count: Field,
    pub entry_size: u32,
    pub path_offset: Field,
    pub path_length: Field,
    pub file_size: Field,
}

impl SegmentLayout {
    /// Every field lies within its record and is no wider than its number may be.
    pub open spec fn wf(&self) -> bool {
        &&& self.header_length.fits(self.header_size, 4)
        &&& self.segment_count.fits(self.header_size, 4)
        &&& self.path_offset.fits(self.entry_size, 4)
        &&& self.path_length.fits(self.entry_size, 4)
        &&& self.file_size.fits(self.entry_size, 8)
    }

    /// Whether every field lies within its record and is no wider than its number may be.
    pub fn is_valid(&self) -> (r: bool)
        ensures
            r == self.wf(),
    {
        self.header_length.is_within(self.header_size, 4) && self.segment_count.is_within(
            self.header_size,
            4,
        ) && self.path_offset.is_within(self.entry_size, 4) && self.path_length.is_within(
            self.entry_size,
            4,
        ) && self.file_size.is_within(self.entry_size, 8)
    }
}

/// The area information: a header with the GUIDs of keys, the regions, and the update segments.
#[derive(Debug, Clone, Copy, PartialEq, Eq)]
pub struct AreaLayout {
    pub info_size: u32,
    /// The first byte of the GUIDs.
    pub key_ids: u32,
    /// How many GUIDs there is room for.
    pub key_id_count: u32,
    /// Whether the first three fields of a GUID are stored least significant byte first.
    pub key_id_fields_turned: bool,
    pub region_count: Field,
    pub update_segment_count: Field,
    pub region_size: u32,
    pub region_id: Field,
    pub region_key_id: Field,
    pub region_first_segment: Field,
    pub region_offset: Field,
    pub region_length: Field,
    pub update_size: u32,
    pub update_page_num: Field,
}

impl AreaLayout {
    /// Every field lies within its record and is no wider than its number may be.
    pub open spec fn wf(&self) -> bool {
        &&& self.key_ids + 16 * self.key_id_count <= self.info_size
        &&& self.region_count.fits(self.info_size, 4)
        &&& self.update_segment_count.fits(self.info_size, 4)
        &&& self.region_id.fits(self.region_size, 4)
        &&& self.region_key_id.fits(self.region_size, 4)
        &&& self.region_first_segment.fits(self.region_size, 4)
        &&& self.region_offset.fits(self.region_size, 8)
        &&& self.region_length.fits(self.region_size, 8)
        &&& self.update_page_num.fits(self.update_size, 4)
    }

    /// Whether every field lies within its record and is no wider than its number may be.
    pub fn is_valid(&self) -> (r: bool)
        ensures
            r == self.wf(),
    {
        self.key_ids as u64 + 16 * (self.key_id_count as u64) <= self.info_size as u64
            && self.region_count.is_within(self.info_size, 4)
            && self.update_segment_count.is_within(self.info_size, 4) && self.region_id.is_within(
            self.region_size,
            4,
        ) && self.region_key_id.is_within(self.region_size, 4)
            && self.region_first_segment.is_within(self.region_size, 4)
            && self.region_offset.is_within(self.region_size, 8) && self.region_length.is_within(
            self.region_size,
            8,
        ) && self.update_page_num.is_within(self.update_size, 4)
    }
}

} // verus!
