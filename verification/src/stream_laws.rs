//! What holds of the parts of a package.

use vstd::prelude::*;
use crate::extract;
use crate::hash_tree;
use crate::layout::VolumeBits;
use crate::stream;
use crate::layout::PageCountLayout;
use crate::stream::{
    page_counts, parts_are_addressable, MsiXVDHeader, MsiXVDStream, PageCounts,
};
use crate::hash_tree::HashTreeParams;
use crate::record;

verus! {

/// The parts of a package come in order: the header, the hash tree, the user data and the area
/// information, each beginning no earlier than the one before.
pub proof fn parts_come_in_order(
    opened: MsiXVDStream,
    header: MsiXVDHeader,
    bits: VolumeBits,
)
    requires
        opened.is_opened(header, bits),
    ensures
        stream::XVD_HEADER_INCL_SIGNATURE_SIZE <= opened.hash_tree_page_offset,
        opened.hash_tree_page_offset <= opened.xvd_user_data_offset,
        opened.xvd_user_data_offset <= opened.area_start(),
{
}

/// In the hash tree of a package every level can be looked up without leaving 64 bits.
pub proof fn tree_of_a_package_can_be_looked_up(opened: MsiXVDStream, level: int)
    requires
        opened.wf(),
        0 <= level < opened.hash_tree_levels,
    ensures
        hash_tree::lookup_fits(
            opened.hash_tree_levels as int,
            opened.header.page_counts.hashed as int,
            level,
        ),
{
    hash_tree::lemma_pow170();
}

/// Fewer pages than two to the power 52 have as many bytes as one expects.
pub proof fn page_bytes_of_few_pages(pages: int)
    requires
        0 <= pages < 0x10_0000_0000_0000,
    ensures
        stream::page_bytes(pages) == pages * 0x1000,
{
}

/// Every page of the hash tree that is read for a block lies in the hash tree: behind its
/// beginning, and as a whole before the user data.
pub proof fn hash_pages_lie_before_the_user_data(
    opened: MsiXVDStream,
    header: MsiXVDHeader,
    bits: VolumeBits,
    block: int,
)
    requires
        opened.is_opened(header, bits),
        opened.data_integrity,
        header.kind <= 1,
        stream::hash_tree_page_count(header, bits) < 0x10_0000_0000_0000,
        0 <= block < header.page_counts.hashed,
    ensures
        ({
            let tree = opened.tree();
            let offset = extract::hash_page_offset(tree, extract::block_place(tree, block).0);
            opened.hash_tree_page_offset <= offset && offset + 0x1000
                <= opened.xvd_user_data_offset
        }),
{
    let total = header.page_counts.hashed as int;
    hash_tree::hash_page_is_in_the_tree(total, block, 0, opened.resiliency);
    page_bytes_of_few_pages(stream::hash_tree_page_count(header, bits));
}

/// A package counts as encrypted exactly if its volume attributes have no bit in common with
/// the switch that turns encryption off. No other bit matters: two headers that agree on the
/// switch open alike.
pub proof fn encryption_is_switched_by_its_own_bits(
    bits: VolumeBits,
    a: MsiXVDHeader,
    b: MsiXVDHeader,
    opened: MsiXVDStream,
    other: MsiXVDStream,
)
    requires
        call_ensures(MsiXVDStream::new, (a, &bits), opened),
        call_ensures(MsiXVDStream::new, (b, &bits), other),
    ensures
        opened.is_encrypted == (a.volumes & bits.encryption_disabled == 0),
        a.volumes & bits.encryption_disabled == b.volumes & bits.encryption_disabled
            ==> opened.is_encrypted == other.is_encrypted,
        a.volumes == 0 ==> opened.is_encrypted,
        a.volumes == bits.encryption_disabled && a.volumes != 0 ==> !opened.is_encrypted,
{
    let x = a.volumes;
    let y = bits.encryption_disabled;
    assert(x == 0 ==> x & y == 0) by (bit_vector);
    assert(x & x == x) by (bit_vector);
}

/// A package counts as resilient exactly if its volume attributes have a bit in common with the
/// switch for it, and no other bit matters.
pub proof fn resilience_is_switched_by_its_own_bits(
    bits: VolumeBits,
    a: MsiXVDHeader,
    b: MsiXVDHeader,
    opened: MsiXVDStream,
    other: MsiXVDStream,
)
    requires
        call_ensures(MsiXVDStream::new, (a, &bits), opened),
        call_ensures(MsiXVDStream::new, (b, &bits), other),
    ensures
        opened.resiliency == (a.volumes & bits.resiliency_enabled != 0),
        a.volumes & bits.resiliency_enabled == b.volumes & bits.resiliency_enabled
            ==> opened.resiliency == other.resiliency,
        a.volumes == 0 ==> !opened.resiliency,
        a.volumes == bits.resiliency_enabled && a.volumes != 0 ==> opened.resiliency,
{
    let x = a.volumes;
    let y = bits.resiliency_enabled;
    assert(x == 0 ==> x & y == 0) by (bit_vector);
    assert(x & x == x) by (bit_vector);
}

/// A package has a hash tree exactly if its volume attributes have no bit in common with the
/// switch that turns it off, and no other bit matters.
pub proof fn integrity_is_switched_by_its_own_bits(
    bits: VolumeBits,
    a: MsiXVDHeader,
    b: MsiXVDHeader,
    opened: MsiXVDStream,
    other: MsiXVDStream,
)
    requires
        call_ensures(MsiXVDStream::new, (a, &bits), opened),
        call_ensures(MsiXVDStream::new, (b, &bits), other),
    ensures
        opened.data_integrity == (a.volumes & bits.data_integrity_disabled == 0),
        a.volumes & bits.data_integrity_disabled == b.volumes & bits.data_integrity_disabled
            ==> opened.data_integrity == other.data_integrity,
        a.volumes == 0 ==> opened.data_integrity,
        a.volumes == bits.data_integrity_disabled && a.volumes != 0 ==> !opened.data_integrity,
{
    let x = a.volumes;
    let y = bits.data_integrity_disabled;
    assert(x == 0 ==> x & y == 0) by (bit_vector);
    assert(x & x == x) by (bit_vector);
}

/// The header of an opened package is the one that was given, and nothing has been read of its
/// tables.
pub proof fn opening_keeps_the_header(
    header: MsiXVDHeader,
    bits: VolumeBits,
    opened: MsiXVDStream,
)
    requires
        call_ensures(MsiXVDStream::new, (header, &bits), opened),
    ensures
        opened.header == header,
        opened.segments@.len() == 0,
        opened.segment_paths@.len() == 0,
        opened.xvc_regions@.len() == 0,
        opened.xvc_update_segments@.len() == 0,
        opened.encryption_key_ids@.len() == 0,
{
}

/// Where the parts of a package lie, in plain numbers: the hash tree behind 0x3000 bytes of
/// header, the pages of the embedded package and the mutable data; the user data behind the pages
/// of the hash tree, of which a resilient package has twice as many and one without data
/// integrity none.
pub proof fn parts_lie_behind_each_other(
    header: MsiXVDHeader,
    bits: VolumeBits,
    opened: MsiXVDStream,
)
    requires
        header.page_counts.embedded_xvd < 0x10_0000_0000_0000,
        header.page_counts.hashed < 0x8_0000_0000_0000,
        call_ensures(MsiXVDStream::new, (header, &bits), opened),
    ensures
        ({
            let count = header.page_counts.hashed;
            let lowest = (count + 169) / 170;
            let second = if count > 170 {
                (count + 28899) / 28900
            } else {
                0
            };
            let third = if count > 28900 {
                (count + 4912999) / 4913000
            } else {
                0
            };
            let copies = if header.volumes & bits.resiliency_enabled != 0 {
                2int
            } else {
                1int
            };
            &&& opened.hash_tree_page_offset == 0x3000 + header.page_counts.embedded_xvd * 0x1000
                + header.page_counts.mutable_data_length
            &&& header.volumes & bits.data_integrity_disabled == 0 ==> opened.xvd_user_data_offset
                == opened.hash_tree_page_offset + copies * (lowest + second + third) * 0x1000
            &&& header.volumes & bits.data_integrity_disabled != 0 ==> opened.xvd_user_data_offset
                == opened.hash_tree_page_offset
            &&& opened.hash_tree_levels == (if count <= 170 {
                1int
            } else if count <= 28900 {
                2int
            } else {
                3int
            })
        }),
{
    hash_tree::lemma_pow170();
    reveal_with_fuel(hash_tree::pages_from, 4);
}

/// Pages are counted in bytes by moving their number up by twelve bits, whatever is moved out.
pub proof fn page_numbers_are_shifted(
    header: MsiXVDHeader,
    bits: VolumeBits,
    opened: MsiXVDStream,
    r: u64,
)
    requires
        call_ensures(MsiXVDStream::new, (header, &bits), opened),
        call_ensures(MsiXVDStream::area_info_offset, (&opened,), r),
    ensures
        opened.hash_tree_page_offset == 0x3000 + (header.page_counts.embedded_xvd << 12)
            + header.page_counts.mutable_data_length,
        r == opened.xvd_user_data_offset + (header.page_counts.user_data << 12),
{
    let a = header.page_counts.embedded_xvd;
    let b = header.page_counts.user_data;
    assert((a << 12) == (a * 0x1000) % 0x1_0000_0000_0000_0000) by (bit_vector);
    assert((b << 12) == (b * 0x1000) % 0x1_0000_0000_0000_0000) by (bit_vector);
}

/// A package can be opened exactly where its user data begin below the end of 64 bits.
pub proof fn packages_that_can_be_opened(header: MsiXVDHeader, bits: VolumeBits, r: bool)
    requires
        header.page_counts.embedded_xvd < 0x10_0000_0000_0000,
        header.page_counts.hashed < 0x8_0000_0000_0000,
        call_ensures(parts_are_addressable, (&header, &bits), r),
    ensures
        ({
            let count = header.page_counts.hashed;
            let lowest = (count + 169) / 170;
            let second = if count > 170 {
                (count + 28899) / 28900
            } else {
                0
            };
            let third = if count > 28900 {
                (count + 4912999) / 4913000
            } else {
                0
            };
            let copies = if header.volumes & bits.data_integrity_disabled != 0 {
                0int
            } else if header.volumes & bits.resiliency_enabled != 0 {
                2int
            } else {
                1int
            };
            r == (0x3000 + header.page_counts.embedded_xvd * 0x1000
                + header.page_counts.mutable_data_length + copies * (lowest + second + third)
                * 0x1000 <= u64::MAX)
        }),
{
    hash_tree::lemma_pow170();
    reveal_with_fuel(hash_tree::pages_from, 4);
}

/// The area information lies behind the pages of the user data.
pub proof fn area_information_lies_behind_the_user_data(
    opened: MsiXVDStream,
    addressable: bool,
    r: u64,
)
    requires
        opened.header.page_counts.user_data < 0x10_0000_0000_0000,
        call_ensures(MsiXVDStream::area_is_addressable, (&opened,), addressable),
    ensures
        addressable == (opened.xvd_user_data_offset + opened.header.page_counts.user_data * 0x1000
            <= u64::MAX),
        addressable && call_ensures(MsiXVDStream::area_info_offset, (&opened,), r) ==> r
            == opened.xvd_user_data_offset + opened.header.page_counts.user_data * 0x1000,
{
}

/// The hash tree is described by the numbers and switches of the package.
pub proof fn hash_tree_is_that_of_the_package(opened: MsiXVDStream, r: HashTreeParams)
    requires
        call_ensures(MsiXVDStream::hash_tree_params, (&opened,), r),
    ensures
        r.kind == opened.header.kind,
        r.levels == opened.hash_tree_levels,
        r.total_hashed_pages == opened.header.page_counts.hashed,
        r.resiliency == opened.resiliency,
        r.tree_offset == opened.hash_tree_page_offset,
        r.is_encrypted == opened.is_encrypted,
        r.data_integrity == opened.data_integrity,
{
}

/// Every page count is the least number of pages that hold as many bytes as the header says,
/// the mutable data have as many bytes as their pages, and the hash tree covers the pages of the
/// drive, the user data, the area information and the dynamic header.
pub proof fn page_counts_are_the_least_that_suffice(
    layout: PageCountLayout,
    data: &[u8],
    r: PageCounts,
    drive: int,
    area: int,
    dynamic: int,
)
    requires
        layout.wf(),
        layout.size <= data@.len(),
        call_ensures(page_counts, (&layout, data), r),
        (drive - 1) * 0x1000 < record::le_value(
            data@.subrange(
                layout.drive_size.offset as int,
                layout.drive_size.offset + layout.drive_size.width,
            ),
        ) <= drive * 0x1000,
        (area - 1) * 0x1000 < record::le_value(
            data@.subrange(
                layout.xvc_data_length.offset as int,
                layout.xvc_data_length.offset + layout.xvc_data_length.width,
            ),
        ) <= area * 0x1000,
        (dynamic - 1) * 0x1000 < record::le_value(
            data@.subrange(
                layout.dynamic_header_length.offset as int,
                layout.dynamic_header_length.offset + layout.dynamic_header_length.width,
            ),
        ) <= dynamic * 0x1000,
    ensures
        r.hashed == drive + r.user_data + area + dynamic,
        (r.user_data - 1) * 0x1000 < record::le_value(
            data@.subrange(
                layout.user_data_length.offset as int,
                layout.user_data_length.offset + layout.user_data_length.width,
            ),
        ) <= r.user_data * 0x1000,
        (r.embedded_xvd - 1) * 0x1000 < record::le_value(
            data@.subrange(
                layout.embedded_xvd_length.offset as int,
                layout.embedded_xvd_length.offset + layout.embedded_xvd_length.width,
            ),
        ) <= r.embedded_xvd * 0x1000,
        r.mutable_data_length == 0x1000 * record::le_value(
            data@.subrange(
                layout.mutable_data_pages.offset as int,
                layout.mutable_data_pages.offset + layout.mutable_data_pages.width,
            ),
        ),
{
}

} // verus!
