//! What is read of the header of a package, by what was written into it.

use vstd::prelude::*;
use crate::layout::HeaderLayout;
use crate::plan::{format_package_version, ExtractPlan};
use crate::key::KeyError;
use crate::record;
use crate::record::{Field, StreamError};
use crate::stream::{parse_file_header, MsiXVDHeader, MsiXVDStream, PageCounts};
use crate::text;

verus! {

/// A number written with `width` bytes, least significant byte first.
pub open spec fn le_written(n: nat, width: nat) -> Seq<u8>
    decreases width,
{
    if width == 0 {
        seq![]
    } else {
        seq![(n % 256) as u8] + le_written(n / 256, (width - 1) as nat)
    }
}

/// The bytes `data` with `bytes` written over those from `at` on.
pub open spec fn overwritten(data: Seq<u8>, at: int, bytes: Seq<u8>) -> Seq<u8> {
    data.take(at) + bytes + data.skip(at + bytes.len())
}

/// A number that has room in `width` bytes is read back from them.
pub proof fn written_number_is_read_back(n: nat, width: nat)
    requires
        n < record::pow256(width),
    ensures
        le_written(n, width).len() == width,
        record::le_value(le_written(n, width)) == n,
    decreases width,
{
    if width > 0 {
        let rest = le_written(n / 256, (width - 1) as nat);
        assert(n / 256 < record::pow256((width - 1) as nat));
        written_number_is_read_back(n / 256, (width - 1) as nat);
        assert(le_written(n, width).skip(1) =~= rest);
        assert(le_written(n, width)[0] == (n % 256) as u8);
    }
}

/// A field reads the number that was written into its bytes.
pub proof fn field_reads_what_was_written(field: Field, data: &[u8], n: nat, r: u64)
    requires
        field.width <= 8,
        field.offset + field.width <= data@.len(),
        n < record::pow256(field.width as nat),
        data@.subrange(field.offset as int, field.offset + field.width) == le_written(
            n,
            field.width as nat,
        ),
        call_ensures(Field::read, (&field, data), r),
    ensures
        r == n,
{
    written_number_is_read_back(n, field.width as nat);
}

proof fn lemma_two_bytes(n: u16)
    ensures
        le_written(n as nat, 2).len() == 2,
        record::le_value(le_written(n as nat, 2)) == n,
{
    reveal_with_fuel(record::pow256, 3);
    written_number_is_read_back(n as nat, 2);
}

/// Every number of a header is the one that stands in the field of its own name, in the bytes
/// at the front of the file; the identity of the volume is copied; the page counts are those
/// that were given.
pub proof fn header_fields_are_read_from_their_own_places(
    layout: HeaderLayout,
    counts: PageCounts,
    data: &[u8],
    r: Result<MsiXVDHeader, StreamError>,
)
    requires
        layout.wf(),
        call_ensures(parse_file_header, (&layout, counts, data), r),
    ensures
        r is Ok <==> layout.size <= data@.len(),
        r is Err ==> r->Err_0 == (StreamError::OutOfBounds {
            size: layout.size as u64,
            offset: 0,
            total: data@.len() as u64,
        }),
        r is Ok ==> {
            let h = r->Ok_0;
            let at = |f: Field| record::le_value(data@.subrange(f.offset as int, f.offset + f.width));
            &&& h.volumes == at(layout.volumes)
            &&& h.format_version == at(layout.format_version)
            &&& h.kind == at(layout.kind)
            &&& h.user_data_length == at(layout.user_data_length)
            &&& h.xvc_data_length == at(layout.xvc_data_length)
            &&& h.package_version1 == at(layout.package_version1)
            &&& h.package_version2 == at(layout.package_version2)
            &&& h.package_version3 == at(layout.package_version3)
            &&& h.package_version4 == at(layout.package_version4)
            &&& h.vd_uid@ == data@.subrange(layout.vd_uid as int, layout.vd_uid + 16)
            &&& h.page_counts == counts
        },
{
    if layout.size <= data@.len() {
        let front = record::record_of(data@, 0, layout.size as int);
        let same = |f: Field|
            front.subrange(f.offset as int, f.offset + f.width) == data@.subrange(
                f.offset as int,
                f.offset + f.width,
            );
        assert(same(layout.volumes)) by {
            lemma_front(data@, layout.size as int, layout.volumes);
        }
        assert(same(layout.format_version)) by {
            lemma_front(data@, layout.size as int, layout.format_version);
        }
        assert(same(layout.kind)) by {
            lemma_front(data@, layout.size as int, layout.kind);
        }
        assert(same(layout.user_data_length)) by {
            lemma_front(data@, layout.size as int, layout.user_data_length);
        }
        assert(same(layout.xvc_data_length)) by {
            lemma_front(data@, layout.size as int, layout.xvc_data_length);
        }
        assert(same(layout.package_version1)) by {
            lemma_front(data@, layout.size as int, layout.package_version1);
        }
        assert(same(layout.package_version2)) by {
            lemma_front(data@, layout.size as int, layout.package_version2);
        }
        assert(same(layout.package_version3)) by {
            lemma_front(data@, layout.size as int, layout.package_version3);
        }
        assert(same(layout.package_version4)) by {
            lemma_front(data@, layout.size as int, layout.package_version4);
        }
        assert(front.subrange(layout.vd_uid as int, layout.vd_uid + 16) =~= data@.subrange(
            layout.vd_uid as int,
            layout.vd_uid + 16,
        ));
    }
}

proof fn lemma_front(data: Seq<u8>, size: int, f: Field)
    requires
        f.offset + f.width <= size <= data.len(),
    ensures
        record::record_of(data, 0, size).subrange(f.offset as int, f.offset + f.width)
            == data.subrange(f.offset as int, f.offset + f.width),
{
    assert(record::record_of(data, 0, size).subrange(f.offset as int, f.offset + f.width)
        =~= data.subrange(f.offset as int, f.offset + f.width));
}

/// Whether two fields have no byte in common.
pub open spec fn apart(a: Field, b: Field) -> bool {
    a.offset + a.width <= b.offset || b.offset + b.width <= a.offset
}

proof fn lemma_overwritten(data: Seq<u8>, f: Field, n: u16)
    requires
        f.width == 2,
        f.offset + 2 <= data.len(),
    ensures
        overwritten(data, f.offset as int, le_written(n as nat, 2)).len() == data.len(),
        overwritten(data, f.offset as int, le_written(n as nat, 2)).subrange(
            f.offset as int,
            f.offset + 2,
        ) == le_written(n as nat, 2),
{
    lemma_two_bytes(n);
    assert(overwritten(data, f.offset as int, le_written(n as nat, 2)).subrange(
        f.offset as int,
        f.offset + 2,
    ) =~= le_written(n as nat, 2));
}

proof fn lemma_overwritten_elsewhere(data: Seq<u8>, f: Field, n: u16, g: Field)
    requires
        f.width == 2,
        f.offset + 2 <= data.len(),
        g.offset + g.width <= data.len(),
        apart(f, g),
    ensures
        overwritten(data, f.offset as int, le_written(n as nat, 2)).subrange(
            g.offset as int,
            g.offset + g.width,
        ) == data.subrange(g.offset as int, g.offset + g.width),
{
    lemma_two_bytes(n);
    assert(overwritten(data, f.offset as int, le_written(n as nat, 2)).subrange(
        g.offset as int,
        g.offset + g.width,
    ) =~= data.subrange(g.offset as int, g.offset + g.width));
}

/// Four numbers written into the four fields of the version, which have no byte in common, are
/// read back in their order, whatever else the header holds.
pub proof fn written_version_is_read_back(
    layout: HeaderLayout,
    counts: PageCounts,
    before: Seq<u8>,
    data: &[u8],
    a: u16,
    b: u16,
    c: u16,
    d: u16,
    r: Result<MsiXVDHeader, StreamError>,
)
    requires
        layout.wf(),
        layout.size <= before.len(),
        layout.package_version1.width == 2,
        layout.package_version2.width == 2,
        layout.package_version3.width == 2,
        layout.package_version4.width == 2,
        apart(layout.package_version1, layout.package_version2),
        apart(layout.package_version1, layout.package_version3),
        apart(layout.package_version1, layout.package_version4),
        apart(layout.package_version2, layout.package_version3),
        apart(layout.package_version2, layout.package_version4),
        apart(layout.package_version3, layout.package_version4),
        data@ == overwritten(
            overwritten(
                overwritten(
                    overwritten(
                        before,
                        layout.package_version1.offset as int,
                        le_written(a as nat, 2),
                    ),
                    layout.package_version2.offset as int,
                    le_written(b as nat, 2),
                ),
                layout.package_version3.offset as int,
                le_written(c as nat, 2),
            ),
            layout.package_version4.offset as int,
            le_written(d as nat, 2),
        ),
        call_ensures(parse_file_header, (&layout, counts, data), r),
    ensures
        r is Ok,
        r->Ok_0.package_version1 == a,
        r->Ok_0.package_version2 == b,
        r->Ok_0.package_version3 == c,
        r->Ok_0.package_version4 == d,
{
    let (f1, f2, f3, f4) = (
        layout.package_version1,
        layout.package_version2,
        layout.package_version3,
        layout.package_version4,
    );
    let d1 = overwritten(before, f1.offset as int, le_written(a as nat, 2));
    let d2 = overwritten(d1, f2.offset as int, le_written(b as nat, 2));
    let d3 = overwritten(d2, f3.offset as int, le_written(c as nat, 2));
    lemma_overwritten(before, f1, a);
    lemma_overwritten(d1, f2, b);
    lemma_overwritten(d2, f3, c);
    lemma_overwritten(d3, f4, d);
    lemma_overwritten_elsewhere(d1, f2, b, f1);
    lemma_overwritten_elsewhere(d2, f3, c, f1);
    lemma_overwritten_elsewhere(d2, f3, c, f2);
    lemma_overwritten_elsewhere(d3, f4, d, f1);
    lemma_overwritten_elsewhere(d3, f4, d, f2);
    lemma_overwritten_elsewhere(d3, f4, d, f3);
    lemma_two_bytes(a);
    lemma_two_bytes(b);
    lemma_two_bytes(c);
    lemma_two_bytes(d);
    header_fields_are_read_from_their_own_places(layout, counts, data, r);
}

/// The version of a package is reported as the four numbers of its header, in their order, with
/// dots between them.
pub proof fn version_is_reported_in_order(
    package: MsiXVDStream,
    r: Result<ExtractPlan, KeyError>,
)
    requires
        call_ensures(MsiXVDStream::extract_to, (&package,), r),
    ensures
        r is Ok,
        r->Ok_0.package_version@ == text::decimal(package.header.package_version1 as nat) + "."@
            + text::decimal(package.header.package_version2 as nat) + "."@ + text::decimal(
            package.header.package_version3 as nat,
        ) + "."@ + text::decimal(package.header.package_version4 as nat),
        r->Ok_0.format_version == package.header.format_version,
{
}

/// Four numbers make a version in their order, with dots between them.
pub proof fn version_has_its_numbers_in_order(a: u16, b: u16, c: u16, d: u16, r: String)
    requires
        call_ensures(format_package_version, (a, b, c, d), r),
    ensures
        r@ == text::decimal(a as nat) + "."@ + text::decimal(b as nat) + "."@ + text::decimal(
            c as nat,
        ) + "."@ + text::decimal(d as nat),
{
}

} // verus!
