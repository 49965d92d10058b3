//! What holds of texts: what was written is read back.

use vstd::prelude::*;
use crate::hexadecimal;
use crate::hexadecimal::hex_digits_of;
use crate::reading::{Fill, FillStep, ReadOutcome};
use crate::record;
use crate::extract::{report_is_due, stage_text};
use crate::repack;
use crate::repack::{
    archive_arguments, is_directory_output_path, name_for_lowered, package_name, unpack_arguments,
};
use crate::text;
use crate::text::{append_decimal, trim_nul};

verus! {

/// The number that decimal digits stand for, the first counting most.
pub open spec fn decimal_value(s: Seq<char>) -> int
    decreases s.len(),
{
    if s.len() == 0 {
        0
    } else {
        10 * decimal_value(s.drop_last()) + (s.last() as int - '0' as int)
    }
}

/// A number in decimal has digits alone, stands for the number, and begins with a zero only
/// where it is one.
pub proof fn decimal_is_read_back(n: nat)
    ensures
        text::decimal(n).len() > 0,
        forall|i: int|
            0 <= i < text::decimal(n).len() ==> '0' <= #[trigger] text::decimal(n)[i] <= '9',
        decimal_value(text::decimal(n)) == n,
        text::decimal(n)[0] == '0' ==> n == 0,
    decreases n,
{
    reveal_with_fuel(decimal_value, 2);
    if n >= 10 {
        decimal_is_read_back(n / 10);
        assert(text::decimal(n).drop_last() =~= text::decimal(n / 10));
    } else {
        assert(text::decimal(n).drop_last() =~= seq![]);
    }
}

/// A number is added to the end of a text, which otherwise stays as it was.
pub proof fn number_is_added_to_the_text(text: &mut String, n: u64, r: ())
    requires
        call_ensures(append_decimal, (text, n), r),
    ensures
        ({
            let added = final(text)@.skip(old(text)@.len() as int);
            &&& final(text)@ == old(text)@ + added
            &&& added.len() > 0
            &&& decimal_value(added) == n
        }),
{
    decimal_is_read_back(n as nat);
    assert(final(text)@.skip(old(text)@.len() as int) =~= text::decimal(n as nat));
}

/// Trimming takes NUL characters alone from both ends of a text, and leaves none there.
pub proof fn trimming_takes_nul_characters_alone(text: &str, r: String)
    requires
        call_ensures(trim_nul, (text,), r),
    ensures
        r@.len() > 0 ==> r@[0] != '\0' && r@.last() != '\0',
        exists|from: int, to: int| #[trigger] trims_to(text@, from, to, r@),
{
    lemma_trimmed_ends(text@);
    let (from, to) = lemma_trimmed(text@);
    assert(trims_to(text@, from, to, r@));
}

/// Whether `t` is what stands in `s` from `from` on and before `to`, with NUL characters alone
/// around it.
pub open spec fn trims_to(s: Seq<char>, from: int, to: int, t: Seq<char>) -> bool {
    &&& 0 <= from <= to <= s.len()
    &&& t == s.subrange(from, to)
    &&& forall|i: int| 0 <= i < from || to <= i < s.len() ==> #[trigger] s[i] == '\0'
}

proof fn lemma_trimmed_ends(s: Seq<char>)
    ensures
        text::nul_trimmed(s).len() > 0 ==> text::nul_trimmed(s)[0] != '\0' && text::nul_trimmed(
            s,
        ).last() != '\0',
    decreases s.len(),
{
    if s.len() > 0 && s[0] == '\0' {
        lemma_trimmed_ends(s.skip(1));
    } else if s.len() > 0 && s.last() == '\0' {
        lemma_trimmed_ends(s.drop_last());
    }
}

proof fn lemma_trimmed(s: Seq<char>) -> (place: (int, int))
    ensures
        trims_to(s, place.0, place.1, text::nul_trimmed(s)),
    decreases s.len(),
{
    if s.len() > 0 && s[0] == '\0' {
        let (from, to) = lemma_trimmed(s.skip(1));
        assert(s.skip(1).subrange(from, to) =~= s.subrange(from + 1, to + 1));
        assert forall|i: int| 0 <= i < from + 1 || to + 1 <= i < s.len() implies #[trigger] s[i]
            == '\0' by {
            if i > 0 {
                assert(s.skip(1)[i - 1] == '\0');
            }
        }
        (from + 1, to + 1)
    } else if s.len() > 0 && s.last() == '\0' {
        let (from, to) = lemma_trimmed(s.drop_last());
        assert(s.drop_last().subrange(from, to) =~= s.subrange(from, to));
        assert forall|i: int| 0 <= i < from || to <= i < s.len() implies #[trigger] s[i]
            == '\0' by {
            if i < s.len() - 1 {
                assert(s.drop_last()[i] == '\0');
            }
        }
        (from, to)
    } else {
        assert(s.subrange(0, s.len() as int) =~= s);
        (0, s.len() as int)
    }
}

/// A text in UTF-16 code units: one for a character below 0x10000, otherwise two surrogates with
/// ten bits each of what is above.
pub open spec fn utf16_written(s: Seq<char>) -> Seq<u16>
    decreases s.len(),
{
    if s.len() == 0 {
        seq![]
    } else {
        let c = s[0] as u32;
        let units = if c < 0x10000 {
            seq![c as u16]
        } else {
            seq![
                (0xd800 + (c - 0x10000) / 0x400) as u16,
                (0xdc00 + (c - 0x10000) % 0x400) as u16,
            ]
        };
        units + utf16_written(s.skip(1))
    }
}

/// A character in front of a text goes into UTF-16 and back.
proof fn lemma_character(c: char, rest: Seq<u16>)
    ensures
        ({
            let n = c as u32;
            let units = if n < 0x10000 {
                seq![n as u16]
            } else {
                seq![
                    (0xd800 + (n - 0x10000) / 0x400) as u16,
                    (0xdc00 + (n - 0x10000) % 0x400) as u16,
                ]
            };
            text::utf16_lossy(units + rest) == seq![c] + text::utf16_lossy(rest)
        }),
{
    let n = c as u32;
    if n < 0x10000 {
        let units = seq![n as u16] + rest;
        assert(units.skip(1) =~= rest);
        assert(units[0] == n);
        assert(units[0] as char == c);
    } else {
        let units = seq![
            (0xd800 + (n - 0x10000) / 0x400) as u16,
            (0xdc00 + (n - 0x10000) % 0x400) as u16,
        ] + rest;
        assert(units.skip(2) =~= rest);
        assert(units[0] == 0xd800 + (n - 0x10000) / 0x400);
        assert(units[1] == 0xdc00 + (n - 0x10000) % 0x400);
        assert(0x10000 + (units[0] - 0xd800) * 0x400 + (units[1] - 0xdc00) == n);
    }
}

/// A text written in UTF-16 is read back.
pub proof fn utf16_is_read_back(s: Seq<char>)
    ensures
        text::utf16_lossy(utf16_written(s)) == s,
    decreases s.len(),
{
    if s.len() > 0 {
        utf16_is_read_back(s.skip(1));
        lemma_character(s[0], utf16_written(s.skip(1)));
        assert(seq![s[0]] + s.skip(1) =~= s);
    } else {
        assert(text::utf16_lossy(utf16_written(s)) =~= s);
    }
}

/// Code units written with two bytes each, the lower first.
pub open spec fn units_written(units: Seq<u16>) -> Seq<u8> {
    Seq::new(
        2 * units.len(),
        |i: int|
            if i % 2 == 0 {
                (units[i / 2] % 256) as u8
            } else {
                (units[i / 2] / 256) as u8
            },
    )
}

/// Code units are read back from their bytes.
pub proof fn units_are_read_back(units: Seq<u16>)
    ensures
        record::utf16_units(units_written(units)) == units,
{
    let bytes = units_written(units);
    assert forall|i: int| 0 <= i < units.len() implies record::utf16_units(bytes)[i]
        == units[i] by {
        assert(bytes[2 * i] == (units[i] % 256) as u8);
        assert(bytes[2 * i + 1] == (units[i] / 256) as u8);
    }
    assert(record::utf16_units(bytes) =~= units);
}

/// Of units that end with a zero, and whatever follows it, those before it are taken, if none of
/// them is zero; without a zero all are.
pub proof fn units_end_before_the_first_zero(units: Seq<u16>, rest: Seq<u16>)
    requires
        forall|i: int| 0 <= i < units.len() ==> #[trigger] units[i] != 0,
    ensures
        record::before_nul(units + seq![0u16] + rest) == units,
        record::before_nul(units) == units,
    decreases units.len(),
{
    let all = units + seq![0u16] + rest;
    if units.len() > 0 {
        let tail = units.skip(1);
        assert forall|i: int| 0 <= i < tail.len() implies #[trigger] tail[i] != 0 by {
            assert(tail[i] == units[i + 1]);
        }
        units_end_before_the_first_zero(tail, rest);
        assert(all.skip(1) =~= tail + seq![0u16] + rest);
        assert(all[0] == units[0]);
        assert(seq![units[0]] + tail =~= units);
    } else {
        assert(all[0] == 0);
        assert(record::before_nul(all) =~= units);
        assert(record::before_nul(units) =~= units);
    }
}

/// Of a text the hexadecimal digits are kept, those of either case and no other character, in
/// their order.
pub proof fn hexadecimal_digits_are_kept(s: Seq<char>, c: char)
    ensures
        hexadecimal::hex_digits(seq![]) == Seq::<u8>::empty(),
        (0x30 <= c as u32 <= 0x39) || (0x41 <= c as u32 <= 0x46) || (0x61 <= c as u32 <= 0x66)
            ==> hexadecimal::hex_digits(s.push(c)) == hexadecimal::hex_digits(s).push(c as u8),
        !((0x30 <= c as u32 <= 0x39) || (0x41 <= c as u32 <= 0x46) || (0x61 <= c as u32 <= 0x66))
            ==> hexadecimal::hex_digits(s.push(c)) == hexadecimal::hex_digits(s),
{
    assert(s.push(c).drop_last() =~= s);
    assert(s.push(c).last() == c);
}

/// The digits of a text and of the same text with one more character differ by that character
/// if it is a digit.
pub proof fn further_digit_is_kept(text: &str, longer: &str, c: char, r: Vec<u8>, q: Vec<u8>)
    requires
        longer@ == text@.push(c),
        call_ensures(hex_digits_of, (text,), r),
        call_ensures(hex_digits_of, (longer,), q),
    ensures
        (0x30 <= c as u32 <= 0x39) || (0x41 <= c as u32 <= 0x46) || (0x61 <= c as u32 <= 0x66)
            ==> q@ == r@.push(c as u8),
        !((0x30 <= c as u32 <= 0x39) || (0x41 <= c as u32 <= 0x46) || (0x61 <= c as u32 <= 0x66))
            ==> q@ == r@,
        text@.len() == 0 ==> r@.len() == 0,
{
    hexadecimal_digits_are_kept(text@, c);
}

/// A package is stored as an `appx` file exactly if its address ends so.
pub proof fn package_is_named_by_the_end_of_its_address(address: &str, r: String)
    requires
        call_ensures(name_for_lowered, (address,), r),
    ensures
        ({
            let n = address@.len();
            let appx = n >= 5 && address@[n - 5] == '.' && address@[n - 4] == 'a' && address@[n
                - 3] == 'p' && address@[n - 2] == 'p' && address@[n - 1] == 'x';
            &&& appx ==> r@ == "original_package.appx"@
            &&& !appx ==> r@ == "original_package.msixvc"@
        }),
{
    reveal_strlit(".appx");
    let n = address@.len();
    if n >= 5 {
        let end = address@.skip(n - 5);
        assert(end[0] == address@[n - 5] && end[1] == address@[n - 4] && end[2] == address@[n - 3]
            && end[3] == address@[n - 2] && end[4] == address@[n - 1]);
        if end[0] == '.' && end[1] == 'a' && end[2] == 'p' && end[3] == 'p' && end[4] == 'x' {
            assert(end =~= ".appx"@);
        }
    }
}

/// The name of a package is that for its address in lower case.
pub proof fn case_of_the_address_does_not_matter(
    url: &str,
    other: &str,
    lowered: &str,
    r: String,
    q: String,
    name: String,
)
    requires
        call_ensures(package_name, (url,), r),
        call_ensures(package_name, (other,), q),
        call_ensures(name_for_lowered, (lowered,), name),
    ensures
        repack::lowercase(url@) == lowered@ ==> r@ == name@,
        repack::lowercase(url@) == repack::lowercase(other@) ==> r@ == q@,
{
}

/// The archiver is told to unpack the package into the directory.
pub proof fn archiver_unpacks_into_the_directory(package: &str, dir: &str, r: Vec<String>)
    requires
        call_ensures(unpack_arguments, (package, dir), r),
    ensures
        r@.len() == 3,
        r@[0]@ == "x"@,
        r@[1]@ == package@,
        r@[2]@.len() == dir@.len() + 2,
        r@[2]@.take(2) == "-o"@,
        r@[2]@.skip(2) == dir@,
{
    reveal_strlit("-o");
    let views = text::texts(r@);
    assert(views.len() == r@.len());
    assert(views[0] == r@[0]@ && views[1] == r@[1]@ && views[2] == r@[2]@);
    assert(r@[2]@.take(2) =~= "-o"@);
    assert(r@[2]@.skip(2) =~= dir@);
}

/// The archiver is told to pack what the directory holds into the archive, with parts of the
/// given size.
pub proof fn archiver_packs_the_directory(
    volume_size: &str,
    archive: &str,
    dir: &str,
    r: Vec<String>,
)
    requires
        call_ensures(archive_arguments, (volume_size, archive, dir), r),
    ensures
        r@.len() == 5,
        r@[0]@ == "a"@,
        r@[1]@ == "-mx=3"@,
        r@[2]@.take(2) == "-v"@,
        r@[2]@.skip(2) == volume_size@,
        r@[3]@ == archive@,
        r@[4]@.take(dir@.len() as int) == dir@,
        r@[4]@.skip(dir@.len() as int) == "/*"@,
{
    reveal_strlit("-v");
    let views = text::texts(r@);
    assert(views.len() == r@.len());
    assert(views[0] == r@[0]@ && views[1] == r@[1]@ && views[2] == r@[2]@ && views[3] == r@[3]@
        && views[4] == r@[4]@);
    assert(r@[2]@.take(2) =~= "-v"@);
    assert(r@[2]@.skip(2) =~= volume_size@);
    assert(r@[4]@.take(dir@.len() as int) =~= dir@);
    assert(r@[4]@.skip(dir@.len() as int) =~= "/*"@);
}

/// A report is due a fifth of a second after the last one, and no earlier.
pub proof fn reports_are_due_every_fifth_of_a_second(a: u128, b: u128, r: bool, q: bool)
    requires
        call_ensures(report_is_due, (a,), r),
        call_ensures(report_is_due, (b,), q),
    ensures
        r <==> 5 * a >= 1000,
        r && a <= b ==> q,
{
}

/// Decrypting and copying are told apart.
pub proof fn stages_are_told_apart(decrypted: bool, r: &'static str)
    requires
        call_ensures(stage_text, (decrypted,), r),
    ensures
        decrypted <==> r@ == "Расшифровка файлов..."@,
        !decrypted <==> r@ == "Копирование файлов..."@,
{
    reveal_strlit("Расшифровка файлов...");
    reveal_strlit("Копирование файлов...");
    assert("Расшифровка файлов..."@[0] != "Копирование файлов..."@[0]);
}

/// A path names a directory exactly if it is empty or its last character is a separator of
/// either kind.
pub proof fn directories_end_with_a_separator(path: &str, r: bool)
    requires
        call_ensures(is_directory_output_path, (path,), r),
    ensures
        path@.len() == 0 ==> r,
        path@.len() > 0 ==> r == (path@[path@.len() - 1] == '\\' || path@[path@.len() - 1] == '/'),
{
}

/// A read can have brought what has room in the buffer and does not lead beyond the end of 64
/// bits; anything else can happen at any time.
pub proof fn reads_that_can_be(fill: Fill, outcome: ReadOutcome, r: bool)
    requires
        call_ensures(Fill::accepts, (&fill, outcome), r),
    ensures
        outcome is Read ==> r == (fill.filled + outcome->bytes <= fill.len && fill.offset
            + outcome->bytes <= u64::MAX),
        !(outcome is Read) ==> r,
{
}

/// A buffer begins empty, and is full at once only if it takes nothing.
pub proof fn buffers_begin_empty(len: u64, offset: u64, fill: Fill, step: FillStep)
    requires
        call_ensures(Fill::new, (len, offset), fill),
        call_ensures(Fill::first_step, (&fill,), step),
    ensures
        fill.len == len,
        fill.filled == 0,
        fill.offset == offset,
        len == 0 ==> step == FillStep::Filled,
        len > 0 ==> step == FillStep::ReadOn,
{
}

/// A read that brought bytes moves a buffer on by as many, in the buffer and in the file; it is
/// full exactly when they make up its length. An interrupted read changes nothing and is
/// repeated; one that brought nothing ends the file too early, and one that failed ends it all.
pub proof fn reads_move_a_buffer_on(
    fill: &mut Fill,
    outcome: ReadOutcome,
    r: FillStep,
)
    requires
        old(fill).filled < old(fill).len,
        call_ensures(Fill::read_done, (fill, outcome), r),
    ensures
        final(fill).len == old(fill).len,
        outcome == ReadOutcome::Interrupted ==> r == FillStep::ReadOn && *final(fill) == *old(fill),
        outcome == ReadOutcome::Failed ==> r == FillStep::Failed && *final(fill) == *old(fill),
        outcome is Read && outcome->bytes == 0 ==> r == FillStep::UnexpectedEnd && *final(fill)
            == *old(fill),
        outcome is Read && 0 < outcome->bytes <= old(fill).len - old(fill).filled && old(fill).offset + outcome->bytes <= u64::MAX ==> {
            &&& final(fill).filled == old(fill).filled + outcome->bytes
            &&& final(fill).offset == old(fill).offset + outcome->bytes
            &&& r == FillStep::Filled <==> old(fill).filled + outcome->bytes == old(fill).len
            &&& r == FillStep::ReadOn <==> old(fill).filled + outcome->bytes < old(fill).len
        },
{
}

} // verus!
