//! The layout written out: the bytes that stand for a header, a section and
//! a footer, and the proof that decoding those bytes gives the values back;
//! and the proof that the records of an information section are read one by
//! one, each from its own bytes.
//!
//! Nothing here runs. The library only decodes; the byte sequences below are
//! there to state what the decoders are the inverse of.

use vstd::prelude::*;
use crate::error::PfsError;
use crate::bytes::{le_u16_at, le_u32_at, le_u64_at, tag_check};
use crate::parser::{
    GuidView,
    PfsFileView,
    PfsFooter,
    PfsHeader,
    PfsInfoSectionView,
    PfsSectionView,
    file_of,
    footer_magic,
    footer_of,
    guid_at,
    header_magic,
    header_of,
    info_records,
    info_section_of,
    name_terminator,
    le_u16s_at,
    section_of,
    sections_until_footer,
};

verus! {

/// The two bytes of a `u16`, low byte first.
#[verifier::opaque]
pub open spec fn le_bytes_u16(v: u16) -> Seq<u8> {
    seq![(v % 0x100) as u8, (v / 0x100) as u8]
}

/// The four bytes of a `u32`, low byte first.
#[verifier::opaque]
pub open spec fn le_bytes_u32(v: u32) -> Seq<u8> {
    seq![
        (v % 0x100) as u8,
        (v / 0x100 % 0x100) as u8,
        (v / 0x1_0000 % 0x100) as u8,
        (v / 0x100_0000) as u8,
    ]
}

/// The eight bytes of a `u64`, low byte first.
#[verifier::opaque]
pub open spec fn le_bytes_u64(v: u64) -> Seq<u8> {
    le_bytes_u32((v % 0x1_0000_0000) as u32) + le_bytes_u32((v / 0x1_0000_0000) as u32)
}

/// The bytes of a sequence of `u16`, each low byte first.
#[verifier::opaque]
pub open spec fn le_bytes_u16s(values: Seq<u16>) -> Seq<u8> {
    Seq::new(
        2 * values.len(),
        |i: int|
            if i % 2 == 0 {
                (values[i / 2] % 0x100) as u8
            } else {
                (values[i / 2] / 0x100) as u8
            },
    )
}

/// The 16 bytes of a header.
#[verifier::opaque]
pub open spec fn header_bytes(header: PfsHeader) -> Seq<u8> {
    header_magic() + le_bytes_u32(header.header_version) + le_bytes_u32(header.data_size)
}

/// The 16 bytes of a footer.
#[verifier::opaque]
pub open spec fn footer_bytes(footer: PfsFooter) -> Seq<u8> {
    le_bytes_u32(footer.data_size) + le_bytes_u32(footer.checksum) + footer_magic()
}

/// The 16 bytes of a GUID.
pub open spec fn guid_bytes(guid: GuidView) -> Seq<u8> {
    le_bytes_u32(guid.data1) + le_bytes_u16(guid.data2) + le_bytes_u16(guid.data3) + guid.data4
}

/// The bytes of a blob; none where it is absent.
pub open spec fn blob_bytes(blob: Option<Seq<u8>>) -> Seq<u8> {
    match blob {
        Some(bytes) => bytes,
        None => Seq::empty(),
    }
}

/// The 72 bytes of the fixed part of a section.
pub open spec fn section_fixed_bytes(section: PfsSectionView) -> Seq<u8> {
    guid_bytes(section.guid) + le_bytes_u32(section.header_version) + section.version_type
        + le_bytes_u16s(section.version) + le_bytes_u64(section.reserved) + le_bytes_u32(
        section.data_size,
    ) + le_bytes_u32(section.data_sig_size) + le_bytes_u32(section.meta_size) + le_bytes_u32(
        section.meta_sig_size,
    ) + section.unknown
}

/// The four blobs of a section, one after the other.
pub open spec fn section_blob_bytes(section: PfsSectionView) -> Seq<u8> {
    blob_bytes(section.data) + blob_bytes(section.data_sig) + blob_bytes(section.meta)
        + blob_bytes(section.meta_sig)
}

/// The bytes of a section: its fixed part, then its blobs.
#[verifier::opaque]
pub open spec fn section_bytes(section: PfsSectionView) -> Seq<u8> {
    section_fixed_bytes(section) + section_blob_bytes(section)
}

/// The bytes of a run of sections.
pub open spec fn sections_bytes(sections: Seq<PfsSectionView>) -> Seq<u8>
    decreases sections.len(),
{
    if sections.len() == 0 {
        Seq::empty()
    } else {
        section_bytes(sections.first()) + sections_bytes(sections.drop_first())
    }
}

/// The bytes of a container.
pub open spec fn file_bytes(file: PfsFileView) -> Seq<u8> {
    header_bytes(file.header) + sections_bytes(file.sections) + footer_bytes(file.footer)
}

/// A section as the decoder can give it: the fixed-size fields have their
/// sizes, each blob agrees with its size field, and the name is empty.
pub open spec fn decodable(section: PfsSectionView) -> bool {
    &&& section.blobs_fit()
    &&& section.guid.data4.len() == 8
    &&& section.version_type.len() == 4
    &&& section.version.len() == 4
    &&& section.unknown.len() == 16
    &&& section.name.len() == 0
}

/// A section whose bytes are not taken for a footer: where the footer has
/// its magic, the section has the last eight bytes of its GUID.
pub open spec fn distinct_from_footer(section: PfsSectionView) -> bool {
    section.guid.data4 != footer_magic()
}

/// How many bytes each of the encodings has.
proof fn lemma_le_bytes_len()
    ensures
        forall|v: u16| #[trigger] le_bytes_u16(v).len() == 2,
        forall|v: u32| #[trigger] le_bytes_u32(v).len() == 4,
        forall|v: u64| #[trigger] le_bytes_u64(v).len() == 8,
        forall|values: Seq<u16>| #[trigger] le_bytes_u16s(values).len() == 2 * values.len(),
{
    reveal(le_bytes_u16);
    reveal(le_bytes_u32);
    reveal(le_bytes_u64);
    reveal(le_bytes_u16s);
}

proof fn lemma_le_u16_at(s: Seq<u8>, at: int, v: u16)
    requires
        0 <= at,
        at + 2 <= s.len(),
        s.subrange(at, at + 2) == le_bytes_u16(v),
    ensures
        le_u16_at(s, at) == v,
{
    reveal(le_bytes_u16);
    let part = s.subrange(at, at + 2);
    assert(part[0] == s[at] && part[1] == s[at + 1]);
}

proof fn lemma_le_u32_at(s: Seq<u8>, at: int, v: u32)
    requires
        0 <= at,
        at + 4 <= s.len(),
        s.subrange(at, at + 4) == le_bytes_u32(v),
    ensures
        le_u32_at(s, at) == v,
{
    reveal(le_bytes_u32);
    let part = s.subrange(at, at + 4);
    assert(part[0] == s[at] && part[1] == s[at + 1] && part[2] == s[at + 2] && part[3] == s[at
        + 3]);
}

proof fn lemma_le_u64_at(s: Seq<u8>, at: int, v: u64)
    requires
        0 <= at,
        at + 8 <= s.len(),
        s.subrange(at, at + 8) == le_bytes_u64(v),
    ensures
        le_u64_at(s, at) == v,
{
    reveal(le_bytes_u64);
    lemma_le_bytes_len();
    let lo = (v % 0x1_0000_0000) as u32;
    let hi = (v / 0x1_0000_0000) as u32;
    assert(s.subrange(at, at + 4) =~= s.subrange(at, at + 8).subrange(0, 4));
    assert(s.subrange(at + 4, at + 8) =~= s.subrange(at, at + 8).subrange(4, 8));
    assert(le_bytes_u64(v).subrange(0, 4) =~= le_bytes_u32(lo));
    assert(le_bytes_u64(v).subrange(4, 8) =~= le_bytes_u32(hi));
    lemma_le_u32_at(s, at, lo);
    lemma_le_u32_at(s, at + 4, hi);
}

proof fn lemma_le_u16s_at(s: Seq<u8>, at: int, values: Seq<u16>)
    requires
        0 <= at,
        at + 2 * values.len() <= s.len(),
        s.subrange(at, at + 2 * values.len()) == le_bytes_u16s(values),
    ensures
        le_u16s_at(s, at, values.len()) == values,
{
    reveal(le_bytes_u16s);
    let part = s.subrange(at, at + 2 * values.len());
    assert forall|i: int| 0 <= i < values.len() implies le_u16_at(s, at + 2 * i) == values[i] by {
        assert(part[2 * i] == s[at + 2 * i]);
        assert(part[2 * i + 1] == s[at + 2 * i + 1]);
        assert((2 * i) % 2 == 0 && (2 * i) / 2 == i);
        assert((2 * i + 1) % 2 == 1 && (2 * i + 1) / 2 == i);
    }
    assert(le_u16s_at(s, at, values.len()) =~= values);
}

proof fn lemma_guid_at(s: Seq<u8>, at: int, guid: GuidView)
    requires
        0 <= at,
        at + 16 <= s.len(),
        guid.data4.len() == 8,
        s.subrange(at, at + 16) == guid_bytes(guid),
    ensures
        guid_at(s, at) == guid,
{
    lemma_le_bytes_len();
    let part = s.subrange(at, at + 16);
    assert(s.subrange(at, at + 4) =~= part.subrange(0, 4));
    assert(s.subrange(at + 4, at + 6) =~= part.subrange(4, 6));
    assert(s.subrange(at + 6, at + 8) =~= part.subrange(6, 8));
    assert(s.subrange(at + 8, at + 16) =~= part.subrange(8, 16));
    assert(guid_bytes(guid).subrange(0, 4) =~= le_bytes_u32(guid.data1));
    assert(guid_bytes(guid).subrange(4, 6) =~= le_bytes_u16(guid.data2));
    assert(guid_bytes(guid).subrange(6, 8) =~= le_bytes_u16(guid.data3));
    assert(guid_bytes(guid).subrange(8, 16) =~= guid.data4);
    lemma_le_u32_at(s, at, guid.data1);
    lemma_le_u16_at(s, at + 4, guid.data2);
    lemma_le_u16_at(s, at + 6, guid.data3);
}

/// A tag that stands in full at its place passes the check.
proof fn lemma_tag_present(s: Seq<u8>, at: int, tag: Seq<u8>)
    requires
        0 <= at,
        at + tag.len() <= s.len(),
        s.subrange(at, at + tag.len()) == tag,
    ensures
        tag_check(s, at, tag) is None,
{
    let part = s.subrange(at, at + tag.len());
    assert forall|i: int| 0 <= i < tag.len() && at + i < s.len() implies s[at + i] == tag[i] by {
        assert(part[i] == s[at + i]);
    }
}

/// Decoding the bytes of a header gives the header and what follows it.
pub proof fn lemma_header_round_trip(header: PfsHeader, rest: Seq<u8>)
    ensures
        header_of(header_bytes(header) + rest) == Ok::<_, PfsError>((rest, header)),
{
    reveal(header_bytes);
    lemma_le_bytes_len();
    let s = header_bytes(header) + rest;
    assert(s.subrange(0, 8) =~= header_magic());
    assert(s.subrange(8, 12) =~= le_bytes_u32(header.header_version));
    assert(s.subrange(12, 16) =~= le_bytes_u32(header.data_size));
    lemma_tag_present(s, 0, header_magic());
    lemma_le_u32_at(s, 8, header.header_version);
    lemma_le_u32_at(s, 12, header.data_size);
    assert(s.skip(16) =~= rest);
}

/// Decoding the bytes of a footer gives the footer and what follows it.
pub proof fn lemma_footer_round_trip(footer: PfsFooter, rest: Seq<u8>)
    ensures
        footer_of(footer_bytes(footer) + rest) == Ok::<_, PfsError>((rest, footer)),
{
    reveal(footer_bytes);
    lemma_le_bytes_len();
    let s = footer_bytes(footer) + rest;
    assert(s.subrange(0, 4) =~= le_bytes_u32(footer.data_size));
    assert(s.subrange(4, 8) =~= le_bytes_u32(footer.checksum));
    assert(s.subrange(8, 16) =~= footer_magic());
    lemma_tag_present(s, 8, footer_magic());
    lemma_le_u32_at(s, 0, footer.data_size);
    lemma_le_u32_at(s, 4, footer.checksum);
    assert(s.skip(16) =~= rest);
}

/// The fields that the decoder reads from the fixed part of a section's bytes
/// are the section's.
#[verifier::rlimit(40)]
proof fn lemma_section_fixed(section: PfsSectionView, tail: Seq<u8>)
    requires
        decodable(section),
    ensures
        section_fixed_bytes(section).len() == 72,
        ({
            let s = section_fixed_bytes(section) + tail;
            &&& guid_at(s, 0) == section.guid
            &&& le_u32_at(s, 16) == section.header_version
            &&& s.subrange(20, 24) == section.version_type
            &&& le_u16s_at(s, 24, 4) == section.version
            &&& le_u64_at(s, 32) == section.reserved
            &&& le_u32_at(s, 40) == section.data_size
            &&& le_u32_at(s, 44) == section.data_sig_size
            &&& le_u32_at(s, 48) == section.meta_size
            &&& le_u32_at(s, 52) == section.meta_sig_size
            &&& s.subrange(56, 72) == section.unknown
        }),
{
    lemma_le_bytes_len();
    let fixed = section_fixed_bytes(section);
    let s = fixed + tail;
    assert(guid_bytes(section.guid).len() == 16);
    assert(le_bytes_u16s(section.version).len() == 8);
    assert(le_bytes_u64(section.reserved).len() == 8);
    assert(fixed.len() == 72);
    assert(s.subrange(0, 16) =~= guid_bytes(section.guid));
    assert(s.subrange(16, 20) =~= le_bytes_u32(section.header_version));
    assert(s.subrange(20, 24) =~= section.version_type);
    assert(s.subrange(24, 32) =~= le_bytes_u16s(section.version));
    assert(s.subrange(32, 40) =~= le_bytes_u64(section.reserved));
    assert(s.subrange(40, 44) =~= le_bytes_u32(section.data_size));
    assert(s.subrange(44, 48) =~= le_bytes_u32(section.data_sig_size));
    assert(s.subrange(48, 52) =~= le_bytes_u32(section.meta_size));
    assert(s.subrange(52, 56) =~= le_bytes_u32(section.meta_sig_size));
    assert(s.subrange(56, 72) =~= section.unknown);
    lemma_guid_at(s, 0, section.guid);
    lemma_le_u32_at(s, 16, section.header_version);
    lemma_le_u16s_at(s, 24, section.version);
    lemma_le_u64_at(s, 32, section.reserved);
    lemma_le_u32_at(s, 40, section.data_size);
    lemma_le_u32_at(s, 44, section.data_sig_size);
    lemma_le_u32_at(s, 48, section.meta_size);
    lemma_le_u32_at(s, 52, section.meta_sig_size);
}

/// A blob that agrees with its size is found again between its offsets.
proof fn lemma_blob_found(s: Seq<u8>, from: int, size: u32, blob: Option<Seq<u8>>)
    requires
        0 <= from,
        from + size <= s.len(),
        crate::parser::blob_fits(size, blob),
        s.subrange(from, from + size) == blob_bytes(blob),
    ensures
        crate::parser::blob_between(s, from, from + size) == blob,
{
}

/// Decoding the bytes of a section gives the section and what follows it.
#[verifier::rlimit(40)]
pub proof fn lemma_section_round_trip(section: PfsSectionView, rest: Seq<u8>)
    requires
        decodable(section),
    ensures
        section_of(section_bytes(section) + rest) == Ok::<_, PfsError>((rest, section)),
{
    reveal(section_bytes);
    let fixed = section_fixed_bytes(section);
    let blobs = section_blob_bytes(section);
    let s = section_bytes(section) + rest;
    lemma_section_fixed(section, blobs + rest);
    assert(s =~= fixed + (blobs + rest));
    let data = blob_bytes(section.data);
    let data_sig = blob_bytes(section.data_sig);
    let meta = blob_bytes(section.meta);
    let meta_sig = blob_bytes(section.meta_sig);
    assert(data.len() == section.data_size);
    assert(data_sig.len() == section.data_sig_size);
    assert(meta.len() == section.meta_size);
    assert(meta_sig.len() == section.meta_sig_size);
    let data_end = 72 + section.data_size;
    let data_sig_end = data_end + section.data_sig_size;
    let meta_end = data_sig_end + section.meta_size;
    let meta_sig_end = meta_end + section.meta_sig_size;
    assert(blobs.len() == meta_sig_end - 72);
    assert(s.len() == meta_sig_end + rest.len());
    assert(s.subrange(72, data_end) =~= data);
    assert(s.subrange(data_end, data_sig_end) =~= data_sig);
    assert(s.subrange(data_sig_end, meta_end) =~= meta);
    assert(s.subrange(meta_end, meta_sig_end) =~= meta_sig);
    lemma_blob_found(s, 72, section.data_size, section.data);
    lemma_blob_found(s, data_end, section.data_sig_size, section.data_sig);
    lemma_blob_found(s, data_sig_end, section.meta_size, section.meta);
    lemma_blob_found(s, meta_end, section.meta_sig_size, section.meta_sig);
    assert(s.skip(meta_sig_end) =~= rest);
    assert(section.name =~= Seq::<char>::empty());
}

/// The bytes of a section of that kind are not taken for a footer.
#[verifier::rlimit(40)]
proof fn lemma_section_is_no_footer(section: PfsSectionView, rest: Seq<u8>)
    requires
        decodable(section),
        distinct_from_footer(section),
    ensures
        footer_of(section_bytes(section) + rest) is Err,
{
    reveal(section_bytes);
    let s = section_bytes(section) + rest;
    lemma_section_fixed(section, section_blob_bytes(section) + rest);
    assert(s =~= section_fixed_bytes(section) + (section_blob_bytes(section) + rest));
    let last = section.guid.data4;
    assert(s.subrange(8, 16) == last);
    let magic = footer_magic();
    if forall|i: int| 0 <= i < 8 ==> last[i] == #[trigger] magic[i] {
        assert(last =~= magic);
    }
    let i = choose|i: int| 0 <= i < 8 && last[i] != #[trigger] magic[i];
    assert(s.subrange(8, 16)[i] == s[8 + i]);
    assert(s[8 + i] != magic[i]);
    assert(tag_check(s, 8, magic) is Some);
}

/// Decoding a run of sections and a footer gives them back.
#[verifier::rlimit(40)]
proof fn lemma_sections_round_trip(
    sections: Seq<PfsSectionView>,
    footer: PfsFooter,
    rest: Seq<u8>,
)
    requires
        forall|i: int| 0 <= i < sections.len() ==> decodable(#[trigger] sections[i]),
        forall|i: int| 0 <= i < sections.len() ==> distinct_from_footer(#[trigger] sections[i]),
    ensures
        sections_until_footer(sections_bytes(sections) + footer_bytes(footer) + rest) == Ok::<
            _,
            PfsError,
        >((rest, sections, footer)),
    decreases sections.len(),
{
    let s = sections_bytes(sections) + footer_bytes(footer) + rest;
    if sections.len() == 0 {
        assert(s =~= footer_bytes(footer) + rest);
        lemma_footer_round_trip(footer, rest);
        assert(sections =~= Seq::empty());
    } else {
        let first = sections.first();
        let others = sections.drop_first();
        let tail = sections_bytes(others) + footer_bytes(footer) + rest;
        assert(s =~= section_bytes(first) + tail);
        assert(decodable(first) && distinct_from_footer(first));
        lemma_section_is_no_footer(first, tail);
        lemma_section_round_trip(first, tail);
        assert forall|i: int| 0 <= i < others.len() implies decodable(#[trigger] others[i])
            && distinct_from_footer(others[i]) by {
            assert(others[i] == sections[i + 1]);
        }
        lemma_sections_round_trip(others, footer, rest);
        assert(seq![first] + others =~= sections);
    }
}

/// Decoding is the inverse of the layout. The bytes of a header, of any
/// number of sections as the decoder can give them, and of a footer decode to
/// exactly those sections, with every field as it was written, and to the
/// header and the footer; what follows the footer is handed back. The law
/// leaves out a section whose GUID ends in the footer's magic: the decoder
/// takes the bytes of such a section for a footer.
#[verifier::rlimit(40)]
pub proof fn lemma_file_round_trip(file: PfsFileView, rest: Seq<u8>)
    requires
        forall|i: int| 0 <= i < file.sections.len() ==> decodable(#[trigger] file.sections[i]),
        forall|i: int|
            0 <= i < file.sections.len() ==> distinct_from_footer(#[trigger] file.sections[i]),
    ensures
        file_of(file_bytes(file) + rest) == Ok::<_, PfsError>((rest, file)),
{
    let body = sections_bytes(file.sections) + footer_bytes(file.footer) + rest;
    assert(file_bytes(file) + rest =~= header_bytes(file.header) + body);
    lemma_header_round_trip(file.header, body);
    lemma_sections_round_trip(file.sections, file.footer, rest);
}

/// A record of an information section is read from its own bytes alone:
/// bytes that decode to a record and nothing more decode to the same record
/// when other bytes follow them, and those bytes are what is left.
pub proof fn lemma_info_record_before_more(record: Seq<u8>, more: Seq<u8>)
    requires
        info_section_of(record) is Ok,
        info_section_of(record)->Ok_0.0.len() == 0,
    ensures
        info_section_of(record + more) == Ok::<_, PfsError>(
            (more, info_section_of(record)->Ok_0.1),
        ),
{
    let s = record + more;
    let units = le_u16_at(record, 32);
    let name_end = 34 + 2 * units;
    assert(record.len() == name_end + 2);
    assert(forall|i: int| 0 <= i < record.len() ==> s[i] == record[i]);
    assert(tag_check(s, name_end, name_terminator()) is None) by {
        let tag = name_terminator();
        assert(tag_check(record, name_end, tag) is None);
        assert forall|i: int| 0 <= i < tag.len() && name_end + i < s.len() implies s[name_end + i]
            == #[trigger] tag[i] by {
            assert(record[name_end + i] == tag[i]);
        }
    }
    assert(le_u16s_at(s, 20, 4) =~= le_u16s_at(record, 20, 4));
    assert(le_u16s_at(s, 34, units as nat) =~= le_u16s_at(record, 34, units as nat));
    assert(s.subrange(28, 32) =~= record.subrange(28, 32));
    assert(s.subrange(12, 20) =~= record.subrange(12, 20));
    assert(s.skip(name_end + 2) =~= more);
}

/// The records of a payload, one by one: where bytes that are one record
/// stand before other bytes, the payload holds that record and then what the
/// other bytes hold. So a payload of some records and a tail that starts
/// with no record gives exactly those records and that tail.
pub proof fn lemma_info_records_one_by_one(record: Seq<u8>, more: Seq<u8>)
    requires
        info_section_of(record) is Ok,
        info_section_of(record)->Ok_0.0.len() == 0,
    ensures
        info_records(record + more) == (
            info_records(more).0,
            seq![info_section_of(record)->Ok_0.1] + info_records(more).1,
        ),
        info_section_of(more) is Err ==> info_records(record + more) == (
            more,
            seq![info_section_of(record)->Ok_0.1],
        ),
{
    lemma_info_record_before_more(record, more);
    if info_section_of(more) is Err {
        assert(seq![info_section_of(record)->Ok_0.1] + Seq::<PfsInfoSectionView>::empty()
            =~= seq![info_section_of(record)->Ok_0.1]);
    }
}

} // verus!
