//! The byte grammar of a PFS container: header, footer, GUID, section, the
//! container as a whole, and the records found inside section payloads.
//!
//! Every decoder takes a byte slice and returns what it decoded together with
//! the bytes that follow it. Each has a specification function over `Seq<u8>`
//! that gives its result from the layout's offsets, and the decoder's contract
//! is equality with that function.

use vstd::prelude::*;
use vstd::slice::slice_subrange;
use crate::error::PfsError;
use crate::text::utf16_lossy_text;
use crate::bytes::{le_u16_at, le_u32_at, le_u64_at, tag_check, read_le_u16, read_le_u32, read_le_u64, check_tag};

verus! {

/// Length of the header and of the footer.
pub const FRAME_LEN: usize = 16;

/// Length of the fixed part of a section, before its blobs.
pub const SECTION_FIXED_LEN: usize = 72;

/// The magic `PFS.HDR.` that opens a container.
pub open spec fn header_magic() -> Seq<u8> {
    seq![0x50u8, 0x46u8, 0x53u8, 0x2Eu8, 0x48u8, 0x44u8, 0x52u8, 0x2Eu8]
}

/// The magic `PFS.FTR.` that closes a container.
pub open spec fn footer_magic() -> Seq<u8> {
    seq![0x50u8, 0x46u8, 0x53u8, 0x2Eu8, 0x46u8, 0x54u8, 0x52u8, 0x2Eu8]
}

/// Whether `rest` is what is left of `s` behind some position of it.
pub open spec fn is_rest_of(rest: Seq<u8>, s: Seq<u8>) -> bool {
    rest.len() <= s.len() && rest == s.skip(s.len() - rest.len())
}

/// The 16-bit values, `count` of them, whose little-endian bytes stand at `at`.
pub open spec fn le_u16s_at(s: Seq<u8>, at: int, count: nat) -> Seq<u16> {
    Seq::new(count, |i: int| le_u16_at(s, at + 2 * i))
}

//
// Header
//
/// The header of a container.
#[derive(Debug, PartialEq, Eq)]
pub struct PfsHeader {
    pub header_version: u32,
    pub data_size: u32,
}

/// What `pfs_header` makes of a buffer.
pub open spec fn header_of(s: Seq<u8>) -> Result<(Seq<u8>, PfsHeader), PfsError> {
    match tag_check(s, 0, header_magic()) {
        Some(e) => Err(e),
        None => if s.len() < 16 {
            Err(PfsError::InsufficientLength)
        } else {
            Ok(
                (
                    s.skip(16),
                    PfsHeader { header_version: le_u32_at(s, 8), data_size: le_u32_at(s, 12) },
                ),
            )
        },
    }
}

/// Decodes the header: the magic `PFS.HDR.`, the format version and the
/// declared size of the data.
pub fn pfs_header(input: &[u8]) -> (r: Result<(&[u8], PfsHeader), PfsError>)
    ensures
        match r {
            Ok((rest, header)) => header_of(input@) == Ok::<_, PfsError>((rest@, header)),
            Err(e) => header_of(input@) == Err::<(Seq<u8>, PfsHeader), _>(e),
        },
{
    let magic: [u8; 8] = [0x50, 0x46, 0x53, 0x2E, 0x48, 0x44, 0x52, 0x2E];
    assert(magic@ =~= header_magic());
    match check_tag(input, 0, magic.as_slice()) {
        Some(e) => Err(e),
        None => {
            if input.len() < FRAME_LEN {
                Err(PfsError::InsufficientLength)
            } else {
                let header = PfsHeader {
                    header_version: read_le_u32(input, 8),
                    data_size: read_le_u32(input, 12),
                };
                Ok((slice_subrange(input, FRAME_LEN, input.len()), header))
            }
        },
    }
}

//
// Footer
//
/// The footer of a container. The checksum is carried, not verified.
#[derive(Debug, PartialEq, Eq)]
pub struct PfsFooter {
    pub checksum: u32,
    pub data_size: u32,
}

/// What `pfs_footer` makes of a buffer.
pub open spec fn footer_of(s: Seq<u8>) -> Result<(Seq<u8>, PfsFooter), PfsError> {
    if s.len() < 8 {
        Err(PfsError::InsufficientLength)
    } else {
        match tag_check(s, 8, footer_magic()) {
            Some(e) => Err(e),
            None => Ok(
                (s.skip(16), PfsFooter { checksum: le_u32_at(s, 4), data_size: le_u32_at(s, 0) }),
            ),
        }
    }
}

/// Decodes the footer: the declared size of the data, the checksum and the
/// magic `PFS.FTR.`.
pub fn pfs_footer(input: &[u8]) -> (r: Result<(&[u8], PfsFooter), PfsError>)
    ensures
        match r {
            Ok((rest, footer)) => footer_of(input@) == Ok::<_, PfsError>((rest@, footer)),
            Err(e) => footer_of(input@) == Err::<(Seq<u8>, PfsFooter), _>(e),
        },
{
    if input.len() < 8 {
        return Err(PfsError::InsufficientLength);
    }
    let magic: [u8; 8] = [0x50, 0x46, 0x53, 0x2E, 0x46, 0x54, 0x52, 0x2E];
    assert(magic@ =~= footer_magic());
    match check_tag(input, 8, magic.as_slice()) {
        Some(e) => Err(e),
        None => {
            let footer = PfsFooter {
                checksum: read_le_u32(input, 4),
                data_size: read_le_u32(input, 0),
            };
            Ok((slice_subrange(input, FRAME_LEN, input.len()), footer))
        },
    }
}

//
// GUID
//
/// A 16-byte identifier, carried without interpretation.
#[derive(Debug, PartialEq, Eq)]
pub struct Guid {
    pub data1: u32,
    pub data2: u16,
    pub data3: u16,
    pub data4: [u8; 8],
}

/// A GUID as a mathematical value.
pub struct GuidView {
    pub data1: u32,
    pub data2: u16,
    pub data3: u16,
    pub data4: Seq<u8>,
}

impl View for Guid {
    type V = GuidView;

    open spec fn view(&self) -> GuidView {
        GuidView { data1: self.data1, data2: self.data2, data3: self.data3, data4: self.data4@ }
    }
}

/// The GUID whose 16 bytes stand at `at`.
pub open spec fn guid_at(s: Seq<u8>, at: int) -> GuidView {
    GuidView {
        data1: le_u32_at(s, at),
        data2: le_u16_at(s, at + 4),
        data3: le_u16_at(s, at + 6),
        data4: s.subrange(at + 8, at + 16),
    }
}

/// What `guid` makes of a buffer.
pub open spec fn guid_of(s: Seq<u8>) -> Result<(Seq<u8>, GuidView), PfsError> {
    if s.len() < 16 {
        Err(PfsError::InsufficientLength)
    } else {
        Ok((s.skip(16), guid_at(s, 0)))
    }
}

/// Reads the GUID at `at`.
fn read_guid(input: &[u8], at: usize) -> (g: Guid)
    requires
        at + 16 <= input@.len(),
    ensures
        g@ == guid_at(input@, at as int),
{
    assert(input@.len() == input.len());
    let data4: [u8; 8] = [
        input[at + 8],
        input[at + 9],
        input[at + 10],
        input[at + 11],
        input[at + 12],
        input[at + 13],
        input[at + 14],
        input[at + 15],
    ];
    assert(data4@ =~= input@.subrange(at + 8, at + 16));
    Guid {
        data1: read_le_u32(input, at),
        data2: read_le_u16(input, at + 4),
        data3: read_le_u16(input, at + 6),
        data4,
    }
}

/// Decodes a GUID: a `u32`, two `u16` and eight bytes.
pub fn guid(input: &[u8]) -> (r: Result<(&[u8], Guid), PfsError>)
    ensures
        match r {
            Ok((rest, g)) => guid_of(input@) == Ok::<_, PfsError>((rest@, g@)),
            Err(e) => guid_of(input@) == Err::<(Seq<u8>, GuidView), _>(e),
        },
{
    if input.len() < 16 {
        Err(PfsError::InsufficientLength)
    } else {
        Ok((slice_subrange(input, 16, input.len()), read_guid(input, 0)))
    }
}

//
// Section
//
/// One record of a container: descriptive fields and up to four blobs, each a
/// view into the buffer that the section was decoded from.
#[derive(Debug, PartialEq, Eq)]
pub struct PfsSection<'a> {
    pub name: String,
    pub guid: Guid,
    pub header_version: u32,
    pub version_type: [u8; 4],
    pub version: [u16; 4],
    pub reserved: u64,
    pub data_size: u32,
    pub data_sig_size: u32,
    pub meta_size: u32,
    pub meta_sig_size: u32,
    pub unknown: [u8; 16],
    pub data: Option<&'a [u8]>,
    pub data_sig: Option<&'a [u8]>,
    pub meta: Option<&'a [u8]>,
    pub meta_sig: Option<&'a [u8]>,
}

/// A section as a mathematical value.
pub struct PfsSectionView {
    pub name: Seq<char>,
    pub guid: GuidView,
    pub header_version: u32,
    pub version_type: Seq<u8>,
    pub version: Seq<u16>,
    pub reserved: u64,
    pub data_size: u32,
    pub data_sig_size: u32,
    pub meta_size: u32,
    pub meta_sig_size: u32,
    pub unknown: Seq<u8>,
    pub data: Option<Seq<u8>>,
    pub data_sig: Option<Seq<u8>>,
    pub meta: Option<Seq<u8>>,
    pub meta_sig: Option<Seq<u8>>,
}

/// The bytes of an optional blob.
pub open spec fn blob_view(blob: Option<&[u8]>) -> Option<Seq<u8>> {
    match blob {
        Some(bytes) => Some(bytes@),
        None => None,
    }
}

/// A blob is there exactly when its size is not zero, and then has that size.
pub open spec fn blob_fits(size: u32, blob: Option<Seq<u8>>) -> bool {
    match blob {
        Some(bytes) => size != 0 && bytes.len() == size,
        None => size == 0,
    }
}

/// The blob between two offsets of a buffer: absent where it would be empty.
pub open spec fn blob_between(s: Seq<u8>, from: int, to: int) -> Option<Seq<u8>> {
    if from < to {
        Some(s.subrange(from, to))
    } else {
        None
    }
}

impl PfsSectionView {
    /// Each of the four blobs agrees with its size field.
    pub open spec fn blobs_fit(self) -> bool {
        &&& blob_fits(self.data_size, self.data)
        &&& blob_fits(self.data_sig_size, self.data_sig)
        &&& blob_fits(self.meta_size, self.meta)
        &&& blob_fits(self.meta_sig_size, self.meta_sig)
    }

    /// The same section under another name.
    pub open spec fn with_name(self, name: Seq<char>) -> PfsSectionView {
        PfsSectionView { name, ..self }
    }
}

impl<'a> View for PfsSection<'a> {
    type V = PfsSectionView;

    open spec fn view(&self) -> PfsSectionView {
        PfsSectionView {
            name: self.name@,
            guid: self.guid@,
            header_version: self.header_version,
            version_type: self.version_type@,
            version: self.version@,
            reserved: self.reserved,
            data_size: self.data_size,
            data_sig_size: self.data_sig_size,
            meta_size: self.meta_size,
            meta_sig_size: self.meta_sig_size,
            unknown: self.unknown@,
            data: blob_view(self.data),
            data_sig: blob_view(self.data_sig),
            meta: blob_view(self.meta),
            meta_sig: blob_view(self.meta_sig),
        }
    }
}

impl<'a> PfsSection<'a> {
    /// Each of the four blobs agrees with its size field.
    pub open spec fn wf(&self) -> bool {
        self@.blobs_fit()
    }
}

/// What `pfs_section` makes of a buffer: the fixed part of 72 bytes, then the
/// four blobs in the order data, data signature, metadata, metadata
/// signature, each as long as its size field says.
pub open spec fn section_of(s: Seq<u8>) -> Result<(Seq<u8>, PfsSectionView), PfsError> {
    if s.len() < 72 {
        Err(PfsError::InsufficientLength)
    } else {
        let data_size = le_u32_at(s, 40);
        let data_sig_size = le_u32_at(s, 44);
        let meta_size = le_u32_at(s, 48);
        let meta_sig_size = le_u32_at(s, 52);
        let data_end = 72 + data_size;
        let data_sig_end = data_end + data_sig_size;
        let meta_end = data_sig_end + meta_size;
        let meta_sig_end = meta_end + meta_sig_size;
        if s.len() < meta_sig_end {
            Err(PfsError::InsufficientLength)
        } else {
            Ok(
                (
                    s.skip(meta_sig_end),
                    PfsSectionView {
                        name: Seq::empty(),
                        guid: guid_at(s, 0),
                        header_version: le_u32_at(s, 16),
                        version_type: s.subrange(20, 24),
                        version: le_u16s_at(s, 24, 4),
                        reserved: le_u64_at(s, 32),
                        data_size,
                        data_sig_size,
                        meta_size,
                        meta_sig_size,
                        unknown: s.subrange(56, 72),
                        data: blob_between(s, 72, data_end),
                        data_sig: blob_between(s, data_end, data_sig_end),
                        meta: blob_between(s, data_sig_end, meta_end),
                        meta_sig: blob_between(s, meta_end, meta_sig_end),
                    },
                ),
            )
        }
    }
}

/// Every decoded section keeps the rule of its blobs: a blob is there exactly
/// when its size field is not zero, and is as long as its size field says.
/// Its name is empty, and its fixed-size fields have their sizes.
pub proof fn lemma_decoded_section_fits(s: Seq<u8>)
    requires
        section_of(s) is Ok,
    ensures
        section_of(s)->Ok_0.1.blobs_fit(),
        section_of(s)->Ok_0.1.name.len() == 0,
        section_of(s)->Ok_0.1.guid.data4.len() == 8,
        section_of(s)->Ok_0.1.version_type.len() == 4,
        section_of(s)->Ok_0.1.version.len() == 4,
        section_of(s)->Ok_0.1.unknown.len() == 16,
        is_rest_of(section_of(s)->Ok_0.0, s),
{
    let rest = section_of(s)->Ok_0.0;
    assert(rest =~= s.skip(s.len() - rest.len()));
}

/// The blob that occupies `from..to` of the buffer, if it is not empty.
fn take_blob<'a>(input: &'a [u8], from: usize, to: usize) -> (blob: Option<&'a [u8]>)
    requires
        from <= to <= input@.len(),
    ensures
        blob_view(blob) == blob_between(input@, from as int, to as int),
{
    if from < to {
        Some(slice_subrange(input, from, to))
    } else {
        None
    }
}

/// Decodes one section. Its name starts empty.
pub fn pfs_section<'a>(input: &'a [u8]) -> (r: Result<(&'a [u8], PfsSection<'a>), PfsError>)
    ensures
        match r {
            Ok((rest, section)) => section_of(input@) == Ok::<_, PfsError>((rest@, section@))
                && section.wf(),
            Err(e) => section_of(input@) == Err::<(Seq<u8>, PfsSectionView), _>(e),
        },
{
    let len: usize = input.len();
    if len < SECTION_FIXED_LEN {
        return Err(PfsError::InsufficientLength);
    }
    let data_size: u32 = read_le_u32(input, 40);
    let data_sig_size: u32 = read_le_u32(input, 44);
    let meta_size: u32 = read_le_u32(input, 48);
    let meta_sig_size: u32 = read_le_u32(input, 52);
    let total: u64 = 72u64 + data_size as u64 + data_sig_size as u64 + meta_size as u64
        + meta_sig_size as u64;
    if (len as u64) < total {
        return Err(PfsError::InsufficientLength);
    }
    let data_end: usize = SECTION_FIXED_LEN + data_size as usize;
    let data_sig_end: usize = data_end + data_sig_size as usize;
    let meta_end: usize = data_sig_end + meta_size as usize;
    let meta_sig_end: usize = meta_end + meta_sig_size as usize;
    let version_type: [u8; 4] = [input[20], input[21], input[22], input[23]];
    let version: [u16; 4] = [
        read_le_u16(input, 24),
        read_le_u16(input, 26),
        read_le_u16(input, 28),
        read_le_u16(input, 30),
    ];
    let unknown: [u8; 16] = [
        input[56],
        input[57],
        input[58],
        input[59],
        input[60],
        input[61],
        input[62],
        input[63],
        input[64],
        input[65],
        input[66],
        input[67],
        input[68],
        input[69],
        input[70],
        input[71],
    ];
    assert(version_type@ =~= input@.subrange(20, 24));
    assert(version@ =~= le_u16s_at(input@, 24, 4));
    assert(unknown@ =~= input@.subrange(56, 72));
    let section = PfsSection {
        name: String::new(),
        guid: read_guid(input, 0),
        header_version: read_le_u32(input, 16),
        version_type,
        version,
        reserved: read_le_u64(input, 32),
        data_size,
        data_sig_size,
        meta_size,
        meta_sig_size,
        unknown,
        data: take_blob(input, SECTION_FIXED_LEN, data_end),
        data_sig: take_blob(input, data_end, data_sig_end),
        meta: take_blob(input, data_sig_end, meta_end),
        meta_sig: take_blob(input, meta_end, meta_sig_end),
    };
    Ok((slice_subrange(input, meta_sig_end, len), section))
}

//
// Container
//
/// A decoded container: header, sections in the order of the buffer, footer.
#[derive(Debug, PartialEq, Eq)]
pub struct PfsFile<'a> {
    pub header: PfsHeader,
    pub sections: Vec<PfsSection<'a>>,
    pub footer: PfsFooter,
}

/// A container as a mathematical value.
pub struct PfsFileView {
    pub header: PfsHeader,
    pub sections: Seq<PfsSectionView>,
    pub footer: PfsFooter,
}

/// The sections of a vector as mathematical values.
pub open spec fn sections_view<'a>(sections: Seq<PfsSection<'a>>) -> Seq<PfsSectionView> {
    Seq::new(sections.len(), |i: int| sections[i]@)
}

/// Every section's blobs agree with its size fields.
pub open spec fn sections_fit(sections: Seq<PfsSectionView>) -> bool {
    forall|i: int| 0 <= i < sections.len() ==> (#[trigger] sections[i]).blobs_fit()
}

impl<'a> View for PfsFile<'a> {
    type V = PfsFileView;

    open spec fn view(&self) -> PfsFileView {
        PfsFileView {
            header: self.header,
            sections: sections_view(self.sections@),
            footer: self.footer,
        }
    }
}

impl<'a> PfsFile<'a> {
    /// Every section's blobs agree with its size fields.
    pub open spec fn wf(&self) -> bool {
        sections_fit(self@.sections)
    }
}

/// What follows the header: sections, one after the other, up to the first
/// position at which a footer is recognised.
pub open spec fn sections_until_footer(s: Seq<u8>) -> Result<
    (Seq<u8>, Seq<PfsSectionView>, PfsFooter),
    PfsError,
>
    decreases s.len(),
{
    match footer_of(s) {
        Ok((rest, footer)) => Ok((rest, Seq::empty(), footer)),
        Err(_) => match section_of(s) {
            Err(e) => Err(e),
            Ok((rest, section)) => match sections_until_footer(rest) {
                Err(e) => Err(e),
                Ok((after, sections, footer)) => Ok((after, seq![section] + sections, footer)),
            },
        },
    }
}

/// What `pfs_file` makes of a buffer.
pub open spec fn file_of(s: Seq<u8>) -> Result<(Seq<u8>, PfsFileView), PfsError> {
    match header_of(s) {
        Err(e) => Err(e),
        Ok((body, header)) => match sections_until_footer(body) {
            Err(e) => Err(e),
            Ok((rest, sections, footer)) => Ok((rest, PfsFileView { header, sections, footer })),
        },
    }
}

/// A decode of the tail of a buffer, with the sections found before it put in
/// front.
pub open spec fn after_sections(
    before: Seq<PfsSectionView>,
    tail: Result<(Seq<u8>, Seq<PfsSectionView>, PfsFooter), PfsError>,
) -> Result<(Seq<u8>, Seq<PfsSectionView>, PfsFooter), PfsError> {
    match tail {
        Err(e) => Err(e),
        Ok((rest, sections, footer)) => Ok((rest, before + sections, footer)),
    }
}

/// What is handed back behind the footer is the end of what was given.
proof fn lemma_sections_leave_a_rest(s: Seq<u8>)
    ensures
        sections_until_footer(s) is Ok ==> is_rest_of(sections_until_footer(s)->Ok_0.0, s),
    decreases s.len(),
{
    if sections_until_footer(s) is Ok {
        let rest = sections_until_footer(s)->Ok_0.0;
        match footer_of(s) {
            Ok(_) => {
                assert(rest =~= s.skip(s.len() - rest.len()));
            },
            Err(_) => {
                let next = section_of(s)->Ok_0.0;
                lemma_sections_leave_a_rest(next);
                assert(rest =~= s.skip(s.len() - rest.len()));
            },
        }
    }
}

/// A container never takes more than the buffer holds: what is handed back
/// behind the footer is the end of the buffer.
pub proof fn lemma_file_leaves_a_rest(s: Seq<u8>)
    ensures
        file_of(s) is Ok ==> is_rest_of(file_of(s)->Ok_0.0, s),
{
    if file_of(s) is Ok {
        let body = header_of(s)->Ok_0.0;
        let rest = file_of(s)->Ok_0.0;
        lemma_sections_leave_a_rest(body);
        assert(rest =~= s.skip(s.len() - rest.len()));
    }
}

/// Every section of a decoded run keeps the rule of its blobs.
proof fn lemma_decoded_sections_fit(s: Seq<u8>)
    ensures
        sections_until_footer(s) is Ok ==> sections_fit(sections_until_footer(s)->Ok_0.1),
    decreases s.len(),
{
    if sections_until_footer(s) is Ok {
        match footer_of(s) {
            Ok(_) => {},
            Err(_) => {
                let (rest, section) = section_of(s)->Ok_0;
                lemma_decoded_section_fits(s);
                lemma_decoded_sections_fit(rest);
                let found = sections_until_footer(rest)->Ok_0.1;
                let all = sections_until_footer(s)->Ok_0.1;
                assert(all =~= seq![section] + found);
                assert forall|i: int| 0 <= i < all.len() implies (#[trigger] all[i]).blobs_fit() by {
                    if i > 0 {
                        assert(all[i] == found[i - 1]);
                    }
                }
            },
        }
    }
}

/// Every section of a decoded container keeps the rule of its blobs.
pub proof fn lemma_decoded_file_fits(s: Seq<u8>)
    ensures
        file_of(s) is Ok ==> sections_fit(file_of(s)->Ok_0.1.sections),
{
    if file_of(s) is Ok {
        lemma_decoded_sections_fit(header_of(s)->Ok_0.0);
    }
}

/// Decodes a container: the header, then sections until a footer is
/// recognised. The bytes after the footer are handed back: never more is
/// consumed than the buffer holds.
#[verifier::rlimit(40)]
pub fn pfs_file<'a>(input: &'a [u8]) -> (r: Result<(&'a [u8], PfsFile<'a>), PfsError>)
    ensures
        match r {
            Ok((rest, file)) => file_of(input@) == Ok::<_, PfsError>((rest@, file@)) && file.wf()
                && is_rest_of(rest@, input@),
            Err(e) => file_of(input@) == Err::<(Seq<u8>, PfsFileView), _>(e),
        },
{
    let (body, header) = match pfs_header(input) {
        Ok(found) => found,
        Err(e) => {
            return Err(e);
        },
    };
    let mut sections: Vec<PfsSection<'a>> = Vec::new();
    let mut cur: &'a [u8] = body;
    assert(after_sections(sections_view(sections@), sections_until_footer(cur@))
        == sections_until_footer(body@)) by {
        match sections_until_footer(cur@) {
            Ok((rest, found, footer)) => {
                assert(sections_view(sections@) + found =~= found);
            },
            Err(_) => {},
        }
    }
    loop
        invariant
            header_of(input@) == Ok::<_, PfsError>((body@, header)),
            sections_until_footer(body@) == after_sections(
                sections_view(sections@),
                sections_until_footer(cur@),
            ),
            sections_fit(sections_view(sections@)),
        decreases cur@.len(),
    {
        match pfs_footer(cur) {
            Ok((rest, footer)) => {
                proof {
                    lemma_file_leaves_a_rest(input@);
                }
                assert(sections_view(sections@) + Seq::<PfsSectionView>::empty() =~= sections_view(
                    sections@,
                ));
                return Ok((rest, PfsFile { header, sections, footer }));
            },
            Err(_) => match pfs_section(cur) {
                Err(e) => {
                    return Err(e);
                },
                Ok((rest, section)) => {
                    proof {
                        let before = sections_view(sections@);
                        let now = sections_view(sections@.push(section));
                        assert(now =~= before.push(section@));
                        match sections_until_footer(rest@) {
                            Ok((after, found, footer)) => {
                                assert(before + (seq![section@] + found) =~= now + found);
                            },
                            Err(_) => {},
                        }
                    }
                    sections.push(section);
                    cur = rest;
                },
            },
        }
    }
}

//
// Compressed section
//
/// A section payload that wraps a zlib stream.
#[derive(Debug, PartialEq, Eq)]
pub struct PfsCompressedSection<'a> {
    pub size: u32,
    pub data: &'a [u8],
}

/// A compressed section as a mathematical value.
pub struct PfsCompressedSectionView {
    pub size: u32,
    pub data: Seq<u8>,
}

impl<'a> View for PfsCompressedSection<'a> {
    type V = PfsCompressedSectionView;

    open spec fn view(&self) -> PfsCompressedSectionView {
        PfsCompressedSectionView { size: self.size, data: self.data@ }
    }
}

/// The eleven bytes that mark a compressed section.
pub open spec fn compressed_magic() -> Seq<u8> {
    seq![
        0xAAu8,
        0xEEu8,
        0xAAu8,
        0x76u8,
        0x1Bu8,
        0xECu8,
        0xBBu8,
        0x20u8,
        0xF1u8,
        0xE6u8,
        0x51u8,
    ]
}

/// What `pfs_compressed_section` makes of a buffer: the size, the magic, one
/// byte of padding, `size` bytes of payload and a trailer of 16 bytes.
pub open spec fn compressed_section_of(s: Seq<u8>) -> Result<
    (Seq<u8>, PfsCompressedSectionView),
    PfsError,
> {
    if s.len() < 4 {
        Err(PfsError::InsufficientLength)
    } else {
        match tag_check(s, 4, compressed_magic()) {
            Some(e) => Err(e),
            None => {
                let size = le_u32_at(s, 0);
                if s.len() < 32 + size {
                    Err(PfsError::InsufficientLength)
                } else {
                    Ok(
                        (
                            s.skip(32 + size),
                            PfsCompressedSectionView { size, data: s.subrange(16, 16 + size) },
                        ),
                    )
                }
            },
        }
    }
}

/// Decodes the wrapper of a compressed section. The payload is handed back as
/// it stands, still compressed; the trailer is skipped unread.
pub fn pfs_compressed_section<'a>(input: &'a [u8]) -> (r: Result<
    (&'a [u8], PfsCompressedSection<'a>),
    PfsError,
>)
    ensures
        match r {
            Ok((rest, section)) => compressed_section_of(input@) == Ok::<_, PfsError>(
                (rest@, section@),
            ),
            Err(e) => compressed_section_of(input@) == Err::<
                (Seq<u8>, PfsCompressedSectionView),
                _,
            >(e),
        },
{
    let len: usize = input.len();
    if len < 4 {
        return Err(PfsError::InsufficientLength);
    }
    let magic: [u8; 11] = [0xAA, 0xEE, 0xAA, 0x76, 0x1B, 0xEC, 0xBB, 0x20, 0xF1, 0xE6, 0x51];
    assert(magic@ =~= compressed_magic());
    match check_tag(input, 4, magic.as_slice()) {
        Some(e) => Err(e),
        None => {
            let size: u32 = read_le_u32(input, 0);
            if (len as u64) < 32u64 + size as u64 {
                Err(PfsError::InsufficientLength)
            } else {
                let data_end: usize = 16 + size as usize;
                let section = PfsCompressedSection {
                    size,
                    data: slice_subrange(input, 16, data_end),
                };
                Ok((slice_subrange(input, data_end + 16, len), section))
            }
        },
    }
}

//
// Chunk
//
/// Length of the header region of a chunk, before its payload.
pub const CHUNK_HEADER_LEN: usize = 0x248;

/// One piece of a payload that was split over the sections of a nested
/// container, with the number that gives its place.
#[derive(Debug, PartialEq, Eq, Copy, Clone)]
pub struct PfsChunk<'a> {
    pub order_number: u16,
    pub data: &'a [u8],
}

/// A chunk as a mathematical value.
pub struct PfsChunkView {
    pub order_number: u16,
    pub data: Seq<u8>,
}

impl<'a> View for PfsChunk<'a> {
    type V = PfsChunkView;

    open spec fn view(&self) -> PfsChunkView {
        PfsChunkView { order_number: self.order_number, data: self.data@ }
    }
}

/// What `pfs_chunk` makes of a buffer: the order number at offset 0x3E, the
/// payload from offset 0x248 to the end.
pub open spec fn chunk_of(s: Seq<u8>) -> Result<(Seq<u8>, PfsChunkView), PfsError> {
    if s.len() < 0x248 {
        Err(PfsError::InsufficientLength)
    } else {
        Ok(
            (
                Seq::empty(),
                PfsChunkView { order_number: le_u16_at(s, 0x3E), data: s.skip(0x248) },
            ),
        )
    }
}

/// Decodes a chunk record. It takes the whole buffer, so nothing follows it.
pub fn pfs_chunk<'a>(input: &'a [u8]) -> (r: Result<(&'a [u8], PfsChunk<'a>), PfsError>)
    ensures
        match r {
            Ok((rest, chunk)) => chunk_of(input@) == Ok::<_, PfsError>((rest@, chunk@)),
            Err(e) => chunk_of(input@) == Err::<(Seq<u8>, PfsChunkView), _>(e),
        },
{
    let len: usize = input.len();
    if len < CHUNK_HEADER_LEN {
        Err(PfsError::InsufficientLength)
    } else {
        let chunk = PfsChunk {
            order_number: read_le_u16(input, 0x3E),
            data: slice_subrange(input, CHUNK_HEADER_LEN, len),
        };
        let rest = slice_subrange(input, len, len);
        assert(rest@ =~= Seq::<u8>::empty());
        Ok((rest, chunk))
    }
}

//
// Information section
//
/// One record of an information section: the identity of a section and its
/// display name.
#[derive(Debug, PartialEq, Eq)]
pub struct PfsInfoSection {
    pub header_version: u32,
    pub guid: Guid,
    pub version: [u16; 4],
    pub version_type: [u8; 4],
    pub name: String,
}

/// A record of an information section as a mathematical value.
pub struct PfsInfoSectionView {
    pub header_version: u32,
    pub guid: GuidView,
    pub version: Seq<u16>,
    pub version_type: Seq<u8>,
    pub name: Seq<char>,
}

impl View for PfsInfoSection {
    type V = PfsInfoSectionView;

    open spec fn view(&self) -> PfsInfoSectionView {
        PfsInfoSectionView {
            header_version: self.header_version,
            guid: self.guid@,
            version: self.version@,
            version_type: self.version_type@,
            name: self.name@,
        }
    }
}

/// The two zero bytes that end a name.
pub open spec fn name_terminator() -> Seq<u8> {
    seq![0u8, 0u8]
}

/// What `pfs_info_section` makes of a buffer: 34 fixed bytes that end with
/// the name's length in code units, the name in UTF-16, two zero bytes.
pub open spec fn info_section_of(s: Seq<u8>) -> Result<(Seq<u8>, PfsInfoSectionView), PfsError> {
    if s.len() < 34 {
        Err(PfsError::InsufficientLength)
    } else {
        let units = le_u16_at(s, 32);
        let name_end = 34 + 2 * units;
        if s.len() < name_end {
            Err(PfsError::InsufficientLength)
        } else {
            match tag_check(s, name_end, name_terminator()) {
                Some(e) => Err(e),
                None => Ok(
                    (
                        s.skip(name_end + 2),
                        PfsInfoSectionView {
                            header_version: le_u32_at(s, 0),
                            guid: guid_at(s, 4),
                            version: le_u16s_at(s, 20, 4),
                            version_type: s.subrange(28, 32),
                            name: utf16_lossy_text(le_u16s_at(s, 34, units as nat)),
                        },
                    ),
                ),
            }
        }
    }
}

/// Reads `count` little-endian `u16` from `at` on.
fn read_le_u16s(input: &[u8], at: usize, count: usize) -> (units: Vec<u16>)
    requires
        at + 2 * count <= input@.len(),
    ensures
        units@ == le_u16s_at(input@, at as int, count as nat),
{
    assert(input@.len() == input.len());
    let mut units: Vec<u16> = Vec::new();
    let mut i: usize = 0;
    while i < count
        invariant
            at + 2 * count <= input@.len() <= usize::MAX,
            i <= count,
            units@ == le_u16s_at(input@, at as int, i as nat),
        decreases count - i,
    {
        units.push(read_le_u16(input, at + 2 * i));
        assert(units@ =~= le_u16s_at(input@, at as int, (i + 1) as nat));
        i += 1;
    }
    units
}

/// Decodes one record of an information section. The name is decoded from
/// UTF-16 with a replacement character for what is not valid.
pub fn pfs_info_section(input: &[u8]) -> (r: Result<(&[u8], PfsInfoSection), PfsError>)
    ensures
        match r {
            Ok((rest, record)) => info_section_of(input@) == Ok::<_, PfsError>((rest@, record@)),
            Err(e) => info_section_of(input@) == Err::<(Seq<u8>, PfsInfoSectionView), _>(e),
        },
{
    let len: usize = input.len();
    if len < 34 {
        return Err(PfsError::InsufficientLength);
    }
    let units: u16 = read_le_u16(input, 32);
    let name_end: usize = 34 + 2 * (units as usize);
    if len < name_end {
        return Err(PfsError::InsufficientLength);
    }
    let terminator: [u8; 2] = [0, 0];
    assert(terminator@ =~= name_terminator());
    match check_tag(input, name_end, terminator.as_slice()) {
        Some(e) => Err(e),
        None => {
            let version: [u16; 4] = [
                read_le_u16(input, 20),
                read_le_u16(input, 22),
                read_le_u16(input, 24),
                read_le_u16(input, 26),
            ];
            let version_type: [u8; 4] = [input[28], input[29], input[30], input[31]];
            assert(version@ =~= le_u16s_at(input@, 20, 4));
            assert(version_type@ =~= input@.subrange(28, 32));
            let name_units = read_le_u16s(input, 34, units as usize);
            let record = PfsInfoSection {
                header_version: read_le_u32(input, 0),
                guid: read_guid(input, 4),
                version,
                version_type,
                name: String::from_utf16_lossy(name_units.as_slice()),
            };
            Ok((slice_subrange(input, name_end + 2, len), record))
        },
    }
}

/// The records of a vector as mathematical values.
pub open spec fn info_view(records: Seq<PfsInfoSection>) -> Seq<PfsInfoSectionView> {
    Seq::new(records.len(), |i: int| records[i]@)
}

/// The records that can be read one after the other from the start of a
/// buffer, and the bytes from the first position at which none can.
pub open spec fn info_records(s: Seq<u8>) -> (Seq<u8>, Seq<PfsInfoSectionView>)
    decreases s.len(),
{
    match info_section_of(s) {
        Err(_) => (s, Seq::empty()),
        Ok((rest, record)) => {
            let (after, records) = info_records(rest);
            (after, seq![record] + records)
        },
    }
}

/// What `pfs_info` makes of a payload: the records at its start and the bytes
/// behind them. No payload is refused: one that starts with no record gives
/// no record and is handed back whole.
pub open spec fn info_of(s: Seq<u8>) -> Result<(Seq<u8>, Seq<PfsInfoSectionView>), PfsError> {
    Ok(info_records(s))
}

/// Decodes the payload of an information section: records, one after the
/// other, for as long as one can be read. What follows the last record is
/// handed back. This never fails: where the first record cannot be read, the
/// result holds no record and the whole payload.
pub fn pfs_info(input: &[u8]) -> (r: Result<(&[u8], Vec<PfsInfoSection>), PfsError>)
    ensures
        r is Ok,
        info_of(input@) == Ok::<_, PfsError>((r->Ok_0.0@, info_view(r->Ok_0.1@))),
{
    let mut records: Vec<PfsInfoSection> = Vec::new();
    let mut cur: &[u8] = input;
    assert(info_view(records@) + info_records(cur@).1 =~= info_records(input@).1);
    loop
        invariant
            info_records(input@).0 == info_records(cur@).0,
            info_records(input@).1 == info_view(records@) + info_records(cur@).1,
        decreases cur@.len(),
    {
        match pfs_info_section(cur) {
            Err(_) => {
                assert(info_view(records@) + Seq::<PfsInfoSectionView>::empty() =~= info_view(
                    records@,
                ));
                return Ok((cur, records));
            },
            Ok((rest, record)) => {
                proof {
                    let before = info_view(records@);
                    let now = info_view(records@.push(record));
                    assert(now =~= before.push(record@));
                    assert(before + (seq![record@] + info_records(rest@).1) =~= now
                        + info_records(rest@).1);
                }
                records.push(record);
                cur = rest;
            },
        }
    }
}

/// A record whose name has no code unit has the empty name.
pub proof fn lemma_record_without_units_has_no_name(s: Seq<u8>)
    requires
        info_section_of(s) is Ok,
        le_u16_at(s, 32) == 0,
    ensures
        info_section_of(s)->Ok_0.1.name == Seq::<char>::empty(),
{
}

} // verus!
