//! The extraction engine: what a container unpacks to.
//!
//! Every section with data gives its blobs as artifacts. Its data is then
//! classified: a compressed section is inflated and the result is unpacked in
//! turn as a container of its own; a nested container of chunks is joined
//! into one payload; anything else is a leaf. The engine returns the
//! artifacts in the order in which they arise, each with the name under which
//! it is to be stored, and beside them a log of what it met on the way, for
//! whoever wants to tell it to a user.

use vstd::prelude::*;
use vstd::slice::slice_to_vec;
use vstd::string::StringExecFns;
use crate::error::PfsError;
use crate::parser::{
    Guid,
    GuidView,
    PfsSection,
    PfsSectionView,
    PfsCompressedSection,
    PfsCompressedSectionView,
    PfsChunk,
    PfsChunkView,
    blob_view,
    compressed_section_of,
    file_of,
    lemma_decoded_file_fits,
    pfs_compressed_section,
    pfs_file,
    sections_view,
    sections_fit,
};
use crate::chunks::{chunks_of, chunks_view, holds_chunk, pfs_chunks, pfs_reassemble, reassembled};
use crate::names::{info_unread, lemma_names_keep_the_blobs, pfs_resolve_names, resolved_sections};
use crate::version::{pfs_version_of_scan, pfs_version_scan, version_scan, version_text};
use crate::inflate::{pfs_inflate, zlib_inflated};
use crate::text::{decimal_text, underscored, push_decimal, push_underscored};

verus! {

//
// Artifacts
//
/// Bytes to be stored, and the name to store them under.
#[derive(Debug, PartialEq, Eq)]
pub struct Artifact {
    pub name: String,
    pub data: Vec<u8>,
}

/// An artifact as a mathematical value.
pub struct ArtifactView {
    pub name: Seq<char>,
    pub data: Seq<u8>,
}

impl View for Artifact {
    type V = ArtifactView;

    open spec fn view(&self) -> ArtifactView {
        ArtifactView { name: self.name@, data: self.data@ }
    }
}

/// The artifacts of a vector as mathematical values.
pub open spec fn artifacts_view(artifacts: Seq<Artifact>) -> Seq<ArtifactView> {
    Seq::new(artifacts.len(), |i: int| artifacts[i]@)
}

/// One thing that the unpacking met. The notices of an extraction stand in
/// the order in which the things were met.
#[derive(Debug, PartialEq, Eq)]
pub enum Notice {
    /// Bytes were left unread: behind the footer of a container, behind the
    /// last record of an information section, or behind the trailer of a
    /// compressed section. The number is never zero.
    Unparsed(usize),
    /// A section is taken up: its identity and the sizes of its blobs.
    Section {
        guid: Guid,
        header_version: u32,
        data_size: u32,
        data_sig_size: u32,
        meta_size: u32,
        meta_sig_size: u32,
    },
    /// The version of the section holds a tag that is none of the known ones.
    UnknownVersionType(u8),
    /// The version that was read for the section.
    Version(String),
    /// The next artifact arose here.
    Stored,
    /// The data of the section is a compressed section.
    Compressed,
    /// The data of the section is a nested container.
    Subsection,
    /// Inflated bytes are no container, and are not unpacked further.
    NotAContainer,
}

/// A notice as a mathematical value.
pub enum NoticeView {
    Unparsed(nat),
    Section {
        guid: GuidView,
        header_version: u32,
        data_size: u32,
        data_sig_size: u32,
        meta_size: u32,
        meta_sig_size: u32,
    },
    UnknownVersionType(u8),
    Version(Seq<char>),
    Stored,
    Compressed,
    Subsection,
    NotAContainer,
}

impl View for Notice {
    type V = NoticeView;

    open spec fn view(&self) -> NoticeView {
        match self {
            Notice::Unparsed(left) => NoticeView::Unparsed(*left as nat),
            Notice::Section {
                guid,
                header_version,
                data_size,
                data_sig_size,
                meta_size,
                meta_sig_size,
            } => NoticeView::Section {
                guid: guid@,
                header_version: *header_version,
                data_size: *data_size,
                data_sig_size: *data_sig_size,
                meta_size: *meta_size,
                meta_sig_size: *meta_sig_size,
            },
            Notice::UnknownVersionType(tag) => NoticeView::UnknownVersionType(*tag),
            Notice::Version(text) => NoticeView::Version(text@),
            Notice::Stored => NoticeView::Stored,
            Notice::Compressed => NoticeView::Compressed,
            Notice::Subsection => NoticeView::Subsection,
            Notice::NotAContainer => NoticeView::NotAContainer,
        }
    }
}

/// The notices of a vector as mathematical values.
pub open spec fn notices_view(notices: Seq<Notice>) -> Seq<NoticeView> {
    Seq::new(notices.len(), |i: int| notices[i]@)
}

/// What unpacking gave: the artifacts, in the order in which they arose, the
/// log of what was met on the way, and the failure that stopped the
/// unpacking, if one did. What arose before a failure is kept.
#[derive(Debug, PartialEq, Eq)]
pub struct Extraction {
    pub artifacts: Vec<Artifact>,
    pub log: Vec<Notice>,
    pub failure: Option<PfsError>,
}

/// An extraction as a mathematical value.
pub struct ExtractionView {
    pub artifacts: Seq<ArtifactView>,
    pub log: Seq<NoticeView>,
    pub failure: Option<PfsError>,
}

impl View for Extraction {
    type V = ExtractionView;

    open spec fn view(&self) -> ExtractionView {
        ExtractionView {
            artifacts: artifacts_view(self.artifacts@),
            log: notices_view(self.log@),
            failure: self.failure,
        }
    }
}

/// The extraction that holds nothing.
pub open spec fn nothing_extracted() -> ExtractionView {
    ExtractionView { artifacts: Seq::empty(), log: Seq::empty(), failure: None }
}

/// The extraction that holds these artifacts and this log, and no failure.
pub open spec fn extracted_so_far(
    artifacts: Seq<ArtifactView>,
    log: Seq<NoticeView>,
) -> ExtractionView {
    ExtractionView { artifacts, log, failure: None }
}

/// The extraction that is nothing but a failure.
pub open spec fn extraction_failed(failure: PfsError) -> ExtractionView {
    ExtractionView { artifacts: Seq::empty(), log: Seq::empty(), failure: Some(failure) }
}

/// One extraction and then another: what the first gave, followed by what
/// the second gave, unless the first ended in a failure.
pub open spec fn extracted_then(first: ExtractionView, rest: ExtractionView) -> ExtractionView {
    if first.failure is Some {
        first
    } else {
        ExtractionView {
            artifacts: first.artifacts + rest.artifacts,
            log: first.log + rest.log,
            failure: rest.failure,
        }
    }
}

/// It does not matter how three extractions in a row are grouped.
pub proof fn lemma_then_is_associative(a: ExtractionView, b: ExtractionView, c: ExtractionView)
    ensures
        extracted_then(extracted_then(a, b), c) == extracted_then(a, extracted_then(b, c)),
{
    if a.failure is None && b.failure is None {
        assert((a.artifacts + b.artifacts) + c.artifacts =~= a.artifacts + (b.artifacts
            + c.artifacts));
        assert((a.log + b.log) + c.log =~= a.log + (b.log + c.log));
    }
}

/// Nothing, before or behind an extraction, changes nothing.
pub proof fn lemma_then_nothing(a: ExtractionView)
    ensures
        extracted_then(a, nothing_extracted()) == a,
        extracted_then(nothing_extracted(), a) == a,
{
    assert(a.artifacts + Seq::<ArtifactView>::empty() =~= a.artifacts);
    assert(a.log + Seq::<NoticeView>::empty() =~= a.log);
    assert(Seq::<ArtifactView>::empty() + a.artifacts =~= a.artifacts);
    assert(Seq::<NoticeView>::empty() + a.log =~= a.log);
}

/// The extraction that holds these artifacts and this log, and no failure.
fn so_far(artifacts: Vec<Artifact>, log: Vec<Notice>) -> (out: Extraction)
    ensures
        out@ == extracted_so_far(artifacts_view(artifacts@), notices_view(log@)),
{
    Extraction { artifacts, log, failure: None }
}

/// The extraction that holds nothing.
fn nothing() -> (out: Extraction)
    ensures
        out@ == nothing_extracted(),
{
    let out = Extraction { artifacts: Vec::new(), log: Vec::new(), failure: None };
    assert(artifacts_view(out.artifacts@) =~= Seq::empty());
    assert(notices_view(out.log@) =~= Seq::empty());
    out
}

/// The extraction that holds one notice.
fn noticed(notice: Notice) -> (out: Extraction)
    ensures
        out@ == extracted_so_far(Seq::empty(), seq![notice@]),
{
    let mut log: Vec<Notice> = Vec::new();
    log.push(notice);
    let out = Extraction { artifacts: Vec::new(), log, failure: None };
    assert(artifacts_view(out.artifacts@) =~= Seq::empty());
    assert(notices_view(out.log@) =~= seq![notice@]);
    out
}

/// The extraction that holds one artifact and the notice that it arose.
fn stored(artifact: Artifact) -> (out: Extraction)
    ensures
        out@ == extracted_so_far(seq![artifact@], seq![NoticeView::Stored]),
{
    let mut artifacts: Vec<Artifact> = Vec::new();
    artifacts.push(artifact);
    let mut log: Vec<Notice> = Vec::new();
    log.push(Notice::Stored);
    let out = Extraction { artifacts, log, failure: None };
    assert(artifacts_view(out.artifacts@) =~= seq![artifact@]);
    assert(notices_view(out.log@) =~= seq![NoticeView::Stored]);
    out
}

/// The extraction that is nothing but a failure.
fn failed(failure: PfsError) -> (out: Extraction)
    ensures
        out@ == extraction_failed(failure),
{
    let out = Extraction { artifacts: Vec::new(), log: Vec::new(), failure: Some(failure) };
    assert(artifacts_view(out.artifacts@) =~= Seq::empty());
    assert(notices_view(out.log@) =~= Seq::empty());
    out
}

/// One extraction and then another.
fn then(first: Extraction, rest: Extraction) -> (out: Extraction)
    ensures
        out@ == extracted_then(first@, rest@),
{
    if first.failure.is_some() {
        return first;
    }
    let Extraction { artifacts, log, failure: _ } = first;
    let Extraction { artifacts: more_artifacts, log: more_log, failure } = rest;
    let mut artifacts = artifacts;
    let mut log = log;
    let mut more_artifacts = more_artifacts;
    let mut more_log = more_log;
    let ghost a = artifacts@;
    let ghost b = more_artifacts@;
    let ghost c = log@;
    let ghost d = more_log@;
    artifacts.append(&mut more_artifacts);
    log.append(&mut more_log);
    assert(artifacts_view(artifacts@) =~= artifacts_view(a) + artifacts_view(b));
    assert(notices_view(log@) =~= notices_view(c) + notices_view(d));
    Extraction { artifacts, log, failure }
}

//
// Names of artifacts
//
/// The label of a section in the names of its artifacts: `section_` and its
/// index where it has no name; else its index, an underscore and its name
/// with underscores for spaces.
pub open spec fn section_label(index: nat, name: Seq<char>) -> Seq<char> {
    if name.len() == 0 {
        "section_"@ + decimal_text(index)
    } else {
        decimal_text(index).push('_') + underscored(name)
    }
}

/// What the names of all artifacts of one section begin with: the prefix of
/// the container, the section's label, an underscore and its display version.
pub open spec fn artifact_stem(
    prefix: Seq<char>,
    index: nat,
    name: Seq<char>,
    version: Seq<char>,
) -> Seq<char> {
    prefix + section_label(index, name).push('_') + version
}

/// The label of a section in the names of its artifacts.
pub fn pfs_section_label(index: usize, name: &str) -> (label: String)
    ensures
        label@ == section_label(index as nat, name@),
{
    let mut label = String::new();
    if name.is_empty() {
        label.append("section_");
        push_decimal(&mut label, index as u64);
    } else {
        push_decimal(&mut label, index as u64);
        label.push('_');
        push_underscored(&mut label, name);
    }
    assert(label@ =~= section_label(index as nat, name@));
    label
}

/// What the names of all artifacts of one section begin with.
pub fn pfs_artifact_stem(prefix: &str, index: usize, name: &str, version: &str) -> (stem: String)
    ensures
        stem@ == artifact_stem(prefix@, index as nat, name@, version@),
{
    let mut stem = String::from_str(prefix);
    let label = pfs_section_label(index, name);
    stem.append(label.as_str());
    stem.push('_');
    stem.append(version);
    assert(stem@ =~= artifact_stem(prefix@, index as nat, name@, version@));
    stem
}

/// The artifact for a blob, named by the section's stem and a suffix.
fn blob_artifact(stem: &String, suffix: &str, data: &[u8]) -> (artifact: Artifact)
    ensures
        artifact@ == (ArtifactView { name: stem@ + suffix@, data: data@ }),
{
    let mut name = stem.clone();
    name.append(suffix);
    Artifact { name, data: slice_to_vec(data) }
}

/// The artifact for a blob that may be absent.
pub open spec fn optional_artifact(blob: Option<Seq<u8>>, name: Seq<char>) -> Seq<ArtifactView> {
    match blob {
        Some(data) => seq![ArtifactView { name, data }],
        None => Seq::empty(),
    }
}

/// The blobs of a section with data, as artifacts: the data, then the data
/// signature, the metadata and the metadata signature, each if it is there.
pub open spec fn section_blobs(section: PfsSectionView, stem: Seq<char>) -> Seq<ArtifactView> {
    seq![ArtifactView { name: stem + "data"@, data: section.data->0 }] + optional_artifact(
        section.data_sig,
        stem + "data.sig"@,
    ) + optional_artifact(section.meta, stem + "meta"@) + optional_artifact(
        section.meta_sig,
        stem + "meta.sig"@,
    )
}

//
// Classification
//
/// What the data of a section is, by the first of three attempts that
/// succeeds.
#[derive(Debug, PartialEq, Eq)]
pub enum PfsPayload<'a> {
    /// The data is the wrapper of a zlib stream.
    Compressed(PfsCompressedSection<'a>),
    /// The data is a nested container, each section of which holds a chunk.
    SubsectionChunks(Vec<PfsChunk<'a>>),
    /// The data is neither, and is taken as it stands.
    RawLeaf,
}

/// A classified payload as a mathematical value.
pub enum PfsPayloadView {
    Compressed(PfsCompressedSectionView),
    SubsectionChunks(Seq<PfsChunkView>),
    RawLeaf,
}

impl<'a> View for PfsPayload<'a> {
    type V = PfsPayloadView;

    open spec fn view(&self) -> PfsPayloadView {
        match self {
            PfsPayload::Compressed(wrapper) => PfsPayloadView::Compressed(wrapper@),
            PfsPayload::SubsectionChunks(chunks) => PfsPayloadView::SubsectionChunks(
                chunks_view(chunks@),
            ),
            PfsPayload::RawLeaf => PfsPayloadView::RawLeaf,
        }
    }
}

/// What `pfs_classify` makes of the data of a section. A compressed section
/// comes first. Failing that, a nested container all of whose sections hold
/// chunks. Failing that too, a leaf.
pub open spec fn classified(data: Seq<u8>) -> PfsPayloadView {
    match compressed_section_of(data) {
        Ok((_, wrapper)) => PfsPayloadView::Compressed(wrapper),
        Err(_) => match file_of(data) {
            Ok((_, file)) => match chunks_of(file.sections) {
                Ok(chunks) => PfsPayloadView::SubsectionChunks(chunks),
                Err(_) => PfsPayloadView::RawLeaf,
            },
            Err(_) => PfsPayloadView::RawLeaf,
        },
    }
}

/// What is to be told of the bytes left unread, if there are any.
pub open spec fn unparsed_notice(left: nat) -> Seq<NoticeView> {
    if left > 0 {
        seq![NoticeView::Unparsed(left)]
    } else {
        Seq::empty()
    }
}

/// What is to be told of the data of a section: that it is a compressed
/// section, or else that it is a nested container, and either time the bytes
/// that the decoder left unread. Nothing of data that is neither.
pub open spec fn payload_notices(data: Seq<u8>) -> Seq<NoticeView> {
    match compressed_section_of(data) {
        Ok((rest, _)) => seq![NoticeView::Compressed] + unparsed_notice(rest.len()),
        Err(_) => match file_of(data) {
            Ok((rest, _)) => seq![NoticeView::Subsection] + unparsed_notice(rest.len()),
            Err(_) => Seq::empty(),
        },
    }
}

/// Adds the notice of bytes left unread, if there are any.
fn note_unparsed(log: &mut Vec<Notice>, left: usize)
    ensures
        notices_view(final(log)@) == notices_view(old(log)@) + unparsed_notice(left as nat),
{
    if left > 0 {
        log.push(Notice::Unparsed(left));
    }
    assert(notices_view(log@) =~= notices_view(old(log)@) + unparsed_notice(left as nat));
}

/// Classifies the data of a section, and says what is to be told of it. No
/// attempt that fails leaves a trace.
pub fn pfs_inspect<'a>(data: &'a [u8]) -> (found: (PfsPayload<'a>, Vec<Notice>))
    ensures
        found.0@ == classified(data@),
        notices_view(found.1@) == payload_notices(data@),
{
    let mut log: Vec<Notice> = Vec::new();
    assert(notices_view(log@) =~= Seq::empty());
    match pfs_compressed_section(data) {
        Ok((rest, wrapper)) => {
            log.push(Notice::Compressed);
            assert(notices_view(log@) =~= seq![NoticeView::Compressed]);
            note_unparsed(&mut log, rest.len());
            (PfsPayload::Compressed(wrapper), log)
        },
        Err(_) => match pfs_file(data) {
            Ok((rest, file)) => {
                log.push(Notice::Subsection);
                assert(notices_view(log@) =~= seq![NoticeView::Subsection]);
                note_unparsed(&mut log, rest.len());
                match pfs_chunks(&file.sections) {
                    Ok(chunks) => (PfsPayload::SubsectionChunks(chunks), log),
                    Err(_) => (PfsPayload::RawLeaf, log),
                }
            },
            Err(_) => (PfsPayload::RawLeaf, log),
        },
    }
}

/// Classifies the data of a section.
pub fn pfs_classify<'a>(data: &'a [u8]) -> (kind: PfsPayload<'a>)
    ensures
        kind@ == classified(data@),
{
    pfs_inspect(data).0
}

//
// Extraction
//
/// The number of levels of nested containers that a caller with no bound of
/// its own allows below the buffer it hands over.
pub const MAX_NESTING_DEPTH: usize = 16;

/// What is to be told of the version of a section: the unknown tag at which
/// the scan gave up, or the version that was read, if one was.
pub open spec fn version_notices(version_type: Seq<u8>, version: Seq<u16>) -> Seq<NoticeView> {
    match version_scan(version_type, version, 0) {
        Err(tag) => seq![NoticeView::UnknownVersionType(tag)],
        Ok(text) => if text.len() > 0 {
            seq![NoticeView::Version(text)]
        } else {
            Seq::empty()
        },
    }
}

/// What is to be told of every section, with data or without: its identity
/// and sizes, then its version.
pub open spec fn section_notices(section: PfsSectionView) -> Seq<NoticeView> {
    seq![
        NoticeView::Section {
            guid: section.guid,
            header_version: section.header_version,
            data_size: section.data_size,
            data_sig_size: section.data_sig_size,
            meta_size: section.meta_size,
            meta_sig_size: section.meta_sig_size,
        },
    ] + version_notices(section.version_type, section.version)
}

/// As many notices of an artifact as there are artifacts.
pub open spec fn stored_notices(count: nat) -> Seq<NoticeView> {
    Seq::new(count, |i: int| NoticeView::Stored)
}

/// What the payload of a compressed section gives once it was handed to the
/// decompressor. A payload that did not inflate is a failure. The inflated
/// bytes are an artifact; if they are a container, it is unpacked under a
/// prefix of its own, unless no further level is allowed.
pub open spec fn extracted_inflated(
    inflated: Option<Seq<u8>>,
    stem: Seq<char>,
    depth: nat,
) -> ExtractionView
    decreases depth, 0int, 0int,
{
    match inflated {
        None => extraction_failed(PfsError::DecompressionFailure),
        Some(bytes) => extracted_then(
            extracted_so_far(
                seq![ArtifactView { name: stem + "decompressed"@, data: bytes }],
                seq![NoticeView::Stored],
            ),
            if file_of(bytes) is Err {
                extracted_so_far(Seq::empty(), seq![NoticeView::NotAContainer])
            } else if depth == 0 {
                extraction_failed(PfsError::NestingTooDeep)
            } else {
                extracted(bytes, stem.push('_'), (depth - 1) as nat)->Ok_0
            },
        ),
    }
}

/// What the data of a section gives behind the section's blobs, by its
/// classification: the unpacked payload of a compressed section, the joined
/// chunks of a nested container if it holds any, nothing for a leaf.
pub open spec fn extracted_payload(kind: PfsPayloadView, stem: Seq<char>, depth: nat) -> ExtractionView
    decreases depth, 1int, 0int,
{
    match kind {
        PfsPayloadView::Compressed(wrapper) => extracted_inflated(
            zlib_inflated(wrapper.data),
            stem,
            depth,
        ),
        PfsPayloadView::SubsectionChunks(chunks) => if chunks.len() == 0 {
            nothing_extracted()
        } else {
            extracted_so_far(
                seq![ArtifactView { name: stem + "data.payload"@, data: reassembled(chunks) }],
                seq![NoticeView::Stored],
            )
        },
        PfsPayloadView::RawLeaf => nothing_extracted(),
    }
}

/// What one section gives, as the section with the given index (counted from
/// one) of a container with the given prefix: for a section without data
/// only what is to be told of it; else also its blobs, and what its data
/// gives by its classification.
pub open spec fn extracted_section(
    section: PfsSectionView,
    index: nat,
    prefix: Seq<char>,
    depth: nat,
) -> ExtractionView
    decreases depth, 2int, 0int,
{
    let told = extracted_so_far(Seq::empty(), section_notices(section));
    if section.data_size == 0 {
        told
    } else {
        let stem = artifact_stem(
            prefix,
            index,
            section.name,
            version_text(section.version_type, section.version),
        );
        let blobs = section_blobs(section, stem);
        extracted_then(
            told,
            extracted_then(
                extracted_so_far(
                    blobs,
                    stored_notices(blobs.len()) + payload_notices(section.data->0),
                ),
                extracted_payload(classified(section.data->0), stem, depth),
            ),
        )
    }
}

/// What the sections from position `from` on give, one after the other, up
/// to the first failure.
pub open spec fn extracted_sections(
    sections: Seq<PfsSectionView>,
    from: nat,
    prefix: Seq<char>,
    depth: nat,
) -> ExtractionView
    decreases depth, 3int, sections.len() - from,
{
    if from >= sections.len() {
        nothing_extracted()
    } else {
        extracted_then(
            extracted_section(sections[from as int], from + 1, prefix, depth),
            extracted_sections(sections, from + 1, prefix, depth),
        )
    }
}

/// What `pfs_extract` makes of a buffer: the error of the container decoder,
/// or what the sections of the container give once they are named. The log
/// starts with the bytes left unread behind the footer and behind the last
/// record of the information section.
pub open spec fn extracted(data: Seq<u8>, prefix: Seq<char>, depth: nat) -> Result<
    ExtractionView,
    PfsError,
>
    decreases depth, 4int, 0int,
{
    match file_of(data) {
        Err(e) => Err(e),
        Ok((rest, file)) => Ok(
            extracted_then(
                extracted_so_far(
                    Seq::empty(),
                    unparsed_notice(rest.len()) + unparsed_notice(info_unread(file.sections)),
                ),
                extracted_sections(resolved_sections(file.sections), 0, prefix, depth),
            ),
        ),
    }
}

/// The bytes of an optional vector.
pub open spec fn bytes_view(bytes: Option<Vec<u8>>) -> Option<Seq<u8>> {
    match bytes {
        Some(v) => Some(v@),
        None => None,
    }
}

/// Adds the artifact for a blob that may be absent.
fn push_optional(artifacts: &mut Vec<Artifact>, stem: &String, suffix: &str, blob: Option<&[u8]>)
    ensures
        artifacts_view(final(artifacts)@) == artifacts_view(old(artifacts)@) + optional_artifact(
            blob_view(blob),
            stem@ + suffix@,
        ),
{
    match blob {
        Some(data) => {
            artifacts.push(blob_artifact(stem, suffix, data));
        },
        None => {},
    }
    assert(artifacts_view(artifacts@) =~= artifacts_view(old(artifacts)@) + optional_artifact(
        blob_view(blob),
        stem@ + suffix@,
    ));
}

/// As many notices of an artifact as asked for.
fn stored_times(count: usize) -> (log: Vec<Notice>)
    ensures
        notices_view(log@) == stored_notices(count as nat),
{
    let mut log: Vec<Notice> = Vec::new();
    let mut i: usize = 0;
    while i < count
        invariant
            i <= count,
            log@.len() == i,
            forall|j: int| 0 <= j < i ==> (#[trigger] log@[j])@ == NoticeView::Stored,
        decreases count - i,
    {
        log.push(Notice::Stored);
        i += 1;
    }
    assert(notices_view(log@) =~= stored_notices(count as nat));
    log
}

/// Whether a buffer decodes as a container.
pub fn pfs_is_container(data: &[u8]) -> (yes: bool)
    ensures
        yes == file_of(data@) is Ok,
{
    match pfs_file(data) {
        Ok(_) => true,
        Err(_) => false,
    }
}

/// What is to be told of a section, given what the scan of its version gave.
fn told_of_section<'a>(section: &PfsSection<'a>, scan: &Result<String, u8>) -> (log: Vec<Notice>)
    requires
        match scan {
            Ok(text) => version_scan(section@.version_type, section@.version, 0) == Ok::<_, u8>(
                text@,
            ),
            Err(tag) => version_scan(section@.version_type, section@.version, 0) == Err::<
                Seq<char>,
                _,
            >(*tag),
        },
    ensures
        notices_view(log@) == section_notices(section@),
{
    let mut log: Vec<Notice> = Vec::new();
    log.push(
        Notice::Section {
            guid: Guid {
                data1: section.guid.data1,
                data2: section.guid.data2,
                data3: section.guid.data3,
                data4: section.guid.data4,
            },
            header_version: section.header_version,
            data_size: section.data_size,
            data_sig_size: section.data_sig_size,
            meta_size: section.meta_size,
            meta_sig_size: section.meta_sig_size,
        },
    );
    match scan {
        Ok(text) => {
            if !text.as_str().is_empty() {
                log.push(Notice::Version(text.clone()));
            }
        },
        Err(tag) => {
            log.push(Notice::UnknownVersionType(*tag));
        },
    }
    assert(notices_view(log@) =~= section_notices(section@));
    log
}

/// Takes the outcome of inflating a compressed section's payload (`None`
/// where it did not inflate) and does the rest: the inflated bytes become an
/// artifact named by `stem`, and are unpacked as a container under the prefix
/// `stem` and an underscore. `depth` is the number of levels of nested
/// containers that may still be entered.
#[verifier::rlimit(40)]
pub fn pfs_extract_inflated(inflated: Option<Vec<u8>>, stem: &str, depth: usize) -> (out:
    Extraction)
    ensures
        out@ == extracted_inflated(bytes_view(inflated), stem@, depth as nat),
    decreases depth, 0int, 0int,
{
    let bytes = match inflated {
        None => {
            return failed(PfsError::DecompressionFailure);
        },
        Some(bytes) => bytes,
    };
    let nested = if depth == 0 {
        if pfs_is_container(bytes.as_slice()) {
            failed(PfsError::NestingTooDeep)
        } else {
            noticed(Notice::NotAContainer)
        }
    } else {
        let mut prefix = String::from_str(stem);
        prefix.push('_');
        match pfs_extract(bytes.as_slice(), prefix.as_str(), depth - 1) {
            Ok(inner) => inner,
            Err(_) => noticed(Notice::NotAContainer),
        }
    };
    let mut name = String::from_str(stem);
    name.append("decompressed");
    then(stored(Artifact { name, data: bytes }), nested)
}

/// Unpacks the data of a section behind the section's blobs: inflates and
/// unpacks a compressed section, joins the chunks of a nested container, and
/// adds nothing for a leaf or for a nested container without chunks.
#[verifier::rlimit(40)]
pub fn pfs_extract_payload<'a>(kind: PfsPayload<'a>, stem: &str, depth: usize) -> (out: Extraction)
    ensures
        out@ == extracted_payload(kind@, stem@, depth as nat),
    decreases depth, 1int, 0int,
{
    match kind {
        PfsPayload::Compressed(wrapper) => {
            let inflated = match pfs_inflate(&wrapper) {
                Ok(bytes) => Some(bytes),
                Err(_) => None,
            };
            pfs_extract_inflated(inflated, stem, depth)
        },
        PfsPayload::SubsectionChunks(chunks) => {
            if chunks.len() == 0 {
                return nothing();
            }
            let mut name = String::from_str(stem);
            name.append("data.payload");
            stored(Artifact { name, data: pfs_reassemble(&chunks) })
        },
        PfsPayload::RawLeaf => nothing(),
    }
}

/// Unpacks one section: for a section without data only what is to be told
/// of it; else also its blobs, and what its data gives by its
/// classification. `index` counts the sections of the container from one.
#[verifier::rlimit(40)]
pub fn pfs_extract_section<'a>(
    section: &PfsSection<'a>,
    index: usize,
    prefix: &str,
    depth: usize,
) -> (out: Extraction)
    requires
        section.wf(),
    ensures
        out@ == extracted_section(section@, index as nat, prefix@, depth as nat),
    decreases depth, 2int, 0int,
{
    let scan = pfs_version_scan(&section.version_type, &section.version);
    let told = so_far(Vec::new(), told_of_section(section, &scan));
    assert(told@ == extracted_so_far(Seq::empty(), section_notices(section@))) by {
        assert(artifacts_view(told.artifacts@) =~= Seq::empty());
    }
    if section.data_size == 0 {
        return told;
    }
    let data: &'a [u8] = match section.data {
        Some(data) => data,
        None => {
            return told;
        },
    };
    let version = pfs_version_of_scan(scan);
    let stem = pfs_artifact_stem(prefix, index, section.name.as_str(), version.as_str());
    let mut artifacts: Vec<Artifact> = Vec::new();
    artifacts.push(blob_artifact(&stem, "data", data));
    assert(artifacts_view(artifacts@) =~= seq![
        ArtifactView { name: stem@ + "data"@, data: data@ },
    ]);
    push_optional(&mut artifacts, &stem, "data.sig", section.data_sig);
    push_optional(&mut artifacts, &stem, "meta", section.meta);
    push_optional(&mut artifacts, &stem, "meta.sig", section.meta_sig);
    assert(artifacts_view(artifacts@) == section_blobs(section@, stem@));
    let (kind, mut told_of_data) = pfs_inspect(data);
    let mut log = stored_times(artifacts.len());
    let ghost stored_log = notices_view(log@);
    let ghost data_log = notices_view(told_of_data@);
    log.append(&mut told_of_data);
    assert(notices_view(log@) =~= stored_log + data_log);
    let blobs = so_far(artifacts, log);
    let behind = pfs_extract_payload(kind, stem.as_str(), depth);
    then(told, then(blobs, behind))
}

/// Unpacks a buffer: decodes it as a container, names its sections by its
/// information section, and unpacks the sections in order, up to the first
/// failure. A buffer that is no container is refused with the decoder's
/// error and gives no artifact. `prefix` starts the name of every artifact;
/// `depth` is the number of levels of nested containers that may be entered
/// below this one.
#[verifier::rlimit(40)]
pub fn pfs_extract(data: &[u8], prefix: &str, depth: usize) -> (r: Result<Extraction, PfsError>)
    ensures
        match r {
            Ok(out) => extracted(data@, prefix@, depth as nat) == Ok::<_, PfsError>(out@),
            Err(e) => extracted(data@, prefix@, depth as nat) == Err::<ExtractionView, _>(e),
        },
    decreases depth, 4int, 0int,
{
    let (rest, mut file) = match pfs_file(data) {
        Ok(found) => found,
        Err(e) => {
            return Err(e);
        },
    };
    let unread = pfs_resolve_names(&mut file);
    let ghost sections = sections_view(file.sections@);
    let mut log: Vec<Notice> = Vec::new();
    assert(notices_view(log@) =~= Seq::empty());
    note_unparsed(&mut log, rest.len());
    note_unparsed(&mut log, unread);
    let mut out = so_far(Vec::new(), log);
    assert(artifacts_view(out.artifacts@) =~= Seq::empty());
    let ghost start = out@;
    let ghost whole = extracted_then(
        start,
        extracted_sections(sections, 0, prefix@, depth as nat),
    );
    let mut i: usize = 0;
    while i < file.sections.len()
        invariant_except_break
            out.failure is None,
            whole == extracted_then(
                out@,
                extracted_sections(sections, i as nat, prefix@, depth as nat),
            ),
        invariant
            sections == sections_view(file.sections@),
            sections_fit(sections),
            i <= file.sections@.len(),
        ensures
            whole == out@,
        decreases file.sections@.len() - i,
    {
        assert(sections[i as int].blobs_fit());
        let ghost before = out@;
        let one = pfs_extract_section(&file.sections[i], i + 1, prefix, depth);
        proof {
            lemma_then_is_associative(
                before,
                one@,
                extracted_sections(sections, (i + 1) as nat, prefix@, depth as nat),
            );
        }
        out = then(out, one);
        if out.failure.is_some() {
            break ;
        }
        i += 1;
        proof {
            lemma_then_nothing(out@);
        }
    }
    Ok(out)
}

//
// Laws
//
/// No attempt of the classification fails the unpacking: data that is no
/// compressed section, but a container in which one section holds no chunk,
/// is a leaf, and no chunk of the others is kept.
pub proof fn lemma_one_section_without_chunk_makes_a_leaf(data: Seq<u8>, at: int)
    requires
        compressed_section_of(data) is Err,
        file_of(data) is Ok,
        0 <= at < file_of(data)->Ok_0.1.sections.len(),
        !holds_chunk(file_of(data)->Ok_0.1.sections[at]),
    ensures
        classified(data) == PfsPayloadView::RawLeaf,
{
}

/// A section without data gives no artifact and no failure, whatever its
/// other blobs hold.
pub proof fn lemma_no_data_gives_nothing(
    section: PfsSectionView,
    index: nat,
    prefix: Seq<char>,
    depth: nat,
)
    requires
        section.data_size == 0,
    ensures
        extracted_section(section, index, prefix, depth).artifacts == Seq::<ArtifactView>::empty(),
        extracted_section(section, index, prefix, depth).failure is None,
{
}

/// Data that is neither a compressed section nor a container is a leaf: the
/// section gives its blobs and nothing else, and the first of them is the
/// data as it stands.
pub proof fn lemma_leaf_is_kept_as_it_is(
    section: PfsSectionView,
    index: nat,
    prefix: Seq<char>,
    depth: nat,
)
    requires
        section.data_size != 0,
        section.blobs_fit(),
        compressed_section_of(section.data->0) is Err,
        file_of(section.data->0) is Err,
    ensures
        classified(section.data->0) == PfsPayloadView::RawLeaf,
        extracted_section(section, index, prefix, depth).failure is None,
        extracted_section(section, index, prefix, depth).artifacts == section_blobs(
            section,
            artifact_stem(
                prefix,
                index,
                section.name,
                version_text(section.version_type, section.version),
            ),
        ),
        extracted_section(section, index, prefix, depth).artifacts[0].data == section.data->0,
{
    let stem = artifact_stem(
        prefix,
        index,
        section.name,
        version_text(section.version_type, section.version),
    );
    let blobs = section_blobs(section, stem);
    assert(Seq::<ArtifactView>::empty() + (blobs + Seq::<ArtifactView>::empty()) =~= blobs);
}

/// How many notices of an artifact a log holds.
pub open spec fn stored_count(log: Seq<NoticeView>) -> nat
    decreases log.len(),
{
    if log.len() == 0 {
        0
    } else if log.last() == NoticeView::Stored {
        stored_count(log.drop_last()) + 1
    } else {
        stored_count(log.drop_last())
    }
}

/// An extraction whose log holds one notice of an artifact for each of its
/// artifacts.
pub open spec fn every_artifact_is_noticed(out: ExtractionView) -> bool {
    stored_count(out.log) == out.artifacts.len()
}

proof fn lemma_stored_count_of_two(a: Seq<NoticeView>, b: Seq<NoticeView>)
    ensures
        stored_count(a + b) == stored_count(a) + stored_count(b),
    decreases b.len(),
{
    if b.len() == 0 {
        assert(a + b =~= a);
    } else {
        lemma_stored_count_of_two(a, b.drop_last());
        assert((a + b).drop_last() =~= a + b.drop_last());
    }
}

proof fn lemma_stored_count_of_stored(count: nat)
    ensures
        stored_count(stored_notices(count)) == count,
    decreases count,
{
    if count > 0 {
        lemma_stored_count_of_stored((count - 1) as nat);
        assert(stored_notices(count).drop_last() =~= stored_notices((count - 1) as nat));
    }
}

proof fn lemma_stored_count_of_one(notice: NoticeView)
    ensures
        stored_count(seq![notice]) == if notice == NoticeView::Stored {
            1nat
        } else {
            0nat
        },
        stored_count(Seq::<NoticeView>::empty()) == 0,
{
    reveal_with_fuel(stored_count, 2);
    assert(seq![notice].drop_last() =~= Seq::<NoticeView>::empty());
    assert(seq![notice].last() == notice);
}

proof fn lemma_then_keeps_the_count(a: ExtractionView, b: ExtractionView)
    requires
        every_artifact_is_noticed(a),
        every_artifact_is_noticed(b),
    ensures
        every_artifact_is_noticed(extracted_then(a, b)),
{
    lemma_stored_count_of_two(a.log, b.log);
}

proof fn lemma_unparsed_is_not_stored(left: nat)
    ensures
        stored_count(unparsed_notice(left)) == 0,
{
    lemma_stored_count_of_one(NoticeView::Unparsed(left));
}

proof fn lemma_inflated_is_noticed(inflated: Option<Seq<u8>>, stem: Seq<char>, depth: nat)
    ensures
        every_artifact_is_noticed(extracted_inflated(inflated, stem, depth)),
    decreases depth, 0int, 0int,
{
    lemma_stored_count_of_one(NoticeView::Stored);
    lemma_stored_count_of_one(NoticeView::NotAContainer);
    match inflated {
        None => {},
        Some(bytes) => {
            let first = extracted_so_far(
                seq![ArtifactView { name: stem + "decompressed"@, data: bytes }],
                seq![NoticeView::Stored],
            );
            if file_of(bytes) is Err {
                lemma_then_keeps_the_count(
                    first,
                    extracted_so_far(Seq::empty(), seq![NoticeView::NotAContainer]),
                );
            } else if depth == 0 {
                lemma_then_keeps_the_count(first, extraction_failed(PfsError::NestingTooDeep));
            } else {
                lemma_every_artifact_is_noticed(bytes, stem.push('_'), (depth - 1) as nat);
                lemma_then_keeps_the_count(
                    first,
                    extracted(bytes, stem.push('_'), (depth - 1) as nat)->Ok_0,
                );
            }
        },
    }
}

proof fn lemma_payload_is_noticed(kind: PfsPayloadView, stem: Seq<char>, depth: nat)
    ensures
        every_artifact_is_noticed(extracted_payload(kind, stem, depth)),
    decreases depth, 1int, 0int,
{
    lemma_stored_count_of_one(NoticeView::Stored);
    match kind {
        PfsPayloadView::Compressed(wrapper) => {
            lemma_inflated_is_noticed(zlib_inflated(wrapper.data), stem, depth);
        },
        PfsPayloadView::SubsectionChunks(_) => {},
        PfsPayloadView::RawLeaf => {},
    }
}

proof fn lemma_told_is_not_stored(section: PfsSectionView)
    ensures
        stored_count(section_notices(section)) == 0,
        section.data is Some ==> stored_count(payload_notices(section.data->0)) == 0,
{
    let first = NoticeView::Section {
        guid: section.guid,
        header_version: section.header_version,
        data_size: section.data_size,
        data_sig_size: section.data_sig_size,
        meta_size: section.meta_size,
        meta_sig_size: section.meta_sig_size,
    };
    lemma_stored_count_of_one(first);
    let of_version = version_notices(section.version_type, section.version);
    match version_scan(section.version_type, section.version, 0) {
        Err(tag) => {
            lemma_stored_count_of_one(NoticeView::UnknownVersionType(tag));
        },
        Ok(text) => {
            lemma_stored_count_of_one(NoticeView::Version(text));
        },
    }
    lemma_stored_count_of_two(seq![first], of_version);
    if section.data is Some {
        let data = section.data->0;
        lemma_stored_count_of_one(NoticeView::Compressed);
        lemma_stored_count_of_one(NoticeView::Subsection);
        match compressed_section_of(data) {
            Ok((rest, _)) => {
                lemma_unparsed_is_not_stored(rest.len());
                lemma_stored_count_of_two(
                    seq![NoticeView::Compressed],
                    unparsed_notice(rest.len()),
                );
            },
            Err(_) => match file_of(data) {
                Ok((rest, _)) => {
                    lemma_unparsed_is_not_stored(rest.len());
                    lemma_stored_count_of_two(
                        seq![NoticeView::Subsection],
                        unparsed_notice(rest.len()),
                    );
                },
                Err(_) => {},
            },
        }
    }
}

proof fn lemma_section_is_noticed(
    section: PfsSectionView,
    index: nat,
    prefix: Seq<char>,
    depth: nat,
)
    requires
        section.blobs_fit(),
    ensures
        every_artifact_is_noticed(extracted_section(section, index, prefix, depth)),
    decreases depth, 2int, 0int,
{
    lemma_told_is_not_stored(section);
    let told = extracted_so_far(Seq::empty(), section_notices(section));
    if section.data_size != 0 {
        let stem = artifact_stem(
            prefix,
            index,
            section.name,
            version_text(section.version_type, section.version),
        );
        let blobs = section_blobs(section, stem);
        let data = section.data->0;
        lemma_stored_count_of_stored(blobs.len());
        lemma_stored_count_of_two(stored_notices(blobs.len()), payload_notices(data));
        lemma_payload_is_noticed(classified(data), stem, depth);
        let first = extracted_so_far(blobs, stored_notices(blobs.len()) + payload_notices(data));
        let behind = extracted_payload(classified(data), stem, depth);
        lemma_then_keeps_the_count(first, behind);
        lemma_then_keeps_the_count(told, extracted_then(first, behind));
    }
}

proof fn lemma_sections_are_noticed(
    sections: Seq<PfsSectionView>,
    from: nat,
    prefix: Seq<char>,
    depth: nat,
)
    requires
        sections_fit(sections),
    ensures
        every_artifact_is_noticed(extracted_sections(sections, from, prefix, depth)),
    decreases depth, 3int, sections.len() - from,
{
    lemma_stored_count_of_one(NoticeView::Stored);
    if from < sections.len() {
        assert(sections[from as int].blobs_fit());
        lemma_section_is_noticed(sections[from as int], from + 1, prefix, depth);
        lemma_sections_are_noticed(sections, from + 1, prefix, depth);
        lemma_then_keeps_the_count(
            extracted_section(sections[from as int], from + 1, prefix, depth),
            extracted_sections(sections, from + 1, prefix, depth),
        );
    }
}

/// The log of an extraction holds one notice of an artifact for each
/// artifact of the extraction: whoever reads the log and takes the next
/// artifact at each such notice finds one, and none is left at the end.
pub proof fn lemma_every_artifact_is_noticed(data: Seq<u8>, prefix: Seq<char>, depth: nat)
    requires
        extracted(data, prefix, depth) is Ok,
    ensures
        every_artifact_is_noticed(extracted(data, prefix, depth)->Ok_0),
    decreases depth, 4int, 0int,
{
    let (rest, file) = file_of(data)->Ok_0;
    let sections = resolved_sections(file.sections);
    lemma_decoded_file_fits(data);
    lemma_names_keep_the_blobs(file.sections);
    lemma_sections_are_noticed(sections, 0, prefix, depth);
    lemma_unparsed_is_not_stored(rest.len());
    lemma_unparsed_is_not_stored(info_unread(file.sections));
    lemma_stored_count_of_two(
        unparsed_notice(rest.len()),
        unparsed_notice(info_unread(file.sections)),
    );
    lemma_then_keeps_the_count(
        extracted_so_far(
            Seq::empty(),
            unparsed_notice(rest.len()) + unparsed_notice(info_unread(file.sections)),
        ),
        extracted_sections(sections, 0, prefix, depth),
    );
}

} // verus!
