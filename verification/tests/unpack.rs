use flate2::write::ZlibEncoder;
use flate2::Compression;
use pfsextractor::error::PfsError;
use pfsextractor::extract::{
    pfs_artifact_stem, pfs_classify, pfs_extract, pfs_extract_inflated, pfs_extract_payload,
    pfs_extract_section, pfs_inspect, pfs_is_container, pfs_section_label, Artifact, Extraction,
    Notice, PfsPayload, MAX_NESTING_DEPTH,
};
use pfsextractor::inflate::pfs_inflate;
use pfsextractor::parser::{
    pfs_compressed_section, pfs_section, Guid, PfsChunk, PfsCompressedSection,
};
use std::io::Write;

fn deflate(bytes: &[u8]) -> Vec<u8> {
    let mut encoder = ZlibEncoder::new(Vec::new(), Compression::default());
    encoder.write_all(bytes).unwrap();
    encoder.finish().unwrap()
}

fn wrap(payload: &[u8]) -> Vec<u8> {
    let mut out = (payload.len() as u32).to_le_bytes().to_vec();
    out.extend_from_slice(&[0xAA, 0xEE, 0xAA, 0x76, 0x1B, 0xEC, 0xBB, 0x20, 0xF1, 0xE6, 0x51]);
    out.push(0);
    out.extend_from_slice(payload);
    out.extend_from_slice(&[0u8; 16]);
    out
}

fn section(version_type: [u8; 4], version: [u16; 4], blobs: [&[u8]; 4]) -> Vec<u8> {
    let mut out = vec![0x42u8; 16];
    out.extend_from_slice(&[0u8; 4]);
    out.extend_from_slice(&version_type);
    for v in version.iter() {
        out.extend_from_slice(&v.to_le_bytes());
    }
    out.extend_from_slice(&[0u8; 8]);
    for blob in blobs.iter() {
        out.extend_from_slice(&(blob.len() as u32).to_le_bytes());
    }
    out.extend_from_slice(&[0u8; 16]);
    for blob in blobs.iter() {
        out.extend_from_slice(blob);
    }
    out
}

fn data_section(data: &[u8]) -> Vec<u8> {
    section([0; 4], [0; 4], [data, b"", b"", b""])
}

fn container(sections: &[Vec<u8>]) -> Vec<u8> {
    let mut out = b"PFS.HDR.".to_vec();
    out.extend_from_slice(&[0u8; 8]);
    for s in sections.iter() {
        out.extend_from_slice(s);
    }
    out.extend_from_slice(&[0u8; 8]);
    out.extend_from_slice(b"PFS.FTR.");
    out
}

fn info_record(name: &str) -> Vec<u8> {
    let units: Vec<u16> = name.encode_utf16().collect();
    let mut out = vec![0u8; 32];
    out.extend_from_slice(&(units.len() as u16).to_le_bytes());
    for u in units.iter() {
        out.extend_from_slice(&u.to_le_bytes());
    }
    out.extend_from_slice(&[0, 0]);
    out
}

fn chunk(order_number: u16, payload: &[u8]) -> Vec<u8> {
    let mut out = vec![0u8; 0x3E];
    out.extend_from_slice(&order_number.to_le_bytes());
    out.extend_from_slice(&vec![0u8; 0x248 - 0x40]);
    out.extend_from_slice(payload);
    out
}

fn artifact(name: &str, data: &[u8]) -> Artifact {
    Artifact { name: String::from(name), data: data.to_vec() }
}

fn outcome(extraction: Extraction) -> (Vec<Artifact>, Option<PfsError>) {
    (extraction.artifacts, extraction.failure)
}

fn names(extraction: &Extraction) -> Vec<&str> {
    extraction.artifacts.iter().map(|a| a.name.as_str()).collect()
}

#[test]
fn labels_of_sections() {
    assert_eq!(pfs_section_label(1, ""), "section_1");
    assert_eq!(pfs_section_label(12, ""), "section_12");
    assert_eq!(pfs_section_label(3, "System BIOS with  spaces"), "3_System_BIOS_with__spaces");
    assert_eq!(pfs_section_label(10, "x"), "10_x");
}

#[test]
fn stems_of_artifact_names() {
    assert_eq!(pfs_artifact_stem("", 1, "", "0."), "section_1_0.");
    assert_eq!(pfs_artifact_stem("", 2, "Intel ME", "1.2."), "2_Intel_ME_1.2.");
    assert_eq!(
        pfs_artifact_stem("1_Outer_A.B._", 4, "Inner Part", "9."),
        "1_Outer_A.B._4_Inner_Part_9."
    );
}

#[test]
fn classification_of_a_leaf() {
    assert_eq!(pfs_classify(b"just some bytes"), PfsPayload::RawLeaf);
    assert_eq!(pfs_classify(b""), PfsPayload::RawLeaf);
    let cut = container(&[data_section(b"x")]);
    assert_eq!(pfs_classify(&cut[..cut.len() - 1]), PfsPayload::RawLeaf);
}

#[test]
fn classification_of_a_compressed_section() {
    let wrapped = wrap(b"not even zlib");
    assert_eq!(
        pfs_classify(&wrapped),
        PfsPayload::Compressed(PfsCompressedSection { size: 13, data: &b"not even zlib"[..] })
    );
}

#[test]
fn classification_of_chunks() {
    let nested = container(&[data_section(&chunk(2, b"B")), data_section(&chunk(1, b"A"))]);
    assert_eq!(
        pfs_classify(&nested),
        PfsPayload::SubsectionChunks(vec![
            PfsChunk { order_number: 2, data: &b"B"[..] },
            PfsChunk { order_number: 1, data: &b"A"[..] },
        ])
    );
    let empty = container(&[]);
    assert_eq!(pfs_classify(&empty), PfsPayload::SubsectionChunks(Vec::new()));
}

#[test]
fn classification_falls_through_when_a_chunk_fails() {
    let nested = container(&[data_section(&chunk(2, b"B")), data_section(b"short")]);
    assert_eq!(pfs_classify(&nested), PfsPayload::RawLeaf);
    let nested = container(&[data_section(&chunk(2, b"B")), data_section(b"")]);
    assert_eq!(pfs_classify(&nested), PfsPayload::RawLeaf);
}

#[test]
fn containers_are_recognised() {
    assert!(pfs_is_container(&container(&[])));
    assert!(pfs_is_container(&container(&[data_section(b"x")])));
    assert!(!pfs_is_container(b"PFS.HDR."));
    assert!(!pfs_is_container(b""));
}

#[test]
fn inflating_gives_the_bytes_that_were_compressed() {
    let text = b"hello hello hello hello hello hello";
    let wrapped = wrap(&deflate(text));
    let (_, compressed) = pfs_compressed_section(&wrapped).unwrap();
    assert_ne!(compressed.data, &text[..]);
    assert_eq!(pfs_inflate(&compressed), Ok(text.to_vec()));
    let known = [0x78u8, 0x9C, 0xCB, 0x48, 0xCD, 0xC9, 0xC9, 0x07, 0x00, 0x06, 0x2C, 0x02, 0x15];
    assert_eq!(
        pfs_inflate(&PfsCompressedSection { size: 13, data: &known[..] }),
        Ok(b"hello".to_vec())
    );
}

#[test]
fn inflating_what_is_no_stream_fails() {
    let garbage = PfsCompressedSection { size: 7, data: &b"garbage"[..] };
    assert_eq!(pfs_inflate(&garbage), Err(PfsError::DecompressionFailure));
    let full = deflate(b"some longer text that is cut in the middle of the stream");
    let cut = PfsCompressedSection { size: 10, data: &full[..10] };
    assert_eq!(pfs_inflate(&cut), Err(PfsError::DecompressionFailure));
    let none = PfsCompressedSection { size: 0, data: &b""[..] };
    assert_eq!(pfs_inflate(&none), Err(PfsError::DecompressionFailure));
}

#[test]
fn zero_size_skip() {
    let bytes = section([0x41, 0, 0, 0], [1, 0, 0, 0], [b"", b"", b"", b""]);
    let (_, s) = pfs_section(&bytes).unwrap();
    assert_eq!(outcome(pfs_extract_section(&s, 1, "", 4)), (Vec::new(), None));
    let buf = container(&[bytes.clone(), bytes]);
    assert_eq!(pfs_extract(&buf, "", 4).map(outcome), Ok((Vec::new(), None)));
}

#[test]
fn section_without_data_is_skipped_with_its_other_blobs() {
    let bytes = section([0; 4], [0; 4], [b"", b"sig", b"meta", b"metasig"]);
    let (_, s) = pfs_section(&bytes).unwrap();
    assert_eq!(outcome(pfs_extract_section(&s, 1, "", 4)), (Vec::new(), None));
}

#[test]
fn classification_fallthrough() {
    let bytes = section([0x41, 0x4E, 0, 0], [0xA, 11, 0, 0], [b"opaque leaf", b"", b"", b""]);
    let (_, mut s) = pfs_section(&bytes).unwrap();
    s.name = String::from("Leaf Part");
    assert_eq!(
        outcome(pfs_extract_section(&s, 3, "pre_", 4)),
        (vec![artifact("pre_3_Leaf_Part_A.11.data", b"opaque leaf")], None)
    );
}

#[test]
fn every_blob_that_is_there_is_an_artifact() {
    let bytes = section([0; 4], [0; 4], [b"d", b"ds", b"m", b"ms"]);
    let (_, s) = pfs_section(&bytes).unwrap();
    assert_eq!(
        pfs_extract_section(&s, 7, "", 0).artifacts,
        vec![
            artifact("section_7_0.data", b"d"),
            artifact("section_7_0.data.sig", b"ds"),
            artifact("section_7_0.meta", b"m"),
            artifact("section_7_0.meta.sig", b"ms"),
        ]
    );
    let bytes = section([0; 4], [0; 4], [b"d", b"", b"m", b""]);
    let (_, s) = pfs_section(&bytes).unwrap();
    assert_eq!(
        pfs_extract_section(&s, 7, "", 0).artifacts,
        vec![artifact("section_7_0.data", b"d"), artifact("section_7_0.meta", b"m")]
    );
}

#[test]
fn chunks_are_joined_into_a_payload() {
    let nested = container(&[
        data_section(&chunk(3, b"C")),
        data_section(&chunk(1, b"A")),
        data_section(&chunk(2, b"B")),
    ]);
    let bytes = data_section(&nested);
    let (_, s) = pfs_section(&bytes).unwrap();
    assert_eq!(
        outcome(pfs_extract_section(&s, 1, "", 4)),
        (vec![
                artifact("section_1_0.data", &nested),
                artifact("section_1_0.data.payload", b"ABC"),
            ], None)
    );
}

#[test]
fn container_is_unpacked_with_names() {
    let mut info = info_record("First Part");
    info.extend_from_slice(&info_record("Second"));
    let buf = container(&[
        section([0x41, 0x4E, 0x20, 0], [0x1A, 7, 0, 0], [b"one", b"sig", b"", b""]),
        section([0x4E, 0, 0, 0], [3, 0, 0, 0], [b"", b"", b"meta", b""]),
        data_section(&info),
    ]);
    assert_eq!(
        pfs_extract(&buf, "", 4).map(outcome),
        Ok((vec![
                artifact("1_First_Part_1A.7.data", b"one"),
                artifact("1_First_Part_1A.7.data.sig", b"sig"),
                artifact("3_Section_Info_0.data", &info),
            ], None))
    );
}

#[test]
fn compressed_section_is_inflated_and_unpacked() {
    let inner = container(&[
        data_section(b"inner leaf"),
        data_section(&info_record("Inner Name")),
    ]);
    let wrapped = wrap(&deflate(&inner));
    let buf = container(&[
        section([0x41, 0, 0, 0], [0xB, 0, 0, 0], [&wrapped, b"", b"", b""]),
        data_section(&info_record("Outer Name")),
    ]);
    let out = pfs_extract(&buf, "", 1).unwrap();
    assert_eq!(out.failure, None);
    assert_eq!(
        out.artifacts,
        vec![
            artifact("1_Outer_Name_B.data", &wrapped),
            artifact("1_Outer_Name_B.decompressed", &inner),
            artifact("1_Outer_Name_B._1_Inner_Name_0.data", b"inner leaf"),
            artifact("1_Outer_Name_B._2_Section_Info_0.data", &info_record("Inner Name")),
            artifact("2_Section_Info_0.data", &info_record("Outer Name")),
        ]
    );
}

#[test]
fn inflated_bytes_that_are_no_container_are_kept() {
    let wrapped = wrap(&deflate(b"firmware image"));
    let buf = container(&[data_section(&wrapped), data_section(b"")]);
    assert_eq!(
        pfs_extract(&buf, "", 0).map(outcome),
        Ok((vec![
                artifact("section_1_0.data", &wrapped),
                artifact("section_1_0.decompressed", b"firmware image"),
            ], None))
    );
}

#[test]
fn failed_decompression_stops_the_unpacking() {
    let wrapped = wrap(b"this is no zlib stream");
    let buf = container(&[
        data_section(b"before"),
        section([0; 4], [0; 4], [&wrapped, b"sig", b"", b""]),
        data_section(b"after"),
        data_section(b""),
    ]);
    assert_eq!(
        pfs_extract(&buf, "", 4).map(outcome),
        Ok((vec![
                artifact("section_1_0.data", b"before"),
                artifact("section_2_0.data", &wrapped),
                artifact("section_2_0.data.sig", b"sig"),
            ], Some(PfsError::DecompressionFailure)))
    );
}

#[test]
fn nesting_beyond_the_depth_is_refused() {
    let innermost = container(&[data_section(b"deep"), data_section(b"")]);
    let middle = container(&[data_section(&wrap(&deflate(&innermost))), data_section(b"")]);
    let outer = container(&[data_section(&wrap(&deflate(&middle))), data_section(b"last")]);
    let out = pfs_extract(&outer, "", 2).unwrap();
    assert_eq!(out.failure, None);
    assert_eq!(
        names(&out),
        vec![
            "1_Model_Properties_0.data",
            "1_Model_Properties_0.decompressed",
            "1_Model_Properties_0._section_1_0.data",
            "1_Model_Properties_0._section_1_0.decompressed",
            "1_Model_Properties_0._section_1_0._section_1_0.data",
            "2_Section_Info_0.data",
        ]
    );
    assert_eq!(out.artifacts[4].data, b"deep");
    let out = pfs_extract(&outer, "", 1).unwrap();
    assert_eq!(out.failure, Some(PfsError::NestingTooDeep));
    assert_eq!(
        names(&out),
        vec![
            "1_Model_Properties_0.data",
            "1_Model_Properties_0.decompressed",
            "1_Model_Properties_0._section_1_0.data",
            "1_Model_Properties_0._section_1_0.decompressed",
        ]
    );
    assert_eq!(out.artifacts[3].data, innermost);
    let out = pfs_extract(&outer, "", 0).unwrap();
    assert_eq!(out.failure, Some(PfsError::NestingTooDeep));
    assert_eq!(names(&out), vec!["1_Model_Properties_0.data", "1_Model_Properties_0.decompressed"]);
}

#[test]
fn buffer_that_is_no_container_is_refused() {
    assert_eq!(pfs_extract(b"", "", 4), Err(PfsError::InsufficientLength));
    assert_eq!(pfs_extract(b"MZ\x90\x00 not a container", "", 4), Err(PfsError::MalformedMagic));
    let buf = container(&[data_section(b"x")]);
    assert_eq!(pfs_extract(&buf[..buf.len() - 3], "", 4), Err(PfsError::InsufficientLength));
}

#[test]
fn outcome_of_inflating_is_unpacked() {
    assert_eq!(
        outcome(pfs_extract_inflated(None, "stem.", 3)),
        (Vec::new(), Some(PfsError::DecompressionFailure))
    );
    assert_eq!(
        outcome(pfs_extract_inflated(Some(b"no container".to_vec()), "stem.", 0)),
        (vec![artifact("stem.decompressed", b"no container")], None)
    );
    let inner = container(&[data_section(b"leaf"), data_section(b"")]);
    assert_eq!(
        outcome(pfs_extract_inflated(Some(inner.clone()), "stem.", 1)),
        (vec![
                artifact("stem.decompressed", &inner),
                artifact("stem._section_1_0.data", b"leaf"),
            ], None)
    );
    assert_eq!(
        outcome(pfs_extract_inflated(Some(inner.clone()), "stem.", 0)),
        (vec![artifact("stem.decompressed", &inner)], Some(PfsError::NestingTooDeep))
    );
}

fn told(sizes: [u32; 4]) -> Notice {
    Notice::Section {
        guid: Guid { data1: 0x4242_4242, data2: 0x4242, data3: 0x4242, data4: [0x42; 8] },
        header_version: 0,
        data_size: sizes[0],
        data_sig_size: sizes[1],
        meta_size: sizes[2],
        meta_sig_size: sizes[3],
    }
}

#[test]
fn log_of_a_container_with_names() {
    let mut info = info_record("First Part");
    info.extend_from_slice(&info_record("Second"));
    let buf = container(&[
        section([0x41, 0x4E, 0x20, 0], [0x1A, 7, 0, 0], [b"one", b"sig", b"", b""]),
        section([0x4E, 0, 0, 0], [3, 0, 0, 0], [b"", b"", b"meta", b""]),
        data_section(&info),
    ]);
    let out = pfs_extract(&buf, "", 4).unwrap();
    assert_eq!(
        out.log,
        vec![
            told([3, 3, 0, 0]),
            Notice::Version(String::from("1A.7.")),
            Notice::Stored,
            Notice::Stored,
            told([0, 0, 4, 0]),
            Notice::Version(String::from("3.")),
            told([info.len() as u32, 0, 0, 0]),
            Notice::Stored,
        ]
    );
}

#[test]
fn log_tells_of_unread_bytes_and_of_nested_containers() {
    let mut inner = container(&[data_section(b"inner leaf"), data_section(b"")]);
    inner.extend_from_slice(b"tail!");
    let mut wrapped = wrap(&deflate(&inner));
    wrapped.extend_from_slice(b"xy");
    let mut info = info_record("Outer Name");
    info.extend_from_slice(b"???");
    let mut buf = container(&[
        section([0x41, 0x99, 0, 0], [0xB, 0, 0, 0], [&wrapped, b"", b"", b""]),
        data_section(&info),
    ]);
    buf.push(b'z');
    let out = pfs_extract(&buf, "", 4).unwrap();
    assert_eq!(out.failure, None);
    assert_eq!(
        out.log,
        vec![
            Notice::Unparsed(1),
            Notice::Unparsed(3),
            told([wrapped.len() as u32, 0, 0, 0]),
            Notice::UnknownVersionType(0x99),
            Notice::Stored,
            Notice::Compressed,
            Notice::Unparsed(2),
            Notice::Stored,
            Notice::Unparsed(5),
            told([10, 0, 0, 0]),
            Notice::Stored,
            told([0, 0, 0, 0]),
            told([info.len() as u32, 0, 0, 0]),
            Notice::Stored,
        ]
    );
    assert_eq!(
        names(&out),
        vec![
            "1_Outer_Name_0.data",
            "1_Outer_Name_0.decompressed",
            "1_Outer_Name_0._section_1_0.data",
            "2_Section_Info_0.data",
        ]
    );
    let stored = out.log.iter().filter(|n| **n == Notice::Stored).count();
    assert_eq!(stored, out.artifacts.len());
}

#[test]
fn log_tells_of_inflated_bytes_that_are_no_container() {
    let wrapped = wrap(&deflate(b"firmware image"));
    let buf = container(&[data_section(&wrapped), data_section(b"")]);
    let out = pfs_extract(&buf, "", 4).unwrap();
    assert_eq!(
        out.log,
        vec![
            told([wrapped.len() as u32, 0, 0, 0]),
            Notice::Stored,
            Notice::Compressed,
            Notice::Stored,
            Notice::NotAContainer,
            told([0, 0, 0, 0]),
        ]
    );
}

#[test]
fn log_ends_where_the_unpacking_fails() {
    let wrapped = wrap(b"this is no zlib stream");
    let buf = container(&[data_section(&wrapped), data_section(b"after"), data_section(b"")]);
    let out = pfs_extract(&buf, "", 4).unwrap();
    assert_eq!(out.failure, Some(PfsError::DecompressionFailure));
    assert_eq!(
        out.log,
        vec![told([wrapped.len() as u32, 0, 0, 0]), Notice::Stored, Notice::Compressed]
    );
    let inner = container(&[data_section(b"leaf"), data_section(b"")]);
    let out = pfs_extract_inflated(Some(inner), "stem.", 0);
    assert_eq!(out.failure, Some(PfsError::NestingTooDeep));
    assert_eq!(out.log, vec![Notice::Stored]);
}

#[test]
fn inspection_tells_of_the_kind_and_of_unread_bytes() {
    let mut wrapped = wrap(b"zzz");
    assert_eq!(pfs_inspect(&wrapped).1, vec![Notice::Compressed]);
    wrapped.extend_from_slice(&[0; 7]);
    let (kind, log) = pfs_inspect(&wrapped);
    assert_eq!(kind, PfsPayload::Compressed(PfsCompressedSection { size: 3, data: &b"zzz"[..] }));
    assert_eq!(log, vec![Notice::Compressed, Notice::Unparsed(7)]);
    let mut nested = container(&[data_section(&chunk(2, b"B")), data_section(&chunk(1, b"A"))]);
    nested.extend_from_slice(b"abc");
    let (kind, log) = pfs_inspect(&nested);
    assert_eq!(
        kind,
        PfsPayload::SubsectionChunks(vec![
            PfsChunk { order_number: 2, data: &b"B"[..] },
            PfsChunk { order_number: 1, data: &b"A"[..] },
        ])
    );
    assert_eq!(log, vec![Notice::Subsection, Notice::Unparsed(3)]);
    let nested = container(&[data_section(&chunk(2, b"B")), data_section(b"short")]);
    assert_eq!(pfs_inspect(&nested), (PfsPayload::RawLeaf, vec![Notice::Subsection]));
    assert_eq!(pfs_inspect(b"leaf"), (PfsPayload::RawLeaf, Vec::new()));
}

#[test]
fn payload_is_unpacked_by_its_kind() {
    let out = pfs_extract_payload(PfsPayload::RawLeaf, "stem.", 3);
    assert_eq!(out, Extraction { artifacts: Vec::new(), log: Vec::new(), failure: None });
    let chunks = vec![
        PfsChunk { order_number: 9, data: &b"world"[..] },
        PfsChunk { order_number: 8, data: &b"hello "[..] },
    ];
    let out = pfs_extract_payload(PfsPayload::SubsectionChunks(chunks), "stem.", 3);
    assert_eq!(
        out,
        Extraction {
            artifacts: vec![artifact("stem.data.payload", b"hello world")],
            log: vec![Notice::Stored],
            failure: None,
        }
    );
    let packed = deflate(b"plain text");
    let wrapper = PfsCompressedSection { size: packed.len() as u32, data: &packed[..] };
    let out = pfs_extract_payload(PfsPayload::Compressed(wrapper), "stem.", 3);
    assert_eq!(
        out,
        Extraction {
            artifacts: vec![artifact("stem.decompressed", b"plain text")],
            log: vec![Notice::Stored, Notice::NotAContainer],
            failure: None,
        }
    );
    let wrapper = PfsCompressedSection { size: 4, data: &b"nope"[..] };
    let out = pfs_extract_payload(PfsPayload::Compressed(wrapper), "stem.", 3);
    assert_eq!(
        out,
        Extraction {
            artifacts: Vec::new(),
            log: Vec::new(),
            failure: Some(PfsError::DecompressionFailure),
        }
    );
}

#[test]
fn record_with_the_empty_name_gives_the_label_of_a_section_without_name() {
    let mut info = info_record("");
    info.extend_from_slice(&info_record("Second One"));
    let buf = container(&[data_section(b"a"), data_section(b"b"), data_section(&info)]);
    let out = pfs_extract(&buf, "", 4).unwrap();
    assert_eq!(
        names(&out),
        vec!["section_1_0.data", "2_Second_One_0.data", "3_Section_Info_0.data"]
    );
}

fn framed(sections: &[u8]) -> Vec<u8> {
    let mut out = b"PFS.HDR.".to_vec();
    out.extend_from_slice(&[0u8; 8]);
    out.extend_from_slice(sections);
    out.extend_from_slice(&[0u8; 8]);
    out.extend_from_slice(b"PFS.FTR.");
    out
}

fn versioned(tags: [u8; 4], numbers: [u8; 8], data: &[u8]) -> Vec<u8> {
    let mut out = vec![0u8; 20];
    out.extend_from_slice(&tags);
    out.extend_from_slice(&numbers);
    out.extend_from_slice(&[0u8; 8]);
    out.extend_from_slice(&(data.len() as u32).to_le_bytes());
    out.extend_from_slice(&[0u8; 28]);
    out.extend_from_slice(data);
    out
}

fn writes(data: &[u8]) -> Vec<(String, Vec<u8>)> {
    let out = pfs_extract(data, "", MAX_NESTING_DEPTH).unwrap();
    assert_eq!(out.failure, None);
    out.artifacts.into_iter().map(|a| (a.name, a.data)).collect()
}

#[test]
fn section_without_a_name_is_stored_under_its_number_and_version() {
    let mut sections = versioned([0x41, 0x4E, 0x20, 0x00], [2, 0, 5, 0, 0, 0, 0, 0], b"X");
    sections.extend_from_slice(&[0u8; 72]);
    assert_eq!(writes(&framed(&sections)), vec![(String::from("section_1_2.5.data"), b"X".to_vec())]);
    let mut sections = versioned([0x41, 0x4E, 0x20, 0x00], [16, 0, 16, 0, 0, 0, 0, 0], b"X");
    sections.extend_from_slice(&[0u8; 72]);
    assert_eq!(
        writes(&framed(&sections)),
        vec![(String::from("section_1_10.16.data"), b"X".to_vec())]
    );
}

#[test]
fn sections_without_data_still_count_in_the_numbers() {
    let mut sections = vec![0u8; 72];
    sections.extend_from_slice(&versioned([0; 4], [0; 8], b"X"));
    sections.extend_from_slice(&[0u8; 72]);
    assert_eq!(writes(&framed(&sections)), vec![(String::from("section_2_0.data"), b"X".to_vec())]);
}

#[test]
fn chunks_of_a_section_without_a_name_are_joined_in_order() {
    let mut nested = Vec::new();
    nested.extend_from_slice(&versioned([0; 4], [0; 8], &chunk(3, b"C")));
    nested.extend_from_slice(&versioned([0; 4], [0; 8], &chunk(1, b"A")));
    nested.extend_from_slice(&versioned([0; 4], [0; 8], &chunk(2, b"B")));
    let inner = framed(&nested);
    let mut sections = versioned([0; 4], [0; 8], &inner);
    sections.extend_from_slice(&[0u8; 72]);
    assert_eq!(
        writes(&framed(&sections)),
        vec![
            (String::from("section_1_0.data"), inner.clone()),
            (String::from("section_1_0.data.payload"), b"ABC".to_vec()),
        ]
    );
}

#[test]
fn nested_container_without_sections_gives_no_payload() {
    let empty = container(&[]);
    let bytes = data_section(&empty);
    let (_, s) = pfs_section(&bytes).unwrap();
    let out = pfs_extract_section(&s, 1, "", 4);
    assert_eq!(out.failure, None);
    assert_eq!(out.artifacts, vec![artifact("section_1_0.data", &empty)]);
    assert_eq!(
        out.log,
        vec![told([empty.len() as u32, 0, 0, 0]), Notice::Stored, Notice::Subsection]
    );
    let out = pfs_extract_payload(PfsPayload::SubsectionChunks(Vec::new()), "stem.", 3);
    assert_eq!(out, Extraction { artifacts: Vec::new(), log: Vec::new(), failure: None });
}

#[test]
fn nesting_within_the_usual_bound_is_unpacked() {
    assert_eq!(MAX_NESTING_DEPTH, 16);
    let mut buf = container(&[data_section(b"core"), data_section(b"")]);
    for _ in 0..MAX_NESTING_DEPTH {
        buf = container(&[data_section(&wrap(&deflate(&buf))), data_section(b"")]);
    }
    let out = pfs_extract(&buf, "", MAX_NESTING_DEPTH).unwrap();
    assert_eq!(out.failure, None);
    assert_eq!(out.artifacts.len(), 2 * MAX_NESTING_DEPTH + 1);
    assert_eq!(out.artifacts.last().unwrap().data, b"core");
    let deeper = container(&[data_section(&wrap(&deflate(&buf))), data_section(b"")]);
    let out = pfs_extract(&deeper, "", MAX_NESTING_DEPTH).unwrap();
    assert_eq!(out.failure, Some(PfsError::NestingTooDeep));
    assert_eq!(out.artifacts.len(), 2 * MAX_NESTING_DEPTH + 2);
}
