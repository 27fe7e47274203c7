use pfsextractor::chunks::{append_bytes, pfs_chunks, pfs_reassemble, pfs_sort_chunks};
use pfsextractor::error::PfsError;
use pfsextractor::names::{pfs_assign_names, pfs_resolve_names};
use pfsextractor::parser::{
    pfs_file, pfs_info, Guid, PfsChunk, PfsInfoSection, PfsSection,
};
use pfsextractor::text::{decimal, hex, push_decimal, push_hex, push_underscored};
use pfsextractor::version::{pfs_version, pfs_version_of_scan, pfs_version_scan};

fn plain_section<'a>(data: Option<&'a [u8]>) -> PfsSection<'a> {
    PfsSection {
        name: String::new(),
        guid: Guid { data1: 1, data2: 2, data3: 3, data4: [4; 8] },
        header_version: 1,
        version_type: [0; 4],
        version: [0; 4],
        reserved: 0,
        data_size: data.map_or(0, |d| d.len() as u32),
        data_sig_size: 0,
        meta_size: 0,
        meta_sig_size: 0,
        unknown: [0; 16],
        data,
        data_sig: None,
        meta: None,
        meta_sig: None,
    }
}

fn record(name: &str) -> PfsInfoSection {
    PfsInfoSection {
        header_version: 1,
        guid: Guid { data1: 1, data2: 2, data3: 3, data4: [4; 8] },
        version: [0; 4],
        version_type: [0; 4],
        name: String::from(name),
    }
}

fn record_bytes(name: &str) -> Vec<u8> {
    let units: Vec<u16> = name.encode_utf16().collect();
    let mut out = vec![0u8; 32];
    out.extend_from_slice(&(units.len() as u16).to_le_bytes());
    for u in units.iter() {
        out.extend_from_slice(&u.to_le_bytes());
    }
    out.extend_from_slice(&[0, 0]);
    out
}

fn container_bytes(blobs: &[&[u8]]) -> Vec<u8> {
    let mut out = b"PFS.HDR.".to_vec();
    out.extend_from_slice(&[0u8; 8]);
    for (i, blob) in blobs.iter().enumerate() {
        out.extend_from_slice(&[i as u8 + 1; 16]);
        out.extend_from_slice(&[0u8; 24]);
        out.extend_from_slice(&(blob.len() as u32).to_le_bytes());
        out.extend_from_slice(&[0u8; 12]);
        out.extend_from_slice(&[0u8; 16]);
        out.extend_from_slice(blob);
    }
    out.extend_from_slice(&[0u8; 8]);
    out.extend_from_slice(b"PFS.FTR.");
    out
}

fn names_of(sections: &Vec<PfsSection>) -> Vec<String> {
    sections.iter().map(|s| s.name.clone()).collect()
}

fn chunk_record(order_number: u16, payload: &[u8]) -> Vec<u8> {
    let mut out = vec![0u8; 0x3E];
    out.extend_from_slice(&order_number.to_le_bytes());
    out.extend_from_slice(&vec![0u8; 0x248 - 0x40]);
    out.extend_from_slice(payload);
    out
}

#[test]
fn version_rendering() {
    assert_eq!(pfs_version(&[0x41, 0x4E, 0x20, 0x00], &[0x02, 5, 77, 88]), "2.5.");
}

#[test]
fn version_in_hexadecimal_is_upper_case() {
    assert_eq!(pfs_version(&[0x41, 0x41, 0x41, 0x41], &[0xABCD, 0x10, 0, 0xFFFF]), "ABCD.10.0.FFFF.");
}

#[test]
fn version_in_decimal() {
    assert_eq!(pfs_version(&[0x4E, 0x4E, 0x4E, 0x4E], &[0, 9, 10, 65535]), "0.9.10.65535.");
}

#[test]
fn version_without_numbers_is_the_fallback() {
    assert_eq!(pfs_version(&[0x00, 0x41, 0x41, 0x41], &[1, 2, 3, 4]), "0.");
    assert_eq!(pfs_version(&[0x20, 0x20, 0x20, 0x20], &[1, 2, 3, 4]), "0.");
    assert_eq!(pfs_version(&[0x20, 0x99, 0x41, 0x41], &[1, 2, 3, 4]), "0.");
}

#[test]
fn unknown_version_tag() {
    for tag in [0x01u8, 0x40, 0x42, 0x4F, 0x61, 0x6E, 0xFF] {
        assert_eq!(pfs_version(&[tag, 0x41, 0x41, 0x41], &[1, 2, 3, 4]), "0.");
        assert_eq!(pfs_version(&[0x41, tag, 0x00, 0x00], &[1, 2, 3, 4]), "0.");
        assert_eq!(pfs_version(&[0x4E, 0x41, 0x4E, tag], &[1, 2, 3, 4]), "0.");
    }
}

#[test]
fn unknown_version_tag_behind_the_end_is_not_read() {
    assert_eq!(pfs_version(&[0x41, 0x00, 0x99, 0x00], &[0x1F, 2, 3, 4]), "1F.");
}

#[test]
fn numbers_as_text() {
    assert_eq!(decimal(0), "0");
    assert_eq!(decimal(7), "7");
    assert_eq!(decimal(1234567890), "1234567890");
    assert_eq!(decimal(u64::MAX), "18446744073709551615");
    assert_eq!(hex(0), "0");
    assert_eq!(hex(0xF), "F");
    assert_eq!(hex(0x1A2B3C), "1A2B3C");
    assert_eq!(hex(u64::MAX), "FFFFFFFFFFFFFFFF");
    let mut text = String::from("v");
    push_decimal(&mut text, 42);
    push_hex(&mut text, 0xBEEF);
    assert_eq!(text, "v42BEEF");
}

#[test]
fn spaces_become_underscores() {
    let mut text = String::from(">");
    push_underscored(&mut text, " System  BIOS \u{E9}_x ");
    assert_eq!(text, ">_System__BIOS_\u{E9}_x_");
    let mut text = String::new();
    push_underscored(&mut text, "");
    assert_eq!(text, "");
}

#[test]
fn name_assignment() {
    let mut info = record_bytes("First Part");
    info.extend_from_slice(&record_bytes("Second Part"));
    let buf = container_bytes(&[b"one", b"two", &info]);
    let (_, mut file) = pfs_file(&buf).unwrap();
    assert_eq!(names_of(&file.sections), vec!["", "", ""]);
    pfs_resolve_names(&mut file);
    assert_eq!(names_of(&file.sections), vec!["First Part", "Second Part", "Section Info"]);
    assert_eq!(file.sections[0].data, Some(&b"one"[..]));
    assert_eq!(file.sections[2].data, Some(&info[..]));
}

#[test]
fn one_section_left_without_a_record_is_model_properties() {
    let mut info = record_bytes("A");
    info.extend_from_slice(&record_bytes("B"));
    let buf = container_bytes(&[b"1", b"2", b"3", &info]);
    let (_, mut file) = pfs_file(&buf).unwrap();
    pfs_resolve_names(&mut file);
    assert_eq!(names_of(&file.sections), vec!["A", "B", "Model Properties", "Section Info"]);
}

#[test]
fn two_sections_left_without_a_record_stay_unnamed() {
    let info = record_bytes("A");
    let buf = container_bytes(&[b"1", b"2", b"3", &info]);
    let (_, mut file) = pfs_file(&buf).unwrap();
    pfs_resolve_names(&mut file);
    assert_eq!(names_of(&file.sections), vec!["A", "", "", "Section Info"]);
}

#[test]
fn records_beyond_the_sections_are_ignored() {
    let mut info = record_bytes("A");
    info.extend_from_slice(&record_bytes("B"));
    info.extend_from_slice(&record_bytes("C"));
    let buf = container_bytes(&[b"1", &info]);
    let (_, mut file) = pfs_file(&buf).unwrap();
    pfs_resolve_names(&mut file);
    assert_eq!(names_of(&file.sections), vec!["A", "Section Info"]);
}

#[test]
fn information_section_alone_is_named() {
    let info = record_bytes("A");
    let buf = container_bytes(&[&info]);
    let (_, mut file) = pfs_file(&buf).unwrap();
    pfs_resolve_names(&mut file);
    assert_eq!(names_of(&file.sections), vec!["Section Info"]);
}

#[test]
fn information_section_without_data_names_nothing() {
    let buf = container_bytes(&[b"1", b"2", b""]);
    let (_, mut file) = pfs_file(&buf).unwrap();
    pfs_resolve_names(&mut file);
    assert_eq!(names_of(&file.sections), vec!["", "", ""]);
}

#[test]
fn information_section_without_a_record_still_names() {
    let buf = container_bytes(&[b"1", &[0xFF]]);
    let (_, mut file) = pfs_file(&buf).unwrap();
    let (rest, records) = pfs_info(file.sections[1].data.unwrap()).unwrap();
    assert_eq!(rest, &[0xFFu8][..]);
    assert!(records.is_empty());
    pfs_resolve_names(&mut file);
    assert_eq!(names_of(&file.sections), vec!["Model Properties", "Section Info"]);
    let buf = container_bytes(&[b"1", b"2", b"not a record"]);
    let (_, mut file) = pfs_file(&buf).unwrap();
    pfs_resolve_names(&mut file);
    assert_eq!(names_of(&file.sections), vec!["", "", "Section Info"]);
}

#[test]
fn record_with_the_empty_name_leaves_the_section_without_one() {
    let mut info = record_bytes("");
    info.extend_from_slice(&record_bytes("Second"));
    let buf = container_bytes(&[b"1", b"2", &info]);
    let (_, mut file) = pfs_file(&buf).unwrap();
    pfs_resolve_names(&mut file);
    assert_eq!(names_of(&file.sections), vec!["", "Second", "Section Info"]);
}

#[test]
fn container_without_sections_is_left_alone() {
    let buf = container_bytes(&[]);
    let (_, mut file) = pfs_file(&buf).unwrap();
    pfs_resolve_names(&mut file);
    assert!(file.sections.is_empty());
}

#[test]
fn names_are_assigned_from_records() {
    let mut sections = vec![
        plain_section(Some(b"a")),
        plain_section(None),
        plain_section(Some(b"info")),
    ];
    pfs_assign_names(&mut sections, &vec![record("X Y"), record("Z")]);
    assert_eq!(names_of(&sections), vec!["X Y", "Z", "Section Info"]);
    let mut sections = vec![plain_section(Some(b"a")), plain_section(Some(b"info"))];
    pfs_assign_names(&mut sections, &Vec::new());
    assert_eq!(names_of(&sections), vec!["Model Properties", "Section Info"]);
    let mut none: Vec<PfsSection> = Vec::new();
    pfs_assign_names(&mut none, &vec![record("X")]);
    assert!(none.is_empty());
}

#[test]
fn chunk_reordering() {
    let chunks = vec![
        PfsChunk { order_number: 3, data: &b"C"[..] },
        PfsChunk { order_number: 1, data: &b"A"[..] },
        PfsChunk { order_number: 2, data: &b"B"[..] },
    ];
    assert_eq!(pfs_reassemble(&chunks), b"ABC");
}

#[test]
fn chunks_with_one_number_keep_their_order() {
    let chunks = vec![
        PfsChunk { order_number: 5, data: &b"x1"[..] },
        PfsChunk { order_number: 0, data: &b"a"[..] },
        PfsChunk { order_number: 5, data: &b"x2"[..] },
        PfsChunk { order_number: 65535, data: &b"z"[..] },
        PfsChunk { order_number: 5, data: &b"x3"[..] },
        PfsChunk { order_number: 0, data: &b"b"[..] },
    ];
    let sorted = pfs_sort_chunks(&chunks);
    let data: Vec<&[u8]> = sorted.iter().map(|c| c.data).collect();
    assert_eq!(data, vec![&b"a"[..], b"b", b"x1", b"x2", b"x3", b"z"]);
    let numbers: Vec<u16> = sorted.iter().map(|c| c.order_number).collect();
    assert_eq!(numbers, vec![0, 0, 5, 5, 5, 65535]);
    assert_eq!(pfs_reassemble(&chunks), b"abx1x2x3z");
    assert_eq!(pfs_reassemble(&Vec::new()), b"");
}

#[test]
fn bytes_are_appended() {
    let mut out = vec![1u8, 2];
    append_bytes(&mut out, &[3, 4, 5]);
    append_bytes(&mut out, &[]);
    assert_eq!(out, vec![1, 2, 3, 4, 5]);
}

#[test]
fn chunks_are_decoded_from_every_section() {
    let second = chunk_record(2, b"world");
    let first = chunk_record(1, b"hello ");
    let sections = vec![plain_section(Some(&second)), plain_section(Some(&first))];
    let chunks = pfs_chunks(&sections).unwrap();
    assert_eq!(
        chunks,
        vec![
            PfsChunk { order_number: 2, data: &b"world"[..] },
            PfsChunk { order_number: 1, data: &b"hello "[..] },
        ]
    );
    assert_eq!(pfs_reassemble(&chunks), b"hello world");
    assert_eq!(pfs_chunks(&Vec::new()), Ok(Vec::new()));
}

#[test]
fn one_section_without_a_chunk_fails_the_set() {
    let good = chunk_record(1, b"hello");
    let sections = vec![plain_section(Some(&good)), plain_section(Some(&good[..0x247]))];
    assert_eq!(pfs_chunks(&sections), Err(PfsError::ChunkDecodeFailure));
    let sections = vec![plain_section(None), plain_section(Some(&good))];
    assert_eq!(pfs_chunks(&sections), Err(PfsError::ChunkDecodeFailure));
}

#[test]
fn chunks_are_ordered_by_their_numbers() {
    let low = PfsChunk { order_number: 1, data: &b"zzz"[..] };
    let high = PfsChunk { order_number: 2, data: &b"aaa"[..] };
    let same = PfsChunk { order_number: 2, data: &b"other"[..] };
    assert!(low < high);
    assert!(high > low);
    assert!(low <= high);
    assert!(!(high < low));
    assert_eq!(low.partial_cmp(&high), Some(std::cmp::Ordering::Less));
    assert_eq!(high.partial_cmp(&low), Some(std::cmp::Ordering::Greater));
    assert_eq!(high.partial_cmp(&same), Some(std::cmp::Ordering::Equal));
    assert!(high <= same && high >= same);
    assert_ne!(high, same);
}

#[test]
fn version_scan_gives_the_text_or_the_unknown_tag() {
    assert_eq!(pfs_version_scan(&[0x41, 0x4E, 0x20, 0x00], &[0x02, 5, 77, 88]), Ok(String::from("2.5.")));
    assert_eq!(pfs_version_scan(&[0x00, 0x41, 0x41, 0x41], &[1, 2, 3, 4]), Ok(String::new()));
    assert_eq!(pfs_version_scan(&[0x41, 0x4E, 0x99, 0x41], &[1, 2, 3, 4]), Err(0x99));
    assert_eq!(pfs_version_scan(&[0x7F, 0x99, 0x00, 0x00], &[1, 2, 3, 4]), Err(0x7F));
    assert_eq!(pfs_version_scan(&[0x41, 0x00, 0x99, 0x00], &[1, 2, 3, 4]), Ok(String::from("1.")));
}

#[test]
fn version_of_a_scan() {
    assert_eq!(pfs_version_of_scan(Ok(String::from("2.5."))), "2.5.");
    assert_eq!(pfs_version_of_scan(Ok(String::new())), "0.");
    assert_eq!(pfs_version_of_scan(Err(0x99)), "0.");
}

#[test]
fn naming_pass_tells_the_bytes_it_left_unread() {
    let mut info = record_bytes("A");
    info.extend_from_slice(b"12345");
    let buf = container_bytes(&[b"1", &info]);
    let (_, mut file) = pfs_file(&buf).unwrap();
    assert_eq!(pfs_resolve_names(&mut file), 5);
    let buf = container_bytes(&[b"1", &record_bytes("A")]);
    let (_, mut file) = pfs_file(&buf).unwrap();
    assert_eq!(pfs_resolve_names(&mut file), 0);
    let buf = container_bytes(&[b"1", b"not a record"]);
    let (_, mut file) = pfs_file(&buf).unwrap();
    assert_eq!(pfs_resolve_names(&mut file), 12);
    let buf = container_bytes(&[b"1", b""]);
    let (_, mut file) = pfs_file(&buf).unwrap();
    assert_eq!(pfs_resolve_names(&mut file), 0);
    let buf = container_bytes(&[]);
    let (_, mut file) = pfs_file(&buf).unwrap();
    assert_eq!(pfs_resolve_names(&mut file), 0);
}
