//! The display version of a section: its four version numbers, each rendered
//! as its tag in the version-type array says.

use vstd::prelude::*;
use crate::text::{decimal_text, hex_text, push_decimal, push_hex};

verus! {

/// Tag of a version number that is shown in hexadecimal.
pub const TAG_HEX: u8 = 0x41;

/// Tag of a version number that is shown in decimal.
pub const TAG_DECIMAL: u8 = 0x4E;

/// Tag that ends the version: a space.
pub const TAG_SPACE: u8 = 0x20;

/// Tag that ends the version: a zero byte.
pub const TAG_END: u8 = 0x00;

/// The text of the version numbers from position `from` on, up to the first
/// tag that ends the version; if a tag that is none of the four known ones is
/// met before that, that tag.
pub open spec fn version_scan(version_type: Seq<u8>, version: Seq<u16>, from: int) -> Result<
    Seq<char>,
    u8,
>
    decreases version_type.len() - from,
{
    if from < 0 || from >= version_type.len() {
        Ok(Seq::empty())
    } else if version_type[from] == TAG_HEX {
        match version_scan(version_type, version, from + 1) {
            Ok(rest) => Ok(hex_text(version[from] as nat).push('.') + rest),
            Err(tag) => Err(tag),
        }
    } else if version_type[from] == TAG_DECIMAL {
        match version_scan(version_type, version, from + 1) {
            Ok(rest) => Ok(decimal_text(version[from] as nat).push('.') + rest),
            Err(tag) => Err(tag),
        }
    } else if version_type[from] == TAG_SPACE || version_type[from] == TAG_END {
        Ok(Seq::empty())
    } else {
        Err(version_type[from])
    }
}

/// The version shown when none can be read.
pub open spec fn fallback_version() -> Seq<char> {
    seq!['0', '.']
}

/// The display version: each number followed by a dot, or `0.` where the scan
/// gives nothing.
pub open spec fn version_text(version_type: Seq<u8>, version: Seq<u16>) -> Seq<char> {
    match version_scan(version_type, version, 0) {
        Ok(text) => if text.len() > 0 {
            text
        } else {
            fallback_version()
        },
        Err(_) => fallback_version(),
    }
}

/// What was rendered so far, followed by what the rest of the scan gives.
pub open spec fn scan_after(text: Seq<char>, rest: Result<Seq<char>, u8>) -> Result<
    Seq<char>,
    u8,
> {
    match rest {
        Ok(tail) => Ok(text + tail),
        Err(tag) => Err(tag),
    }
}

/// Scans the version-type tags and renders the version numbers as they say:
/// the text that was read, which may be empty, or the unknown tag at which
/// the scan gave up.
pub fn pfs_version_scan(version_type: &[u8; 4], version: &[u16; 4]) -> (r: Result<String, u8>)
    ensures
        match r {
            Ok(text) => version_scan(version_type@, version@, 0) == Ok::<_, u8>(text@),
            Err(tag) => version_scan(version_type@, version@, 0) == Err::<Seq<char>, _>(tag),
        },
{
    let mut text = String::new();
    let mut unknown: Option<u8> = None;
    let mut j: usize = 0;
    assert(text@ + version_scan(version_type@, version@, 0)->Ok_0 =~= version_scan(
        version_type@,
        version@,
        0,
    )->Ok_0);
    while j < 4
        invariant_except_break
            unknown is None,
            version_scan(version_type@, version@, 0) == scan_after(
                text@,
                version_scan(version_type@, version@, j as int),
            ),
        invariant
            j <= 4,
        ensures
            unknown is None ==> version_scan(version_type@, version@, 0) == Ok::<_, u8>(text@),
            unknown is Some ==> version_scan(version_type@, version@, 0) == Err::<Seq<char>, _>(
                unknown->0,
            ),
        decreases 4 - j,
    {
        let tag: u8 = version_type[j];
        let ghost before = text@;
        let ghost rest = version_scan(version_type@, version@, j + 1);
        if tag == TAG_HEX {
            push_hex(&mut text, version[j] as u64);
            text.push('.');
            assert(rest is Ok ==> text@ + rest->Ok_0 =~= before + (hex_text(
                version@[j as int] as nat,
            ).push('.') + rest->Ok_0));
        } else if tag == TAG_DECIMAL {
            push_decimal(&mut text, version[j] as u64);
            text.push('.');
            assert(rest is Ok ==> text@ + rest->Ok_0 =~= before + (decimal_text(
                version@[j as int] as nat,
            ).push('.') + rest->Ok_0));
        } else if tag == TAG_SPACE || tag == TAG_END {
            assert(before + Seq::<char>::empty() =~= before);
            break ;
        } else {
            unknown = Some(tag);
            break ;
        }
        j += 1;
        assert(j == 4 ==> text@ + Seq::<char>::empty() =~= text@);
    }
    match unknown {
        Some(tag) => Err(tag),
        None => Ok(text),
    }
}

/// The display version for what a scan gave: the text that was read, or `0.`
/// where nothing was read or the scan gave up.
pub fn pfs_version_of_scan(scan: Result<String, u8>) -> (text: String)
    ensures
        text@ == match scan {
            Ok(read) => if read@.len() > 0 {
                read@
            } else {
                fallback_version()
            },
            Err(_) => fallback_version(),
        },
{
    match scan {
        Ok(read) => {
            if !read.as_str().is_empty() {
                return read;
            }
        },
        Err(_) => {},
    }
    let mut fallback = String::new();
    fallback.push('0');
    fallback.push('.');
    assert(fallback@ =~= fallback_version());
    fallback
}

/// Renders the display version of a section from its version-type tags and
/// its version numbers.
pub fn pfs_version(version_type: &[u8; 4], version: &[u16; 4]) -> (text: String)
    ensures
        text@ == version_text(version_type@, version@),
{
    pfs_version_of_scan(pfs_version_scan(version_type, version))
}

/// Whether a tag stands for a number of the version.
pub open spec fn is_number_tag(tag: u8) -> bool {
    tag == TAG_HEX || tag == TAG_DECIMAL
}

/// Whether a tag ends the version.
pub open spec fn is_end_tag(tag: u8) -> bool {
    tag == TAG_SPACE || tag == TAG_END
}

/// Whether the scan reads one number or more and then meets a tag that ends
/// the version: the tags before some position behind the first are all
/// number tags, and the tag at that position ends the version.
pub open spec fn ends_behind_a_number(version_type: Seq<u8>) -> bool {
    exists|k: int|
        1 <= k < version_type.len() && is_end_tag(#[trigger] version_type[k]) && forall|j: int|
            0 <= j < k ==> is_number_tag(#[trigger] version_type[j])
}

/// A tag that is none of the four known ones leaves `0.` as the display
/// version. The law leaves out the tag arrays in which the version ends
/// behind a number before the scan can meet such a tag: there the display
/// version is what was read up to that end.
pub proof fn lemma_unknown_tag_gives_fallback(version_type: Seq<u8>, version: Seq<u16>, at: int)
    requires
        0 <= at < version_type.len(),
        !is_number_tag(version_type[at]),
        !is_end_tag(version_type[at]),
        !ends_behind_a_number(version_type),
    ensures
        version_text(version_type, version) == fallback_version(),
{
    lemma_scan_with_unknown_tag(version_type, version, at, 0);
}

/// From a position up to which all tags are number tags, the scan of such an
/// array meets the unknown tag, unless it ends at once at the first position.
proof fn lemma_scan_with_unknown_tag(
    version_type: Seq<u8>,
    version: Seq<u16>,
    at: int,
    from: int,
)
    requires
        0 <= from <= at < version_type.len(),
        !is_number_tag(version_type[at]),
        !is_end_tag(version_type[at]),
        !ends_behind_a_number(version_type),
        forall|j: int| 0 <= j < from ==> is_number_tag(#[trigger] version_type[j]),
    ensures
        version_scan(version_type, version, from) is Err || (from == 0 && version_scan(
            version_type,
            version,
            from,
        ) == Ok::<_, u8>(Seq::<char>::empty())),
    decreases at - from,
{
    let tag = version_type[from];
    if is_number_tag(tag) {
        lemma_scan_with_unknown_tag(version_type, version, at, from + 1);
    } else if is_end_tag(tag) {
        if from >= 1 {
            assert(is_end_tag(version_type[from]));
            assert(ends_behind_a_number(version_type));
        }
    }
}

} // verus!
