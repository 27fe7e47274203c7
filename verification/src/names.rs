//! Names for the sections of a container, taken from its information section.
//!
//! The last section of a container is its information section: its payload
//! holds one record for each of the sections before it, with that section's
//! display name.

use vstd::prelude::*;
use vstd::string::StringExecFns;
use crate::parser::{
    PfsFile,
    PfsFileView,
    PfsSection,
    PfsSectionView,
    PfsInfoSection,
    PfsInfoSectionView,
    info_records,
    info_view,
    pfs_info,
    sections_fit,
    sections_view,
};

verus! {

/// The name that the information section itself gets.
pub open spec fn info_section_name() -> Seq<char> {
    "Section Info"@
}

/// The name for the one section that the records leave without a name.
pub open spec fn model_properties_name() -> Seq<char> {
    "Model Properties"@
}

/// How many sections get their name from a record: one for each record, as
/// far as there are sections before the information section.
pub open spec fn names_assigned(sections: nat, records: nat) -> int {
    if records < sections - 1 {
        records as int
    } else {
        sections - 1
    }
}

/// The sections with the names that the records give them. The records'
/// names go, in order, to the sections before the last one. If exactly the
/// last of those is left without a record, it is named `Model Properties`.
/// The last section is named `Section Info`.
pub open spec fn named_sections(
    sections: Seq<PfsSectionView>,
    records: Seq<PfsInfoSectionView>,
) -> Seq<PfsSectionView> {
    let others = sections.len() - 1;
    let assigned = names_assigned(sections.len(), records.len());
    Seq::new(
        sections.len(),
        |i: int|
            if i == others {
                sections[i].with_name(info_section_name())
            } else if i < assigned {
                sections[i].with_name(records[i].name)
            } else if i == assigned && assigned == others - 1 {
                sections[i].with_name(model_properties_name())
            } else {
                sections[i]
            },
    )
}

/// The sections of a container after the naming pass. Nothing changes where
/// the container has no section or where its last section has no data. Else
/// the sections are named by the records at the start of that data, however
/// few they are.
pub open spec fn resolved_sections(sections: Seq<PfsSectionView>) -> Seq<PfsSectionView> {
    if sections.len() == 0 {
        sections
    } else if sections.last().data_size == 0 {
        sections
    } else {
        match sections.last().data {
            None => sections,
            Some(payload) => named_sections(sections, info_records(payload).1),
        }
    }
}

/// Gives the sections of a container the names of the records of its
/// information section.
pub fn pfs_assign_names<'a>(sections: &mut Vec<PfsSection<'a>>, records: &Vec<PfsInfoSection>)
    ensures
        sections_view(final(sections)@) == named_sections(
            sections_view(old(sections)@),
            info_view(records@),
        ),
{
    let count: usize = sections.len();
    if count == 0 {
        assert(sections_view(sections@) =~= named_sections(
            sections_view(old(sections)@),
            info_view(records@),
        ));
        return ;
    }
    let others: usize = count - 1;
    let ghost before = sections_view(old(sections)@);
    let ghost entries = info_view(records@);
    let mut i: usize = 0;
    while i < others && i < records.len()
        invariant
            before == sections_view(old(sections)@),
            entries == info_view(records@),
            count == old(sections)@.len(),
            sections@.len() == count,
            others == count - 1,
            i <= others,
            i <= records@.len(),
            forall|k: int| 0 <= k < i ==> (#[trigger] sections@[k])@ == before[k].with_name(entries[k].name),
            forall|k: int| i <= k < count ==> (#[trigger] sections@[k])@ == before[k],
        decreases others - i,
    {
        sections[i].name = records[i].name.clone();
        i += 1;
    }
    assert(i == names_assigned(count as nat, records@.len()));
    if i + 1 == others {
        sections[i].name = String::from_str("Model Properties");
    }
    sections[others].name = String::from_str("Section Info");
    assert(sections_view(sections@) =~= named_sections(before, entries));
}

/// How many bytes of the information section the naming pass leaves unread:
/// what follows the last record that can be read. Nothing where no
/// information section is read.
pub open spec fn info_unread(sections: Seq<PfsSectionView>) -> nat {
    if sections.len() == 0 {
        0
    } else if sections.last().data_size == 0 {
        0
    } else {
        match sections.last().data {
            None => 0,
            Some(payload) => info_records(payload).0.len(),
        }
    }
}

/// The naming pass over a decoded container: reads the information section,
/// if the container has one with data, and names the sections by it. Hands
/// back the number of bytes of the information section that it left unread.
pub fn pfs_resolve_names<'a>(file: &mut PfsFile<'a>) -> (unread: usize)
    ensures
        final(file)@ == (PfsFileView {
            sections: resolved_sections(old(file)@.sections),
            ..old(file)@
        }),
        old(file).wf() ==> final(file).wf(),
        unread == info_unread(old(file)@.sections),
{
    let count: usize = file.sections.len();
    if count == 0 {
        return 0;
    }
    if file.sections[count - 1].data_size == 0 {
        return 0;
    }
    let ghost before = sections_view(file.sections@);
    assert(before.last() == file.sections@[count - 1]@);
    let mut unread: usize = 0;
    if let Some(payload) = file.sections[count - 1].data {
        if let Ok((rest, records)) = pfs_info(payload) {
            unread = rest.len();
            pfs_assign_names(&mut file.sections, &records);
            assert(sections_fit(before) ==> sections_fit(sections_view(file.sections@))) by {
                if sections_fit(before) {
                    let now = sections_view(file.sections@);
                    assert forall|i: int| 0 <= i < now.len() implies (#[trigger] now[i]).blobs_fit() by {
                        assert(before[i].blobs_fit());
                    }
                }
            }
        }
    }
    unread
}

/// With one record for each section before the last, every one of those
/// sections gets the name of the record at its own position, and the last
/// section is named `Section Info`. Nothing but the names changes.
pub proof fn lemma_names_go_to_sections_in_order(
    sections: Seq<PfsSectionView>,
    records: Seq<PfsInfoSectionView>,
)
    requires
        sections.len() > 0,
        records.len() == sections.len() - 1,
    ensures
        named_sections(sections, records).len() == sections.len(),
        forall|i: int|
            0 <= i < records.len() ==> #[trigger] named_sections(sections, records)[i]
                == sections[i].with_name(records[i].name),
        named_sections(sections, records).last() == sections.last().with_name(
            info_section_name(),
        ),
{
}

/// The naming pass changes nothing but names: sections whose blobs agree
/// with their size fields keep doing so.
pub proof fn lemma_names_keep_the_blobs(sections: Seq<PfsSectionView>)
    requires
        sections_fit(sections),
    ensures
        sections_fit(resolved_sections(sections)),
        resolved_sections(sections).len() == sections.len(),
{
    let now = resolved_sections(sections);
    assert forall|i: int| 0 <= i < now.len() implies (#[trigger] now[i]).blobs_fit() by {
        assert(sections[i].blobs_fit());
    }
}

} // verus!
