//! A payload that was split into chunks over the sections of a nested
//! container: decoding the chunks, putting them in order, joining them.

use vstd::prelude::*;
use crate::error::PfsError;
use crate::parser::{PfsSection, PfsSectionView, PfsChunk, PfsChunkView, chunk_of, pfs_chunk, sections_view};

verus! {

/// The chunks of a vector as mathematical values.
pub open spec fn chunks_view<'a>(chunks: Seq<PfsChunk<'a>>) -> Seq<PfsChunkView> {
    Seq::new(chunks.len(), |i: int| chunks[i]@)
}

/// Whether the data of a section holds a chunk record. A section without
/// data holds none.
pub open spec fn holds_chunk(section: PfsSectionView) -> bool {
    match section.data {
        Some(data) => chunk_of(data) is Ok,
        None => false,
    }
}

/// The chunk in the data of a section that holds one.
pub open spec fn chunk_in(section: PfsSectionView) -> PfsChunkView {
    chunk_of(section.data->0)->Ok_0.1
}

/// What `pfs_chunks` makes of the sections of a nested container: one chunk
/// for each section, in the sections' order, or a failure if any section
/// holds none.
pub open spec fn chunks_of(sections: Seq<PfsSectionView>) -> Result<Seq<PfsChunkView>, PfsError> {
    if forall|i: int| 0 <= i < sections.len() ==> holds_chunk(#[trigger] sections[i]) {
        Ok(Seq::new(sections.len(), |i: int| chunk_in(sections[i])))
    } else {
        Err(PfsError::ChunkDecodeFailure)
    }
}

/// Decodes the data of every section as a chunk record. One section that
/// holds none fails the whole set.
pub fn pfs_chunks<'a>(sections: &Vec<PfsSection<'a>>) -> (r: Result<Vec<PfsChunk<'a>>, PfsError>)
    ensures
        match r {
            Ok(chunks) => chunks_of(sections_view(sections@)) == Ok::<_, PfsError>(
                chunks_view(chunks@),
            ),
            Err(e) => chunks_of(sections_view(sections@)) == Err::<Seq<PfsChunkView>, _>(e),
        },
{
    let ghost views = sections_view(sections@);
    let mut chunks: Vec<PfsChunk<'a>> = Vec::new();
    let mut i: usize = 0;
    while i < sections.len()
        invariant
            views == sections_view(sections@),
            i <= sections@.len(),
            chunks@.len() == i,
            forall|j: int| 0 <= j < i ==> holds_chunk(#[trigger] views[j]),
            forall|j: int| 0 <= j < i ==> (#[trigger] chunks@[j])@ == chunk_in(views[j]),
        decreases sections@.len() - i,
    {
        let decoded = match sections[i].data {
            Some(data) => pfs_chunk(data),
            None => Err(PfsError::InsufficientLength),
        };
        match decoded {
            Ok((_, chunk)) => {
                chunks.push(chunk);
            },
            Err(_) => {
                assert(!holds_chunk(views[i as int]));
                return Err(PfsError::ChunkDecodeFailure);
            },
        }
        i += 1;
    }
    assert(chunks_view(chunks@) =~= Seq::new(views.len(), |i: int| chunk_in(views[i])));
    Ok(chunks)
}

/// A chunk put into a sequence of chunks, behind the last one whose order
/// number is not greater than its own.
pub open spec fn insert_chunk(sorted: Seq<PfsChunkView>, chunk: PfsChunkView) -> Seq<PfsChunkView>
    decreases sorted.len(),
{
    if sorted.len() == 0 {
        seq![chunk]
    } else if sorted.last().order_number <= chunk.order_number {
        sorted.push(chunk)
    } else {
        insert_chunk(sorted.drop_last(), chunk).push(sorted.last())
    }
}

/// The chunks by ascending order number; chunks with the same number stay in
/// the order in which they came.
pub open spec fn sorted_chunks(chunks: Seq<PfsChunkView>) -> Seq<PfsChunkView>
    decreases chunks.len(),
{
    if chunks.len() == 0 {
        Seq::empty()
    } else {
        insert_chunk(sorted_chunks(chunks.drop_last()), chunks.last())
    }
}

/// The order numbers never go down along the sequence.
pub open spec fn ascending(chunks: Seq<PfsChunkView>) -> bool {
    forall|i: int, j: int|
        0 <= i < j < chunks.len() ==> chunks[i].order_number <= chunks[j].order_number
}

/// The chunks with one order number, in the order in which they stand.
pub open spec fn chunks_numbered(chunks: Seq<PfsChunkView>, number: u16) -> Seq<PfsChunkView>
    decreases chunks.len(),
{
    if chunks.len() == 0 {
        Seq::empty()
    } else if chunks.last().order_number == number {
        chunks_numbered(chunks.drop_last(), number).push(chunks.last())
    } else {
        chunks_numbered(chunks.drop_last(), number)
    }
}

/// The data of the chunks, one after the other.
pub open spec fn joined(chunks: Seq<PfsChunkView>) -> Seq<u8>
    decreases chunks.len(),
{
    if chunks.len() == 0 {
        Seq::empty()
    } else {
        joined(chunks.drop_last()) + chunks.last().data
    }
}

/// The payload that a set of chunks stands for: their data joined by
/// ascending order number.
pub open spec fn reassembled(chunks: Seq<PfsChunkView>) -> Seq<u8> {
    joined(sorted_chunks(chunks))
}

/// Inserting puts the chunk at the position behind which every order number
/// is greater, and at or before which none is.
proof fn lemma_insert_at(sorted: Seq<PfsChunkView>, chunk: PfsChunkView, at: int)
    requires
        0 <= at <= sorted.len(),
        forall|j: int| at <= j < sorted.len() ==> sorted[j].order_number > chunk.order_number,
        at > 0 ==> sorted[at - 1].order_number <= chunk.order_number,
    ensures
        insert_chunk(sorted, chunk) == sorted.insert(at, chunk),
    decreases sorted.len(),
{
    if sorted.len() == 0 {
        assert(sorted.insert(at, chunk) =~= seq![chunk]);
    } else if at == sorted.len() {
        assert(sorted.insert(at, chunk) =~= sorted.push(chunk));
    } else {
        lemma_insert_at(sorted.drop_last(), chunk, at);
        assert(sorted.insert(at, chunk) =~= sorted.drop_last().insert(at, chunk).push(
            sorted.last(),
        ));
    }
}

/// Inserting adds one chunk and keeps the others.
proof fn lemma_insert_members(sorted: Seq<PfsChunkView>, chunk: PfsChunkView)
    ensures
        insert_chunk(sorted, chunk).len() == sorted.len() + 1,
        forall|i: int|
            0 <= i < sorted.len() + 1 ==> (#[trigger] insert_chunk(sorted, chunk)[i]) == chunk
                || sorted.contains(insert_chunk(sorted, chunk)[i]),
    decreases sorted.len(),
{
    if sorted.len() == 0 {
    } else if sorted.last().order_number <= chunk.order_number {
        assert forall|i: int| 0 <= i < sorted.len() + 1 implies (#[trigger] insert_chunk(
            sorted,
            chunk,
        )[i]) == chunk || sorted.contains(insert_chunk(sorted, chunk)[i]) by {
            if i < sorted.len() {
                assert(sorted[i] == insert_chunk(sorted, chunk)[i]);
            }
        }
    } else {
        let front = sorted.drop_last();
        lemma_insert_members(front, chunk);
        assert forall|i: int| 0 <= i < sorted.len() + 1 implies (#[trigger] insert_chunk(
            sorted,
            chunk,
        )[i]) == chunk || sorted.contains(insert_chunk(sorted, chunk)[i]) by {
            let found = insert_chunk(sorted, chunk)[i];
            if i < sorted.len() {
                assert(found == insert_chunk(front, chunk)[i]);
                if found != chunk {
                    let k = choose|k: int| 0 <= k < front.len() && front[k] == found;
                    assert(sorted[k] == found);
                }
            } else {
                assert(found == sorted[sorted.len() - 1]);
            }
        }
    }
}

/// Inserting into an ascending sequence leaves it ascending.
proof fn lemma_insert_ascending(sorted: Seq<PfsChunkView>, chunk: PfsChunkView)
    requires
        ascending(sorted),
    ensures
        ascending(insert_chunk(sorted, chunk)),
    decreases sorted.len(),
{
    if sorted.len() == 0 {
    } else if sorted.last().order_number <= chunk.order_number {
    } else {
        let front = sorted.drop_last();
        let placed = insert_chunk(front, chunk);
        assert(ascending(front));
        lemma_insert_ascending(front, chunk);
        lemma_insert_members(front, chunk);
        let whole = insert_chunk(sorted, chunk);
        assert(whole == placed.push(sorted.last()));
        assert forall|i: int, j: int| 0 <= i < j < whole.len() implies whole[i].order_number
            <= whole[j].order_number by {
            if j < placed.len() {
                assert(whole[i] == placed[i] && whole[j] == placed[j]);
            } else {
                assert(whole[j] == sorted.last());
                assert(whole[i] == placed[i]);
                if placed[i] != chunk {
                    let k = choose|k: int| 0 <= k < front.len() && front[k] == placed[i];
                    assert(sorted[k] == placed[i]);
                }
            }
        }
    }
}

/// Inserting a chunk adds it at the end of the chunks with its order number
/// and leaves the chunks with every other number as they were.
proof fn lemma_insert_numbered(sorted: Seq<PfsChunkView>, chunk: PfsChunkView, number: u16)
    ensures
        chunks_numbered(insert_chunk(sorted, chunk), number) == if chunk.order_number == number {
            chunks_numbered(sorted, number).push(chunk)
        } else {
            chunks_numbered(sorted, number)
        },
    decreases sorted.len(),
{
    let whole = insert_chunk(sorted, chunk);
    if sorted.len() == 0 {
        assert(whole.drop_last() =~= sorted);
        assert(whole.last() == chunk);
    } else if sorted.last().order_number <= chunk.order_number {
        assert(whole.drop_last() =~= sorted);
        assert(whole.last() == chunk);
    } else {
        let front = sorted.drop_last();
        lemma_insert_numbered(front, chunk, number);
        assert(whole.drop_last() =~= insert_chunk(front, chunk));
        assert(whole.last() == sorted.last());
    }
}

/// The sorted chunks are in ascending order of their order numbers.
pub proof fn lemma_sorted_chunks_ascend(chunks: Seq<PfsChunkView>)
    ensures
        ascending(sorted_chunks(chunks)),
        sorted_chunks(chunks).len() == chunks.len(),
    decreases chunks.len(),
{
    if chunks.len() > 0 {
        lemma_sorted_chunks_ascend(chunks.drop_last());
        lemma_insert_ascending(sorted_chunks(chunks.drop_last()), chunks.last());
        lemma_insert_members(sorted_chunks(chunks.drop_last()), chunks.last());
    }
}

/// Sorting is stable and loses nothing: for every order number, the sorted
/// chunks hold the same chunks with that number, in the same order, as the
/// chunks that were given.
pub proof fn lemma_sorted_chunks_keep_groups(chunks: Seq<PfsChunkView>, number: u16)
    ensures
        chunks_numbered(sorted_chunks(chunks), number) == chunks_numbered(chunks, number),
    decreases chunks.len(),
{
    if chunks.len() > 0 {
        lemma_sorted_chunks_keep_groups(chunks.drop_last(), number);
        lemma_insert_numbered(sorted_chunks(chunks.drop_last()), chunks.last(), number);
    }
}

/// Puts a chunk into a vector behind the last chunk whose order number is not
/// greater than its own.
fn insert_sorted<'a>(sorted: &mut Vec<PfsChunk<'a>>, chunk: PfsChunk<'a>)
    ensures
        chunks_view(final(sorted)@) == insert_chunk(chunks_view(old(sorted)@), chunk@),
{
    let mut at: usize = sorted.len();
    while at > 0 && sorted[at - 1] > chunk
        invariant
            sorted@ == old(sorted)@,
            at <= sorted@.len(),
            forall|j: int| at <= j < sorted@.len() ==> sorted@[j].order_number > chunk.order_number,
        decreases at,
    {
        at -= 1;
    }
    proof {
        lemma_insert_at(chunks_view(sorted@), chunk@, at as int);
        assert(chunks_view(sorted@.insert(at as int, chunk)) =~= chunks_view(sorted@).insert(
            at as int,
            chunk@,
        ));
    }
    sorted.insert(at, chunk);
}

/// Sorts chunks by ascending order number, keeping chunks with the same
/// number in the order in which they came.
pub fn pfs_sort_chunks<'a>(chunks: &Vec<PfsChunk<'a>>) -> (sorted: Vec<PfsChunk<'a>>)
    ensures
        chunks_view(sorted@) == sorted_chunks(chunks_view(chunks@)),
{
    let mut sorted: Vec<PfsChunk<'a>> = Vec::new();
    let mut i: usize = 0;
    assert(chunks_view(chunks@).take(0) =~= Seq::empty());
    assert(chunks_view(sorted@) =~= Seq::empty());
    while i < chunks.len()
        invariant
            i <= chunks@.len(),
            chunks_view(sorted@) == sorted_chunks(chunks_view(chunks@).take(i as int)),
        decreases chunks@.len() - i,
    {
        proof {
            let next = chunks_view(chunks@).take(i + 1);
            assert(next.drop_last() =~= chunks_view(chunks@).take(i as int));
            assert(next.last() == chunks@[i as int]@);
        }
        insert_sorted(&mut sorted, chunks[i]);
        i += 1;
    }
    assert(chunks_view(chunks@).take(i as int) =~= chunks_view(chunks@));
    sorted
}

/// Appends the bytes of a slice to a vector.
pub fn append_bytes(out: &mut Vec<u8>, bytes: &[u8])
    ensures
        final(out)@ == old(out)@ + bytes@,
{
    out.extend_from_slice(bytes);
    assert(out@ =~= old(out)@ + bytes@);
}

/// Joins the data of the chunks in ascending order of their order numbers.
pub fn pfs_reassemble<'a>(chunks: &Vec<PfsChunk<'a>>) -> (payload: Vec<u8>)
    ensures
        payload@ == reassembled(chunks_view(chunks@)),
{
    let sorted = pfs_sort_chunks(chunks);
    let ghost views = chunks_view(sorted@);
    let mut payload: Vec<u8> = Vec::new();
    let mut i: usize = 0;
    assert(views.take(0) =~= Seq::empty());
    while i < sorted.len()
        invariant
            views == chunks_view(sorted@),
            i <= sorted@.len(),
            payload@ == joined(views.take(i as int)),
        decreases sorted@.len() - i,
    {
        proof {
            let next = views.take(i + 1);
            assert(next.drop_last() =~= views.take(i as int));
            assert(next.last().data == sorted@[i as int].data@);
        }
        append_bytes(&mut payload, sorted[i].data);
        i += 1;
    }
    assert(views.take(i as int) =~= views);
    payload
}

} // verus!
