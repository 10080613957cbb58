use crate::seq_util::{lemma_filter_members, lemma_filter_order};
use crate::store_model::{
    above_document, below_document, block_fits, can_store, chunks_wf, fresh_chunks,
    has_position, marked, moved, precedes, with_document, ChunkData,
};
use vstd::prelude::*;

verus! {

/// `pred` gives one answer for all chunks of a document.
pub open spec fn by_document(pred: spec_fn(ChunkData) -> bool) -> bool {
    forall|a: ChunkData, b: ChunkData| a.document_id == b.document_id ==> pred(a) == pred(b)
}

/// `pred` gives one answer for all of `chunks` that belong to one
/// document.
pub open spec fn whole_documents(chunks: Seq<ChunkData>, pred: spec_fn(ChunkData) -> bool) -> bool {
    forall|i: int, j: int|
        0 <= i < chunks.len() && 0 <= j < chunks.len() && (#[trigger] chunks[i]).document_id == (
        #[trigger] chunks[j]).document_id ==> pred(chunks[i]) == pred(chunks[j])
}

/// A store stays in order when whole documents are taken out of it.
pub proof fn lemma_filter_wf(chunks: Seq<ChunkData>, next_id: i64, pred: spec_fn(ChunkData) -> bool)
    requires
        chunks_wf(chunks, next_id),
        by_document(pred) || whole_documents(chunks, pred),
    ensures
        chunks_wf(chunks.filter(pred), next_id),
{
    let f = chunks.filter(pred);
    lemma_filter_order(chunks, pred);
    lemma_filter_members(chunks, pred);
    assert forall|i: int, j: int| 0 <= i < j < f.len() implies precedes(
        #[trigger] f[i],
        #[trigger] f[j],
    ) && f[i].id != f[j].id by {
        let (a, b) = choose|a: int, b: int|
            0 <= a < b < chunks.len() && chunks[a] == f[i] && chunks[b] == f[j];
        assert(precedes(chunks[a], chunks[b]));
    }
    assert forall|i: int| 0 <= i < f.len() implies (#[trigger] f[i]).chunk_index >= 0 && f[i].id
        < next_id by {
        assert(chunks.contains(f[i]));
        let a = choose|a: int| 0 <= a < chunks.len() && chunks[a] == f[i];
        assert(chunks[a].chunk_index >= 0);
    }
    assert forall|i: int| 0 <= i < f.len() && (#[trigger] f[i]).chunk_index > 0 implies has_position(
        f,
        f[i].document_id,
        f[i].chunk_index - 1,
    ) by {
        assert(chunks.contains(f[i]));
        let a = choose|a: int| 0 <= a < chunks.len() && chunks[a] == f[i];
        assert(has_position(chunks, chunks[a].document_id, chunks[a].chunk_index - 1));
        let b = choose|b: int|
            0 <= b < chunks.len() && (#[trigger] chunks[b]).document_id == chunks[a].document_id
                && chunks[b].chunk_index == chunks[a].chunk_index - 1;
        assert(chunks[a].document_id == chunks[b].document_id);
        assert(pred(chunks[b]) == pred(chunks[a]));
        assert(chunks.contains(chunks[b]));
        assert(f.contains(chunks[b]));
        let k = choose|k: int| 0 <= k < f.len() && f[k] == chunks[b];
        assert(f[k].document_id == f[i].document_id && f[k].chunk_index == f[i].chunk_index - 1);
    }
    assert forall|i: int, j: int|
        0 <= i < f.len() && 0 <= j < f.len() && (#[trigger] f[i]).document_id == (
        #[trigger] f[j]).document_id implies f[i].project_id == f[j].project_id by {
        assert(chunks.contains(f[i]));
        assert(chunks.contains(f[j]));
        let a = choose|a: int| 0 <= a < chunks.len() && chunks[a] == f[i];
        let b = choose|b: int| 0 <= b < chunks.len() && chunks[b] == f[j];
        assert(chunks[a].project_id == chunks[b].project_id);
    }
}

/// A store that is in order for one bound on its ids is so for a larger.
pub proof fn lemma_wf_widen(chunks: Seq<ChunkData>, next_id: i64, larger: i64)
    requires
        chunks_wf(chunks, next_id),
        next_id <= larger,
    ensures
        chunks_wf(chunks, larger),
{
}

/// Two stores in order, the documents of the first all before those of the
/// second and no id in both, are in order one after the other.
pub proof fn lemma_concat_wf(a: Seq<ChunkData>, b: Seq<ChunkData>, next_id: i64)
    requires
        chunks_wf(a, next_id),
        chunks_wf(b, next_id),
        forall|i: int, j: int|
            0 <= i < a.len() && 0 <= j < b.len() ==> (#[trigger] a[i]).document_id < (
            #[trigger] b[j]).document_id && a[i].id != b[j].id,
    ensures
        chunks_wf(a + b, next_id),
{
    let c = a + b;
    assert forall|i: int| 0 <= i < c.len() && (#[trigger] c[i]).chunk_index > 0 implies has_position(
        c,
        c[i].document_id,
        c[i].chunk_index - 1,
    ) by {
        if i < a.len() {
            assert(c[i] == a[i]);
            assert(has_position(a, a[i].document_id, a[i].chunk_index - 1));
            let j = choose|j: int|
                0 <= j < a.len() && (#[trigger] a[j]).document_id == a[i].document_id
                    && a[j].chunk_index == a[i].chunk_index - 1;
            assert(c[j] == a[j]);
        } else {
            let k = i - a.len();
            assert(c[i] == b[k]);
            assert(has_position(b, b[k].document_id, b[k].chunk_index - 1));
            let j = choose|j: int|
                0 <= j < b.len() && (#[trigger] b[j]).document_id == b[k].document_id
                    && b[j].chunk_index == b[k].chunk_index - 1;
            assert(c[a.len() + j] == b[j]);
        }
    }
    assert forall|i: int, j: int| 0 <= i < j < c.len() implies precedes(
        #[trigger] c[i],
        #[trigger] c[j],
    ) && c[i].id != c[j].id by {
        if j < a.len() {
            assert(c[i] == a[i] && c[j] == a[j]);
        } else if i >= a.len() {
            assert(c[i] == b[i - a.len()] && c[j] == b[j - a.len()]);
        } else {
            assert(c[i] == a[i] && c[j] == b[j - a.len()]);
        }
    }
    assert forall|i: int| 0 <= i < c.len() implies (#[trigger] c[i]).chunk_index >= 0 && c[i].id
        < next_id by {
        if i < a.len() {
            assert(c[i] == a[i]);
        } else {
            assert(c[i] == b[i - a.len()]);
        }
    }
    assert forall|i: int, j: int|
        0 <= i < c.len() && 0 <= j < c.len() && (#[trigger] c[i]).document_id == (
        #[trigger] c[j]).document_id implies c[i].project_id == c[j].project_id by {
        if i < a.len() {
            assert(c[i] == a[i]);
            if j < a.len() {
                assert(c[j] == a[j]);
            } else {
                assert(c[j] == b[j - a.len()]);
            }
        } else {
            assert(c[i] == b[i - a.len()]);
            if j < a.len() {
                assert(c[j] == a[j]);
            } else {
                assert(c[j] == b[j - a.len()]);
            }
        }
    }
}

/// Fresh chunks are in order.
pub proof fn lemma_fresh_wf(first_id: i64, document_id: i64, project_id: i64, texts: Seq<Seq<char>>)
    requires
        can_store(first_id, texts.len()),
    ensures
        chunks_wf(
            fresh_chunks(first_id, document_id, project_id, texts),
            (first_id + texts.len()) as i64,
        ),
{
    let f = fresh_chunks(first_id, document_id, project_id, texts);
    assert forall|i: int| 0 <= i < f.len() && (#[trigger] f[i]).chunk_index > 0 implies has_position(
        f,
        f[i].document_id,
        f[i].chunk_index - 1,
    ) by {
        assert(f[i - 1].document_id == document_id && f[i - 1].chunk_index == i - 1);
    }
}

/// A store stays in order when the chunks of a document are replaced by
/// a block that is in order itself and whose ids the store has not used.
pub proof fn lemma_with_block_wf(
    chunks: Seq<ChunkData>,
    next_id: i64,
    document_id: i64,
    block: Seq<ChunkData>,
    top: i64,
)
    requires
        chunks_wf(chunks, next_id),
        chunks_wf(block, top),
        next_id <= top,
        forall|k: int|
            0 <= k < block.len() ==> (#[trigger] block[k]).document_id == document_id && block[k].id
                >= next_id,
    ensures
        chunks_wf(with_document(chunks, document_id, block), top),
{
    let below = chunks.filter(below_document(document_id));
    let above = chunks.filter(above_document(document_id));
    lemma_filter_wf(chunks, next_id, below_document(document_id));
    lemma_filter_wf(chunks, next_id, above_document(document_id));
    lemma_filter_order(chunks, below_document(document_id));
    lemma_filter_order(chunks, above_document(document_id));
    lemma_wf_widen(below, next_id, top);
    lemma_wf_widen(above, next_id, top);
    assert forall|i: int, j: int| 0 <= i < below.len() && 0 <= j < block.len() implies (
    #[trigger] below[i]).document_id < (#[trigger] block[j]).document_id && below[i].id
        != block[j].id by {}
    lemma_concat_wf(below, block, top);
    let front = below + block;
    assert forall|i: int, j: int| 0 <= i < front.len() && 0 <= j < above.len() implies (
    #[trigger] front[i]).document_id < (#[trigger] above[j]).document_id && front[i].id
        != above[j].id by {
        if i < below.len() {
            assert(front[i] == below[i]);
            assert(chunks.contains(below[i]));
            assert(chunks.contains(above[j]));
            let a = choose|a: int| 0 <= a < chunks.len() && chunks[a] == below[i];
            let b = choose|b: int| 0 <= b < chunks.len() && chunks[b] == above[j];
            if a < b {
                assert(chunks[a].id != chunks[b].id);
            } else if b < a {
                assert(chunks[b].id != chunks[a].id);
            }
        } else {
            assert(front[i] == block[i - below.len()]);
        }
    }
    lemma_concat_wf(front, above, top);
}

/// A store stays in order when the chunks of a document are replaced by
/// fresh ones.
pub proof fn lemma_save_wf(
    chunks: Seq<ChunkData>,
    next_id: i64,
    document_id: i64,
    project_id: i64,
    texts: Seq<Seq<char>>,
)
    requires
        chunks_wf(chunks, next_id),
        can_store(next_id, texts.len()),
    ensures
        chunks_wf(
            with_document(chunks, document_id, fresh_chunks(next_id, document_id, project_id, texts)),
            (next_id + texts.len()) as i64,
        ),
{
    lemma_fresh_wf(next_id, document_id, project_id, texts);
    lemma_with_block_wf(
        chunks,
        next_id,
        document_id,
        fresh_chunks(next_id, document_id, project_id, texts),
        (next_id + texts.len()) as i64,
    );
}

/// A block that can be taken in is in order, and its ids rise.
pub proof fn lemma_block_wf(block: Seq<ChunkData>, next_chunk_id: i64)
    requires
        block_fits(block, next_chunk_id),
    ensures
        chunks_wf(block, (block.last().id + 1) as i64),
        forall|i: int, j: int| 0 <= i < j < block.len() ==> block[i].id < block[j].id,
{
    lemma_ids_rise(block, block.len() - 1);
    assert forall|i: int, j: int| 0 <= i < j < block.len() implies block[i].id < block[j].id by {
        lemma_ids_rise(block, j);
    }
    assert forall|i: int| 0 <= i < block.len() && (#[trigger] block[i]).chunk_index > 0 implies has_position(
        block,
        block[i].document_id,
        block[i].chunk_index - 1,
    ) by {
        assert(block[i - 1].document_id == block[i].document_id && block[i - 1].chunk_index == i
            - 1);
    }
    assert forall|i: int| 0 <= i < block.len() implies (#[trigger] block[i]).id <= block.last().id by {
        if i < block.len() - 1 {
            assert(block[i].id < block[block.len() - 1].id);
        }
    }
}

/// In a block whose ids rise from each chunk to the next, every chunk
/// before the one at `j` has a smaller id.
proof fn lemma_ids_rise(block: Seq<ChunkData>, j: int)
    requires
        0 <= j < block.len(),
        forall|k: int| 0 < k < block.len() ==> block[k - 1].id < (#[trigger] block[k]).id,
    ensures
        forall|i: int| 0 <= i < j ==> block[i].id < block[j].id,
    decreases j,
{
    if j > 0 {
        lemma_ids_rise(block, j - 1);
        assert(block[j - 1].id < block[j].id);
    }
}

/// A store stays in order when a chunk is marked as vectorized.
pub proof fn lemma_marked_wf(chunks: Seq<ChunkData>, next_id: i64, chunk_id: i64)
    requires
        chunks_wf(chunks, next_id),
    ensures
        chunks_wf(marked(chunks, chunk_id), next_id),
{
    let m = marked(chunks, chunk_id);
    assert forall|i: int| 0 <= i < m.len() && (#[trigger] m[i]).chunk_index > 0 implies has_position(
        m,
        m[i].document_id,
        m[i].chunk_index - 1,
    ) by {
        assert(chunks[i].chunk_index > 0);
        assert(has_position(chunks, chunks[i].document_id, chunks[i].chunk_index - 1));
        let j = choose|j: int|
            0 <= j < chunks.len() && (#[trigger] chunks[j]).document_id == chunks[i].document_id
                && chunks[j].chunk_index == chunks[i].chunk_index - 1;
        assert(m[j].document_id == m[i].document_id && m[j].chunk_index == m[i].chunk_index - 1);
    }
    assert forall|i: int, j: int| 0 <= i < j < m.len() implies precedes(
        #[trigger] m[i],
        #[trigger] m[j],
    ) && m[i].id != m[j].id by {
        assert(precedes(chunks[i], chunks[j]));
    }
    assert forall|i: int| 0 <= i < m.len() implies (#[trigger] m[i]).chunk_index >= 0 && m[i].id
        < next_id by {
        assert(chunks[i].chunk_index >= 0);
    }
    assert forall|i: int, j: int|
        0 <= i < m.len() && 0 <= j < m.len() && (#[trigger] m[i]).document_id == (
        #[trigger] m[j]).document_id implies m[i].project_id == m[j].project_id by {
        assert(chunks[i].project_id == chunks[j].project_id);
    }
}

/// A store stays in order when a document moves to another project.
pub proof fn lemma_moved_wf(chunks: Seq<ChunkData>, next_id: i64, document_id: i64, project_id: i64)
    requires
        chunks_wf(chunks, next_id),
    ensures
        chunks_wf(moved(chunks, document_id, project_id), next_id),
{
    let m = moved(chunks, document_id, project_id);
    assert forall|i: int| 0 <= i < m.len() && (#[trigger] m[i]).chunk_index > 0 implies has_position(
        m,
        m[i].document_id,
        m[i].chunk_index - 1,
    ) by {
        assert(chunks[i].chunk_index > 0);
        assert(has_position(chunks, chunks[i].document_id, chunks[i].chunk_index - 1));
        let j = choose|j: int|
            0 <= j < chunks.len() && (#[trigger] chunks[j]).document_id == chunks[i].document_id
                && chunks[j].chunk_index == chunks[i].chunk_index - 1;
        assert(m[j].document_id == m[i].document_id && m[j].chunk_index == m[i].chunk_index - 1);
    }
    assert forall|i: int, j: int| 0 <= i < j < m.len() implies precedes(
        #[trigger] m[i],
        #[trigger] m[j],
    ) && m[i].id != m[j].id by {
        assert(precedes(chunks[i], chunks[j]));
    }
    assert forall|i: int| 0 <= i < m.len() implies (#[trigger] m[i]).chunk_index >= 0 && m[i].id
        < next_id by {
        assert(chunks[i].chunk_index >= 0);
    }
    assert forall|i: int, j: int|
        0 <= i < m.len() && 0 <= j < m.len() && (#[trigger] m[i]).document_id == (
        #[trigger] m[j]).document_id implies m[i].project_id == m[j].project_id by {
        assert(chunks[i].project_id == chunks[j].project_id);
    }
}

} // verus!
