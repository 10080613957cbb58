use crate::chunker::{lemma_chunks_bounded, split};
use crate::CHUNK_SIZE;
use crate::seq_util::{lemma_filter_members, lemma_filter_none_or_all, lemma_filter_order};
use crate::store_model::{
    above_document, after_delete, after_move, after_save, below_document, can_store,
    fresh_chunks, id_among,
    in_document, marked, moved, not_in_document, of_document, pending_in_document,
    pending_of_document, precedes, retrieved, searchable, stage_of, texts_of,
    vectorized_in_project, vectorized_of_project, with_document, with_ids, without_document,
    ChunkData, DocumentStage, StoreState,
};
use vstd::prelude::*;

verus! {

/// After the chunks of a document were replaced by `block`, chunks of that
/// document alone, the document's chunks are `block`.
pub proof fn lemma_with_document(chunks: Seq<ChunkData>, document_id: i64, block: Seq<ChunkData>)
    requires
        forall|k: int| 0 <= k < block.len() ==> (#[trigger] block[k]).document_id == document_id,
    ensures
        of_document(with_document(chunks, document_id, block), document_id) == block,
{
    let pred = in_document(document_id);
    let below = chunks.filter(below_document(document_id));
    let above = chunks.filter(above_document(document_id));
    lemma_filter_order(chunks, below_document(document_id));
    lemma_filter_order(chunks, above_document(document_id));
    lemma_filter_none_or_all(below, pred);
    lemma_filter_none_or_all(block, pred);
    lemma_filter_none_or_all(above, pred);
    Seq::filter_distributes_over_add(below, block, pred);
    Seq::filter_distributes_over_add(below + block, above, pred);
    assert(below.filter(pred) + block.filter(pred) + above.filter(pred) =~= block);
}

/// After a text was saved for a document, the texts of the document's
/// chunks are the chunks that the chunker makes of the text, in order.
pub proof fn lemma_saved_texts(s: StoreState, document_id: i64, project_id: i64, text: Seq<char>)
    ensures
        texts_of(of_document(after_save(s, document_id, project_id, split(text)).chunks, document_id))
            == split(text),
{
    let texts = split(text);
    let block = fresh_chunks(s.next_chunk_id, document_id, project_id, texts);
    lemma_with_document(s.chunks, document_id, block);
    lemma_fresh_texts(s.next_chunk_id, document_id, project_id, texts);
}

/// The texts of fresh chunks are the texts they were made for.
pub proof fn lemma_fresh_texts(
    first_id: i64,
    document_id: i64,
    project_id: i64,
    texts: Seq<Seq<char>>,
)
    ensures
        texts_of(fresh_chunks(first_id, document_id, project_id, texts)) == texts,
{
    let block = fresh_chunks(first_id, document_id, project_id, texts);
    assert(texts_of(block).len() == texts.len());
    assert forall|k: int| 0 <= k < texts.len() implies texts_of(block)[k] == texts[k] by {
        assert(block[k].chunk_text == texts[k]);
    }
    assert(texts_of(block) =~= texts);
}

/// The chunks that a document has after a text was saved for it are not
/// empty, have at most `CHUNK_SIZE` characters each, stand at the
/// positions `0, 1, 2, ...`, and are not vectorized.
pub proof fn lemma_saved_chunks(s: StoreState, document_id: i64, project_id: i64, text: Seq<char>)
    requires
        can_store(s.next_chunk_id, split(text).len()),
    ensures
        ({
            let own = of_document(
                after_save(s, document_id, project_id, split(text)).chunks,
                document_id,
            );
            &&& own.len() == split(text).len()
            &&& forall|k: int|
                0 <= k < own.len() ==> {
                    &&& 0 < (#[trigger] own[k]).chunk_text.len() <= CHUNK_SIZE as int
                    &&& own[k].chunk_index == k
                    &&& own[k].project_id == project_id
                    &&& !own[k].is_vectorized
                    &&& own[k].id == s.next_chunk_id + k
                }
        }),
{
    let texts = split(text);
    let block = fresh_chunks(s.next_chunk_id, document_id, project_id, texts);
    lemma_with_document(s.chunks, document_id, block);
    lemma_chunks_bounded(text);
    assert forall|k: int| 0 <= k < block.len() implies 0 < (#[trigger] block[k]).chunk_text.len()
        <= CHUNK_SIZE as int by {
        assert(block[k].chunk_text == texts[k]);
    }
}

/// Saving the same text for a document twice leaves it with the same chunk
/// texts, and as many, as saving it once; only the ids differ.
pub proof fn lemma_save_twice(s: StoreState, document_id: i64, project_id: i64, text: Seq<char>)
    ensures
        ({
            let once = after_save(s, document_id, project_id, split(text));
            let twice = after_save(once, document_id, project_id, split(text));
            &&& texts_of(of_document(twice.chunks, document_id)) == texts_of(
                of_document(once.chunks, document_id),
            )
            &&& of_document(twice.chunks, document_id).len() == of_document(
                once.chunks,
                document_id,
            ).len()
        }),
{
    let once = after_save(s, document_id, project_id, split(text));
    lemma_saved_texts(s, document_id, project_id, text);
    lemma_saved_texts(once, document_id, project_id, text);
    let a = of_document(once.chunks, document_id);
    let b = of_document(after_save(once, document_id, project_id, split(text)).chunks, document_id);
    assert(texts_of(a).len() == a.len());
    assert(texts_of(b).len() == b.len());
}

/// Marking a chunk a second time changes nothing.
pub proof fn lemma_mark_twice(chunks: Seq<ChunkData>, chunk_id: i64)
    ensures
        marked(marked(chunks, chunk_id), chunk_id) == marked(chunks, chunk_id),
{
    assert(marked(marked(chunks, chunk_id), chunk_id) =~= marked(chunks, chunk_id));
}

/// After a document moved to a project, each of its chunks belongs to that
/// project and is not vectorized, so that no project counts any of them
/// among its vectorized chunks; the chunks of other documents are as
/// before.
pub proof fn lemma_move_resets(s: StoreState, document_id: i64, project_id: i64)
    ensures
        ({
            let after = after_move(s, document_id, project_id).chunks;
            &&& after.len() == s.chunks.len()
            &&& forall|i: int|
                0 <= i < after.len() && s.chunks[i].document_id == document_id ==> {
                    &&& (#[trigger] after[i]).project_id == project_id
                    &&& !after[i].is_vectorized
                    &&& after[i].id == s.chunks[i].id
                    &&& after[i].chunk_text == s.chunks[i].chunk_text
                }
            &&& forall|i: int|
                0 <= i < after.len() && s.chunks[i].document_id != document_id ==> #[trigger] after[i]
                    == s.chunks[i]
            &&& forall|any_project: i64, k: int|
                0 <= k < vectorized_of_project(after, any_project).len() ==> (
                #[trigger] vectorized_of_project(after, any_project)[k]).document_id != document_id
        }),
{
    let after = after_move(s, document_id, project_id).chunks;
    assert forall|any_project: i64, k: int|
        0 <= k < vectorized_of_project(after, any_project).len() implies (
    #[trigger] vectorized_of_project(after, any_project)[k]).document_id != document_id by {
        let f = vectorized_of_project(after, any_project);
        lemma_filter_order(after, vectorized_in_project(any_project));
        assert(after.contains(f[k]));
        let i = choose|i: int| 0 <= i < after.len() && after[i] == f[k];
        assert(after[i].is_vectorized);
        assert(after[i] == moved(s.chunks, document_id, project_id)[i]);
    }
}

/// In a store whose chunks stand in the order of their documents, the
/// chunks of the documents before `document_id` followed by those of the
/// documents after it are the chunks of all documents but `document_id`.
pub proof fn lemma_split_by_document(chunks: Seq<ChunkData>, document_id: i64)
    requires
        forall|i: int, j: int|
            0 <= i < j < chunks.len() ==> (#[trigger] chunks[i]).document_id <= (
            #[trigger] chunks[j]).document_id,
    ensures
        chunks.filter(below_document(document_id)) + chunks.filter(above_document(document_id))
            == without_document(chunks, document_id),
    decreases chunks.len(),
{
    reveal(Seq::filter);
    let below = chunks.filter(below_document(document_id));
    let above = chunks.filter(above_document(document_id));
    if chunks.len() > 0 {
        let init = chunks.drop_last();
        let last = chunks.last();
        assert forall|i: int, j: int| 0 <= i < j < init.len() implies (
        #[trigger] init[i]).document_id <= (#[trigger] init[j]).document_id by {
            assert(init[i] == chunks[i] && init[j] == chunks[j]);
        }
        lemma_split_by_document(init, document_id);
        if last.document_id < document_id {
            assert forall|i: int| 0 <= i < init.len() implies !above_document(document_id)(
                #[trigger] init[i],
            ) by {
                assert(init[i] == chunks[i]);
                assert(chunks[i].document_id <= chunks[chunks.len() - 1].document_id);
            }
            lemma_filter_none_or_all(init, above_document(document_id));
        }
        assert(below + above =~= without_document(chunks, document_id));
    } else {
        assert(below + above =~= without_document(chunks, document_id));
    }
}

/// Saving a text for a document leaves the chunks of every other document
/// as they were.
pub proof fn lemma_save_keeps_others(
    s: StoreState,
    document_id: i64,
    project_id: i64,
    texts: Seq<Seq<char>>,
)
    requires
        s.wf(),
    ensures
        without_document(after_save(s, document_id, project_id, texts).chunks, document_id)
            == without_document(s.chunks, document_id),
{
    let pred = not_in_document(document_id);
    let below = s.chunks.filter(below_document(document_id));
    let above = s.chunks.filter(above_document(document_id));
    let block = fresh_chunks(s.next_chunk_id, document_id, project_id, texts);
    lemma_filter_order(s.chunks, below_document(document_id));
    lemma_filter_order(s.chunks, above_document(document_id));
    lemma_filter_none_or_all(below, pred);
    lemma_filter_none_or_all(block, pred);
    lemma_filter_none_or_all(above, pred);
    Seq::filter_distributes_over_add(below, block, pred);
    Seq::filter_distributes_over_add(below + block, above, pred);
    assert(below.filter(pred) + block.filter(pred) + above.filter(pred) =~= below + above);
    assert forall|i: int, j: int| 0 <= i < j < s.chunks.len() implies (
    #[trigger] s.chunks[i]).document_id <= (#[trigger] s.chunks[j]).document_id by {
        assert(precedes(s.chunks[i], s.chunks[j]));
    }
    lemma_split_by_document(s.chunks, document_id);
}

/// Saving a text without chunks for a document is deleting its chunks.
pub proof fn lemma_save_nothing_is_delete(s: StoreState, document_id: i64, project_id: i64)
    requires
        s.wf(),
    ensures
        after_save(s, document_id, project_id, Seq::empty()) == after_delete(s, document_id),
{
    let block = fresh_chunks(s.next_chunk_id, document_id, project_id, Seq::empty());
    assert forall|i: int, j: int| 0 <= i < j < s.chunks.len() implies (
    #[trigger] s.chunks[i]).document_id <= (#[trigger] s.chunks[j]).document_id by {
        assert(precedes(s.chunks[i], s.chunks[j]));
    }
    lemma_split_by_document(s.chunks, document_id);
    assert(with_document(s.chunks, document_id, block) =~= without_document(
        s.chunks,
        document_id,
    ));
}

/// After a text with chunks was saved for a document, and after a document
/// with chunks moved to a project, the document is pending.
pub proof fn lemma_pending_after_change(
    s: StoreState,
    document_id: i64,
    project_id: i64,
    text: Seq<char>,
)
    ensures
        split(text).len() > 0 ==> stage_of(
            after_save(s, document_id, project_id, split(text)).chunks,
            document_id,
        ) == DocumentStage::Pending,
        of_document(s.chunks, document_id).len() > 0 ==> stage_of(
            after_move(s, document_id, project_id).chunks,
            document_id,
        ) == DocumentStage::Pending,
{
    if split(text).len() > 0 {
        let saved = after_save(s, document_id, project_id, split(text)).chunks;
        let block = fresh_chunks(s.next_chunk_id, document_id, project_id, split(text));
        lemma_with_document(s.chunks, document_id, block);
        let own = of_document(saved, document_id);
        assert(own == block);
        lemma_filter_members(saved, in_document(document_id));
        assert(own.contains(own[0]));
        assert(saved.contains(block[0]));
        lemma_filter_members(saved, pending_in_document(document_id));
        assert(pending_in_document(document_id)(block[0]));
        assert(pending_of_document(saved, document_id).contains(block[0]));
    }
    if of_document(s.chunks, document_id).len() > 0 {
        let own = of_document(s.chunks, document_id);
        let after = after_move(s, document_id, project_id).chunks;
        lemma_filter_members(s.chunks, in_document(document_id));
        assert(own.contains(own[0]));
        let i = choose|i: int| 0 <= i < s.chunks.len() && s.chunks[i] == own[0];
        assert(after[i] == moved(s.chunks, document_id, project_id)[i]);
        lemma_filter_members(after, pending_in_document(document_id));
        assert(after.contains(after[i]));
        assert(pending_in_document(document_id)(after[i]));
        assert(pending_of_document(after, document_id).contains(after[i]));
    }
}

/// The chunks that are fetched by ids are the chunks of the store that
/// have one of the ids, each once, in the order of their documents and
/// positions; an id that no chunk has brings nothing.
pub proof fn lemma_fetch_by_ids(s: StoreState, ids: Seq<i64>)
    requires
        s.wf(),
    ensures
        forall|c: ChunkData| #[trigger]
            with_ids(s.chunks, ids).contains(c) <==> s.chunks.contains(c) && ids.contains(c.id),
        forall|i: int, j: int|
            0 <= i < j < with_ids(s.chunks, ids).len() ==> precedes(
                #[trigger] with_ids(s.chunks, ids)[i],
                #[trigger] with_ids(s.chunks, ids)[j],
            ),
{
    let f = with_ids(s.chunks, ids);
    lemma_filter_members(s.chunks, id_among(ids));
    lemma_filter_order(s.chunks, id_among(ids));
    assert forall|i: int, j: int| 0 <= i < j < f.len() implies precedes(
        #[trigger] f[i],
        #[trigger] f[j],
    ) by {
        let (a, b) = choose|a: int, b: int|
            0 <= a < b < s.chunks.len() && s.chunks[a] == f[i] && s.chunks[b] == f[j];
        assert(precedes(s.chunks[a], s.chunks[b]));
    }
}

/// What a search retrieves are vectorized chunks of the project that the
/// index answered with, each once, in the order of their documents and
/// positions.
pub proof fn lemma_retrieved(s: StoreState, project_id: i64, ids: Seq<i64>)
    requires
        s.wf(),
    ensures
        forall|c: ChunkData| #[trigger]
            retrieved(s.chunks, project_id, ids).contains(c) <==> s.chunks.contains(c)
                && c.project_id == project_id && c.is_vectorized && ids.contains(c.id),
        forall|i: int, j: int|
            0 <= i < j < retrieved(s.chunks, project_id, ids).len() ==> precedes(
                #[trigger] retrieved(s.chunks, project_id, ids)[i],
                #[trigger] retrieved(s.chunks, project_id, ids)[j],
            ),
{
    let f = retrieved(s.chunks, project_id, ids);
    lemma_filter_members(s.chunks, searchable(project_id, ids));
    lemma_filter_order(s.chunks, searchable(project_id, ids));
    assert forall|i: int, j: int| 0 <= i < j < f.len() implies precedes(
        #[trigger] f[i],
        #[trigger] f[j],
    ) by {
        let (a, b) = choose|a: int, b: int|
            0 <= a < b < s.chunks.len() && s.chunks[a] == f[i] && s.chunks[b] == f[j];
        assert(precedes(s.chunks[a], s.chunks[b]));
    }
}

} // verus!
