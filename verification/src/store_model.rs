use vstd::prelude::*;

verus! {

/// What a stored chunk holds.
pub struct ChunkData {
    pub id: i64,
    pub document_id: i64,
    pub project_id: i64,
    pub chunk_index: i32,
    pub chunk_text: Seq<char>,
    pub is_vectorized: bool,
}

/// What is stored of a document.
pub struct DocumentData {
    pub id: i64,
    pub project_id: i64,
    pub document_name: Seq<char>,
}

/// What a citation holds.
pub struct SourceData {
    pub chunk_id: i64,
    pub document_id: i64,
    pub document_name: Seq<char>,
    pub chunk_index: i32,
    pub chunk_preview: Seq<char>,
}

/// The contents of a chunk store: the chunks in the order of their
/// documents and, within a document, of their positions; the documents in
/// the order of their ids; and the ids that the next chunk and the next
/// document will get.
pub struct StoreState {
    pub chunks: Seq<ChunkData>,
    pub documents: Seq<DocumentData>,
    pub next_chunk_id: i64,
    pub next_document_id: i64,
}

/// Number of characters of a chunk that a citation shows.
pub const PREVIEW_LENGTH: usize = 150;

/// `a` comes before `b`: its document has the smaller id, or both belong to
/// one document and `a` stands earlier in it.
pub open spec fn precedes(a: ChunkData, b: ChunkData) -> bool {
    a.document_id < b.document_id || (a.document_id == b.document_id && a.chunk_index
        < b.chunk_index)
}

/// The chunks are in order, the positions within each document are
/// `0, 1, 2, ...` without a gap, the chunks of one document belong to one
/// project, no id occurs twice, and every id is below `next_id`.
pub open spec fn chunks_wf(chunks: Seq<ChunkData>, next_id: i64) -> bool {
    &&& forall|i: int, j: int|
        0 <= i < j < chunks.len() ==> precedes(#[trigger] chunks[i], #[trigger] chunks[j])
    &&& forall|i: int| 0 <= i < chunks.len() ==> (#[trigger] chunks[i]).chunk_index >= 0
    &&& forall|i: int|
        0 <= i < chunks.len() && (#[trigger] chunks[i]).chunk_index > 0 ==> has_position(
            chunks,
            chunks[i].document_id,
            chunks[i].chunk_index - 1,
        )
    &&& forall|i: int, j: int|
        0 <= i < chunks.len() && 0 <= j < chunks.len() && (#[trigger] chunks[i]).document_id == (
        #[trigger] chunks[j]).document_id ==> chunks[i].project_id == chunks[j].project_id
    &&& forall|i: int, j: int|
        0 <= i < j < chunks.len() ==> (#[trigger] chunks[i]).id != (#[trigger] chunks[j]).id
    &&& forall|i: int| 0 <= i < chunks.len() ==> (#[trigger] chunks[i]).id < next_id
}

/// Some chunk of `chunks` is the one of `document_id` at `position`.
pub open spec fn has_position(chunks: Seq<ChunkData>, document_id: i64, position: int) -> bool {
    exists|j: int|
        0 <= j < chunks.len() && (#[trigger] chunks[j]).document_id == document_id
            && chunks[j].chunk_index == position
}

/// The documents are in the order of their ids, which lie below `next_id`.
pub open spec fn documents_wf(documents: Seq<DocumentData>, next_id: i64) -> bool {
    &&& forall|i: int, j: int|
        0 <= i < j < documents.len() ==> (#[trigger] documents[i]).id < (#[trigger] documents[j]).id
    &&& forall|i: int| 0 <= i < documents.len() ==> (#[trigger] documents[i]).id < next_id
}

impl StoreState {
    /// The state of a store that its operations can reach.
    pub open spec fn wf(self) -> bool {
        &&& chunks_wf(self.chunks, self.next_chunk_id)
        &&& documents_wf(self.documents, self.next_document_id)
        &&& self.next_chunk_id >= 1
        &&& self.next_document_id >= 1
    }

    /// An empty store, whose first ids will be 1.
    pub open spec fn empty() -> StoreState {
        StoreState {
            chunks: Seq::empty(),
            documents: Seq::empty(),
            next_chunk_id: 1,
            next_document_id: 1,
        }
    }
}

/// The test "belongs to `document_id`".
pub open spec fn in_document(document_id: i64) -> spec_fn(ChunkData) -> bool {
    |c: ChunkData| c.document_id == document_id
}

/// The test "belongs to another document than `document_id`".
pub open spec fn not_in_document(document_id: i64) -> spec_fn(ChunkData) -> bool {
    |c: ChunkData| c.document_id != document_id
}

/// The test "belongs to a document whose id is below `document_id`".
pub open spec fn below_document(document_id: i64) -> spec_fn(ChunkData) -> bool {
    |c: ChunkData| c.document_id < document_id
}

/// The test "belongs to a document whose id is above `document_id`".
pub open spec fn above_document(document_id: i64) -> spec_fn(ChunkData) -> bool {
    |c: ChunkData| c.document_id > document_id
}

/// The test "belongs to `project_id`".
pub open spec fn in_project(project_id: i64) -> spec_fn(ChunkData) -> bool {
    |c: ChunkData| c.project_id == project_id
}

/// The test "belongs to another project than `project_id`".
pub open spec fn not_in_project(project_id: i64) -> spec_fn(ChunkData) -> bool {
    |c: ChunkData| c.project_id != project_id
}

/// The test "belongs to `project_id` and is not vectorized".
pub open spec fn pending_in_project(project_id: i64) -> spec_fn(ChunkData) -> bool {
    |c: ChunkData| c.project_id == project_id && !c.is_vectorized
}

/// The test "belongs to `project_id` and is vectorized".
pub open spec fn vectorized_in_project(project_id: i64) -> spec_fn(ChunkData) -> bool {
    |c: ChunkData| c.project_id == project_id && c.is_vectorized
}

/// The test "belongs to `document_id` and is not vectorized".
pub open spec fn pending_in_document(document_id: i64) -> spec_fn(ChunkData) -> bool {
    |c: ChunkData| c.document_id == document_id && !c.is_vectorized
}

/// The test "has one of the ids `ids`".
pub open spec fn id_among(ids: Seq<i64>) -> spec_fn(ChunkData) -> bool {
    |c: ChunkData| ids.contains(c.id)
}

/// The test "belongs to `project_id`, is vectorized and has one of the
/// ids `ids`".
pub open spec fn searchable(project_id: i64, ids: Seq<i64>) -> spec_fn(ChunkData) -> bool {
    |c: ChunkData| c.project_id == project_id && c.is_vectorized && ids.contains(c.id)
}

/// The chunks of `document_id`, in order.
pub open spec fn of_document(chunks: Seq<ChunkData>, document_id: i64) -> Seq<ChunkData> {
    chunks.filter(in_document(document_id))
}

/// The chunks of all documents but `document_id`.
pub open spec fn without_document(chunks: Seq<ChunkData>, document_id: i64) -> Seq<ChunkData> {
    chunks.filter(not_in_document(document_id))
}

/// The chunks of `document_id` replaced by `block`.
pub open spec fn with_document(chunks: Seq<ChunkData>, document_id: i64, block: Seq<ChunkData>) -> Seq<
    ChunkData,
> {
    chunks.filter(below_document(document_id)) + block + chunks.filter(
        above_document(document_id),
    )
}

/// Fresh chunks for the texts `texts` of a document: ids from `first_id`
/// on, positions from 0 on, none vectorized.
pub open spec fn fresh_chunks(
    first_id: i64,
    document_id: i64,
    project_id: i64,
    texts: Seq<Seq<char>>,
) -> Seq<ChunkData> {
    Seq::new(
        texts.len(),
        |k: int|
            ChunkData {
                id: (first_id + k) as i64,
                document_id,
                project_id,
                chunk_index: k as i32,
                chunk_text: texts[k],
                is_vectorized: false,
            },
    )
}

/// The ids `first_id, first_id + 1, ...`, `count` of them.
pub open spec fn id_run(first_id: i64, count: nat) -> Seq<i64> {
    Seq::new(count, |k: int| (first_id + k) as i64)
}

/// Whether `count` fresh chunks can be stored: their positions fit the
/// type of a position and their ids the type of an id.
pub open spec fn can_store(next_chunk_id: i64, count: nat) -> bool {
    count <= i32::MAX && next_chunk_id + count <= i64::MAX
}

/// The store after the chunks of `document_id` were dropped.
pub open spec fn after_delete(s: StoreState, document_id: i64) -> StoreState {
    StoreState { chunks: without_document(s.chunks, document_id), ..s }
}

/// The store after the chunks of `document_id` were replaced by fresh ones
/// for `texts`.
pub open spec fn after_save(
    s: StoreState,
    document_id: i64,
    project_id: i64,
    texts: Seq<Seq<char>>,
) -> StoreState {
    StoreState {
        chunks: with_document(
            s.chunks,
            document_id,
            fresh_chunks(s.next_chunk_id, document_id, project_id, texts),
        ),
        next_chunk_id: (s.next_chunk_id + texts.len()) as i64,
        ..s
    }
}

/// The chunks with the one whose id is `chunk_id` marked as vectorized.
pub open spec fn marked(chunks: Seq<ChunkData>, chunk_id: i64) -> Seq<ChunkData> {
    Seq::new(
        chunks.len(),
        |i: int|
            if chunks[i].id == chunk_id {
                ChunkData { is_vectorized: true, ..chunks[i] }
            } else {
                chunks[i]
            },
    )
}

/// The chunks with those of `document_id` moved to `project_id` and marked
/// as not vectorized.
pub open spec fn moved(chunks: Seq<ChunkData>, document_id: i64, project_id: i64) -> Seq<ChunkData> {
    Seq::new(
        chunks.len(),
        |i: int|
            if chunks[i].document_id == document_id {
                ChunkData { project_id, is_vectorized: false, ..chunks[i] }
            } else {
                chunks[i]
            },
    )
}

/// The chunks of `project_id` that are not vectorized yet.
pub open spec fn pending_of_project(chunks: Seq<ChunkData>, project_id: i64) -> Seq<ChunkData> {
    chunks.filter(pending_in_project(project_id))
}

/// The chunks of `document_id` that are not vectorized yet.
pub open spec fn pending_of_document(chunks: Seq<ChunkData>, document_id: i64) -> Seq<ChunkData> {
    chunks.filter(pending_in_document(document_id))
}

/// The chunks of `project_id` that are vectorized.
pub open spec fn vectorized_of_project(chunks: Seq<ChunkData>, project_id: i64) -> Seq<ChunkData> {
    chunks.filter(vectorized_in_project(project_id))
}

/// The chunks of `project_id`.
pub open spec fn of_project(chunks: Seq<ChunkData>, project_id: i64) -> Seq<ChunkData> {
    chunks.filter(in_project(project_id))
}

/// The chunks whose id is among `ids`.
pub open spec fn with_ids(chunks: Seq<ChunkData>, ids: Seq<i64>) -> Seq<ChunkData> {
    chunks.filter(id_among(ids))
}

/// The vectorized chunks of `project_id` whose id is among `ids`: what a
/// search in that project may return.
pub open spec fn retrieved(chunks: Seq<ChunkData>, project_id: i64, ids: Seq<i64>) -> Seq<ChunkData> {
    chunks.filter(searchable(project_id, ids))
}

/// The ids of `chunks`, in order.
pub open spec fn ids_of(chunks: Seq<ChunkData>) -> Seq<i64> {
    chunks.map_values(|c: ChunkData| c.id)
}

/// The texts of `chunks`, in order.
pub open spec fn texts_of(chunks: Seq<ChunkData>) -> Seq<Seq<char>> {
    chunks.map_values(|c: ChunkData| c.chunk_text)
}

/// The document with the id `document_id`, if there is one.
pub open spec fn document_of(documents: Seq<DocumentData>, document_id: i64) -> Option<DocumentData> {
    if exists|i: int| 0 <= i < documents.len() && (#[trigger] documents[i]).id == document_id {
        Some(
            documents[choose|i: int|
                0 <= i < documents.len() && (#[trigger] documents[i]).id == document_id],
        )
    } else {
        None
    }
}

/// What a citation shows of a chunk's text: its first `PREVIEW_LENGTH`
/// characters, the whole text where it has no more.
pub open spec fn preview(text: Seq<char>) -> Seq<char> {
    if text.len() <= PREVIEW_LENGTH as int {
        text
    } else {
        text.take(PREVIEW_LENGTH as int)
    }
}

/// The citation of `chunk`, which belongs to `document`.
pub open spec fn source_of(chunk: ChunkData, document: DocumentData) -> SourceData {
    SourceData {
        chunk_id: chunk.id,
        document_id: chunk.document_id,
        document_name: document.document_name,
        chunk_index: chunk.chunk_index,
        chunk_preview: preview(chunk.chunk_text),
    }
}

/// The citations of those of `chunks` whose document is among `documents`,
/// in order.
pub open spec fn sources_of(chunks: Seq<ChunkData>, documents: Seq<DocumentData>) -> Seq<SourceData>
    decreases chunks.len(),
{
    if chunks.len() == 0 {
        Seq::empty()
    } else {
        let rest = sources_of(chunks.drop_last(), documents);
        match document_of(documents, chunks.last().document_id) {
            Some(d) => rest.push(source_of(chunks.last(), d)),
            None => rest,
        }
    }
}

/// The test "belongs to another project than `project_id`".
pub open spec fn outside_project(project_id: i64) -> spec_fn(DocumentData) -> bool {
    |d: DocumentData| d.project_id != project_id
}

/// The store after the chunks and the documents of `project_id` were
/// dropped.
pub open spec fn after_delete_project(s: StoreState, project_id: i64) -> StoreState {
    StoreState {
        chunks: s.chunks.filter(not_in_project(project_id)),
        documents: s.documents.filter(outside_project(project_id)),
        ..s
    }
}

/// The test "has another id than `document_id`".
pub open spec fn other_document(document_id: i64) -> spec_fn(DocumentData) -> bool {
    |d: DocumentData| d.id != document_id
}

/// The documents with the one whose id is `document_id` renamed.
pub open spec fn renamed(documents: Seq<DocumentData>, document_id: i64, name: Seq<char>) -> Seq<
    DocumentData,
> {
    Seq::new(
        documents.len(),
        |i: int|
            if documents[i].id == document_id {
                DocumentData { document_name: name, ..documents[i] }
            } else {
                documents[i]
            },
    )
}

/// The documents with the one whose id is `document_id` given to
/// `project_id`.
pub open spec fn reassigned(documents: Seq<DocumentData>, document_id: i64, project_id: i64) -> Seq<
    DocumentData,
> {
    Seq::new(
        documents.len(),
        |i: int|
            if documents[i].id == document_id {
                DocumentData { project_id, ..documents[i] }
            } else {
                documents[i]
            },
    )
}

/// The store after a document named `name` was added to `project_id`.
pub open spec fn after_add_document(s: StoreState, project_id: i64, name: Seq<char>) -> StoreState {
    StoreState {
        documents: s.documents.push(
            DocumentData { id: s.next_document_id, project_id, document_name: name },
        ),
        next_document_id: (s.next_document_id + 1) as i64,
        ..s
    }
}

/// The store after `document_id` moved to `project_id`: the document
/// belongs to that project, and so do its chunks, none of them vectorized.
pub open spec fn after_move(s: StoreState, document_id: i64, project_id: i64) -> StoreState {
    StoreState {
        chunks: moved(s.chunks, document_id, project_id),
        documents: reassigned(s.documents, document_id, project_id),
        ..s
    }
}

/// `block` can be taken in as the chunks of one document: it is not empty,
/// its chunks belong to one document and one project, stand at the
/// positions `0, 1, 2, ...`, and have rising ids that are not below
/// `next_chunk_id` and leave room for a next one.
pub open spec fn block_fits(block: Seq<ChunkData>, next_chunk_id: i64) -> bool {
    &&& block.len() > 0
    &&& block.len() <= i32::MAX
    &&& forall|k: int|
        0 <= k < block.len() ==> (#[trigger] block[k]).document_id == block[0].document_id
            && block[k].project_id == block[0].project_id && block[k].chunk_index == k
    &&& forall|k: int| 0 < k < block.len() ==> block[k - 1].id < (#[trigger] block[k]).id
    &&& block[0].id >= next_chunk_id
    &&& block.last().id < i64::MAX
}

/// The store after `block` was taken in as the chunks of its document.
pub open spec fn after_restore_chunks(s: StoreState, block: Seq<ChunkData>) -> StoreState {
    StoreState {
        chunks: with_document(s.chunks, block[0].document_id, block),
        next_chunk_id: (block.last().id + 1) as i64,
        ..s
    }
}

/// The store after `document` was taken in.
pub open spec fn after_restore_document(s: StoreState, document: DocumentData) -> StoreState {
    StoreState {
        documents: s.documents.push(document),
        next_document_id: (document.id + 1) as i64,
        ..s
    }
}

/// How far the vectorization of a document has come.
#[derive(Debug, Clone, Copy, PartialEq, Eq, Structural)]
pub enum DocumentStage {
    /// The document has no chunks.
    Unchunked,
    /// Some chunk of the document is not vectorized.
    Pending,
    /// The document has chunks, and all of them are vectorized.
    Vectorized,
}

/// How far the vectorization of `document_id` has come.
pub open spec fn stage_of(chunks: Seq<ChunkData>, document_id: i64) -> DocumentStage {
    if pending_of_document(chunks, document_id).len() > 0 {
        DocumentStage::Pending
    } else if of_document(chunks, document_id).len() > 0 {
        DocumentStage::Vectorized
    } else {
        DocumentStage::Unchunked
    }
}

} // verus!
