use crate::chunker::{split, split_into_chunks};
use crate::seq_util::{lemma_filter_order, lemma_filter_prefix, lemma_filter_take};
use crate::store_model::{
    above_document, after_add_document, after_delete, after_delete_project, after_move,
    after_restore_chunks,
    after_restore_document, after_save, below_document, block_fits, can_store, document_of,
    fresh_chunks, id_among, id_run, ids_of, in_document, in_project, marked, moved,
    not_in_document, not_in_project, of_document, of_project, other_document, outside_project,
    pending_in_document,
    pending_in_project, pending_of_document, pending_of_project, preview, reassigned, renamed,
    retrieved, searchable, source_of, sources_of, stage_of, vectorized_in_project,
    vectorized_of_project, with_ids, ChunkData, DocumentData, DocumentStage, SourceData,
    StoreState, PREVIEW_LENGTH,
};
use crate::store_proofs::{
    lemma_block_wf, lemma_filter_wf, lemma_marked_wf, lemma_moved_wf, lemma_save_wf,
    lemma_with_block_wf,
};
use crate::text::substring;
use vstd::prelude::*;
use vstd::string::StrSliceExecFns;

verus! {

/// A chunk of a document as it is stored.
#[derive(Debug, Clone)]
pub struct DocumentChunk {
    pub id: i64,
    pub document_id: i64,
    pub project_id: i64,
    pub chunk_index: i32,
    pub chunk_text: String,
    pub is_vectorized: bool,
}

impl View for DocumentChunk {
    type V = ChunkData;

    open spec fn view(&self) -> ChunkData {
        ChunkData {
            id: self.id,
            document_id: self.document_id,
            project_id: self.project_id,
            chunk_index: self.chunk_index,
            chunk_text: self.chunk_text@,
            is_vectorized: self.is_vectorized,
        }
    }
}

impl DeepView for DocumentChunk {
    type V = ChunkData;

    open spec fn deep_view(&self) -> ChunkData {
        self@
    }
}

/// Where a chunk comes from, for a citation.
#[derive(Debug, Clone)]
pub struct ChunkSource {
    pub chunk_id: i64,
    pub document_id: i64,
    pub document_name: String,
    pub chunk_index: i32,
    pub chunk_preview: String,
}

impl View for ChunkSource {
    type V = SourceData;

    open spec fn view(&self) -> SourceData {
        SourceData {
            chunk_id: self.chunk_id,
            document_id: self.document_id,
            document_name: self.document_name@,
            chunk_index: self.chunk_index,
            chunk_preview: self.chunk_preview@,
        }
    }
}

impl DeepView for ChunkSource {
    type V = SourceData;

    open spec fn deep_view(&self) -> SourceData {
        self@
    }
}

/// A document as the store knows it.
#[derive(Debug, Clone)]
pub struct DocumentRecord {
    pub id: i64,
    pub project_id: i64,
    pub document_name: String,
}

impl View for DocumentRecord {
    type V = DocumentData;

    open spec fn view(&self) -> DocumentData {
        DocumentData {
            id: self.id,
            project_id: self.project_id,
            document_name: self.document_name@,
        }
    }
}

impl DeepView for DocumentRecord {
    type V = DocumentData;

    open spec fn deep_view(&self) -> DocumentData {
        self@
    }
}

/// Why the store refused to take something in.
#[derive(Debug, Clone, Copy, PartialEq, Eq, Structural)]
pub enum StoreError {
    /// A document would get more chunks than a position can count.
    TooManyChunks,
    /// No ids are left.
    IdsExhausted,
    /// What was to be taken in does not fit what the store holds.
    Inconsistent,
}

/// The chunks of all documents, with the documents they belong to.
#[derive(Debug, Clone)]
pub struct ChunkStore {
    chunks: Vec<DocumentChunk>,
    documents: Vec<DocumentRecord>,
    next_chunk_id: i64,
    next_document_id: i64,
}

impl View for ChunkStore {
    type V = StoreState;

    closed spec fn view(&self) -> StoreState {
        StoreState {
            chunks: self.chunks.deep_view(),
            documents: self.documents.deep_view(),
            next_chunk_id: self.next_chunk_id,
            next_document_id: self.next_document_id,
        }
    }
}

/// A test on a chunk: which document or project it belongs to, whether it
/// is vectorized, which id it has.
enum Selector<'a> {
    InDocument(i64),
    NotInDocument(i64),
    BelowDocument(i64),
    AboveDocument(i64),
    InProject(i64),
    PendingInProject(i64),
    VectorizedInProject(i64),
    PendingInDocument(i64),
    IdAmong(&'a [i64]),
    Searchable(i64, &'a [i64]),
    NotInProject(i64),
}

impl<'a> Selector<'a> {
    /// The chunks that pass the test.
    spec fn pred(self) -> spec_fn(ChunkData) -> bool {
        match self {
            Selector::InDocument(d) => in_document(d),
            Selector::NotInDocument(d) => not_in_document(d),
            Selector::BelowDocument(d) => below_document(d),
            Selector::AboveDocument(d) => above_document(d),
            Selector::InProject(p) => in_project(p),
            Selector::PendingInProject(p) => pending_in_project(p),
            Selector::VectorizedInProject(p) => vectorized_in_project(p),
            Selector::PendingInDocument(d) => pending_in_document(d),
            Selector::IdAmong(ids) => id_among(ids@),
            Selector::Searchable(p, ids) => searchable(p, ids@),
            Selector::NotInProject(p) => not_in_project(p),
        }
    }

    /// Whether `chunk` passes the test.
    fn passes(&self, chunk: &DocumentChunk) -> (r: bool)
        ensures
            r == (self.pred())(chunk@),
    {
        match self {
            Selector::InDocument(d) => chunk.document_id == *d,
            Selector::NotInDocument(d) => chunk.document_id != *d,
            Selector::BelowDocument(d) => chunk.document_id < *d,
            Selector::AboveDocument(d) => chunk.document_id > *d,
            Selector::InProject(p) => chunk.project_id == *p,
            Selector::PendingInProject(p) => chunk.project_id == *p && !chunk.is_vectorized,
            Selector::VectorizedInProject(p) => chunk.project_id == *p && chunk.is_vectorized,
            Selector::PendingInDocument(d) => chunk.document_id == *d && !chunk.is_vectorized,
            Selector::IdAmong(ids) => holds_id(ids, chunk.id),
            Selector::Searchable(p, ids) => chunk.project_id == *p && chunk.is_vectorized
                && holds_id(ids, chunk.id),
            Selector::NotInProject(p) => chunk.project_id != *p,
        }
    }
}

/// Whether `id` is one of `ids`.
fn holds_id(ids: &[i64], id: i64) -> (r: bool)
    ensures
        r == ids@.contains(id),
{
    let mut i: usize = 0;
    while i < ids.len()
        invariant
            i <= ids@.len(),
            forall|j: int| 0 <= j < i ==> ids@[j] != id,
        decreases ids@.len() - i,
    {
        if ids[i] == id {
            return true;
        }
        i = i + 1;
    }
    false
}

/// A copy of `chunk`.
fn copy_chunk(chunk: &DocumentChunk) -> (r: DocumentChunk)
    ensures
        r@ == chunk@,
{
    DocumentChunk {
        id: chunk.id,
        document_id: chunk.document_id,
        project_id: chunk.project_id,
        chunk_index: chunk.chunk_index,
        chunk_text: chunk.chunk_text.clone(),
        is_vectorized: chunk.is_vectorized,
    }
}

/// Copies of those of `chunks` that pass `test`, in order, at most `limit`
/// of them.
fn select(chunks: &Vec<DocumentChunk>, test: &Selector, limit: usize) -> (r: Vec<DocumentChunk>)
    ensures
        chunks.deep_view().filter(test.pred()).len() <= usize::MAX,
        r.deep_view() == if chunks.deep_view().filter(test.pred()).len() <= limit {
            chunks.deep_view().filter(test.pred())
        } else {
            chunks.deep_view().filter(test.pred()).take(limit as int)
        },
{
    let ghost all = chunks.deep_view();
    let ghost pred = test.pred();
    let mut out: Vec<DocumentChunk> = Vec::new();
    let mut i: usize = 0;
    proof {
        reveal(Seq::filter);
        assert(all.take(0) =~= Seq::<ChunkData>::empty());
        assert(out.deep_view() =~= all.take(0).filter(pred));
    }
    while i < chunks.len() && out.len() < limit
        invariant
            i <= chunks@.len(),
            all == chunks.deep_view(),
            pred == test.pred(),
            out@.len() <= limit,
            out.deep_view() == all.take(i as int).filter(pred),
        decreases chunks@.len() - i,
    {
        let ghost before = out.deep_view();
        proof {
            lemma_filter_take(all, i as int, pred);
            assert(all[i as int] == chunks@[i as int]@);
        }
        if test.passes(&chunks[i]) {
            let c = copy_chunk(&chunks[i]);
            out.push(c);
            proof {
                assert(out.deep_view() =~= before.push(all[i as int]));
            }
        }
        i = i + 1;
    }
    proof {
        let whole = all.filter(pred);
        lemma_filter_order(all, pred);
        lemma_filter_prefix(all, i as int, pred);
        if i == chunks@.len() {
            assert(all.take(i as int) =~= all);
        } else {
            assert(out@.len() == limit);
            assert(out.deep_view().len() == limit);
            assert(whole.take(limit as int) =~= out.deep_view());
        }
    }
    out
}

impl ChunkStore {
    /// The store is in a state that its operations can reach.
    pub open spec fn wf(&self) -> bool {
        self@.wf()
    }

    /// A store without chunks and documents.
    pub fn new() -> (store: ChunkStore)
        ensures
            store@ == StoreState::empty(),
            store.wf(),
    {
        let store = ChunkStore {
            chunks: Vec::new(),
            documents: Vec::new(),
            next_chunk_id: 1,
            next_document_id: 1,
        };
        proof {
            assert(store.chunks.deep_view() =~= Seq::<ChunkData>::empty());
            assert(store.documents.deep_view() =~= Seq::<DocumentData>::empty());
        }
        store
    }
}

/// Drops the chunks of `document_id`; the chunks of other documents stay
/// as they are.
pub fn delete_chunks_for_document(store: &mut ChunkStore, document_id: i64)
    requires
        old(store).wf(),
    ensures
        final(store).wf(),
        final(store)@ == after_delete(old(store)@, document_id),
{
    proof {
        lemma_filter_wf(
            store.chunks.deep_view(),
            store.next_chunk_id,
            not_in_document(document_id),
        );
    }
    let kept = select(&store.chunks, &Selector::NotInDocument(document_id), usize::MAX);
    store.chunks = kept;
}

/// The chunks of `project_id` that are not vectorized yet, in the order of
/// their documents and positions: all of them where `limit` is negative,
/// else the first `limit`.
pub fn get_unvectorized_chunks(store: &ChunkStore, project_id: i64, limit: i64) -> (r: Vec<
    DocumentChunk,
>)
    ensures
        r.deep_view() == if limit < 0 || pending_of_project(store@.chunks, project_id).len()
            <= limit {
            pending_of_project(store@.chunks, project_id)
        } else {
            pending_of_project(store@.chunks, project_id).take(limit as int)
        },
{
    let cap: usize = if limit < 0 {
        usize::MAX
    } else if limit as u64 > usize::MAX as u64 {
        usize::MAX
    } else {
        limit as usize
    };
    select(&store.chunks, &Selector::PendingInProject(project_id), cap)
}

/// The chunks of `document_id` that are not vectorized yet, in the order
/// of their positions.
pub fn list_unvectorized(store: &ChunkStore, document_id: i64) -> (r: Vec<DocumentChunk>)
    ensures
        r.deep_view() == pending_of_document(store@.chunks, document_id),
{
    select(&store.chunks, &Selector::PendingInDocument(document_id), usize::MAX)
}

/// The chunks of `document_id`, in the order of their positions.
pub fn get_document_chunks(store: &ChunkStore, document_id: i64) -> (r: Vec<DocumentChunk>)
    ensures
        r.deep_view() == of_document(store@.chunks, document_id),
{
    select(&store.chunks, &Selector::InDocument(document_id), usize::MAX)
}

/// How far the vectorization of `document_id` has come.
pub fn document_stage(store: &ChunkStore, document_id: i64) -> (r: DocumentStage)
    ensures
        r == stage_of(store@.chunks, document_id),
{
    let pending = select(&store.chunks, &Selector::PendingInDocument(document_id), 1);
    proof {
        assert(pending.deep_view().len() == pending@.len());
    }
    if pending.len() > 0 {
        return DocumentStage::Pending;
    }
    let any = select(&store.chunks, &Selector::InDocument(document_id), 1);
    proof {
        assert(any.deep_view().len() == any@.len());
    }
    if any.len() > 0 {
        DocumentStage::Vectorized
    } else {
        DocumentStage::Unchunked
    }
}

/// The chunks whose ids are among `chunk_ids`, in the order of their
/// documents and positions. An id that no chunk has is passed over.
pub fn get_chunks_by_ids(store: &ChunkStore, chunk_ids: &[i64]) -> (r: Vec<DocumentChunk>)
    ensures
        r.deep_view() == with_ids(store@.chunks, chunk_ids@),
{
    select(&store.chunks, &Selector::IdAmong(chunk_ids), usize::MAX)
}

/// The vectorized chunks of `project_id` whose ids are among `chunk_ids`,
/// in the order of their documents and positions.
pub fn get_searchable_chunks(store: &ChunkStore, project_id: i64, chunk_ids: &[i64]) -> (r: Vec<
    DocumentChunk,
>)
    ensures
        r.deep_view() == retrieved(store@.chunks, project_id, chunk_ids@),
{
    select(&store.chunks, &Selector::Searchable(project_id, chunk_ids), usize::MAX)
}

/// The project that the document `document_id` belongs to, if the store
/// knows the document.
pub fn get_document_project(store: &ChunkStore, document_id: i64) -> (r: Option<i64>)
    requires
        store.wf(),
    ensures
        r == match document_of(store@.documents, document_id) {
            Some(d) => Some(d.project_id),
            None => None,
        },
{
    let ghost documents = store.documents.deep_view();
    match find_document(&store.documents, document_id) {
        Some(at) => {
            proof {
                assert(documents[at as int] == store.documents@[at as int]@);
                let picked = choose|j: int|
                    0 <= j < documents.len() && (#[trigger] documents[j]).id == document_id;
                if picked < at {
                    assert(documents[picked].id < documents[at as int].id);
                } else if at < picked {
                    assert(documents[at as int].id < documents[picked].id);
                }
            }
            Some(store.documents[at].project_id)
        },
        None => {
            proof {
                assert forall|j: int| 0 <= j < documents.len() implies (#[trigger] documents[j]).id
                    != document_id by {
                    assert(documents[j] == store.documents@[j]@);
                }
            }
            None
        },
    }
}

/// The ids of the vectorized chunks of `project_id`.
pub fn get_chunk_ids_for_project(store: &ChunkStore, project_id: i64) -> (r: Vec<i64>)
    ensures
        r@ == ids_of(vectorized_of_project(store@.chunks, project_id)),
{
    let found = select(&store.chunks, &Selector::VectorizedInProject(project_id), usize::MAX);
    let mut ids: Vec<i64> = Vec::new();
    let mut i: usize = 0;
    while i < found.len()
        invariant
            i <= found@.len(),
            ids@.len() == i,
            forall|j: int| 0 <= j < i ==> ids@[j] == found@[j].id,
        decreases found@.len() - i,
    {
        ids.push(found[i].id);
        i = i + 1;
    }
    proof {
        assert(ids@ =~= ids_of(found.deep_view()));
    }
    ids
}

/// The number of chunks of `project_id`, vectorized or not.
pub fn get_chunk_count_for_project(store: &ChunkStore, project_id: i64) -> (r: usize)
    ensures
        r == of_project(store@.chunks, project_id).len(),
{
    let mut count: usize = 0;
    let mut i: usize = 0;
    let ghost all = store.chunks.deep_view();
    proof {
        reveal(Seq::filter);
        assert(all.take(0) =~= Seq::<ChunkData>::empty());
    }
    while i < store.chunks.len()
        invariant
            i <= store.chunks@.len(),
            all == store.chunks.deep_view(),
            count <= i,
            count == all.take(i as int).filter(in_project(project_id)).len(),
        decreases store.chunks@.len() - i,
    {
        proof {
            lemma_filter_take(all, i as int, in_project(project_id));
            assert(all[i as int] == store.chunks@[i as int]@);
        }
        if store.chunks[i].project_id == project_id {
            count = count + 1;
        }
        i = i + 1;
    }
    proof {
        assert(all.take(i as int) =~= all);
    }
    count
}

/// The text of the chunk with the id `chunk_id`, if there is such a chunk.
pub fn get_chunk_full_text(store: &ChunkStore, chunk_id: i64) -> (r: Option<String>)
    ensures
        match r {
            Some(text) => exists|i: int|
                0 <= i < store@.chunks.len() && (#[trigger] store@.chunks[i]).id == chunk_id
                    && store@.chunks[i].chunk_text == text@,
            None => forall|i: int|
                0 <= i < store@.chunks.len() ==> (#[trigger] store@.chunks[i]).id != chunk_id,
        },
{
    let mut i: usize = 0;
    while i < store.chunks.len()
        invariant
            i <= store.chunks@.len(),
            forall|j: int| 0 <= j < i ==> (#[trigger] store.chunks.deep_view()[j]).id != chunk_id,
        decreases store.chunks@.len() - i,
    {
        if store.chunks[i].id == chunk_id {
            let text = store.chunks[i].chunk_text.clone();
            proof {
                assert(store@.chunks[i as int] == store.chunks@[i as int]@);
            }
            return Some(text);
        }
        proof {
            assert(store.chunks.deep_view()[i as int] == store.chunks@[i as int]@);
        }
        i = i + 1;
    }
    None
}

/// Fresh chunks for `texts`: ids from `first_id` on, positions from 0 on,
/// none vectorized.
fn make_chunks(first_id: i64, document_id: i64, project_id: i64, texts: &Vec<String>) -> (r: (
    Vec<DocumentChunk>,
    Vec<i64>,
))
    requires
        can_store(first_id, texts@.len()),
        first_id >= 0,
    ensures
        r.0.deep_view() == fresh_chunks(first_id, document_id, project_id, texts.deep_view()),
        r.1@ == id_run(first_id, texts@.len()),
{
    let mut block: Vec<DocumentChunk> = Vec::new();
    let mut ids: Vec<i64> = Vec::new();
    let mut k: usize = 0;
    while k < texts.len()
        invariant
            k <= texts@.len(),
            can_store(first_id, texts@.len()),
            first_id >= 0,
            block@.len() == k,
            ids@.len() == k,
            forall|j: int|
                0 <= j < k ==> (#[trigger] block@[j])@ == fresh_chunks(
                    first_id,
                    document_id,
                    project_id,
                    texts.deep_view(),
                )[j],
            forall|j: int| 0 <= j < k ==> #[trigger] ids@[j] == first_id + j,
        decreases texts@.len() - k,
    {
        let id: i64 = first_id + k as i64;
        let chunk = DocumentChunk {
            id,
            document_id,
            project_id,
            chunk_index: k as i32,
            chunk_text: texts[k].clone(),
            is_vectorized: false,
        };
        proof {
            assert(texts.deep_view()[k as int] == texts@[k as int]@);
        }
        block.push(chunk);
        ids.push(id);
        k = k + 1;
    }
    proof {
        assert(block.deep_view() =~= fresh_chunks(
            first_id,
            document_id,
            project_id,
            texts.deep_view(),
        ));
        assert(ids@ =~= id_run(first_id, texts@.len()));
    }
    (block, ids)
}

/// Replaces the chunks of `document_id` by fresh ones for `plain_text`, as
/// the chunker splits it, and returns their ids in order. Where the fresh
/// chunks cannot be numbered the store stays as it was.
pub fn save_chunks_for_document(
    store: &mut ChunkStore,
    document_id: i64,
    project_id: i64,
    plain_text: &str,
) -> (r: Result<Vec<i64>, StoreError>)
    requires
        old(store).wf(),
    ensures
        final(store).wf(),
        match r {
            Ok(ids) => {
                &&& can_store(old(store)@.next_chunk_id, split(plain_text@).len())
                &&& final(store)@ == after_save(
                    old(store)@,
                    document_id,
                    project_id,
                    split(plain_text@),
                )
                &&& ids@ == id_run(old(store)@.next_chunk_id, split(plain_text@).len())
            },
            Err(e) => {
                &&& !can_store(old(store)@.next_chunk_id, split(plain_text@).len())
                &&& final(store)@ == old(store)@
                &&& e == if split(plain_text@).len() > i32::MAX {
                    StoreError::TooManyChunks
                } else {
                    StoreError::IdsExhausted
                }
            },
        },
{
    let texts = split_into_chunks(plain_text);
    let count: usize = texts.len();
    if count > i32::MAX as usize {
        return Err(StoreError::TooManyChunks);
    }
    if count as i64 > i64::MAX - store.next_chunk_id {
        return Err(StoreError::IdsExhausted);
    }
    let first_id: i64 = store.next_chunk_id;
    let (mut block, ids) = make_chunks(first_id, document_id, project_id, &texts);
    let mut all = select(&store.chunks, &Selector::BelowDocument(document_id), usize::MAX);
    let mut above = select(&store.chunks, &Selector::AboveDocument(document_id), usize::MAX);
    let ghost below_view = all.deep_view();
    let ghost block_view = block.deep_view();
    let ghost above_view = above.deep_view();
    proof {
        lemma_save_wf(
            store.chunks.deep_view(),
            first_id,
            document_id,
            project_id,
            texts.deep_view(),
        );
    }
    all.append(&mut block);
    all.append(&mut above);
    proof {
        assert(all.deep_view() =~= below_view + block_view + above_view);
    }
    store.chunks = all;
    store.next_chunk_id = first_id + count as i64;
    Ok(ids)
}

/// Marks the chunk with the id `chunk_id` as vectorized. Nothing changes
/// where no chunk has that id, or where the chunk was marked before.
pub fn mark_chunk_as_vectorized(store: &mut ChunkStore, chunk_id: i64)
    requires
        old(store).wf(),
    ensures
        final(store).wf(),
        final(store)@ == (StoreState { chunks: marked(old(store)@.chunks, chunk_id), ..old(store)@ }),
{
    let ghost before = store.chunks.deep_view();
    proof {
        lemma_marked_wf(before, store.next_chunk_id, chunk_id);
    }
    let mut i: usize = 0;
    while i < store.chunks.len()
        invariant
            i <= store.chunks@.len(),
            store.chunks@.len() == before.len(),
            store.documents == old(store).documents,
            store.next_chunk_id == old(store).next_chunk_id,
            store.next_document_id == old(store).next_document_id,
            forall|j: int| 0 <= j < i ==> (#[trigger] store.chunks@[j])@ == marked(before, chunk_id)[j],
            forall|j: int| i <= j < before.len() ==> (#[trigger] store.chunks@[j])@ == before[j],
        decreases store.chunks@.len() - i,
    {
        if store.chunks[i].id == chunk_id {
            let mut chunk = copy_chunk(&store.chunks[i]);
            chunk.is_vectorized = true;
            store.chunks.set(i, chunk);
        }
        i = i + 1;
    }
    proof {
        assert(store.chunks.deep_view() =~= marked(before, chunk_id));
    }
}

/// The name that a blank document gets.
pub open spec fn blank_name() -> Seq<char> {
    "New Document"@
}

/// Where in `documents` the one with the id `document_id` stands.
fn find_document(documents: &Vec<DocumentRecord>, document_id: i64) -> (r: Option<usize>)
    ensures
        match r {
            Some(i) => i < documents@.len() && documents@[i as int].id == document_id,
            None => forall|j: int|
                0 <= j < documents@.len() ==> (#[trigger] documents@[j]).id != document_id,
        },
{
    let mut i: usize = 0;
    while i < documents.len()
        invariant
            i <= documents@.len(),
            forall|j: int| 0 <= j < i ==> (#[trigger] documents@[j]).id != document_id,
        decreases documents@.len() - i,
    {
        if documents[i].id == document_id {
            return Some(i);
        }
        i = i + 1;
    }
    None
}

/// Adds a document named `name` to `project_id` and returns its id. Where
/// no id is left the store stays as it was.
pub fn add_document(store: &mut ChunkStore, project_id: i64, name: &str) -> (r: Result<
    i64,
    StoreError,
>)
    requires
        old(store).wf(),
    ensures
        final(store).wf(),
        match r {
            Ok(id) => {
                &&& old(store)@.next_document_id < i64::MAX
                &&& id == old(store)@.next_document_id
                &&& final(store)@ == after_add_document(old(store)@, project_id, name@)
            },
            Err(e) => {
                &&& old(store)@.next_document_id == i64::MAX
                &&& e == StoreError::IdsExhausted
                &&& final(store)@ == old(store)@
            },
        },
{
    if store.next_document_id == i64::MAX {
        return Err(StoreError::IdsExhausted);
    }
    let id: i64 = store.next_document_id;
    let ghost before = store.documents.deep_view();
    let record = DocumentRecord { id, project_id, document_name: name.to_owned() };
    store.documents.push(record);
    store.next_document_id = id + 1;
    proof {
        assert(store.documents.deep_view() =~= before.push(
            DocumentData { id, project_id, document_name: name@ },
        ));
    }
    Ok(id)
}

/// Adds a document with the name of a blank one to `project_id` and
/// returns its id.
pub fn add_blank_document(store: &mut ChunkStore, project_id: i64) -> (r: Result<i64, StoreError>)
    requires
        old(store).wf(),
    ensures
        final(store).wf(),
        match r {
            Ok(id) => {
                &&& old(store)@.next_document_id < i64::MAX
                &&& id == old(store)@.next_document_id
                &&& final(store)@ == after_add_document(old(store)@, project_id, blank_name())
            },
            Err(e) => {
                &&& old(store)@.next_document_id == i64::MAX
                &&& e == StoreError::IdsExhausted
                &&& final(store)@ == old(store)@
            },
        },
{
    add_document(store, project_id, "New Document")
}

/// Gives the document `activity_id` the name `name`. Nothing changes where
/// there is no such document.
pub fn update_activity_name(store: &mut ChunkStore, activity_id: i64, name: &str)
    requires
        old(store).wf(),
    ensures
        final(store).wf(),
        final(store)@ == (StoreState {
            documents: renamed(old(store)@.documents, activity_id, name@),
            ..old(store)@
        }),
{
    let ghost before = store.documents.deep_view();
    match find_document(&store.documents, activity_id) {
        Some(i) => {
            let record = DocumentRecord {
                id: activity_id,
                project_id: store.documents[i].project_id,
                document_name: name.to_owned(),
            };
            store.documents.set(i, record);
            proof {
                assert forall|j: int| 0 <= j < before.len() && j != i implies (
                #[trigger] before[j]).id != activity_id by {
                    if j < i {
                        assert(before[j].id < before[i as int].id);
                    } else {
                        assert(before[i as int].id < before[j].id);
                    }
                }
            }
        },
        None => {},
    }
    proof {
        assert(store.documents.deep_view() =~= renamed(before, activity_id, name@));
    }
}

/// A test on a document.
enum DocumentSelector {
    OtherThan(i64),
    OutsideProject(i64),
}

impl DocumentSelector {
    /// The documents that pass the test.
    spec fn pred(self) -> spec_fn(DocumentData) -> bool {
        match self {
            DocumentSelector::OtherThan(id) => other_document(id),
            DocumentSelector::OutsideProject(p) => outside_project(p),
        }
    }

    /// Whether `document` passes the test.
    fn passes(&self, document: &DocumentRecord) -> (r: bool)
        ensures
            r == (self.pred())(document@),
    {
        match self {
            DocumentSelector::OtherThan(id) => document.id != *id,
            DocumentSelector::OutsideProject(p) => document.project_id != *p,
        }
    }
}

/// Keeps those of the documents that pass `test`.
fn keep_documents(store: &mut ChunkStore, test: &DocumentSelector)
    requires
        old(store).wf(),
    ensures
        final(store).wf(),
        final(store)@ == (StoreState {
            documents: old(store)@.documents.filter(test.pred()),
            ..old(store)@
        }),
{
    let ghost before = store.documents.deep_view();
    let ghost pred = test.pred();
    let mut kept: Vec<DocumentRecord> = Vec::new();
    let mut i: usize = 0;
    proof {
        reveal(Seq::filter);
        assert(before.take(0) =~= Seq::<DocumentData>::empty());
        assert(kept.deep_view() =~= before.take(0).filter(pred));
    }
    while i < store.documents.len()
        invariant
            i <= store.documents@.len(),
            before == store.documents.deep_view(),
            pred == test.pred(),
            *store == *old(store),
            kept.deep_view() == before.take(i as int).filter(pred),
        decreases store.documents@.len() - i,
    {
        let ghost so_far = kept.deep_view();
        proof {
            lemma_filter_take(before, i as int, pred);
            assert(before[i as int] == store.documents@[i as int]@);
        }
        if test.passes(&store.documents[i]) {
            let record = DocumentRecord {
                id: store.documents[i].id,
                project_id: store.documents[i].project_id,
                document_name: store.documents[i].document_name.clone(),
            };
            kept.push(record);
            proof {
                assert(kept.deep_view() =~= so_far.push(before[i as int]));
            }
        }
        i = i + 1;
    }
    proof {
        assert(before.take(i as int) =~= before);
        lemma_filter_order(before, pred);
        let f = before.filter(pred);
        assert forall|a: int, b: int| 0 <= a < b < f.len() implies (#[trigger] f[a]).id < (
        #[trigger] f[b]).id by {
            let (x, y) = choose|x: int, y: int|
                0 <= x < y < before.len() && before[x] == f[a] && before[y] == f[b];
        }
        assert forall|a: int| 0 <= a < f.len() implies (#[trigger] f[a]).id
            < store.next_document_id by {
            assert(before.contains(f[a]));
            let x = choose|x: int| 0 <= x < before.len() && before[x] == f[a];
        }
    }
    store.documents = kept;
}

/// Takes the document `activity_id` out of the store. Its chunks stay
/// until they are deleted.
pub fn delete_project_document(store: &mut ChunkStore, activity_id: i64)
    requires
        old(store).wf(),
    ensures
        final(store).wf(),
        final(store)@ == (StoreState {
            documents: old(store)@.documents.filter(other_document(activity_id)),
            ..old(store)@
        }),
{
    keep_documents(store, &DocumentSelector::OtherThan(activity_id));
}

/// Takes the documents of `project_id` out of the store. Their chunks stay
/// until they are deleted.
pub fn delete_project_activities(store: &mut ChunkStore, project_id: i64)
    requires
        old(store).wf(),
    ensures
        final(store).wf(),
        final(store)@ == (StoreState {
            documents: old(store)@.documents.filter(outside_project(project_id)),
            ..old(store)@
        }),
{
    keep_documents(store, &DocumentSelector::OutsideProject(project_id));
}

/// Drops the project `project_id` from the store: its documents, and every
/// chunk that belongs to it. The index of the project is deleted apart
/// from this.
pub fn delete_project(store: &mut ChunkStore, project_id: i64)
    requires
        old(store).wf(),
    ensures
        final(store).wf(),
        final(store)@ == after_delete_project(old(store)@, project_id),
{
    proof {
        lemma_filter_wf(
            store.chunks.deep_view(),
            store.next_chunk_id,
            not_in_project(project_id),
        );
    }
    let kept = select(&store.chunks, &Selector::NotInProject(project_id), usize::MAX);
    store.chunks = kept;
    delete_project_activities(store, project_id);
}

/// Moves the document `document_id` to the project `target_project_id`.
/// Its chunks go with it and count as not vectorized from then on: the
/// index of the project they leave no longer answers for them, and the
/// index of the project they join has not seen them yet.
pub fn move_document_to_project(store: &mut ChunkStore, document_id: i64, target_project_id: i64)
    requires
        old(store).wf(),
    ensures
        final(store).wf(),
        final(store)@ == after_move(old(store)@, document_id, target_project_id),
{
    let ghost chunks_before = store.chunks.deep_view();
    let ghost documents_before = store.documents.deep_view();
    proof {
        lemma_moved_wf(chunks_before, store.next_chunk_id, document_id, target_project_id);
    }
    let mut i: usize = 0;
    while i < store.documents.len()
        invariant
            i <= store.documents@.len(),
            store.documents@.len() == documents_before.len(),
            store.chunks == old(store).chunks,
            store.next_chunk_id == old(store).next_chunk_id,
            store.next_document_id == old(store).next_document_id,
            forall|j: int|
                0 <= j < i ==> (#[trigger] store.documents@[j])@ == reassigned(
                    documents_before,
                    document_id,
                    target_project_id,
                )[j],
            forall|j: int|
                i <= j < documents_before.len() ==> (#[trigger] store.documents@[j])@
                    == documents_before[j],
        decreases store.documents@.len() - i,
    {
        if store.documents[i].id == document_id {
            let record = DocumentRecord {
                id: document_id,
                project_id: target_project_id,
                document_name: store.documents[i].document_name.clone(),
            };
            store.documents.set(i, record);
        }
        i = i + 1;
    }
    let mut k: usize = 0;
    while k < store.chunks.len()
        invariant
            k <= store.chunks@.len(),
            store.chunks@.len() == chunks_before.len(),
            store.documents.deep_view() =~= reassigned(
                documents_before,
                document_id,
                target_project_id,
            ),
            store.next_chunk_id == old(store).next_chunk_id,
            store.next_document_id == old(store).next_document_id,
            forall|j: int|
                0 <= j < k ==> (#[trigger] store.chunks@[j])@ == moved(
                    chunks_before,
                    document_id,
                    target_project_id,
                )[j],
            forall|j: int|
                k <= j < chunks_before.len() ==> (#[trigger] store.chunks@[j])@ == chunks_before[j],
        decreases store.chunks@.len() - k,
    {
        if store.chunks[k].document_id == document_id {
            let mut chunk = copy_chunk(&store.chunks[k]);
            chunk.project_id = target_project_id;
            chunk.is_vectorized = false;
            store.chunks.set(k, chunk);
        }
        k = k + 1;
    }
    proof {
        assert(store.chunks.deep_view() =~= moved(chunks_before, document_id, target_project_id));
    }
}

/// What a citation shows of `text`: its first `PREVIEW_LENGTH` characters,
/// the whole text where it has no more.
pub fn chunk_preview(text: &str) -> (r: String)
    ensures
        r@ == preview(text@),
{
    let length: usize = text.unicode_len();
    let end: usize = if length <= PREVIEW_LENGTH {
        length
    } else {
        PREVIEW_LENGTH
    };
    proof {
        if length <= PREVIEW_LENGTH {
            assert(text@.subrange(0, end as int) =~= text@);
        } else {
            assert(text@.subrange(0, end as int) =~= text@.take(PREVIEW_LENGTH as int));
        }
    }
    substring(text, 0, end)
}

/// The citations of the chunks whose ids are among `chunk_ids`, in the
/// order of their documents and positions. A chunk whose document the
/// store does not know gets none.
pub fn get_chunk_sources(store: &ChunkStore, chunk_ids: &[i64]) -> (r: Vec<ChunkSource>)
    requires
        store.wf(),
    ensures
        r.deep_view() == sources_of(with_ids(store@.chunks, chunk_ids@), store@.documents),
{
    let found = get_chunks_by_ids(store, chunk_ids);
    cite_chunks(store, &found)
}

/// The citations of `found`, in order. A chunk whose document the store
/// does not know gets none.
pub fn cite_chunks(store: &ChunkStore, found: &Vec<DocumentChunk>) -> (r: Vec<ChunkSource>)
    requires
        store.wf(),
    ensures
        r.deep_view() == sources_of(found.deep_view(), store@.documents),
{
    let ghost chunks = found.deep_view();
    let ghost documents = store.documents.deep_view();
    let mut sources: Vec<ChunkSource> = Vec::new();
    let mut i: usize = 0;
    proof {
        assert(chunks.take(0) =~= Seq::<ChunkData>::empty());
        assert(sources.deep_view() =~= sources_of(chunks.take(0), documents));
    }
    while i < found.len()
        invariant
            i <= found@.len(),
            chunks == found.deep_view(),
            documents == store.documents.deep_view(),
            store.wf(),
            sources.deep_view() == sources_of(chunks.take(i as int), documents),
        decreases found@.len() - i,
    {
        let ghost so_far = sources.deep_view();
        let chunk = &found[i];
        proof {
            assert(chunks.take(i + 1).drop_last() =~= chunks.take(i as int));
            assert(chunks.take(i + 1).last() == chunks[i as int]);
            assert(chunks[i as int] == found@[i as int]@);
        }
        match find_document(&store.documents, chunk.document_id) {
            Some(at) => {
                let source = ChunkSource {
                    chunk_id: chunk.id,
                    document_id: chunk.document_id,
                    document_name: store.documents[at].document_name.clone(),
                    chunk_index: chunk.chunk_index,
                    chunk_preview: chunk_preview(chunk.chunk_text.as_str()),
                };
                proof {
                    assert(documents[at as int] == store.documents@[at as int]@);
                    let picked = choose|j: int|
                        0 <= j < documents.len() && (#[trigger] documents[j]).id
                            == chunk.document_id;
                    if picked < at {
                        assert(documents[picked].id < documents[at as int].id);
                    } else if at < picked {
                        assert(documents[at as int].id < documents[picked].id);
                    }
                    assert(document_of(documents, chunk.document_id) == Some(documents[at as int]));
                }
                sources.push(source);
                proof {
                    assert(sources.deep_view() =~= so_far.push(
                        source_of(chunks[i as int], documents[at as int]),
                    ));
                }
            },
            None => {
                proof {
                    assert forall|j: int| 0 <= j < documents.len() implies (
                    #[trigger] documents[j]).id != chunk.document_id by {
                        assert(documents[j] == store.documents@[j]@);
                    }
                    assert(document_of(documents, chunk.document_id) is None);
                }
            },
        }
        i = i + 1;
    }
    proof {
        assert(chunks.take(i as int) =~= chunks);
    }
    sources
}

/// Whether `rows` can be taken in as the chunks of one document.
fn block_is_valid(rows: &Vec<DocumentChunk>, next_chunk_id: i64) -> (r: bool)
    ensures
        r == block_fits(rows.deep_view(), next_chunk_id),
{
    let ghost block = rows.deep_view();
    let count: usize = rows.len();
    if count == 0 || count > i32::MAX as usize {
        return false;
    }
    proof {
        assert(block[0] == rows@[0]@);
        assert(block.last() == rows@[count - 1]@);
    }
    if rows[0].id < next_chunk_id || rows[count - 1].id == i64::MAX {
        return false;
    }
    let mut k: usize = 0;
    while k < count
        invariant
            k <= count == rows@.len(),
            count <= i32::MAX,
            block == rows.deep_view(),
            forall|j: int|
                0 <= j < k ==> (#[trigger] block[j]).document_id == block[0].document_id
                    && block[j].project_id == block[0].project_id && block[j].chunk_index == j,
            forall|j: int| 0 < j < k ==> block[j - 1].id < (#[trigger] block[j]).id,
        decreases count - k,
    {
        proof {
            assert(block[k as int] == rows@[k as int]@);
            if k > 0 {
                assert(block[k - 1] == rows@[k - 1]@);
            }
        }
        if rows[k].document_id != rows[0].document_id || rows[k].project_id != rows[0].project_id
            || rows[k].chunk_index != k as i32 {
            return false;
        }
        if k > 0 && rows[k - 1].id >= rows[k].id {
            return false;
        }
        k = k + 1;
    }
    true
}

/// Takes in `rows` as the chunks of the document they name, in place of
/// those that the store holds for it; this is how a store is filled again
/// with what was written down of it. The rows must be the chunks of one
/// document and one project at the positions `0, 1, 2, ...`, with rising
/// ids that the store has not reached yet; else the store stays as it was.
pub fn restore_chunks(store: &mut ChunkStore, rows: Vec<DocumentChunk>) -> (r: Result<
    (),
    StoreError,
>)
    requires
        old(store).wf(),
    ensures
        final(store).wf(),
        match r {
            Ok(_) => {
                &&& block_fits(rows.deep_view(), old(store)@.next_chunk_id)
                &&& final(store)@ == after_restore_chunks(old(store)@, rows.deep_view())
            },
            Err(e) => {
                &&& !block_fits(rows.deep_view(), old(store)@.next_chunk_id)
                &&& e == StoreError::Inconsistent
                &&& final(store)@ == old(store)@
            },
        },
{
    if !block_is_valid(&rows, store.next_chunk_id) {
        return Err(StoreError::Inconsistent);
    }
    let ghost block = rows.deep_view();
    let document_id: i64 = rows[0].document_id;
    let last_id: i64 = rows[rows.len() - 1].id;
    proof {
        assert(block[0] == rows@[0]@);
        assert(block.last() == rows@[rows@.len() - 1]@);
        lemma_block_wf(block, store.next_chunk_id);
        assert forall|k: int| 0 <= k < block.len() implies (#[trigger] block[k]).document_id
            == document_id && block[k].id >= store.next_chunk_id by {
            if k > 0 {
                assert(block[0].id < block[k].id);
            }
        }
        lemma_with_block_wf(
            store.chunks.deep_view(),
            store.next_chunk_id,
            document_id,
            block,
            (last_id + 1) as i64,
        );
    }
    let mut all = select(&store.chunks, &Selector::BelowDocument(document_id), usize::MAX);
    let mut above = select(&store.chunks, &Selector::AboveDocument(document_id), usize::MAX);
    let mut rows = rows;
    let ghost below_view = all.deep_view();
    let ghost above_view = above.deep_view();
    all.append(&mut rows);
    all.append(&mut above);
    proof {
        assert(all.deep_view() =~= below_view + block + above_view);
    }
    store.chunks = all;
    store.next_chunk_id = last_id + 1;
    Ok(())
}

/// Takes in `record` as a document, under the id it has. The id must be
/// one that the store has not reached yet, and leave room for a next one;
/// else the store stays as it was.
pub fn restore_document(store: &mut ChunkStore, record: DocumentRecord) -> (r: Result<
    (),
    StoreError,
>)
    requires
        old(store).wf(),
    ensures
        final(store).wf(),
        match r {
            Ok(_) => {
                &&& old(store)@.next_document_id <= record.id < i64::MAX
                &&& final(store)@ == after_restore_document(old(store)@, record@)
            },
            Err(e) => {
                &&& !(old(store)@.next_document_id <= record.id < i64::MAX)
                &&& e == StoreError::Inconsistent
                &&& final(store)@ == old(store)@
            },
        },
{
    if record.id < store.next_document_id || record.id == i64::MAX {
        return Err(StoreError::Inconsistent);
    }
    let ghost before = store.documents.deep_view();
    let id: i64 = record.id;
    store.documents.push(record);
    store.next_document_id = id + 1;
    proof {
        assert(store.documents.deep_view() =~= before.push(record@));
    }
    Ok(())
}

} // verus!
