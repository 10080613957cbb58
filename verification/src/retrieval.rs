use crate::chunk_store::{
    cite_chunks, get_document_project, get_searchable_chunks, list_unvectorized,
    mark_chunk_as_vectorized, ChunkSource, ChunkStore, DocumentChunk,
};
use crate::decimal::{decimal, digits, push_decimal, push_digits};
use crate::seq_util::{lemma_filter_members, lemma_filter_none_or_all, lemma_filter_order};
use crate::settings::Settings;
use crate::store_model::{
    after_move, document_of, ids_of, marked, moved, pending_in_document, pending_of_document,
    retrieved, searchable, sources_of, vectorized_in_project, vectorized_of_project, ChunkData,
    StoreState,
};
use vstd::prelude::*;
use vstd::string::StringExecFns;

verus! {

/// The first `k` elements of `found`, all of them where there are fewer.
pub open spec fn first_k<T>(found: Seq<T>, k: nat) -> Seq<T> {
    if found.len() <= k {
        found
    } else {
        found.take(k as int)
    }
}

/// The distances of `found` do not decrease.
pub open spec fn ascending(found: Seq<(i64, u32)>) -> bool {
    forall|i: int, j: int| 0 <= i <= j < found.len() ==> found[i].1 <= found[j].1
}

/// The chunk ids of `found`, in order.
pub open spec fn result_ids(found: Seq<(i64, u32)>) -> Seq<i64> {
    Seq::new(found.len(), |i: int| found[i].0)
}

/// `sorted` with `item` put in before the items at its end that are
/// farther than it.
pub open spec fn insert_by_distance(sorted: Seq<(i64, u32)>, item: (i64, u32)) -> Seq<(i64, u32)>
    decreases sorted.len(),
{
    if sorted.len() == 0 {
        seq![item]
    } else if sorted.last().1 <= item.1 {
        sorted.push(item)
    } else {
        insert_by_distance(sorted.drop_last(), item).push(sorted.last())
    }
}

/// `found` in the order of the distances, nearest first; items that are
/// equally far keep the order they came in.
pub open spec fn by_distance(found: Seq<(i64, u32)>) -> Seq<(i64, u32)>
    decreases found.len(),
{
    if found.len() == 0 {
        Seq::empty()
    } else {
        insert_by_distance(by_distance(found.drop_last()), found.last())
    }
}

/// Putting an item in is putting it at the place `at` behind which all
/// items are farther than it and before which the next one is not.
pub proof fn lemma_insert_at(sorted: Seq<(i64, u32)>, item: (i64, u32), at: int)
    requires
        0 <= at <= sorted.len(),
        forall|j: int| at <= j < sorted.len() ==> sorted[j].1 > item.1,
        at > 0 ==> sorted[at - 1].1 <= item.1,
    ensures
        insert_by_distance(sorted, item) == sorted.insert(at, item),
    decreases sorted.len() - at,
{
    if sorted.len() == 0 {
        assert(sorted.insert(at, item) =~= seq![item]);
    } else if at == sorted.len() {
        assert(sorted.insert(at, item) =~= sorted.push(item));
    } else {
        let init = sorted.drop_last();
        assert(sorted.last() == sorted[sorted.len() - 1]);
        assert forall|j: int| at <= j < init.len() implies init[j].1 > item.1 by {
            assert(init[j] == sorted[j]);
        }
        if at > 0 {
            assert(init[at - 1] == sorted[at - 1]);
        }
        lemma_insert_at(init, item, at);
        assert(init.insert(at, item).push(sorted.last()) =~= sorted.insert(at, item));
    }
}

/// Putting an item into a sequence in ascending order leaves it in
/// ascending order, with the same items and the new one.
pub proof fn lemma_insert_keeps_order(sorted: Seq<(i64, u32)>, item: (i64, u32))
    requires
        ascending(sorted),
    ensures
        ascending(insert_by_distance(sorted, item)),
        insert_by_distance(sorted, item).len() == sorted.len() + 1,
        insert_by_distance(sorted, item).to_multiset() == sorted.to_multiset().insert(item),
    decreases sorted.len(),
{
    broadcast use vstd::seq_lib::group_to_multiset_ensures;

    let out = insert_by_distance(sorted, item);
    if sorted.len() == 0 {
        assert(sorted =~= Seq::empty());
        assert(out =~= Seq::<(i64, u32)>::empty().push(item));
    } else if sorted.last().1 <= item.1 {
        assert forall|i: int, j: int| 0 <= i <= j < out.len() implies out[i].1 <= out[j].1 by {
            if j == sorted.len() {
                if i < sorted.len() {
                    assert(sorted[i].1 <= sorted[sorted.len() - 1].1);
                }
            }
        }
    } else {
        let init = sorted.drop_last();
        let last = sorted.last();
        assert forall|i: int, j: int| 0 <= i <= j < init.len() implies init[i].1 <= init[j].1 by {
            assert(init[i] == sorted[i] && init[j] == sorted[j]);
        }
        lemma_insert_keeps_order(init, item);
        let mid = insert_by_distance(init, item);
        assert(out == mid.push(last));
        assert forall|i: int| 0 <= i < mid.len() implies mid[i].1 <= last.1 by {
            assert(mid.to_multiset().count(mid[i]) > 0);
            if mid[i] != item {
                assert(init.to_multiset().count(mid[i]) > 0);
                assert(init.contains(mid[i]));
                let k = choose|k: int| 0 <= k < init.len() && init[k] == mid[i];
                assert(sorted[k].1 <= sorted[sorted.len() - 1].1);
            }
        }
        assert forall|i: int, j: int| 0 <= i <= j < out.len() implies out[i].1 <= out[j].1 by {
            if j < mid.len() {
                assert(out[i] == mid[i] && out[j] == mid[j]);
            } else if i < mid.len() {
                assert(out[i] == mid[i]);
            }
        }
        assert(init.push(last) =~= sorted);
        assert(out.to_multiset() =~= sorted.to_multiset().insert(item));
    }
}

/// What comes out is in ascending order of the distances and holds the
/// items that went in, each as often as it went in.
pub proof fn lemma_by_distance(found: Seq<(i64, u32)>)
    ensures
        ascending(by_distance(found)),
        by_distance(found).len() == found.len(),
        by_distance(found).to_multiset() == found.to_multiset(),
    decreases found.len(),
{
    broadcast use vstd::seq_lib::group_to_multiset_ensures;

    if found.len() > 0 {
        let init = found.drop_last();
        lemma_by_distance(init);
        lemma_insert_keeps_order(by_distance(init), found.last());
        assert(init.push(found.last()) =~= found);
    } else {
        assert(found =~= Seq::empty());
    }
}

/// What an index has put in ascending order stays as it is.
pub proof fn lemma_by_distance_keeps_ascending(found: Seq<(i64, u32)>)
    requires
        ascending(found),
    ensures
        by_distance(found) == found,
    decreases found.len(),
{
    if found.len() > 0 {
        let init = found.drop_last();
        assert forall|i: int, j: int| 0 <= i <= j < init.len() implies init[i].1 <= init[j].1 by {
            assert(init[i] == found[i] && init[j] == found[j]);
        }
        lemma_by_distance_keeps_ascending(init);
        if init.len() > 0 {
            assert(init.last() == found[found.len() - 2]);
            assert(found[found.len() - 2].1 <= found[found.len() - 1].1);
        }
        assert(init.push(found.last()) =~= found);
    } else {
        assert(found =~= Seq::empty());
    }
}

/// `found` in ascending order of the distances.
pub fn sort_by_distance(found: Vec<(i64, u32)>) -> (r: Vec<(i64, u32)>)
    ensures
        r@ == by_distance(found@),
{
    let mut sorted: Vec<(i64, u32)> = Vec::new();
    let mut i: usize = 0;
    proof {
        assert(found@.take(0) =~= Seq::<(i64, u32)>::empty());
    }
    while i < found.len()
        invariant
            i <= found@.len(),
            sorted@ == by_distance(found@.take(i as int)),
        decreases found@.len() - i,
    {
        let item: (i64, u32) = found[i];
        let mut at: usize = sorted.len();
        while at > 0 && sorted[at - 1].1 > item.1
            invariant
                at <= sorted@.len(),
                forall|j: int| at <= j < sorted@.len() ==> sorted@[j].1 > item.1,
            decreases at,
        {
            at = at - 1;
        }
        proof {
            lemma_insert_at(sorted@, item, at as int);
            assert(found@.take(i + 1).drop_last() =~= found@.take(i as int));
            assert(found@.take(i + 1).last() == item);
        }
        sorted.insert(at, item);
        i = i + 1;
    }
    proof {
        assert(found@.take(i as int) =~= found@);
    }
    sorted
}

/// What the index of a project answered, as a result: the `top_k` nearest
/// items in ascending order of their distances, all of them where the
/// index holds fewer. An answer that comes in ascending order is cut to
/// its first `top_k` items and otherwise kept as it is.
pub fn search_project_vectors(found: Vec<(i64, u32)>, top_k: usize) -> (r: Vec<(i64, u32)>)
    requires
        top_k >= 1,
    ensures
        r@ == first_k(by_distance(found@), top_k as nat),
        ascending(r@),
        r@.len() == if found@.len() <= top_k {
            found@.len()
        } else {
            top_k as nat
        },
        ascending(found@) ==> r@ == first_k(found@, top_k as nat),
{
    proof {
        lemma_by_distance(found@);
        if ascending(found@) {
            lemma_by_distance_keeps_ascending(found@);
        }
    }
    let mut results = sort_by_distance(found);
    if results.len() > top_k {
        results.truncate(top_k);
    }
    results
}

/// The chunk ids of `found`, in order.
pub fn ids_of_results(found: &Vec<(i64, u32)>) -> (ids: Vec<i64>)
    ensures
        ids@ == result_ids(found@),
{
    let mut ids: Vec<i64> = Vec::new();
    let mut i: usize = 0;
    while i < found.len()
        invariant
            i <= found@.len(),
            ids@.len() == i,
            forall|j: int| 0 <= j < i ==> ids@[j] == found@[j].0,
        decreases found@.len() - i,
    {
        ids.push(found[i].0);
        i = i + 1;
    }
    proof {
        assert(ids@ =~= result_ids(found@));
    }
    ids
}

/// For an index that holds fewer than `k` items the result has all of
/// them, as many as the index holds, in ascending order of the distances.
pub proof fn lemma_fewer_than_k(found: Seq<(i64, u32)>, k: nat)
    requires
        found.len() < k,
    ensures
        first_k(by_distance(found), k).len() == found.len(),
        first_k(by_distance(found), k).to_multiset() == found.to_multiset(),
        ascending(first_k(by_distance(found), k)),
{
    lemma_by_distance(found);
}

/// A result never has more than `k` items, has `k` where the index
/// answered with at least as many, and keeps the order of the answer.
pub proof fn lemma_first_k(found: Seq<(i64, u32)>, k: nat)
    ensures
        first_k(found, k).len() == if found.len() <= k {
            found.len()
        } else {
            k
        },
        forall|i: int| 0 <= i < first_k(found, k).len() ==> first_k(found, k)[i] == found[i],
        ascending(found) ==> ascending(first_k(found, k)),
{
}

/// The lines that introduce the chunk at `position`, counted from 1, its
/// text, and an empty line.
pub open spec fn context_entry(position: int, chunk: ChunkData) -> Seq<char> {
    "Chunk "@ + decimal(position) + " (from document "@ + decimal(chunk.document_id as int)
        + "):\n"@ + chunk.chunk_text + "\n\n"@
}

/// The context that is handed to a prompt: the entries of `chunks`, in
/// order.
pub open spec fn context_of(chunks: Seq<ChunkData>) -> Seq<char>
    decreases chunks.len(),
{
    if chunks.len() == 0 {
        Seq::empty()
    } else {
        context_of(chunks.drop_last()) + context_entry(chunks.len() as int, chunks.last())
    }
}

/// The context that is handed to a prompt.
pub fn build_context(chunks: &Vec<DocumentChunk>) -> (r: String)
    ensures
        r@ == context_of(chunks.deep_view()),
{
    let ghost all = chunks.deep_view();
    let mut context = String::new();
    let mut i: usize = 0;
    proof {
        assert(all.take(0) =~= Seq::<ChunkData>::empty());
    }
    while i < chunks.len()
        invariant
            i <= chunks@.len(),
            all == chunks.deep_view(),
            context@ == context_of(all.take(i as int)),
        decreases chunks@.len() - i,
    {
        let ghost before = context@;
        let chunk = &chunks[i];
        proof {
            assert(all.take(i + 1).drop_last() =~= all.take(i as int));
            assert(all.take(i + 1).last() == all[i as int]);
            assert(all[i as int] == chunks@[i as int]@);
        }
        context.append("Chunk ");
        push_digits(&mut context, (i + 1) as u64);
        context.append(" (from document ");
        push_decimal(&mut context, chunk.document_id);
        context.append("):\n");
        context.append(chunk.chunk_text.as_str());
        context.append("\n\n");
        proof {
            assert(decimal(i + 1) == digits((i + 1) as nat));
            assert(context@ =~= before + context_entry(i + 1, all[i as int]));
        }
        i = i + 1;
    }
    proof {
        assert(all.take(i as int) =~= all);
    }
    context
}

/// What a search hands to the caller: the chunks in the order of their
/// documents and positions, their citations, and the context made of them.
pub struct RetrievedContext {
    pub chunks: Vec<DocumentChunk>,
    pub sources: Vec<ChunkSource>,
    pub context: String,
}

impl RetrievedContext {
    /// Nothing was retrieved.
    pub open spec fn is_empty(&self) -> bool {
        self.chunks@.len() == 0 && self.sources@.len() == 0 && self.context@.len() == 0
    }

    /// The result of a search that found nothing.
    pub fn empty() -> (r: RetrievedContext)
        ensures
            r.is_empty(),
    {
        RetrievedContext { chunks: Vec::new(), sources: Vec::new(), context: String::new() }
    }
}

/// Makes the result of a search in `project_id` from what the project's
/// index answered: of the `top_k` nearest, the chunks that are vectorized
/// chunks of this project, with their citations and the context. Nothing
/// is retrieved where the settings do not allow retrieval.
pub fn search(
    store: &ChunkStore,
    settings: &Settings,
    project_id: i64,
    found: Vec<(i64, u32)>,
    top_k: usize,
) -> (r: RetrievedContext)
    requires
        store.wf(),
        top_k >= 1,
    ensures
        !settings.allows_retrieval() ==> r.is_empty(),
        settings.allows_retrieval() ==> {
            let ids = result_ids(first_k(by_distance(found@), top_k as nat));
            let chunks = retrieved(store@.chunks, project_id, ids);
            &&& r.chunks.deep_view() == chunks
            &&& r.sources.deep_view() == sources_of(chunks, store@.documents)
            &&& r.context@ == context_of(chunks)
        },
{
    if !settings.retrieval_enabled() {
        return RetrievedContext::empty();
    }
    let nearest = search_project_vectors(found, top_k);
    let ids = ids_of_results(&nearest);
    let chunks = get_searchable_chunks(store, project_id, ids.as_slice());
    let sources = cite_chunks(store, &chunks);
    let context = build_context(&chunks);
    RetrievedContext { chunks, sources, context }
}

/// A project without vectorized chunks has nothing to retrieve, whatever
/// its index answers.
pub proof fn lemma_nothing_vectorized(chunks: Seq<ChunkData>, project_id: i64, ids: Seq<i64>)
    requires
        vectorized_of_project(chunks, project_id).len() == 0,
    ensures
        retrieved(chunks, project_id, ids) == Seq::<ChunkData>::empty(),
        context_of(retrieved(chunks, project_id, ids)) == Seq::<char>::empty(),
{
    lemma_filter_members(chunks, vectorized_in_project(project_id));
    assert forall|i: int| 0 <= i < chunks.len() implies !searchable(project_id, ids)(
        #[trigger] chunks[i],
    ) by {
        if vectorized_in_project(project_id)(chunks[i]) {
            assert(chunks.contains(chunks[i]));
            assert(vectorized_of_project(chunks, project_id).contains(chunks[i]));
        }
    }
    lemma_filter_none_or_all(chunks, searchable(project_id, ids));
}

/// An index that answers with nothing gives an empty result.
pub proof fn lemma_nothing_found(chunks: Seq<ChunkData>, project_id: i64, k: nat)
    ensures
        retrieved(chunks, project_id, result_ids(first_k(Seq::<(i64, u32)>::empty(), k)))
            == Seq::<ChunkData>::empty(),
{
    let ids = result_ids(first_k(Seq::<(i64, u32)>::empty(), k));
    assert(ids.len() == 0);
    assert forall|i: int| 0 <= i < chunks.len() implies !searchable(project_id, ids)(
        #[trigger] chunks[i],
    ) by {}
    lemma_filter_none_or_all(chunks, searchable(project_id, ids));
}

/// After a document moved to another project, no search in any project
/// retrieves one of its chunks, whatever the indexes still answer, until
/// the chunks are vectorized again.
pub proof fn lemma_moved_out_of_scope(
    s: StoreState,
    document_id: i64,
    target_project_id: i64,
    any_project: i64,
    ids: Seq<i64>,
)
    ensures
        forall|k: int|
            0 <= k < retrieved(
                after_move(s, document_id, target_project_id).chunks,
                any_project,
                ids,
            ).len() ==> (#[trigger] retrieved(
                after_move(s, document_id, target_project_id).chunks,
                any_project,
                ids,
            )[k]).document_id != document_id,
{
    let after = after_move(s, document_id, target_project_id).chunks;
    let r = retrieved(after, any_project, ids);
    lemma_filter_order(after, searchable(any_project, ids));
    assert forall|k: int| 0 <= k < r.len() implies (#[trigger] r[k]).document_id != document_id by {
        assert(after.contains(r[k]));
        let i = choose|i: int| 0 <= i < after.len() && after[i] == r[k];
        assert(after[i] == moved(s.chunks, document_id, target_project_id)[i]);
    }
}

/// What the one who vectorizes a document is to do next.
#[derive(Debug, Clone)]
pub enum VectorizeAction {
    /// Embed the text and add it to the index of the project under the
    /// chunk's id, then report how that went.
    Embed { project_id: i64, chunk_id: i64, text: String },
    /// Write the index of the project to disk, then report that.
    Sync { project_id: i64 },
    /// Nothing is left to do.
    Done,
}

/// The vectorization of the pending chunks of one document, chunk by
/// chunk.
pub struct VectorizeRun {
    project_id: i64,
    pending: Vec<DocumentChunk>,
    cursor: usize,
    failed: Vec<i64>,
    synced: bool,
}

/// How far a vectorization has come: the chunks it started with, how many
/// of them were tried, the ids of those that failed, and whether the index
/// was written since.
pub struct RunState {
    pub project_id: i64,
    pub pending: Seq<ChunkData>,
    pub cursor: nat,
    pub failed: Seq<i64>,
    pub synced: bool,
}

impl RunState {
    /// The run at its start.
    pub open spec fn start(project_id: i64, pending: Seq<ChunkData>) -> RunState {
        RunState { project_id, pending, cursor: 0, failed: Seq::empty(), synced: false }
    }

    /// A chunk is waiting to be embedded.
    pub open spec fn embedding(self) -> bool {
        self.cursor < self.pending.len()
    }

    /// All chunks were tried and the index is to be written.
    pub open spec fn syncing(self) -> bool {
        self.cursor >= self.pending.len() && !self.synced
    }

    /// Nothing is left to do.
    pub open spec fn done(self) -> bool {
        self.cursor >= self.pending.len() && self.synced
    }

    /// The run after the chunk that was waiting was tried.
    pub open spec fn after_embedding(self, added: bool) -> RunState {
        if self.embedding() {
            RunState {
                cursor: self.cursor + 1,
                failed: if added {
                    self.failed
                } else {
                    self.failed.push(self.pending[self.cursor as int].id)
                },
                ..self
            }
        } else {
            self
        }
    }

    /// The run after the index was written.
    pub open spec fn after_sync(self) -> RunState {
        if self.syncing() {
            RunState { synced: true, ..self }
        } else {
            self
        }
    }
}

impl View for VectorizeRun {
    type V = RunState;

    closed spec fn view(&self) -> RunState {
        RunState {
            project_id: self.project_id,
            pending: self.pending.deep_view(),
            cursor: self.cursor as nat,
            failed: self.failed@,
            synced: self.synced,
        }
    }
}

impl VectorizeRun {
    /// No more chunks were tried than there are, and no more failed than
    /// were tried.
    pub closed spec fn wf(&self) -> bool {
        self.failed@.len() <= self.cursor <= self.pending@.len()
    }

    /// The ids of the chunks that could not be embedded so far; they stay
    /// pending.
    pub fn failed(&self) -> (r: &Vec<i64>)
        ensures
            r@ == self@.failed,
    {
        &self.failed
    }

    /// How many chunks were embedded so far.
    pub fn vectorized_count(&self) -> (r: usize)
        requires
            self.wf(),
        ensures
            r == self@.cursor - self@.failed.len(),
    {
        self.cursor - self.failed.len()
    }
}

/// Begins to vectorize the pending chunks of `document_id`, in the project
/// that the document belongs to. Nothing begins for a document that the
/// store does not know.
pub fn vectorize_pending(store: &ChunkStore, document_id: i64) -> (r: Option<VectorizeRun>)
    requires
        store.wf(),
    ensures
        match r {
            Some(run) => {
                &&& run.wf()
                &&& document_of(store@.documents, document_id) is Some
                &&& run@ == RunState::start(
                    document_of(store@.documents, document_id)->0.project_id,
                    pending_of_document(store@.chunks, document_id),
                )
            },
            None => document_of(store@.documents, document_id) is None,
        },
{
    match get_document_project(store, document_id) {
        Some(project_id) => {
            let pending = list_unvectorized(store, document_id);
            Some(
                VectorizeRun {
                    project_id,
                    pending,
                    cursor: 0,
                    failed: Vec::new(),
                    synced: false,
                },
            )
        },
        None => None,
    }
}

/// What is to be done next in `run`: the chunks are embedded one by one in
/// their order, then the index is written once, then nothing is left.
pub fn next_action(run: &VectorizeRun) -> (r: VectorizeAction)
    requires
        run.wf(),
    ensures
        match r {
            VectorizeAction::Embed { project_id, chunk_id, text } => {
                &&& run@.embedding()
                &&& project_id == run@.project_id
                &&& chunk_id == run@.pending[run@.cursor as int].id
                &&& text@ == run@.pending[run@.cursor as int].chunk_text
            },
            VectorizeAction::Sync { project_id } => run@.syncing() && project_id
                == run@.project_id,
            VectorizeAction::Done => run@.done(),
        },
{
    if run.cursor < run.pending.len() {
        let chunk = &run.pending[run.cursor];
        proof {
            assert(run.pending.deep_view()[run.cursor as int] == run.pending@[run.cursor as int]@);
        }
        VectorizeAction::Embed {
            project_id: run.project_id,
            chunk_id: chunk.id,
            text: chunk.chunk_text.clone(),
        }
    } else if !run.synced {
        VectorizeAction::Sync { project_id: run.project_id }
    } else {
        VectorizeAction::Done
    }
}

/// Takes the report on the chunk that was waiting: where it was added to
/// the index it is marked as vectorized, else its id is noted down and it
/// stays pending; either way the run goes on to the next chunk. A report
/// that no chunk was waiting for changes nothing.
pub fn record_embedding(run: &mut VectorizeRun, store: &mut ChunkStore, added: bool)
    requires
        old(run).wf(),
        old(store).wf(),
    ensures
        final(run).wf(),
        final(store).wf(),
        final(run)@ == old(run)@.after_embedding(added),
        final(store)@ == if old(run)@.embedding() && added {
            StoreState {
                chunks: marked(old(store)@.chunks, old(run)@.pending[old(run)@.cursor as int].id),
                ..old(store)@
            }
        } else {
            old(store)@
        },
{
    if run.cursor < run.pending.len() {
        let chunk_id: i64 = run.pending[run.cursor].id;
        proof {
            assert(run.pending.deep_view()[run.cursor as int] == run.pending@[run.cursor as int]@);
        }
        if added {
            mark_chunk_as_vectorized(store, chunk_id);
        } else {
            run.failed.push(chunk_id);
        }
        run.cursor = run.cursor + 1;
    }
}

/// Takes the report that the index was written. It counts only once all
/// chunks were tried.
pub fn record_sync(run: &mut VectorizeRun)
    requires
        old(run).wf(),
    ensures
        final(run).wf(),
        final(run)@ == old(run)@.after_sync(),
{
    if run.cursor >= run.pending.len() {
        run.synced = true;
    }
}

/// A run is at one of three stages. It leaves the first when every chunk
/// was tried, the second with the one report that the index was written,
/// and the third never: the index is written once, after the last chunk.
pub proof fn lemma_run_stages(run: RunState, added: bool)
    ensures
        run.embedding() || run.syncing() || run.done(),
        !(run.embedding() && run.syncing()) && !(run.embedding() && run.done()) && !(run.syncing()
            && run.done()),
        run.embedding() ==> run.after_sync() == run && run.after_embedding(added).cursor
            == run.cursor + 1 && run.after_embedding(added).synced == run.synced,
        run.syncing() ==> run.after_sync().done() && run.after_embedding(added) == run,
        run.done() ==> run.after_sync() == run && run.after_embedding(added) == run,
{
}

/// `chunks` after each chunk whose id is among `ids` was marked as
/// vectorized, one after the other.
pub open spec fn marked_each(chunks: Seq<ChunkData>, ids: Seq<i64>) -> Seq<ChunkData>
    decreases ids.len(),
{
    if ids.len() == 0 {
        chunks
    } else {
        marked(marked_each(chunks, ids.drop_last()), ids.last())
    }
}

/// Marking one by one marks exactly the chunks whose ids are given.
pub proof fn lemma_marked_each(chunks: Seq<ChunkData>, ids: Seq<i64>)
    ensures
        marked_each(chunks, ids).len() == chunks.len(),
        forall|i: int|
            0 <= i < chunks.len() ==> #[trigger] marked_each(chunks, ids)[i] == if ids.contains(
                chunks[i].id,
            ) {
                ChunkData { is_vectorized: true, ..chunks[i] }
            } else {
                chunks[i]
            },
    decreases ids.len(),
{
    if ids.len() > 0 {
        let init = ids.drop_last();
        lemma_marked_each(chunks, init);
        let m = marked_each(chunks, init);
        assert forall|i: int| 0 <= i < chunks.len() implies #[trigger] marked_each(chunks, ids)[i]
            == if ids.contains(chunks[i].id) {
            ChunkData { is_vectorized: true, ..chunks[i] }
        } else {
            chunks[i]
        } by {
            assert(m[i].id == chunks[i].id);
            if ids.contains(chunks[i].id) {
                let k = choose|k: int| 0 <= k < ids.len() && ids[k] == chunks[i].id;
                if k < init.len() {
                    assert(init[k] == ids[k]);
                    assert(init.contains(chunks[i].id));
                } else {
                    assert(ids.last() == chunks[i].id);
                }
            } else {
                if init.contains(chunks[i].id) {
                    let k = choose|k: int| 0 <= k < init.len() && init[k] == chunks[i].id;
                    assert(ids[k] == chunks[i].id);
                }
                assert(ids.last() != chunks[i].id) by {
                    assert(ids[ids.len() - 1] == ids.last());
                }
            }
        }
    }
}

/// Once every pending chunk of a document was embedded and marked, the
/// document has no pending chunk left: a second vectorization finds
/// nothing to embed.
pub proof fn lemma_second_run_is_empty(chunks: Seq<ChunkData>, document_id: i64)
    ensures
        pending_of_document(
            marked_each(chunks, ids_of(pending_of_document(chunks, document_id))),
            document_id,
        ) == Seq::<ChunkData>::empty(),
{
    let pending = pending_of_document(chunks, document_id);
    let ids = ids_of(pending);
    let after = marked_each(chunks, ids);
    lemma_marked_each(chunks, ids);
    lemma_filter_members(chunks, pending_in_document(document_id));
    assert forall|i: int| 0 <= i < after.len() implies !pending_in_document(document_id)(
        #[trigger] after[i],
    ) by {
        if chunks[i].document_id == document_id && !chunks[i].is_vectorized {
            assert(chunks.contains(chunks[i]));
            assert(pending.contains(chunks[i]));
            let k = choose|k: int| 0 <= k < pending.len() && pending[k] == chunks[i];
            assert(ids[k] == chunks[i].id);
            assert(ids.contains(chunks[i].id));
        }
    }
    lemma_filter_none_or_all(after, pending_in_document(document_id));
}

} // verus!
