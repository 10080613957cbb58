use heelix::chunk_store::{
    add_document, get_chunk_ids_for_project, list_unvectorized, mark_chunk_as_vectorized,
    move_document_to_project, save_chunks_for_document, ChunkStore,
};
use heelix::retrieval::{
    build_context, ids_of_results, next_action, record_embedding, record_sync, search,
    search_project_vectors, sort_by_distance, vectorize_pending, RetrievedContext, VectorizeAction,
};
use heelix::settings::Settings;

fn settings(enabled: bool, key: &str, top_k: i32) -> Settings {
    Settings {
        is_dev_mode: false,
        interval: String::from("20"),
        auto_start: false,
        api_choice: String::from("local"),
        api_key_claude: String::new(),
        api_key_open_ai: String::from(key),
        api_key_gemini: String::new(),
        local_model_url: String::new(),
        vectorization_enabled: enabled,
        rag_top_k: top_k,
    }
}

fn long_text(seed: char) -> String {
    let mut text = String::new();
    for _ in 0..90 {
        for _ in 0..98 {
            text.push(seed);
        }
        text.push_str(". ");
    }
    text
}

/// Runs a vectorization to its end; `fails` tells for each chunk id whether
/// the provider fails on it. Returns the ids that were embedded and the
/// number of syncs.
fn drive(store: &mut ChunkStore, document_id: i64, fails: &dyn Fn(i64) -> bool) -> (Vec<i64>, usize) {
    let mut run = vectorize_pending(store, document_id).expect("the document is known");
    let mut embedded = Vec::new();
    let mut syncs = 0;
    let mut steps = 0;
    loop {
        steps += 1;
        assert!(steps < 1000);
        match next_action(&run) {
            VectorizeAction::Embed { project_id: _, chunk_id, text } => {
                assert!(!text.is_empty());
                let added = !fails(chunk_id);
                if added {
                    embedded.push(chunk_id);
                }
                record_embedding(&mut run, store, added);
            }
            VectorizeAction::Sync { project_id: _ } => {
                syncs += 1;
                record_sync(&mut run);
            }
            VectorizeAction::Done => break,
        }
    }
    assert_eq!(run.vectorized_count(), embedded.len());
    (embedded, syncs)
}

#[test]
fn results_are_cut_to_k() {
    let found = vec![(4, 10), (9, 20), (2, 30)];
    assert_eq!(search_project_vectors(found.clone(), 2), vec![(4, 10), (9, 20)]);
    assert_eq!(search_project_vectors(found.clone(), 3), found);
    assert_eq!(search_project_vectors(found.clone(), 1), vec![(4, 10)]);
}

#[test]
fn results_come_in_ascending_order_of_distance() {
    // an answer out of order is put in order; equal distances keep their turn
    let found = vec![(1, 30), (2, 10), (3, 20), (4, 10), (5, 0)];
    assert_eq!(
        search_project_vectors(found.clone(), 10),
        vec![(5, 0), (2, 10), (4, 10), (3, 20), (1, 30)]
    );
    assert_eq!(search_project_vectors(found.clone(), 3), vec![(5, 0), (2, 10), (4, 10)]);
    assert_eq!(sort_by_distance(found), vec![(5, 0), (2, 10), (4, 10), (3, 20), (1, 30)]);
    assert_eq!(sort_by_distance(vec![(7, 7)]), vec![(7, 7)]);
    assert_eq!(sort_by_distance(vec![(1, 3), (2, 2), (3, 1)]), vec![(3, 1), (2, 2), (1, 3)]);
}

#[test]
fn fewer_items_than_k_come_back_whole() {
    let found = vec![(4, 10), (9, 20)];
    let results = search_project_vectors(found.clone(), 5);
    assert_eq!(results.len(), 2);
    assert_eq!(results, found);
    assert!(results.windows(2).all(|w| w[0].1 <= w[1].1));
    assert!(search_project_vectors(Vec::new(), 5).is_empty());
    assert_eq!(ids_of_results(&results), vec![4, 9]);
}

#[test]
fn context_names_position_and_document() {
    let mut store = ChunkStore::new();
    save_chunks_for_document(&mut store, 12, 1, "alpha").unwrap();
    save_chunks_for_document(&mut store, -3, 1, "beta").unwrap();
    let chunks = heelix::chunk_store::get_chunks_by_ids(&store, &[1, 2]);
    assert_eq!(
        build_context(&chunks),
        "Chunk 1 (from document -3):\nbeta\n\nChunk 2 (from document 12):\nalpha\n\n"
    );
    assert_eq!(build_context(&Vec::new()), "");
}

#[test]
fn search_resolves_vectorized_chunks_of_the_project() {
    let mut store = ChunkStore::new();
    let doc = add_document(&mut store, 1, "Plan").unwrap();
    let ids = save_chunks_for_document(&mut store, doc, 1, &long_text('p')).unwrap();
    let elsewhere = save_chunks_for_document(&mut store, 50, 2, "elsewhere").unwrap();
    mark_chunk_as_vectorized(&mut store, ids[0]);
    mark_chunk_as_vectorized(&mut store, ids[2]);
    mark_chunk_as_vectorized(&mut store, elsewhere[0]);
    // the index answers with a pending chunk, a chunk of another project and
    // an id that no chunk has; none of them is retrieved
    let found = vec![(ids[2], 1), (ids[1], 2), (elsewhere[0], 3), (4711, 4), (ids[0], 5)];
    let result = search(&store, &settings(true, "key", 5), 1, found.clone(), 5);
    let got: Vec<i64> = result.chunks.iter().map(|c| c.id).collect();
    assert_eq!(got, vec![ids[0], ids[2]]);
    assert_eq!(result.sources.len(), 2);
    assert_eq!(result.sources[0].document_name, "Plan");
    assert_eq!(result.sources[1].chunk_index, 2);
    assert_eq!(result.context, build_context(&result.chunks));
    assert!(result.context.starts_with("Chunk 1 (from document 1):\n"));
    // with k = 1 only the nearest counts
    let result = search(&store, &settings(true, "key", 5), 1, found, 1);
    let got: Vec<i64> = result.chunks.iter().map(|c| c.id).collect();
    assert_eq!(got, vec![ids[2]]);
}

fn assert_empty(result: &RetrievedContext) {
    assert!(result.chunks.is_empty());
    assert!(result.sources.is_empty());
    assert!(result.context.is_empty());
}

#[test]
fn search_is_empty_without_vectorized_chunks() {
    let mut store = ChunkStore::new();
    let ids = save_chunks_for_document(&mut store, 1, 1, "pending only").unwrap();
    assert_empty(&search(&store, &settings(true, "key", 5), 1, Vec::new(), 5));
    // even where an index still answers with the chunk
    assert_empty(&search(&store, &settings(true, "key", 5), 1, vec![(ids[0], 0)], 5));
}

#[test]
fn search_is_empty_where_retrieval_is_off() {
    let mut store = ChunkStore::new();
    let ids = save_chunks_for_document(&mut store, 1, 1, "some text").unwrap();
    mark_chunk_as_vectorized(&mut store, ids[0]);
    let found = vec![(ids[0], 0)];
    assert_empty(&search(&store, &settings(false, "key", 5), 1, found.clone(), 5));
    assert_empty(&search(&store, &settings(true, "", 5), 1, found.clone(), 5));
    assert_eq!(search(&store, &settings(true, "key", 5), 1, found, 5).chunks.len(), 1);
}

#[test]
fn vectorize_embeds_each_pending_chunk_and_syncs_once() {
    let mut store = ChunkStore::new();
    let doc = add_document(&mut store, 3, "Doc").unwrap();
    let ids = save_chunks_for_document(&mut store, doc, 3, &long_text('v')).unwrap();
    let (embedded, syncs) = drive(&mut store, doc, &|_| false);
    assert_eq!(embedded, ids);
    assert_eq!(syncs, 1);
    assert_eq!(get_chunk_ids_for_project(&store, 3), ids);
    assert!(list_unvectorized(&store, doc).is_empty());
}

#[test]
fn vectorize_twice_embeds_nothing_the_second_time() {
    let mut store = ChunkStore::new();
    let doc = add_document(&mut store, 3, "Doc").unwrap();
    save_chunks_for_document(&mut store, doc, 3, &long_text('v')).unwrap();
    let (first, _) = drive(&mut store, doc, &|_| false);
    assert_eq!(first.len(), 3);
    let (second, syncs) = drive(&mut store, doc, &|_| false);
    assert!(second.is_empty());
    assert_eq!(syncs, 1);
}

#[test]
fn vectorize_skips_failures_and_retries_them_later() {
    let mut store = ChunkStore::new();
    let doc = add_document(&mut store, 3, "Doc").unwrap();
    let ids = save_chunks_for_document(&mut store, doc, 3, &long_text('v')).unwrap();
    let bad = ids[1];
    let mut run = vectorize_pending(&store, doc).unwrap();
    let mut tried = Vec::new();
    loop {
        match next_action(&run) {
            VectorizeAction::Embed { project_id, chunk_id, text: _ } => {
                assert_eq!(project_id, 3);
                tried.push(chunk_id);
                record_embedding(&mut run, &mut store, chunk_id != bad);
            }
            VectorizeAction::Sync { project_id } => {
                assert_eq!(project_id, 3);
                record_sync(&mut run);
            }
            VectorizeAction::Done => break,
        }
    }
    assert_eq!(tried, ids);
    assert_eq!(run.failed(), &vec![bad]);
    assert_eq!(run.vectorized_count(), 2);
    assert_eq!(get_chunk_ids_for_project(&store, 3), vec![ids[0], ids[2]]);
    // the next run tries the one that failed, and nothing else
    let (embedded, syncs) = drive(&mut store, doc, &|_| false);
    assert_eq!(embedded, vec![bad]);
    assert_eq!(syncs, 1);
}

#[test]
fn vectorize_of_an_unknown_document_does_not_begin() {
    let mut store = ChunkStore::new();
    save_chunks_for_document(&mut store, 9, 3, "no document record").unwrap();
    assert!(vectorize_pending(&store, 9).is_none());
}

#[test]
fn reports_out_of_turn_change_nothing() {
    let mut store = ChunkStore::new();
    let doc = add_document(&mut store, 3, "Doc").unwrap();
    let ids = save_chunks_for_document(&mut store, doc, 3, "one chunk").unwrap();
    let mut run = vectorize_pending(&store, doc).unwrap();
    // a sync report before the chunk was tried does not count
    record_sync(&mut run);
    assert!(matches!(next_action(&run), VectorizeAction::Embed { .. }));
    record_embedding(&mut run, &mut store, true);
    assert!(matches!(next_action(&run), VectorizeAction::Sync { project_id: 3 }));
    // an embedding report with no chunk waiting is ignored
    record_embedding(&mut run, &mut store, false);
    assert!(run.failed().is_empty());
    record_sync(&mut run);
    assert!(matches!(next_action(&run), VectorizeAction::Done));
    record_sync(&mut run);
    assert!(matches!(next_action(&run), VectorizeAction::Done));
    assert_eq!(get_chunk_ids_for_project(&store, 3), ids);
}

#[test]
fn two_documents_of_two_projects_vectorize_independently() {
    let mut store = ChunkStore::new();
    let a = add_document(&mut store, 1, "A").unwrap();
    let b = add_document(&mut store, 2, "B").unwrap();
    let ids_a = save_chunks_for_document(&mut store, a, 1, &long_text('a')).unwrap();
    let ids_b = save_chunks_for_document(&mut store, b, 2, &long_text('b')).unwrap();
    // the two runs take turns
    let mut run_a = vectorize_pending(&store, a).unwrap();
    let mut run_b = vectorize_pending(&store, b).unwrap();
    for _ in 0..3 {
        record_embedding(&mut run_a, &mut store, true);
        record_embedding(&mut run_b, &mut store, true);
    }
    record_sync(&mut run_b);
    record_sync(&mut run_a);
    assert!(matches!(next_action(&run_a), VectorizeAction::Done));
    assert!(matches!(next_action(&run_b), VectorizeAction::Done));
    assert_eq!(get_chunk_ids_for_project(&store, 1), ids_a);
    assert_eq!(get_chunk_ids_for_project(&store, 2), ids_b);
}

#[test]
fn moved_document_leaves_the_search_scope_of_its_old_project() {
    let mut store = ChunkStore::new();
    let doc = add_document(&mut store, 1, "Doc").unwrap();
    let ids = save_chunks_for_document(&mut store, doc, 1, "moved text").unwrap();
    drive(&mut store, doc, &|_| false);
    let found = vec![(ids[0], 0)];
    assert_eq!(search(&store, &settings(true, "k", 5), 1, found.clone(), 5).chunks.len(), 1);
    move_document_to_project(&mut store, doc, 2);
    // the old index still answers with the chunk; the search drops it
    assert_empty(&search(&store, &settings(true, "k", 5), 1, found.clone(), 5));
    assert_empty(&search(&store, &settings(true, "k", 5), 2, found.clone(), 5));
    // vectorized again, it is found in the new project
    let (embedded, _) = drive(&mut store, doc, &|_| false);
    assert_eq!(embedded, ids);
    assert_eq!(search(&store, &settings(true, "k", 5), 2, found.clone(), 5).chunks.len(), 1);
    assert_empty(&search(&store, &settings(true, "k", 5), 1, found, 5));
}
