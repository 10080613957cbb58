use heelix::chunk_store::{
    add_blank_document, add_document, chunk_preview, delete_chunks_for_document, delete_project,
    delete_project_activities, delete_project_document, document_stage,
    get_chunk_count_for_project, get_chunk_full_text, get_chunk_ids_for_project,
    get_chunk_sources, get_chunks_by_ids, get_document_chunks, get_document_project,
    get_unvectorized_chunks, list_unvectorized, mark_chunk_as_vectorized,
    move_document_to_project, restore_chunks, restore_document, save_chunks_for_document,
    update_activity_name, ChunkStore, DocumentChunk, DocumentRecord, StoreError,
};
use heelix::chunker::split_into_chunks;
use heelix::store_model::DocumentStage;

fn long_text(seed: char) -> String {
    // 9000 characters, a sentence end after every 99 letters
    let mut text = String::new();
    for _ in 0..90 {
        for _ in 0..98 {
            text.push(seed);
        }
        text.push_str(". ");
    }
    text
}

fn texts_of(store: &ChunkStore, document_id: i64) -> Vec<String> {
    get_document_chunks(store, document_id).into_iter().map(|c| c.chunk_text).collect()
}

#[test]
fn new_store_is_empty() {
    let store = ChunkStore::new();
    assert_eq!(get_chunk_count_for_project(&store, 1), 0);
    assert!(get_chunks_by_ids(&store, &[1, 2, 3]).is_empty());
    assert!(get_chunk_ids_for_project(&store, 1).is_empty());
    assert_eq!(get_chunk_full_text(&store, 1), None);
}

#[test]
fn save_numbers_chunks_and_ids_in_order() {
    let mut store = ChunkStore::new();
    let text = long_text('a');
    let expected = split_into_chunks(&text);
    assert_eq!(expected.len(), 3);
    let ids = save_chunks_for_document(&mut store, 7, 2, &text).unwrap();
    assert_eq!(ids, vec![1, 2, 3]);
    let chunks = get_document_chunks(&store, 7);
    assert_eq!(chunks.len(), 3);
    for (k, chunk) in chunks.iter().enumerate() {
        assert_eq!(chunk.id, ids[k]);
        assert_eq!(chunk.document_id, 7);
        assert_eq!(chunk.project_id, 2);
        assert_eq!(chunk.chunk_index, k as i32);
        assert_eq!(chunk.chunk_text, expected[k]);
        assert!(!chunk.is_vectorized);
    }
    assert_eq!(get_chunk_count_for_project(&store, 2), 3);
    assert_eq!(get_chunk_count_for_project(&store, 3), 0);
}

#[test]
fn save_of_empty_text_leaves_no_chunks() {
    let mut store = ChunkStore::new();
    save_chunks_for_document(&mut store, 7, 2, "some words").unwrap();
    let ids = save_chunks_for_document(&mut store, 7, 2, "   ").unwrap();
    assert!(ids.is_empty());
    assert!(get_document_chunks(&store, 7).is_empty());
}

#[test]
fn save_twice_gives_the_same_texts_and_new_ids() {
    let mut store = ChunkStore::new();
    let text = long_text('b');
    let first = save_chunks_for_document(&mut store, 4, 1, &text).unwrap();
    let texts_once = texts_of(&store, 4);
    let second = save_chunks_for_document(&mut store, 4, 1, &text).unwrap();
    let texts_twice = texts_of(&store, 4);
    assert_eq!(texts_once, texts_twice);
    assert_eq!(first.len(), second.len());
    assert_eq!(second, vec![4, 5, 6]);
    // the old chunks are gone
    assert!(get_chunks_by_ids(&store, &first).is_empty());
    assert_eq!(get_chunk_count_for_project(&store, 1), 3);
}

#[test]
fn save_replaces_and_resets_to_pending() {
    let mut store = ChunkStore::new();
    let ids = save_chunks_for_document(&mut store, 4, 1, "first version").unwrap();
    mark_chunk_as_vectorized(&mut store, ids[0]);
    assert_eq!(get_chunk_ids_for_project(&store, 1), ids);
    let ids = save_chunks_for_document(&mut store, 4, 1, "second version").unwrap();
    assert_eq!(ids, vec![2]);
    assert!(get_chunk_ids_for_project(&store, 1).is_empty());
    assert_eq!(texts_of(&store, 4), vec!["second version".to_string()]);
}

#[test]
fn save_leaves_other_documents_alone() {
    let mut store = ChunkStore::new();
    save_chunks_for_document(&mut store, 5, 1, "five").unwrap();
    save_chunks_for_document(&mut store, 3, 1, "three").unwrap();
    save_chunks_for_document(&mut store, 9, 2, "nine").unwrap();
    save_chunks_for_document(&mut store, 5, 1, "five again").unwrap();
    assert_eq!(texts_of(&store, 3), vec!["three".to_string()]);
    assert_eq!(texts_of(&store, 9), vec!["nine".to_string()]);
    assert_eq!(texts_of(&store, 5), vec!["five again".to_string()]);
    assert_eq!(get_chunk_count_for_project(&store, 1), 2);
}

#[test]
fn delete_drops_the_chunks_of_one_document() {
    let mut store = ChunkStore::new();
    save_chunks_for_document(&mut store, 5, 1, "five").unwrap();
    save_chunks_for_document(&mut store, 3, 1, "three").unwrap();
    delete_chunks_for_document(&mut store, 5);
    assert!(get_document_chunks(&store, 5).is_empty());
    assert_eq!(texts_of(&store, 3), vec!["three".to_string()]);
    // deleting what is not there changes nothing
    delete_chunks_for_document(&mut store, 42);
    assert_eq!(get_chunk_count_for_project(&store, 1), 1);
}

#[test]
fn chunks_come_ordered_by_document_and_position() {
    let mut store = ChunkStore::new();
    let late = save_chunks_for_document(&mut store, 8, 1, &long_text('x')).unwrap();
    let early = save_chunks_for_document(&mut store, 2, 1, &long_text('y')).unwrap();
    // asked for in another order, and with ids that no chunk has
    let wanted = vec![late[2], 999, early[1], late[0], -4, early[0]];
    let found = get_chunks_by_ids(&store, &wanted);
    let keys: Vec<(i64, i32)> = found.iter().map(|c| (c.document_id, c.chunk_index)).collect();
    assert_eq!(keys, vec![(2, 0), (2, 1), (8, 0), (8, 2)]);
    let ids: Vec<i64> = found.iter().map(|c| c.id).collect();
    assert_eq!(ids, vec![early[0], early[1], late[0], late[2]]);
}

#[test]
fn unvectorized_chunks_of_a_project_with_limit() {
    let mut store = ChunkStore::new();
    let a = save_chunks_for_document(&mut store, 1, 10, &long_text('a')).unwrap();
    let b = save_chunks_for_document(&mut store, 2, 10, &long_text('b')).unwrap();
    save_chunks_for_document(&mut store, 3, 11, "other project").unwrap();
    mark_chunk_as_vectorized(&mut store, a[1]);
    let ids = |chunks: Vec<heelix::chunk_store::DocumentChunk>| -> Vec<i64> {
        chunks.iter().map(|c| c.id).collect()
    };
    assert_eq!(ids(get_unvectorized_chunks(&store, 10, 100)), vec![a[0], a[2], b[0], b[1], b[2]]);
    assert_eq!(ids(get_unvectorized_chunks(&store, 10, 2)), vec![a[0], a[2]]);
    assert_eq!(ids(get_unvectorized_chunks(&store, 10, 0)), Vec::<i64>::new());
    // a negative limit is no limit
    assert_eq!(ids(get_unvectorized_chunks(&store, 10, -1)).len(), 5);
    assert_eq!(ids(list_unvectorized(&store, 1)), vec![a[0], a[2]]);
    assert_eq!(ids(list_unvectorized(&store, 2)), b);
}

#[test]
fn mark_is_idempotent_and_ignores_unknown_ids() {
    let mut store = ChunkStore::new();
    let ids = save_chunks_for_document(&mut store, 1, 10, &long_text('a')).unwrap();
    mark_chunk_as_vectorized(&mut store, ids[1]);
    mark_chunk_as_vectorized(&mut store, ids[1]);
    mark_chunk_as_vectorized(&mut store, 12345);
    assert_eq!(get_chunk_ids_for_project(&store, 10), vec![ids[1]]);
    let chunks = get_document_chunks(&store, 1);
    assert_eq!(
        chunks.iter().map(|c| c.is_vectorized).collect::<Vec<bool>>(),
        vec![false, true, false]
    );
}

#[test]
fn full_text_by_id() {
    let mut store = ChunkStore::new();
    let ids = save_chunks_for_document(&mut store, 1, 10, "  the text  ").unwrap();
    assert_eq!(get_chunk_full_text(&store, ids[0]), Some("the text".to_string()));
    assert_eq!(get_chunk_full_text(&store, ids[0] + 1), None);
}

#[test]
fn preview_is_the_first_150_characters() {
    // a text of at most 150 characters is shown whole, as it is
    assert_eq!(chunk_preview("abc"), "abc");
    assert_eq!(chunk_preview(""), "");
    assert_eq!(chunk_preview("  padded  "), "  padded  ");
    let exact = "e".repeat(150);
    assert_eq!(chunk_preview(&exact), exact);
    // a longer one is cut after the 150th character, and nothing is added
    let mut text = "w".repeat(149);
    text.push(' ');
    text.push_str("tail that is not shown");
    let mut expected = "w".repeat(149);
    expected.push(' ');
    assert_eq!(chunk_preview(&text), expected);
    let longer = "l".repeat(151);
    assert_eq!(chunk_preview(&longer), "l".repeat(150));
    // 150 characters, not bytes
    let text = "ü".repeat(200);
    assert_eq!(chunk_preview(&text), "ü".repeat(150));
    assert_eq!(chunk_preview(&text).len(), 300);
}

#[test]
fn sources_name_the_document() {
    let mut store = ChunkStore::new();
    let doc = add_document(&mut store, 10, "Notes").unwrap();
    let blank = add_blank_document(&mut store, 10).unwrap();
    assert_eq!((doc, blank), (1, 2));
    let a = save_chunks_for_document(&mut store, doc, 10, &long_text('a')).unwrap();
    let b = save_chunks_for_document(&mut store, blank, 10, "blank text").unwrap();
    // a chunk whose document the store does not know has no source
    let c = save_chunks_for_document(&mut store, 77, 10, "orphan").unwrap();
    let sources = get_chunk_sources(&store, &[b[0], c[0], a[1]]);
    assert_eq!(sources.len(), 2);
    assert_eq!(sources[0].chunk_id, a[1]);
    assert_eq!(sources[0].document_id, doc);
    assert_eq!(sources[0].document_name, "Notes");
    assert_eq!(sources[0].chunk_index, 1);
    let chunk_text = get_chunk_full_text(&store, a[1]).unwrap();
    assert!(chunk_text.chars().count() > 150);
    let head: String = chunk_text.chars().take(150).collect();
    assert_eq!(sources[0].chunk_preview, head);
    assert_eq!(sources[1].chunk_id, b[0]);
    assert_eq!(sources[1].document_name, "New Document");
    assert_eq!(sources[1].chunk_preview, "blank text");
    assert!(get_chunk_sources(&store, &[]).is_empty());
}

#[test]
fn documents_can_be_renamed_and_removed() {
    let mut store = ChunkStore::new();
    let doc = add_blank_document(&mut store, 10).unwrap();
    let ids = save_chunks_for_document(&mut store, doc, 10, "text").unwrap();
    update_activity_name(&mut store, doc, "Renamed");
    update_activity_name(&mut store, 99, "Nobody");
    assert_eq!(get_chunk_sources(&store, &ids)[0].document_name, "Renamed");
    assert_eq!(get_document_project(&store, doc), Some(10));
    delete_project_document(&mut store, doc);
    assert_eq!(get_document_project(&store, doc), None);
    assert!(get_chunk_sources(&store, &ids).is_empty());
    // the chunks stay until they are deleted
    assert_eq!(get_chunks_by_ids(&store, &ids).len(), 1);
}

#[test]
fn moving_a_document_resets_its_chunks() {
    let mut store = ChunkStore::new();
    let doc = add_document(&mut store, 10, "Moved").unwrap();
    let other = add_document(&mut store, 10, "Stays").unwrap();
    let moved = save_chunks_for_document(&mut store, doc, 10, &long_text('m')).unwrap();
    let stays = save_chunks_for_document(&mut store, other, 10, "stays").unwrap();
    for id in moved.iter().chain(stays.iter()) {
        mark_chunk_as_vectorized(&mut store, *id);
    }
    assert_eq!(get_chunk_ids_for_project(&store, 10).len(), 4);
    move_document_to_project(&mut store, doc, 20);
    assert_eq!(get_document_project(&store, doc), Some(20));
    assert_eq!(get_document_project(&store, other), Some(10));
    assert_eq!(get_chunk_ids_for_project(&store, 10), stays);
    assert!(get_chunk_ids_for_project(&store, 20).is_empty());
    let pending: Vec<i64> = list_unvectorized(&store, doc).iter().map(|c| c.id).collect();
    assert_eq!(pending, moved);
    assert_eq!(get_chunk_count_for_project(&store, 20), 3);
    for chunk in get_document_chunks(&store, doc) {
        assert_eq!(chunk.project_id, 20);
    }
}

fn row(id: i64, document_id: i64, project_id: i64, chunk_index: i32, text: &str) -> DocumentChunk {
    DocumentChunk {
        id,
        document_id,
        project_id,
        chunk_index,
        chunk_text: text.to_string(),
        is_vectorized: chunk_index % 2 == 1,
    }
}

#[test]
fn document_goes_from_pending_to_vectorized_and_back() {
    let mut store = ChunkStore::new();
    assert_eq!(document_stage(&store, 1), DocumentStage::Unchunked);
    let ids = save_chunks_for_document(&mut store, 1, 10, &long_text('s')).unwrap();
    assert_eq!(document_stage(&store, 1), DocumentStage::Pending);
    mark_chunk_as_vectorized(&mut store, ids[0]);
    mark_chunk_as_vectorized(&mut store, ids[1]);
    assert_eq!(document_stage(&store, 1), DocumentStage::Pending);
    mark_chunk_as_vectorized(&mut store, ids[2]);
    assert_eq!(document_stage(&store, 1), DocumentStage::Vectorized);
    // an edit makes it pending again
    save_chunks_for_document(&mut store, 1, 10, "edited").unwrap();
    assert_eq!(document_stage(&store, 1), DocumentStage::Pending);
    let ids = get_document_chunks(&store, 1);
    mark_chunk_as_vectorized(&mut store, ids[0].id);
    assert_eq!(document_stage(&store, 1), DocumentStage::Vectorized);
    // and so does a move
    move_document_to_project(&mut store, 1, 11);
    assert_eq!(document_stage(&store, 1), DocumentStage::Pending);
    delete_chunks_for_document(&mut store, 1);
    assert_eq!(document_stage(&store, 1), DocumentStage::Unchunked);
}

#[test]
fn restore_takes_rows_in_and_goes_on_numbering() {
    let mut store = ChunkStore::new();
    restore_document(
        &mut store,
        DocumentRecord { id: 4, project_id: 10, document_name: "Four".to_string() },
    )
    .unwrap();
    restore_chunks(&mut store, vec![row(10, 9, 10, 0, "a"), row(12, 9, 10, 1, "b")]).unwrap();
    restore_chunks(&mut store, vec![row(20, 4, 10, 0, "c")]).unwrap();
    let found = get_chunks_by_ids(&store, &[10, 12, 20]);
    let keys: Vec<(i64, i32, bool)> =
        found.iter().map(|c| (c.document_id, c.chunk_index, c.is_vectorized)).collect();
    assert_eq!(keys, vec![(4, 0, false), (9, 0, false), (9, 1, true)]);
    assert_eq!(get_chunk_sources(&store, &[20])[0].document_name, "Four");
    // new ids go on after the highest id taken in
    assert_eq!(save_chunks_for_document(&mut store, 5, 10, "new").unwrap(), vec![21]);
    assert_eq!(add_blank_document(&mut store, 10).unwrap(), 5);
}

#[test]
fn restore_refuses_rows_that_do_not_fit() {
    let mut store = ChunkStore::new();
    restore_chunks(&mut store, vec![row(10, 9, 10, 0, "a")]).unwrap();
    let refused = |store: &mut ChunkStore, rows: Vec<DocumentChunk>| {
        assert_eq!(restore_chunks(store, rows), Err(StoreError::Inconsistent));
        // the store is as it was
        assert_eq!(get_chunk_count_for_project(store, 10), 1);
        assert_eq!(get_chunk_full_text(store, 10), Some("a".to_string()));
    };
    refused(&mut store, vec![]);
    // an id that the store has reached
    refused(&mut store, vec![row(10, 3, 10, 0, "x")]);
    refused(&mut store, vec![row(9, 3, 10, 0, "x")]);
    // ids that do not rise
    refused(&mut store, vec![row(11, 3, 10, 0, "x"), row(11, 3, 10, 1, "y")]);
    // positions with a gap, or not from 0
    refused(&mut store, vec![row(11, 3, 10, 0, "x"), row(12, 3, 10, 2, "y")]);
    refused(&mut store, vec![row(11, 3, 10, 1, "x")]);
    // two documents, or two projects
    refused(&mut store, vec![row(11, 3, 10, 0, "x"), row(12, 4, 10, 1, "y")]);
    refused(&mut store, vec![row(11, 3, 10, 0, "x"), row(12, 3, 11, 1, "y")]);
    // no room for a next id
    refused(&mut store, vec![row(i64::MAX, 3, 10, 0, "x")]);
    assert_eq!(
        restore_document(
            &mut store,
            DocumentRecord { id: 0, project_id: 1, document_name: String::new() }
        ),
        Err(StoreError::Inconsistent)
    );
    assert_eq!(
        restore_document(
            &mut store,
            DocumentRecord { id: i64::MAX, project_id: 1, document_name: String::new() }
        ),
        Err(StoreError::Inconsistent)
    );
}

#[test]
fn store_without_ids_left_refuses_and_stays_as_it_was() {
    let mut store = ChunkStore::new();
    restore_chunks(&mut store, vec![row(i64::MAX - 2, 9, 10, 0, "last")]).unwrap();
    // one id is left: a text of one chunk fits, a text of two does not
    let mut two_chunks = "x".repeat(4000);
    two_chunks.push_str(" tail");
    assert_eq!(
        save_chunks_for_document(&mut store, 9, 10, &two_chunks),
        Err(StoreError::IdsExhausted)
    );
    assert_eq!(texts_of(&store, 9), vec!["last".to_string()]);
    assert_eq!(save_chunks_for_document(&mut store, 8, 10, "fits").unwrap(), vec![i64::MAX - 1]);
    assert_eq!(save_chunks_for_document(&mut store, 7, 10, "no more"), Err(StoreError::IdsExhausted));
    assert!(get_document_chunks(&store, 7).is_empty());
    // a text without chunks needs no id
    assert_eq!(save_chunks_for_document(&mut store, 8, 10, "  ").unwrap(), Vec::<i64>::new());

    restore_document(
        &mut store,
        DocumentRecord { id: i64::MAX - 1, project_id: 1, document_name: String::new() },
    )
    .unwrap();
    assert_eq!(add_document(&mut store, 1, "late"), Err(StoreError::IdsExhausted));
    assert_eq!(add_blank_document(&mut store, 1), Err(StoreError::IdsExhausted));
}

#[test]
fn deleting_a_project_drops_its_documents_and_chunks() {
    let mut store = ChunkStore::new();
    let a = add_document(&mut store, 10, "A").unwrap();
    let b = add_document(&mut store, 11, "B").unwrap();
    let c = add_document(&mut store, 10, "C").unwrap();
    save_chunks_for_document(&mut store, a, 10, &long_text('a')).unwrap();
    let kept = save_chunks_for_document(&mut store, b, 11, "kept").unwrap();
    save_chunks_for_document(&mut store, c, 10, "gone").unwrap();
    delete_project(&mut store, 10);
    assert_eq!(get_chunk_count_for_project(&store, 10), 0);
    assert_eq!(get_chunk_count_for_project(&store, 11), 1);
    assert_eq!(get_document_project(&store, a), None);
    assert_eq!(get_document_project(&store, c), None);
    assert_eq!(get_document_project(&store, b), Some(11));
    assert_eq!(get_chunk_sources(&store, &kept)[0].document_name, "B");
    // the documents alone
    delete_project_activities(&mut store, 11);
    assert_eq!(get_document_project(&store, b), None);
    assert_eq!(get_chunk_count_for_project(&store, 11), 1);
    // ids are not given out again
    assert_eq!(add_document(&mut store, 10, "D").unwrap(), 4);
    assert_eq!(save_chunks_for_document(&mut store, 4, 10, "d").unwrap(), vec![6]);
}
