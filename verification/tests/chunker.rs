use heelix::chunker::{find_break_point, split_into_chunks};
use heelix::CHUNK_SIZE;

#[test]
fn test_split_small_text() {
    let text = "This is a small text.";
    let chunks = split_into_chunks(text);
    assert_eq!(chunks.len(), 1);
    assert_eq!(chunks[0], text);
}

#[test]
fn test_split_empty_text() {
    let text = "";
    let chunks = split_into_chunks(text);
    assert_eq!(chunks.len(), 0);
}

#[test]
fn test_split_large_text() {
    let text = "A".repeat(5000);
    let chunks = split_into_chunks(&text);
    assert!(chunks.len() > 1);
    // Each chunk should be roughly CHUNK_SIZE
    for chunk in &chunks {
        assert!(chunk.len() <= CHUNK_SIZE + 100); // Allow some flexibility for break points
    }
}

#[test]
fn split_large_text_without_breaks_cuts_hard() {
    let text = "A".repeat(5000);
    let chunks = split_into_chunks(&text);
    assert_eq!(chunks.len(), 2);
    assert_eq!(chunks[0].len(), 4000);
    // the second window begins 400 characters before the end of the first
    assert_eq!(chunks[1].len(), 1400);
}

#[test]
fn split_whitespace_only_gives_nothing() {
    assert_eq!(split_into_chunks("  \n\t \r\n ").len(), 0);
    assert_eq!(split_into_chunks("\u{2003}\u{00A0}\u{3000}").len(), 0);
}

#[test]
fn split_short_text_is_trimmed() {
    let chunks = split_into_chunks("  hello world \n");
    assert_eq!(chunks, vec!["hello world".to_string()]);
}

#[test]
fn split_text_of_exactly_chunk_size_is_one_chunk() {
    let text = "b".repeat(4000);
    let chunks = split_into_chunks(&text);
    assert_eq!(chunks.len(), 1);
    assert_eq!(chunks[0], text);
    let longer = "b".repeat(4001);
    assert_eq!(split_into_chunks(&longer).len(), 2);
}

#[test]
fn split_counts_characters_not_bytes() {
    // 4000 characters of two bytes each are one chunk
    let text = "é".repeat(4000);
    let chunks = split_into_chunks(&text);
    assert_eq!(chunks.len(), 1);
    assert_eq!(chunks[0].chars().count(), 4000);
    let longer = "é".repeat(4500);
    let chunks = split_into_chunks(&longer);
    assert_eq!(chunks.len(), 2);
    assert_eq!(chunks[0].chars().count(), 4000);
    assert_eq!(chunks[1].chars().count(), 900);
}

#[test]
fn split_agrees_with_trim_of_std() {
    for text in ["", " a ", "\u{85}x\u{2028}", "\u{1680}\u{205F}y z\u{202F}", "\u{200B}"] {
        let chunks = split_into_chunks(text);
        let trimmed = text.trim();
        if trimmed.is_empty() {
            assert!(chunks.is_empty());
        } else {
            assert_eq!(chunks, vec![trimmed.to_string()]);
        }
    }
}

#[test]
fn break_point_prefers_paragraph_over_sentence_over_space() {
    // positions:        0123456789...
    let text = "one two. three\n\nfour five. six seven";
    let end = text.len();
    // the paragraph break ends at 16
    assert_eq!(find_break_point(text, 0, end), 16);
    let text = "one two. three four five. six seven";
    // last ". " wins over the later spaces
    assert_eq!(find_break_point(text, 0, text.len()), 26);
    let text = "one two three";
    assert_eq!(find_break_point(text, 0, text.len()), 8);
    let text = "onetwothree";
    assert_eq!(find_break_point(text, 0, text.len()), text.len());
}

#[test]
fn break_point_sentence_ends_are_tried_in_order() {
    // "! " comes later in the text, but ". " is tried first
    let text = "aa. bb! cc";
    assert_eq!(find_break_point(text, 0, text.len()), 4);
    // "?\n" is found only when no earlier kind occurs
    let text = "aa?\nbb";
    assert_eq!(find_break_point(text, 0, text.len()), 4);
    let text = "aa?\nbb! cc";
    assert_eq!(find_break_point(text, 0, text.len()), 8);
}

#[test]
fn break_point_looks_at_the_last_200_characters_only() {
    let mut text = String::from("x. ");
    text.push_str(&"y".repeat(300));
    // the sentence end lies more than 200 characters before the end
    assert_eq!(find_break_point(&text, 0, text.len()), text.len());
    let mut text = "y".repeat(150);
    text.push_str(". ");
    text.push_str(&"z".repeat(100));
    assert_eq!(find_break_point(&text, 0, text.len()), 152);
    // a window shorter than 200 characters is searched from its start
    assert_eq!(find_break_point("ab cd ef", 3, 8), 6);
    assert_eq!(find_break_point("ab cdef", 3, 7), 7);
}

#[test]
fn break_point_of_an_empty_window_is_its_end() {
    assert_eq!(find_break_point("abc", 2, 2), 2);
}

#[test]
fn split_document_with_paragraphs() {
    // 9000 characters, a paragraph break after every 498 letters
    let mut text = String::new();
    for _ in 0..18 {
        text.push_str(&"p".repeat(498));
        text.push_str("\n\n");
    }
    assert_eq!(text.len(), 9000);
    let chunks = split_into_chunks(&text);
    assert!(chunks.len() >= 3);
    for chunk in &chunks {
        assert!(chunk.len() <= 4100);
        assert!(!chunk.is_empty());
        assert_eq!(chunk.trim(), chunk);
    }
    // the text is trimmed to 8998 characters; the first window is cut
    // after the paragraph break that ends at 4000
    assert_eq!(chunks[0].len(), 3998);
    // the second window begins at 3600 and is cut at the break ending at 7500
    assert_eq!(chunks[1].len(), 7498 - 3600);
    assert_eq!(chunks[2].len(), 8998 - 7100);
    assert_eq!(chunks.len(), 3);
    // consecutive chunks share the 400 characters before the cut
    let tail: String = text[3600..3998].to_string();
    assert!(chunks[0].ends_with(&tail));
    assert!(chunks[1].starts_with(&tail));
}

#[test]
fn split_drops_windows_of_white_space() {
    let mut text = String::from("a");
    text.push_str(&" ".repeat(9000));
    text.push('b');
    let chunks = split_into_chunks(&text);
    assert_eq!(chunks.first().map(|c| c.as_str()), Some("a"));
    assert_eq!(chunks.last().map(|c| c.as_str()), Some("b"));
    assert_eq!(chunks.len(), 2);
}

/// The cut of a window, found with the string search of std; for texts of
/// one byte per character the positions are the same.
fn break_point_with_std(text: &str, start: usize, target_end: usize) -> usize {
    let search_range = std::cmp::min(200, target_end - start);
    let search_start = target_end.saturating_sub(search_range);
    let slice = &text[search_start..target_end];
    if let Some(pos) = slice.rfind("\n\n") {
        return search_start + pos + 2;
    }
    for pattern in &[". ", "! ", "? ", ".\n", "!\n", "?\n"] {
        if let Some(pos) = slice.rfind(pattern) {
            return search_start + pos + pattern.len();
        }
    }
    if let Some(pos) = slice.rfind(' ') {
        return search_start + pos + 1;
    }
    target_end
}

/// The chunks of a text of one byte per character, cut with the functions
/// of std.
fn split_with_std(text: &str) -> Vec<String> {
    let text = text.trim();
    if text.is_empty() {
        return vec![];
    }
    if text.len() <= 4000 {
        return vec![text.to_string()];
    }
    let mut chunks = Vec::new();
    let mut start = 0;
    while start < text.len() {
        let end = std::cmp::min(start + 4000, text.len());
        let chunk_end = if end < text.len() { break_point_with_std(text, start, end) } else { end };
        let chunk = text[start..chunk_end].trim().to_string();
        if !chunk.is_empty() {
            chunks.push(chunk);
        }
        if chunk_end >= text.len() {
            break;
        }
        start = if chunk_end > 400 { chunk_end - 400 } else { chunk_end };
    }
    chunks
}

/// A text of `length` characters of one byte each, in which breaks of
/// every kind occur about once in `gap` characters.
fn sample_text(seed: u64, length: usize, gap: u64) -> String {
    let mut state = seed;
    let mut text = String::with_capacity(length);
    while text.len() < length {
        state = state.wrapping_mul(6364136223846793005).wrapping_add(1442695040888963407);
        let pick = (state >> 33) % gap;
        let piece = match pick {
            0 => "\n\n",
            1 => ". ",
            2 => "! ",
            3 => "? ",
            4 => ".\n",
            5 => "!\n",
            6 => "?\n",
            7 | 8 => " ",
            9 => "\t",
            _ => "x",
        };
        text.push_str(piece);
    }
    text.truncate(length);
    text
}

#[test]
fn split_agrees_with_the_search_of_std() {
    let mut compared = 0;
    for seed in 0..12u64 {
        for (length, gap) in [(3999, 20), (4001, 40), (9000, 60), (12345, 300), (20000, 3000)] {
            let text = sample_text(seed, length, gap);
            let chunks = split_into_chunks(&text);
            assert_eq!(chunks, split_with_std(&text), "seed {} length {}", seed, length);
            for chunk in &chunks {
                assert!(!chunk.is_empty() && chunk.len() <= 4000);
            }
            compared += 1;
        }
    }
    assert_eq!(compared, 60);
}

#[test]
fn break_point_agrees_with_the_search_of_std() {
    for seed in 0..20u64 {
        let text = sample_text(seed, 600, 15 + seed * 7);
        for (start, end) in [(0, 600), (0, 150), (100, 500), (395, 600), (599, 600), (250, 250)] {
            assert_eq!(
                find_break_point(&text, start, end),
                break_point_with_std(&text, start, end),
                "seed {} window {}..{}",
                seed,
                start,
                end
            );
        }
    }
}
