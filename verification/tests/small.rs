use heelix::chat::{user_prompt, Message};
use heelix::decimal::{push_decimal, push_digits, to_decimal};
use heelix::settings::Settings;
use heelix::text::{char_is_whitespace, substring, to_chars, trim_range};
use heelix::window_details_collector::get_element_tree_by_process_id;

#[test]
fn decimal_agrees_with_std() {
    for n in [0i64, 1, 9, 10, 11, 99, 100, 12345, -1, -10, -907, i64::MAX, i64::MIN, i64::MIN + 1] {
        assert_eq!(to_decimal(n), n.to_string());
    }
    let mut out = String::from("n=");
    push_decimal(&mut out, -42);
    push_digits(&mut out, u64::MAX);
    assert_eq!(out, format!("n=-42{}", u64::MAX));
}

#[test]
fn whitespace_agrees_with_std() {
    for code in 0u32..0x3100 {
        if let Some(c) = char::from_u32(code) {
            assert_eq!(char_is_whitespace(c), c.is_whitespace(), "U+{:04X}", code);
        }
    }
    assert!(!char_is_whitespace('\u{200B}'));
    assert!(!char_is_whitespace('\u{FEFF}'));
}

#[test]
fn trim_range_finds_the_kept_stretch() {
    let chars = to_chars("  ab c \n");
    assert_eq!(chars.len(), 8);
    assert_eq!(trim_range(&chars, 0, 8), (2, 6));
    assert_eq!(trim_range(&chars, 3, 5), (3, 4));
    // white space alone: both bounds are the end
    assert_eq!(trim_range(&chars, 6, 8), (8, 8));
    assert_eq!(trim_range(&chars, 4, 4), (4, 4));
    assert_eq!(substring("héllo wörld", 1, 8), "éllo wö");
    assert_eq!(substring("abc", 3, 3), "");
}

#[test]
fn settings_gate_retrieval() {
    let mut settings = Settings {
        is_dev_mode: false,
        interval: String::new(),
        auto_start: true,
        api_choice: String::new(),
        api_key_claude: String::new(),
        api_key_open_ai: String::from("sk"),
        api_key_gemini: String::new(),
        local_model_url: String::new(),
        vectorization_enabled: true,
        rag_top_k: 8,
    };
    assert!(settings.retrieval_enabled());
    assert_eq!(settings.top_k(), Some(8));
    settings.vectorization_enabled = false;
    assert!(!settings.retrieval_enabled());
    settings.vectorization_enabled = true;
    settings.api_key_open_ai.clear();
    assert!(!settings.retrieval_enabled());
    settings.rag_top_k = 0;
    assert_eq!(settings.top_k(), None);
    settings.rag_top_k = -3;
    assert_eq!(settings.top_k(), None);
    settings.rag_top_k = 1;
    assert_eq!(settings.top_k(), Some(1));
}

#[test]
fn query_is_what_was_said_last() {
    let history = vec![Message::new("user", "first"), Message::new("assistant", "second")];
    assert_eq!(history[0].role(), "user");
    assert_eq!(history[1].content(), "second");
    assert_eq!(user_prompt(&history), "second");
    assert_eq!(user_prompt(&Vec::new()), "");
}

#[test]
fn element_tree_is_empty() {
    assert_eq!(get_element_tree_by_process_id("123"), (String::new(), String::from("/")));
}
