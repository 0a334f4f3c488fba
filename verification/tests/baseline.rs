use aetherime::confidence::{confidence_of_completion, Confidence};
use aetherime::engine::baseline::mixing::{
    ends_with_ascii_word, ends_with_cjk, is_ascii_word_char, maybe_prepend_space_for_mixed,
};
use aetherime::engine::baseline::scoring::{confidence_from_freq, gate_suggestion};
use aetherime::engine::baseline::trie::Trie;
use aetherime::engine::baseline::{last_ascii_token_prefix, BaselineSuggestor};
use aetherime::engine::personalization::PersonalizationStore;
use aetherime::engine::protocol::{ClientMessage, EngineMessage};
use aetherime::engine::session::ClientSession;
use aetherime::engine::util::{parse_u16, u16_or};
use aetherime::text::{
    decimal_string, from_chars, is_alphanumeric, is_blank, is_cjk, is_whitespace,
    text_before_cursor, to_ascii_lower, to_chars,
};

fn as_f32(c: Confidence) -> f32 {
    c.num as f32 / c.den as f32
}

fn suggest(context: &str, cursor: usize, max_len: usize) -> Option<(String, Confidence, [usize; 2])> {
    BaselineSuggestor::new()
        .suggest_utf16(context, cursor, max_len)
        .map(|s| (s.suggestion, s.confidence, s.replace_range))
}

#[test]
fn completes_wor_to_world() {
    let (text, confidence, range) = suggest("hello wor", 9, 32).unwrap();
    assert_eq!(text, "ld");
    assert_eq!(range, [9, 9]);
    // 50/51 + 3/50 exceeds the cap of 99/100.
    assert_eq!(confidence, Confidence { num: 99, den: 100 });
    assert!((as_f32(confidence) - 0.99).abs() < 1e-6);
}

#[test]
fn confidence_below_the_cap_is_exact() {
    let mut trie = Trie::new();
    trie.insert("ab", 1);
    // 1/2 + 2/50 = 27/50, kept as 54/100.
    let c = confidence_of_completion(1, 2);
    assert_eq!(c, Confidence { num: 54, den: 100 });
    assert!((as_f32(c) - 0.54).abs() < 1e-6);
    assert_eq!(trie.best_completion("a"), Some(("ab".to_string(), 1)));
}

#[test]
fn unknown_token_after_cjk_gives_nothing() {
    assert_eq!("中文hel".encode_utf16().count(), 5);
    assert!(suggest("中文hel", 5, 32).is_none());
}

#[test]
fn completes_the_after_cjk_without_space() {
    let (text, _, range) = suggest("你好the", 5, 32).unwrap();
    assert_eq!(text, "re");
    assert_eq!(range, [5, 5]);
}

#[test]
fn cursor_inside_the_token_completes_what_stands_before_it() {
    // Four code units of "你好the" end after "th"; the best word is "thanks".
    let (text, _, range) = suggest("你好the", 4, 32).unwrap();
    assert_eq!(text, "anks");
    assert_eq!(range, [4, 4]);
}

#[test]
fn nothing_after_a_space() {
    assert!(suggest("你好 ", 3, 32).is_none());
}

#[test]
fn nothing_without_a_trailing_word_character() {
    for context in ["", " ", "wor ", "wor.", "wor你", "wor-", "wor\n", "你好"] {
        let cursor = context.encode_utf16().count();
        assert!(suggest(context, cursor, 32).is_none(), "{context:?}");
    }
}

#[test]
fn short_tokens_and_empty_completions_are_refused() {
    assert!(suggest("w", 1, 32).is_none());
    assert!(suggest("wor", 3, 0).is_none());
    assert!(suggest("world", 5, 32).is_none());
    assert!(suggest("wo", 2, 32).is_some());
}

#[test]
fn range_is_the_cursor_as_given() {
    let (text, _, range) = suggest("wor", 100, 32).unwrap();
    assert_eq!(text, "ld");
    assert_eq!(range, [100, 100]);
    let (_, _, range) = suggest("hello wor and more", 9, 32).unwrap();
    assert_eq!(range, [9, 9]);
}

#[test]
fn completion_is_cut_to_max_len() {
    assert_eq!(suggest("tom", 3, 32).unwrap().0, "orrow");
    assert_eq!(suggest("tom", 3, 2).unwrap().0, "or");
    assert_eq!(suggest("tom", 3, 5).unwrap().0, "orrow");
}

#[test]
fn token_is_looked_up_in_lower_case() {
    assert_eq!(suggest("WOR", 3, 32).unwrap().0, "ld");
    assert_eq!(suggest("Plea", 4, 32).unwrap().0, "se");
}

#[test]
fn underscore_and_digits_belong_to_the_token() {
    assert!(suggest("x_wor", 5, 32).is_none());
    assert!(suggest("9wor", 4, 32).is_none());
    assert_eq!(suggest("x-wor", 5, 32).unwrap().0, "ld");
}

#[test]
fn cursor_that_splits_a_surrogate_pair_leaves_a_replacement() {
    assert_eq!(from_chars(&text_before_cursor("😀wor", 1)), "\u{FFFD}");
    assert!(suggest("😀wor", 1, 32).is_none());
    assert_eq!(suggest("😀wor", 5, 32).unwrap().0, "ld");
}

#[test]
fn text_before_cursor_agrees_with_utf16_decoding() {
    for context in ["", "abc", "你好the", "😀wor", "a😀b😀", "中文hel", "é😀"] {
        let units: Vec<u16> = context.encode_utf16().collect();
        for cursor in 0..units.len() + 3 {
            let end = cursor.min(units.len());
            let expected = String::from_utf16_lossy(&units[..end]);
            assert_eq!(from_chars(&text_before_cursor(context, cursor)), expected);
        }
    }
}

#[test]
fn default_suggestor_proposes_nothing() {
    assert!(BaselineSuggestor::default().suggest_utf16("wor", 3, 32).is_none());
}

#[test]
fn token_prefix_is_the_trailing_word_run() {
    assert_eq!(last_ascii_token_prefix("hello wor"), ("wor".to_string(), 3));
    assert_eq!(last_ascii_token_prefix("a_b9"), ("a_b9".to_string(), 4));
    assert_eq!(last_ascii_token_prefix("你好the"), ("the".to_string(), 3));
    assert_eq!(last_ascii_token_prefix("wor "), (String::new(), 0));
    assert_eq!(last_ascii_token_prefix(""), (String::new(), 0));
    assert_eq!(last_ascii_token_prefix("é"), (String::new(), 0));
}

#[test]
fn trie_returns_the_most_frequent_completion() {
    let mut trie = Trie::new();
    trie.insert("thanks", 40);
    trie.insert("thank", 25);
    trie.insert("there", 35);
    trie.insert("their", 20);
    assert_eq!(trie.best_completion("the"), Some(("there".to_string(), 35)));
    assert_eq!(trie.best_completion("th"), Some(("thanks".to_string(), 40)));
    assert_eq!(trie.best_completion("thank"), Some(("thanks".to_string(), 40)));
    assert_eq!(trie.best_completion("thanks"), Some(("thanks".to_string(), 40)));
    assert_eq!(trie.best_completion(""), Some(("thanks".to_string(), 40)));
    assert_eq!(trie.best_completion("x"), None);
    assert_eq!(trie.best_completion("thanksx"), None);
}

#[test]
fn trie_breaks_ties_by_walk_order() {
    let mut trie = Trie::new();
    trie.insert("work", 30);
    trie.insert("would", 30);
    trie.insert("wo", 30);
    // A word comes before its extensions, branches in order of insertion.
    assert_eq!(trie.best_completion("w"), Some(("wo".to_string(), 30)));
    assert_eq!(trie.best_completion("wor"), Some(("work".to_string(), 30)));
    let mut other = Trie::default();
    other.insert("would", 30);
    other.insert("work", 30);
    assert_eq!(other.best_completion("wo"), Some(("would".to_string(), 30)));
}

#[test]
fn trie_adds_at_least_one_and_saturates() {
    let mut trie = Trie::new();
    trie.insert("a", 0);
    assert_eq!(trie.best_completion("a"), Some(("a".to_string(), 1)));
    trie.insert("a", 5);
    assert_eq!(trie.best_completion("a"), Some(("a".to_string(), 6)));
    trie.insert("a", u32::MAX);
    assert_eq!(trie.best_completion("a"), Some(("a".to_string(), u32::MAX)));
    trie.insert("a", 1);
    assert_eq!(trie.best_completion("a"), Some(("a".to_string(), u32::MAX)));
    trie.insert("", 3);
    assert_eq!(trie.best_completion(""), Some(("a".to_string(), u32::MAX)));
}

#[test]
fn trie_of_empty_subtree_has_no_completion() {
    let trie = Trie::new();
    assert_eq!(trie.best_completion(""), None);
    assert_eq!(trie.best_completion("a"), None);
}

#[test]
fn mixing_adds_a_space_between_cjk_and_ascii() {
    assert_eq!(maybe_prepend_space_for_mixed("中文", "word".to_string()), " word");
    assert_eq!(maybe_prepend_space_for_mixed("中文", "9".to_string()), " 9");
    assert_eq!(maybe_prepend_space_for_mixed("中文", " word".to_string()), " word");
    assert_eq!(maybe_prepend_space_for_mixed("中文", "_x".to_string()), "_x");
    assert_eq!(maybe_prepend_space_for_mixed("中文", "".to_string()), "");
    assert_eq!(maybe_prepend_space_for_mixed("abc", "word".to_string()), "word");
    assert_eq!(maybe_prepend_space_for_mixed("", "word".to_string()), "word");
    assert_eq!(maybe_prepend_space_for_mixed("あ", "word".to_string()), "word");
}

#[test]
fn mixing_classifies_the_last_character() {
    assert!(ends_with_ascii_word("wor"));
    assert!(ends_with_ascii_word("你_"));
    assert!(!ends_with_ascii_word("wor "));
    assert!(!ends_with_ascii_word(""));
    assert!(ends_with_cjk("a中"));
    assert!(ends_with_cjk("\u{4E00}"));
    assert!(ends_with_cjk("\u{9FFF}"));
    assert!(!ends_with_cjk("\u{4DFF}"));
    assert!(!ends_with_cjk("\u{A000}"));
    assert!(!ends_with_cjk("中a"));
    assert!(!ends_with_cjk(""));
    assert!(is_ascii_word_char('_'));
    assert!(is_ascii_word_char('z'));
    assert!(!is_ascii_word_char('-'));
    assert!(!is_ascii_word_char('é'));
}

#[test]
fn character_classes_agree_with_std() {
    for code in 0..=0x10FFFFu32 {
        if let Some(c) = char::from_u32(code) {
            assert_eq!(is_whitespace(c), c.is_whitespace(), "{code:#x}");
            assert_eq!(is_alphanumeric(c), c.is_ascii_alphanumeric(), "{code:#x}");
            assert_eq!(is_ascii_word_char(c), c.is_ascii_alphanumeric() || c == '_');
            assert_eq!(is_cjk(c), ('\u{4E00}'..='\u{9FFF}').contains(&c));
            assert_eq!(to_ascii_lower(c), c.to_ascii_lowercase());
        }
    }
}

#[test]
fn blank_agrees_with_trim() {
    for text in ["", " ", "\t\n", "\u{3000}", " a ", "a", "\u{200B}", "\u{A0}\u{85}"] {
        assert_eq!(is_blank(text), text.trim().is_empty(), "{text:?}");
    }
}

#[test]
fn strings_and_characters_convert_both_ways() {
    for text in ["", "abc", "你好 the", "😀"] {
        let chars = to_chars(text);
        assert_eq!(chars, text.chars().collect::<Vec<char>>());
        assert_eq!(from_chars(&chars), text);
    }
}

#[test]
fn decimal_numerals() {
    assert_eq!(decimal_string(0), "0");
    assert_eq!(decimal_string(7), "7");
    assert_eq!(decimal_string(10), "10");
    assert_eq!(decimal_string(120), "120");
    assert_eq!(decimal_string(u64::MAX), u64::MAX.to_string());
}

#[test]
fn base_confidence_and_conditions() {
    assert_eq!(confidence_from_freq(50), Confidence { num: 50, den: 51 });
    assert_eq!(confidence_from_freq(0), Confidence { num: 0, den: 1 });
    assert_eq!(confidence_from_freq(u32::MAX), Confidence { num: 4294967295, den: 4294967296 });
    let half = Confidence { num: 1, den: 2 };
    let less = Confidence { num: 49, den: 100 };
    assert!(gate_suggestion(2, 1, half));
    assert!(!gate_suggestion(1, 1, half));
    assert!(!gate_suggestion(2, 0, half));
    assert!(!gate_suggestion(2, 1, less));
    assert!(!gate_suggestion(0, 0, Confidence::zero()));
}

#[test]
fn length_bonus_is_capped() {
    assert_eq!(
        confidence_of_completion(0, 10),
        Confidence { num: 10, den: 50 }
    );
    assert_eq!(
        confidence_of_completion(0, 49),
        Confidence { num: 49, den: 50 }
    );
    assert_eq!(
        confidence_of_completion(0, 50),
        Confidence { num: 99, den: 100 }
    );
    assert_eq!(
        confidence_of_completion(u32::MAX, usize::MAX),
        Confidence { num: 99, den: 100 }
    );
}

fn suggest_message(id: &str, context: &str, cursor: usize) -> ClientMessage {
    ClientMessage::Suggest {
        request_id: id.to_string(),
        context: context.to_string(),
        cursor,
        language_hint: String::new(),
        max_len: 32,
        client: None,
    }
}

#[test]
fn session_answers_every_request_that_was_not_withdrawn() {
    let suggestor = BaselineSuggestor::new();
    let mut session = ClientSession::new();
    let reply = session.handle_message(&suggestor, suggest_message("r1", "hello wor", 9));
    let Some(EngineMessage::Suggestion { request_id, suggestion, confidence, replace_range }) = reply
    else {
        panic!("no reply");
    };
    assert_eq!(request_id, "r1");
    assert_eq!(suggestion, "ld");
    assert_eq!(confidence, Confidence { num: 99, den: 100 });
    assert_eq!(replace_range, [9, 9]);

    let reply = session.handle_message(&suggestor, suggest_message("r2", "hello ", 6));
    let Some(EngineMessage::Suggestion { request_id, suggestion, confidence, replace_range }) = reply
    else {
        panic!("no reply");
    };
    assert_eq!(request_id, "r2");
    assert_eq!(suggestion, "");
    assert_eq!(confidence, Confidence { num: 0, den: 1 });
    assert_eq!(as_f32(confidence), 0.0);
    assert_eq!(replace_range, [6, 6]);
}

#[test]
fn session_drops_a_withdrawn_request_once() {
    let suggestor = BaselineSuggestor::new();
    let mut session = ClientSession::new();
    let cancel = |id: &str| ClientMessage::Cancel { request_id: id.to_string() };
    assert!(session.handle_message(&suggestor, cancel("r1")).is_none());
    assert!(session.handle_message(&suggestor, cancel("r1")).is_none());
    assert!(session.handle_message(&suggestor, suggest_message("r2", "wor", 3)).is_some());
    assert!(session.handle_message(&suggestor, suggest_message("r1", "wor", 3)).is_none());
    assert!(session.handle_message(&suggestor, suggest_message("r1", "wor", 3)).is_some());
    // A cancellation that comes after its request waits for the next one.
    assert!(session.handle_message(&suggestor, cancel("r2")).is_none());
    assert!(session.handle_message(&suggestor, suggest_message("r2", "wor", 3)).is_none());
    // Another connection knows nothing of it.
    let mut other = ClientSession::new();
    assert!(session.handle_message(&suggestor, cancel("r3")).is_none());
    assert!(other.handle_message(&suggestor, suggest_message("r3", "wor", 3)).is_some());
}

#[test]
fn numbers_are_read_as_std_reads_them() {
    for text in [
        "", "+", "-", "0", "+0", "00080", "48080", "65535", "65536", "99999999999999999999", "+12",
        "-12", "12 ", " 12", "1_2", "1２", "٣", "+-1", "++1", "0x10", "12a",
    ] {
        assert_eq!(parse_u16(text), text.parse::<u16>().ok(), "{text:?}");
    }
    assert_eq!(u16_or(Some("8080".to_string()), 48080), 8080);
    assert_eq!(u16_or(Some("port".to_string()), 48080), 48080);
    assert_eq!(u16_or(None, 48080), 48080);
}

#[test]
fn personalization_keeps_nothing() {
    PersonalizationStore.bump("world");
}
