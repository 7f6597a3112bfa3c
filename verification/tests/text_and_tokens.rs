use mohe::retrieval::{clip, is_punct, is_stop, tokenize};
use mohe::prompt::tail;
use mohe::text::{join, text_contains, text_less, trim_text};

fn toks(s: &str) -> Vec<String> {
    tokenize(s)
}

#[test]
fn tokenize_chinese_grams() {
    assert_eq!(
        toks("雨夜南桥"),
        vec!["雨", "雨夜", "雨夜南", "夜", "夜南", "夜南桥", "南", "南桥", "桥"]
    );
}

#[test]
fn tokenize_skips_stop_words_but_keeps_trigrams() {
    assert_eq!(toks("他的灯"), vec!["他的", "他的灯", "的灯", "灯"]);
}

#[test]
fn tokenize_stop_bigram_dropped() {
    // "因为" is a stop word; "因为雨" is a trigram and stays.
    assert_eq!(toks("因为雨"), vec!["因", "因为雨", "为雨", "雨"]);
}

#[test]
fn tokenize_latin_words() {
    assert_eq!(toks("Hello, World"), vec!["hello", "world"]);
    assert_eq!(toks("a is AB the And"), vec!["ab"]);
}

#[test]
fn tokenize_mixed_scripts() {
    assert_eq!(toks("GPT4模型"), vec!["gpt4", "模", "模型", "型"]);
}

#[test]
fn tokenize_punctuation_splits() {
    assert_eq!(toks("灯，雨。"), vec!["灯", "雨"]);
    assert_eq!(toks(""), Vec::<String>::new());
    assert_eq!(toks("  \t\n"), Vec::<String>::new());
}

#[test]
fn tokenize_ascii_symbol_is_a_token() {
    // '@' is neither alphanumeric, white space nor listed punctuation.
    assert_eq!(toks("x@y"), vec!["@"]);
}

#[test]
fn punct_and_stop_lists() {
    assert!(is_punct('，'));
    assert!(is_punct('\\'));
    assert!(!is_punct('a'));
    assert!(is_stop(&['的']));
    assert!(is_stop(&['因', '为']));
    assert!(is_stop(&['t', 'h', 'e']));
    assert!(!is_stop(&['灯']));
}

#[test]
fn clip_cuts_and_marks() {
    assert_eq!(clip("  abcdef  ", 3), "abc…");
    assert_eq!(clip(" ab ", 3), "ab");
    assert_eq!(clip("雨夜南桥", 4), "雨夜南桥");
    assert_eq!(clip("雨夜南桥", 2), "雨夜…");
    assert_eq!(clip("", 0), "");
}

#[test]
fn tail_keeps_the_end() {
    assert_eq!(tail("  abcdef ", 3), "……def");
    assert_eq!(tail("abc", 3), "abc");
    assert_eq!(tail("   ", 5), "（尚无正文）");
}

#[test]
fn trim_and_compare() {
    assert_eq!(trim_text("\u{3000} 灯 \n"), "灯");
    assert!(text_contains("沈照在桥下", "沈照"));
    assert!(text_contains("abc", ""));
    assert!(!text_contains("ab", "abc"));
    assert!(text_less("2024-01-01", "2024-01-02"));
    assert!(!text_less("b", "a"));
    assert!(text_less("a", "ab"));
    assert!(!text_less("a", "a"));
}

#[test]
fn join_parts() {
    let parts = vec!["a".to_string(), "b".to_string(), "c".to_string()];
    assert_eq!(join(&parts, "、"), "a、b、c");
    assert_eq!(join(&Vec::new(), ","), "");
}

#[test]
fn ascii_case_never_changes_tokens() {
    for t in ["The Lamp, OF 巡灯人 AND Night-Watch 42", "沈照 Said: HELLO world", "ABC…DEF"] {
        assert_eq!(toks(t), toks(&t.to_ascii_lowercase()));
    }
}

#[test]
fn clipping_twice_is_clipping_once() {
    for (t, n) in [("  雨夜南桥下的灯  ", 3), ("短句", 10), ("  ", 0), ("abc", 0), (" 很长很长的一句话 ", 4)] {
        let once = clip(t, n);
        assert_eq!(clip(&once, n), once);
        assert_eq!(trim_text(&trim_text(t)), trim_text(t));
    }
}
