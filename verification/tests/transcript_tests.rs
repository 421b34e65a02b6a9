use whisper_desktop::text::{is_space_char, str_eq, trim, trim_end};
use whisper_desktop::transcribe::{language_option, thread_count, TranscribeError, TranscriptBuilder};

#[test]
fn trim_matches_std_trim() {
    let cases = [
        "",
        "   ",
        "  hello ",
        "\u{3000}こんにちは\u{3000}",
        "\u{a0}\u{2003}x y\u{2029}\n",
        "a",
        "\t\r\n 日本語 テキスト \u{85}",
        "\u{200b}zero width\u{200b}",
    ];
    for c in cases {
        assert_eq!(trim(c), c.trim(), "trim of {:?}", c);
        assert_eq!(trim_end(c), c.trim_end(), "trim_end of {:?}", c);
    }
}

#[test]
fn space_classification_matches_std() {
    for u in 0u32..0x3100 {
        if let Some(c) = char::from_u32(u) {
            assert_eq!(is_space_char(c), c.is_whitespace(), "U+{:04X}", u);
        }
    }
}

#[test]
fn str_eq_compares_contents() {
    assert!(str_eq("abc", "abc"));
    assert!(!str_eq("abc", "abd"));
    assert!(!str_eq("abc", "ab"));
    assert!(str_eq("", ""));
}

#[test]
fn transcript_joins_trimmed_nonempty_lines() {
    let mut b = TranscriptBuilder::new();
    b.push(0, 150, " こんにちは。");
    b.push(150, 300, "   ");
    b.push(300, 420, "今日は晴れです。 \n");
    let r = b.finish();
    assert_eq!(r.text, "こんにちは。\n今日は晴れです。");
    assert_eq!(r.segments.len(), 3);
    assert_eq!(r.segments[0].start, 0);
    assert_eq!(r.segments[0].end, 150);
    assert_eq!(r.segments[0].text, "こんにちは。");
    assert_eq!(r.segments[1].text, "");
    assert_eq!(r.segments[1].start, 150);
    assert_eq!(r.segments[2].text, "今日は晴れです。");
    assert_eq!(r.segments[2].end, 420);
}

#[test]
fn transcript_equals_trimmed_concatenation() {
    let raw = [" a", "", "b  ", "\n", " c d "];
    let mut b = TranscriptBuilder::new();
    let mut full = String::new();
    for (i, t) in raw.iter().enumerate() {
        b.push(i as i64, i as i64 + 1, t);
        let trimmed = t.trim();
        if !trimmed.is_empty() {
            full.push_str(trimmed);
            full.push('\n');
        }
    }
    let r = b.finish();
    assert_eq!(r.text, full.trim_end());
    assert_eq!(r.text, "a\nb\nc d");
}

#[test]
fn empty_transcript() {
    let r = TranscriptBuilder::new().finish();
    assert_eq!(r.text, "");
    assert!(r.segments.is_empty());
    let mut b = TranscriptBuilder::new();
    b.push(0, 10, " \u{3000} ");
    let r = b.finish();
    assert_eq!(r.text, "");
    assert_eq!(r.segments.len(), 1);
}

#[test]
fn language_auto_means_detection() {
    assert_eq!(language_option("auto"), None);
    assert_eq!(language_option("ja"), Some("ja"));
    assert_eq!(language_option("Auto"), Some("Auto"));
    assert_eq!(language_option(""), Some(""));
}

#[test]
fn thread_count_defaults_to_four() {
    assert_eq!(thread_count(None), 4);
    assert_eq!(thread_count(Some(8)), 8);
    assert_eq!(thread_count(Some(1)), 1);
}

#[test]
fn transcribe_error_messages() {
    assert_eq!(TranscribeError::ModelPath.message(), "モデルパスが不正です");
    assert_eq!(
        TranscribeError::ModelLoad("e".to_string()).message(),
        "モデル読み込み失敗: e"
    );
    assert_eq!(
        TranscribeError::SegmentEnd("x".to_string()).message(),
        "終了時刻取得に失敗: x"
    );
}

#[test]
fn transcripts_can_be_cloned() {
    let mut b = TranscriptBuilder::new();
    b.push(0, 5, " x ");
    let r = b.finish();
    let c = r.clone();
    assert_eq!(c.text, "x");
    assert_eq!(c.segments.len(), 1);
    let s = c.segments[0].clone();
    assert_eq!((s.start, s.end, s.text.as_str()), (0, 5, "x"));
}
