use neuropipe::kokoro::{kokoro_vocab, lookup_symbol, KOKORO_VOCAB_SIZE, phoneme_batches, known_phonemes, normalize_phonemes, split_phonemes, token_ids, TooManyTokens, MAX_PHONEME_LENGTH};
use neuropipe::sentences::{split_sentences, Quality};
use neuropipe::supertonic::{
    chunk_text, collapse_whitespace, dedupe_quotes, detect_lang, ends_with_terminator,
    fix_punctuation_spacing, index_text, is_emoji, is_protected_boundary, lang_from_code,
    normalize_symbols, preprocess, split_sentences_abbrev, steps_for_quality, flatten_style_tensor,
    StyleShapeError, StyleTensorFile,
};

#[test]
fn splits_sentences_without_losing_punctuation() {
    assert_eq!(
        split_sentences("First sentence. Second sentence!"),
        vec!["First sentence.", "Second sentence!"]
    );
}

#[test]
fn does_not_split_on_abbreviations() {
    assert_eq!(
        split_sentences("Dr. Smith is here. He left."),
        vec!["Dr. Smith is here.", "He left."]
    );
    assert_eq!(
        split_sentences("Use e.g. or i.e. in prose. Done."),
        vec!["Use e.g. or i.e. in prose.", "Done."]
    );
    assert_eq!(
        split_sentences("The U.S. is big. Really."),
        vec!["The U.S. is big.", "Really."]
    );
}

#[test]
fn does_not_split_on_decimals_or_numbers() {
    assert_eq!(split_sentences("Pi is 3.14. Yes."), vec!["Pi is 3.14.", "Yes."]);
    assert_eq!(
        split_sentences("Version 1.2 shipped. Great."),
        vec!["Version 1.2 shipped.", "Great."]
    );
}

#[test]
fn does_not_split_on_ellipses() {
    assert_eq!(split_sentences("Wait... really?"), vec!["Wait... really?"]);
}

#[test]
fn does_not_split_on_initials() {
    assert_eq!(
        split_sentences("J. R. R. Tolkien wrote it."),
        vec!["J. R. R. Tolkien wrote it."]
    );
}

#[test]
fn keeps_closing_quotes_with_sentence() {
    assert_eq!(
        split_sentences("He said \"hi.\" Then left."),
        vec!["He said \"hi.\"", "Then left."]
    );
}

#[test]
fn splits_on_newlines() {
    assert_eq!(split_sentences("Line one.\nLine two."), vec!["Line one.", "Line two."]);
}

#[test]
fn split_sentences_of_blank_text_is_one_empty_sentence() {
    assert_eq!(split_sentences(""), vec![""]);
    assert_eq!(split_sentences("   \n  "), vec![""]);
}

#[test]
fn split_sentences_keeps_unterminated_tail() {
    assert_eq!(split_sentences("One! two"), vec!["One!", "two"]);
    assert_eq!(split_sentences("no ending"), vec!["no ending"]);
}

#[test]
fn split_sentences_lowercase_continuation_does_not_split() {
    assert_eq!(split_sentences("It was 5 p.m. and late."), vec!["It was 5 p.m. and late."]);
}

#[test]
fn split_keeps_short_text_intact() {
    assert_eq!(split_phonemes("hello"), vec!["hello"]);
}

#[test]
fn normalizes_us_diphthong() {
    assert_eq!(normalize_phonemes("həlˈəʊ"), "həlˈoʊ");
}

#[test]
fn split_phonemes_bounds_every_chunk() {
    let word = "abcdefghi, ";
    let text: String = word.repeat(120);
    let chunks = split_phonemes(&text);
    assert!(chunks.len() > 1);
    for c in &chunks {
        assert!(c.chars().count() <= MAX_PHONEME_LENGTH);
        assert!(!c.is_empty());
    }
}

#[test]
fn kokoro_model_names_follow_quality() {
    assert_eq!(Quality::High.model_name(), "kokoro-v1.0.onnx");
    assert_eq!(Quality::Low.model_name(), "kokoro-v1.0.fp16.onnx");
}

#[test]
fn maps_all_supported_language_codes() {
    let expected = [
        "en", "ko", "ja", "ar", "bg", "cs", "da", "de", "el", "es", "et", "fi", "fr", "hi", "hr",
        "hu", "id", "it", "lt", "lv", "nl", "pl", "pt", "ro", "ru", "sk", "sl", "sv", "tr", "uk",
        "vi",
    ];
    let codes = [
        "eng", "kor", "jpn", "ara", "bul", "ces", "dan", "deu", "ell", "spa", "est", "fin", "fra",
        "hin", "hrv", "hun", "ind", "ita", "lit", "lav", "nld", "pol", "por", "ron", "rus", "slk",
        "slv", "swe", "tur", "ukr", "vie",
    ];
    for (code, want) in codes.iter().zip(expected.iter()) {
        assert_eq!(lang_from_code(code), *want, "code {code}");
    }
    assert_eq!(lang_from_code("nob"), "na");
    assert_eq!(lang_from_code(""), "na");
}

#[test]
fn detects_languages_on_sample_sentences() {
    let samples = [
        ("en", "This is an English sentence for testing purposes."),
        ("ko", "이것은 한국어 테스트 문장입니다."),
        ("ja", "これは日本語のテスト文です。"),
        ("ru", "Это предложение на русском языке для проверки."),
        ("hu", "Ez egy magyar mondat a teszteléshez."),
        ("vi", "Đây là một câu tiếng Việt để kiểm tra."),
        ("uk", "Це речення українською мовою для перевірки."),
        ("ar", "هذه جملة عربية للاختبار."),
        ("el", "Αυτή είναι μια ελληνική πρόταση για δοκιμή."),
        ("hi", "यह हिंदी में परीक्षण वाक्य है।"),
    ];
    for (want, text) in samples {
        assert_eq!(detect_lang(text), want, "text: {text}");
    }
}

#[test]
fn preprocess_wraps_with_lang_token_and_adds_period() {
    assert_eq!(preprocess("Hello world", "en"), "<en>Hello world.</en>");
    assert_eq!(preprocess("Bonjour!", "fr"), "<fr>Bonjour!</fr>");
}

#[test]
fn preprocess_cleans_emoji_symbols_and_whitespace() {
    assert_eq!(preprocess("Hi 😀  there", "en"), "<en>Hi there.</en>");
    assert_eq!(preprocess("Hello   , world", "en"), "<en>Hello , world.</en>");
}

#[test]
fn preprocess_expands_abbreviations() {
    assert_eq!(preprocess("mail me @ example", "en"), "<en>mail me at example.</en>");
    assert_eq!(preprocess("Use e.g., this", "en"), "<en>Use for example, this.</en>");
}

#[test]
fn preprocess_normalizes_curly_quotes_and_dashes() {
    assert_eq!(preprocess("“quoted” – dash", "en"), "<en>\"quoted\" - dash.</en>");
}

#[test]
fn indexes_text_through_indexer() {
    let indexer = vec![-1; 65536];
    assert_eq!(index_text(&indexer, "abc"), vec![-1, -1, -1]);
    assert_eq!(index_text(&indexer, "<en>x</en>"), vec![-1; 10]);
}

fn ord(c: char) -> usize {
    c as usize
}

#[test]
fn indexes_lang_token_chars() {
    let mut indexer = vec![-1; 65536];
    indexer[60] = 29;
    indexer[62] = 31;
    indexer[ord('e')] = 64;
    indexer[ord('n')] = 73;
    assert_eq!(index_text(&indexer, "<en>"), vec![29, 64, 73, 31]);
}

#[test]
fn index_text_maps_chars_beyond_indexer_to_minus_one() {
    let indexer = vec![7; 4];
    assert_eq!(index_text(&indexer, "ab"), vec![-1, -1]);
    assert_eq!(index_text(&indexer, "\u{2}"), vec![7]);
}

#[test]
fn chunks_text_merges_sentences_up_to_limit() {
    let long = "One. Two. Three.";
    let chunks = chunk_text(long, 10);
    assert_eq!(chunks, vec!["One. Two.", "Three."]);
}

#[test]
fn chunk_text_splits_on_abbreviation_protected_periods() {
    let text = "Dr. Smith went home. He slept.";
    assert_eq!(split_sentences_abbrev(text), vec!["Dr. Smith went home.", "He slept."]);
    assert_eq!(split_sentences_abbrev("Use e.g. here. Done."), vec!["Use e.g. here.", "Done."]);
    assert_eq!(split_sentences_abbrev("U.S. is big. Really."), vec!["U.S. is big.", "Really."]);
}

#[test]
fn chunk_text_keeps_paragraphs_apart() {
    let chunks = chunk_text("First part.\n\nSecond part.", 300);
    assert_eq!(chunks, vec!["First part.", "Second part."]);
}

#[test]
fn steps_follow_quality() {
    assert_eq!(steps_for_quality(Quality::Low), 4);
    assert_eq!(steps_for_quality(Quality::High), 8);
}

#[test]
fn symbol_helpers_on_single_characters() {
    assert!(is_emoji('😀'));
    assert!(!is_emoji('a'));
    assert_eq!(normalize_symbols('“'), '"');
    assert_eq!(normalize_symbols('–'), '-');
    assert_eq!(normalize_symbols('x'), 'x');
}

#[test]
fn text_cleanup_steps() {
    assert_eq!(collapse_whitespace("a   b \t c"), "a b c");
    assert_eq!(dedupe_quotes("say \"\"hi\"\""), "say \"hi\"");
    assert_eq!(fix_punctuation_spacing("a ,b"), "a,b");
    assert!(ends_with_terminator("done."));
    assert!(!ends_with_terminator("done"));
}

#[test]
fn protected_boundary_after_abbreviation() {
    let v: Vec<char> = "Dr. Smith".chars().collect();
    assert!(is_protected_boundary(&v, 3));
    let w: Vec<char> = "home. He".chars().collect();
    assert!(!is_protected_boundary(&w, 5));
}

#[test]
fn style_tensor_flattening_rejects_bad_shapes() {
    let tensor = StyleTensorFile { dims: vec![1, 2], data: vec![vec![vec![1.0, 2.0]]] };
    let flattened = flatten_style_tensor(tensor).unwrap();
    assert_eq!(flattened.0, vec![1, 2]);
    assert_eq!(flattened.1, vec![1.0, 2.0]);

    let bad = StyleTensorFile { dims: vec![1, 3], data: vec![vec![vec![1.0, 2.0]]] };
    assert!(flatten_style_tensor(bad).is_err());
}

#[test]
fn style_tensor_error_reports_counts() {
    let bad = StyleTensorFile { dims: vec![2, 2], data: vec![vec![vec![1u8], vec![2, 3]], vec![]] };
    assert_eq!(flatten_style_tensor(bad).unwrap_err(), StyleShapeError { values: 3, expected: 4 });
}

fn phoneme_vocab() -> Vec<(String, i64)> {
    vec![(" ".to_string(), 16), ("ˈ".to_string(), 156), ("h".to_string(), 50), ("ə".to_string(), 83), ("ab".to_string(), 99)]
}

#[test]
fn unknown_phonemes_are_dropped() {
    assert_eq!(known_phonemes("hˈəx a", &phoneme_vocab()), "hˈə ");
}

#[test]
fn token_ids_are_padded_with_zero() {
    assert_eq!(token_ids("hˈə h", &phoneme_vocab()), Ok(vec![0, 50, 156, 83, 16, 50, 0]));
    assert_eq!(token_ids("", &phoneme_vocab()), Ok(vec![0, 0]));
    let long = "h".repeat(MAX_PHONEME_LENGTH - 1);
    assert_eq!(token_ids(&long, &phoneme_vocab()), Err(TooManyTokens { count: MAX_PHONEME_LENGTH + 1 }));
    let fits = "h".repeat(MAX_PHONEME_LENGTH - 2);
    assert_eq!(token_ids(&fits, &phoneme_vocab()).unwrap().len(), MAX_PHONEME_LENGTH);
}

#[test]
fn phoneme_batches_normalize_filter_and_pad() {
    let vocab: Vec<(String, i64)> = vec![
        ("h".to_string(), 50), ("ə".to_string(), 83), ("l".to_string(), 54), ("ˈ".to_string(), 156),
        ("o".to_string(), 57), ("ʊ".to_string(), 135), (",".to_string(), 3), (" ".to_string(), 16),
    ];
    assert_eq!(phoneme_batches("həlˈəʊ", &vocab), Ok(vec![vec![0, 50, 83, 54, 156, 57, 135, 0]]));
    assert_eq!(phoneme_batches("h#l", &vocab), Ok(vec![vec![0, 50, 54, 0]]));
    let long = "hə, ".repeat(200);
    let batches = phoneme_batches(&long, &vocab).unwrap();
    assert!(batches.len() > 1);
    for b in &batches {
        assert!(b.len() <= MAX_PHONEME_LENGTH);
        assert_eq!(b[0], 0);
        assert_eq!(*b.last().unwrap(), 0);
    }
}

#[test]
fn vocab_has_kokoro_special_tokens() {
    let vocab = kokoro_vocab();
    assert_eq!(vocab.len(), KOKORO_VOCAB_SIZE);
    assert_eq!(lookup_symbol(&vocab, ' '), Some(16));
    assert_eq!(lookup_symbol(&vocab, 'ˈ'), Some(156));
    assert_eq!(lookup_symbol(&vocab, '#'), None);
}
