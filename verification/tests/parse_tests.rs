use ragit::rag::parse::{
    chunk_by_level, chunk_text, chunk_text_accepts, document_kind, extract_entities,
    is_supported_ext, media_kind, parse_media, DocKind, Level, MediaKind, MediaTool,
};

#[test]
fn chunk_text_blank_gives_nothing() {
    assert!(chunk_text("   \n\t ", 1000, 100).is_empty());
}

#[test]
fn chunk_text_short_text_is_one_trimmed_chunk() {
    assert_eq!(chunk_text("  hello world \n", 1000, 100), vec!["hello world".to_string()]);
}

#[test]
fn chunk_text_long_text_overlaps() {
    let text = "a".repeat(2500);
    let chunks = chunk_text(&text, 1000, 100);
    let lens: Vec<usize> = chunks.iter().map(|c| c.len()).collect();
    assert_eq!(lens, vec![1000, 1000, 700]);
}

#[test]
fn chunk_text_windows_share_the_overlap() {
    let text: String = (0..300).map(|i| char::from(b'a' + (i % 26) as u8)).collect();
    let chunks = chunk_text(&text, 100, 30);
    assert_eq!(chunks[0], &text[0..100]);
    assert_eq!(chunks[1], &text[70..170]);
    assert_eq!(&chunks[0][70..100], &chunks[1][0..30]);
    assert_eq!(chunks.len(), 4);
    assert_eq!(chunks.last().unwrap(), &text[210..300]);
}

#[test]
fn chunk_text_counts_characters() {
    let text = "\u{e9}".repeat(600);
    assert_eq!(chunk_text(&text, 1000, 100), vec![text.clone()]);
    assert_eq!(chunk_text("\u{e9}\u{e9}\u{e9}", 3, 0), vec!["\u{e9}\u{e9}\u{e9}".to_string()]);
    assert_eq!(
        chunk_text("\u{e9}\u{e9}\u{e9}", 2, 0),
        vec!["\u{e9}\u{e9}".to_string(), "\u{e9}".to_string()]
    );
    let long = "\u{e9}".repeat(1500);
    let chunks = chunk_text(&long, 1000, 100);
    let counts: Vec<usize> = chunks.iter().map(|c| c.chars().count()).collect();
    assert_eq!(counts, vec![1000, 600]);
}

#[test]
fn chunk_text_accepts_only_moving_windows() {
    assert!(chunk_text_accepts(&"\u{e9}".repeat(600), 999, 100));
    assert!(chunk_text_accepts("short", 10, 20));
    assert!(!chunk_text_accepts(&"x".repeat(50), 10, 10));
    assert!(chunk_text_accepts(&"x".repeat(50), 10, 9));
}

#[test]
fn structure_chunks_carry_their_section() {
    let text = "intro line\n# Title\nline one\nline two\n## Next\nmore\n";
    let chunks = chunk_by_level(text, Level::Structure);
    assert_eq!(
        chunks,
        vec![
            "[section: (document start)]\nintro line\n".to_string(),
            "[section: Title]\nline one\nline two\n".to_string(),
            "[section: Next]\nmore\n".to_string(),
        ]
    );
}

#[test]
fn structure_chunks_of_code_markers() {
    let chunks = chunk_by_level("  // === Config\nkey = 1\n", Level::Structure);
    assert_eq!(chunks, vec!["[section: // === Config]\nkey = 1\n".to_string()]);
}

#[test]
fn structure_chunks_fall_back_to_the_whole_text() {
    assert_eq!(chunk_by_level("# Only a heading", Level::Dense), vec!["# Only a heading".to_string()]);
    assert_eq!(chunk_by_level("", Level::Structure), vec![String::new()]);
}

#[test]
fn structure_chunks_split_long_sections() {
    let line = "x".repeat(99);
    let text: String = (0..10).map(|_| format!("{line}\n")).collect();
    let chunks = chunk_by_level(&text, Level::Structure);
    assert_eq!(chunks.len(), 2);
    assert_eq!(chunks[0], format!("[section: (document start)]\n{}", format!("{line}\n").repeat(9)));
    assert_eq!(chunks[1], format!("[section: (document start)]\n{line}\n"));
}

#[test]
fn raw_level_uses_windows() {
    assert_eq!(chunk_by_level("  some text  ", Level::Raw), vec!["some text".to_string()]);
}

#[test]
fn level_numbers_round_trip() {
    assert_eq!(Level::from_u8(1), Level::Raw);
    assert_eq!(Level::from_u8(3), Level::Summaries);
    assert_eq!(Level::from_u8(0), Level::Rerank);
    assert_eq!(Level::from_u8(200), Level::Rerank);
    for v in 1u8..=5 {
        assert_eq!(Level::from_u8(v).as_u8(), v);
    }
}

#[test]
fn entities_are_capitalized_words_once() {
    assert_eq!(
        extract_entities("Alice met BOB and alice in Paris at NASA hq"),
        vec!["Alice".to_string(), "BOB".to_string(), "Paris".to_string(), "NASA".to_string()]
    );
    assert_eq!(extract_entities("Alice ALICE alice"), vec!["Alice".to_string()]);
    assert_eq!(extract_entities("O'Neil went; Bob's car"), vec!["O'Neil".to_string(), "Bob's".to_string()]);
}

#[test]
fn entities_are_capped_at_twenty() {
    let text: String = (0..30).map(|i| format!("Name{i:02} ")).collect();
    let ents = extract_entities(&text);
    assert_eq!(ents.len(), 20);
    assert_eq!(ents[0], "Name00");
    assert_eq!(ents[19], "Name19");
}

#[test]
fn document_kinds_ignore_case() {
    assert_eq!(document_kind("MD"), Some(DocKind::Text));
    assert_eq!(document_kind("csv"), Some(DocKind::Text));
    assert_eq!(document_kind("Pdf"), Some(DocKind::Pdf));
    assert_eq!(document_kind("htm"), Some(DocKind::Html));
    assert_eq!(document_kind("docx"), Some(DocKind::Docx));
    assert_eq!(document_kind("exe"), None);
}

#[test]
fn media_kinds_and_tools() {
    assert_eq!(media_kind("JPG"), Some(MediaKind::Image));
    assert_eq!(media_kind("flac"), Some(MediaKind::Audio));
    assert_eq!(media_kind("mkv"), Some(MediaKind::Video));
    assert_eq!(media_kind("txt"), None);
    assert_eq!(parse_media("png"), vec![MediaTool::DescribeImage]);
    assert_eq!(parse_media("WAV"), vec![MediaTool::Transcribe]);
    assert_eq!(parse_media("mp4"), vec![MediaTool::DescribeFrames, MediaTool::Transcribe]);
    assert!(parse_media("txt").is_empty());
}

#[test]
fn supported_extensions() {
    assert!(is_supported_ext("RS"));
    assert!(is_supported_ext("epub"));
    assert!(is_supported_ext("webm"));
    assert!(!is_supported_ext("zip"));
    assert!(!is_supported_ext(""));
}
