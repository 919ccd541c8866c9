use semantic_index::chunking::{chunk_text, chunk_text_simple};
use semantic_index::code_parsers::{chunk_by_lines, detect_language, split_lines, CodeParser};

#[test]
fn test_rust_parsing() {
    let parser = CodeParser::new().unwrap();
    let content = r#"
fn hello() {
    println!("Hello, world!");
}

struct MyStruct {
    field: i32,
}

impl MyStruct {
    fn new() -> Self {
        Self { field: 0 }
    }
}
"#;

    let chunks = parser.get_chunks("test.rs", content.as_bytes()).unwrap();
    assert!(!chunks.is_empty());
    assert!(chunks.iter().any(|c| c.element_type == "function"));
    assert!(chunks.iter().any(|c| c.element_type == "struct"));
    assert!(chunks.iter().any(|c| c.element_type == "impl"));
}

#[test]
fn grammar_chunks_are_exact_regions_and_reparse_to_same_kind() {
    let parser = CodeParser::new().unwrap();
    let source = "fn hello() { println!(\"Hello, world!\"); }\nstruct MyStruct { field: i32 }\nimpl MyStruct { fn new() -> Self { Self { field: 0 } } }\n";
    let chunks = parser
        .get_chunks_from_content(source.as_bytes(), "rust")
        .unwrap();
    assert!(chunks.len() >= 3);
    for c in &chunks {
        assert_eq!(&source.as_bytes()[c.start_byte..c.end_byte], &c.content[..]);
        let again = parser
            .get_chunks_from_content(&c.content, "rust")
            .unwrap();
        assert!(again.iter().any(|d| d.element_type == c.element_type));
    }
    let kinds: Vec<&str> = chunks.iter().map(|c| c.element_type.as_str()).collect();
    assert!(kinds.contains(&"function"));
    assert!(kinds.contains(&"struct"));
    assert!(kinds.contains(&"impl"));
}

#[test]
fn line_window_fallback_for_unknown_extension() {
    let mut text = String::new();
    for n in 1..=125 {
        text.push_str(&format!("line {}\n", n));
    }
    let parser = CodeParser::new().unwrap();
    let chunks = parser.get_chunks("x.unknown", text.as_bytes()).unwrap();
    assert_eq!(chunks.len(), 3);
    let starts: Vec<usize> = chunks.iter().map(|c| c.start_line).collect();
    let ends: Vec<usize> = chunks.iter().map(|c| c.end_line).collect();
    assert_eq!(starts, vec![0, 50, 100]);
    assert_eq!(ends, vec![49, 99, 124]);
    assert!(chunks.iter().all(|c| c.element_type == "code_block"));
}

#[test]
fn supported_language_with_zero_matches_falls_back_to_line_windows() {
    let parser = CodeParser::new().unwrap();
    // Valid Rust source with none of the captured node kinds.
    let source = "// just a comment\n// another comment\n";
    let chunks = parser
        .get_chunks_from_content(source.as_bytes(), "rust")
        .unwrap();
    assert_eq!(chunks.len(), 1);
    assert_eq!(chunks[0].element_type, "code_block");
    assert_eq!(chunks[0].start_line, 0);
    assert_eq!(chunks[0].end_line, 1);
}

#[test]
fn detect_language_maps_known_extensions() {
    assert_eq!(detect_language("src/main.rs"), "rust");
    assert_eq!(detect_language("a.js"), "javascript");
    assert_eq!(detect_language("a.jsx"), "javascript");
    assert_eq!(detect_language("a.ts"), "typescript");
    assert_eq!(detect_language("a.tsx"), "typescript");
    assert_eq!(detect_language("a.py"), "python");
    assert_eq!(detect_language("a.go"), "go");
    assert_eq!(detect_language("a.txt"), "unknown");
    assert_eq!(detect_language("rs"), "unknown");
}

#[test]
fn byte_windows_partition_the_text() {
    let mut text = String::new();
    for n in 0..300 {
        text.push_str(&format!("some line of text number {}\n", n));
    }
    let chunks = chunk_text_simple(text.as_bytes(), 1000);
    assert!(!chunks.is_empty());
    assert_eq!(chunks[0].range.start, 0);
    let mut expected_start = 0;
    for c in &chunks {
        assert_eq!(c.range.start, expected_start);
        assert!(c.range.end > c.range.start);
        assert!(c.range.end - c.range.start <= 1000);
        assert_eq!(&text.as_bytes()[c.range.start..c.range.end], &c.content[..]);
        assert_eq!(c.element_type, "text_block");
        expected_start = c.range.end;
    }
    assert_eq!(expected_start, text.len());
}

#[test]
fn byte_windows_prefer_newline_breaks() {
    let mut text = String::new();
    for n in 0..60 {
        text.push_str(&format!("word {}\n", n));
    }
    let chunks = chunk_text_simple(text.as_bytes(), 100);
    for c in &chunks[..chunks.len() - 1] {
        assert_eq!(c.content.last(), Some(&b'\n'));
    }
}

#[test]
fn chunk_text_without_language_uses_byte_windows() {
    let text = "abc\ndef\n";
    let chunks = chunk_text(text.as_bytes(), None).unwrap();
    assert_eq!(chunks.len(), 1);
    assert_eq!(chunks[0].range.start, 0);
    assert_eq!(chunks[0].range.end, text.len());
    assert_eq!(chunks[0].element_type, "text_block");
}

#[test]
fn chunk_text_with_language_uses_grammar_ranges() {
    let source = "fn add(a: i32, b: i32) -> i32 { a + b }\n";
    let chunks = chunk_text(source.as_bytes(), Some("rust")).unwrap();
    assert!(chunks.iter().any(|c| c.element_type == "function"));
    for c in &chunks {
        assert_eq!(&source.as_bytes()[c.range.start..c.range.end], &c.content[..]);
    }
}

#[test]
fn split_lines_matches_str_lines() {
    let text = "alpha\nbeta\r\n\ngamma";
    let ours: Vec<Vec<u8>> = split_lines(text.as_bytes())
        .into_iter()
        .map(|l| l.content)
        .collect();
    let std_lines: Vec<Vec<u8>> = text.lines().map(|l| l.as_bytes().to_vec()).collect();
    assert_eq!(ours, std_lines);
}

#[test]
fn chunk_by_lines_joins_window_contents() {
    let text = "a\nb\nc\nd\ne\n";
    let chunks = chunk_by_lines(text.as_bytes(), 2);
    assert_eq!(chunks.len(), 3);
    assert_eq!(chunks[0].content, b"a\nb".to_vec());
    assert_eq!(chunks[1].content, b"c\nd".to_vec());
    assert_eq!(chunks[2].content, b"e".to_vec());
    assert_eq!(chunks[1].start_line, 2);
    assert_eq!(chunks[1].end_line, 3);
    assert_eq!(chunks[2].start_line, 4);
    assert_eq!(chunks[2].end_line, 4);
}
