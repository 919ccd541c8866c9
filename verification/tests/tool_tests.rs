use semantic_index::search_tool::{
    render_search_results, resolved_limit, resolved_threshold, SemanticSearchInput,
    SemanticSearchTool,
};
use semantic_index::settings::{GpuEmbeddingsSettings, SemanticIndexSettings};
use semantic_index::vector_store::SearchResult;

fn result(path: &str, start: usize, end: usize, content: &str, score: i64) -> SearchResult {
    SearchResult {
        id: "1".to_string(),
        score,
        file_path: path.to_string(),
        start_line: start,
        end_line: end,
        content: content.to_string(),
        language: "rust".to_string(),
        element_type: "function".to_string(),
    }
}

#[test]
fn empty_results_render_the_fixed_sentence() {
    let results: Vec<SearchResult> = Vec::new();
    assert_eq!(
        render_search_results(&results),
        "No results found for the query."
    );
}

#[test]
fn results_render_path_lines_and_fenced_content() {
    let results = vec![result("math.rs", 0, 0, "fn add() {}", 900_000)];
    assert_eq!(
        render_search_results(&results),
        "**math.rs:0:0**\n```\nfn add() {}\n```\n\n"
    );
}

#[test]
fn several_results_render_in_order() {
    let results = vec![
        result("a.rs", 1, 2, "one", 900_000),
        result("b.rs", 30, 45, "two", 600_000),
    ];
    assert_eq!(
        render_search_results(&results),
        "**a.rs:1:2**\n```\none\n```\n\n**b.rs:30:45**\n```\ntwo\n```\n\n"
    );
}

#[test]
fn input_defaults_are_ten_and_half_similarity() {
    let bare = SemanticSearchInput {
        query: "anything".to_string(),
        limit: None,
        threshold: None,
    };
    assert_eq!(resolved_limit(&bare), 10);
    assert_eq!(resolved_threshold(&bare), 500_000);
    let set = SemanticSearchInput {
        query: "anything".to_string(),
        limit: Some(3),
        threshold: Some(250_000),
    };
    assert_eq!(resolved_limit(&set), 3);
    assert_eq!(resolved_threshold(&set), 250_000);
}

#[test]
fn tool_surface_is_fixed() {
    let tool = SemanticSearchTool;
    assert_eq!(tool.name(), "semantic_search");
    assert_eq!(
        tool.description(),
        "Search for code semantically using natural language queries"
    );
    assert!(!tool.needs_confirmation());
    assert!(!tool.may_perform_edits());
    let input = SemanticSearchInput {
        query: "integer addition".to_string(),
        limit: None,
        threshold: None,
    };
    assert_eq!(tool.ui_text(&input), "Search for: integer addition");
}

#[test]
fn settings_defaults_match_the_documented_table() {
    let s = SemanticIndexSettings::default();
    assert!(s.enabled);
    assert!(s.gpu_embeddings.is_none());
    let g = GpuEmbeddingsSettings::default();
    assert!(!g.enabled);
    assert!(g.model_path.is_none());
    assert_eq!(g.device, "auto");
    assert_eq!(g.batch_size, 32);
    assert_eq!(g.quantization, "int8");
    assert_eq!(g.qdrant_url, "http://localhost:6334");
}
