use vstd::prelude::*;
use streaming_iterator::StreamingIterator;

verus! {

// tree-sitter's handles are opaque to the verifier: a grammar and a compiled
// query.
#[verifier::external_type_specification]
#[verifier::external_body]
pub struct ExTsLanguage(tree_sitter::Language);

#[verifier::external_type_specification]
#[verifier::external_body]
pub struct ExTsQuery(tree_sitter::Query);

/// The Rust grammar together with a capture query compiled against it, or
/// `None` when the pattern source does not compile: a function of the
/// source alone, the grammar being a fixed constant.
pub uninterp spec fn spec_rust_query(source: Seq<char>) -> Option<
    (tree_sitter::Language, tree_sitter::Query),
>;

/// The JavaScript grammar with a capture query compiled against it.
pub uninterp spec fn spec_javascript_query(source: Seq<char>) -> Option<
    (tree_sitter::Language, tree_sitter::Query),
>;

/// The Python grammar with a capture query compiled against it.
pub uninterp spec fn spec_python_query(source: Seq<char>) -> Option<
    (tree_sitter::Language, tree_sitter::Query),
>;

/// The Go grammar with a capture query compiled against it.
pub uninterp spec fn spec_go_query(source: Seq<char>) -> Option<
    (tree_sitter::Language, tree_sitter::Query),
>;

/// Relies on tree_sitter::Query::new against the Rust grammar crate's
/// grammar constant: compilation succeeds or fails, and yields the same
/// compiled query, as a function of the pattern source alone.
#[verifier::external_body]
pub(crate) fn compile_rust_query(source: &str) -> (r: Option<
    (tree_sitter::Language, tree_sitter::Query),
>)
    ensures
        r == spec_rust_query(source@),
{
    let language: tree_sitter::Language = tree_sitter_rust::LANGUAGE.into();
    match tree_sitter::Query::new(&language, source) {
        Ok(query) => Some((language, query)),
        Err(_) => None,
    }
}

/// Relies on tree_sitter::Query::new against the JavaScript grammar crate's
/// grammar constant.
#[verifier::external_body]
pub(crate) fn compile_javascript_query(source: &str) -> (r: Option<
    (tree_sitter::Language, tree_sitter::Query),
>)
    ensures
        r == spec_javascript_query(source@),
{
    let language: tree_sitter::Language = tree_sitter_javascript::LANGUAGE.into();
    match tree_sitter::Query::new(&language, source) {
        Ok(query) => Some((language, query)),
        Err(_) => None,
    }
}

/// Relies on tree_sitter::Query::new against the Python grammar crate's
/// grammar constant.
#[verifier::external_body]
pub(crate) fn compile_python_query(source: &str) -> (r: Option<
    (tree_sitter::Language, tree_sitter::Query),
>)
    ensures
        r == spec_python_query(source@),
{
    let language: tree_sitter::Language = tree_sitter_python::LANGUAGE.into();
    match tree_sitter::Query::new(&language, source) {
        Ok(query) => Some((language, query)),
        Err(_) => None,
    }
}

/// Relies on tree_sitter::Query::new against the Go grammar crate's grammar
/// constant.
#[verifier::external_body]
pub(crate) fn compile_go_query(source: &str) -> (r: Option<
    (tree_sitter::Language, tree_sitter::Query),
>)
    ensures
        r == spec_go_query(source@),
{
    let language: tree_sitter::Language = tree_sitter_go::LANGUAGE.into();
    match tree_sitter::Query::new(&language, source) {
        Ok(query) => Some((language, query)),
        Err(_) => None,
    }
}

/// The capture names of a compiled query, one per capture index, in index
/// order: a function of the query alone.
pub uninterp spec fn spec_capture_names_of(query: tree_sitter::Query) -> Seq<Seq<char>>;

/// Relies on Query::capture_names: one name per capture index, in order,
/// read off the compiled query.
#[verifier::external_body]
pub(crate) fn query_capture_names(query: &tree_sitter::Query) -> (r: Vec<String>)
    ensures
        r.deep_view() == spec_capture_names_of(*query),
{
    query.capture_names().iter().map(|s| (*s).to_owned()).collect()
}

/// One captured node, as plain numbers: its byte range, its row range and
/// the index of the capture name it matched.
pub struct RawCapture {
    pub start_byte: usize,
    pub end_byte: usize,
    pub start_row: usize,
    pub end_row: usize,
    pub capture_index: usize,
}

/// The captures that parsing `text` under `language` and running `query`
/// from the root of the tree yields, in match order, or `None` when the
/// grammar cannot be assigned to a parser or no tree is built: a function of
/// the grammar, the query and the bytes alone.
pub uninterp spec fn spec_captures_of(
    language: tree_sitter::Language,
    query: tree_sitter::Query,
    text: Seq<u8>,
) -> Option<Seq<RawCapture>>;

/// Relies on Parser::parse and QueryCursor::matches run from the root of the
/// parsed tree: a fresh parser set to `language` parses `text`, and every
/// capture of every match is read off, in match order, as its node's byte
/// offsets, row numbers and capture index. The streaming-iterator protocol
/// is the only way the crate hands matches out, so the loop reads them one
/// by one. Parsing and matching are functions of the grammar, the query and
/// the bytes alone; `None` when the grammar cannot be assigned or no tree is
/// built.
#[verifier::external_body]
pub(crate) fn parse_and_capture(
    language: &tree_sitter::Language,
    query: &tree_sitter::Query,
    text: &[u8],
) -> (r: Option<Vec<RawCapture>>)
    ensures
        match r {
            Some(caps) => Some(caps@) == spec_captures_of(*language, *query, text@),
            None => spec_captures_of(*language, *query, text@) is None,
        },
{
    let mut parser = tree_sitter::Parser::new();
    if parser.set_language(language).is_err() {
        return None;
    }
    let tree = parser.parse(text, None)?;
    let mut cursor = tree_sitter::QueryCursor::new();
    let mut matches = cursor.matches(query, tree.root_node(), text);
    let mut out = Vec::new();
    while let Some(m) = matches.next() {
        for c in m.captures() {
            out.push(RawCapture { start_byte: c.node.start_byte(), end_byte: c.node.end_byte(), start_row: c.node.start_position().row, end_row: c.node.end_position().row, capture_index: c.index as usize });
        }
    }
    Some(out)
}

} // verus!
