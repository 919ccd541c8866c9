use vstd::prelude::*;
use vstd::string::*;

use crate::grammars::{
    RawCapture, compile_go_query, compile_javascript_query, compile_python_query,
    compile_rust_query, parse_and_capture, query_capture_names, spec_capture_names_of,
    spec_captures_of, spec_go_query, spec_javascript_query, spec_python_query, spec_rust_query,
};

verus! {

/// One semantic slice of a source file: its line range, its byte range, the
/// exact bytes of the region, and the kind of syntax node it came from.
pub struct CodeChunk {
    /// First line of the region, zero-based, inclusive.
    pub start_line: usize,
    /// Last line of the region, zero-based, inclusive.
    pub end_line: usize,
    /// First byte of the region in the source text.
    pub start_byte: usize,
    /// One past the last byte of the region in the source text.
    pub end_byte: usize,
    /// The bytes of the region.
    pub content: Vec<u8>,
    /// Capture name of the grammar node (`"function"`, `"struct"`, ...), or
    /// `"code_block"` for a line-window chunk.
    pub element_type: String,
}

/// Mathematical image of a `CodeChunk`.
#[verifier::ext_equal]
pub struct CodeChunkView {
    pub start_line: int,
    pub end_line: int,
    pub start_byte: int,
    pub end_byte: int,
    pub content: Seq<u8>,
    pub element_type: Seq<char>,
}

impl View for CodeChunk {
    type V = CodeChunkView;

    open spec fn view(&self) -> CodeChunkView {
        CodeChunkView {
            start_line: self.start_line as int,
            end_line: self.end_line as int,
            start_byte: self.start_byte as int,
            end_byte: self.end_byte as int,
            content: self.content@,
            element_type: self.element_type@,
        }
    }
}

impl DeepView for CodeChunk {
    type V = CodeChunkView;

    open spec fn deep_view(&self) -> CodeChunkView {
        self@
    }
}

/// One line of a text: the byte offset where it starts and its bytes, with
/// the line terminator (and a carriage return before it) removed.
pub struct Line {
    pub start: usize,
    pub content: Vec<u8>,
}

#[verifier::ext_equal]
pub struct LineView {
    pub start: int,
    pub content: Seq<u8>,
}

impl View for Line {
    type V = LineView;

    open spec fn view(&self) -> LineView {
        LineView { start: self.start as int, content: self.content@ }
    }
}

impl DeepView for Line {
    type V = LineView;

    open spec fn deep_view(&self) -> LineView {
        self@
    }
}

/// Position of the first occurrence of `b` in `text[lo..]`, if any.
pub open spec fn spec_find_byte(text: Seq<u8>, lo: int, b: u8) -> Option<int>
    decreases text.len() - lo,
    when 0 <= lo <= text.len()
{
    if lo >= text.len() {
        None
    } else if text[lo] == b {
        Some(lo)
    } else {
        spec_find_byte(text, lo + 1, b)
    }
}

pub proof fn lemma_find_byte_bounds(text: Seq<u8>, lo: int, b: u8)
    requires
        0 <= lo <= text.len(),
    ensures
        match spec_find_byte(text, lo, b) {
            Some(i) => lo <= i < text.len() && text[i] == b,
            None => forall|j: int| lo <= j < text.len() ==> text[j] != b,
        },
    decreases text.len() - lo,
{
    if lo < text.len() && text[lo] != b {
        lemma_find_byte_bounds(text, lo + 1, b);
    }
}

/// A line's bytes with a trailing carriage return removed.
pub open spec fn spec_strip_cr(line: Seq<u8>) -> Seq<u8> {
    if line.len() > 0 && line[line.len() - 1] == 13u8 {
        line.drop_last()
    } else {
        line
    }
}

/// The lines of `text[pos..]`, split at line feeds, each with its absolute
/// start offset, its terminator (and a carriage return before it) removed.
pub open spec fn spec_lines_from(text: Seq<u8>, pos: int) -> Seq<LineView>
    decreases text.len() - pos,
    when 0 <= pos <= text.len()
    via spec_lines_from_decreases
{
    if pos >= text.len() {
        Seq::empty()
    } else {
        match spec_find_byte(text, pos, 10u8) {
            Some(i) => seq![
                LineView { start: pos, content: spec_strip_cr(text.subrange(pos, i)) },
            ] + spec_lines_from(text, i + 1),
            None => seq![
                LineView {
                    start: pos,
                    content: spec_strip_cr(text.subrange(pos, text.len() as int)),
                },
            ],
        }
    }
}

#[via_fn]
proof fn spec_lines_from_decreases(text: Seq<u8>, pos: int) {
    if pos < text.len() {
        lemma_find_byte_bounds(text, pos, 10u8);
    }
}

/// Position of the first occurrence of `b` in `text[lo..]`.
fn find_byte(text: &[u8], lo: usize, b: u8) -> (r: Option<usize>)
    requires
        lo <= text@.len(),
    ensures
        match r {
            Some(i) => Some(i as int) == spec_find_byte(text@, lo as int, b),
            None => spec_find_byte(text@, lo as int, b) is None,
        },
{
    let mut i: usize = lo;
    while i < text.len()
        invariant
            lo <= i <= text@.len(),
            spec_find_byte(text@, lo as int, b) == spec_find_byte(text@, i as int, b),
        decreases text@.len() - i,
    {
        if text[i] == b {
            return Some(i);
        }
        i = i + 1;
    }
    None
}

/// Copy `text[lo..hi]` with a trailing carriage return removed.
fn extract_line_content(text: &[u8], lo: usize, hi: usize) -> (r: Vec<u8>)
    requires
        lo <= hi <= text@.len(),
    ensures
        r@ == spec_strip_cr(text@.subrange(lo as int, hi as int)),
{
    let hi2 = if hi > lo && text[hi - 1] == 13u8 {
        hi - 1
    } else {
        hi
    };
    let r = vstd::slice::slice_to_vec(&text[lo..hi2]);
    proof {
        assert(r@ =~= spec_strip_cr(text@.subrange(lo as int, hi as int)));
    }
    r
}

/// Split a text into its lines, as `str::lines` does: at line feeds, with an
/// optional final terminator, a trailing carriage return stripped from each
/// line.
pub fn split_lines(text: &[u8]) -> (r: Vec<Line>)
    ensures
        r.deep_view() == spec_lines_from(text@, 0),
{
    let mut lines: Vec<Line> = Vec::new();
    let mut pos: usize = 0;
    while pos < text.len()
        invariant
            pos <= text@.len(),
            spec_lines_from(text@, 0) == lines.deep_view() + spec_lines_from(text@, pos as int),
        decreases text@.len() - pos,
    {
        proof {
            lemma_find_byte_bounds(text@, pos as int, 10u8);
        }
        let ghost prev = lines.deep_view();
        let next_pos: usize;
        match find_byte(text, pos, 10u8) {
            Some(i) => {
                let content = extract_line_content(text, pos, i);
                lines.push(Line { start: pos, content });
                next_pos = i + 1;
            },
            None => {
                let content = extract_line_content(text, pos, text.len());
                lines.push(Line { start: pos, content });
                next_pos = text.len();
            },
        }
        proof {
            let lv = spec_lines_from(text@, pos as int)[0];
            assert(lines.deep_view() =~= prev.push(lv));
            assert(prev + spec_lines_from(text@, pos as int) =~= lines.deep_view()
                + spec_lines_from(text@, next_pos as int));
        }
        pos = next_pos;
    }
    proof {
        assert(lines.deep_view() + spec_lines_from(text@, pos as int) =~= lines.deep_view());
    }
    lines
}

/// The contents of `lines[s..e]` joined with single line feeds.
pub open spec fn spec_join_lines(lines: Seq<LineView>, s: int, e: int) -> Seq<u8>
    decreases e - s,
{
    if s >= e || s < 0 || e > lines.len() {
        Seq::empty()
    } else if s == e - 1 {
        lines[s].content
    } else {
        lines[s].content + seq![10u8] + spec_join_lines(lines, s + 1, e)
    }
}

fn join_lines(lines: &Vec<Line>, s: usize, e: usize) -> (r: Vec<u8>)
    requires
        s < e <= lines@.len(),
    ensures
        r@ == spec_join_lines(lines.deep_view(), s as int, e as int),
{
    let ghost dv = lines.deep_view();
    let ghost whole = spec_join_lines(dv, s as int, e as int);
    let mut r: Vec<u8> = Vec::new();
    let mut i: usize = s;
    while i < e
        invariant
            s <= i <= e <= lines@.len(),
            s < e,
            dv == lines.deep_view(),
            whole == spec_join_lines(dv, s as int, e as int),
            i == s ==> r@ =~= Seq::<u8>::empty(),
            s < i < e ==> whole == r@ + seq![10u8] + spec_join_lines(dv, i as int, e as int),
            i == e ==> whole == r@,
        decreases e - i,
    {
        let ghost prev = r@;
        if i > s {
            r.push(10u8);
        }
        let mut line_bytes = vstd::slice::slice_to_vec(lines[i].content.as_slice());
        r.append(&mut line_bytes);
        proof {
            let ci = dv[i as int].content;
            assert(dv[i as int] == lines@[i as int].deep_view());
            if i == s {
                assert(r@ =~= ci);
            } else {
                assert(r@ =~= prev + seq![10u8] + ci);
            }
            if i + 1 == e {
                if i == s {
                    assert(whole =~= r@);
                } else {
                    assert(spec_join_lines(dv, i as int, e as int) == ci);
                    assert(whole =~= r@);
                }
            } else {
                assert(spec_join_lines(dv, i as int, e as int) == ci + seq![10u8]
                    + spec_join_lines(dv, i + 1, e as int));
                assert(whole =~= r@ + seq![10u8] + spec_join_lines(dv, i + 1, e as int));
            }
        }
        i = i + 1;
    }
    r
}

pub proof fn lemma_lines_from_wf(text: Seq<u8>, pos: int)
    requires
        0 <= pos <= text.len(),
    ensures
        forall|k: int|
            0 <= k < spec_lines_from(text, pos).len() ==> {
                let line = #[trigger] spec_lines_from(text, pos)[k];
                pos <= line.start && line.start + line.content.len() <= text.len()
            },
    decreases text.len() - pos,
{
    if pos < text.len() {
        lemma_find_byte_bounds(text, pos, 10u8);
        let l = spec_lines_from(text, pos);
        match spec_find_byte(text, pos, 10u8) {
            Some(i) => {
                lemma_lines_from_wf(text, i + 1);
                let rest = spec_lines_from(text, i + 1);
                assert forall|k: int| 0 <= k < l.len() implies {
                    let line = #[trigger] l[k];
                    pos <= line.start && line.start + line.content.len() <= text.len()
                } by {
                    if k == 0 {
                        assert(l[0].content.len() <= text.subrange(pos, i).len());
                    } else {
                        assert(l[k] == rest[k - 1]);
                    }
                }
            },
            None => {
                assert(l[0].content.len() <= text.subrange(pos, text.len() as int).len());
            },
        }
    }
}

/// The chunks that a window of `cs` lines at a time makes of `lines[s..]`:
/// each window's content is its lines joined with line feeds, its label
/// `"code_block"`, and its byte range runs from the start of its first line
/// to the end of its last line's content.
pub open spec fn spec_line_windows(lines: Seq<LineView>, cs: int, s: int) -> Seq<CodeChunkView>
    decreases lines.len() - s,
    when 0 <= s && 1 <= cs
{
    if s >= lines.len() {
        Seq::empty()
    } else {
        let e = if s + cs <= lines.len() {
            s + cs
        } else {
            lines.len() as int
        };
        seq![
            CodeChunkView {
                start_line: s,
                end_line: e - 1,
                start_byte: lines[s].start,
                end_byte: lines[e - 1].start + lines[e - 1].content.len(),
                content: spec_join_lines(lines, s, e),
                element_type: "code_block"@,
            },
        ] + spec_line_windows(lines, cs, e)
    }
}

/// Chunk a text into fixed windows of `chunk_size` lines, each labelled
/// `"code_block"`; the fallback when no grammar matches.
pub fn chunk_by_lines(content: &[u8], chunk_size: usize) -> (r: Vec<CodeChunk>)
    requires
        1 <= chunk_size,
    ensures
        r.deep_view() == spec_line_windows(
            spec_lines_from(content@, 0),
            chunk_size as int,
            0,
        ),
{
    let lines = split_lines(content);
    proof {
        lemma_lines_from_wf(content@, 0);
    }
    let mut chunks: Vec<CodeChunk> = Vec::new();
    let mut s: usize = 0;
    while s < lines.len()
        invariant
            1 <= chunk_size,
            s <= lines@.len(),
            lines.deep_view() == spec_lines_from(content@, 0),
            forall|k: int|
                0 <= k < lines.deep_view().len() ==> {
                    let line = #[trigger] lines.deep_view()[k];
                    0 <= line.start && line.start + line.content.len() <= content@.len()
                },
            spec_line_windows(lines.deep_view(), chunk_size as int, 0) == chunks.deep_view()
                + spec_line_windows(lines.deep_view(), chunk_size as int, s as int),
        decreases lines@.len() - s,
    {
        let e = if chunk_size <= lines.len() - s {
            s + chunk_size
        } else {
            lines.len()
        };
        let total = content.len();
        let window_content = join_lines(&lines, s, e);
        let start_byte = lines[s].start;
        assert(lines.deep_view()[e - 1] == lines@[e - 1].deep_view());
        assert(lines@[e - 1].deep_view().start + lines@[e - 1].deep_view().content.len()
            <= total);
        let end_byte = lines[e - 1].start + lines[e - 1].content.len();
        let chunk = CodeChunk {
            start_line: s,
            end_line: e - 1,
            start_byte,
            end_byte,
            content: window_content,
            element_type: "code_block".to_owned(),
        };
        let ghost prev = chunks.deep_view();
        let ghost cv = spec_line_windows(lines.deep_view(), chunk_size as int, s as int)[0];
        proof {
            assert(chunk.deep_view() =~= cv);
        }
        chunks.push(chunk);
        proof {
            assert(chunks.deep_view() =~= prev.push(cv));
            assert(prev + spec_line_windows(lines.deep_view(), chunk_size as int, s as int)
                =~= chunks.deep_view() + spec_line_windows(
                lines.deep_view(),
                chunk_size as int,
                e as int,
            ));
        }
        s = e;
    }
    proof {
        assert(chunks.deep_view() + spec_line_windows(
            lines.deep_view(),
            chunk_size as int,
            s as int,
        ) =~= chunks.deep_view());
    }
    chunks
}

/// Character-for-character equality of two string slices.
pub fn str_eq(a: &str, b: &str) -> (r: bool)
    ensures
        r == (a@ == b@),
{
    let n = a.unicode_len();
    let m = b.unicode_len();
    if n != m {
        return false;
    }
    let mut i: usize = 0;
    while i < n
        invariant
            i <= n,
            n == a@.len(),
            n == b@.len(),
            forall|j: int| 0 <= j < i ==> a@[j] == b@[j],
        decreases n - i,
    {
        if a.get_char(i) != b.get_char(i) {
            return false;
        }
        i = i + 1;
    }
    proof {
        assert(a@ =~= b@);
    }
    true
}

/// `suffix` stands at the end of `s`.
pub open spec fn spec_has_suffix(s: Seq<char>, suffix: Seq<char>) -> bool {
    s.len() >= suffix.len() && s.subrange(s.len() - suffix.len(), s.len() as int) == suffix
}

fn ends_with_str(s: &str, suffix: &str) -> (r: bool)
    ensures
        r == spec_has_suffix(s@, suffix@),
{
    let n = s.unicode_len();
    let m = suffix.unicode_len();
    if m > n {
        return false;
    }
    let ghost tail = s@.subrange(s@.len() - suffix@.len(), s@.len() as int);
    let mut i: usize = 0;
    while i < m
        invariant
            i <= m <= n,
            n == s@.len(),
            m == suffix@.len(),
            tail == s@.subrange(s@.len() - suffix@.len(), s@.len() as int),
            forall|j: int| 0 <= j < i ==> s@[n - m + j] == suffix@[j],
        decreases m - i,
    {
        if s.get_char(n - m + i) != suffix.get_char(i) {
            proof {
                assert(tail[i as int] == s@[n - m + i]);
            }
            return false;
        }
        i = i + 1;
    }
    proof {
        assert(tail =~= suffix@);
    }
    true
}

/// The language a file extension maps to: the closed mapping from `.rs`,
/// `.js`/`.jsx`, `.ts`/`.tsx`, `.py` and `.go`, with `"unknown"` elsewhere.
pub open spec fn spec_detect_language(p: Seq<char>) -> Seq<char> {
    if spec_has_suffix(p, ".rs"@) {
        "rust"@
    } else if spec_has_suffix(p, ".js"@) || spec_has_suffix(p, ".jsx"@) {
        "javascript"@
    } else if spec_has_suffix(p, ".ts"@) || spec_has_suffix(p, ".tsx"@) {
        "typescript"@
    } else if spec_has_suffix(p, ".py"@) {
        "python"@
    } else if spec_has_suffix(p, ".go"@) {
        "go"@
    } else {
        "unknown"@
    }
}

/// Infer the language name from a file path's extension.
pub fn detect_language(file_path: &str) -> (r: String)
    ensures
        r@ == spec_detect_language(file_path@),
{
    if ends_with_str(file_path, ".rs") {
        "rust".to_owned()
    } else if ends_with_str(file_path, ".js") || ends_with_str(file_path, ".jsx") {
        "javascript".to_owned()
    } else if ends_with_str(file_path, ".ts") || ends_with_str(file_path, ".tsx") {
        "typescript".to_owned()
    } else if ends_with_str(file_path, ".py") {
        "python".to_owned()
    } else if ends_with_str(file_path, ".go") {
        "go".to_owned()
    } else {
        "unknown".to_owned()
    }
}

/// A capture's node lies within the chunked text and its rows are ordered.
pub open spec fn spec_capture_ok(c: RawCapture, len: int) -> bool {
    c.start_byte <= c.end_byte <= len && c.start_row <= c.end_row
}

/// The capture name a capture index stands for, `"unknown"` past the end.
pub open spec fn spec_element_type(names: Seq<Seq<char>>, idx: int) -> Seq<char> {
    if 0 <= idx < names.len() {
        names[idx]
    } else {
        "unknown"@
    }
}

/// The chunk one capture yields: the node's exact bytes and positions.
pub open spec fn spec_chunk_of_capture(
    text: Seq<u8>,
    c: RawCapture,
    names: Seq<Seq<char>>,
) -> CodeChunkView {
    CodeChunkView {
        start_line: c.start_row as int,
        end_line: c.end_row as int,
        start_byte: c.start_byte as int,
        end_byte: c.end_byte as int,
        content: text.subrange(c.start_byte as int, c.end_byte as int),
        element_type: spec_element_type(names, c.capture_index as int),
    }
}

/// The chunks a capture list yields, in order, captures outside the text
/// skipped.
pub open spec fn spec_chunks_of_captures(
    text: Seq<u8>,
    caps: Seq<RawCapture>,
    names: Seq<Seq<char>>,
) -> Seq<CodeChunkView>
    decreases caps.len(),
{
    if caps.len() == 0 {
        Seq::empty()
    } else {
        let rest = spec_chunks_of_captures(text, caps.drop_last(), names);
        if spec_capture_ok(caps.last(), text.len() as int) {
            rest.push(spec_chunk_of_capture(text, caps.last(), names))
        } else {
            rest
        }
    }
}

/// A chunk is an exact region of `text`: its content is the bytes of its
/// byte range, and its line numbers are ordered.
pub open spec fn spec_chunk_from_source(cv: CodeChunkView, text: Seq<u8>) -> bool {
    &&& 0 <= cv.start_byte <= cv.end_byte <= text.len()
    &&& cv.content == text.subrange(cv.start_byte, cv.end_byte)
    &&& 0 <= cv.start_line <= cv.end_line
}

pub proof fn lemma_chunks_of_captures_from_source(
    text: Seq<u8>,
    caps: Seq<RawCapture>,
    names: Seq<Seq<char>>,
)
    ensures
        forall|k: int|
            0 <= k < spec_chunks_of_captures(text, caps, names).len()
                ==> spec_chunk_from_source(
                #[trigger] spec_chunks_of_captures(text, caps, names)[k],
                text,
            ),
    decreases caps.len(),
{
    if caps.len() > 0 {
        lemma_chunks_of_captures_from_source(text, caps.drop_last(), names);
        let whole = spec_chunks_of_captures(text, caps, names);
        let rest = spec_chunks_of_captures(text, caps.drop_last(), names);
        assert forall|k: int| 0 <= k < whole.len() implies spec_chunk_from_source(
            #[trigger] whole[k],
            text,
        ) by {
            if spec_capture_ok(caps.last(), text.len() as int) {
                if k < rest.len() {
                    assert(whole[k] == rest[k]);
                } else {
                    assert(whole[k] == spec_chunk_of_capture(text, caps.last(), names));
                }
            } else {
                assert(whole[k] == rest[k]);
            }
        }
    }
}

/// Turn the captures that a grammar query produced into chunks: one chunk
/// per capture that lies within `text`, in capture order, each carrying the
/// node's exact bytes and the capture's name (`"unknown"` for an index past
/// the name table).
pub fn chunks_from_captures(
    text: &[u8],
    caps: &Vec<RawCapture>,
    names: &Vec<String>,
) -> (r: Vec<CodeChunk>)
    ensures
        r.deep_view() == spec_chunks_of_captures(text@, caps@, names.deep_view()),
{
    let mut chunks: Vec<CodeChunk> = Vec::new();
    let mut i: usize = 0;
    while i < caps.len()
        invariant
            i <= caps@.len(),
            chunks.deep_view() == spec_chunks_of_captures(
                text@,
                caps@.take(i as int),
                names.deep_view(),
            ),
        decreases caps@.len() - i,
    {
        let c = &caps[i];
        let ghost prev = chunks.deep_view();
        if c.start_byte <= c.end_byte && c.end_byte <= text.len() && c.start_row <= c.end_row {
            let element_type = if c.capture_index < names.len() {
                names[c.capture_index].clone()
            } else {
                "unknown".to_owned()
            };
            let chunk = CodeChunk {
                start_line: c.start_row,
                end_line: c.end_row,
                start_byte: c.start_byte,
                end_byte: c.end_byte,
                content: vstd::slice::slice_to_vec(&text[c.start_byte..c.end_byte]),
                element_type,
            };
            proof {
                assert(chunk.deep_view() =~= spec_chunk_of_capture(
                    text@,
                    caps@[i as int],
                    names.deep_view(),
                ));
            }
            chunks.push(chunk);
        }
        proof {
            assert(caps@.take(i + 1).drop_last() =~= caps@.take(i as int));
            assert(caps@.take(i + 1).last() == caps@[i as int]);
            assert(chunks.deep_view() =~= spec_chunks_of_captures(
                text@,
                caps@.take(i + 1),
                names.deep_view(),
            ));
        }
        i = i + 1;
    }
    proof {
        assert(caps@.take(caps@.len() as int) =~= caps@);
    }
    chunks
}

/// Why building the chunker failed: one of the fixed capture queries did not
/// compile against its grammar.
#[derive(Debug, PartialEq, Eq, Structural)]
pub enum ParserError {
    QueryCompilation,
}

/// One supported language: its name, its grammar, the compiled capture
/// query, and the query's capture names in index order.
pub struct LanguageEntry {
    pub name: String,
    pub language: tree_sitter::Language,
    pub query: tree_sitter::Query,
    pub capture_names: Vec<String>,
}

/// Grammar-driven code chunker over the supported languages.
pub struct CodeParser {
    pub entries: Vec<LanguageEntry>,
}

/// The pattern source of the Rust capture query.
pub open spec fn spec_rust_query_source() -> Seq<char> {
    "(function_item) @function\n(impl_item) @impl\n(struct_item) @struct\n(enum_item) @enum\n(trait_item) @trait\n"@
}

/// The pattern source of the JavaScript capture query, shared by the
/// TypeScript entry.
pub open spec fn spec_javascript_query_source() -> Seq<char> {
    "(function_declaration) @function\n(function_expression) @function\n(arrow_function) @function\n(class_declaration) @class\n(method_definition) @method\n"@
}

/// The pattern source of the Python capture query.
pub open spec fn spec_python_query_source() -> Seq<char> {
    "(function_definition) @function\n(class_definition) @class\n"@
}

/// The pattern source of the Go capture query.
pub open spec fn spec_go_query_source() -> Seq<char> {
    "(function_declaration) @function\n(method_declaration) @method\n(type_declaration) @type\n"@
}

/// Every one of the chunker's capture queries compiles against its grammar.
pub open spec fn spec_parser_builds() -> bool {
    &&& spec_rust_query(spec_rust_query_source()) is Some
    &&& spec_javascript_query(spec_javascript_query_source()) is Some
    &&& spec_python_query(spec_python_query_source()) is Some
    &&& spec_go_query(spec_go_query_source()) is Some
}

/// Index of the first entry in `entries[lo..]` whose name is `lang`.
pub open spec fn spec_entry_index_from(
    entries: Seq<LanguageEntry>,
    lang: Seq<char>,
    lo: int,
) -> Option<int>
    decreases entries.len() - lo,
    when 0 <= lo <= entries.len()
{
    if lo >= entries.len() {
        None
    } else if entries[lo].name@ == lang {
        Some(lo)
    } else {
        spec_entry_index_from(entries, lang, lo + 1)
    }
}

/// The fifty-line windows of `content`: the fallback chunks.
pub open spec fn spec_fallback_chunks(content: Seq<u8>) -> Seq<CodeChunkView> {
    spec_line_windows(spec_lines_from(content, 0), 50, 0)
}

/// The chunks one grammar entry yields on `content`: the capture chunks
/// when a tree is built and at least one capture survives, else the
/// fifty-line windows.
pub open spec fn spec_entry_chunks(entry: LanguageEntry, content: Seq<u8>) -> Seq<CodeChunkView> {
    match spec_captures_of(entry.language, entry.query, content) {
        Some(caps) => {
            let cc = spec_chunks_of_captures(content, caps, entry.capture_names.deep_view());
            if cc.len() == 0 {
                spec_fallback_chunks(content)
            } else {
                cc
            }
        },
        None => spec_fallback_chunks(content),
    }
}

/// The chunks the chunker `p` yields for `content` under the language name
/// `lang`: the grammar path of the first entry named `lang`, or the
/// fifty-line windows when no entry is.
pub open spec fn spec_chunks_of(p: CodeParser, content: Seq<u8>, lang: Seq<char>) -> Seq<
    CodeChunkView,
> {
    match spec_entry_index_from(p.entries@, lang, 0) {
        Some(i) => spec_entry_chunks(p.entries@[i], content),
        None => spec_fallback_chunks(content),
    }
}

/// The grammar path over one named grammar-and-query pair: as
/// `spec_entry_chunks`, with the query's own capture names.
pub open spec fn spec_named_query_chunks(
    lq: Option<(tree_sitter::Language, tree_sitter::Query)>,
    content: Seq<u8>,
) -> Seq<CodeChunkView> {
    match lq {
        Some(pair) => match spec_captures_of(pair.0, pair.1, content) {
            Some(caps) => {
                let cc = spec_chunks_of_captures(content, caps, spec_capture_names_of(pair.1));
                if cc.len() == 0 {
                    spec_fallback_chunks(content)
                } else {
                    cc
                }
            },
            None => spec_fallback_chunks(content),
        },
        None => spec_fallback_chunks(content),
    }
}

/// The chunks the chunker that `CodeParser::new` builds yields for `content`
/// under language name `lang`: each supported name takes its own grammar
/// path, TypeScript sharing the JavaScript grammar, and every other name
/// takes the fifty-line windows.
pub open spec fn spec_chunks_for_language(content: Seq<u8>, lang: Seq<char>) -> Seq<
    CodeChunkView,
> {
    if lang == "rust"@ {
        spec_named_query_chunks(spec_rust_query(spec_rust_query_source()), content)
    } else if lang == "javascript"@ || lang == "typescript"@ {
        spec_named_query_chunks(spec_javascript_query(spec_javascript_query_source()), content)
    } else if lang == "python"@ {
        spec_named_query_chunks(spec_python_query(spec_python_query_source()), content)
    } else if lang == "go"@ {
        spec_named_query_chunks(spec_go_query(spec_go_query_source()), content)
    } else {
        spec_fallback_chunks(content)
    }
}

impl CodeParser {
    /// A language name the chunker has a grammar for.
    pub open spec fn spec_has_language(self, lang: Seq<char>) -> bool {
        exists|i: int| 0 <= i < self.entries@.len() && #[trigger] self.entries@[i].name@ == lang
    }

    /// The five grammar entries stand under their language names.
    pub open spec fn wf(self) -> bool {
        &&& self.entries@.len() == 5
        &&& self.entries@[0].name@ == "rust"@
        &&& self.entries@[1].name@ == "javascript"@
        &&& self.entries@[2].name@ == "typescript"@
        &&& self.entries@[3].name@ == "python"@
        &&& self.entries@[4].name@ == "go"@
    }

    /// `self` is the chunker `new` builds: the five entries under their
    /// names, each holding its named grammar-and-query pair and that query's
    /// capture names.
    pub open spec fn spec_is_default(self) -> bool {
        &&& self.wf()
        &&& Some((self.entries@[0].language, self.entries@[0].query)) == spec_rust_query(
            spec_rust_query_source(),
        )
        &&& Some((self.entries@[1].language, self.entries@[1].query)) == spec_javascript_query(
            spec_javascript_query_source(),
        )
        &&& Some((self.entries@[2].language, self.entries@[2].query)) == spec_javascript_query(
            spec_javascript_query_source(),
        )
        &&& Some((self.entries@[3].language, self.entries@[3].query)) == spec_python_query(
            spec_python_query_source(),
        )
        &&& Some((self.entries@[4].language, self.entries@[4].query)) == spec_go_query(
            spec_go_query_source(),
        )
        &&& forall|i: int|
            0 <= i < 5 ==> (#[trigger] self.entries@[i]).capture_names.deep_view()
                == spec_capture_names_of(self.entries@[i].query)
    }

    /// Build the chunker: load each supported grammar and compile its
    /// capture query naming the top-level semantic nodes to emit. Fails, with
    /// the one construction error, exactly when one of the capture queries
    /// does not compile against its grammar.
    pub fn new() -> (r: Result<CodeParser, ParserError>)
        ensures
            r matches Ok(p) ==> p.spec_is_default(),
            r is Ok <==> spec_parser_builds(),
            r matches Err(e) ==> e == ParserError::QueryCompilation,
    {
        let mut entries: Vec<LanguageEntry> = Vec::new();

        let (rust_lang, rust_query) = match compile_rust_query(
            "(function_item) @function\n(impl_item) @impl\n(struct_item) @struct\n(enum_item) @enum\n(trait_item) @trait\n",
        ) {
            Some(lq) => lq,
            None => {
                return Err(ParserError::QueryCompilation);
            },
        };
        let rust_names = query_capture_names(&rust_query);
        proof {
            assert(Some((rust_lang, rust_query)) == spec_rust_query(spec_rust_query_source()));
        }
        entries.push(
            LanguageEntry {
                name: "rust".to_owned(),
                language: rust_lang,
                query: rust_query,
                capture_names: rust_names,
            },
        );

        let (js_lang, js_query) = match compile_javascript_query(
            "(function_declaration) @function\n(function_expression) @function\n(arrow_function) @function\n(class_declaration) @class\n(method_definition) @method\n",
        ) {
            Some(lq) => lq,
            None => {
                return Err(ParserError::QueryCompilation);
            },
        };
        let js_names = query_capture_names(&js_query);
        proof {
            assert(Some((js_lang, js_query)) == spec_javascript_query(
                spec_javascript_query_source(),
            ));
        }
        entries.push(
            LanguageEntry {
                name: "javascript".to_owned(),
                language: js_lang,
                query: js_query,
                capture_names: js_names,
            },
        );

        // TypeScript shares the JavaScript grammar and query.
        let (ts_lang, ts_query) = match compile_javascript_query(
            "(function_declaration) @function\n(function_expression) @function\n(arrow_function) @function\n(class_declaration) @class\n(method_definition) @method\n",
        ) {
            Some(lq) => lq,
            None => {
                return Err(ParserError::QueryCompilation);
            },
        };
        let ts_names = query_capture_names(&ts_query);
        proof {
            assert(Some((ts_lang, ts_query)) == spec_javascript_query(
                spec_javascript_query_source(),
            ));
        }
        entries.push(
            LanguageEntry {
                name: "typescript".to_owned(),
                language: ts_lang,
                query: ts_query,
                capture_names: ts_names,
            },
        );

        let (py_lang, py_query) = match compile_python_query(
            "(function_definition) @function\n(class_definition) @class\n",
        ) {
            Some(lq) => lq,
            None => {
                return Err(ParserError::QueryCompilation);
            },
        };
        let py_names = query_capture_names(&py_query);
        proof {
            assert(Some((py_lang, py_query)) == spec_python_query(spec_python_query_source()));
        }
        entries.push(
            LanguageEntry {
                name: "python".to_owned(),
                language: py_lang,
                query: py_query,
                capture_names: py_names,
            },
        );

        let (go_lang, go_query) = match compile_go_query(
            "(function_declaration) @function\n(method_declaration) @method\n(type_declaration) @type\n",
        ) {
            Some(lq) => lq,
            None => {
                return Err(ParserError::QueryCompilation);
            },
        };
        let go_names = query_capture_names(&go_query);
        proof {
            assert(Some((go_lang, go_query)) == spec_go_query(spec_go_query_source()));
        }
        entries.push(
            LanguageEntry {
                name: "go".to_owned(),
                language: go_lang,
                query: go_query,
                capture_names: go_names,
            },
        );

        Ok(CodeParser { entries })
    }

    /// The index of the first grammar entry for a language name, if any.
    fn find_entry(&self, language: &str) -> (r: Option<usize>)
        ensures
            match r {
                Some(i) => {
                    &&& Some(i as int) == spec_entry_index_from(self.entries@, language@, 0)
                    &&& i < self.entries@.len()
                    &&& self.entries@[i as int].name@ == language@
                },
                None => {
                    &&& spec_entry_index_from(self.entries@, language@, 0) is None
                    &&& !self.spec_has_language(language@)
                },
            },
    {
        let mut i: usize = 0;
        while i < self.entries.len()
            invariant
                i <= self.entries@.len(),
                forall|j: int| 0 <= j < i ==> #[trigger] self.entries@[j].name@ != language@,
                spec_entry_index_from(self.entries@, language@, 0) == spec_entry_index_from(
                    self.entries@,
                    language@,
                    i as int,
                ),
            decreases self.entries@.len() - i,
        {
            if str_eq(self.entries[i].name.as_str(), language) {
                return Some(i);
            }
            i = i + 1;
        }
        None
    }

    /// Chunk `content`, inferring the language from the file path's
    /// extension.
    pub fn get_chunks(&self, file_path: &str, content: &[u8]) -> (r: Result<
        Vec<CodeChunk>,
        ParserError,
    >)
        ensures
            r is Ok,
            r matches Ok(chunks) ==> chunks.deep_view() == spec_chunks_of(
                *self,
                content@,
                spec_detect_language(file_path@),
            ),
            r matches Ok(chunks) ==> chunks.deep_view() == spec_fallback_chunks(content@) || (
            self.spec_has_language(spec_detect_language(file_path@)) && forall|k: int|
                0 <= k < chunks.deep_view().len() ==> spec_chunk_from_source(
                    #[trigger] chunks.deep_view()[k],
                    content@,
                )),
    {
        let language = detect_language(file_path);
        self.get_chunks_from_content(content, language.as_str())
    }

    /// Chunk `content` as the named language; languages without a grammar,
    /// texts no tree can be built for, and grammars with zero matches all
    /// fall back to fixed windows of fifty lines.
    pub fn get_chunks_from_content(&self, content: &[u8], language: &str) -> (r: Result<
        Vec<CodeChunk>,
        ParserError,
    >)
        ensures
            r is Ok,
            r matches Ok(chunks) ==> chunks.deep_view() == spec_chunks_of(
                *self,
                content@,
                language@,
            ),
            r matches Ok(chunks) ==> chunks.deep_view() == spec_fallback_chunks(content@) || (
            self.spec_has_language(language@) && forall|k: int|
                0 <= k < chunks.deep_view().len() ==> spec_chunk_from_source(
                    #[trigger] chunks.deep_view()[k],
                    content@,
                )),
    {
        match self.find_entry(language) {
            None => Ok(chunk_by_lines(content, 50)),
            Some(i) => {
                let entry = &self.entries[i];
                match parse_and_capture(&entry.language, &entry.query, content) {
                    None => Ok(chunk_by_lines(content, 50)),
                    Some(caps) => {
                        let chunks = chunks_from_captures(content, &caps, &entry.capture_names);
                        proof {
                            lemma_chunks_of_captures_from_source(
                                content@,
                                caps@,
                                entry.capture_names.deep_view(),
                            );
                        }
                        if chunks.len() == 0 {
                            Ok(chunk_by_lines(content, 50))
                        } else {
                            Ok(chunks)
                        }
                    },
                }
            },
        }
    }
}

/// The grammar path over one named grammar-and-query pair yields exact byte
/// regions: unless it falls back to the fifty-line windows, every chunk's
/// content is the bytes of its byte range, with ordered line numbers.
pub proof fn lemma_named_query_chunks_from_source(
    lq: Option<(tree_sitter::Language, tree_sitter::Query)>,
    content: Seq<u8>,
)
    ensures
        spec_named_query_chunks(lq, content) == spec_fallback_chunks(content) || forall|k: int|
            0 <= k < spec_named_query_chunks(lq, content).len() ==> spec_chunk_from_source(
                #[trigger] spec_named_query_chunks(lq, content)[k],
                content,
            ),
{
    match lq {
        Some(pair) => match spec_captures_of(pair.0, pair.1, content) {
            Some(caps) => {
                lemma_chunks_of_captures_from_source(
                    content,
                    caps,
                    spec_capture_names_of(pair.1),
                );
            },
            None => {},
        },
        None => {},
    }
}

/// For every source text and language name, the chunks the built chunker
/// yields are the fifty-line fallback windows or exact byte regions of the
/// source: each chunk's content is the bytes of its byte range, with ordered
/// line numbers.
pub proof fn lemma_language_chunks_from_source(content: Seq<u8>, lang: Seq<char>)
    ensures
        spec_chunks_for_language(content, lang) == spec_fallback_chunks(content) || forall|k: int|
            0 <= k < spec_chunks_for_language(content, lang).len() ==> spec_chunk_from_source(
                #[trigger] spec_chunks_for_language(content, lang)[k],
                content,
            ),
{
    if lang == "rust"@ {
        lemma_named_query_chunks_from_source(spec_rust_query(spec_rust_query_source()), content);
    } else if lang == "javascript"@ || lang == "typescript"@ {
        lemma_named_query_chunks_from_source(
            spec_javascript_query(spec_javascript_query_source()),
            content,
        );
    } else if lang == "python"@ {
        lemma_named_query_chunks_from_source(
            spec_python_query(spec_python_query_source()),
            content,
        );
    } else if lang == "go"@ {
        lemma_named_query_chunks_from_source(spec_go_query(spec_go_query_source()), content);
    }
}

/// For the chunker `new` builds, the chunks for a language name are the
/// grammar-path chunks of that name's own grammar and query.
pub proof fn lemma_default_chunks(p: CodeParser, content: Seq<u8>, lang: Seq<char>)
    requires
        p.spec_is_default(),
    ensures
        spec_chunks_of(p, content, lang) == spec_chunks_for_language(content, lang),
{
    reveal_with_fuel(spec_entry_index_from, 6);
    reveal_strlit("rust");
    reveal_strlit("javascript");
    reveal_strlit("typescript");
    reveal_strlit("python");
    reveal_strlit("go");
    let e = p.entries@;
    assert("javascript"@ != "typescript"@) by {
        assert("javascript"@[0] == 'j');
        assert("typescript"@[0] == 't');
    }
    if lang == "rust"@ {
        assert(spec_entry_index_from(e, lang, 0) == Some(0int));
    } else if lang == "javascript"@ {
        assert(spec_entry_index_from(e, lang, 0) == Some(1int));
    } else if lang == "typescript"@ {
        assert(spec_entry_index_from(e, lang, 0) == Some(2int));
    } else if lang == "python"@ {
        assert(spec_entry_index_from(e, lang, 0) == Some(3int));
    } else if lang == "go"@ {
        assert(spec_entry_index_from(e, lang, 0) == Some(4int));
    } else {
        assert(spec_entry_index_from(e, lang, 5) is None);
        assert(spec_entry_index_from(e, lang, 0) is None);
    }
}

} // verus!
