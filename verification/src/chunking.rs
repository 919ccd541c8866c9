use vstd::prelude::*;

use crate::code_parsers::{
    CodeChunkView, CodeParser, ParserError, lemma_default_chunks, spec_chunk_from_source,
    spec_chunks_for_language, spec_fallback_chunks, spec_parser_builds,
};

verus! {

/// One contiguous region of a source text, used as the unit of indexing.
///
/// The region is described three ways at once: as a half-open byte interval
/// into the source, as the exact bytes of that interval, and as a semantic
/// label (`"function"`, `"text_block"`, ...).
pub struct Chunk {
    /// Half-open byte interval into the source text.
    pub range: core::ops::Range<usize>,
    /// The exact bytes of the source between the two offsets.
    pub content: Vec<u8>,
    /// Semantic role of the region.
    pub element_type: String,
}

/// Mathematical image of a `Chunk`: integers, a byte sequence and a
/// character sequence.
#[verifier::ext_equal]
pub struct ChunkView {
    pub start: int,
    pub end: int,
    pub content: Seq<u8>,
    pub element_type: Seq<char>,
}

impl View for Chunk {
    type V = ChunkView;

    open spec fn view(&self) -> ChunkView {
        ChunkView {
            start: self.range.start as int,
            end: self.range.end as int,
            content: self.content@,
            element_type: self.element_type@,
        }
    }
}

impl DeepView for Chunk {
    type V = ChunkView;

    open spec fn deep_view(&self) -> ChunkView {
        self@
    }
}

/// Position of the last occurrence of `b` in `text[lo..hi]`, if any.
pub open spec fn spec_rfind_byte(text: Seq<u8>, lo: int, hi: int, b: u8) -> Option<int>
    decreases hi - lo,
{
    if hi <= lo {
        None
    } else if text[hi - 1] == b {
        Some(hi - 1)
    } else {
        spec_rfind_byte(text, lo, hi - 1, b)
    }
}

pub proof fn lemma_rfind_byte_bounds(text: Seq<u8>, lo: int, hi: int, b: u8)
    requires
        0 <= lo <= hi <= text.len(),
    ensures
        match spec_rfind_byte(text, lo, hi, b) {
            Some(i) => lo <= i < hi && text[i] == b,
            None => forall|j: int| lo <= j < hi ==> text[j] != b,
        },
    decreases hi - lo,
{
    if hi > lo && text[hi - 1] != b {
        lemma_rfind_byte_bounds(text, lo, hi - 1, b);
    }
}

/// Where the window that begins at `start` ends: at most `cap` bytes, and
/// when the window does not reach the end of the text, just after the last
/// newline inside the window if there is one.
pub open spec fn spec_window_end(text: Seq<u8>, start: int, cap: int) -> int {
    let end = if start + cap <= text.len() {
        start + cap
    } else {
        text.len() as int
    };
    if end < text.len() {
        match spec_rfind_byte(text, start, end, 10u8) {
            Some(i) => i + 1,
            None => end,
        }
    } else {
        end
    }
}

pub proof fn lemma_window_end_bounds(text: Seq<u8>, start: int, cap: int)
    requires
        0 <= start < text.len(),
        1 <= cap,
    ensures
        start < spec_window_end(text, start, cap) <= text.len(),
        spec_window_end(text, start, cap) - start <= cap,
{
    let end = if start + cap <= text.len() {
        start + cap
    } else {
        text.len() as int
    };
    if end < text.len() {
        lemma_rfind_byte_bounds(text, start, end, 10u8);
    }
}

/// The byte windows that cover `text[start..]`, each at most `cap` bytes,
/// labelled `"text_block"`.
pub open spec fn spec_simple_chunks(text: Seq<u8>, start: int, cap: int) -> Seq<ChunkView>
    decreases text.len() - start,
    when 0 <= start && 1 <= cap
    via spec_simple_chunks_decreases
{
    if start >= text.len() {
        Seq::empty()
    } else {
        let end = spec_window_end(text, start, cap);
        seq![
            ChunkView {
                start,
                end,
                content: text.subrange(start, end),
                element_type: "text_block"@,
            },
        ] + spec_simple_chunks(text, end, cap)
    }
}

#[via_fn]
proof fn spec_simple_chunks_decreases(text: Seq<u8>, start: int, cap: int) {
    if start < text.len() {
        lemma_window_end_bounds(text, start, cap);
    }
}

/// Partition law: the byte windows cover `text[start..]` with no gaps and
/// no overlaps — the first window begins at `start`, each next window
/// begins where the previous one ended, the last one ends at the end of the
/// text — every window is non-empty, at most `cap` bytes, and holds exactly
/// the bytes of its interval.
pub proof fn lemma_simple_chunks_partition(text: Seq<u8>, start: int, cap: int)
    requires
        0 <= start <= text.len(),
        1 <= cap,
    ensures
        ({
            let cs = spec_simple_chunks(text, start, cap);
            &&& (cs.len() == 0 <==> start == text.len())
            &&& cs.len() > 0 ==> cs[0].start == start && cs[cs.len() - 1].end == text.len()
            &&& forall|k: int|
                0 <= k < cs.len() ==> {
                    let c = #[trigger] cs[k];
                    c.start < c.end <= text.len() && c.end - c.start <= cap && c.content
                        == text.subrange(c.start, c.end)
                }
            &&& forall|k: int|
                0 <= k < cs.len() - 1 ==> (#[trigger] cs[k]).end == cs[k + 1].start
        }),
    decreases text.len() - start,
{
    let cs = spec_simple_chunks(text, start, cap);
    if start < text.len() {
        lemma_window_end_bounds(text, start, cap);
        let end = spec_window_end(text, start, cap);
        lemma_simple_chunks_partition(text, end, cap);
        let rest = spec_simple_chunks(text, end, cap);
        assert forall|k: int| 0 <= k < cs.len() implies {
            let c = #[trigger] cs[k];
            c.start < c.end <= text.len() && c.end - c.start <= cap && c.content == text.subrange(
                c.start,
                c.end,
            )
        } by {
            if k > 0 {
                assert(cs[k] == rest[k - 1]);
            }
        }
        assert forall|k: int| 0 <= k < cs.len() - 1 implies (#[trigger] cs[k]).end == cs[k
            + 1].start by {
            if k == 0 {
                assert(rest.len() > 0);
                assert(cs[1] == rest[0]);
            } else {
                assert(cs[k] == rest[k - 1] && cs[k + 1] == rest[k]);
            }
        }
        if rest.len() > 0 {
            assert(cs[cs.len() - 1] == rest[rest.len() - 1]);
        }
    }
}

/// Last position of `b` within `text[lo..hi]`.
fn rfind_byte(text: &[u8], lo: usize, hi: usize, b: u8) -> (r: Option<usize>)
    requires
        lo <= hi <= text@.len(),
    ensures
        match r {
            Some(i) => Some(i as int) == spec_rfind_byte(text@, lo as int, hi as int, b),
            None => spec_rfind_byte(text@, lo as int, hi as int, b) is None,
        },
{
    let mut i: usize = hi;
    while i > lo
        invariant
            lo <= i <= hi <= text@.len(),
            spec_rfind_byte(text@, lo as int, hi as int, b) == spec_rfind_byte(
                text@,
                lo as int,
                i as int,
                b,
            ),
        decreases i - lo,
    {
        if text[i - 1] == b {
            return Some(i - 1);
        }
        i = i - 1;
    }
    None
}

/// Cut `text` into non-overlapping byte windows of at most `max_chunk_size`
/// bytes, preferring to break just after a newline, so that the windows
/// partition the text with no gaps and no overlaps.
pub fn chunk_text_simple(text: &[u8], max_chunk_size: usize) -> (r: Vec<Chunk>)
    requires
        1 <= max_chunk_size,
    ensures
        r.deep_view() == spec_simple_chunks(text@, 0, max_chunk_size as int),
{
    let mut chunks: Vec<Chunk> = Vec::new();
    let mut start: usize = 0;

    while start < text.len()
        invariant
            1 <= max_chunk_size,
            start <= text@.len(),
            spec_simple_chunks(text@, 0, max_chunk_size as int) == chunks.deep_view()
                + spec_simple_chunks(text@, start as int, max_chunk_size as int),
        decreases text@.len() - start,
    {
        proof {
            lemma_window_end_bounds(text@, start as int, max_chunk_size as int);
        }
        let base_end = if max_chunk_size <= text.len() - start {
            start + max_chunk_size
        } else {
            text.len()
        };
        let chunk_end = if base_end < text.len() {
            match rfind_byte(text, start, base_end, 10u8) {
                Some(i) => i + 1,
                None => base_end,
            }
        } else {
            base_end
        };
        assert(chunk_end as int == spec_window_end(text@, start as int, max_chunk_size as int));
        let content_slice = &text[start..chunk_end];
        let chunk = Chunk {
            range: start..chunk_end,
            content: vstd::slice::slice_to_vec(content_slice),
            element_type: "text_block".to_owned(),
        };
        let ghost prev = chunks.deep_view();
        let ghost cv = ChunkView {
            start: start as int,
            end: chunk_end as int,
            content: text@.subrange(start as int, chunk_end as int),
            element_type: "text_block"@,
        };
        proof {
            assert(chunk.deep_view() =~= cv);
        }
        chunks.push(chunk);
        proof {
            assert(chunks.deep_view() =~= prev.push(cv));
            assert(prev + spec_simple_chunks(text@, start as int, max_chunk_size as int)
                =~= chunks.deep_view() + spec_simple_chunks(
                text@,
                chunk_end as int,
                max_chunk_size as int,
            ));
        }
        start = chunk_end;
    }
    chunks
}

/// The region a code chunk covers, seen as a plain byte-interval chunk.
pub open spec fn spec_chunk_of_code_chunk(cv: CodeChunkView) -> ChunkView {
    ChunkView {
        start: cv.start_byte,
        end: cv.end_byte,
        content: cv.content,
        element_type: cv.element_type,
    }
}

/// A chunk is an exact region of `text`.
pub open spec fn spec_chunk_ok(cv: ChunkView, text: Seq<u8>) -> bool {
    &&& 0 <= cv.start <= cv.end <= text.len()
    &&& cv.content == text.subrange(cv.start, cv.end)
}

/// Chunk a text for indexing. With a language name, the grammar-driven
/// chunker cuts it at semantic nodes (falling back to line windows); without
/// one, plain byte windows of at most a thousand bytes.
pub fn chunk_text(text: &[u8], language: Option<&str>) -> (r: Result<Vec<Chunk>, ParserError>)
    ensures
        language is None ==> (r matches Ok(chunks) && chunks.deep_view() == spec_simple_chunks(
            text@,
            0,
            1000,
        )),
        language is Some ==> (r is Ok <==> spec_parser_builds()),
        language matches Some(lang) ==> (r matches Ok(chunks) ==> chunks.deep_view()
            == spec_chunks_for_language(text@, lang@).map_values(
            |cv: CodeChunkView| spec_chunk_of_code_chunk(cv),
        )),
        language is Some ==> (r matches Err(e) ==> e == ParserError::QueryCompilation),
        language is Some ==> (r matches Ok(chunks) ==> (chunks.deep_view()
            == spec_fallback_chunks(text@).map_values(
            |cv: CodeChunkView| spec_chunk_of_code_chunk(cv),
        ) || forall|k: int|
            0 <= k < chunks.deep_view().len() ==> spec_chunk_ok(
                #[trigger] chunks.deep_view()[k],
                text@,
            ))),
{
    match language {
        None => Ok(chunk_text_simple(text, 1000)),
        Some(lang) => {
            let parser = match CodeParser::new() {
                Ok(p) => p,
                Err(e) => {
                    return Err(e);
                },
            };
            let code_chunks = match parser.get_chunks_from_content(text, lang) {
                Ok(cs) => cs,
                Err(e) => {
                    return Err(e);
                },
            };
            proof {
                lemma_default_chunks(parser, text@, lang@);
            }
            let ghost src = code_chunks.deep_view();
            let ghost f = |cv: CodeChunkView| spec_chunk_of_code_chunk(cv);
            let mut chunks: Vec<Chunk> = Vec::new();
            let mut i: usize = 0;
            while i < code_chunks.len()
                invariant
                    i <= code_chunks@.len(),
                    src == code_chunks.deep_view(),
                    f == (|cv: CodeChunkView| spec_chunk_of_code_chunk(cv)),
                    chunks.deep_view() == src.take(i as int).map_values(f),
                decreases code_chunks@.len() - i,
            {
                let cc = &code_chunks[i];
                let chunk = Chunk {
                    range: cc.start_byte..cc.end_byte,
                    content: vstd::slice::slice_to_vec(cc.content.as_slice()),
                    element_type: cc.element_type.clone(),
                };
                let ghost prev = chunks.deep_view();
                proof {
                    assert(chunk.deep_view() =~= f(src[i as int]));
                }
                chunks.push(chunk);
                proof {
                    assert(chunks.deep_view() =~= prev.push(f(src[i as int])));
                    assert(src.take(i + 1).map_values(f) =~= src.take(i as int).map_values(
                        f,
                    ).push(f(src[i as int])));
                }
                i = i + 1;
            }
            proof {
                assert(src.take(src.len() as int) =~= src);
                if !(src == spec_fallback_chunks(text@)) {
                    assert forall|k: int| 0 <= k < chunks.deep_view().len() implies spec_chunk_ok(
                        #[trigger] chunks.deep_view()[k],
                        text@,
                    ) by {
                        assert(chunks.deep_view()[k] == f(src[k]));
                        assert(spec_chunk_from_source(src[k], text@));
                    }
                }
            }
            Ok(chunks)
        },
    }
}

} // verus!
