use vstd::prelude::*;

use crate::strutil::{spec_decimal, u64_to_decimal};
use crate::code_parsers::str_eq;

verus! {

/// The structured fields persisted alongside a vector, and reconstituted for
/// the caller at retrieval time.
pub struct DocumentMetadata {
    pub file_path: String,
    pub start_line: usize,
    pub end_line: usize,
    pub content: String,
    pub language: String,
    pub element_type: String,
    pub project_id: String,
    pub worktree_id: String,
}

/// Mathematical image of a `DocumentMetadata`.
#[verifier::ext_equal]
pub struct DocumentMetadataView {
    pub file_path: Seq<char>,
    pub start_line: int,
    pub end_line: int,
    pub content: Seq<char>,
    pub language: Seq<char>,
    pub element_type: Seq<char>,
    pub project_id: Seq<char>,
    pub worktree_id: Seq<char>,
}

impl View for DocumentMetadata {
    type V = DocumentMetadataView;

    open spec fn view(&self) -> DocumentMetadataView {
        DocumentMetadataView {
            file_path: self.file_path@,
            start_line: self.start_line as int,
            end_line: self.end_line as int,
            content: self.content@,
            language: self.language@,
            element_type: self.element_type@,
            project_id: self.project_id@,
            worktree_id: self.worktree_id@,
        }
    }
}

impl DeepView for DocumentMetadata {
    type V = DocumentMetadataView;

    open spec fn deep_view(&self) -> DocumentMetadataView {
        self@
    }
}

/// One value of a stored payload: the store keeps text fields as strings and
/// line numbers as integers.
pub enum PayloadValue {
    Text(String),
    Integer(i64),
}

#[verifier::ext_equal]
pub enum PayloadValueView {
    Text(Seq<char>),
    Integer(int),
}

impl View for PayloadValue {
    type V = PayloadValueView;

    open spec fn view(&self) -> PayloadValueView {
        match self {
            PayloadValue::Text(s) => PayloadValueView::Text(s@),
            PayloadValue::Integer(n) => PayloadValueView::Integer(*n as int),
        }
    }
}

impl DeepView for PayloadValue {
    type V = PayloadValueView;

    open spec fn deep_view(&self) -> PayloadValueView {
        self@
    }
}

/// One named field of a stored payload.
pub struct PayloadEntry {
    pub key: String,
    pub value: PayloadValue,
}

#[verifier::ext_equal]
pub struct PayloadEntryView {
    pub key: Seq<char>,
    pub value: PayloadValueView,
}

impl View for PayloadEntry {
    type V = PayloadEntryView;

    open spec fn view(&self) -> PayloadEntryView {
        PayloadEntryView { key: self.key@, value: self.value@ }
    }
}

impl DeepView for PayloadEntry {
    type V = PayloadEntryView;

    open spec fn deep_view(&self) -> PayloadEntryView {
        self@
    }
}

/// The payload a document's metadata is persisted as: the exact fields of
/// `DocumentMetadata` under their field names, text fields as strings and
/// line numbers as integers.
pub open spec fn spec_metadata_payload(m: DocumentMetadataView) -> Seq<PayloadEntryView> {
    seq![
        PayloadEntryView { key: "file_path"@, value: PayloadValueView::Text(m.file_path) },
        PayloadEntryView { key: "start_line"@, value: PayloadValueView::Integer(m.start_line) },
        PayloadEntryView { key: "end_line"@, value: PayloadValueView::Integer(m.end_line) },
        PayloadEntryView { key: "content"@, value: PayloadValueView::Text(m.content) },
        PayloadEntryView { key: "language"@, value: PayloadValueView::Text(m.language) },
        PayloadEntryView { key: "element_type"@, value: PayloadValueView::Text(m.element_type) },
        PayloadEntryView { key: "project_id"@, value: PayloadValueView::Text(m.project_id) },
        PayloadEntryView { key: "worktree_id"@, value: PayloadValueView::Text(m.worktree_id) },
    ]
}

/// Lay a document's metadata out as the payload the store persists.
pub fn metadata_to_payload(m: &DocumentMetadata) -> (r: Vec<PayloadEntry>)
    requires
        m.start_line <= i64::MAX,
        m.end_line <= i64::MAX,
    ensures
        r.deep_view() == spec_metadata_payload(m@),
{
    let mut r: Vec<PayloadEntry> = Vec::new();
    r.push(
        PayloadEntry {
            key: "file_path".to_owned(),
            value: PayloadValue::Text(m.file_path.clone()),
        },
    );
    r.push(
        PayloadEntry {
            key: "start_line".to_owned(),
            value: PayloadValue::Integer(m.start_line as i64),
        },
    );
    r.push(
        PayloadEntry {
            key: "end_line".to_owned(),
            value: PayloadValue::Integer(m.end_line as i64),
        },
    );
    r.push(
        PayloadEntry { key: "content".to_owned(), value: PayloadValue::Text(m.content.clone()) },
    );
    r.push(
        PayloadEntry { key: "language".to_owned(), value: PayloadValue::Text(m.language.clone()) },
    );
    r.push(
        PayloadEntry {
            key: "element_type".to_owned(),
            value: PayloadValue::Text(m.element_type.clone()),
        },
    );
    r.push(
        PayloadEntry {
            key: "project_id".to_owned(),
            value: PayloadValue::Text(m.project_id.clone()),
        },
    );
    r.push(
        PayloadEntry {
            key: "worktree_id".to_owned(),
            value: PayloadValue::Text(m.worktree_id.clone()),
        },
    );
    proof {
        assert(r.deep_view() =~= spec_metadata_payload(m@));
    }
    r
}

/// The value stored under `key`, taking the first entry with that key.
pub open spec fn spec_payload_get(p: Seq<PayloadEntryView>, key: Seq<char>) -> Option<
    PayloadValueView,
>
    decreases p.len(),
{
    if p.len() == 0 {
        None
    } else if p[0].key == key {
        Some(p[0].value)
    } else {
        spec_payload_get(p.drop_first(), key)
    }
}

/// The text stored under `key`; the empty string when the field is missing
/// or holds no text.
pub open spec fn spec_payload_text(p: Seq<PayloadEntryView>, key: Seq<char>) -> Seq<char> {
    match spec_payload_get(p, key) {
        Some(PayloadValueView::Text(s)) => s,
        _ => Seq::empty(),
    }
}

/// The line number stored under `key`; zero when the field is missing, holds
/// no integer, or does not fit a `usize`.
pub open spec fn spec_payload_line(p: Seq<PayloadEntryView>, key: Seq<char>) -> int {
    match spec_payload_get(p, key) {
        Some(PayloadValueView::Integer(n)) => if 0 <= n <= usize::MAX {
            n
        } else {
            0
        },
        _ => 0,
    }
}

/// Round-trip law: every field written by `metadata_to_payload` is read back
/// unchanged by the tolerant payload readers, so a document's metadata
/// survives the trip through the store's payload representation.
pub proof fn lemma_payload_round_trip(m: DocumentMetadataView)
    requires
        0 <= m.start_line <= usize::MAX,
        0 <= m.end_line <= usize::MAX,
    ensures
        spec_payload_text(spec_metadata_payload(m), "file_path"@) == m.file_path,
        spec_payload_line(spec_metadata_payload(m), "start_line"@) == m.start_line,
        spec_payload_line(spec_metadata_payload(m), "end_line"@) == m.end_line,
        spec_payload_text(spec_metadata_payload(m), "content"@) == m.content,
        spec_payload_text(spec_metadata_payload(m), "language"@) == m.language,
        spec_payload_text(spec_metadata_payload(m), "element_type"@) == m.element_type,
        spec_payload_text(spec_metadata_payload(m), "project_id"@) == m.project_id,
        spec_payload_text(spec_metadata_payload(m), "worktree_id"@) == m.worktree_id,
{
    reveal_strlit("file_path");
    reveal_strlit("start_line");
    reveal_strlit("end_line");
    reveal_strlit("content");
    reveal_strlit("language");
    reveal_strlit("element_type");
    reveal_strlit("project_id");
    reveal_strlit("worktree_id");
    let p = spec_metadata_payload(m);
    assert(p[0].key == "file_path"@ && p[1].key == "start_line"@ && p[2].key == "end_line"@
        && p[3].key == "content"@ && p[4].key == "language"@ && p[5].key == "element_type"@
        && p[6].key == "project_id"@ && p[7].key == "worktree_id"@);
    assert("file_path"@.len() == 9 && "start_line"@.len() == 10 && "end_line"@.len() == 8
        && "content"@.len() == 7 && "language"@.len() == 8 && "element_type"@.len() == 12
        && "project_id"@.len() == 10 && "worktree_id"@.len() == 11);
    assert("end_line"@[0] == 'e' && "language"@[0] == 'l' && "start_line"@[0] == 's'
        && "project_id"@[0] == 'p');
    lemma_payload_get_at(p, "file_path"@, 0);
    lemma_payload_get_at(p, "start_line"@, 1);
    lemma_payload_get_at(p, "end_line"@, 2);
    lemma_payload_get_at(p, "content"@, 3);
    lemma_payload_get_at(p, "language"@, 4);
    lemma_payload_get_at(p, "element_type"@, 5);
    lemma_payload_get_at(p, "project_id"@, 6);
    lemma_payload_get_at(p, "worktree_id"@, 7);
}

proof fn lemma_payload_get_at(p: Seq<PayloadEntryView>, key: Seq<char>, i: int)
    requires
        0 <= i < p.len(),
        p[i].key == key,
        forall|j: int| 0 <= j < i ==> p[j].key != key,
    ensures
        spec_payload_get(p, key) == Some(p[i].value),
    decreases p.len(),
{
    if i > 0 {
        lemma_payload_get_at(p.drop_first(), key, i - 1);
    }
}

proof fn lemma_payload_get_none(p: Seq<PayloadEntryView>, key: Seq<char>)
    requires
        forall|j: int| 0 <= j < p.len() ==> p[j].key != key,
    ensures
        spec_payload_get(p, key) is None,
    decreases p.len(),
{
    if p.len() > 0 {
        lemma_payload_get_none(p.drop_first(), key);
    }
}

/// Find the first entry stored under `key`.
fn payload_find(p: &Vec<PayloadEntry>, key: &str) -> (r: Option<usize>)
    ensures
        match r {
            Some(i) => i < p@.len() && spec_payload_get(p.deep_view(), key@) == Some(
                p.deep_view()[i as int].value,
            ),
            None => spec_payload_get(p.deep_view(), key@) is None,
        },
{
    let mut i: usize = 0;
    while i < p.len()
        invariant
            i <= p@.len(),
            forall|j: int| 0 <= j < i ==> #[trigger] p.deep_view()[j].key != key@,
        decreases p@.len() - i,
    {
        if str_eq(p[i].key.as_str(), key) {
            proof {
                lemma_payload_get_at(p.deep_view(), key@, i as int);
            }
            return Some(i);
        }
        i = i + 1;
    }
    proof {
        lemma_payload_get_none(p.deep_view(), key@);
    }
    None
}

/// Read a text field back out of a payload, tolerating a missing field.
pub fn payload_text(p: &Vec<PayloadEntry>, key: &str) -> (r: String)
    ensures
        r@ == spec_payload_text(p.deep_view(), key@),
{
    match payload_find(p, key) {
        Some(i) => match &p[i].value {
            PayloadValue::Text(s) => s.clone(),
            PayloadValue::Integer(_) => String::new(),
        },
        None => String::new(),
    }
}

/// Read a line number back out of a payload, tolerating a missing field.
pub fn payload_line(p: &Vec<PayloadEntry>, key: &str) -> (r: usize)
    ensures
        r as int == spec_payload_line(p.deep_view(), key@),
{
    match payload_find(p, key) {
        Some(i) => match &p[i].value {
            PayloadValue::Integer(n) => {
                let n = *n;
                if 0 <= n && n as u64 <= usize::MAX as u64 {
                    n as usize
                } else {
                    0
                }
            },
            PayloadValue::Text(_) => 0,
        },
        None => 0,
    }
}

/// How a document id travels to the store: a decimal string becomes a
/// numeric point id, anything else a UUID-shaped point id, and a point that
/// came back with no id at all stands for the empty string.
pub enum PointIdKind {
    Uuid(String),
    Num(u64),
    Missing,
}

#[verifier::ext_equal]
pub enum PointIdKindView {
    Uuid(Seq<char>),
    Num(int),
    Missing,
}

impl View for PointIdKind {
    type V = PointIdKindView;

    open spec fn view(&self) -> PointIdKindView {
        match self {
            PointIdKind::Uuid(s) => PointIdKindView::Uuid(s@),
            PointIdKind::Num(n) => PointIdKindView::Num(*n as int),
            PointIdKind::Missing => PointIdKindView::Missing,
        }
    }
}

impl DeepView for PointIdKind {
    type V = PointIdKindView;

    open spec fn deep_view(&self) -> PointIdKindView {
        self@
    }
}

/// A decimal digit.
pub open spec fn spec_is_digit(c: char) -> bool {
    '0' <= c <= '9'
}

pub open spec fn spec_digit_val(c: char) -> int {
    c as int - '0' as int
}

pub open spec fn spec_all_digits(s: Seq<char>) -> bool {
    forall|i: int| 0 <= i < s.len() ==> spec_is_digit(#[trigger] s[i])
}

/// The number a digit string denotes.
pub open spec fn spec_decimal_value(s: Seq<char>) -> int
    decreases s.len(),
{
    if s.len() == 0 {
        0
    } else {
        spec_decimal_value(s.drop_last()) * 10 + spec_digit_val(s.last())
    }
}

proof fn lemma_decimal_value_nonneg(s: Seq<char>)
    requires
        spec_all_digits(s),
    ensures
        spec_decimal_value(s) >= 0,
    decreases s.len(),
{
    if s.len() > 0 {
        assert(spec_all_digits(s.drop_last()));
        lemma_decimal_value_nonneg(s.drop_last());
    }
}

proof fn lemma_decimal_value_take_le(s: Seq<char>, k: int)
    requires
        spec_all_digits(s),
        0 <= k <= s.len(),
    ensures
        spec_decimal_value(s.take(k)) <= spec_decimal_value(s),
    decreases s.len(),
{
    if k < s.len() {
        let dl = s.drop_last();
        assert(spec_all_digits(dl));
        assert(s.take(k) =~= dl.take(k));
        lemma_decimal_value_take_le(dl, k);
        lemma_decimal_value_nonneg(dl);
    } else {
        assert(s.take(k) =~= s);
    }
}

/// Parse a decimal string that fits a `u64`.
pub fn parse_u64_decimal(s: &str) -> (r: Option<u64>)
    ensures
        match r {
            Some(n) => s@.len() > 0 && spec_all_digits(s@) && n as int == spec_decimal_value(s@),
            None => !(s@.len() > 0 && spec_all_digits(s@) && spec_decimal_value(s@) <= u64::MAX),
        },
{
    let n = s.unicode_len();
    if n == 0 {
        return None;
    }
    let mut val: u64 = 0;
    let mut i: usize = 0;
    while i < n
        invariant
            i <= n,
            n == s@.len(),
            forall|j: int| 0 <= j < i ==> spec_is_digit(#[trigger] s@[j]),
            val as int == spec_decimal_value(s@.take(i as int)),
        decreases n - i,
    {
        let c = s.get_char(i);
        if c < '0' || c > '9' {
            return None;
        }
        let d: u64 = (c as u32 - '0' as u32) as u64;
        let stepped: Option<u64> = match val.checked_mul(10) {
            Some(v) => v.checked_add(d),
            None => None,
        };
        proof {
            assert(s@.take(i + 1).drop_last() =~= s@.take(i as int));
            assert(s@.take(i + 1).last() == s@[i as int]);
        }
        match stepped {
            Some(v) => {
                val = v;
            },
            None => {
                proof {
                    if spec_all_digits(s@) {
                        lemma_decimal_value_take_le(s@, i + 1);
                    }
                }
                return None;
            },
        }
        i = i + 1;
    }
    proof {
        assert(s@.take(n as int) =~= s@);
    }
    Some(val)
}

/// The string a point id stands for: a UUID id is the string itself, a
/// numeric id its decimal notation, a missing id the empty string.
pub open spec fn spec_point_id_string(k: PointIdKindView) -> Seq<char> {
    match k {
        PointIdKindView::Uuid(s) => s,
        PointIdKindView::Num(n) => spec_decimal(n as nat),
        PointIdKindView::Missing => Seq::empty(),
    }
}

/// Render a point id back into the caller's string form.
pub fn point_id_string(k: &PointIdKind) -> (r: String)
    ensures
        r@ == spec_point_id_string(k@),
{
    match k {
        PointIdKind::Uuid(s) => s.clone(),
        PointIdKind::Num(n) => u64_to_decimal(*n),
        PointIdKind::Missing => String::new(),
    }
}

/// Classify a caller-chosen id the way the store encodes it: a non-empty
/// decimal string that fits sixty-four bits becomes a numeric point id,
/// everything else travels as a UUID-shaped string.
pub fn parse_point_id(id: &str) -> (r: PointIdKind)
    ensures
        match r@ {
            PointIdKindView::Num(n) => id@.len() > 0 && spec_all_digits(id@) && n
                == spec_decimal_value(id@),
            PointIdKindView::Uuid(s) => s == id@ && !(id@.len() > 0 && spec_all_digits(id@)
                && spec_decimal_value(id@) <= u64::MAX),
            PointIdKindView::Missing => false,
        },
{
    match parse_u64_decimal(id) {
        Some(n) => PointIdKind::Num(n),
        None => PointIdKind::Uuid(id.to_owned()),
    }
}

/// One raw hit as the store hands it back: the point's id, its cosine
/// similarity to the query in millionths, and the stored payload.
pub struct ScoredPoint {
    pub id: PointIdKind,
    /// Cosine similarity scaled by a million, rounded toward minus infinity.
    pub score: i64,
    pub payload: Vec<PayloadEntry>,
}

#[verifier::ext_equal]
pub struct ScoredPointView {
    pub id: PointIdKindView,
    pub score: int,
    pub payload: Seq<PayloadEntryView>,
}

impl View for ScoredPoint {
    type V = ScoredPointView;

    open spec fn view(&self) -> ScoredPointView {
        ScoredPointView { id: self.id@, score: self.score as int, payload: self.payload.deep_view() }
    }
}

impl DeepView for ScoredPoint {
    type V = ScoredPointView;

    open spec fn deep_view(&self) -> ScoredPointView {
        self@
    }
}

/// What retrieval returns for one hit, the payload's fields reconstituted
/// with empty-string and zero defaults.
pub struct SearchResult {
    pub id: String,
    /// Cosine similarity scaled by a million.
    pub score: i64,
    pub file_path: String,
    pub start_line: usize,
    pub end_line: usize,
    pub content: String,
    pub language: String,
    pub element_type: String,
}

#[verifier::ext_equal]
pub struct SearchResultView {
    pub id: Seq<char>,
    pub score: int,
    pub file_path: Seq<char>,
    pub start_line: int,
    pub end_line: int,
    pub content: Seq<char>,
    pub language: Seq<char>,
    pub element_type: Seq<char>,
}

impl View for SearchResult {
    type V = SearchResultView;

    open spec fn view(&self) -> SearchResultView {
        SearchResultView {
            id: self.id@,
            score: self.score as int,
            file_path: self.file_path@,
            start_line: self.start_line as int,
            end_line: self.end_line as int,
            content: self.content@,
            language: self.language@,
            element_type: self.element_type@,
        }
    }
}

impl DeepView for SearchResult {
    type V = SearchResultView;

    open spec fn deep_view(&self) -> SearchResultView {
        self@
    }
}

/// The result one raw hit reconstitutes into.
pub open spec fn spec_result_of_point(p: ScoredPointView) -> SearchResultView {
    SearchResultView {
        id: spec_point_id_string(p.id),
        score: p.score,
        file_path: spec_payload_text(p.payload, "file_path"@),
        start_line: spec_payload_line(p.payload, "start_line"@),
        end_line: spec_payload_line(p.payload, "end_line"@),
        content: spec_payload_text(p.payload, "content"@),
        language: spec_payload_text(p.payload, "language"@),
        element_type: spec_payload_text(p.payload, "element_type"@),
    }
}

/// Reconstitute one raw hit.
pub fn search_result_from_point(p: &ScoredPoint) -> (r: SearchResult)
    ensures
        r@ == spec_result_of_point(p@),
{
    let r = SearchResult {
        id: point_id_string(&p.id),
        score: p.score,
        file_path: payload_text(&p.payload, "file_path"),
        start_line: payload_line(&p.payload, "start_line"),
        end_line: payload_line(&p.payload, "end_line"),
        content: payload_text(&p.payload, "content"),
        language: payload_text(&p.payload, "language"),
        element_type: payload_text(&p.payload, "element_type"),
    };
    proof {
        assert(r@ =~= spec_result_of_point(p@));
    }
    r
}

/// A score clears the threshold.
pub open spec fn spec_score_pred(threshold: int) -> spec_fn(ScoredPointView) -> bool {
    |p: ScoredPointView| p.score >= threshold
}

/// What a search hands the caller, given the raw hits: the hits whose score
/// clears the threshold, in their given order, at most `limit` of them, each
/// reconstituted into a `SearchResult`.
pub open spec fn spec_search_results(
    points: Seq<ScoredPointView>,
    limit: int,
    threshold: int,
) -> Seq<SearchResultView> {
    let kept = points.filter(spec_score_pred(threshold));
    let cut = if kept.len() <= limit {
        kept
    } else {
        kept.take(limit)
    };
    cut.map_values(|p: ScoredPointView| spec_result_of_point(p))
}

/// Filter, truncate and reconstitute the raw hits of one search call.
pub fn search_results_from_points(points: &Vec<ScoredPoint>, limit: usize, threshold: i64) -> (r:
    Vec<SearchResult>)
    ensures
        r.deep_view() == spec_search_results(points.deep_view(), limit as int, threshold as int),
{
    let ghost pv = points.deep_view();
    let ghost pred = spec_score_pred(threshold as int);
    let ghost f = |p: ScoredPointView| spec_result_of_point(p);
    let mut r: Vec<SearchResult> = Vec::new();
    let mut i: usize = 0;
    proof {
        reveal(Seq::filter);
        assert(pv.take(0).filter(pred) =~= Seq::empty());
        assert(r.deep_view() =~= spec_search_results(pv.take(0), limit as int, threshold as int));
    }
    while i < points.len()
        invariant
            i <= pv.len(),
            pv == points.deep_view(),
            pred == spec_score_pred(threshold as int),
            f == (|p: ScoredPointView| spec_result_of_point(p)),
            r@.len() == if pv.take(i as int).filter(pred).len() <= limit {
                pv.take(i as int).filter(pred).len() as int
            } else {
                limit as int
            },
            r.deep_view() == spec_search_results(pv.take(i as int), limit as int, threshold as int),
        decreases pv.len() - i,
    {
        let ghost kept = pv.take(i as int).filter(pred);
        proof {
            reveal(Seq::filter);
            assert(pv.take(i + 1).drop_last() =~= pv.take(i as int));
            assert(pv.take(i + 1).last() == pv[i as int]);
            assert(pv.take(i + 1).filter(pred) == if pred(pv[i as int]) {
                kept.push(pv[i as int])
            } else {
                kept
            });
        }
        let p = &points[i];
        if p.score >= threshold && r.len() < limit {
            let ghost prev = r.deep_view();
            let result = search_result_from_point(p);
            r.push(result);
            proof {
                assert(r.deep_view() =~= prev.push(f(pv[i as int])));
                let kept2 = kept.push(pv[i as int]);
                assert(kept2.len() <= limit);
                assert(kept2.map_values(f) =~= kept.map_values(f).push(f(pv[i as int])));
            }
        } else {
            proof {
                if pred(pv[i as int]) {
                    let kept2 = kept.push(pv[i as int]);
                    assert(kept.len() >= limit);
                    assert(kept2.take(limit as int) =~= kept.take(limit as int));
                    assert(kept.take(limit as int) =~= if kept.len() <= limit {
                        kept
                    } else {
                        kept.take(limit as int)
                    });
                }
            }
        }
        i = i + 1;
    }
    proof {
        assert(pv.take(pv.len() as int) =~= pv);
    }
    r
}

/// Bounds law: a search never returns more than `limit` results, and every
/// returned score clears the threshold.
pub proof fn lemma_search_results_bounded(
    points: Seq<ScoredPointView>,
    limit: int,
    threshold: int,
)
    requires
        0 <= limit,
    ensures
        spec_search_results(points, limit, threshold).len() <= limit,
        forall|k: int|
            0 <= k < spec_search_results(points, limit, threshold).len()
                ==> (#[trigger] spec_search_results(points, limit, threshold)[k]).score
                >= threshold,
{
    let pred = spec_score_pred(threshold);
    let kept = points.filter(pred);
    let cut = if kept.len() <= limit {
        kept
    } else {
        kept.take(limit)
    };
    let rs = spec_search_results(points, limit, threshold);
    assert forall|k: int| 0 <= k < rs.len() implies (#[trigger] rs[k]).score >= threshold by {
        assert(rs[k] == spec_result_of_point(cut[k]));
        assert(cut[k] == kept[k]);
        Seq::lemma_filter_pred(points, pred, k);
    }
}

/// Scores never increase along the sequence.
pub open spec fn spec_scores_sorted_desc(points: Seq<ScoredPointView>) -> bool {
    forall|i: int, j: int| 0 <= i < j < points.len() ==> points[i].score >= points[j].score
}

/// Result scores never increase along the sequence.
pub open spec fn spec_results_sorted_desc(rs: Seq<SearchResultView>) -> bool {
    forall|i: int, j: int| 0 <= i < j < rs.len() ==> rs[i].score >= rs[j].score
}

proof fn lemma_filter_membership<A>(s: Seq<A>, pred: spec_fn(A) -> bool)
    ensures
        forall|i: int|
            0 <= i < s.filter(pred).len() ==> exists|k: int|
                0 <= k < s.len() && s[k] == #[trigger] s.filter(pred)[i],
    decreases s.len(),
{
    reveal(Seq::filter);
    if s.len() > 0 {
        let dl = s.drop_last();
        lemma_filter_membership(dl, pred);
        let out = s.filter(pred);
        assert forall|i: int| 0 <= i < out.len() implies exists|k: int|
            0 <= k < s.len() && s[k] == #[trigger] out[i] by {
            if i < dl.filter(pred).len() {
                let k = choose|k: int| 0 <= k < dl.len() && dl[k] == dl.filter(pred)[i];
                assert(s[k] == out[i]);
            } else {
                assert(s[s.len() - 1] == out[i]);
            }
        }
    }
}

proof fn lemma_filter_sorted(s: Seq<ScoredPointView>, threshold: int)
    requires
        spec_scores_sorted_desc(s),
    ensures
        spec_scores_sorted_desc(s.filter(spec_score_pred(threshold))),
    decreases s.len(),
{
    reveal(Seq::filter);
    let pred = spec_score_pred(threshold);
    if s.len() > 0 {
        let dl = s.drop_last();
        assert(spec_scores_sorted_desc(dl));
        lemma_filter_sorted(dl, threshold);
        lemma_filter_membership(dl, pred);
        let out = s.filter(pred);
        if pred(s.last()) {
            assert forall|i: int, j: int| 0 <= i < j < out.len() implies out[i].score
                >= out[j].score by {
                if j < out.len() - 1 {
                    assert(out[i] == dl.filter(pred)[i] && out[j] == dl.filter(pred)[j]);
                } else {
                    assert(out[j] == s.last());
                    assert(out[i] == dl.filter(pred)[i]);
                    let k = choose|k: int| 0 <= k < dl.len() && dl[k] == dl.filter(pred)[i];
                    assert(s[k].score >= s[s.len() - 1].score);
                }
            }
        }
    }
}

proof fn lemma_filter_all_pass(s: Seq<ScoredPointView>, threshold: int)
    requires
        forall|i: int| 0 <= i < s.len() ==> #[trigger] s[i].score >= threshold,
    ensures
        s.filter(spec_score_pred(threshold)) == s,
    decreases s.len(),
{
    reveal(Seq::filter);
    if s.len() > 0 {
        let dl = s.drop_last();
        lemma_filter_all_pass(dl, threshold);
        assert(s.filter(spec_score_pred(threshold)) =~= s);
    } else {
        assert(s.filter(spec_score_pred(threshold)) =~= s);
    }
}

proof fn lemma_filter_threshold_prefix(s: Seq<ScoredPointView>, t1: int, t2: int)
    requires
        spec_scores_sorted_desc(s),
        t1 <= t2,
    ensures
        s.filter(spec_score_pred(t2)).is_prefix_of(s.filter(spec_score_pred(t1))),
    decreases s.len(),
{
    reveal(Seq::filter);
    let p1 = spec_score_pred(t1);
    let p2 = spec_score_pred(t2);
    if s.len() == 0 {
        assert(s.filter(p2) =~= s.filter(p1));
    } else {
        let dl = s.drop_last();
        assert(spec_scores_sorted_desc(dl));
        lemma_filter_threshold_prefix(dl, t1, t2);
        if p2(s.last()) {
            // The last score is the smallest, so every score clears both
            // thresholds and both filters keep everything.
            assert forall|i: int| 0 <= i < s.len() implies #[trigger] s[i].score >= t2 by {
                if i < s.len() - 1 {
                    assert(s[i].score >= s[s.len() - 1].score);
                }
            }
            lemma_filter_all_pass(s, t2);
            assert forall|i: int| 0 <= i < s.len() implies #[trigger] s[i].score >= t1 by {
                assert(s[i].score >= t2);
            }
            lemma_filter_all_pass(s, t1);
        } else {
            assert(s.filter(p2) == dl.filter(p2));
            assert(dl.filter(p1).is_prefix_of(s.filter(p1))) by {
                if p1(s.last()) {
                    assert(s.filter(p1) == dl.filter(p1).push(s.last()));
                    assert(dl.filter(p1).is_prefix_of(dl.filter(p1).push(s.last()))) by {
                        assert(dl.filter(p1).push(s.last()).take(dl.filter(p1).len() as int)
                            =~= dl.filter(p1));
                    }
                } else {
                    assert(s.filter(p1) == dl.filter(p1));
                }
            }
            // prefix is transitive
            let a = s.filter(p2);
            let b = dl.filter(p1);
            let c = s.filter(p1);
            assert(a.is_prefix_of(c)) by {
                assert(a.is_prefix_of(b));
                assert(b.is_prefix_of(c));
                assert(c.take(a.len() as int) =~= a) by {
                    assert(b.take(a.len() as int) =~= a);
                    assert forall|k: int| 0 <= k < a.len() implies c[k] == a[k] by {
                        assert(b[k] == a[k]);
                        assert(c[k] == b[k]);
                    }
                }
            }
        }
    }
}

/// Ordering law: when the raw hits arrive sorted by score descending — as
/// the store returns them — the reconstituted results are sorted by score
/// descending too.
pub proof fn lemma_search_results_sorted(points: Seq<ScoredPointView>, limit: int, threshold: int)
    requires
        0 <= limit,
        spec_scores_sorted_desc(points),
    ensures
        spec_results_sorted_desc(spec_search_results(points, limit, threshold)),
{
    lemma_filter_sorted(points, threshold);
    let kept = points.filter(spec_score_pred(threshold));
    let cut = if kept.len() <= limit {
        kept
    } else {
        kept.take(limit)
    };
    let rs = spec_search_results(points, limit, threshold);
    assert forall|i: int, j: int| 0 <= i < j < rs.len() implies rs[i].score >= rs[j].score by {
        assert(rs[i] == spec_result_of_point(cut[i]));
        assert(rs[j] == spec_result_of_point(cut[j]));
        assert(cut[i].score >= cut[j].score);
    }
}

/// Threshold law: raising the threshold can only shrink the result list.
/// With the raw hits sorted by score descending, the results for the higher
/// threshold are a prefix of the results for the lower one — in particular a
/// subset, as sets of ids.
pub proof fn lemma_search_threshold_monotone(
    points: Seq<ScoredPointView>,
    limit: int,
    t1: int,
    t2: int,
)
    requires
        0 <= limit,
        spec_scores_sorted_desc(points),
        t1 <= t2,
    ensures
        spec_search_results(points, limit, t2).is_prefix_of(
            spec_search_results(points, limit, t1),
        ),
        forall|k: int|
            0 <= k < spec_search_results(points, limit, t2).len()
                ==> spec_search_results(points, limit, t1).contains(
                #[trigger] spec_search_results(points, limit, t2)[k],
            ),
{
    lemma_filter_threshold_prefix(points, t1, t2);
    let f2 = points.filter(spec_score_pred(t2));
    let f1 = points.filter(spec_score_pred(t1));
    let cut2 = if f2.len() <= limit {
        f2
    } else {
        f2.take(limit)
    };
    let cut1 = if f1.len() <= limit {
        f1
    } else {
        f1.take(limit)
    };
    let r2 = spec_search_results(points, limit, t2);
    let r1 = spec_search_results(points, limit, t1);
    assert(f1.take(f2.len() as int) =~= f2);
    assert forall|k: int| 0 <= k < cut2.len() implies cut1[k] == cut2[k] by {
        assert(cut2[k] == f2[k]);
        assert(f2[k] == f1[k]);
        assert(cut1[k] == f1[k]);
    }
    assert(r1.take(r2.len() as int) =~= r2) by {
        assert forall|k: int| 0 <= k < r2.len() implies r1[k] == r2[k] by {
            assert(r2[k] == spec_result_of_point(cut2[k]));
            assert(r1[k] == spec_result_of_point(cut1[k]));
        }
    }
    assert forall|k: int| 0 <= k < r2.len() implies r1.contains(#[trigger] r2[k]) by {
        assert(r1[k] == r2[k]);
    }
}

/// What is persisted for one chunk: a caller-chosen id, the embedding
/// vector, and the structured metadata.
pub struct VectorDocument {
    pub id: String,
    /// Vector components scaled by a million (the store itself holds the
    /// floating-point values).
    pub embedding: Vec<i64>,
    pub metadata: DocumentMetadata,
}

#[verifier::ext_equal]
pub struct VectorDocumentView {
    pub id: Seq<char>,
    pub embedding: Seq<i64>,
    pub metadata: DocumentMetadataView,
}

impl View for VectorDocument {
    type V = VectorDocumentView;

    open spec fn view(&self) -> VectorDocumentView {
        VectorDocumentView { id: self.id@, embedding: self.embedding@, metadata: self.metadata@ }
    }
}

impl DeepView for VectorDocument {
    type V = VectorDocumentView;

    open spec fn deep_view(&self) -> VectorDocumentView {
        self@
    }
}

/// No two documents share an id.
pub open spec fn spec_ids_unique(docs: Seq<VectorDocumentView>) -> bool {
    forall|i: int, j: int| 0 <= i < j < docs.len() ==> docs[i].id != docs[j].id
}

/// The position of the document stored under `id`.
pub open spec fn spec_find_doc(docs: Seq<VectorDocumentView>, id: Seq<char>) -> Option<int>
    decreases docs.len(),
{
    if docs.len() == 0 {
        None
    } else if docs[0].id == id {
        Some(0)
    } else {
        match spec_find_doc(docs.drop_first(), id) {
            Some(j) => Some(j + 1),
            None => None,
        }
    }
}

/// Insert-or-replace one document by id: the upsert the store performs.
pub open spec fn spec_upsert_one(
    docs: Seq<VectorDocumentView>,
    d: VectorDocumentView,
) -> Seq<VectorDocumentView> {
    match spec_find_doc(docs, d.id) {
        Some(i) => docs.update(i, d),
        None => docs.push(d),
    }
}

/// Upsert a batch, first document first.
pub open spec fn spec_upsert_all(
    docs: Seq<VectorDocumentView>,
    ds: Seq<VectorDocumentView>,
) -> Seq<VectorDocumentView>
    decreases ds.len(),
{
    if ds.len() == 0 {
        docs
    } else {
        spec_upsert_all(spec_upsert_one(docs, ds.first()), ds.drop_first())
    }
}

proof fn lemma_find_doc_bounds(docs: Seq<VectorDocumentView>, id: Seq<char>)
    ensures
        match spec_find_doc(docs, id) {
            Some(i) => 0 <= i < docs.len() && docs[i].id == id,
            None => forall|j: int| 0 <= j < docs.len() ==> docs[j].id != id,
        },
    decreases docs.len(),
{
    if docs.len() > 0 && docs[0].id != id {
        lemma_find_doc_bounds(docs.drop_first(), id);
        match spec_find_doc(docs.drop_first(), id) {
            Some(i) => {
                assert(docs[i + 1] == docs.drop_first()[i]);
            },
            None => {
                assert forall|j: int| 0 <= j < docs.len() implies docs[j].id != id by {
                    if j > 0 {
                        assert(docs.drop_first()[j - 1] == docs[j]);
                    }
                }
            },
        }
    }
}

proof fn lemma_find_doc_at(docs: Seq<VectorDocumentView>, id: Seq<char>, i: int)
    requires
        0 <= i < docs.len(),
        docs[i].id == id,
        forall|j: int| 0 <= j < i ==> docs[j].id != id,
    ensures
        spec_find_doc(docs, id) == Some(i),
    decreases docs.len(),
{
    if i > 0 {
        lemma_find_doc_at(docs.drop_first(), id, i - 1);
    }
}

proof fn lemma_find_doc_none(docs: Seq<VectorDocumentView>, id: Seq<char>)
    requires
        forall|j: int| 0 <= j < docs.len() ==> docs[j].id != id,
    ensures
        spec_find_doc(docs, id) is None,
    decreases docs.len(),
{
    if docs.len() > 0 {
        lemma_find_doc_none(docs.drop_first(), id);
    }
}

/// The model of one named collection: its declared dimension and the
/// documents it holds, one per id. It says what the remote collection holds
/// after the operations the store exposes.
pub struct CollectionModel {
    pub vector_size: usize,
    pub docs: Vec<VectorDocument>,
}

impl CollectionModel {
    /// Ids are unique and every stored vector has the declared dimension.
    pub open spec fn wf(self) -> bool {
        &&& spec_ids_unique(self.docs.deep_view())
        &&& forall|i: int|
            0 <= i < self.docs.deep_view().len() ==> (#[trigger] self.docs.deep_view()[i].embedding).len()
                == self.vector_size
    }

    /// An empty collection of the declared dimension.
    pub fn new(vector_size: usize) -> (r: Self)
        ensures
            r.wf(),
            r.vector_size == vector_size,
            r.docs.deep_view() == Seq::<VectorDocumentView>::empty(),
    {
        let r = CollectionModel { vector_size, docs: Vec::new() };
        proof {
            assert(r.docs.deep_view() =~= Seq::<VectorDocumentView>::empty());
        }
        r
    }

    /// How many documents the collection holds.
    pub fn collection_count(&self) -> (r: usize)
        ensures
            r == self.docs.deep_view().len(),
    {
        self.docs.len()
    }

    /// The position of the document stored under `id`.
    fn find_doc(&self, id: &str) -> (r: Option<usize>)
        ensures
            match r {
                Some(i) => spec_find_doc(self.docs.deep_view(), id@) == Some(i as int),
                None => spec_find_doc(self.docs.deep_view(), id@) is None,
            },
    {
        let mut i: usize = 0;
        while i < self.docs.len()
            invariant
                i <= self.docs@.len(),
                forall|j: int| 0 <= j < i ==> #[trigger] self.docs.deep_view()[j].id != id@,
            decreases self.docs@.len() - i,
        {
            if str_eq(self.docs[i].id.as_str(), id) {
                proof {
                    lemma_find_doc_at(self.docs.deep_view(), id@, i as int);
                }
                return Some(i);
            }
            i = i + 1;
        }
        proof {
            lemma_find_doc_none(self.docs.deep_view(), id@);
        }
        None
    }

    /// Upsert a batch of documents: each is inserted under its id, replacing
    /// the document already stored there if any; inserting never duplicates
    /// an id.
    pub fn insert_documents(&mut self, documents: Vec<VectorDocument>)
        requires
            old(self).wf(),
            forall|k: int|
                0 <= k < documents.deep_view().len()
                    ==> (#[trigger] documents.deep_view()[k].embedding).len() == old(
                    self,
                ).vector_size,
        ensures
            final(self).wf(),
            final(self).vector_size == old(self).vector_size,
            final(self).docs.deep_view() == spec_upsert_all(
                old(self).docs.deep_view(),
                documents.deep_view(),
            ),
    {
        let mut documents = documents;
        let ghost target = spec_upsert_all(old(self).docs.deep_view(), documents.deep_view());
        while documents.len() > 0
            invariant
                self.wf(),
                self.vector_size == old(self).vector_size,
                forall|k: int|
                    0 <= k < documents.deep_view().len()
                        ==> (#[trigger] documents.deep_view()[k].embedding).len()
                        == self.vector_size,
                target == spec_upsert_all(self.docs.deep_view(), documents.deep_view()),
            decreases documents@.len(),
        {
            let ghost before_docs = self.docs.deep_view();
            let ghost before_ds = documents.deep_view();
            let d = documents.remove(0);
            let ghost di = d.deep_view();
            proof {
                assert(documents.deep_view() =~= before_ds.drop_first());
                assert(di == before_ds.first());
                assert(di.embedding.len() == self.vector_size);
                lemma_find_doc_bounds(before_docs, di.id);
            }
            match self.find_doc(d.id.as_str()) {
                Some(i) => {
                    self.docs.remove(i);
                    self.docs.insert(i, d);
                    proof {
                        assert(self.docs.deep_view() =~= before_docs.update(i as int, di));
                        assert(self.docs.deep_view() == spec_upsert_one(before_docs, di));
                        assert(spec_ids_unique(self.docs.deep_view())) by {
                            assert(before_docs[i as int].id == di.id);
                            assert(forall|k: int|
                                0 <= k < before_docs.len() ==> (#[trigger] self.docs.deep_view()[k]).id
                                    == before_docs[k].id);
                        }
                    }
                },
                None => {
                    self.docs.push(d);
                    proof {
                        assert(self.docs.deep_view() =~= before_docs.push(di));
                        assert(self.docs.deep_view() == spec_upsert_one(before_docs, di));
                    }
                },
            }
            proof {
                assert(spec_upsert_all(before_docs, before_ds) == spec_upsert_all(
                    self.docs.deep_view(),
                    documents.deep_view(),
                ));
            }
        }
        proof {
            assert(spec_upsert_all(self.docs.deep_view(), documents.deep_view())
                == self.docs.deep_view());
        }
    }

    /// Remove the documents stored under the listed ids; ids the collection
    /// does not hold are silently ignored.
    pub fn delete_documents(&mut self, ids: &Vec<String>)
        requires
            old(self).wf(),
        ensures
            final(self).wf(),
            final(self).vector_size == old(self).vector_size,
            final(self).docs.deep_view() == spec_delete(old(self).docs.deep_view(), ids.deep_view()),
    {
        let ghost old_docs = self.docs.deep_view();
        let ghost idset = ids.deep_view();
        let ghost pred = spec_keep_pred(idset);
        let mut kept: Vec<VectorDocument> = Vec::new();
        let mut i: usize = 0;
        proof {
            reveal(Seq::filter);
            assert(old_docs.take(0).filter(pred) =~= kept.deep_view());
        }
        while i < self.docs.len()
            invariant
                i <= self.docs@.len(),
                old_docs == self.docs.deep_view(),
                idset == ids.deep_view(),
                pred == spec_keep_pred(idset),
                kept.deep_view() == old_docs.take(i as int).filter(pred),
            decreases self.docs@.len() - i,
        {
            proof {
                reveal(Seq::filter);
                assert(old_docs.take(i + 1).drop_last() =~= old_docs.take(i as int));
                assert(old_docs.take(i + 1).last() == old_docs[i as int]);
            }
            let d = &self.docs[i];
            if !contains_string(ids, d.id.as_str()) {
                let ghost prev = kept.deep_view();
                let copy = VectorDocument {
                    id: d.id.clone(),
                    embedding: vstd::slice::slice_to_vec(d.embedding.as_slice()),
                    metadata: clone_metadata(&d.metadata),
                };
                proof {
                    assert(copy.deep_view() =~= old_docs[i as int]);
                }
                kept.push(copy);
                proof {
                    assert(kept.deep_view() =~= prev.push(old_docs[i as int]));
                }
            }
            i = i + 1;
        }
        proof {
            assert(old_docs.take(old_docs.len() as int) =~= old_docs);
            lemma_filter_membership(old_docs, pred);
            lemma_filter_unique_ids(old_docs, pred);
        }
        self.docs = kept;
    }
}

/// Copy a metadata record field for field.
fn clone_metadata(m: &DocumentMetadata) -> (r: DocumentMetadata)
    ensures
        r@ == m@,
{
    let r = DocumentMetadata {
        file_path: m.file_path.clone(),
        start_line: m.start_line,
        end_line: m.end_line,
        content: m.content.clone(),
        language: m.language.clone(),
        element_type: m.element_type.clone(),
        project_id: m.project_id.clone(),
        worktree_id: m.worktree_id.clone(),
    };
    proof {
        assert(r@ =~= m@);
    }
    r
}

/// A document survives a deletion when its id is not among the listed ids.
pub open spec fn spec_keep_pred(idset: Seq<Seq<char>>) -> spec_fn(VectorDocumentView) -> bool {
    |d: VectorDocumentView| !idset.contains(d.id)
}

/// What deleting a list of ids leaves: the documents whose id is not listed,
/// in their stored order.
pub open spec fn spec_delete(
    docs: Seq<VectorDocumentView>,
    idset: Seq<Seq<char>>,
) -> Seq<VectorDocumentView> {
    docs.filter(spec_keep_pred(idset))
}

/// One of the listed ids equals `id`.
fn contains_string(ids: &Vec<String>, id: &str) -> (r: bool)
    ensures
        r == ids.deep_view().contains(id@),
{
    let mut i: usize = 0;
    while i < ids.len()
        invariant
            i <= ids@.len(),
            forall|j: int| 0 <= j < i ==> #[trigger] ids.deep_view()[j] != id@,
        decreases ids@.len() - i,
    {
        if str_eq(ids[i].as_str(), id) {
            assert(ids.deep_view()[i as int] == id@);
            return true;
        }
        i = i + 1;
    }
    proof {
        assert forall|j: int| 0 <= j < ids.deep_view().len() implies ids.deep_view()[j] != id@ by {}
    }
    false
}

proof fn lemma_filter_unique_ids(docs: Seq<VectorDocumentView>, pred: spec_fn(VectorDocumentView) -> bool)
    requires
        spec_ids_unique(docs),
    ensures
        spec_ids_unique(docs.filter(pred)),
    decreases docs.len(),
{
    reveal(Seq::filter);
    if docs.len() > 0 {
        let dl = docs.drop_last();
        assert(spec_ids_unique(dl));
        lemma_filter_unique_ids(dl, pred);
        lemma_filter_membership(dl, pred);
        let out = docs.filter(pred);
        if pred(docs.last()) {
            assert forall|i: int, j: int| 0 <= i < j < out.len() implies out[i].id != out[j].id by {
                if j < out.len() - 1 {
                    assert(out[i] == dl.filter(pred)[i] && out[j] == dl.filter(pred)[j]);
                } else {
                    assert(out[j] == docs.last());
                    assert(out[i] == dl.filter(pred)[i]);
                    let k = choose|k: int| 0 <= k < dl.len() && dl[k] == dl.filter(pred)[i];
                    assert(docs[k].id != docs[docs.len() - 1].id);
                }
            }
        }
    }
}

/// Some stored document carries `id`.
pub open spec fn spec_contains_id(docs: Seq<VectorDocumentView>, id: Seq<char>) -> bool {
    exists|i: int| 0 <= i < docs.len() && #[trigger] docs[i].id == id
}

/// A batch names `id`.
pub open spec fn spec_batch_has_id(ds: Seq<VectorDocumentView>, id: Seq<char>) -> bool {
    exists|k: int| 0 <= k < ds.len() && #[trigger] ds[k].id == id
}

proof fn lemma_upsert_one_len(docs: Seq<VectorDocumentView>, d: VectorDocumentView)
    ensures
        spec_upsert_one(docs, d).len() == if spec_contains_id(docs, d.id) {
            docs.len() as int
        } else {
            docs.len() + 1 as int
        },
        forall|x: Seq<char>|
            #[trigger] spec_contains_id(spec_upsert_one(docs, d), x) == (spec_contains_id(docs, x)
                || x == d.id),
{
    lemma_find_doc_bounds(docs, d.id);
    let out = spec_upsert_one(docs, d);
    match spec_find_doc(docs, d.id) {
        Some(i) => {
            assert(spec_contains_id(docs, d.id));
            assert forall|x: Seq<char>|
                #[trigger] spec_contains_id(out, x) == (spec_contains_id(docs, x) || x == d.id) by {
                if spec_contains_id(docs, x) {
                    let j = choose|j: int| 0 <= j < docs.len() && #[trigger] docs[j].id == x;
                    if j == i {
                        assert(out[i].id == d.id);
                        assert(docs[i].id == d.id);
                        assert(out[i].id == x);
                    } else {
                        assert(out[j].id == x);
                    }
                }
                if x == d.id {
                    assert(out[i].id == x);
                }
                if spec_contains_id(out, x) {
                    let j = choose|j: int| 0 <= j < out.len() && #[trigger] out[j].id == x;
                    if j != i {
                        assert(docs[j].id == x);
                    }
                }
            }
        },
        None => {
            assert(!spec_contains_id(docs, d.id));
            assert forall|x: Seq<char>|
                #[trigger] spec_contains_id(out, x) == (spec_contains_id(docs, x) || x == d.id) by {
                if spec_contains_id(docs, x) {
                    let j = choose|j: int| 0 <= j < docs.len() && #[trigger] docs[j].id == x;
                    assert(out[j].id == x);
                }
                if x == d.id {
                    assert(out[docs.len() as int].id == x);
                }
                if spec_contains_id(out, x) {
                    let j = choose|j: int| 0 <= j < out.len() && #[trigger] out[j].id == x;
                    if j < docs.len() {
                        assert(docs[j].id == x);
                    }
                }
            }
        },
    }
}

proof fn lemma_upsert_all_len_when_all_present(
    docs: Seq<VectorDocumentView>,
    ds: Seq<VectorDocumentView>,
)
    requires
        forall|k: int| 0 <= k < ds.len() ==> spec_contains_id(docs, (#[trigger] ds[k]).id),
    ensures
        spec_upsert_all(docs, ds).len() == docs.len(),
    decreases ds.len(),
{
    if ds.len() > 0 {
        let next = spec_upsert_one(docs, ds.first());
        lemma_upsert_one_len(docs, ds.first());
        assert(next.len() == docs.len());
        assert forall|k: int|
            0 <= k < ds.drop_first().len() implies spec_contains_id(
            next,
            (#[trigger] ds.drop_first()[k]).id,
        ) by {
            assert(ds.drop_first()[k] == ds[k + 1]);
        }
        lemma_upsert_all_len_when_all_present(next, ds.drop_first());
    }
}

proof fn lemma_upsert_all_contains(docs: Seq<VectorDocumentView>, ds: Seq<VectorDocumentView>)
    ensures
        forall|x: Seq<char>|
            #[trigger] spec_contains_id(spec_upsert_all(docs, ds), x) == (spec_contains_id(docs, x)
                || spec_batch_has_id(ds, x)),
    decreases ds.len(),
{
    if ds.len() == 0 {
        assert forall|x: Seq<char>| !spec_batch_has_id(ds, x) by {}
    } else {
        let next = spec_upsert_one(docs, ds.first());
        lemma_upsert_one_len(docs, ds.first());
        lemma_upsert_all_contains(next, ds.drop_first());
        assert forall|x: Seq<char>|
            #[trigger] spec_contains_id(spec_upsert_all(docs, ds), x) == (spec_contains_id(docs, x)
                || spec_batch_has_id(ds, x)) by {
            assert(spec_contains_id(spec_upsert_all(next, ds.drop_first()), x) == (
            spec_contains_id(next, x) || spec_batch_has_id(ds.drop_first(), x)));
            if spec_batch_has_id(ds, x) {
                let k = choose|k: int| 0 <= k < ds.len() && #[trigger] ds[k].id == x;
                if k == 0 {
                    assert(x == ds.first().id);
                } else {
                    assert(ds.drop_first()[k - 1].id == x);
                    assert(spec_batch_has_id(ds.drop_first(), x));
                }
            }
            if spec_batch_has_id(ds.drop_first(), x) {
                let k = choose|k: int|
                    0 <= k < ds.drop_first().len() && #[trigger] ds.drop_first()[k].id == x;
                assert(ds[k + 1].id == x);
            }
        }
    }
}

/// Upsert idempotence law: writing the same batch twice leaves the
/// collection's document count exactly where one write left it — an upsert
/// never duplicates.
pub proof fn lemma_upsert_idempotent(docs: Seq<VectorDocumentView>, ds: Seq<VectorDocumentView>)
    ensures
        spec_upsert_all(spec_upsert_all(docs, ds), ds).len() == spec_upsert_all(docs, ds).len(),
{
    let once = spec_upsert_all(docs, ds);
    lemma_upsert_all_contains(docs, ds);
    assert forall|k: int| 0 <= k < ds.len() implies spec_contains_id(
        once,
        (#[trigger] ds[k]).id,
    ) by {
        assert(spec_batch_has_id(ds, ds[k].id));
    }
    lemma_upsert_all_len_when_all_present(once, ds);
}

/// The one backend failure that `collection_exists` translates to `false`
/// rather than an error: the message says the collection doesn't exist.
pub fn error_indicates_missing_collection(message: &str) -> (r: bool)
    ensures
        r == crate::strutil::spec_contains(message@, "doesn't exist"@),
{
    crate::strutil::str_contains(message, "doesn't exist")
}

} // verus!
