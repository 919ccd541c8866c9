use vstd::prelude::*;
use vstd::string::*;

use crate::strutil::spec_decimal;
use crate::strutil::u64_to_decimal;
use crate::vector_store::{SearchResult, SearchResultView};

verus! {

/// The parsed input of one semantic-search invocation.
pub struct SemanticSearchInput {
    /// The natural-language query to search for.
    pub query: String,
    /// Maximum number of results to return.
    pub limit: Option<usize>,
    /// Minimum similarity score, in millionths of cosine similarity.
    pub threshold: Option<i64>,
}

/// The limit a request resolves to: ten when none was given.
pub fn resolved_limit(input: &SemanticSearchInput) -> (r: usize)
    ensures
        r == match input.limit {
            Some(l) => l as int,
            None => 10,
        },
{
    match input.limit {
        Some(l) => l,
        None => 10,
    }
}

/// The score threshold a request resolves to: half of full similarity
/// (five hundred thousand millionths) when none was given.
pub fn resolved_threshold(input: &SemanticSearchInput) -> (r: i64)
    ensures
        r == match input.threshold {
            Some(t) => t as int,
            None => 500000,
        },
{
    match input.threshold {
        Some(t) => t,
        None => 500000,
    }
}

/// The tool the host application invokes for semantic code search.
pub struct SemanticSearchTool;

impl SemanticSearchTool {
    /// The tool's registered name.
    pub fn name(&self) -> (r: String)
        ensures
            r@ == "semantic_search"@,
    {
        "semantic_search".to_owned()
    }

    /// One line describing the tool to the model.
    pub fn description(&self) -> (r: String)
        ensures
            r@ == "Search for code semantically using natural language queries"@,
    {
        "Search for code semantically using natural language queries".to_owned()
    }

    /// The tool never asks the user before running.
    pub fn needs_confirmation(&self) -> (r: bool)
        ensures
            r == false,
    {
        false
    }

    /// The tool never edits anything.
    pub fn may_perform_edits(&self) -> (r: bool)
        ensures
            r == false,
    {
        false
    }

    /// The line shown while the tool runs.
    pub fn ui_text(&self, input: &SemanticSearchInput) -> (r: String)
        ensures
            r@ == "Search for: "@ + input.query@,
    {
        let mut s = "Search for: ".to_owned();
        s.append(input.query.as_str());
        s
    }
}

/// One rendered entry of the report: the path and line range in bold, then
/// the content fenced.
pub open spec fn spec_report_entry(r: SearchResultView) -> Seq<char> {
    "**"@ + r.file_path + ":"@ + spec_decimal(r.start_line as nat) + ":"@ + spec_decimal(
        r.end_line as nat,
    ) + "**\n```\n"@ + r.content + "\n```\n\n"@
}

/// The rendered entries from `i` on.
pub open spec fn spec_report_entries(rs: Seq<SearchResultView>, i: int) -> Seq<char>
    decreases rs.len() - i,
    when 0 <= i <= rs.len()
{
    if i >= rs.len() {
        Seq::empty()
    } else {
        spec_report_entry(rs[i]) + spec_report_entries(rs, i + 1)
    }
}

/// The whole report: the fixed sentence when nothing was found, else every
/// entry in result order.
pub open spec fn spec_report(rs: Seq<SearchResultView>) -> Seq<char> {
    if rs.len() == 0 {
        "No results found for the query."@
    } else {
        spec_report_entries(rs, 0)
    }
}

/// Render search results as the human-readable report the tool returns.
pub fn render_search_results(results: &Vec<SearchResult>) -> (r: String)
    ensures
        r@ == spec_report(results.deep_view()),
{
    let ghost rs = results.deep_view();
    if results.len() == 0 {
        return "No results found for the query.".to_owned();
    }
    let mut out = String::new();
    let mut i: usize = 0;
    proof {
        assert(out@ + spec_report_entries(rs, 0) =~= spec_report_entries(rs, 0));
    }
    while i < results.len()
        invariant
            i <= results@.len(),
            rs == results.deep_view(),
            spec_report_entries(rs, 0) == out@ + spec_report_entries(rs, i as int),
        decreases results@.len() - i,
    {
        let ghost prev = out@;
        let entry = &results[i];
        out.append("**");
        out.append(entry.file_path.as_str());
        out.append(":");
        let start_s = u64_to_decimal(entry.start_line as u64);
        out.append(start_s.as_str());
        out.append(":");
        let end_s = u64_to_decimal(entry.end_line as u64);
        out.append(end_s.as_str());
        out.append("**\n```\n");
        out.append(entry.content.as_str());
        out.append("\n```\n\n");
        proof {
            assert(out@ =~= prev + spec_report_entry(rs[i as int]));
            assert(prev + spec_report_entries(rs, i as int) =~= out@ + spec_report_entries(
                rs,
                i + 1,
            ));
        }
        i = i + 1;
    }
    proof {
        assert(out@ + spec_report_entries(rs, i as int) =~= out@);
    }
    out
}

} // verus!
