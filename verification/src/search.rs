//! What is sent to the index and what a reply counts for.

use vstd::prelude::*;
use vstd::string::StrSliceExecFns;
use vstd::string::StringExecFns;
use crate::document::Document;

verus! {

/// The cap on hits of the exact lookup.
pub const EXACT_MAX_HITS: u32 = 10;

/// The cap on hits of each lookup of the fuzzy pass.
pub const FUZZY_MAX_HITS: u32 = 100;

/// The body of a search request.
#[derive(Debug, Clone)]
pub struct SearchRequest {
    pub query: String,
    pub max_hits: u32,
}

/// How a lookup ended.
#[derive(Debug, Clone)]
pub enum Reply {
    /// The index answered with these hits.
    Hits(Vec<Document>),
    /// The index answered with a status other than success.
    Rejected,
    /// The index answered with a body that could not be read.
    Malformed,
    /// The index could not be reached.
    Unreachable,
}

/// The query text: the term, scoped to the field where one is given.
pub open spec fn scoped_query(field: Seq<char>, term: Seq<char>) -> Seq<char> {
    if field.len() > 0 {
        field + seq![':'] + term
    } else {
        term
    }
}

/// The address of the search endpoint of an index.
pub open spec fn endpoint(base: Seq<char>, index: Seq<char>) -> Seq<char> {
    base + "/api/v1/"@ + index + "/search"@
}

/// The hits that a reply counts for: its own where the index answered with
/// hits, none in every other case.
pub open spec fn reply_hits(reply: Reply) -> Seq<Document> {
    match reply {
        Reply::Hits(hits) => hits@,
        _ => Seq::empty(),
    }
}

/// Builds the request for `term`, scoped to `field` unless `field` is
/// empty.
pub fn search_request(field: &str, term: &str, max_hits: u32) -> (request: SearchRequest)
    ensures
        request.query@ == scoped_query(field@, term@),
        request.max_hits == max_hits,
{
    let mut query: String = String::new();
    if field.unicode_len() > 0 {
        query.append(field);
        query.push(':');
    }
    query.append(term);
    assert(query@ =~= scoped_query(field@, term@));
    SearchRequest { query, max_hits }
}

/// Builds the address of the search endpoint of `index` under `base`.
pub fn search_url(base: &str, index: &str) -> (url: String)
    ensures
        url@ == endpoint(base@, index@),
{
    let mut url: String = String::new();
    url.append(base);
    url.append("/api/v1/");
    url.append(index);
    url.append("/search");
    assert(url@ =~= endpoint(base@, index@));
    url
}

/// The hits of one lookup of the fuzzy pass. A lookup that failed in any
/// way gives no hits and never an error.
pub fn token_hits(reply: Reply) -> (hits: Vec<Document>)
    ensures
        hits@ == reply_hits(reply),
{
    match reply {
        Reply::Hits(hits) => hits,
        _ => Vec::new(),
    }
}

/// The hits of the exact lookup, or `None` where the index could not be
/// reached. A rejected request or an unreadable body gives no hits.
pub fn exact_hits(reply: Reply) -> (hits: Option<Vec<Document>>)
    ensures
        match hits {
            Some(found) => !(reply is Unreachable) && found@ == reply_hits(reply),
            None => reply is Unreachable,
        },
{
    match reply {
        Reply::Hits(hits) => Some(hits),
        Reply::Unreachable => None,
        _ => Some(Vec::new()),
    }
}

} // verus!
