//! The request and response records exchanged with a client of the core.
use vstd::prelude::*;

use crate::model::SearchItem;

verus! {

/// A search for `query`, with at most `limit` results (the configured maximum
/// when absent).
#[derive(Debug, Clone, PartialEq, Eq)]
pub struct SearchRequest {
    pub query: String,
    pub limit: Option<usize>,
}

/// One search result as a client sees it.
#[derive(Debug, Clone, PartialEq, Eq)]
pub struct SearchResultDto {
    pub id: String,
    pub kind: String,
    pub title: String,
    pub path: String,
}

#[derive(Debug, Clone, PartialEq, Eq)]
pub struct SearchResponse {
    pub results: Vec<SearchResultDto>,
}

/// A launch by item id or by path.
#[derive(Debug, Clone, PartialEq, Eq)]
pub struct LaunchRequest {
    pub id: Option<String>,
    pub path: Option<String>,
}

#[derive(Debug, Clone, PartialEq, Eq)]
pub struct LaunchResponse {
    pub launched: bool,
}

#[derive(Debug, Clone, PartialEq, Eq)]
pub enum CoreRequest {
    Search(SearchRequest),
    Launch(LaunchRequest),
}

#[derive(Debug, Clone, PartialEq, Eq)]
pub enum CoreResponse {
    Search(SearchResponse),
    Launch(LaunchResponse),
}

impl From<SearchItem> for SearchResultDto {
    fn from(value: SearchItem) -> (dto: Self) {
        SearchResultDto { id: value.id, kind: value.kind, title: value.title, path: value.path }
    }
}

impl vstd::std_specs::convert::FromSpecImpl<SearchItem> for SearchResultDto {
    open spec fn obeys_from_spec() -> bool {
        true
    }

    open spec fn from_spec(value: SearchItem) -> SearchResultDto {
        SearchResultDto { id: value.id, kind: value.kind, title: value.title, path: value.path }
    }
}

/// The client view of each result, in order.
pub fn results_to_dtos(results: &Vec<SearchItem>) -> (out: Vec<SearchResultDto>)
    ensures
        out@.len() == results@.len(),
        forall|k: int| 0 <= k < out@.len() ==> {
            &&& (#[trigger] out@[k]).id == results@[k].id
            &&& out@[k].kind == results@[k].kind
            &&& out@[k].title == results@[k].title
            &&& out@[k].path == results@[k].path
        },
{
    let mut out: Vec<SearchResultDto> = Vec::new();
    let mut i: usize = 0;
    while i < results.len()
        invariant
            i <= results@.len(),
            out@.len() == i,
            forall|k: int| 0 <= k < i ==> {
                &&& (#[trigger] out@[k]).id == results@[k].id
                &&& out@[k].kind == results@[k].kind
                &&& out@[k].title == results@[k].title
                &&& out@[k].path == results@[k].path
            },
        decreases results@.len() - i,
    {
        let item = results[i].clone();
        out.push(SearchResultDto::from(item));
        i = i + 1;
    }
    out
}

} // verus!
