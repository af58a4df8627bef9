//! Search dispatch and result paging.

use vstd::prelude::*;

use crate::error::SoundScoutError;
use crate::models::{SearchMode, SearchQuery};
use vstd::string::StringExecFns;

use crate::text::{chars_of, trim, trim_chars};

verus! {

broadcast use vstd::string::group_string_axioms;

/// Which search path serves a query.
#[derive(Debug, Clone, Copy, PartialEq, Eq, Structural)]
pub enum SearchRoute {
    /// Full-text / `LIKE` search over the index.
    Lexical,
    /// Embedding similarity only.
    Vector,
    /// Embedding similarity fused with full-text ranking.
    Hybrid,
}

/// The search path for a mode: queries whose text is blank always go the
/// lexical way (there is nothing to embed).
pub open spec fn route_for(mode: SearchMode, blank_text: bool) -> SearchRoute {
    if blank_text {
        SearchRoute::Lexical
    } else {
        match mode {
            SearchMode::Lexical => SearchRoute::Lexical,
            SearchMode::Vector => SearchRoute::Vector,
            SearchMode::Both => SearchRoute::Hybrid,
        }
    }
}

/// Chooses the search path for `query`.
pub fn search_route(query: &SearchQuery) -> (r: SearchRoute)
    ensures
        r == route_for(query.search_mode, trim(query.text@).len() == 0),
{
    let chars = chars_of(query.text.as_str());
    let t = trim_chars(&chars);
    let blank = t.len() == 0;
    if blank {
        return SearchRoute::Lexical;
    }
    match query.search_mode {
        SearchMode::Lexical => SearchRoute::Lexical,
        SearchMode::Vector => SearchRoute::Vector,
        SearchMode::Both => SearchRoute::Hybrid,
    }
}

/// The page `[offset, min(offset + limit, total))` of `total` ranked
/// results, or `None` when the offset is at or past the end.
pub open spec fn page_spec(offset: int, limit: int, total: int) -> Option<(int, int)> {
    if offset < total {
        Some((offset, if offset + limit < total { offset + limit } else { total }))
    } else {
        None
    }
}

/// The slice bounds of one result page.
pub fn result_page(offset: u32, limit: u32, total: usize) -> (r: Option<(usize, usize)>)
    ensures
        match r {
            Some((s, e)) => page_spec(offset as int, limit as int, total as int) == Some(
                (s as int, e as int),
            ),
            None => page_spec(offset as int, limit as int, total as int) is None,
        },
{
    let start = offset as usize;
    if start >= total {
        return None;
    }
    let end = if (limit as usize) < total - start {
        start + limit as usize
    } else {
        total
    };
    Some((start, end))
}

/// Ratings run from 0 to 5.
pub fn validate_rating(rating: u8) -> (r: Result<(), SoundScoutError>)
    ensures
        rating <= 5 ==> r is Ok,
        rating > 5 ==> (r matches Err(SoundScoutError::Validation(m)) && m@
            == "rating must be between 0 and 5"@),
{
    if rating > 5 {
        return Err(SoundScoutError::Validation(String::from_str("rating must be between 0 and 5")));
    }
    Ok(())
}

} // verus!
