//! Listing and searching projects and tags: the request parameters, the plan that
//! the store runs, and the page returned with the cursor of the next one.

use vstd::prelude::*;
use crate::cursor::{Cursor, CursorView, CursorError, cursor_text, decode_cursor, decodes_to, encode_cursor};
use crate::models::{ProjectRow, TagRow};
use crate::naming::{strip_both, trim_white};

verus! {

/// Query parameters of a project listing.
#[derive(Debug, Clone, PartialEq, Eq)]
pub struct ListProjectsParams {
    pub limit: Option<i64>,
    pub cursor: Option<String>,
    pub query: Option<String>,
}

/// Query parameters of a tag listing.
#[derive(Debug, Clone, PartialEq, Eq)]
pub struct ListTagsParams {
    pub limit: Option<i64>,
    pub cursor: Option<String>,
}

/// Why a listing request was rejected before reaching the store.
#[derive(Debug, Clone, Copy, PartialEq, Eq, Structural)]
pub enum ListingError {
    /// The cursor text does not decode.
    InvalidCursor,
    /// A search was asked to resume from a cursor of a plain listing.
    CursorWithoutRank,
}

/// What the store is asked to run.
#[derive(Debug)]
pub enum ProjectListing {
    List { limit: i64, after: Option<Cursor> },
    Search { query: String, limit: i64, after: Option<Cursor> },
}

pub struct ListingView {
    pub search: Option<Seq<char>>,
    pub limit: i64,
    pub after: Option<CursorView>,
}

pub open spec fn opt_cursor_view(c: Option<Cursor>) -> Option<CursorView> {
    match c {
        Some(x) => Some(x@),
        None => None,
    }
}

impl ProjectListing {
    pub open spec fn view(&self) -> ListingView {
        match self {
            ProjectListing::List { limit, after } => ListingView {
                search: None,
                limit: *limit,
                after: opt_cursor_view(*after),
            },
            ProjectListing::Search { query, limit, after } => ListingView {
                search: Some(query@),
                limit: *limit,
                after: opt_cursor_view(*after),
            },
        }
    }
}

/// The page size: 50 unless asked, and never outside 1 to 200.
pub open spec fn clamp_limit(l: Option<i64>) -> i64 {
    let v = match l {
        Some(x) => x,
        None => 50,
    };
    if v < 1 { 1 } else if v > 200 { 200 } else { v }
}

pub fn page_limit(requested: Option<i64>) -> (r: i64)
    ensures
        r == clamp_limit(requested),
{
    let v = match requested {
        Some(x) => x,
        None => 50,
    };
    if v < 1 { 1 } else if v > 200 { 200 } else { v }
}

/// A query that holds more than white space asks for a search.
pub open spec fn is_search(query: Option<Seq<char>>) -> bool {
    query matches Some(q) && strip_both(q, true).len() > 0
}

/// The plan for a listing request whose cursor has been decoded.
pub open spec fn listing_plan(
    limit: Option<i64>,
    after: Option<CursorView>,
    query: Option<Seq<char>>,
) -> Result<ListingView, ListingError> {
    if is_search(query) {
        if after matches Some(c) && c.rank is None {
            Err(ListingError::CursorWithoutRank)
        } else {
            Ok(ListingView { search: query, limit: clamp_limit(limit), after })
        }
    } else {
        Ok(ListingView { search: None, limit: clamp_limit(limit), after })
    }
}

pub open spec fn plan_view(r: Result<ProjectListing, ListingError>) -> Result<ListingView, ListingError> {
    match r {
        Ok(p) => Ok(p.view()),
        Err(e) => Err(e),
    }
}

/// Plans a listing from decoded parameters. A search never resumes from a cursor
/// without a rank: that is rejected here, before the store is asked anything.
pub fn plan_project_listing_with(
    limit: Option<i64>,
    after: Option<Cursor>,
    query: Option<String>,
) -> (r: Result<ProjectListing, ListingError>)
    ensures
        plan_view(r) == listing_plan(
            limit,
            opt_cursor_view(after),
            match query {
                Some(q) => Some(q@),
                None => None,
            },
        ),
{
    let limit = page_limit(limit);
    let searching = match &query {
        Some(q) => !trim_white(q.as_str()).as_str().is_empty(),
        None => false,
    };
    match query {
        Some(q) => if searching {
            match &after {
                Some(c) => if c.rank.is_none() {
                    return Err(ListingError::CursorWithoutRank);
                },
                None => {},
            }
            Ok(ProjectListing::Search { query: q, limit, after })
        } else {
            Ok(ProjectListing::List { limit, after })
        },
        None => Ok(ProjectListing::List { limit, after }),
    }
}

/// The cursor of `params`, decoded: `InvalidCursor` when it does not decode.
pub fn decode_params_cursor(cursor: Option<String>) -> (r: Result<Option<Cursor>, ListingError>)
    ensures
        cursor is None ==> r matches Ok(None),
        cursor matches Some(t) ==> exists|d: Result<Cursor, CursorError>| decodes_to(t@, d) && match d {
            Ok(c) => r matches Ok(Some(x)) && x@ == c@,
            Err(_) => r == Err::<Option<Cursor>, ListingError>(ListingError::InvalidCursor),
        },
{
    match cursor {
        None => Ok(None),
        Some(t) => {
            let d = decode_cursor(t.as_str());
            match d {
                Ok(c) => Ok(Some(c)),
                Err(_) => Err(ListingError::InvalidCursor),
            }
        },
    }
}

/// Plans a project listing from its query parameters.
pub fn plan_project_listing(params: ListProjectsParams) -> (r: Result<ProjectListing, ListingError>)
    ensures
        params.cursor is None ==> plan_view(r) == listing_plan(
            params.limit,
            None,
            match params.query {
                Some(q) => Some(q@),
                None => None,
            },
        ),
        params.cursor matches Some(t) ==> exists|d: Result<Cursor, CursorError>| decodes_to(t@, d) && match d {
            Ok(c) => plan_view(r) == listing_plan(
                params.limit,
                Some(c@),
                match params.query {
                    Some(q) => Some(q@),
                    None => None,
                },
            ),
            Err(_) => r is Err && r->Err_0 == ListingError::InvalidCursor,
        },
{
    let after = match decode_params_cursor(params.cursor) {
        Ok(a) => a,
        Err(e) => return Err(e),
    };
    plan_project_listing_with(params.limit, after, params.query)
}

/// A tag as a listing returns it.
#[derive(Debug, Clone, PartialEq, Eq)]
pub struct Tag {
    pub id: String,
    pub name: String,
    pub color: String,
    pub created_at: String,
    pub updated_at: String,
}

/// A page of tags and the cursor of the next page.
#[derive(Debug, Clone, PartialEq, Eq)]
pub struct ListTagsResponse {
    pub items: Vec<Tag>,
    pub next_cursor: Option<String>,
}

/// A page of projects and the cursor of the next page.
#[derive(Debug, Clone, PartialEq, Eq)]
pub struct ListProjectsResponse {
    pub items: Vec<ProjectRow>,
    pub next_cursor: Option<String>,
}

/// The text of the cursor that resumes after the row `(updated_at, id)`.
pub fn next_cursor(updated_at: &String, id: &String, rank: Option<u64>) -> (r: String)
    ensures
        r@ == cursor_text(CursorView { updated_at: updated_at@, id: id@, rank }),
{
    let c = Cursor { updated_at: updated_at.clone(), id: id.clone(), rank };
    encode_cursor(&c)
}

/// The cursor text that resumes after the last of these rows, if any.
pub open spec fn resume_text(keys: Seq<(Seq<char>, Seq<char>)>, rank: Option<u64>) -> Option<Seq<char>> {
    if keys.len() == 0 {
        None
    } else {
        Some(cursor_text(CursorView { updated_at: keys.last().0, id: keys.last().1, rank }))
    }
}

pub open spec fn tag_keys(rows: Seq<TagRow>) -> Seq<(Seq<char>, Seq<char>)> {
    rows.map_values(|r: TagRow| (r.updated_at@, r.id@))
}

pub open spec fn project_keys(rows: Seq<ProjectRow>) -> Seq<(Seq<char>, Seq<char>)> {
    rows.map_values(|r: ProjectRow| (r.updated_at@, r.id@))
}

pub open spec fn opt_text(s: Option<String>) -> Option<Seq<char>> {
    match s {
        Some(x) => Some(x@),
        None => None,
    }
}

/// The response for a page of tags: the rows as tags, and a next cursor from the
/// last row (none after an empty page).
pub fn tag_page(rows: Vec<TagRow>) -> (r: ListTagsResponse)
    ensures
        r.items@.len() == rows@.len(),
        forall|i: int| 0 <= i < rows@.len() ==> (#[trigger] r.items@[i]).id@ == rows@[i].id@
            && r.items@[i].name@ == rows@[i].name@ && r.items@[i].color@ == rows@[i].color@,
        opt_text(r.next_cursor) == resume_text(tag_keys(rows@), None),
{
    let next = if rows.len() == 0 {
        None
    } else {
        let last = &rows[rows.len() - 1];
        Some(next_cursor(&last.updated_at, &last.id, None))
    };
    let mut items: Vec<Tag> = Vec::new();
    let mut i: usize = 0;
    while i < rows.len()
        invariant
            i <= rows@.len(),
            items@.len() == i,
            forall|k: int| 0 <= k < i ==> (#[trigger] items@[k]).id@ == rows@[k].id@ && items@[k].name@
                == rows@[k].name@ && items@[k].color@ == rows@[k].color@,
        decreases rows@.len() - i,
    {
        let row = &rows[i];
        items.push(
            Tag {
                id: row.id.clone(),
                name: row.name.clone(),
                color: row.color.clone(),
                created_at: row.created_at.clone(),
                updated_at: row.updated_at.clone(),
            },
        );
        i = i + 1;
    }
    ListTagsResponse { items, next_cursor: next }
}

/// The response for a page of projects: a next cursor from the last row (none after
/// an empty page), carrying the last row's rank for a search.
pub fn project_page(rows: Vec<ProjectRow>, last_rank: Option<u64>) -> (r: ListProjectsResponse)
    ensures
        r.items@ == rows@,
        opt_text(r.next_cursor) == resume_text(project_keys(rows@), last_rank),
{
    let next = if rows.len() == 0 {
        None
    } else {
        let last = &rows[rows.len() - 1];
        Some(next_cursor(&last.updated_at, &last.id, last_rank))
    };
    ListProjectsResponse { items: rows, next_cursor: next }
}

} // verus!
