//! Query and result types of the anime data sources.
use vstd::prelude::*;

verus! {

/// Search request parameters.
#[derive(Debug, Clone, Default)]
pub struct SearchQuery {
    /// Search keyword.
    pub keyword: String,
    /// Pagination offset.
    pub offset: u32,
    /// Number of items per page.
    pub limit: u32,
}

impl SearchQuery {
    /// A search for `keyword`: from offset 0 and 20 at a time unless the
    /// request says otherwise.
    pub fn from_request(keyword: String, offset: Option<u32>, limit: Option<u32>) -> (r: SearchQuery)
        ensures
            r.keyword@ == keyword@,
            r.offset == match offset {
                Some(o) => o,
                None => 0,
            },
            r.limit == match limit {
                Some(l) => l,
                None => 20,
            },
    {
        SearchQuery {
            keyword,
            offset: match offset {
                Some(o) => o,
                None => 0,
            },
            limit: match limit {
                Some(l) => l,
                None => 20,
            },
        }
    }
}

/// How an anime list is sorted.
#[derive(Debug, Clone, Copy, PartialEq, Eq, Structural)]
pub enum SortBy {
    Rank,
    Date,
}

impl Default for SortBy {
    fn default() -> (r: SortBy)
        ensures
            r == SortBy::Rank,
    {
        SortBy::Rank
    }
}

impl SortBy {
    pub open spec fn spec_str(&self) -> Seq<char> {
        match self {
            SortBy::Rank => "rank"@,
            SortBy::Date => "date"@,
        }
    }

    /// The value of the `sort` query parameter.
    pub fn as_str(&self) -> (r: &str)
        ensures
            r@ == self.spec_str(),
    {
        match self {
            SortBy::Rank => "rank",
            SortBy::Date => "date",
        }
    }
}

/// GetList request parameters.
#[derive(Debug, Clone, Default)]
pub struct GetListQuery {
    pub year: Option<u32>,
    pub month: Option<u32>,
    pub limit: u32,
    pub offset: u32,
    pub soft: Option<SortBy>,
    pub typ: u32,
}

/// Paginated result wrapper.
#[derive(Debug, Clone)]
pub struct PagedResult<T> {
    /// List of items.
    pub data: Vec<T>,
    /// Total count.
    pub total: u64,
    pub limit: u32,
    pub offset: u32,
}

#[derive(Debug, Clone, Default)]
pub struct GetEpisodesQuery {
    pub id: String,
    pub limit: u32,
    pub offset: u32,
}

#[derive(Debug, Clone)]
pub struct EpisodesInfo {
    pub id: String,
    pub ep: u32,
    pub airdate: Option<String>,
    pub title: Option<String>,
    pub title_cn: Option<String>,
    pub duration: Option<String>,
    pub summary: Option<String>,
    pub thumbnail: Option<String>,
}

#[derive(Debug, Clone)]
pub struct CharacterInfo {
    pub id: u32,
    pub name: Option<String>,
    pub role: Option<String>,
    pub avatar: Option<String>,
    pub cv: Option<String>,
}

} // verus!
