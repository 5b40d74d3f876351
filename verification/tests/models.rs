use kuriume::models::SortBy;

#[test]
fn sort_by_as_str() {
    assert_eq!(SortBy::Rank.as_str(), "rank");
    assert_eq!(SortBy::Date.as_str(), "date");
}

#[test]
fn sort_by_default_is_rank() {
    let default: SortBy = Default::default();
    assert_eq!(default.as_str(), "rank");
}

#[test]
fn search_query_defaults() {
    let q = kuriume::models::SearchQuery::from_request("Frieren".to_string(), None, None);
    assert_eq!((q.keyword.as_str(), q.offset, q.limit), ("Frieren", 0, 20));
    let q = kuriume::models::SearchQuery::from_request("x".to_string(), Some(40), Some(5));
    assert_eq!((q.offset, q.limit), (40, 5));
}
