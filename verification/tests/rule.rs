use kuriume::rule::{all, OnlineEpisode, OnlineRoad, OnlineSearchResult, Rule, RuleEngine, RuleSelectors};
use scraper::{Html, Selector};

fn test_rule() -> Rule {
    Rule {
        name: "test".into(),
        base_url: "https://example.com".into(),
        search_url: "https://example.com/search?wd={keyword}".into(),
        user_agent: String::new(),
        selectors: RuleSelectors {
            search_list: "div.search-item".into(),
            search_name: "a.title".into(),
            search_link: "a.title".into(),
            episode_road: "ul.playlist".into(),
            episode_item: "li > a".into(),
            road_name: String::new(),
        },
    }
}

#[test]
fn builtin_rules_are_valid() {
    for rule in all() {
        assert!(!rule.name.is_empty());
        assert!(!rule.base_url.is_empty());
        assert!(rule.search_url.contains("{keyword}"));
    }
}

#[test]
fn resolve_url_absolute() {
    let engine = RuleEngine::new(test_rule());
    assert_eq!(engine.resolve_url("https://other.com/foo"), "https://other.com/foo");
}

#[test]
fn resolve_url_relative() {
    let engine = RuleEngine::new(test_rule());
    assert_eq!(engine.resolve_url("/anime/123"), "https://example.com/anime/123");
}

#[test]
fn resolve_url_no_slash() {
    let engine = RuleEngine::new(test_rule());
    assert_eq!(engine.resolve_url("anime/123"), "https://example.com/anime/123");
}

#[test]
fn parse_search_results() {
    let rule = test_rule();
    let engine = RuleEngine::new(rule);
    let html = r#"
            <div class="search-item">
                <a class="title" href="/anime/1">Clannad</a>
            </div>
            <div class="search-item">
                <a class="title" href="/anime/2">Frieren</a>
            </div>
        "#;
    let document = Html::parse_document(html);
    let list_sel = Selector::parse("div.search-item").unwrap();
    let name_sel = Selector::parse("a.title").unwrap();
    let link_sel = Selector::parse("a.title").unwrap();

    let mut results = Vec::new();
    for element in document.select(&list_sel) {
        let name = element
            .select(&name_sel)
            .next()
            .map(|el| el.text().collect::<String>().trim().to_string())
            .unwrap_or_default();
        let href = element
            .select(&link_sel)
            .next()
            .and_then(|el| el.value().attr("href"))
            .unwrap_or_default();
        results.push(OnlineSearchResult { name, url: engine.resolve_url(href) });
    }

    assert_eq!(results.len(), 2);
    assert_eq!(results[0].name, "Clannad");
    assert_eq!(results[0].url, "https://example.com/anime/1");
    assert_eq!(results[1].name, "Frieren");
}

#[test]
fn parse_episode_list() {
    let rule = test_rule();
    let engine = RuleEngine::new(rule);
    let html = r#"
            <ul class="playlist">
                <li><a href="/play/1/1">第01集</a></li>
                <li><a href="/play/1/2">第02集</a></li>
            </ul>
            <ul class="playlist">
                <li><a href="/play2/1/1">第01集</a></li>
            </ul>
        "#;
    let document = Html::parse_document(html);
    let road_sel = Selector::parse("ul.playlist").unwrap();
    let item_sel = Selector::parse("li > a").unwrap();

    let mut roads = Vec::new();
    let mut count = 1;
    for road_el in document.select(&road_sel) {
        let mut episodes = Vec::new();
        for item in road_el.select(&item_sel) {
            let name = item.text().collect::<String>().trim().to_string();
            let href = item.value().attr("href").unwrap_or_default();
            episodes.push(OnlineEpisode { name, url: engine.resolve_url(href) });
        }
        if !episodes.is_empty() {
            roads.push(OnlineRoad { name: format!("播放列表{count}"), episodes });
            count += 1;
        }
    }

    assert_eq!(roads.len(), 2);
    assert_eq!(roads[0].episodes.len(), 2);
    assert_eq!(roads[0].episodes[0].name, "第01集");
    assert_eq!(roads[0].episodes[0].url, "https://example.com/play/1/1");
    assert_eq!(roads[1].episodes.len(), 1);
}
