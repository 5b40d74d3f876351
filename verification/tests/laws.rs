use kuriume::dmhy::{self, extract_group_from_title, Dmhy, DmhyItem};
use kuriume::mikan::{
    decode_html_entities, default_trackers, parse_rss_items, parse_search_results,
    parse_subtitle_groups, Mikan,
};
use kuriume::render::{needs_resize, opaque_pixels, should_draw};
use kuriume::rule::{Rule, RuleEngine, RuleSelectors};
use kuriume::server::parse_range;
use kuriume::sniff::sniff_window_url;
use kuriume::torrent_provider::TorrentSourceEntry;

/// Form decoding as a query parser does it: `+` is a space, `%HH` a byte,
/// and the bytes are read as UTF-8.
fn form_decode(t: &str) -> String {
    let b = t.as_bytes();
    let mut out: Vec<u8> = Vec::new();
    let mut i = 0;
    while i < b.len() {
        if b[i] == b'+' {
            out.push(b' ');
            i += 1;
        } else if b[i] == b'%' && i + 2 < b.len() && (b[i + 1] as char).is_ascii_hexdigit() && (b[i + 2] as char).is_ascii_hexdigit() {
            let hex = std::str::from_utf8(&b[i + 1..i + 3]).unwrap();
            out.push(u8::from_str_radix(hex, 16).unwrap());
            i += 3;
        } else {
            out.push(b[i]);
            i += 1;
        }
    }
    String::from_utf8(out).unwrap()
}

#[test]
fn sniff_target_falls_back_to_episode_page() {
    assert_eq!(sniff_window_url("https://a.test/ep/1", None), Ok("https://a.test/ep/1".to_string()));
}

#[test]
fn sniff_target_prefers_player_iframe() {
    assert_eq!(
        sniff_window_url("https://a.test/ep/1", Some("https://p.test/embed?v=2".to_string())),
        Ok("https://p.test/embed?v=2".to_string())
    );
}

#[test]
fn sniff_target_that_is_no_url_is_refused() {
    assert_eq!(
        sniff_window_url("https://a.test/ep/1", Some("not a url".to_string())),
        Err("Invalid URL: not a url".to_string())
    );
    assert_eq!(sniff_window_url("/relative/page", None), Err("Invalid URL: /relative/page".to_string()));
}

#[test]
fn written_range_reads_back() {
    assert_eq!(parse_range("bytes=5-7", 1000), Some((5, 7)));
    assert_eq!(parse_range("bytes=5-5000", 1000), Some((5, 999)));
    assert_eq!(parse_range("bytes=0-0", 1), Some((0, 0)));
    for (a, b) in [(0u64, 0u64), (3, 3), (10, 999), (998, 1_000_000)] {
        let h = format!("bytes={a}-{b}");
        assert_eq!(parse_range(&h, 1000), Some((a, b.min(999))));
    }
}

#[test]
fn decoding_never_lengthens() {
    for t in ["&amp;&lt;&gt;", "&#x3010;x&#x3011;", "a &quot;b&quot; &#39;c&#39;", "&#xZZ; &amp", "plain"] {
        let d = decode_html_entities(t);
        assert!(d.chars().count() <= t.chars().count(), "{t}");
    }
    assert_eq!(decode_html_entities("&lt;b&gt;").chars().count(), 3);
}

#[test]
fn search_cards_are_well_formed() {
    let html = r#"
        <a href="/Home/Bangumi/2995" target="_blank">
            <span data-src="/images/Bangumi/202304/24335806.jpg?width=400" class="b-lazy"></span>
            <div class="an-text" title="Oshi no Ko">x</div>
        </a>
        <a href="/Home/Bangumi/3881" target="_blank">
            <span data-src="https://cdn.test/c.jpg" class="b-lazy"></span>
            <div class="an-text" title="Frieren">y</div>
        </a>
        <a href="/Home/Bangumi/2995">again</a>
    "#;
    let results = parse_search_results(html);
    assert_eq!(results.len(), 2);
    for r in &results {
        assert!(!r.provider_id.is_empty() && r.provider_id.len() <= 10);
        assert!(r.provider_id.chars().all(|c| c.is_ascii_digit()));
        assert!(html.contains(&format!("/Home/Bangumi/{}", r.provider_id)));
        assert!(!r.title.is_empty());
        assert_eq!(r.bgm_id, None);
        assert!(r.cover.as_ref().map_or(true, |c| c.starts_with("http")));
    }
    assert_eq!(results[0].cover.as_deref(), Some("https://mikanani.me/images/Bangumi/202304/24335806.jpg?width=400"));
    assert_eq!(results[1].cover.as_deref(), Some("https://cdn.test/c.jpg"));
}

#[test]
fn subtitle_groups_are_well_formed() {
    let html = r##"
        <a class="subgroup-name subgroup-554" data-anchor="#554">Group One</a>
        <a class="subgroup-name subgroup-370" data-anchor="#370">   </a>
        <a class="subgroup-name subgroup-554" data-anchor="#554">Other Name</a>
        <a class="subgroup-name subgroup-583" data-anchor="#583">ANi</a>
    "##;
    let groups = parse_subtitle_groups(html);
    let ids: Vec<&str> = groups.iter().map(|g| g.id.as_str()).collect();
    assert_eq!(ids, vec!["554", "583"]);
    assert_eq!(groups[0].name, "Group One");
    for g in &groups {
        assert!(!g.id.is_empty() && g.id.chars().all(|c| c.is_ascii_digit()));
        assert!(html.contains(&format!("subgroup-name subgroup-{}", g.id)));
        assert!(!g.name.is_empty());
    }
}

#[test]
fn feed_entries_are_well_formed() {
    let xml = r#"
        <item><link>https://mikanani.me/Home/Episode/aaa/Home/Episode/bbb</link><title>one</title></item>
        <item><link>https://mikanani.me/elsewhere</link><title>two</title></item>
        <item><link>https://mikanani.me/Home/Episode/ccc</link></item>
    "#;
    let trackers = vec!["udp://t1".to_string(), "http://t2/announce".to_string()];
    let entries = parse_rss_items(xml, &trackers);
    assert!(entries.len() <= xml.matches("<item>").count());
    let hashes: Vec<&str> = entries.iter().map(|e| e.episode_hash.as_str()).collect();
    assert_eq!(hashes, vec!["bbb", "ccc"]);
    let tr: String = trackers.iter().map(|t| format!("&tr={t}")).collect();
    for e in &entries {
        assert!(!e.episode_hash.is_empty());
        assert!(!e.episode_hash.contains("/Home/Episode/"));
        assert_eq!(e.magnet, format!("magnet:?xt=urn:btih:{}", e.episode_hash) + &tr);
    }
    assert!(parse_rss_items("no items here", &default_trackers()).is_empty());
}

#[test]
fn url_encoding_decodes_back() {
    for s in ["Oshi no Ko 推", "a+b&c=d%e", "~-_.", "", "日本語 テスト 🎉"] {
        let e = dmhy::urlencoding(s);
        assert!(e.chars().all(|c| c.is_ascii_alphanumeric() || "-_.~+%".contains(c)));
        let b = e.as_bytes();
        for (i, &x) in b.iter().enumerate() {
            if x == b'%' {
                assert!(i + 2 < b.len());
                assert!(b[i + 1..i + 3].iter().all(|h| h.is_ascii_digit() || (b'A'..=b'F').contains(h)));
            }
        }
        assert_eq!(form_decode(&e), s);
    }
}

#[test]
fn release_grouping_covers_feed() {
    let d = Dmhy::new();
    let item = |t: &str| DmhyItem { title: t.to_string(), magnet: format!("magnet:?xt=urn:btih:{t}"), pub_date: String::new() };
    let items = vec![item("[B] 1"), item("[A] 2"), item("[B] 3"), item("none 4"), item("[C] 5")];
    let all = d.all_torrents_from_items(&items);
    let total: usize = all.iter().map(|g| g.torrents.len()).sum();
    assert_eq!(total, items.len());
    for w in all.windows(2) {
        assert!(w[0].group.name < w[1].group.name);
    }
    for g in &all {
        assert_eq!(g.group.id, g.group.name);
        assert!(!g.torrents.is_empty());
        for t in &g.torrents {
            assert_eq!(extract_group_from_title(&t.title), g.group.name);
        }
    }
    let mut flat: Vec<&str> = all.iter().flat_map(|g| g.torrents.iter().map(|t| t.title.as_str())).collect();
    let mut fed: Vec<&str> = items.iter().map(|i| i.title.as_str()).collect();
    flat.sort();
    fed.sort();
    assert_eq!(flat, fed);
    let b: Vec<&str> = all.iter().find(|g| g.group.name == "B").unwrap().torrents.iter().map(|t| t.title.as_str()).collect();
    assert_eq!(b, vec!["[B] 1", "[B] 3"]);
}

#[test]
fn first_match_is_none_without_a_match() {
    let m = Mikan::new(Vec::new());
    let c = |id: &str| TorrentSourceEntry { provider_id: id.to_string(), title: id.to_string(), cover: None, bgm_id: None };
    assert!(m.first_matching(vec![c("1"), c("2")], vec![None, Some("8".to_string())], "7").is_none());
    let found = m.first_matching(vec![c("1"), c("2"), c("3")], vec![Some("7".to_string()), Some("7".to_string()), None], "7").unwrap();
    assert_eq!(found.provider_id, "1");
    assert_eq!(found.bgm_id.as_deref(), Some("7"));
}

#[test]
fn episode_roads_are_well_formed() {
    let rule = Rule {
        name: "t".into(),
        base_url: "https://example.com".into(),
        search_url: "https://example.com/s?q={keyword}".into(),
        user_agent: String::new(),
        selectors: RuleSelectors {
            search_list: "div.item".into(),
            search_name: "a".into(),
            search_link: "a".into(),
            episode_road: "ul.playlist".into(),
            episode_item: "li > a".into(),
            road_name: "h3.road".into(),
        },
    };
    let e = RuleEngine::new(rule);
    let html = r#"
        <h3 class="road"> Line A </h3><h3 class="road"></h3><h3 class="road">Line C</h3>
        <ul class="playlist"><li><a href="/p/1"> Ep 1 </a></li><li><a>no link</a></li></ul>
        <ul class="playlist"><li><a href="/p/2">第 2 集</a></li></ul>
        <ul class="playlist"><li><a>none</a></li></ul>
    "#;
    let roads = e.episode_page(html).unwrap();
    let names: Vec<&str> = roads.iter().map(|r| r.name.as_str()).collect();
    assert_eq!(names, vec!["Line A", "播放列表2"]);
    for r in &roads {
        assert!(!r.name.is_empty());
        assert!(!r.episodes.is_empty());
        for ep in &r.episodes {
            assert!(!ep.name.chars().any(char::is_whitespace));
        }
    }
    assert_eq!(roads[0].episodes[0].name, "Ep1");
    assert_eq!(roads[0].episodes[0].url, "https://example.com/p/1");
}

#[test]
fn render_decisions() {
    assert!(!needs_resize(1280, 720, 1280, 720));
    assert!(needs_resize(1920, 1080, 1280, 720));
    assert!(needs_resize(1280, 721, 1280, 720));
    assert!(!needs_resize(0, 720, 1280, 720));
    assert!(!needs_resize(1280, -1, 1280, 720));
    assert!(should_draw(true, false, 10, 10));
    assert!(should_draw(false, true, 10, 10));
    assert!(!should_draw(false, false, 10, 10));
    assert!(!should_draw(true, true, 0, 10));
    assert!(!should_draw(true, true, 10, -3));
}

#[test]
fn opaque_pixels_force_alpha() {
    assert_eq!(opaque_pixels(&vec![1, 2, 3, 4, 5, 6, 7, 8, 9]), vec![1, 2, 3, 255, 5, 6, 7, 255]);
    assert_eq!(opaque_pixels(&vec![0, 0, 0]), Vec::<u8>::new());
    assert_eq!(opaque_pixels(&vec![10, 20, 30, 0]), vec![10, 20, 30, 255]);
}

#[test]
fn fallback_road_names_count_listed_roads() {
    let rule = Rule {
        name: "t".into(),
        base_url: "https://example.com".into(),
        search_url: "https://example.com/s?q={keyword}".into(),
        user_agent: String::new(),
        selectors: RuleSelectors {
            search_list: "div.item".into(),
            search_name: "a".into(),
            search_link: "a".into(),
            episode_road: "ul.playlist".into(),
            episode_item: "li > a".into(),
            road_name: String::new(),
        },
    };
    let e = RuleEngine::new(rule);
    let html = r#"
        <ul class="playlist"><li><a>no link</a></li></ul>
        <ul class="playlist"><li><a href="/p/1">第01集</a></li></ul>
        <ul class="playlist"></ul>
        <ul class="playlist"><li><a href="/p/2">第02集</a></li></ul>
    "#;
    let roads = e.episode_page(html).unwrap();
    assert_eq!(roads.len(), 2);
    assert_eq!(roads[0].name, "播放列表1");
    assert_eq!(roads[0].episodes.len(), 1);
    assert_eq!(roads[0].episodes[0].name, "第01集");
    assert_eq!(roads[0].episodes[0].url, "https://example.com/p/1");
    assert_eq!(roads[1].name, "播放列表2");
}

#[test]
fn subtitle_groups_keep_first_usable_occurrence_in_page_order() {
    let html = r##"
        <a class="subgroup-name subgroup-554" data-anchor="#554">Group One</a>
        <a class="subgroup-name subgroup-370" data-anchor="#370">  </a>
        <a class="subgroup-name subgroup-554" data-anchor="#554">Other Name</a>
        <a class="subgroup-name subgroup-583" data-anchor="#583">ANi</a>
        <a class="subgroup-name subgroup-370" data-anchor="#370">Late Name</a>
    "##;
    let groups = parse_subtitle_groups(html);
    let got: Vec<(&str, &str)> = groups.iter().map(|g| (g.id.as_str(), g.name.as_str())).collect();
    assert_eq!(got, vec![("554", "Group One"), ("583", "ANi"), ("370", "Late Name")]);
}
