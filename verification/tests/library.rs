use kuriume::bangumi::{
    characters_url, episode_info, episodes_query, list_query, not_found_message, pick_image,
    request_failed_message, subject_summary, subject_url, year_of, BangumiEpisode, BangumiImages,
    BangumiSubject,
};
use kuriume::dmhy::{extract_info_hash_from_magnet, item_to_entry, parse_dmhy_rss, DmhyItem};
use kuriume::errors::{MpvError, ProviderError, StoreError, TorrentError};
use kuriume::mikan::{format_bytes, Mikan};
use kuriume::models::{GetEpisodesQuery, GetListQuery, SortBy};
use kuriume::nyaa::{parse_nyaa_rss, Nyaa};
use kuriume::online::OnlineSourceState;
use kuriume::registry::{AnyProvider, TorrentProvider, TorrentProviderState};
use kuriume::rule::{Rule, RuleEngine, RuleSelectors};
use kuriume::server::{content_type_for, parse_range};
use kuriume::shaders::{anime4k_shader_names, demuxer_max_bytes, shader_dir, shader_list};
use kuriume::sniff::{first_player_src, player_iframe_src, sniff_result, sniffed_url, SniffOutcome};
use kuriume::store::{
    anime_dir, cache_enabled_value, episode_filename, migrated_path, organize_destination,
    sanitize_filename, settings_from, should_migrate, Settings, WatchStatus,
};

/// The size text the way the source computes it, with floating point.
fn float_size(bytes: u64) -> String {
    let kb: u64 = 1024;
    let mb: u64 = 1024 * kb;
    let gb: u64 = 1024 * mb;
    if bytes >= gb {
        format!("{:.2} GB", bytes as f64 / gb as f64)
    } else if bytes >= mb {
        format!("{:.2} MB", bytes as f64 / mb as f64)
    } else if bytes >= kb {
        format!("{:.2} KB", bytes as f64 / kb as f64)
    } else {
        format!("{bytes} B")
    }
}

#[test]
fn format_bytes_agrees_with_float_formatting() {
    let mut values: Vec<u64> = vec![
        0, 1, 1023, 1024, 1152, 1160, 1536, 2047, 10_240, 268_099_904, 536_870_912,
        1 << 30, (1 << 30) + (1 << 27), 3 << 29, (1 << 53) + 1, u64::MAX, u64::MAX - 1,
        1_125_899_906_842_624, 5_368_709, 1_048_576 + 5_243,
    ];
    let mut x: u64 = 0x9E37_79B9_7F4A_7C15;
    for _ in 0..3000 {
        x = x.wrapping_mul(6364136223846793005).wrapping_add(1442695040888963407);
        values.push(x >> (x % 60));
    }
    for k in 1..40u64 {
        // exact ties of the second decimal: 0.125, 0.375, ...
        values.push(1024 * k + 128);
        values.push(1024 * 1024 * k + 131_072);
    }
    for v in values {
        assert_eq!(format_bytes(v), float_size(v), "size of {v} bytes");
    }
}

#[test]
fn format_bytes_units() {
    assert_eq!(format_bytes(512), "512 B");
    assert_eq!(format_bytes(1536), "1.50 KB");
    assert_eq!(format_bytes(1152), "1.12 KB");
    assert_eq!(format_bytes(3 * 1024 * 1024 * 1024), "3.00 GB");
}

#[test]
fn watch_status_reads_back() {
    for w in [WatchStatus::Unwatched, WatchStatus::Watching, WatchStatus::Completed] {
        assert_eq!(WatchStatus::from_str(w.as_str()), w);
    }
    assert_eq!(WatchStatus::from_str("something else"), WatchStatus::Watching);
}

#[test]
fn cache_enabled_setting_reads_back() {
    for b in [true, false] {
        let s = settings_from(None, Some(cache_enabled_value(b).to_string()), "/dl/Kuriume");
        assert_eq!(s.cache_enabled, b);
        assert_eq!(s.cache_dir, "/dl/Kuriume");
    }
    let s = settings_from(Some("/x".to_string()), None, "/dl");
    assert_eq!(s.cache_dir, "/x");
    assert!(s.cache_enabled);
}

#[test]
fn sanitize_is_legal_and_idempotent() {
    let once = sanitize_filename("  a/b\\c:d*e?f\"g<h>i|j  ");
    assert_eq!(once, "a_b_c_d_e_f_g_h_i_j");
    assert_eq!(sanitize_filename(&once), once);
}

#[test]
fn cache_paths() {
    assert_eq!(anime_dir("/cache", "Frieren: Part 1"), "/cache/Frieren_ Part 1");
    assert_eq!(
        episode_filename("Oshi no Ko", 3, "LoliHouse", "1080p", "x.mp4"),
        "Oshi no Ko - S01E03 [LoliHouse] [1080p].mp4"
    );
    assert_eq!(episode_filename("T", 12, "", "", "noext"), "T - S01E12.mkv");
}

#[test]
fn organize_decisions() {
    let on = Settings { cache_dir: "/cache".to_string(), cache_enabled: true };
    let off = Settings { cache_dir: "/cache".to_string(), cache_enabled: false };
    assert_eq!(
        organize_destination(&off, "/tmp/a.mkv", true, "T", 1, "G", "720p"),
        Err("cache is disabled".to_string())
    );
    assert_eq!(
        organize_destination(&on, "/tmp/a.mkv", false, "T", 1, "G", "720p"),
        Err("source file not found: /tmp/a.mkv".to_string())
    );
    assert_eq!(
        organize_destination(&on, "/tmp/a.mp4", true, "T", 1, "G", "720p"),
        Ok("/cache/T/T - S01E01 [G] [720p].mp4".to_string())
    );
    assert!(should_migrate(true, "/a", "/b"));
    assert!(!should_migrate(true, "/a", "/a"));
    assert!(!should_migrate(false, "/a", "/b"));
    assert_eq!(migrated_path("/a/T/x.mkv", "/a", "/b"), Some("/b/T/x.mkv".to_string()));
    assert_eq!(migrated_path("/c/T/x.mkv", "/a", "/b"), None);
}

#[test]
fn range_stays_inside_file() {
    for h in ["bytes=0-0", "bytes=10-", "bytes=-5", "bytes=3-2000", "bytes=999-999"] {
        if let Some((a, b)) = parse_range(h, 1000) {
            assert!(a <= b && b < 1000, "{h}");
        }
    }
    assert_eq!(parse_range("bytes=-2000", 1000), Some((0, 999)));
    assert_eq!(parse_range("bytes=-0", 1000), Some((1000, 999)));
    assert_eq!(parse_range("bytes=+5-+7", 1000), Some((5, 7)));
    assert_eq!(parse_range("bytes=5-x", 1000), None);
}

#[test]
fn content_types() {
    assert_eq!(content_type_for("Episode.01.MKV"), "video/x-matroska");
    assert_eq!(content_type_for("a.m4v"), "video/mp4");
    assert_eq!(content_type_for("subs.ass"), "text/x-ssa");
    assert_eq!(content_type_for("noext"), "application/octet-stream");
}

#[test]
fn error_messages() {
    assert_eq!(ProviderError::Source("x".to_string()).message(), "数据源错误: x");
    assert_eq!(ProviderError::NotFound("y".to_string()).message(), "未找到: y");
    let json = serde_json::from_str::<u32>("nope").unwrap_err();
    assert!(ProviderError::Json(json).message().starts_with("JSON 解析失败: "));
    let http = reqwest::Client::new().get("not a url").build().unwrap_err();
    assert!(ProviderError::Http(http).message().starts_with("HTTP 请求失败: "));
    assert_eq!(MpvError::Mpv("e".to_string()).message(), "mpv error: e");
    assert_eq!(MpvError::PropertyUnavailable("p".to_string()).message(), "property not available: p");
    assert_eq!(MpvError::NotInitialized.message(), "player not initialized");
    assert_eq!(TorrentError::Engine(anyhow::Error::msg("boom")).message(), "engine error: boom");
    assert_eq!(TorrentError::NotFound(7).message(), "torrent not found: 7");
    assert_eq!(
        TorrentError::FileNotFound { torrent_id: 1, file_id: 2 }.message(),
        "file not found: torrent 1 file 2"
    );
    assert_eq!(TorrentError::MetadataNotReady(3).message(), "metadata not resolved for torrent 3");
    assert_eq!(
        TorrentError::Timeout(30).message(),
        "torrent metadata resolution timed out after 30 seconds (no peers available)"
    );
    let io = std::io::Error::new(std::io::ErrorKind::Other, "disk");
    assert_eq!(TorrentError::Io(io).message(), "io error: disk");
    let sqlite = StoreError::Sqlite(rusqlite::Error::QueryReturnedNoRows);
    assert_eq!(sqlite.message(), format!("sqlite: {}", rusqlite::Error::QueryReturnedNoRows));
    let io = std::io::Error::new(std::io::ErrorKind::Other, "full");
    assert_eq!(StoreError::Io(io).message(), "io: full");
}

fn rule(name: &str, base: &str) -> Rule {
    Rule {
        name: name.to_string(),
        base_url: base.to_string(),
        search_url: format!("{base}/s?q={{keyword}}&again={{keyword}}"),
        user_agent: String::new(),
        selectors: RuleSelectors {
            search_list: "div.search-item".into(),
            search_name: "a.title".into(),
            search_link: "a.title".into(),
            episode_road: "ul.playlist".into(),
            episode_item: "li > a".into(),
            road_name: String::new(),
        },
    }
}

#[test]
fn online_sources_add_update_remove() {
    let mut state = OnlineSourceState::new();
    assert_eq!(state.list_names(), vec!["AGE动漫".to_string()]);
    state.upsert_rule(rule("x", "https://x.test"));
    state.upsert_rule(rule("x", "https://y.test"));
    assert_eq!(state.list_names(), vec!["AGE动漫".to_string(), "x".to_string()]);
    assert_eq!(state.rule_for_source("x").unwrap().base_url, "https://y.test");
    state.add_rule(rule("z", "https://z.test"));
    state.remove_rule("z");
    assert!(state.engine("z").is_none());
    assert_eq!(state.rule_for_source("z").unwrap_err(), "Online source not found: z");
    assert_eq!(state.list_rules().len(), 2);
}

#[test]
fn engine_requests() {
    let e = RuleEngine::new(rule("x", "https://x.test//"));
    assert_eq!(e.search_url("abc"), "https://x.test///s?q=abc&again=abc");
    assert_eq!(e.referer(), "https://x.test///");
    assert!(e.user_agent().starts_with("Mozilla/5.0"));
    let once = e.resolve_url("a/b");
    assert_eq!(once, "https://x.test/a/b");
    assert_eq!(e.resolve_url(&once), once);
    assert_eq!(e.road_name(&vec!["".to_string(), "线路二".to_string()], 0, 0), "播放列表1");
    assert_eq!(e.road_name(&vec!["".to_string(), "线路二".to_string()], 1, 0), "线路二");
    assert_eq!(e.road_name(&vec!["".to_string(), "线路二".to_string()], 4, 2), "播放列表3");
    assert_eq!(e.episode_name("  第 01 集\n"), "第01集");
}

#[test]
fn engine_parses_search_page() {
    let e = RuleEngine::new(rule("t", "https://example.com"));
    let html = r#"
        <div class="search-item"><a class="title" href="/anime/1"> Clannad </a></div>
        <div class="search-item"><a class="title">No link</a></div>
        <div class="search-item"><a class="title" href="https://other.test/2">Frieren</a></div>
    "#;
    let results = e.search_page(html).unwrap();
    assert_eq!(results.len(), 2);
    assert_eq!(results[0].name, "Clannad");
    assert_eq!(results[0].url, "https://example.com/anime/1");
    assert_eq!(results[1].name, "Frieren");
    assert_eq!(results[1].url, "https://other.test/2");
}

#[test]
fn engine_parses_episode_page() {
    let mut r = rule("t", "https://example.com");
    r.selectors.road_name = "h3.road".into();
    let e = RuleEngine::new(r);
    let html = r#"
        <h3 class="road"> 线路A </h3><h3 class="road"></h3>
        <ul class="playlist">
            <li><a href="/play/1/1">第 01 集</a></li>
            <li><a>no href</a></li>
            <li><a href="/play/1/2">第02集</a></li>
        </ul>
        <ul class="playlist"><li><a href="/play2/1/1">第01集</a></li></ul>
        <ul class="playlist"><li><span>empty</span></li></ul>
    "#;
    let roads = e.episode_page(html).unwrap();
    assert_eq!(roads.len(), 2);
    assert_eq!(roads[0].name, "线路A");
    assert_eq!(roads[0].episodes.len(), 2);
    assert_eq!(roads[0].episodes[0].name, "第01集");
    assert_eq!(roads[0].episodes[0].url, "https://example.com/play/1/1");
    assert_eq!(roads[1].name, "播放列表2");
    assert_eq!(roads[1].episodes[0].url, "https://example.com/play2/1/1");
}

#[test]
fn engine_reports_bad_selector() {
    let mut r = rule("t", "https://example.com");
    r.selectors.search_name = "a[[".into();
    let e = RuleEngine::new(r);
    match e.search_page("<p></p>") {
        Err(ProviderError::Source(m)) => assert!(m.starts_with("Invalid CSS selector 'a[[': ")),
        _ => panic!("expected a selector error"),
    }
}

#[test]
fn providers_register_and_list() {
    let mut state: TorrentProviderState<AnyProvider> = TorrentProviderState::new();
    state.register(AnyProvider::Nyaa(Nyaa::new(Vec::new())));
    state.register(AnyProvider::Mikan(Mikan::new(Vec::new())));
    state.register(AnyProvider::Dmhy(kuriume::dmhy::Dmhy::new()));
    state.register(AnyProvider::Mikan(Mikan::new(vec!["udp://t".to_string()])));
    assert_eq!(state.list_providers(), vec!["DMHY".to_string(), "Mikan".to_string(), "Nyaa".to_string()]);
    match state.get("Mikan") {
        Some(AnyProvider::Mikan(m)) => assert_eq!(m.trackers(), &vec!["udp://t".to_string()]),
        _ => panic!("Mikan should be registered"),
    }
    assert_eq!(state.get("Mikan").map(|p| p.name()), Some("Mikan"));
    assert!(state.get("Other").is_none());
    assert!(matches!(state.provider_for("Other"), Err(m) if m == "Torrent provider not found: Other"));
}

#[test]
fn sniff_decisions() {
    let html = r#"<iframe width="1" src="https://www.googletagmanager.com/x"></iframe>
        <iframe class="p" src="https://player.test/v?id=3" allowfullscreen></iframe>"#;
    assert_eq!(player_iframe_src(html), Some("https://player.test/v?id=3".to_string()));
    assert_eq!(player_iframe_src("<p>no frames</p>"), None);
    assert_eq!(
        first_player_src(&vec![None, Some("https://a.analytics.test".to_string()), Some("ok".to_string())]),
        Some("ok".to_string())
    );
    assert_eq!(sniffed_url("__SNIFF_RESULT__:https://v.test/a.m3u8"), Some("https://v.test/a.m3u8".to_string()));
    assert_eq!(sniffed_url("Some page"), None);
    assert_eq!(sniff_result(SniffOutcome::Found("u".to_string())), Ok("u".to_string()));
    assert_eq!(
        sniff_result(SniffOutcome::ChannelClosed),
        Err("Sniffer channel closed unexpectedly".to_string())
    );
    assert_eq!(sniff_result(SniffOutcome::TimedOut), Err("Video URL sniffing timed out (30s)".to_string()));
}

#[test]
fn anime4k_chains() {
    assert_eq!(anime4k_shader_names("C", true).unwrap(), vec!["Anime4K_Upscale_CNN_x2_M.glsl"]);
    assert_eq!(anime4k_shader_names("A", false).unwrap().len(), 6);
    assert_eq!(anime4k_shader_names("Z", false).unwrap_err(), "Unknown Anime4K mode: Z");
    assert_eq!(shader_list("/s", &vec!["a.glsl", "b.glsl"]), "/s/a.glsl:/s/b.glsl");
    assert_eq!(shader_dir("/app"), "/app/resources/shaders");
    assert_eq!(demuxer_max_bytes(64), 64 * 1024 * 1024);
    assert_eq!(demuxer_max_bytes(-1), -1_048_576);
}

#[test]
fn bangumi_requests_and_records() {
    assert_eq!(subject_url("12"), "https://api.bgm.tv/v0/subjects/12");
    assert_eq!(characters_url("12"), "https://api.bgm.tv/v0/subjects/12/characters");
    assert_eq!(not_found_message("12"), "Subject 12 not found");
    assert_eq!(
        request_failed_message("https://api.bgm.tv/v0/subjects", "500 Internal Server Error"),
        "Failed to request Bangumi https://api.bgm.tv/v0/subjects API returned 500 Internal Server Error"
    );
    let q = GetListQuery { year: Some(2024), month: Some(0), limit: 10, offset: 20, soft: Some(SortBy::Date), typ: 2 };
    let params: Vec<(String, String)> = list_query(&q);
    let want: Vec<(String, String)> = [("type", "2"), ("limit", "10"), ("offset", "20"), ("sort", "date"), ("year", "2024")]
        .iter()
        .map(|(a, b)| (a.to_string(), b.to_string()))
        .collect();
    assert_eq!(params, want);
    let eq = GetEpisodesQuery { id: "493016".to_string(), limit: 13, offset: 0 };
    assert_eq!(
        episodes_query(&eq),
        vec![
            ("subject_id".to_string(), "493016".to_string()),
            ("offset".to_string(), "0".to_string()),
            ("limit".to_string(), "13".to_string()),
        ]
    );
    assert_eq!(year_of(&Some("2023-10-06".to_string())), Some(2023));
    assert_eq!(year_of(&Some("99999-01".to_string())), None);
    assert_eq!(year_of(&None), None);
    let img = BangumiImages { large: None, common: Some("c".to_string()), medium: Some("m".to_string()) };
    assert_eq!(pick_image(Some(img)), Some("c".to_string()));
    let s = BangumiSubject {
        id: 400602,
        name: "葬送のフリーレン".to_string(),
        name_cn: Some(String::new()),
        summary: None,
        date: Some("2023-09-29".to_string()),
        images: None,
        meta_tags: Some(vec!["奇幻".to_string()]),
        total_episodes: 0,
        eps: 28,
    };
    let a = subject_summary(s);
    assert_eq!(a.id, "400602");
    assert_eq!(a.title_cn, "葬送のフリーレン");
    assert_eq!(a.year, Some(2023));
    assert_eq!(a.total_episodes, 28);
    let e = episode_info(BangumiEpisode {
        id: 9,
        airdate: None,
        name: Some("n".to_string()),
        name_cn: None,
        duration: None,
        desc: None,
        ep: 1,
    });
    assert_eq!(e.id, "9");
    assert_eq!(e.thumbnail, Some(String::new()));
}

#[test]
fn dmhy_feed_items() {
    let xml = r#"<rss><channel>
        <item><title><![CDATA[[Sub] Show &amp; Co - 01]]></title><link>https://share.dmhy.org/x</link>
        <enclosure url="magnet:?xt=urn:btih:ABC123&amp;tr=x" /><pubDate>Mon, 01 Jan 2024</pubDate></item>
        <item><title>no magnet</title></item>
    </channel></rss>"#;
    let items = parse_dmhy_rss(xml);
    assert_eq!(items.len(), 1);
    assert_eq!(items[0].title, "[Sub] Show & Co - 01");
    assert_eq!(extract_info_hash_from_magnet("magnet:?xt=urn:btih:ABC123&tr=x"), "ABC123");
    assert_eq!(extract_info_hash_from_magnet("nothing"), "");
    let entry = item_to_entry(DmhyItem {
        title: "t".to_string(),
        magnet: "magnet:?xt=urn:btih:FF".to_string(),
        pub_date: "d".to_string(),
    });
    assert_eq!(entry.episode_hash, "FF");
    assert_eq!(entry.torrent_url, "");
}

#[test]
fn nyaa_feed_items() {
    let xml = r#"<rss><channel><item>
        <title>[Erai-raws] Show - 01 [1080p]</title>
        <link>https://nyaa.si/download/1.torrent</link>
        <nyaa:infoHash>abcdef</nyaa:infoHash>
        <nyaa:size>1.2 GiB</nyaa:size>
        <pubDate>Tue, 02 Jan 2024</pubDate>
    </item></channel></rss>"#;
    let items = parse_nyaa_rss(xml);
    assert_eq!(items.len(), 1);
    assert_eq!(items[0].info_hash, "abcdef");
    let nyaa = Nyaa::new(Vec::new());
    let entry = nyaa.item_to_entry(items[0].clone());
    assert!(entry.magnet.starts_with("magnet:?xt=urn:btih:abcdef"));
    assert_eq!(entry.size, "1.2 GiB");
}
