use kuriume::dmhy::{self, decode_cdata, Dmhy, DmhyItem};
use kuriume::frame::frame_message;
use kuriume::mikan::{default_trackers, Mikan};
use kuriume::nyaa::{self, extract_nyaa_field, Nyaa, NyaaItem};
use kuriume::server::{stream_plan, stream_url, StreamPlan};
use kuriume::store::{lookup_key, LookupKey};
use kuriume::torrent::{
    effective_trackers, engine_default_trackers, is_download_source, metadata_timeout_secs,
    session_trackers, torrent_files,
};
use kuriume::torrent_provider::TorrentSourceEntry;

#[test]
fn frame_message_layout() {
    let m = frame_message(0x0102_0304, 2, &vec![9, 8, 7]);
    assert_eq!(m, vec![4, 3, 2, 1, 2, 0, 0, 0, 9, 8, 7]);
    let w = u32::from_le_bytes([m[0], m[1], m[2], m[3]]);
    let h = u32::from_le_bytes([m[4], m[5], m[6], m[7]]);
    assert_eq!((w, h), (0x0102_0304, 2));
    assert_eq!(frame_message(u32::MAX, 0, &Vec::new()), vec![255, 255, 255, 255, 0, 0, 0, 0]);
}

#[test]
fn stream_plans() {
    match stream_plan(Some("bytes=100-199"), 1000) {
        StreamPlan::Partial { start, end, len, content_range } => {
            assert_eq!((start, end, len), (100, 199, 100));
            assert_eq!(content_range, "bytes 100-199/1000");
        }
        StreamPlan::Full { .. } => panic!("expected a partial answer"),
    }
    assert!(matches!(stream_plan(Some("bytes=2000-"), 1000), StreamPlan::Full { len: 1000 }));
    assert!(matches!(stream_plan(None, 0), StreamPlan::Full { len: 0 }));
    assert_eq!(stream_url(8080, 3, 0), "http://127.0.0.1:8080/stream/3/0");
}

#[test]
fn engine_trackers_and_sources() {
    assert_eq!(engine_default_trackers().len(), 15);
    assert_eq!(effective_trackers(Vec::new()), engine_default_trackers());
    assert_eq!(effective_trackers(vec!["udp://a:1".to_string()]), vec!["udp://a:1".to_string()]);
    let kept = session_trackers(&vec![
        "udp://tracker.test:80/announce".to_string(),
        "not a url".to_string(),
        "http://t.test/announce".to_string(),
    ]);
    assert_eq!(kept, vec!["udp://tracker.test:80/announce".to_string(), "http://t.test/announce".to_string()]);
    assert!(is_download_source("https://mikanani.me/Download/x.torrent"));
    assert!(!is_download_source("magnet:?xt=urn:btih:abc"));
    assert_eq!(metadata_timeout_secs(), 60);
    let files = torrent_files(vec![("a.mkv".to_string(), 10), ("b.ass".to_string(), 2)]);
    assert_eq!(files.len(), 2);
    assert_eq!((files[1].index, files[1].path.as_str(), files[1].length), (1, "b.ass", 2));
}

#[test]
fn lookup_keys() {
    assert!(matches!(lookup_key(Some("g"), Some("r")), LookupKey::GroupAndResolution(g, r) if g == "g" && r == "r"));
    assert!(matches!(lookup_key(Some("g"), None), LookupKey::Group(g) if g == "g"));
    assert!(matches!(lookup_key(None, Some("r")), LookupKey::Latest));
}

fn candidate(id: &str) -> TorrentSourceEntry {
    TorrentSourceEntry { provider_id: id.to_string(), title: format!("t{id}"), cover: None, bgm_id: None }
}

#[test]
fn mikan_resolution_picks_first_match() {
    let m = Mikan::new(Vec::new());
    assert_eq!(m.trackers(), &default_trackers());
    let found = m.first_matching(
        vec![candidate("1"), candidate("2"), candidate("3")],
        vec![Some("9".to_string()), None, Some("7".to_string())],
        "7",
    );
    let found = found.expect("the third candidate matches");
    assert_eq!(found.provider_id, "3");
    assert_eq!(found.bgm_id, Some("7".to_string()));
    assert!(m.first_matching(vec![candidate("1")], vec![Some("8".to_string())], "7").is_none());
}

#[test]
fn dmhy_grouping_and_urls() {
    let d = Dmhy::new();
    let item = |t: &str, h: &str| DmhyItem {
        title: t.to_string(),
        magnet: format!("magnet:?xt=urn:btih:{h}&tr=x"),
        pub_date: String::new(),
    };
    let items = vec![item("[B] one", "1"), item("[A] two", "2"), item("no group", "3"), item("[B] three", "4")];
    let groups = d.groups_from_items(&items);
    let names: Vec<&str> = groups.iter().map(|g| g.name.as_str()).collect();
    assert_eq!(names, vec!["A", "B", "Unknown"]);
    let all = d.all_torrents_from_items(&items);
    assert_eq!(all.len(), 3);
    assert_eq!(all[1].group.name, "B");
    let hashes: Vec<&str> = all[1].torrents.iter().map(|t| t.episode_hash.as_str()).collect();
    assert_eq!(hashes, vec!["1", "4"]);
    assert_eq!(d.group_torrents_from_items(&items, "A").len(), 1);
    assert!(d.resolve_from_items("kw", &Vec::new()).is_none());
    assert_eq!(d.resolve_from_items("kw", &items).unwrap().provider_id, "kw");
    assert_eq!(
        dmhy::search_url("Oshi no Ko 推"),
        "https://share.dmhy.org/topics/rss/rss.xml?keyword=Oshi+no+Ko+%E6%8E%A8&sort_id=2"
    );
    assert_eq!(decode_cdata("  <![CDATA[ inner ]]> "), "inner");
    assert_eq!(decode_cdata("<![CDATA[open"), "<![CDATA[open");
}

#[test]
fn nyaa_fields_and_urls() {
    assert_eq!(extract_nyaa_field("<nyaa:size> 1 GiB </nyaa:size>", "size"), Some("1 GiB".to_string()));
    assert_eq!(extract_nyaa_field("<nyaa:size>", "size"), None);
    assert_eq!(nyaa::search_url("a b"), "https://nyaa.si/?page=rss&q=a+b&c=1_0&f=0");
    let n = Nyaa::new(vec!["udp://t1".to_string(), "udp://t2".to_string()]);
    let e = n.item_to_entry(NyaaItem {
        title: "[G] x".to_string(),
        torrent_url: "u".to_string(),
        info_hash: "h".to_string(),
        size: "s".to_string(),
        pub_date: "d".to_string(),
    });
    assert_eq!(e.magnet, "magnet:?xt=urn:btih:h&tr=udp://t1&tr=udp://t2");
    let empty = n.item_to_entry(NyaaItem {
        title: String::new(),
        torrent_url: String::new(),
        info_hash: String::new(),
        size: String::new(),
        pub_date: String::new(),
    });
    assert_eq!(empty.magnet, "");
}

#[test]
fn grouping_keeps_every_entry() {
    let d = Dmhy::new();
    let item = |t: &str| DmhyItem { title: t.to_string(), magnet: "magnet:?xt=urn:btih:x".to_string(), pub_date: String::new() };
    let items = vec![item("[B] 1"), item("[A] 2"), item("[B] 3"), item("[] 4"), item("[C] 5")];
    let all = d.all_torrents_from_items(&items);
    let total: usize = all.iter().map(|g| g.torrents.len()).sum();
    assert_eq!(total, items.len());
}

#[test]
fn plain_text_decodes_to_itself() {
    for t in ["plain text", "【我推的孩子】 第三季", "a;b#x27"] {
        assert_eq!(kuriume::mikan::decode_html_entities(t), t);
        assert_eq!(dmhy::decode_html_entities(t), t);
        assert_eq!(nyaa::decode_html_entities(t), t);
    }
}

#[test]
fn url_encoding_is_query_safe() {
    for t in ["a&b=c d#e", "推しの子", "~-_.", "100%"] {
        let e = dmhy::urlencoding(t);
        assert!(e.chars().all(|c| c.is_ascii_alphanumeric() || "-_.~+%".contains(c)), "{e}");
        assert_eq!(nyaa::urlencoding(t), e);
    }
    assert_eq!(dmhy::urlencoding("a&b c"), "a%26b+c");
}

#[test]
fn feed_magnets_name_their_hash() {
    let xml = "<item><link>https://mikanani.me/Home/Episode/h1</link></item>\
               <item><link>https://mikanani.me/Home/Other/x</link></item>\
               <item><link>/Home/Episode/h2</link><contentLength>1536</contentLength></item>";
    let trackers = vec!["udp://t".to_string()];
    let entries = kuriume::mikan::parse_rss_items(xml, &trackers);
    assert_eq!(entries.len(), 2);
    for e in &entries {
        assert!(!e.episode_hash.is_empty());
        assert_eq!(e.magnet, format!("magnet:?xt=urn:btih:{}&tr=udp://t", e.episode_hash));
    }
    assert_eq!(entries[1].size, "1.50 KB");
}

#[test]
fn mikan_lists_each_id_once() {
    let html = r#"<a href="/Home/Bangumi/12"><div class="an-text" title="A">A</div></a>
        <a href="/RSS/Bangumi?bangumiId=12">rss</a>
        <a href="/Home/Bangumi/12"><div title="A again">A</div></a>
        <a href="/Home/Bangumi/34"><div title="B">B</div></a>"#;
    let results = kuriume::mikan::parse_search_results(html);
    let ids: Vec<&str> = results.iter().map(|r| r.provider_id.as_str()).collect();
    assert_eq!(ids, vec!["12", "34"]);
    let groups = kuriume::mikan::parse_subtitle_groups(
        r#"<a class="subgroup-name subgroup-1">X</a><a class="subgroup-name subgroup-1">Y</a><a class="subgroup-name subgroup-2">Z</a>"#,
    );
    let ids: Vec<&str> = groups.iter().map(|g| g.id.as_str()).collect();
    assert_eq!(ids, vec!["1", "2"]);
    assert_eq!(groups[0].name, "X");
}
