use kuriume::mikan::{
    decode_html_entities, default_trackers, extract_attr_value, extract_bgm_id, parse_rss_items,
    parse_search_results, parse_subtitle_groups,
};

#[test]
fn test_decode_html_entities() {
    assert_eq!(
        decode_html_entities("&#x3010;&#x6211;&#x63A8;&#x7684;&#x5B69;&#x5B50;&#x3011;"),
        "【我推的孩子】"
    );
    assert_eq!(decode_html_entities("foo &amp; bar"), "foo & bar");
}

#[test]
fn test_extract_bgm_id() {
    let html = r#"<a href="https://bgm.tv/subject/517057">https://bgm.tv/subject/517057</a>"#;
    assert_eq!(extract_bgm_id(html), Some("517057".to_string()));
}

#[test]
fn test_parse_search_results() {
    let html = r#"
            <a href="/Home/Bangumi/2995" target="_blank">
                <span data-src="/images/Bangumi/202304/24335806.jpg?width=400" class="b-lazy"></span>
                <div class="an-text" title="&#x3010;&#x6211;&#x63A8;&#x7684;&#x5B69;&#x5B50;&#x3011;">【我推的孩子】</div>
            </a>
            <a href="/Home/Bangumi/3881" target="_blank">
                <span data-src="/images/Bangumi/202601/c180f722.jpg?width=400" class="b-lazy"></span>
                <div class="an-text" title="&#x3010;&#x6211;&#x63A8;&#x7684;&#x5B69;&#x5B50;&#x3011; &#x7B2C;&#x4E09;&#x5B63;">【我推的孩子】 第三季</div>
            </a>
        "#;
    let results = parse_search_results(html);
    assert_eq!(results.len(), 2);
    assert_eq!(results[0].provider_id, "2995");
    assert_eq!(results[0].title, "【我推的孩子】");
    assert_eq!(results[1].provider_id, "3881");
    assert_eq!(results[1].title, "【我推的孩子】 第三季");
}

#[test]
fn test_parse_subtitle_groups() {
    let html = r##"
            <a class="subgroup-name subgroup-554" data-anchor="#554">&#x767E;&#x51AC;&#x7EC3;&#x4E60;&#x7EC4;</a>
            <a class="subgroup-name subgroup-370" data-anchor="#370">LoliHouse</a>
            <a class="subgroup-name subgroup-583" data-anchor="#583">ANi</a>
        "##;
    let groups = parse_subtitle_groups(html);
    assert_eq!(groups.len(), 3);
    assert_eq!(groups[0].id, "554");
    assert_eq!(groups[0].name, "百冬练习组");
    assert_eq!(groups[1].id, "370");
    assert_eq!(groups[1].name, "LoliHouse");
    assert_eq!(groups[2].id, "583");
    assert_eq!(groups[2].name, "ANi");
}

#[test]
fn test_parse_rss_items() {
    let xml = r#"
<rss version="2.0" xmlns:torrent="https://mikanani.me/0.1/">
  <channel>
    <title>Mikan Project - 我推的孩子</title>
    <item>
      <guid isPermaLink="false">【百冬练习组】推しの子 / Oshi no Ko[33][1080p AVC AAC][繁体]</guid>
      <link>https://mikanani.me/Home/Episode/abc123def456</link>
      <title>【百冬练习组】推しの子 / Oshi no Ko[33][1080p AVC AAC][繁体]</title>
      <description>【百冬练习组】推しの子 / Oshi no Ko[33][1080p AVC AAC][繁体][255.68 MB]</description>
      <torrent xmlns="https://mikanani.me/0.1/">
        <link>https://mikanani.me/Home/Episode/abc123def456</link>
        <contentLength>268099904</contentLength>
        <pubDate>2026-03-12T23:38:28.33</pubDate>
      </torrent>
      <enclosure type="application/x-bittorrent" length="268099904" url="https://mikanani.me/Download/20260312/abc123def456.torrent"/>
    </item>
    <item>
      <guid isPermaLink="false">【百冬练习组】推しの子 / Oshi no Ko[32][1080p AVC AAC][繁体]</guid>
      <link>https://mikanani.me/Home/Episode/xyz789ghi012</link>
      <title>【百冬练习组】推しの子 / Oshi no Ko[32][1080p AVC AAC][繁体]</title>
      <description>【百冬练习组】推しの子 / Oshi no Ko[32][1080p AVC AAC][繁体][512.00 MB]</description>
      <torrent xmlns="https://mikanani.me/0.1/">
        <link>https://mikanani.me/Home/Episode/xyz789ghi012</link>
        <contentLength>536870912</contentLength>
        <pubDate>2026-03-05T20:00:00</pubDate>
      </torrent>
      <enclosure type="application/x-bittorrent" length="536870912" url="https://mikanani.me/Download/20260305/xyz789ghi012.torrent"/>
    </item>
  </channel>
</rss>
        "#;
    let trackers: Vec<String> = default_trackers();
    let entries = parse_rss_items(xml, &trackers);
    assert_eq!(entries.len(), 2);

    let e = &entries[0];
    assert_eq!(e.title, "【百冬练习组】推しの子 / Oshi no Ko[33][1080p AVC AAC][繁体]");
    assert_eq!(e.episode_hash, "abc123def456");
    assert_eq!(e.torrent_url, "https://mikanani.me/Download/20260312/abc123def456.torrent");
    assert!(e.magnet.starts_with("magnet:?xt=urn:btih:abc123def456&tr="));
    assert_eq!(e.size, "255.68 MB");
    assert_eq!(e.publish_date, "2026-03-12T23:38:28.33");

    let e2 = &entries[1];
    assert_eq!(e2.episode_hash, "xyz789ghi012");
    assert_eq!(e2.size, "512.00 MB");
    assert_eq!(e2.publish_date, "2026-03-05T20:00:00");
}

#[test]
fn test_extract_attr_value() {
    assert_eq!(
        extract_attr_value(r#"data-src="/images/test.jpg" class="b-lazy""#, "data-src"),
        Some("/images/test.jpg")
    );
    assert_eq!(extract_attr_value(r#"title='hello world'"#, "title"), Some("hello world"));
    assert_eq!(extract_attr_value(r#"no-attr-here"#, "title"), None);
}
