//! Nyaa: keyword search through its RSS feed, whose items carry the info
//! hash and a human-readable size; magnet links are built from the hash and
//! the source's trackers.
use vstd::prelude::*;
use crate::text::{chars_of, string_of, push_all};
use crate::markup::{
    filter_map_texts, item_texts, item_texts_exec, text_between, text_between_exec, texts_view,
    url_encode, url_encode_exec, xml_text, xml_text_exec, group_from_title,
    group_from_title_exec, lemma_filter_map_texts_source,
};
use crate::mikan::{
    basic_entities, basic_entities_exec, or_empty, or_empty_exec, magnet_uri, magnet_uri_exec,
};
use crate::torrent_provider::{
    TorrentEntry, EntryView, strings_view, TorrentSourceEntry, SourceEntryView, SubtitleGroup,
    GroupTorrents, entries_view, groups_view, group_torrents_view, group_names, grouped_names,
    entries_in_group, entries_of_group, groups_from_names, group_entries,
};
use crate::order::{strictly_sorted, views_of};

verus! {

/// One item of a Nyaa RSS feed.
#[derive(Debug, Clone)]
pub struct NyaaItem {
    pub title: String,
    pub torrent_url: String,
    pub info_hash: String,
    pub size: String,
    pub pub_date: String,
}

pub struct NyaaItemView {
    pub title: Seq<char>,
    pub torrent_url: Seq<char>,
    pub info_hash: Seq<char>,
    pub size: Seq<char>,
    pub pub_date: Seq<char>,
}

impl View for NyaaItem {
    type V = NyaaItemView;

    open spec fn view(&self) -> NyaaItemView {
        NyaaItemView {
            title: self.title@,
            torrent_url: self.torrent_url@,
            info_hash: self.info_hash@,
            size: self.size@,
            pub_date: self.pub_date@,
        }
    }
}

pub open spec fn nyaa_items_view(s: Seq<NyaaItem>) -> Seq<NyaaItemView> {
    s.map_values(|i: NyaaItem| i@)
}

/// The trimmed text of the first `<nyaa:field>...</nyaa:field>`.
pub open spec fn nyaa_field(x: Seq<char>, field: Seq<char>) -> Option<Seq<char>> {
    text_between(x, "<nyaa:"@ + field + ">"@, "</nyaa:"@ + field + ">"@)
}

fn nyaa_field_exec(x: &Vec<char>, field: &Vec<char>) -> (r: Option<Vec<char>>)
    ensures
        r matches Some(t) ==> nyaa_field(x@, field@) == Some(t@),
        r is None ==> nyaa_field(x@, field@) is None,
{
    let mut open = chars_of("<nyaa:");
    push_all(&mut open, field);
    push_all(&mut open, &chars_of(">"));
    let mut close = chars_of("</nyaa:");
    push_all(&mut close, field);
    push_all(&mut close, &chars_of(">"));
    text_between_exec(x, &open, &close)
}

/// Extracts the trimmed text of `<nyaa:field>...</nyaa:field>`.
pub fn extract_nyaa_field(xml: &str, field: &str) -> (r: Option<String>)
    ensures
        r matches Some(v) ==> nyaa_field(xml@, field@) == Some(v@),
        r is None ==> nyaa_field(xml@, field@) is None,
{
    match nyaa_field_exec(&chars_of(xml), &chars_of(field)) {
        Some(v) => Some(string_of(&v)),
        None => None,
    }
}

/// The item that one `<item>` text yields, when it has an info hash.
pub open spec fn nyaa_item(item: Seq<char>) -> Option<NyaaItemView> {
    let info_hash = or_empty(nyaa_field(item, "infoHash"@));
    if info_hash.len() == 0 {
        None
    } else {
        Some(
            NyaaItemView {
                title: match xml_text(item, "title"@) {
                    Some(t) => basic_entities(t),
                    None => seq![],
                },
                torrent_url: or_empty(xml_text(item, "link"@)),
                info_hash,
                size: or_empty(nyaa_field(item, "size"@)),
                pub_date: or_empty(xml_text(item, "pubDate"@)),
            },
        )
    }
}

pub open spec fn nyaa_item_fn() -> spec_fn(Seq<char>) -> Option<NyaaItemView> {
    |t: Seq<char>| nyaa_item(t)
}

/// The items of a Nyaa RSS feed, in feed order.
pub open spec fn nyaa_items(x: Seq<char>) -> Seq<NyaaItemView> {
    filter_map_texts(item_texts(x), nyaa_item_fn())
}

/// A Nyaa item is read from its `<item>` text: it is kept exactly when its
/// `<nyaa:infoHash>` text is not empty; its torrent URL is the `<link>` text
/// (the `.torrent` download), its info hash and size are the
/// `<nyaa:infoHash>` and `<nyaa:size>` texts, its title is the `<title>` text
/// with the basic entities decoded, and its date is the `<pubDate>` text.
pub proof fn law_nyaa_item_fields(item: Seq<char>)
    ensures
        nyaa_item(item) is Some <==> or_empty(nyaa_field(item, "infoHash"@)).len() > 0,
        nyaa_item(item) matches Some(v) ==> {
            &&& v.torrent_url == or_empty(xml_text(item, "link"@))
            &&& v.info_hash == or_empty(nyaa_field(item, "infoHash"@))
            &&& v.size == or_empty(nyaa_field(item, "size"@))
            &&& v.title == match xml_text(item, "title"@) {
                Some(t) => basic_entities(t),
                None => seq![],
            }
            &&& v.pub_date == or_empty(xml_text(item, "pubDate"@))
        },
{
}

/// Every item of a Nyaa feed comes from one `<item>` of the feed that has an
/// info hash, and its torrent URL is that item's `<link>` text.
pub proof fn law_nyaa_items_keep_links(x: Seq<char>)
    ensures
        forall|k: int|
            0 <= k < nyaa_items(x).len() ==> exists|j: int|
                0 <= j < item_texts(x).len() && (#[trigger] nyaa_items(x)[k]).torrent_url == or_empty(
                    xml_text(#[trigger] item_texts(x)[j], "link"@),
                ) && nyaa_items(x)[k].info_hash == or_empty(nyaa_field(item_texts(x)[j], "infoHash"@))
                    && nyaa_items(x)[k].info_hash.len() > 0,
{
    let s = item_texts(x);
    let r = nyaa_items(x);
    lemma_filter_map_texts_source(s, nyaa_item_fn());
    assert forall|k: int| 0 <= k < r.len() implies exists|j: int|
        0 <= j < s.len() && (#[trigger] r[k]).torrent_url == or_empty(xml_text(#[trigger] s[j], "link"@))
            && r[k].info_hash == or_empty(nyaa_field(s[j], "infoHash"@)) && r[k].info_hash.len() > 0 by {
        let j = choose|j: int| 0 <= j < s.len() && nyaa_item_fn()(#[trigger] s[j]) == Some(#[trigger] r[k]);
        law_nyaa_item_fields(s[j]);
    }
}

fn nyaa_item_exec(item: &Vec<char>) -> (r: Option<NyaaItem>)
    ensures
        r matches Some(v) ==> nyaa_item(item@) == Some(v@),
        r is None ==> nyaa_item(item@) is None,
{
    let info_hash = or_empty_exec(nyaa_field_exec(item, &chars_of("infoHash")));
    if info_hash.len() == 0 {
        return None;
    }
    let title = match xml_text_exec(item, &chars_of("title")) {
        Some(t) => basic_entities_exec(&t),
        None => Vec::new(),
    };
    let torrent_url = or_empty_exec(xml_text_exec(item, &chars_of("link")));
    let size = or_empty_exec(nyaa_field_exec(item, &chars_of("size")));
    let pub_date = or_empty_exec(xml_text_exec(item, &chars_of("pubDate")));
    Some(
        NyaaItem {
            title: string_of(&title),
            torrent_url: string_of(&torrent_url),
            info_hash: string_of(&info_hash),
            size: string_of(&size),
            pub_date: string_of(&pub_date),
        },
    )
}

/// Parses a Nyaa RSS feed into its items (those with an info hash).
pub fn parse_nyaa_rss(xml: &str) -> (r: Vec<NyaaItem>)
    ensures
        nyaa_items_view(r@) == nyaa_items(xml@),
{
    let x = chars_of(xml);
    let texts = item_texts_exec(&x);
    let ghost tv = texts_view(texts@);
    let mut out: Vec<NyaaItem> = Vec::new();
    let mut i: usize = 0;
    assert(tv.subrange(0, 0) =~= Seq::<Seq<char>>::empty());
    assert(nyaa_items_view(out@) =~= filter_map_texts(tv.subrange(0, 0), nyaa_item_fn()));
    while i < texts.len()
        invariant
            i <= texts@.len(),
            tv == texts_view(texts@),
            tv == item_texts(x@),
            x@ == xml@,
            nyaa_items_view(out@) == filter_map_texts(tv.subrange(0, i as int), nyaa_item_fn()),
        decreases texts@.len() - i,
    {
        let ghost prev = nyaa_items_view(out@);
        assert(tv.subrange(0, i + 1).drop_last() =~= tv.subrange(0, i as int));
        assert(tv.subrange(0, i + 1).last() == texts@[i as int]@);
        match nyaa_item_exec(&texts[i]) {
            Some(v) => {
                out.push(v);
                assert(nyaa_items_view(out@) =~= prev.push(v@));
            },
            None => {},
        }
        i = i + 1;
    }
    assert(tv.subrange(0, texts@.len() as int) =~= tv);
    out
}

/// The trackers that Nyaa magnet links carry when none are configured.
pub fn default_trackers() -> (r: Vec<String>)
    ensures
        strings_view(r@) == default_trackers_spec(),
{
    let r = vec![
        string_of(&chars_of("http://nyaa.tracker.wf:7777/announce")),
        string_of(&chars_of("udp://open.stealth.si:80/announce")),
        string_of(&chars_of("udp://tracker.opentrackr.org:1337/announce")),
        string_of(&chars_of("udp://exodus.desync.com:6969/announce")),
        string_of(&chars_of("udp://tracker.torrent.eu.org:451/announce")),
    ];
    assert(strings_view(r@) =~= default_trackers_spec());
    r
}

pub open spec fn default_trackers_spec() -> Seq<Seq<char>> {
    seq![
        "http://nyaa.tracker.wf:7777/announce"@,
        "udp://open.stealth.si:80/announce"@,
        "udp://tracker.opentrackr.org:1337/announce"@,
        "udp://exodus.desync.com:6969/announce"@,
        "udp://tracker.torrent.eu.org:451/announce"@,
    ]
}

/// The Nyaa source: the trackers that its magnet links carry.
pub struct Nyaa {
    trackers: Vec<String>,
}

impl Nyaa {
    pub closed spec fn trackers_view(&self) -> Seq<Seq<char>> {
        strings_view(self.trackers@)
    }

    /// A Nyaa source with the given trackers, or the built-in ones when the
    /// list is empty.
    pub fn new(custom_trackers: Vec<String>) -> (r: Nyaa)
        ensures
            r.trackers_view() == if custom_trackers@.len() == 0 {
                default_trackers_spec()
            } else {
                strings_view(custom_trackers@)
            },
    {
        if custom_trackers.len() == 0 {
            Nyaa { trackers: default_trackers() }
        } else {
            Nyaa { trackers: custom_trackers }
        }
    }

    /// The trackers in use.
    pub fn trackers(&self) -> (r: &Vec<String>)
        ensures
            strings_view(r@) == self.trackers_view(),
    {
        &self.trackers
    }

    /// Turns a Nyaa item into a torrent entry, with a magnet link built from
    /// its info hash and this source's trackers.
    pub fn item_to_entry(&self, item: NyaaItem) -> (r: TorrentEntry)
        ensures
            r@ == nyaa_entry(item@, self.trackers_view()),
    {
        let hash = chars_of(item.info_hash.as_str());
        let magnet = if hash.len() > 0 {
            string_of(&magnet_uri_exec(&hash, self.trackers.as_slice()))
        } else {
            String::new()
        };
        TorrentEntry {
            title: item.title,
            episode_hash: item.info_hash,
            torrent_url: item.torrent_url,
            magnet,
            size: item.size,
            publish_date: item.pub_date,
        }
    }
}

/// The group name of each item, in order.
pub open spec fn nyaa_names(items: Seq<NyaaItemView>) -> Seq<Seq<char>> {
    items.map_values(|i: NyaaItemView| group_from_title(i.title))
}

/// The torrent entry of each item with the given trackers, in order.
pub open spec fn nyaa_entries(items: Seq<NyaaItemView>, tr: Seq<Seq<char>>) -> Seq<EntryView> {
    items.map_values(|i: NyaaItemView| nyaa_entry(i, tr))
}

impl Nyaa {
    fn names_and_entries(&self, items: &Vec<NyaaItem>) -> (r: (Vec<Vec<char>>, Vec<TorrentEntry>))
        ensures
            views_of(r.0@) == nyaa_names(nyaa_items_view(items@)),
            entries_view(r.1@) == nyaa_entries(nyaa_items_view(items@), self.trackers_view()),
            r.0@.len() == r.1@.len(),
    {
        let mut names: Vec<Vec<char>> = Vec::new();
        let mut entries: Vec<TorrentEntry> = Vec::new();
        let mut i: usize = 0;
        let ghost nn = nyaa_names(nyaa_items_view(items@));
        let ghost ne = nyaa_entries(nyaa_items_view(items@), self.trackers_view());
        while i < items.len()
            invariant
                i <= items@.len(),
                nn == nyaa_names(nyaa_items_view(items@)),
                ne == nyaa_entries(nyaa_items_view(items@), self.trackers_view()),
                views_of(names@) == nn.subrange(0, i as int),
                entries_view(entries@) == ne.subrange(0, i as int),
                names@.len() == i,
                entries@.len() == i,
            decreases items@.len() - i,
        {
            let item = &items[i];
            assert(nyaa_items_view(items@)[i as int] == item@);
            let g = group_from_title_exec(&chars_of(item.title.as_str()));
            let e = self.item_to_entry(
                NyaaItem {
                    title: item.title.clone(),
                    torrent_url: item.torrent_url.clone(),
                    info_hash: item.info_hash.clone(),
                    size: item.size.clone(),
                    pub_date: item.pub_date.clone(),
                },
            );
            assert(g@ == nn[i as int]);
            assert(e@ == ne[i as int]);
            names.push(g);
            entries.push(e);
            assert(views_of(names@) =~= nn.subrange(0, i + 1));
            assert(entries_view(entries@) =~= ne.subrange(0, i + 1));
            i = i + 1;
        }
        assert(nn.subrange(0, i as int) =~= nn);
        assert(ne.subrange(0, i as int) =~= ne);
        (names, entries)
    }

    /// The resolved entry for a keyword whose search gave `items`: the
    /// keyword as ID and title, when the search found anything.
    pub fn resolve_from_items(&self, keyword: &str, items: &Vec<NyaaItem>) -> (r: Option<TorrentSourceEntry>)
        ensures
            items@.len() == 0 ==> r is None,
            items@.len() > 0 ==> (r matches Some(e) && e@ == (SourceEntryView {
                provider_id: keyword@,
                title: keyword@,
                cover: None,
                bgm_id: None,
            })),
    {
        if items.len() == 0 {
            return None;
        }
        Some(
            TorrentSourceEntry {
                provider_id: string_of(&chars_of(keyword)),
                title: string_of(&chars_of(keyword)),
                cover: None,
                bgm_id: None,
            },
        )
    }

    /// The release groups of the search results: one per distinct `[Group]`
    /// of the titles, with that name as ID, sorted by name.
    pub fn groups_from_items(&self, items: &Vec<NyaaItem>) -> (r: Vec<SubtitleGroup>)
        ensures
            strictly_sorted(group_names(groups_view(r@))),
            group_names(groups_view(r@)).to_set() == nyaa_names(nyaa_items_view(items@)).to_set(),
            forall|k: int| 0 <= k < r@.len() ==> (#[trigger] r@[k]).id@ == r@[k].name@,
    {
        let (names, _entries) = self.names_and_entries(items);
        groups_from_names(&names)
    }

    /// The entries of the results whose group is `group_id`, in order.
    pub fn group_torrents_from_items(&self, items: &Vec<NyaaItem>, group_id: &str) -> (r: Vec<TorrentEntry>)
        ensures
            entries_view(r@) == entries_in_group(
                nyaa_names(nyaa_items_view(items@)),
                nyaa_entries(nyaa_items_view(items@), self.trackers_view()),
                group_id@,
            ),
    {
        let (names, entries) = self.names_and_entries(items);
        entries_of_group(&names, &entries, &chars_of(group_id))
    }

    /// The results grouped by release group: one group per distinct name,
    /// sorted by name, each with its entries in result order.
    pub fn all_torrents_from_items(&self, items: &Vec<NyaaItem>) -> (r: Vec<GroupTorrents>)
        ensures
            strictly_sorted(grouped_names(group_torrents_view(r@))),
            grouped_names(group_torrents_view(r@)).to_set() == nyaa_names(nyaa_items_view(items@)).to_set(),
            forall|k: int| 0 <= k < r@.len() ==> (#[trigger] r@[k]).group.id@ == r@[k].group.name@
                && entries_view(r@[k].torrents@) == entries_in_group(
                    nyaa_names(nyaa_items_view(items@)),
                    nyaa_entries(nyaa_items_view(items@), self.trackers_view()),
                    r@[k].group.name@,
                ),
    {
        let (names, entries) = self.names_and_entries(items);
        group_entries(&names, &entries)
    }
}

impl Default for Nyaa {
    fn default() -> (r: Nyaa)
        ensures
            r.trackers_view() == default_trackers_spec(),
    {
        Nyaa::new(Vec::new())
    }
}

/// The torrent entry that a Nyaa item stands for.
pub open spec fn nyaa_entry(item: NyaaItemView, tr: Seq<Seq<char>>) -> EntryView {
    EntryView {
        title: item.title,
        episode_hash: item.info_hash,
        torrent_url: item.torrent_url,
        magnet: if item.info_hash.len() > 0 {
            magnet_uri(item.info_hash, tr)
        } else {
            seq![]
        },
        size: item.size,
        publish_date: item.pub_date,
    }
}

/// The torrent entry of a Nyaa item keeps the item's title, info hash (as
/// episode hash), `.torrent` URL, size and date; its magnet link, present
/// exactly when there is an info hash, names that hash (which reads back
/// from it when it holds no `&`) and carries the trackers.
pub proof fn law_nyaa_entry_fields(item: NyaaItemView, tr: Seq<Seq<char>>)
    ensures
        nyaa_entry(item, tr).title == item.title,
        nyaa_entry(item, tr).episode_hash == item.info_hash,
        nyaa_entry(item, tr).torrent_url == item.torrent_url,
        nyaa_entry(item, tr).size == item.size,
        nyaa_entry(item, tr).publish_date == item.pub_date,
        item.info_hash.len() == 0 <==> nyaa_entry(item, tr).magnet.len() == 0,
        item.info_hash.len() > 0 ==> nyaa_entry(item, tr).magnet == "magnet:?xt=urn:btih:"@ + item.info_hash
            + crate::mikan::tracker_params(tr),
        (item.info_hash.len() > 0 && forall|i: int| 0 <= i < item.info_hash.len() ==> item.info_hash[i] != '&')
            ==> crate::markup::info_hash_of(nyaa_entry(item, tr).magnet) == item.info_hash,
{
    reveal_strlit("magnet:?xt=urn:btih:");
    if item.info_hash.len() > 0 && forall|i: int| 0 <= i < item.info_hash.len() ==> item.info_hash[i] != '&' {
        crate::mikan::law_magnet_hash_reads_back(item.info_hash, tr);
    }
}

/// Extracts the trimmed text between `<tag>` and `</tag>`.
pub fn extract_xml_text(xml: &str, tag: &str) -> (r: Option<String>)
    ensures
        r matches Some(v) ==> xml_text(xml@, tag@) == Some(v@),
        r is None ==> xml_text(xml@, tag@) is None,
{
    crate::mikan::extract_xml_text(xml, tag)
}

/// The first `[GroupName]` of a torrent title, or `Unknown`.
pub fn extract_group_from_title(title: &str) -> (r: String)
    ensures
        r@ == group_from_title(title@),
{
    string_of(&group_from_title_exec(&chars_of(title)))
}

/// Decodes the common named HTML entities.
pub fn decode_html_entities(s: &str) -> (r: String)
    ensures
        r@ == basic_entities(s@),
{
    string_of(&basic_entities_exec(&chars_of(s)))
}

/// Simple URL-encoding for query parameters.
pub fn urlencoding(s: &str) -> (r: String)
    ensures
        r@ == url_encode(s@),
{
    string_of(&url_encode_exec(&chars_of(s)))
}

/// The address of Nyaa's anime RSS search for `keyword`.
pub open spec fn search_url_spec(keyword: Seq<char>) -> Seq<char> {
    "https://nyaa.si/?page=rss&q="@ + url_encode(keyword) + "&c=1_0&f=0"@
}

/// The RSS search address for a keyword (all anime, no filter).
pub fn search_url(keyword: &str) -> (r: String)
    ensures
        r@ == search_url_spec(keyword@),
{
    let mut v = chars_of("https://nyaa.si/?page=rss&q=");
    push_all(&mut v, &url_encode_exec(&chars_of(keyword)));
    push_all(&mut v, &chars_of("&c=1_0&f=0"));
    string_of(&v)
}

} // verus!
