//! DMHY: keyword search through its RSS feed. Items carry a magnet link in
//! their enclosure; release groups are read from the titles.
use vstd::prelude::*;
use crate::text::{chars_of, string_of, push_all};
use crate::markup::{
    attr_dq_range, attr_dq_range_exec, filter_map_texts, group_from_title,
    group_from_title_exec, info_hash_of, info_hash_of_exec, item_texts, item_texts_exec,
    range_text, range_text_exec, lemma_filter_map_texts_source, strip_cdata, strip_cdata_exec, texts_view, url_encode,
    url_encode_exec, xml_text, xml_text_exec,
};
use crate::mikan::{basic_entities, basic_entities_exec, or_empty, or_empty_exec};
use crate::torrent_provider::{
    TorrentEntry, EntryView, TorrentSourceEntry, SourceEntryView, SubtitleGroup, GroupTorrents,
    entries_view, groups_view, group_torrents_view, group_names, grouped_names,
    entries_in_group, entries_of_group, groups_from_names, group_entries, GroupTorrentsView,
    group_total, law_grouping_keeps_every_entry, group_multiset, law_grouping_is_a_permutation,
};
use crate::order::{strictly_sorted, views_of};

verus! {

/// One item of a DMHY RSS feed.
#[derive(Debug, Clone)]
pub struct DmhyItem {
    pub title: String,
    pub magnet: String,
    pub pub_date: String,
}

pub struct DmhyItemView {
    pub title: Seq<char>,
    pub magnet: Seq<char>,
    pub pub_date: Seq<char>,
}

impl View for DmhyItem {
    type V = DmhyItemView;

    open spec fn view(&self) -> DmhyItemView {
        DmhyItemView { title: self.title@, magnet: self.magnet@, pub_date: self.pub_date@ }
    }
}

pub open spec fn dmhy_items_view(s: Seq<DmhyItem>) -> Seq<DmhyItemView> {
    s.map_values(|i: DmhyItem| i@)
}

/// The item that one `<item>` text yields: its title (entities decoded,
/// CDATA stripped), the `url` of its enclosure and its date, when the
/// enclosure URL is not empty.
pub open spec fn dmhy_item(item: Seq<char>) -> Option<DmhyItemView> {
    let magnet = or_empty(range_text(item, attr_dq_range(item, "url"@)));
    if magnet.len() == 0 {
        None
    } else {
        Some(
            DmhyItemView {
                title: match xml_text(item, "title"@) {
                    Some(t) => strip_cdata(basic_entities(t)),
                    None => seq![],
                },
                magnet,
                pub_date: or_empty(xml_text(item, "pubDate"@)),
            },
        )
    }
}

pub open spec fn dmhy_item_fn() -> spec_fn(Seq<char>) -> Option<DmhyItemView> {
    |t: Seq<char>| dmhy_item(t)
}

/// The items of a DMHY RSS feed, in feed order.
pub open spec fn dmhy_items(x: Seq<char>) -> Seq<DmhyItemView> {
    filter_map_texts(item_texts(x), dmhy_item_fn())
}

/// A DMHY item is read from its `<item>` text: its magnet link is the
/// enclosure's `url` value, which is never empty; its title is the
/// `<title>` text with the basic entities decoded and a CDATA wrapper
/// stripped; its date is the `<pubDate>` text. An item whose enclosure has
/// no `url` value is left out.
pub proof fn law_dmhy_item_from_enclosure(item: Seq<char>)
    ensures
        range_text(item, attr_dq_range(item, "url"@)) matches Some(u) && u.len() > 0 <==> dmhy_item(item) is Some,
        dmhy_item(item) matches Some(v) ==> {
            &&& range_text(item, attr_dq_range(item, "url"@)) == Some(v.magnet)
            &&& v.magnet.len() > 0
            &&& v.title == match xml_text(item, "title"@) {
                Some(t) => strip_cdata(basic_entities(t)),
                None => seq![],
            }
            &&& v.pub_date == or_empty(xml_text(item, "pubDate"@))
        },
{
}

/// Every item of a DMHY feed comes from one `<item>` of the feed, read as
/// `law_dmhy_item_from_enclosure` says: its magnet link is that item's
/// enclosure `url`.
pub proof fn law_dmhy_items_from_enclosures(x: Seq<char>)
    ensures
        forall|k: int|
            0 <= k < dmhy_items(x).len() ==> exists|j: int|
                0 <= j < item_texts(x).len() && range_text(
                    #[trigger] item_texts(x)[j],
                    attr_dq_range(item_texts(x)[j], "url"@),
                ) == Some((#[trigger] dmhy_items(x)[k]).magnet) && dmhy_items(x)[k].magnet.len() > 0
                    && dmhy_items(x)[k].title == match xml_text(item_texts(x)[j], "title"@) {
                    Some(t) => strip_cdata(basic_entities(t)),
                    None => seq![],
                },
{
    let s = item_texts(x);
    let r = dmhy_items(x);
    lemma_filter_map_texts_source(s, dmhy_item_fn());
    assert forall|k: int| 0 <= k < r.len() implies exists|j: int|
        0 <= j < s.len() && range_text(#[trigger] s[j], attr_dq_range(s[j], "url"@)) == Some((#[trigger] r[k]).magnet)
            && r[k].magnet.len() > 0 && r[k].title == match xml_text(s[j], "title"@) {
            Some(t) => strip_cdata(basic_entities(t)),
            None => seq![],
        } by {
        let j = choose|j: int| 0 <= j < s.len() && dmhy_item_fn()(#[trigger] s[j]) == Some(#[trigger] r[k]);
        law_dmhy_item_from_enclosure(s[j]);
    }
}

fn dmhy_item_exec(item: &Vec<char>) -> (r: Option<DmhyItem>)
    ensures
        r matches Some(v) ==> dmhy_item(item@) == Some(v@),
        r is None ==> dmhy_item(item@) is None,
{
    let url = chars_of("url");
    let rng = attr_dq_range_exec(item, &url);
    let magnet = or_empty_exec(range_text_exec(item, rng));
    if magnet.len() == 0 {
        return None;
    }
    let title = match xml_text_exec(item, &chars_of("title")) {
        Some(t) => strip_cdata_exec(&basic_entities_exec(&t)),
        None => Vec::new(),
    };
    let pub_date = or_empty_exec(xml_text_exec(item, &chars_of("pubDate")));
    Some(
        DmhyItem {
            title: string_of(&title),
            magnet: string_of(&magnet),
            pub_date: string_of(&pub_date),
        },
    )
}

/// Parses a DMHY RSS feed into its items (those with a magnet link).
pub fn parse_dmhy_rss(xml: &str) -> (r: Vec<DmhyItem>)
    ensures
        dmhy_items_view(r@) == dmhy_items(xml@),
{
    let x = chars_of(xml);
    let texts = item_texts_exec(&x);
    let ghost tv = texts_view(texts@);
    let mut out: Vec<DmhyItem> = Vec::new();
    let mut i: usize = 0;
    assert(tv.subrange(0, 0) =~= Seq::<Seq<char>>::empty());
    assert(dmhy_items_view(out@) =~= filter_map_texts(tv.subrange(0, 0), dmhy_item_fn()));
    while i < texts.len()
        invariant
            i <= texts@.len(),
            tv == texts_view(texts@),
            tv == item_texts(x@),
            x@ == xml@,
            dmhy_items_view(out@) == filter_map_texts(tv.subrange(0, i as int), dmhy_item_fn()),
        decreases texts@.len() - i,
    {
        let ghost prev = dmhy_items_view(out@);
        assert(tv.subrange(0, i + 1).drop_last() =~= tv.subrange(0, i as int));
        assert(tv.subrange(0, i + 1).last() == texts@[i as int]@);
        match dmhy_item_exec(&texts[i]) {
            Some(v) => {
                out.push(v);
                assert(dmhy_items_view(out@) =~= prev.push(v@));
            },
            None => {},
        }
        i = i + 1;
    }
    assert(tv.subrange(0, texts@.len() as int) =~= tv);
    out
}

/// The info hash of a magnet URI (empty when it has no `btih:`).
pub fn extract_info_hash_from_magnet(magnet: &str) -> (r: String)
    ensures
        r@ == info_hash_of(magnet@),
{
    string_of(&info_hash_of_exec(&chars_of(magnet)))
}

/// The torrent entry that a DMHY item stands for.
pub open spec fn dmhy_entry(item: DmhyItemView) -> EntryView {
    EntryView {
        title: item.title,
        episode_hash: info_hash_of(item.magnet),
        torrent_url: seq![],
        magnet: item.magnet,
        size: seq![],
        publish_date: item.pub_date,
    }
}

/// The torrent entry of a DMHY item keeps the item's magnet link, title and
/// date, takes the magnet link's info hash as its episode hash, and has no
/// torrent URL and no size.
pub proof fn law_dmhy_entry_fields(item: DmhyItemView)
    ensures
        dmhy_entry(item).magnet == item.magnet,
        dmhy_entry(item).episode_hash == info_hash_of(item.magnet),
        dmhy_entry(item).title == item.title,
        dmhy_entry(item).publish_date == item.pub_date,
        dmhy_entry(item).torrent_url.len() == 0,
        dmhy_entry(item).size.len() == 0,
{
}

/// Turns a DMHY item into a torrent entry: the info hash of its magnet link
/// as episode hash, no torrent URL and no size (the feed has neither).
pub fn item_to_entry(item: DmhyItem) -> (r: TorrentEntry)
    ensures
        r@ == dmhy_entry(item@),
{
    let info_hash = extract_info_hash_from_magnet(item.magnet.as_str());
    TorrentEntry {
        title: item.title,
        episode_hash: info_hash,
        torrent_url: String::new(),
        magnet: item.magnet,
        size: String::new(),
        publish_date: item.pub_date,
    }
}

/// Extracts the trimmed text between `<tag>` and `</tag>`.
pub fn extract_xml_text(xml: &str, tag: &str) -> (r: Option<String>)
    ensures
        r matches Some(v) ==> xml_text(xml@, tag@) == Some(v@),
        r is None ==> xml_text(xml@, tag@) is None,
{
    crate::mikan::extract_xml_text(xml, tag)
}

/// Extracts the value of the first `attr="value"`.
pub fn extract_attr_value<'a>(html: &'a str, attr: &str) -> (r: Option<&'a str>)
    ensures
        r matches Some(v) ==> range_text(html@, attr_dq_range(html@, attr@)) == Some(v@),
        r is None ==> attr_dq_range(html@, attr@) is None,
{
    let h = chars_of(html);
    let a = chars_of(attr);
    match attr_dq_range_exec(&h, &a) {
        Some((st, e)) => Some(html.substring_char(st, e)),
        None => None,
    }
}

/// The first `[GroupName]` of a torrent title, or `Unknown`.
pub fn extract_group_from_title(title: &str) -> (r: String)
    ensures
        r@ == group_from_title(title@),
{
    string_of(&group_from_title_exec(&chars_of(title)))
}

/// Decodes the common named HTML entities.
pub fn decode_html_entities(s: &str) -> (r: String)
    ensures
        r@ == basic_entities(s@),
{
    string_of(&basic_entities_exec(&chars_of(s)))
}

/// Strips a CDATA wrapper if present (and trims).
pub fn decode_cdata(s: &str) -> (r: String)
    ensures
        r@ == strip_cdata(s@),
{
    string_of(&strip_cdata_exec(&chars_of(s)))
}

/// Simple URL-encoding for query parameters.
pub fn urlencoding(s: &str) -> (r: String)
    ensures
        r@ == url_encode(s@),
{
    string_of(&url_encode_exec(&chars_of(s)))
}

/// The address of DMHY's anime RSS search for `keyword`.
pub open spec fn search_url_spec(keyword: Seq<char>) -> Seq<char> {
    "https://share.dmhy.org/topics/rss/rss.xml?keyword="@ + url_encode(keyword) + "&sort_id=2"@
}

/// The RSS search address for a keyword (anime category).
pub fn search_url(keyword: &str) -> (r: String)
    ensures
        r@ == search_url_spec(keyword@),
{
    let mut v = chars_of("https://share.dmhy.org/topics/rss/rss.xml?keyword=");
    push_all(&mut v, &url_encode_exec(&chars_of(keyword)));
    push_all(&mut v, &chars_of("&sort_id=2"));
    string_of(&v)
}

/// The group name of each item, in order.
pub open spec fn dmhy_names(items: Seq<DmhyItemView>) -> Seq<Seq<char>> {
    items.map_values(|i: DmhyItemView| group_from_title(i.title))
}

/// The torrent entry of each item, in order.
pub open spec fn dmhy_entries(items: Seq<DmhyItemView>) -> Seq<EntryView> {
    items.map_values(|i: DmhyItemView| dmhy_entry(i))
}

/// `gs` groups the feed items `its` by release group: one group per
/// distinct name of the titles, sorted by name and identified by it, each
/// holding the entries of its items in feed order.
pub open spec fn grouped_by_release(its: Seq<DmhyItemView>, gs: Seq<GroupTorrentsView>) -> bool {
    &&& strictly_sorted(grouped_names(gs))
    &&& grouped_names(gs).to_set() == dmhy_names(its).to_set()
    &&& forall|k: int| 0 <= k < gs.len() ==> (#[trigger] gs[k]).group.id == gs[k].group.name
        && gs[k].torrents == entries_in_group(dmhy_names(its), dmhy_entries(its), gs[k].group.name)
}

/// The number of entries over all groups.
pub open spec fn torrent_total(gs: Seq<GroupTorrentsView>) -> int
    decreases gs.len(),
{
    if gs.len() == 0 {
        0
    } else {
        torrent_total(gs.drop_last()) + gs.last().torrents.len()
    }
}

/// The entries of all groups, group after group.
pub open spec fn all_torrents(gs: Seq<GroupTorrentsView>) -> Seq<EntryView>
    decreases gs.len(),
{
    if gs.len() == 0 {
        seq![]
    } else {
        all_torrents(gs.drop_last()) + gs.last().torrents
    }
}

proof fn lemma_all_torrents_multiset(gs: Seq<GroupTorrentsView>, names: Seq<Seq<char>>, entries: Seq<EntryView>)
    requires
        forall|k: int| 0 <= k < gs.len() ==> (#[trigger] gs[k]).torrents == entries_in_group(names, entries, gs[k].group.name),
    ensures
        all_torrents(gs).to_multiset() =~= group_multiset(grouped_names(gs), names, entries),
    decreases gs.len(),
{
    broadcast use vstd::multiset::group_multiset_axioms, vstd::seq_lib::group_to_multiset_ensures;
    if gs.len() == 0 {
        assert(all_torrents(gs) =~= Seq::<EntryView>::empty());
    } else {
        let d = gs.drop_last();
        assert forall|k: int| 0 <= k < d.len() implies (#[trigger] d[k]).torrents == entries_in_group(names, entries, d[k].group.name) by {
            assert(d[k] == gs[k]);
        }
        lemma_all_torrents_multiset(d, names, entries);
        assert(grouped_names(gs).drop_last() =~= grouped_names(d));
        assert(gs.last() == gs[gs.len() - 1]);
        vstd::seq_lib::lemma_multiset_commutative(all_torrents(d), gs.last().torrents);
    }
}

proof fn lemma_group_titles(its: Seq<DmhyItemView>, g: Seq<char>)
    ensures
        forall|t: int|
            0 <= t < entries_in_group(dmhy_names(its), dmhy_entries(its), g).len() ==> group_from_title(
                (#[trigger] entries_in_group(dmhy_names(its), dmhy_entries(its), g)[t]).title,
            ) == g,
    decreases its.len(),
{
    if its.len() > 0 {
        let d = its.drop_last();
        lemma_group_titles(d, g);
        assert(dmhy_names(its).drop_last() =~= dmhy_names(d));
        assert(dmhy_entries(its).drop_last() =~= dmhy_entries(d));
        let rest = entries_in_group(dmhy_names(d), dmhy_entries(d), g);
        let all = entries_in_group(dmhy_names(its), dmhy_entries(its), g);
        assert forall|t: int| 0 <= t < all.len() implies group_from_title((#[trigger] all[t]).title) == g by {
            if t < rest.len() {
                assert(all[t] == rest[t]);
            }
        }
    }
}

proof fn lemma_group_not_empty(names: Seq<Seq<char>>, entries: Seq<EntryView>, g: Seq<char>)
    requires
        names.len() == entries.len(),
        names.contains(g),
    ensures
        entries_in_group(names, entries, g).len() > 0,
    decreases names.len(),
{
    if names.last() != g {
        let j = choose|j: int| 0 <= j < names.len() && names[j] == g;
        assert(names.drop_last()[j] == g);
        lemma_group_not_empty(names.drop_last(), entries.drop_last(), g);
    }
}

proof fn lemma_torrent_total(gs: Seq<GroupTorrentsView>, names: Seq<Seq<char>>, entries: Seq<EntryView>)
    requires
        forall|k: int| 0 <= k < gs.len() ==> (#[trigger] gs[k]).torrents == entries_in_group(names, entries, gs[k].group.name),
    ensures
        torrent_total(gs) == group_total(grouped_names(gs), names, entries),
    decreases gs.len(),
{
    if gs.len() > 0 {
        let d = gs.drop_last();
        assert forall|k: int| 0 <= k < d.len() implies (#[trigger] d[k]).torrents == entries_in_group(names, entries, d[k].group.name) by {
            assert(d[k] == gs[k]);
        }
        lemma_torrent_total(d, names, entries);
        assert(grouped_names(gs).drop_last() =~= grouped_names(d));
        assert(gs.last() == gs[gs.len() - 1]);
    }
}

/// Grouping a feed by release group keeps every item exactly once: each
/// group holds at least one entry, every entry of a group has a title of
/// that group, and the groups together hold the entries of the feed's
/// items, each as often as it occurs, so as many as the feed has items.
pub proof fn law_release_grouping_covers_feed(its: Seq<DmhyItemView>, gs: Seq<GroupTorrentsView>)
    requires
        grouped_by_release(its, gs),
    ensures
        forall|k: int| 0 <= k < gs.len() ==> (#[trigger] gs[k]).torrents.len() > 0,
        forall|k: int, t: int|
            0 <= k < gs.len() && 0 <= t < gs[k].torrents.len() ==> group_from_title(
                (#[trigger] gs[k].torrents[t]).title,
            ) == gs[k].group.name,
        torrent_total(gs) == its.len(),
        all_torrents(gs).to_multiset() == dmhy_entries(its).to_multiset(),
{
    let names = dmhy_names(its);
    let entries = dmhy_entries(its);
    assert forall|k: int| 0 <= k < gs.len() implies (#[trigger] gs[k]).torrents.len() > 0 by {
        let g = gs[k].group.name;
        assert(grouped_names(gs)[k] == g);
        assert(grouped_names(gs).to_set().contains(g));
        assert(names.to_set().contains(g));
        lemma_group_not_empty(names, entries, g);
    }
    assert forall|k: int, t: int|
        0 <= k < gs.len() && 0 <= t < gs[k].torrents.len() implies group_from_title(
            (#[trigger] gs[k].torrents[t]).title,
        ) == gs[k].group.name by {
        lemma_group_titles(its, gs[k].group.name);
    }
    lemma_torrent_total(gs, names, entries);
    law_grouping_keeps_every_entry(names, entries, grouped_names(gs));
    lemma_all_torrents_multiset(gs, names, entries);
    law_grouping_is_a_permutation(names, entries, grouped_names(gs));
}

fn names_and_entries(items: &Vec<DmhyItem>) -> (r: (Vec<Vec<char>>, Vec<TorrentEntry>))
    ensures
        views_of(r.0@) == dmhy_names(dmhy_items_view(items@)),
        entries_view(r.1@) == dmhy_entries(dmhy_items_view(items@)),
        r.0@.len() == r.1@.len(),
{
    let mut names: Vec<Vec<char>> = Vec::new();
    let mut entries: Vec<TorrentEntry> = Vec::new();
    let mut i: usize = 0;
    while i < items.len()
        invariant
            i <= items@.len(),
            views_of(names@) == dmhy_names(dmhy_items_view(items@)).subrange(0, i as int),
            entries_view(entries@) == dmhy_entries(dmhy_items_view(items@)).subrange(0, i as int),
            names@.len() == i,
            entries@.len() == i,
        decreases items@.len() - i,
    {
        let item = &items[i];
        assert(dmhy_items_view(items@)[i as int] == item@);
        let g = group_from_title_exec(&chars_of(item.title.as_str()));
        let e = item_to_entry(
            DmhyItem {
                title: item.title.clone(),
                magnet: item.magnet.clone(),
                pub_date: item.pub_date.clone(),
            },
        );
        let ghost pn = views_of(names@);
        let ghost pe = entries_view(entries@);
        assert(g@ == dmhy_names(dmhy_items_view(items@))[i as int]);
        assert(e@ == dmhy_entries(dmhy_items_view(items@))[i as int]);
        names.push(g);
        entries.push(e);
        assert(views_of(names@) =~= dmhy_names(dmhy_items_view(items@)).subrange(0, i + 1));
        assert(entries_view(entries@) =~= dmhy_entries(dmhy_items_view(items@)).subrange(0, i + 1));
        i = i + 1;
    }
    assert(dmhy_names(dmhy_items_view(items@)).subrange(0, i as int) =~= dmhy_names(dmhy_items_view(items@)));
    assert(dmhy_entries(dmhy_items_view(items@)).subrange(0, i as int) =~= dmhy_entries(dmhy_items_view(items@)));
    (names, entries)
}

/// The DMHY source. It has no bangumi concept: an anime is identified by
/// the search keyword itself.
pub struct Dmhy;

impl Dmhy {
    pub fn new() -> Dmhy {
        Dmhy
    }

    /// The resolved entry for a keyword whose search gave `items`: the
    /// keyword as ID and title, when the search found anything.
    pub fn resolve_from_items(&self, keyword: &str, items: &Vec<DmhyItem>) -> (r: Option<TorrentSourceEntry>)
        ensures
            items@.len() == 0 ==> r is None,
            items@.len() > 0 ==> (r matches Some(e) && e@ == (SourceEntryView {
                provider_id: keyword@,
                title: keyword@,
                cover: None,
                bgm_id: None,
            })),
    {
        if items.len() == 0 {
            return None;
        }
        Some(
            TorrentSourceEntry {
                provider_id: string_of(&chars_of(keyword)),
                title: string_of(&chars_of(keyword)),
                cover: None,
                bgm_id: None,
            },
        )
    }

    /// The release groups of the search results: one per distinct `[Group]`
    /// of the titles, with that name as ID, sorted by name.
    pub fn groups_from_items(&self, items: &Vec<DmhyItem>) -> (r: Vec<SubtitleGroup>)
        ensures
            strictly_sorted(group_names(groups_view(r@))),
            group_names(groups_view(r@)).to_set() == dmhy_names(dmhy_items_view(items@)).to_set(),
            forall|k: int| 0 <= k < r@.len() ==> (#[trigger] r@[k]).id@ == r@[k].name@,
    {
        let (names, _entries) = names_and_entries(items);
        groups_from_names(&names)
    }

    /// The entries of the results whose group is `group_id`, in order.
    pub fn group_torrents_from_items(&self, items: &Vec<DmhyItem>, group_id: &str) -> (r: Vec<TorrentEntry>)
        ensures
            entries_view(r@) == entries_in_group(
                dmhy_names(dmhy_items_view(items@)),
                dmhy_entries(dmhy_items_view(items@)),
                group_id@,
            ),
    {
        let (names, entries) = names_and_entries(items);
        entries_of_group(&names, &entries, &chars_of(group_id))
    }

    /// The results grouped by release group: one group per distinct name,
    /// sorted by name, each with its entries in result order.
    pub fn all_torrents_from_items(&self, items: &Vec<DmhyItem>) -> (r: Vec<GroupTorrents>)
        ensures
            grouped_by_release(dmhy_items_view(items@), group_torrents_view(r@)),
    {
        let (names, entries) = names_and_entries(items);
        let r = group_entries(&names, &entries);
        assert forall|k: int| 0 <= k < r@.len() implies #[trigger] group_torrents_view(r@)[k] == r@[k]@ by {}
        r
    }
}

} // verus!
