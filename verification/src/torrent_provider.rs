//! The values that every torrent source produces: resolved anime entries,
//! release groups and torrent entries, each with a view over `Seq<char>`.
use vstd::prelude::*;
use vstd::multiset::Multiset;
use crate::order::{strictly_sorted, views_of, insert_sorted};
use crate::text::{chars_eq, string_of};

verus! {

/// A resolved anime reference within a torrent provider.
#[derive(Debug, Clone)]
pub struct TorrentSourceEntry {
    /// Provider-internal identifier (e.g. the Mikan bangumi ID).
    pub provider_id: String,
    pub title: String,
    pub cover: Option<String>,
    /// The bgm.tv subject ID this maps to, if known.
    pub bgm_id: Option<String>,
}

/// A release / subtitle group.
#[derive(Debug, Clone)]
pub struct SubtitleGroup {
    pub id: String,
    pub name: String,
}

/// A single torrent entry.
#[derive(Debug, Clone)]
pub struct TorrentEntry {
    pub title: String,
    pub episode_hash: String,
    pub torrent_url: String,
    pub magnet: String,
    pub size: String,
    pub publish_date: String,
}

/// All torrents from one release group.
#[derive(Debug, Clone)]
pub struct GroupTorrents {
    pub group: SubtitleGroup,
    pub torrents: Vec<TorrentEntry>,
}

pub open spec fn opt_view(o: Option<String>) -> Option<Seq<char>> {
    match o {
        Some(s) => Some(s@),
        None => None,
    }
}

pub struct SourceEntryView {
    pub provider_id: Seq<char>,
    pub title: Seq<char>,
    pub cover: Option<Seq<char>>,
    pub bgm_id: Option<Seq<char>>,
}

impl View for TorrentSourceEntry {
    type V = SourceEntryView;

    open spec fn view(&self) -> SourceEntryView {
        SourceEntryView {
            provider_id: self.provider_id@,
            title: self.title@,
            cover: opt_view(self.cover),
            bgm_id: opt_view(self.bgm_id),
        }
    }
}

pub struct GroupView {
    pub id: Seq<char>,
    pub name: Seq<char>,
}

impl View for SubtitleGroup {
    type V = GroupView;

    open spec fn view(&self) -> GroupView {
        GroupView { id: self.id@, name: self.name@ }
    }
}

pub struct EntryView {
    pub title: Seq<char>,
    pub episode_hash: Seq<char>,
    pub torrent_url: Seq<char>,
    pub magnet: Seq<char>,
    pub size: Seq<char>,
    pub publish_date: Seq<char>,
}

impl View for TorrentEntry {
    type V = EntryView;

    open spec fn view(&self) -> EntryView {
        EntryView {
            title: self.title@,
            episode_hash: self.episode_hash@,
            torrent_url: self.torrent_url@,
            magnet: self.magnet@,
            size: self.size@,
            publish_date: self.publish_date@,
        }
    }
}

pub struct GroupTorrentsView {
    pub group: GroupView,
    pub torrents: Seq<EntryView>,
}

impl View for GroupTorrents {
    type V = GroupTorrentsView;

    open spec fn view(&self) -> GroupTorrentsView {
        GroupTorrentsView { group: self.group@, torrents: entries_view(self.torrents@) }
    }
}

pub open spec fn source_entries_view(s: Seq<TorrentSourceEntry>) -> Seq<SourceEntryView> {
    s.map_values(|e: TorrentSourceEntry| e@)
}

pub open spec fn groups_view(s: Seq<SubtitleGroup>) -> Seq<GroupView> {
    s.map_values(|g: SubtitleGroup| g@)
}

pub open spec fn entries_view(s: Seq<TorrentEntry>) -> Seq<EntryView> {
    s.map_values(|e: TorrentEntry| e@)
}

pub open spec fn group_torrents_view(s: Seq<GroupTorrents>) -> Seq<GroupTorrentsView> {
    s.map_values(|g: GroupTorrents| g@)
}

pub open spec fn strings_view(s: Seq<String>) -> Seq<Seq<char>> {
    s.map_values(|t: String| t@)
}

impl TorrentEntry {
    /// A copy of this entry.
    pub fn duplicate(&self) -> (r: TorrentEntry)
        ensures
            r@ == self@,
    {
        TorrentEntry {
            title: self.title.clone(),
            episode_hash: self.episode_hash.clone(),
            torrent_url: self.torrent_url.clone(),
            magnet: self.magnet.clone(),
            size: self.size.clone(),
            publish_date: self.publish_date.clone(),
        }
    }
}

/// The entries whose group name (at the same position in `names`) is `g`,
/// in order.
pub open spec fn entries_in_group(names: Seq<Seq<char>>, entries: Seq<EntryView>, g: Seq<char>) -> Seq<EntryView>
    decreases entries.len(),
{
    if entries.len() == 0 || names.len() == 0 {
        seq![]
    } else {
        let rest = entries_in_group(names.drop_last(), entries.drop_last(), g);
        if names.last() == g {
            rest.push(entries.last())
        } else {
            rest
        }
    }
}

/// The number of entries in the groups named by `gs`, added up.
pub open spec fn group_total(gs: Seq<Seq<char>>, names: Seq<Seq<char>>, entries: Seq<EntryView>) -> int
    decreases gs.len(),
{
    if gs.len() == 0 {
        0
    } else {
        group_total(gs.drop_last(), names, entries) + entries_in_group(names, entries, gs.last()).len()
    }
}

/// How many of `names` are among `gs`.
pub open spec fn count_among(names: Seq<Seq<char>>, gs: Seq<Seq<char>>) -> int
    decreases names.len(),
{
    if names.len() == 0 {
        0
    } else {
        count_among(names.drop_last(), gs) + if gs.contains(names.last()) {
            1int
        } else {
            0int
        }
    }
}

pub open spec fn no_repeats(gs: Seq<Seq<char>>) -> bool {
    forall|i: int, j: int| 0 <= i < j < gs.len() ==> gs[i] != gs[j]
}

proof fn lemma_group_total_empty(gs: Seq<Seq<char>>, names: Seq<Seq<char>>, entries: Seq<EntryView>)
    requires
        names.len() == 0,
    ensures
        group_total(gs, names, entries) == 0,
    decreases gs.len(),
{
    if gs.len() > 0 {
        lemma_group_total_empty(gs.drop_last(), names, entries);
    }
}

proof fn lemma_group_total_step(gs: Seq<Seq<char>>, names: Seq<Seq<char>>, entries: Seq<EntryView>)
    requires
        names.len() == entries.len(),
        names.len() > 0,
        no_repeats(gs),
    ensures
        group_total(gs, names, entries) == group_total(gs, names.drop_last(), entries.drop_last()) + if gs.contains(
            names.last(),
        ) {
            1int
        } else {
            0int
        },
    decreases gs.len(),
{
    if gs.len() > 0 {
        let d = gs.drop_last();
        let x = names.last();
        assert forall|i: int, j: int| 0 <= i < j < d.len() implies d[i] != d[j] by {
            assert(d[i] == gs[i] && d[j] == gs[j]);
        }
        lemma_group_total_step(d, names, entries);
        if d.contains(x) {
            let k = choose|k: int| 0 <= k < d.len() && d[k] == x;
            assert(gs[k] == x);
            assert(gs.last() != x) by {
                if gs.last() == x {
                    assert(gs[k] == gs[gs.len() - 1]);
                }
            }
        }
        if gs.contains(x) {
            let k = choose|k: int| 0 <= k < gs.len() && gs[k] == x;
            if k < gs.len() - 1 {
                assert(d[k] == x);
            }
        }
        if gs.last() == x {
            assert(gs[gs.len() - 1] == x);
        }
    } else {
        assert(!gs.contains(names.last()));
    }
}

proof fn lemma_group_total_counts(gs: Seq<Seq<char>>, names: Seq<Seq<char>>, entries: Seq<EntryView>)
    requires
        names.len() == entries.len(),
        no_repeats(gs),
    ensures
        group_total(gs, names, entries) == count_among(names, gs),
    decreases names.len(),
{
    if names.len() == 0 {
        lemma_group_total_empty(gs, names, entries);
    } else {
        lemma_group_total_step(gs, names, entries);
        lemma_group_total_counts(gs, names.drop_last(), entries.drop_last());
    }
}

proof fn lemma_count_all(names: Seq<Seq<char>>, gs: Seq<Seq<char>>)
    requires
        forall|i: int| 0 <= i < names.len() ==> gs.contains(#[trigger] names[i]),
    ensures
        count_among(names, gs) == names.len(),
    decreases names.len(),
{
    if names.len() > 0 {
        let d = names.drop_last();
        assert forall|i: int| 0 <= i < d.len() implies gs.contains(#[trigger] d[i]) by {
            assert(d[i] == names[i]);
        }
        lemma_count_all(d, gs);
        assert(gs.contains(names[names.len() - 1]));
    }
}

/// Grouping keeps every entry exactly once: over the distinct group names,
/// sorted, the sizes of the groups add up to the number of entries.
pub proof fn law_grouping_keeps_every_entry(names: Seq<Seq<char>>, entries: Seq<EntryView>, gs: Seq<Seq<char>>)
    requires
        names.len() == entries.len(),
        strictly_sorted(gs),
        gs.to_set() == names.to_set(),
    ensures
        group_total(gs, names, entries) == entries.len(),
{
    assert forall|i: int, j: int| 0 <= i < j < gs.len() implies gs[i] != gs[j] by {
        if gs[i] == gs[j] {
            crate::order::lemma_lt_irreflexive(gs[i]);
        }
    }
    lemma_group_total_counts(gs, names, entries);
    assert forall|i: int| 0 <= i < names.len() implies gs.contains(#[trigger] names[i]) by {
        assert(names.to_set().contains(names[i]));
        assert(gs.to_set().contains(names[i]));
    }
    lemma_count_all(names, gs);
}

/// The entries of the groups named by `gs`, gathered as a multiset.
pub open spec fn group_multiset(gs: Seq<Seq<char>>, names: Seq<Seq<char>>, entries: Seq<EntryView>) -> Multiset<EntryView>
    decreases gs.len(),
{
    if gs.len() == 0 {
        Multiset::empty()
    } else {
        group_multiset(gs.drop_last(), names, entries).add(entries_in_group(names, entries, gs.last()).to_multiset())
    }
}

proof fn lemma_group_multiset_empty(gs: Seq<Seq<char>>, names: Seq<Seq<char>>, entries: Seq<EntryView>)
    requires
        names.len() == 0,
    ensures
        group_multiset(gs, names, entries) =~= Multiset::<EntryView>::empty(),
    decreases gs.len(),
{
    broadcast use vstd::multiset::group_multiset_axioms, vstd::seq_lib::group_to_multiset_ensures;
    if gs.len() > 0 {
        lemma_group_multiset_empty(gs.drop_last(), names, entries);
        assert(entries_in_group(names, entries, gs.last()) =~= Seq::<EntryView>::empty());
    }
}

proof fn lemma_group_multiset_step(gs: Seq<Seq<char>>, names: Seq<Seq<char>>, entries: Seq<EntryView>)
    requires
        names.len() == entries.len(),
        names.len() > 0,
        no_repeats(gs),
        gs.contains(names.last()),
    ensures
        group_multiset(gs, names, entries) =~= group_multiset(gs, names.drop_last(), entries.drop_last()).insert(
            entries.last(),
        ),
    decreases gs.len(),
{
    broadcast use vstd::multiset::group_multiset_axioms, vstd::seq_lib::group_to_multiset_ensures;
    let d = gs.drop_last();
    let x = names.last();
    let e = entries.last();
    let g = gs.last();
    assert forall|i: int, j: int| 0 <= i < j < d.len() implies d[i] != d[j] by {
        assert(d[i] == gs[i] && d[j] == gs[j]);
    }
    let now = entries_in_group(names, entries, g);
    let before = entries_in_group(names.drop_last(), entries.drop_last(), g);
    if g == x {
        assert(now == before.push(e));
        assert(!d.contains(x)) by {
            if d.contains(x) {
                let k = choose|k: int| 0 <= k < d.len() && d[k] == x;
                assert(gs[k] == gs[gs.len() - 1]);
            }
        }
        lemma_group_multiset_rest(d, names, entries);
    } else {
        assert(now == before);
        let k = choose|k: int| 0 <= k < gs.len() && gs[k] == x;
        assert(k < gs.len() - 1);
        assert(d[k] == x);
        lemma_group_multiset_step(d, names, entries);
    }
}

/// Groups that do not hold the last name lose nothing when it goes.
proof fn lemma_group_multiset_rest(gs: Seq<Seq<char>>, names: Seq<Seq<char>>, entries: Seq<EntryView>)
    requires
        names.len() == entries.len(),
        names.len() > 0,
        !gs.contains(names.last()),
    ensures
        group_multiset(gs, names, entries) == group_multiset(gs, names.drop_last(), entries.drop_last()),
    decreases gs.len(),
{
    if gs.len() > 0 {
        let d = gs.drop_last();
        assert(!d.contains(names.last())) by {
            if d.contains(names.last()) {
                let k = choose|k: int| 0 <= k < d.len() && d[k] == names.last();
                assert(gs[k] == names.last());
            }
        }
        lemma_group_multiset_rest(d, names, entries);
        assert(gs[gs.len() - 1] != names.last());
        assert(entries_in_group(names, entries, gs.last()) == entries_in_group(
            names.drop_last(),
            entries.drop_last(),
            gs.last(),
        ));
    }
}

/// Over group names that cover every name once, the groups hold the
/// entries, each as often as it occurs.
proof fn lemma_group_multiset_all(gs: Seq<Seq<char>>, names: Seq<Seq<char>>, entries: Seq<EntryView>)
    requires
        names.len() == entries.len(),
        no_repeats(gs),
        forall|i: int| 0 <= i < names.len() ==> gs.contains(#[trigger] names[i]),
    ensures
        group_multiset(gs, names, entries) =~= entries.to_multiset(),
    decreases names.len(),
{
    broadcast use vstd::multiset::group_multiset_axioms, vstd::seq_lib::group_to_multiset_ensures;
    if names.len() == 0 {
        lemma_group_multiset_empty(gs, names, entries);
        assert(entries =~= Seq::<EntryView>::empty());
    } else {
        let d = names.drop_last();
        assert forall|i: int| 0 <= i < d.len() implies gs.contains(#[trigger] d[i]) by {
            assert(d[i] == names[i]);
        }
        assert(gs.contains(names[names.len() - 1]));
        lemma_group_multiset_step(gs, names, entries);
        lemma_group_multiset_all(gs, d, entries.drop_last());
        assert(entries =~= entries.drop_last().push(entries.last()));
    }
}

/// Grouping keeps every entry exactly once: over the distinct group names,
/// sorted, the groups together hold the entries, each as often as it occurs.
pub proof fn law_grouping_is_a_permutation(names: Seq<Seq<char>>, entries: Seq<EntryView>, gs: Seq<Seq<char>>)
    requires
        names.len() == entries.len(),
        strictly_sorted(gs),
        gs.to_set() == names.to_set(),
    ensures
        group_multiset(gs, names, entries) =~= entries.to_multiset(),
{
    assert forall|i: int, j: int| 0 <= i < j < gs.len() implies gs[i] != gs[j] by {
        if gs[i] == gs[j] {
            crate::order::lemma_lt_irreflexive(gs[i]);
        }
    }
    assert forall|i: int| 0 <= i < names.len() implies gs.contains(#[trigger] names[i]) by {
        assert(names.to_set().contains(names[i]));
        assert(gs.to_set().contains(names[i]));
    }
    lemma_group_multiset_all(gs, names, entries);
}

/// The distinct texts of `names`, sorted.
pub fn sorted_distinct(names: &Vec<Vec<char>>) -> (r: Vec<Vec<char>>)
    ensures
        strictly_sorted(views_of(r@)),
        views_of(r@).to_set() == views_of(names@).to_set(),
{
    let mut r: Vec<Vec<char>> = Vec::new();
    let mut i: usize = 0;
    assert(views_of(r@).to_set() =~= views_of(names@).subrange(0, 0).to_set());
    while i < names.len()
        invariant
            i <= names@.len(),
            strictly_sorted(views_of(r@)),
            views_of(r@).to_set() == views_of(names@).subrange(0, i as int).to_set(),
        decreases names@.len() - i,
    {
        let x = names[i].clone();
        assert(x@ == names@[i as int]@);
        insert_sorted(&mut r, x);
        assert(views_of(names@).subrange(0, i + 1) =~= views_of(names@).subrange(0, i as int).push(names@[i as int]@));
        proof {
            crate::order::lemma_push_to_set(views_of(names@).subrange(0, i as int), names@[i as int]@);
        }
        i = i + 1;
    }
    assert(views_of(names@).subrange(0, names@.len() as int) =~= views_of(names@));
    r
}

/// The entries whose group name is `g`, in order.
pub fn entries_of_group(names: &Vec<Vec<char>>, entries: &Vec<TorrentEntry>, g: &Vec<char>) -> (r: Vec<TorrentEntry>)
    requires
        names@.len() == entries@.len(),
    ensures
        entries_view(r@) == entries_in_group(views_of(names@), entries_view(entries@), g@),
{
    let mut r: Vec<TorrentEntry> = Vec::new();
    let mut i: usize = 0;
    let ghost nv = views_of(names@);
    let ghost ev = entries_view(entries@);
    assert(entries_view(r@) =~= entries_in_group(nv.subrange(0, 0), ev.subrange(0, 0), g@));
    while i < entries.len()
        invariant
            i <= entries@.len(),
            names@.len() == entries@.len(),
            nv == views_of(names@),
            ev == entries_view(entries@),
            entries_view(r@) == entries_in_group(nv.subrange(0, i as int), ev.subrange(0, i as int), g@),
        decreases entries@.len() - i,
    {
        assert(nv.subrange(0, i + 1).drop_last() =~= nv.subrange(0, i as int));
        assert(ev.subrange(0, i + 1).drop_last() =~= ev.subrange(0, i as int));
        let ghost prev = entries_view(r@);
        if chars_eq(&names[i], g) {
            let e = entries[i].duplicate();
            r.push(e);
            assert(entries_view(r@) =~= prev.push(ev[i as int]));
        }
        i = i + 1;
    }
    assert(nv.subrange(0, nv.len() as int) =~= nv);
    assert(ev.subrange(0, ev.len() as int) =~= ev);
    r
}

/// The names of the groups of a list.
pub open spec fn group_names(g: Seq<GroupView>) -> Seq<Seq<char>> {
    g.map_values(|x: GroupView| x.name)
}

/// The names of the groups of a grouped torrent list.
pub open spec fn grouped_names(g: Seq<GroupTorrentsView>) -> Seq<Seq<char>> {
    g.map_values(|x: GroupTorrentsView| x.group.name)
}

/// One group per distinct name, named and identified by it, sorted by name.
pub fn groups_from_names(names: &Vec<Vec<char>>) -> (r: Vec<SubtitleGroup>)
    ensures
        strictly_sorted(group_names(groups_view(r@))),
        group_names(groups_view(r@)).to_set() == views_of(names@).to_set(),
        forall|k: int| 0 <= k < r@.len() ==> (#[trigger] r@[k]).id@ == r@[k].name@,
{
    let sorted = sorted_distinct(names);
    let mut r: Vec<SubtitleGroup> = Vec::new();
    let mut k: usize = 0;
    while k < sorted.len()
        invariant
            k <= sorted@.len(),
            r@.len() == k,
            forall|j: int| 0 <= j < k ==> (#[trigger] r@[j]).name@ == sorted@[j]@ && r@[j].id@ == sorted@[j]@,
        decreases sorted@.len() - k,
    {
        let n = string_of(&sorted[k]);
        r.push(SubtitleGroup { id: n.clone(), name: n });
        k = k + 1;
    }
    assert(group_names(groups_view(r@)) =~= views_of(sorted@));
    r
}

/// The entries grouped by name: one group per distinct name, sorted by
/// name, each with its entries in their original order.
pub fn group_entries(names: &Vec<Vec<char>>, entries: &Vec<TorrentEntry>) -> (r: Vec<GroupTorrents>)
    requires
        names@.len() == entries@.len(),
    ensures
        strictly_sorted(grouped_names(group_torrents_view(r@))),
        grouped_names(group_torrents_view(r@)).to_set() == views_of(names@).to_set(),
        forall|k: int| 0 <= k < r@.len() ==> (#[trigger] r@[k]).group.id@ == r@[k].group.name@
            && entries_view(r@[k].torrents@) == entries_in_group(
                views_of(names@),
                entries_view(entries@),
                r@[k].group.name@,
            ),
{
    let sorted = sorted_distinct(names);
    let mut r: Vec<GroupTorrents> = Vec::new();
    let mut k: usize = 0;
    while k < sorted.len()
        invariant
            k <= sorted@.len(),
            names@.len() == entries@.len(),
            r@.len() == k,
            forall|j: int| 0 <= j < k ==> (#[trigger] r@[j]).group.name@ == sorted@[j]@
                && r@[j].group.id@ == sorted@[j]@ && entries_view(r@[j].torrents@)
                == entries_in_group(views_of(names@), entries_view(entries@), sorted@[j]@),
        decreases sorted@.len() - k,
    {
        let torrents = entries_of_group(names, entries, &sorted[k]);
        let n = string_of(&sorted[k]);
        r.push(GroupTorrents { group: SubtitleGroup { id: n.clone(), name: n }, torrents });
        k = k + 1;
    }
    assert(grouped_names(group_torrents_view(r@)) =~= views_of(sorted@));
    r
}

} // verus!
