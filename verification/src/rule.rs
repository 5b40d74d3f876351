//! The rule model for online anime streaming sites, the built-in rules, and
//! the parts of the rule engine that do not touch the network: request
//! addresses and headers, link resolution and the naming of what a page
//! lists.
use vstd::prelude::*;
use crate::text::{
    chars_of, string_of, push_all, slice, starts_with, starts_with_exec, replace_all,
    replace_all_exec, trim, trim_exec, is_whitespace, is_whitespace_exec,
};
use crate::numfmt::{decimal, decimal_exec};
use crate::html::{
    Css, parse_page, parse_css, select_texts, select_nested, selector_accepted, selector_error_text,
    matched_texts, nested_matches,
};
use crate::errors::ProviderError;
use crate::torrent_provider::strings_view;

verus! {

/// CSS selectors used by the rule engine.
#[derive(Debug, Clone)]
pub struct RuleSelectors {
    /// Selector for each search result item container.
    pub search_list: String,
    /// Selector (relative to each result item) for the anime name text.
    pub search_name: String,
    /// Selector (relative to each result item) for the link `<a href>`.
    pub search_link: String,
    /// Selector for each episode road/playlist group container.
    pub episode_road: String,
    /// Selector (relative to each road) for individual episode `<a>` links.
    pub episode_item: String,
    /// Optional: global selector for road/playlist names (matched by index).
    /// A road without a non-empty name is called `播放列表1`, `播放列表2`, ...
    /// by its place among the roads listed.
    pub road_name: String,
}

/// A rule describes how to scrape one online anime streaming site.
#[derive(Debug, Clone)]
pub struct Rule {
    /// Display name.
    pub name: String,
    /// Site root URL.
    pub base_url: String,
    /// Search URL template. `{keyword}` is replaced with the query.
    pub search_url: String,
    /// Custom User-Agent (a browser's when empty).
    pub user_agent: String,
    /// Selectors for parsing HTML.
    pub selectors: RuleSelectors,
}

pub struct SelectorsView {
    pub search_list: Seq<char>,
    pub search_name: Seq<char>,
    pub search_link: Seq<char>,
    pub episode_road: Seq<char>,
    pub episode_item: Seq<char>,
    pub road_name: Seq<char>,
}

impl View for RuleSelectors {
    type V = SelectorsView;

    open spec fn view(&self) -> SelectorsView {
        SelectorsView {
            search_list: self.search_list@,
            search_name: self.search_name@,
            search_link: self.search_link@,
            episode_road: self.episode_road@,
            episode_item: self.episode_item@,
            road_name: self.road_name@,
        }
    }
}

pub struct RuleView {
    pub name: Seq<char>,
    pub base_url: Seq<char>,
    pub search_url: Seq<char>,
    pub user_agent: Seq<char>,
    pub selectors: SelectorsView,
}

impl View for Rule {
    type V = RuleView;

    open spec fn view(&self) -> RuleView {
        RuleView {
            name: self.name@,
            base_url: self.base_url@,
            search_url: self.search_url@,
            user_agent: self.user_agent@,
            selectors: self.selectors@,
        }
    }
}

impl RuleSelectors {
    /// A copy of these selectors.
    pub fn duplicate(&self) -> (r: RuleSelectors)
        ensures
            r@ == self@,
    {
        RuleSelectors {
            search_list: self.search_list.clone(),
            search_name: self.search_name.clone(),
            search_link: self.search_link.clone(),
            episode_road: self.episode_road.clone(),
            episode_item: self.episode_item.clone(),
            road_name: self.road_name.clone(),
        }
    }
}

impl Rule {
    /// A copy of this rule.
    pub fn duplicate(&self) -> (r: Rule)
        ensures
            r@ == self@,
    {
        Rule {
            name: self.name.clone(),
            base_url: self.base_url.clone(),
            search_url: self.search_url.clone(),
            user_agent: self.user_agent.clone(),
            selectors: self.selectors.duplicate(),
        }
    }
}

/// One search result from an online source.
#[derive(Debug, Clone)]
pub struct OnlineSearchResult {
    /// Anime name as displayed on the site.
    pub name: String,
    /// URL of the anime detail/episode list page.
    pub url: String,
}

/// A "road" (playlist variant) containing episode links.
#[derive(Debug, Clone)]
pub struct OnlineRoad {
    /// Human label, e.g. "播放列表1".
    pub name: String,
    /// Episode entries in order.
    pub episodes: Vec<OnlineEpisode>,
}

/// One episode on an online source.
#[derive(Debug, Clone)]
pub struct OnlineEpisode {
    /// Display name (e.g. "第01集", or "01").
    pub name: String,
    /// URL of the episode page.
    pub url: String,
}

/// The built-in rule for AGE动漫.
pub open spec fn agedm_spec() -> RuleView {
    RuleView {
        name: "AGE动漫"@,
        base_url: "https://www.agedm.io"@,
        search_url: "https://www.agedm.io/search?query={keyword}"@,
        user_agent: seq![],
        selectors: SelectorsView {
            search_list: "#cata_video_list .cata_video_item"@,
            search_name: ".card-title a"@,
            search_link: ".card-title a"@,
            episode_road: ".tab-content .tab-pane"@,
            episode_item: ".video_detail_spisode_link"@,
            road_name: ".nav-pills .nav-item button"@,
        },
    }
}

fn s(t: &str) -> (r: String)
    ensures
        r@ == t@,
{
    string_of(&chars_of(t))
}

/// AGE动漫 — <https://www.agedm.io>
pub fn agedm() -> (r: Rule)
    ensures
        r@ == agedm_spec(),
{
    Rule {
        name: s("AGE动漫"),
        base_url: s("https://www.agedm.io"),
        search_url: s("https://www.agedm.io/search?query={keyword}"),
        user_agent: String::new(),
        selectors: RuleSelectors {
            search_list: s("#cata_video_list .cata_video_item"),
            search_name: s(".card-title a"),
            search_link: s(".card-title a"),
            episode_road: s(".tab-content .tab-pane"),
            episode_item: s(".video_detail_spisode_link"),
            road_name: s(".nav-pills .nav-item button"),
        },
    }
}

pub open spec fn rules_view(v: Seq<Rule>) -> Seq<RuleView> {
    v.map_values(|r: Rule| r@)
}

/// Returns all built-in rules.
pub fn all() -> (r: Vec<Rule>)
    ensures
        rules_view(r@) == seq![agedm_spec()],
{
    let r = vec![agedm()];
    assert(rules_view(r@) =~= seq![agedm_spec()]);
    r
}

/// The placeholder that a search URL template holds for the keyword.
pub open spec fn keyword_placeholder() -> Seq<char> {
    seq!['{', 'k', 'e', 'y', 'w', 'o', 'r', 'd', '}']
}

/// `s` without its trailing `/` characters.
pub open spec fn trim_end_slashes(s: Seq<char>) -> Seq<char>
    decreases s.len(),
{
    if s.len() > 0 && s.last() == '/' {
        trim_end_slashes(s.drop_last())
    } else {
        s
    }
}

/// A link made absolute against a site root: an `http://` or `https://`
/// link is kept; any other is appended to the root without its trailing
/// slashes, after a `/` unless it starts with one.
pub open spec fn resolve_url_spec(base: Seq<char>, href: Seq<char>) -> Seq<char> {
    if starts_with(href, "http://"@) || starts_with(href, "https://"@) {
        href
    } else {
        trim_end_slashes(base) + if starts_with(href, seq!['/']) {
            href
        } else {
            seq!['/'] + href
        }
    }
}

/// A site root that stays absolute once its trailing slashes are cut.
pub open spec fn absolute_root(base: Seq<char>) -> bool {
    starts_with(trim_end_slashes(base), "http://"@) || starts_with(trim_end_slashes(base), "https://"@)
}

/// Against a site root that stays absolute, resolving a resolved link
/// changes nothing.
pub proof fn law_resolve_url_idempotent(base: Seq<char>, href: Seq<char>)
    requires
        absolute_root(base),
    ensures
        resolve_url_spec(base, resolve_url_spec(base, href)) == resolve_url_spec(base, href),
{
    let r = resolve_url_spec(base, href);
    let t = trim_end_slashes(base);
    reveal_strlit("http://");
    reveal_strlit("https://");
    if !(starts_with(href, "http://"@) || starts_with(href, "https://"@)) {
        let rest = if starts_with(href, seq!['/']) {
            href
        } else {
            seq!['/'] + href
        };
        assert(r == t + rest);
        if starts_with(t, "http://"@) {
            assert((t + rest).subrange(0, 7) =~= t.subrange(0, 7));
        } else {
            assert((t + rest).subrange(0, 8) =~= t.subrange(0, 8));
        }
    }
}

/// The browser User-Agent sent when a rule names none.
pub open spec fn default_user_agent() -> Seq<char> {
    "Mozilla/5.0 (Macintosh; Intel Mac OS X 10_15_7) AppleWebKit/537.36 (KHTML, like Gecko) Chrome/131.0.0.0 Safari/537.36"@
}

/// The name of the `n`-th road (counting from 1) when the page names none.
pub open spec fn default_road_name(n: nat) -> Seq<char> {
    "播放列表"@ + decimal(n)
}

/// `s` without any whitespace character.
pub open spec fn remove_whitespace(s: Seq<char>) -> Seq<char>
    decreases s.len(),
{
    if s.len() == 0 {
        seq![]
    } else {
        remove_whitespace(s.drop_last()) + if is_whitespace(s.last()) {
            seq![]
        } else {
            seq![s.last()]
        }
    }
}


/// The message of the error for a selector that `scraper` refuses.
pub open spec fn invalid_selector_message(css: Seq<char>) -> Seq<char> {
    "Invalid CSS selector '"@ + css + "': "@ + selector_error_text(css)
}

/// The text of the first match, or nothing when there is none.
pub open spec fn first_text(m: Seq<(Seq<char>, Option<Seq<char>>)>) -> Seq<char> {
    if m.len() > 0 {
        m[0].0
    } else {
        seq![]
    }
}

/// The attribute of the first match, or nothing when there is no match or
/// the first one lacks it.
pub open spec fn first_attr(m: Seq<(Seq<char>, Option<Seq<char>>)>) -> Seq<char> {
    if m.len() > 0 {
        match m[0].1 {
            Some(a) => a,
            None => seq![],
        }
    } else {
        seq![]
    }
}

/// The (name text, `href`) pair of each search result item of a page: the
/// text of the item's first name element and the `href` of its first link
/// element.
pub open spec fn search_items(html: Seq<char>, s: SelectorsView) -> Seq<(Seq<char>, Seq<char>)> {
    let names = nested_matches(html, s.search_list, s.search_name, "href"@);
    let links = nested_matches(html, s.search_list, s.search_link, "href"@);
    Seq::new(matched_texts(html, s.search_list).len(), |i: int| (first_text(names[i]), first_attr(links[i])))
}

/// What a search results page gives under a rule: the kept results, or the
/// message for the first of the list, name and link selectors that is
/// refused.
pub open spec fn search_page_spec(html: Seq<char>, rule: RuleView) -> Result<Seq<(Seq<char>, Seq<char>)>, Seq<char>> {
    let s = rule.selectors;
    if !selector_accepted(s.search_list) {
        Err(invalid_selector_message(s.search_list))
    } else if !selector_accepted(s.search_name) {
        Err(invalid_selector_message(s.search_name))
    } else if !selector_accepted(s.search_link) {
        Err(invalid_selector_message(s.search_link))
    } else {
        Ok(kept_results(search_items(html, s), rule.base_url))
    }
}

/// The episodes of a road from its item links (text, `href`): those with a
/// non-empty `href`, named by their text without whitespace, linked
/// absolutely.
pub open spec fn road_episodes(items: Seq<(Seq<char>, Option<Seq<char>>)>, base: Seq<char>) -> Seq<(Seq<char>, Seq<char>)>
    decreases items.len(),
{
    if items.len() == 0 {
        seq![]
    } else {
        let rest = road_episodes(items.drop_last(), base);
        let href = match items.last().1 {
            Some(h) => h,
            None => seq![],
        };
        if href.len() > 0 {
            rest.push((remove_whitespace(trim(items.last().0)), resolve_url_spec(base, href)))
        } else {
            rest
        }
    }
}

/// The label of the road found in road element `i` (from 0) when `n` roads
/// were listed before it: the page's non-empty name for element `i`, else
/// the numbered default for the `n + 1`-th listed road.
pub open spec fn road_label(names: Seq<Seq<char>>, i: int, n: nat) -> Seq<char> {
    if 0 <= i < names.len() && names[i].len() > 0 {
        names[i]
    } else {
        default_road_name(n + 1)
    }
}

/// The roads of a page, from the item links of each road element: those
/// with at least one episode, each named by the page name of its element
/// or else numbered among the roads listed.
pub open spec fn roads_from(
    nested: Seq<Seq<(Seq<char>, Option<Seq<char>>)>>,
    names: Seq<Seq<char>>,
    base: Seq<char>,
) -> Seq<(Seq<char>, Seq<(Seq<char>, Seq<char>)>)>
    decreases nested.len(),
{
    if nested.len() == 0 {
        seq![]
    } else {
        let rest = roads_from(nested.drop_last(), names, base);
        let eps = road_episodes(nested.last(), base);
        if eps.len() > 0 {
            rest.push((road_label(names, nested.len() - 1, rest.len()), eps))
        } else {
            rest
        }
    }
}

/// `s` holds no whitespace character.
pub open spec fn no_whitespace(s: Seq<char>) -> bool {
    forall|i: int| 0 <= i < s.len() ==> !is_whitespace(#[trigger] s[i])
}

/// A road as a page lists it: a non-empty label and at least one episode,
/// each named without whitespace.
pub open spec fn well_formed_road(r: (Seq<char>, Seq<(Seq<char>, Seq<char>)>)) -> bool {
    &&& r.0.len() > 0
    &&& r.1.len() > 0
    &&& forall|k: int| 0 <= k < r.1.len() ==> no_whitespace(#[trigger] r.1[k].0)
}

proof fn lemma_remove_whitespace_clean(s: Seq<char>)
    ensures
        no_whitespace(remove_whitespace(s)),
    decreases s.len(),
{
    if s.len() > 0 {
        lemma_remove_whitespace_clean(s.drop_last());
        let rest = remove_whitespace(s.drop_last());
        let r = remove_whitespace(s);
        assert forall|i: int| 0 <= i < r.len() implies !is_whitespace(#[trigger] r[i]) by {
            if i < rest.len() {
                assert(r[i] == rest[i]);
            }
        }
    }
}

proof fn lemma_road_episodes_clean(items: Seq<(Seq<char>, Option<Seq<char>>)>, base: Seq<char>)
    ensures
        forall|k: int|
            0 <= k < road_episodes(items, base).len() ==> no_whitespace(#[trigger] road_episodes(items, base)[k].0),
    decreases items.len(),
{
    if items.len() > 0 {
        lemma_road_episodes_clean(items.drop_last(), base);
        lemma_remove_whitespace_clean(trim(items.last().0));
        let rest = road_episodes(items.drop_last(), base);
        let r = road_episodes(items, base);
        assert forall|k: int| 0 <= k < r.len() implies no_whitespace(#[trigger] r[k].0) by {
            if k < rest.len() {
                assert(r[k] == rest[k]);
            }
        }
    }
}

proof fn lemma_roads_from_well_formed(
    nested: Seq<Seq<(Seq<char>, Option<Seq<char>>)>>,
    names: Seq<Seq<char>>,
    base: Seq<char>,
)
    ensures
        forall|i: int|
            0 <= i < roads_from(nested, names, base).len() ==> well_formed_road(#[trigger] roads_from(nested, names, base)[i]),
    decreases nested.len(),
{
    if nested.len() > 0 {
        reveal_strlit("播放列表");
        lemma_roads_from_well_formed(nested.drop_last(), names, base);
        lemma_road_episodes_clean(nested.last(), base);
        let rest = roads_from(nested.drop_last(), names, base);
        let r = roads_from(nested, names, base);
        assert(road_label(names, nested.len() - 1, rest.len()).len() > 0);
        assert forall|i: int| 0 <= i < r.len() implies well_formed_road(#[trigger] r[i]) by {
            if i < rest.len() {
                assert(r[i] == rest[i]);
            }
        }
    }
}

proof fn lemma_unnamed_roads_numbered(
    nested: Seq<Seq<(Seq<char>, Option<Seq<char>>)>>,
    base: Seq<char>,
)
    ensures
        forall|i: int|
            0 <= i < roads_from(nested, seq![], base).len() ==> (#[trigger] roads_from(nested, seq![], base)[i]).0
                == default_road_name((i + 1) as nat),
    decreases nested.len(),
{
    if nested.len() > 0 {
        lemma_unnamed_roads_numbered(nested.drop_last(), base);
        let rest = roads_from(nested.drop_last(), seq![], base);
        let r = roads_from(nested, seq![], base);
        assert forall|i: int| 0 <= i < r.len() implies (#[trigger] r[i]).0 == default_road_name((i + 1) as nat) by {
            if i < rest.len() {
                assert(r[i] == rest[i]);
            }
        }
    }
}

/// Without a road-name selector the roads of an episode page are numbered
/// in the order they are listed: `播放列表1`, `播放列表2`, and so on.
pub proof fn law_unnamed_roads_numbered_in_order(html: Seq<char>, rule: RuleView)
    requires
        rule.selectors.road_name.len() == 0,
    ensures
        episode_page_spec(html, rule) matches Ok(roads) ==> forall|i: int|
            0 <= i < roads.len() ==> (#[trigger] roads[i]).0 == default_road_name((i + 1) as nat),
{
    let s = rule.selectors;
    assert(page_road_names(html, s) == Seq::<Seq<char>>::empty());
    lemma_unnamed_roads_numbered(nested_matches(html, s.episode_road, s.episode_item, "href"@), rule.base_url);
}

/// Every road that an episode page yields has a non-empty label and at least
/// one episode, and no episode name holds whitespace.
pub proof fn law_episode_roads_well_formed(html: Seq<char>, rule: RuleView)
    ensures
        episode_page_spec(html, rule) matches Ok(roads) ==> forall|i: int|
            0 <= i < roads.len() ==> well_formed_road(#[trigger] roads[i]),
{
    let s = rule.selectors;
    lemma_roads_from_well_formed(
        nested_matches(html, s.episode_road, s.episode_item, "href"@),
        page_road_names(html, s),
        rule.base_url,
    );
}

pub open spec fn trimmed_all(s: Seq<Seq<char>>) -> Seq<Seq<char>> {
    s.map_values(|t: Seq<char>| trim(t))
}

/// The road names that a page gives under a rule: the trimmed texts of the
/// road-name elements, none when the rule has no road-name selector.
pub open spec fn page_road_names(html: Seq<char>, s: SelectorsView) -> Seq<Seq<char>> {
    if s.road_name.len() > 0 {
        trimmed_all(matched_texts(html, s.road_name))
    } else {
        seq![]
    }
}

/// What an episode list page gives under a rule: the roads, or the message
/// for the first of the road, item and (when there is one) road-name
/// selectors that is refused.
pub open spec fn episode_page_spec(html: Seq<char>, rule: RuleView) -> Result<Seq<(Seq<char>, Seq<(Seq<char>, Seq<char>)>)>, Seq<char>> {
    let s = rule.selectors;
    if !selector_accepted(s.episode_road) {
        Err(invalid_selector_message(s.episode_road))
    } else if !selector_accepted(s.episode_item) {
        Err(invalid_selector_message(s.episode_item))
    } else if s.road_name.len() > 0 && !selector_accepted(s.road_name) {
        Err(invalid_selector_message(s.road_name))
    } else {
        Ok(roads_from(nested_matches(html, s.episode_road, s.episode_item, "href"@), page_road_names(html, s), rule.base_url))
    }
}

pub open spec fn episodes_view(v: Seq<OnlineEpisode>) -> Seq<(Seq<char>, Seq<char>)> {
    v.map_values(|e: OnlineEpisode| (e.name@, e.url@))
}

pub open spec fn roads_view(v: Seq<OnlineRoad>) -> Seq<(Seq<char>, Seq<(Seq<char>, Seq<char>)>)> {
    v.map_values(|r: OnlineRoad| (r.name@, episodes_view(r.episodes@)))
}

/// Parses a rule's selector; a refused one becomes a source error naming it.
fn rule_selector(css: &str) -> (r: Result<Css, ProviderError>)
    ensures
        r matches Ok(c) ==> selector_accepted(css@) && c.source_view() == css@,
        r matches Err(e) ==> !selector_accepted(css@) && (e matches ProviderError::Source(m) && m@ == invalid_selector_message(css@)),
{
    match parse_css(css) {
        Ok(c) => Ok(c),
        Err(t) => {
            let mut v = chars_of("Invalid CSS selector '");
            push_all(&mut v, &chars_of(css));
            push_all(&mut v, &chars_of("': "));
            push_all(&mut v, &chars_of(t.as_str()));
            Err(ProviderError::Source(string_of(&v)))
        },
    }
}

/// The part of the rule engine that holds the rule.
pub struct RuleEngine {
    rule: Rule,
}

impl RuleEngine {
    pub closed spec fn rule_view(&self) -> RuleView {
        self.rule@
    }

    pub fn new(rule: Rule) -> (r: RuleEngine)
        ensures
            r.rule_view() == rule@,
    {
        RuleEngine { rule }
    }

    /// The rule of this engine.
    pub fn rule(&self) -> (r: &Rule)
        ensures
            r@ == self.rule_view(),
    {
        &self.rule
    }

    /// The User-Agent of requests: the rule's, or a browser's when empty.
    pub fn user_agent(&self) -> (r: String)
        ensures
            r@ == if self.rule_view().user_agent.len() == 0 {
                default_user_agent()
            } else {
                self.rule_view().user_agent
            },
    {
        if self.rule.user_agent.as_str().is_empty() {
            s("Mozilla/5.0 (Macintosh; Intel Mac OS X 10_15_7) AppleWebKit/537.36 (KHTML, like Gecko) Chrome/131.0.0.0 Safari/537.36")
        } else {
            self.rule.user_agent.clone()
        }
    }

    /// The `Referer` header of requests: the site root and a `/`.
    pub fn referer(&self) -> (r: String)
        ensures
            r@ == self.rule_view().base_url + seq!['/'],
    {
        let mut v = chars_of(self.rule.base_url.as_str());
        v.push('/');
        string_of(&v)
    }

    /// The search address for a keyword: the template with every
    /// `{keyword}` replaced by it.
    pub fn search_url(&self, keyword: &str) -> (r: String)
        ensures
            r@ == replace_all(self.rule_view().search_url, keyword_placeholder(), keyword@),
    {
        let pat = vec!['{', 'k', 'e', 'y', 'w', 'o', 'r', 'd', '}'];
        assert(pat@ =~= keyword_placeholder());
        string_of(&replace_all_exec(&chars_of(self.rule.search_url.as_str()), &pat, &chars_of(keyword)))
    }

    /// Turns a possibly-relative URL into an absolute one.
    pub fn resolve_url(&self, href: &str) -> (r: String)
        ensures
            r@ == resolve_url_spec(self.rule_view().base_url, href@),
    {
        let h = chars_of(href);
        if starts_with_exec(&h, &chars_of("http://")) || starts_with_exec(&h, &chars_of("https://")) {
            return string_of(&h);
        }
        let base = chars_of(self.rule.base_url.as_str());
        let mut end = base.len();
        assert(base@.subrange(0, end as int) =~= base@);
        while end > 0 && base[end - 1] == '/'
            invariant
                end <= base@.len(),
                trim_end_slashes(base@) == trim_end_slashes(base@.subrange(0, end as int)),
            decreases end,
        {
            assert(base@.subrange(0, end as int).drop_last() =~= base@.subrange(0, end - 1));
            end = end - 1;
        }
        let mut v = slice(&base, 0, end);
        assert(trim_end_slashes(base@) == v@);
        let slash = vec!['/'];
        assert(slash@ =~= seq!['/']);
        if !starts_with_exec(&h, &slash) {
            v.push('/');
        }
        push_all(&mut v, &h);
        assert(v@ =~= resolve_url_spec(base@, href@));
        string_of(&v)
    }

    /// The name of the road found in road element `index` (from 0) when
    /// `listed` roads were listed before it: the page's name for that
    /// element when there is a non-empty one, else `播放列表` and the road's
    /// number among the listed roads, from 1.
    pub fn road_name(&self, names: &Vec<String>, index: usize, listed: usize) -> (r: String)
        requires
            listed < usize::MAX,
        ensures
            r@ == road_label(strings_view(names@), index as int, listed as nat),
    {
        if index < names.len() && !names[index].as_str().is_empty() {
            names[index].clone()
        } else {
            let mut v = chars_of("播放列表");
            push_all(&mut v, &decimal_exec((listed + 1) as u64));
            string_of(&v)
        }
    }

    /// The display name of an episode link: its trimmed text without any
    /// whitespace.
    pub fn episode_name(&self, text: &str) -> (r: String)
        ensures
            r@ == remove_whitespace(trim(text@)),
    {
        let t = trim_exec(&chars_of(text));
        let mut v: Vec<char> = Vec::new();
        let mut i: usize = 0;
        assert(t@.subrange(0, 0) =~= Seq::<char>::empty());
        while i < t.len()
            invariant
                i <= t@.len(),
                v@ == remove_whitespace(t@.subrange(0, i as int)),
            decreases t@.len() - i,
        {
            let ghost prev = v@;
            if !is_whitespace_exec(t[i]) {
                v.push(t[i]);
            }
            assert(t@.subrange(0, i + 1).drop_last() =~= t@.subrange(0, i as int));
            i = i + 1;
            assert(v@ =~= remove_whitespace(t@.subrange(0, i as int)));
        }
        assert(t@.subrange(0, t@.len() as int) =~= t@);
        string_of(&v)
    }

    /// The search results that a page lists, from the name text and the
    /// `href` of each result item: those with both non-empty, with the link
    /// made absolute.
    pub fn search_results_from(&self, items: &Vec<(String, String)>) -> (r: Vec<OnlineSearchResult>)
        ensures
            results_view(r@) == kept_results(items_view(items@), self.rule_view().base_url),
    {
        let mut out: Vec<OnlineSearchResult> = Vec::new();
        let mut i: usize = 0;
        let ghost iv = items_view(items@);
        assert(iv.subrange(0, 0) =~= Seq::<(Seq<char>, Seq<char>)>::empty());
        while i < items.len()
            invariant
                i <= items@.len(),
                iv == items_view(items@),
                results_view(out@) == kept_results(iv.subrange(0, i as int), self.rule_view().base_url),
            decreases items@.len() - i,
        {
            let name = trim_exec(&chars_of(items[i].0.as_str()));
            let href = items[i].1.as_str();
            let ghost prev = results_view(out@);
            assert(iv.subrange(0, i + 1).drop_last() =~= iv.subrange(0, i as int));
            assert(iv.subrange(0, i + 1).last() == (items@[i as int].0@, items@[i as int].1@));
            if name.len() > 0 && !href.is_empty() {
                let url = self.resolve_url(href);
                out.push(OnlineSearchResult { name: string_of(&name), url });
                assert(results_view(out@) =~= prev.push((name@, url@)));
            }
            i = i + 1;
        }
        assert(iv.subrange(0, iv.len() as int) =~= iv);
        out
    }

    /// The search results that a fetched search page lists under this
    /// engine's rule.
    pub fn search_page(&self, html: &str) -> (r: Result<Vec<OnlineSearchResult>, ProviderError>)
        ensures
            match r {
                Ok(v) => search_page_spec(html@, self.rule_view()) == Ok::<Seq<(Seq<char>, Seq<char>)>, Seq<char>>(results_view(v@)),
                Err(e) => e matches ProviderError::Source(m) && search_page_spec(html@, self.rule_view()) == Err::<Seq<(Seq<char>, Seq<char>)>, Seq<char>>(m@),
            },
    {
        let list = match rule_selector(self.rule.selectors.search_list.as_str()) {
            Ok(c) => c,
            Err(e) => return Err(e),
        };
        let name = match rule_selector(self.rule.selectors.search_name.as_str()) {
            Ok(c) => c,
            Err(e) => return Err(e),
        };
        let link = match rule_selector(self.rule.selectors.search_link.as_str()) {
            Ok(c) => c,
            Err(e) => return Err(e),
        };
        let page = parse_page(html);
        let names = select_nested(&page, &list, &name, "href");
        let links = select_nested(&page, &list, &link, "href");
        let ghost sv = self.rule_view().selectors;
        let ghost want = search_items(html@, sv);
        let n = names.len();
        let mut items: Vec<(String, String)> = Vec::new();
        let mut i: usize = 0;
        while i < n
            invariant
                i <= n,
                n == names@.len(),
                n == links@.len(),
                n == want.len(),
                want == search_items(html@, sv),
                crate::html::nested_view(names@) == nested_matches(html@, sv.search_list, sv.search_name, "href"@),
                crate::html::nested_view(links@) == nested_matches(html@, sv.search_list, sv.search_link, "href"@),
                items_view(items@) == want.subrange(0, i as int),
            decreases n - i,
        {
            assert(crate::html::matches_view(names@[i as int]@) == nested_matches(html@, sv.search_list, sv.search_name, "href"@)[i as int]);
            assert(crate::html::matches_view(links@[i as int]@) == nested_matches(html@, sv.search_list, sv.search_link, "href"@)[i as int]);
            let nm = if names[i].len() > 0 {
                names[i][0].0.clone()
            } else {
                String::new()
            };
            let hr = if links[i].len() > 0 {
                match &links[i][0].1 {
                    Some(a) => a.clone(),
                    None => String::new(),
                }
            } else {
                String::new()
            };
            let ghost prev = items_view(items@);
            assert(nm@ == want[i as int].0);
            assert(hr@ == want[i as int].1);
            items.push((nm, hr));
            assert(items_view(items@) =~= prev.push(want[i as int]));
            assert(want.subrange(0, i + 1) =~= want.subrange(0, i as int).push(want[i as int]));
            i = i + 1;
        }
        assert(want.subrange(0, n as int) =~= want);
        Ok(self.search_results_from(&items))
    }

    /// The episodes of one road from its item links (text, `href`).
    fn road_episodes_from(&self, items: &Vec<(String, Option<String>)>) -> (r: Vec<OnlineEpisode>)
        ensures
            episodes_view(r@) == road_episodes(crate::html::matches_view(items@), self.rule_view().base_url),
    {
        let ghost iv = crate::html::matches_view(items@);
        let ghost base = self.rule_view().base_url;
        let mut out: Vec<OnlineEpisode> = Vec::new();
        let mut j: usize = 0;
        assert(iv.subrange(0, 0) =~= Seq::<(Seq<char>, Option<Seq<char>>)>::empty());
        while j < items.len()
            invariant
                j <= items@.len(),
                iv == crate::html::matches_view(items@),
                base == self.rule_view().base_url,
                episodes_view(out@) == road_episodes(iv.subrange(0, j as int), base),
            decreases items@.len() - j,
        {
            assert(iv.subrange(0, j + 1).drop_last() =~= iv.subrange(0, j as int));
            assert(iv.subrange(0, j + 1).last() == iv[j as int]);
            let ghost prev = episodes_view(out@);
            let href: String = match &items[j].1 {
                Some(h) => h.clone(),
                None => String::new(),
            };
            if !href.as_str().is_empty() {
                let name = self.episode_name(items[j].0.as_str());
                let url = self.resolve_url(href.as_str());
                out.push(OnlineEpisode { name, url });
                assert(episodes_view(out@) =~= prev.push((name@, url@)));
            }
            j = j + 1;
        }
        assert(iv.subrange(0, iv.len() as int) =~= iv);
        out
    }

    /// The roads (playlists) that a fetched episode list page shows under
    /// this engine's rule.
    pub fn episode_page(&self, html: &str) -> (r: Result<Vec<OnlineRoad>, ProviderError>)
        ensures
            match r {
                Ok(v) => episode_page_spec(html@, self.rule_view()) == Ok::<Seq<(Seq<char>, Seq<(Seq<char>, Seq<char>)>)>, Seq<char>>(roads_view(v@)),
                Err(e) => e matches ProviderError::Source(m) && episode_page_spec(html@, self.rule_view()) == Err::<Seq<(Seq<char>, Seq<(Seq<char>, Seq<char>)>)>, Seq<char>>(m@),
            },
    {
        let ghost sv = self.rule_view().selectors;
        let ghost base = self.rule_view().base_url;
        let road = match rule_selector(self.rule.selectors.episode_road.as_str()) {
            Ok(c) => c,
            Err(e) => return Err(e),
        };
        let item = match rule_selector(self.rule.selectors.episode_item.as_str()) {
            Ok(c) => c,
            Err(e) => return Err(e),
        };
        let page = parse_page(html);
        let mut names: Vec<String> = Vec::new();
        if !self.rule.selectors.road_name.as_str().is_empty() {
            let rn = match rule_selector(self.rule.selectors.road_name.as_str()) {
                Ok(c) => c,
                Err(e) => return Err(e),
            };
            let texts = select_texts(&page, &rn);
            let mut k: usize = 0;
            while k < texts.len()
                invariant
                    k <= texts@.len(),
                    strings_view(names@) == trimmed_all(strings_view(texts@)).subrange(0, k as int),
                decreases texts@.len() - k,
            {
                let t = string_of(&trim_exec(&chars_of(texts[k].as_str())));
                let ghost prev = strings_view(names@);
                names.push(t);
                assert(strings_view(names@) =~= prev.push(t@));
                assert(trimmed_all(strings_view(texts@)).subrange(0, k + 1) =~= trimmed_all(strings_view(texts@)).subrange(0, k as int).push(t@));
                k = k + 1;
            }
            assert(trimmed_all(strings_view(texts@)).subrange(0, k as int) =~= trimmed_all(strings_view(texts@)));
        } else {
            assert(strings_view(names@) =~= Seq::<Seq<char>>::empty());
        }
        assert(strings_view(names@) == page_road_names(html@, sv));
        let nested = select_nested(&page, &road, &item, "href");
        let ghost nv = nested_matches(html@, sv.episode_road, sv.episode_item, "href"@);
        let mut roads: Vec<OnlineRoad> = Vec::new();
        let mut i: usize = 0;
        assert(nv.subrange(0, 0) =~= Seq::<Seq<(Seq<char>, Option<Seq<char>>)>>::empty());
        while i < nested.len()
            invariant
                i <= nested@.len(),
                crate::html::nested_view(nested@) == nv,
                base == self.rule_view().base_url,
                strings_view(names@) == page_road_names(html@, sv),
                roads_view(roads@) == roads_from(nv.subrange(0, i as int), page_road_names(html@, sv), base),
                roads@.len() <= i,
            decreases nested@.len() - i,
        {
            assert(nv[i as int] == crate::html::matches_view(nested@[i as int]@));
            assert(nv.subrange(0, i + 1).drop_last() =~= nv.subrange(0, i as int));
            assert(nv.subrange(0, i + 1).last() == nv[i as int]);
            let episodes = self.road_episodes_from(&nested[i]);
            if episodes.len() > 0 {
                let ghost prev = roads_view(roads@);
                let label = self.road_name(&names, i, roads.len());
                let ghost ev = episodes_view(episodes@);
                roads.push(OnlineRoad { name: label, episodes });
                assert(roads_view(roads@) =~= prev.push((label@, ev)));
            }
            i = i + 1;
        }
        assert(nv.subrange(0, nv.len() as int) =~= nv);
        Ok(roads)
    }
}

pub open spec fn items_view(v: Seq<(String, String)>) -> Seq<(Seq<char>, Seq<char>)> {
    v.map_values(|p: (String, String)| (p.0@, p.1@))
}

pub open spec fn results_view(v: Seq<OnlineSearchResult>) -> Seq<(Seq<char>, Seq<char>)> {
    v.map_values(|r: OnlineSearchResult| (r.name@, r.url@))
}

/// The results kept from (name text, href) pairs: trimmed name and
/// absolute link, for the pairs whose trimmed name and href are non-empty.
pub open spec fn kept_results(items: Seq<(Seq<char>, Seq<char>)>, base: Seq<char>) -> Seq<(Seq<char>, Seq<char>)>
    decreases items.len(),
{
    if items.len() == 0 {
        seq![]
    } else {
        let rest = kept_results(items.drop_last(), base);
        let (n, h) = items.last();
        if trim(n).len() > 0 && h.len() > 0 {
            rest.push((trim(n), resolve_url_spec(base, h)))
        } else {
            rest
        }
    }
}

} // verus!
