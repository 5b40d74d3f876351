//! The Bangumi (bgm.tv) data source: its endpoints, the query parameters of
//! its requests, its error messages, and how its records become the
//! library's models.
use vstd::prelude::*;
use crate::text::{chars_of, string_of, push_all, find_from, find_from_exec, slice, matches_at};
use crate::numfmt::{decimal, decimal_exec, parse_unsigned, parse_unsigned_exec};
use crate::models::{EpisodesInfo, GetEpisodesQuery, GetListQuery};
use crate::torrent_provider::{opt_view, strings_view};

verus! {

/// The root of the Bangumi API.
pub open spec fn api_root() -> Seq<char> {
    "https://api.bgm.tv"@
}

/// The User-Agent that requests to Bangumi carry.
pub fn user_agent() -> (r: String)
    ensures
        r@ == "Kuriume/0.1 (https://github.com/Twacqwq/Kuriume)"@,
{
    string_of(&chars_of("Kuriume/0.1 (https://github.com/Twacqwq/Kuriume)"))
}

fn api_path(path: &str) -> (r: Vec<char>)
    ensures
        r@ == api_root() + path@,
{
    let mut v = chars_of("https://api.bgm.tv");
    push_all(&mut v, &chars_of(path));
    v
}

/// The address of one subject.
pub fn subject_url(id: &str) -> (r: String)
    ensures
        r@ == api_root() + "/v0/subjects/"@ + id@,
{
    let mut v = api_path("/v0/subjects/");
    push_all(&mut v, &chars_of(id));
    string_of(&v)
}

/// The address of the subject list.
pub fn subjects_url() -> (r: String)
    ensures
        r@ == api_root() + "/v0/subjects"@,
{
    string_of(&api_path("/v0/subjects"))
}

/// The address of the episode list.
pub fn episodes_url() -> (r: String)
    ensures
        r@ == api_root() + "/v0/episodes"@,
{
    string_of(&api_path("/v0/episodes"))
}

/// The address of a subject's characters.
pub fn characters_url(id: &str) -> (r: String)
    ensures
        r@ == api_root() + "/v0/subjects/"@ + id@ + "/characters"@,
{
    let mut v = api_path("/v0/subjects/");
    push_all(&mut v, &chars_of(id));
    push_all(&mut v, &chars_of("/characters"));
    string_of(&v)
}

/// The message for a subject that Bangumi does not know.
pub fn not_found_message(id: &str) -> (r: String)
    ensures
        r@ == "Subject "@ + id@ + " not found"@,
{
    let mut v = chars_of("Subject ");
    push_all(&mut v, &chars_of(id));
    push_all(&mut v, &chars_of(" not found"));
    string_of(&v)
}

/// The message for a request that Bangumi answered with a failure status.
pub fn request_failed_message(url: &str, status: &str) -> (r: String)
    ensures
        r@ == "Failed to request Bangumi "@ + url@ + " API returned "@ + status@,
{
    let mut v = chars_of("Failed to request Bangumi ");
    push_all(&mut v, &chars_of(url));
    push_all(&mut v, &chars_of(" API returned "));
    push_all(&mut v, &chars_of(status));
    string_of(&v)
}

pub open spec fn params_view(v: Seq<(String, String)>) -> Seq<(Seq<char>, Seq<char>)> {
    v.map_values(|p: (String, String)| (p.0@, p.1@))
}

/// The query parameters of a subject list request: type, limit and offset,
/// then the sort order when one is given, the year and the month when
/// positive.
pub open spec fn list_params(q: GetListQuery) -> Seq<(Seq<char>, Seq<char>)> {
    seq![("type"@, decimal(q.typ as nat)), ("limit"@, decimal(q.limit as nat)), ("offset"@, decimal(q.offset as nat))]
        + match q.soft {
        Some(s) => seq![("sort"@, s.spec_str())],
        None => seq![],
    } + match q.year {
        Some(y) => if y > 0 {
            seq![("year"@, decimal(y as nat))]
        } else {
            seq![]
        },
        None => seq![],
    } + match q.month {
        Some(m) => if m > 0 {
            seq![("month"@, decimal(m as nat))]
        } else {
            seq![]
        },
        None => seq![],
    }
}

fn param(name: &str, value: Vec<char>) -> (r: (String, String))
    ensures
        r.0@ == name@,
        r.1@ == value@,
{
    (string_of(&chars_of(name)), string_of(&value))
}

/// The query parameters of a subject list request.
pub fn list_query(q: &GetListQuery) -> (r: Vec<(String, String)>)
    ensures
        params_view(r@) == list_params(*q),
{
    let mut out: Vec<(String, String)> = Vec::new();
    out.push(param("type", decimal_exec(q.typ as u64)));
    out.push(param("limit", decimal_exec(q.limit as u64)));
    out.push(param("offset", decimal_exec(q.offset as u64)));
    let ghost base = params_view(out@);
    match q.soft {
        Some(s) => {
            let v = s.as_str();
            if !v.is_empty() {
                out.push(param("sort", chars_of(v)));
            }
            proof {
                reveal_strlit("rank");
                reveal_strlit("date");
            }
        },
        None => {},
    }
    let ghost with_sort = params_view(out@);
    match q.year {
        Some(y) => {
            if y > 0 {
                out.push(param("year", decimal_exec(y as u64)));
            }
        },
        None => {},
    }
    let ghost with_year = params_view(out@);
    match q.month {
        Some(m) => {
            if m > 0 {
                out.push(param("month", decimal_exec(m as u64)));
            }
        },
        None => {},
    }
    assert(params_view(out@) =~= list_params(*q));
    out
}

/// The query parameters of an episode list request: the subject, then the
/// offset and the limit.
pub fn episodes_query(q: &GetEpisodesQuery) -> (r: Vec<(String, String)>)
    ensures
        params_view(r@) == seq![
            ("subject_id"@, q.id@),
            ("offset"@, decimal(q.offset as nat)),
            ("limit"@, decimal(q.limit as nat)),
        ],
{
    let mut out: Vec<(String, String)> = Vec::new();
    out.push(param("subject_id", chars_of(q.id.as_str())));
    out.push(param("offset", decimal_exec(q.offset as u64)));
    out.push(param("limit", decimal_exec(q.limit as u64)));
    assert(params_view(out@) =~= seq![
        ("subject_id"@, q.id@),
        ("offset"@, decimal(q.offset as nat)),
        ("limit"@, decimal(q.limit as nat)),
    ]);
    out
}

/// The image links of a Bangumi record.
#[derive(Debug, Clone)]
pub struct BangumiImages {
    pub large: Option<String>,
    pub common: Option<String>,
    pub medium: Option<String>,
}

/// The image that stands for a record: the large one, else the common one,
/// else the medium one.
pub open spec fn picked_image(images: Option<BangumiImages>) -> Option<Seq<char>> {
    match images {
        Some(i) => if i.large is Some {
            opt_view(i.large)
        } else if i.common is Some {
            opt_view(i.common)
        } else {
            opt_view(i.medium)
        },
        None => None,
    }
}

/// The image that stands for a record.
pub fn pick_image(images: Option<BangumiImages>) -> (r: Option<String>)
    ensures
        opt_view(r) == picked_image(images),
        images is None ==> r is None,
        images matches Some(i) ==> opt_view(r) == (if i.large is Some {
            opt_view(i.large)
        } else if i.common is Some {
            opt_view(i.common)
        } else {
            opt_view(i.medium)
        }),
{
    match images {
        Some(i) => match i.large {
            Some(l) => Some(l),
            None => match i.common {
                Some(c) => Some(c),
                None => i.medium,
            },
        },
        None => None,
    }
}

/// A Bangumi subject record, as the subject endpoints return it (its
/// rating aside).
#[derive(Debug)]
pub struct BangumiSubject {
    pub id: u64,
    pub name: String,
    pub name_cn: Option<String>,
    pub summary: Option<String>,
    pub date: Option<String>,
    pub images: Option<BangumiImages>,
    pub meta_tags: Option<Vec<String>>,
    pub total_episodes: u32,
    pub eps: u32,
}

/// An anime as the application shows it, its score aside.
#[derive(Debug, Clone)]
pub struct AnimeSummary {
    pub id: String,
    pub title: String,
    pub title_cn: String,
    pub cover: Option<String>,
    pub year: Option<u16>,
    pub total_episodes: u32,
    pub genres: Vec<String>,
    pub description: Option<String>,
}

/// The Chinese title: the subject's when non-empty, else its name.
pub open spec fn title_cn_spec(name_cn: Option<String>, name: Seq<char>) -> Seq<char> {
    match name_cn {
        Some(c) => if c@.len() > 0 {
            c@
        } else {
            name
        },
        None => name,
    }
}

/// The part of a date before its first `-`.
pub open spec fn date_head(d: Seq<char>) -> Seq<char> {
    match find_from(d, seq!['-'], 0) {
        Some(i) => d.subrange(0, i),
        None => d,
    }
}

/// The premiere year: the part of the date before its first `-`, read as
/// a `u16`.
pub open spec fn year_spec(date: Option<String>) -> Option<int> {
    match date {
        Some(d) => parse_unsigned(date_head(d@), 10, 65535),
        None => None,
    }
}

/// A date that starts with a year (at most 65535) written in decimal and a
/// `-` has that year as its premiere year.
pub proof fn law_year_of_dated_subject(date: Option<String>, y: nat, rest: Seq<char>)
    requires
        y <= 65535,
        date matches Some(d) && d@ == decimal(y) + seq!['-'] + rest,
    ensures
        year_spec(date) == Some(y as int),
{
    let d = date->0@;
    let dy = decimal(y);
    crate::numfmt::lemma_decimal_reads_back(y);
    crate::numfmt::lemma_parse_decimal(y, 65535);
    crate::text::lemma_find_from_props(d, seq!['-'], 0);
    assert(matches_at(d, seq!['-'], dy.len() as int)) by {
        assert(d.subrange(dy.len() as int, dy.len() as int + 1) =~= seq!['-']);
    }
    match find_from(d, seq!['-'], 0) {
        Some(i) => {
            if i < dy.len() {
                assert(d.subrange(i, i + 1)[0] == d[i]);
                assert(d[i] == dy[i]);
            }
        },
        None => {},
    }
    assert(date_head(d) =~= dy);
}

/// The Chinese title is the subject's Chinese name whenever that name is
/// non-empty, and the original name otherwise: it is never empty unless both
/// are.
pub proof fn law_chinese_title_preferred(name_cn: Option<String>, name: Seq<char>)
    ensures
        (name_cn matches Some(c) && c@.len() > 0) ==> title_cn_spec(name_cn, name) == name_cn->0@,
        !(name_cn matches Some(c) && c@.len() > 0) ==> title_cn_spec(name_cn, name) == name,
        title_cn_spec(name_cn, name).len() == 0 ==> name.len() == 0,
{
}

/// The Chinese title of a subject.
pub fn title_cn_of(name_cn: Option<String>, name: &String) -> (r: String)
    ensures
        r@ == title_cn_spec(name_cn, name@),
        (name_cn matches Some(c) && c@.len() > 0) ==> r@ == name_cn->0@,
        !(name_cn matches Some(c) && c@.len() > 0) ==> r@ == name@,
{
    match name_cn {
        Some(c) => if !c.as_str().is_empty() {
            c
        } else {
            name.clone()
        },
        None => name.clone(),
    }
}

/// The premiere year of a subject's date.
pub fn year_of(date: &Option<String>) -> (r: Option<u16>)
    ensures
        match r {
            Some(y) => year_spec(*date) == Some(y as int),
            None => year_spec(*date) is None,
        },
{
    match date {
        Some(d) => {
            let v = chars_of(d.as_str());
            let dash = vec!['-'];
            assert(dash@ =~= seq!['-']);
            let head = match find_from_exec(&v, &dash, 0) {
                Some(i) => {
                    proof {
                        crate::text::lemma_find_from_bounds(v@, dash@, 0);
                    }
                    slice(&v, 0, i)
                },
                None => v,
            };
            match parse_unsigned_exec(&head, 10, 65535) {
                Some(n) => Some(n as u16),
                None => None,
            }
        },
        None => None,
    }
}

/// The anime that a subject record describes: its id in decimal, name,
/// Chinese title, picked cover, year, the larger of its two episode counts,
/// tags and summary.
pub fn subject_summary(value: BangumiSubject) -> (r: AnimeSummary)
    requires
        value.meta_tags is Some,
    ensures
        r.id@ == decimal(value.id as nat),
        r.title@ == value.name@,
        r.title_cn@ == title_cn_spec(value.name_cn, value.name@),
        (value.name_cn matches Some(c) && c@.len() > 0) ==> r.title_cn@ == value.name_cn->0@,
        !(value.name_cn matches Some(c) && c@.len() > 0) ==> r.title_cn@ == value.name@,
        opt_view(r.cover) == picked_image(value.images),
        match r.year {
            Some(y) => year_spec(value.date) == Some(y as int),
            None => year_spec(value.date) is None,
        },
        r.total_episodes == if value.total_episodes >= value.eps {
            value.total_episodes
        } else {
            value.eps
        },
        value.meta_tags matches Some(t) && strings_view(r.genres@) == strings_view(t@),
        opt_view(r.description) == opt_view(value.summary),
{
    let title_cn = title_cn_of(value.name_cn, &value.name);
    let cover = pick_image(value.images);
    let year = year_of(&value.date);
    let total_episodes = if value.total_episodes >= value.eps {
        value.total_episodes
    } else {
        value.eps
    };
    let genres = match value.meta_tags {
        Some(t) => t,
        None => Vec::new(),
    };
    AnimeSummary {
        id: string_of(&decimal_exec(value.id)),
        title: value.name,
        title_cn,
        cover,
        year,
        total_episodes,
        genres,
        description: value.summary,
    }
}

/// A Bangumi episode record, as the episode endpoint returns it.
#[derive(Debug)]
pub struct BangumiEpisode {
    pub id: u64,
    pub airdate: Option<String>,
    pub name: Option<String>,
    pub name_cn: Option<String>,
    pub duration: Option<String>,
    pub desc: Option<String>,
    pub ep: u32,
}

/// The episode that an episode record describes: its id in decimal, an
/// empty thumbnail, and the record's fields.
pub fn episode_info(value: BangumiEpisode) -> (r: EpisodesInfo)
    ensures
        r.id@ == decimal(value.id as nat),
        r.ep == value.ep,
        opt_view(r.airdate) == opt_view(value.airdate),
        opt_view(r.title) == opt_view(value.name),
        opt_view(r.title_cn) == opt_view(value.name_cn),
        opt_view(r.summary) == opt_view(value.desc),
        opt_view(r.duration) == opt_view(value.duration),
        opt_view(r.thumbnail) == Some(Seq::<char>::empty()),
{
    EpisodesInfo {
        id: string_of(&decimal_exec(value.id)),
        ep: value.ep,
        airdate: value.airdate,
        title: value.name,
        title_cn: value.name_cn,
        summary: value.desc,
        duration: value.duration,
        thumbnail: Some(String::new()),
    }
}

} // verus!
