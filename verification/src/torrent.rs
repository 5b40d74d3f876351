//! The torrent engine's own decisions: which trackers a session announces
//! to, how a torrent source is fetched, and how the files of a torrent are
//! listed.
use vstd::prelude::*;
use crate::text::{chars_of, string_of, starts_with, starts_with_exec};
use crate::torrent_provider::strings_view;
use crate::server::TorrentFileInfo;

verus! {

/// The trackers a session announces to when none are configured.
pub open spec fn engine_default_trackers_spec() -> Seq<Seq<char>> {
    seq![
        "http://t.nyaatracker.com/announce"@,
        "http://opentracker.acgnx.se/announce"@,
        "http://anidex.moe:6969/announce"@,
        "http://t.acg.rip:6699/announce"@,
        "https://tr.bangumi.moe:9696/announce"@,
        "http://tr.bangumi.moe:6969/announce"@,
        "udp://tracker.opentrackr.org:1337/announce"@,
        "udp://open.stealth.si:80/announce"@,
        "udp://tracker.torrent.eu.org:451/announce"@,
        "udp://explodie.org:6969/announce"@,
        "udp://open.demonii.com:1337/announce"@,
        "udp://tracker.tiny-vps.com:6969/announce"@,
        "udp://exodus.desync.com:6969/announce"@,
        "udp://tracker.moeking.me:6969/announce"@,
        "http://nyaa.tracker.wf:7777/announce"@,
    ]
}

fn s(t: &str) -> (r: String)
    ensures
        r@ == t@,
{
    string_of(&chars_of(t))
}

/// The trackers a session announces to when none are configured.
pub fn engine_default_trackers() -> (r: Vec<String>)
    ensures
        strings_view(r@) == engine_default_trackers_spec(),
{
    let v = vec![
        s("http://t.nyaatracker.com/announce"),
        s("http://opentracker.acgnx.se/announce"),
        s("http://anidex.moe:6969/announce"),
        s("http://t.acg.rip:6699/announce"),
        s("https://tr.bangumi.moe:9696/announce"),
        s("http://tr.bangumi.moe:6969/announce"),
        s("udp://tracker.opentrackr.org:1337/announce"),
        s("udp://open.stealth.si:80/announce"),
        s("udp://tracker.torrent.eu.org:451/announce"),
        s("udp://explodie.org:6969/announce"),
        s("udp://open.demonii.com:1337/announce"),
        s("udp://tracker.tiny-vps.com:6969/announce"),
        s("udp://exodus.desync.com:6969/announce"),
        s("udp://tracker.moeking.me:6969/announce"),
        s("http://nyaa.tracker.wf:7777/announce"),
    ];
    assert(strings_view(v@) =~= engine_default_trackers_spec());
    v
}

/// The trackers in use: the configured ones, or the defaults when none are.
pub fn effective_trackers(custom: Vec<String>) -> (r: Vec<String>)
    ensures
        strings_view(r@) == if custom@.len() == 0 {
            engine_default_trackers_spec()
        } else {
            strings_view(custom@)
        },
{
    if custom.len() == 0 {
        engine_default_trackers()
    } else {
        custom
    }
}

/// Whether the `url` crate reads `s` as a URL (`url::Url::parse`).
pub uninterp spec fn url_accepted(s: Seq<char>) -> bool;

/// Whether `url::Url::parse` accepts `s`.
#[verifier::external_body]
pub(crate) fn url_parses(s: &str) -> (r: bool)
    ensures
        r == url_accepted(s@),
{
    url::Url::parse(s).is_ok()
}

/// The trackers that are URLs, in order.
pub open spec fn url_trackers(s: Seq<Seq<char>>) -> Seq<Seq<char>>
    decreases s.len(),
{
    if s.len() == 0 {
        seq![]
    } else if url_accepted(s.last()) {
        url_trackers(s.drop_last()).push(s.last())
    } else {
        url_trackers(s.drop_last())
    }
}

/// The trackers handed to the session: those that read as URLs.
pub fn session_trackers(trackers: &Vec<String>) -> (r: Vec<String>)
    ensures
        strings_view(r@) == url_trackers(strings_view(trackers@)),
{
    let ghost tv = strings_view(trackers@);
    let mut out: Vec<String> = Vec::new();
    let mut i: usize = 0;
    assert(tv.subrange(0, 0) =~= Seq::<Seq<char>>::empty());
    while i < trackers.len()
        invariant
            i <= trackers@.len(),
            tv == strings_view(trackers@),
            strings_view(out@) == url_trackers(tv.subrange(0, i as int)),
        decreases trackers@.len() - i,
    {
        assert(tv.subrange(0, i + 1).drop_last() =~= tv.subrange(0, i as int));
        assert(tv.subrange(0, i + 1).last() == trackers@[i as int]@);
        if url_parses(trackers[i].as_str()) {
            let ghost prev = strings_view(out@);
            let t = trackers[i].clone();
            out.push(t);
            assert(strings_view(out@) =~= prev.push(t@));
        }
        i = i + 1;
    }
    assert(tv.subrange(0, i as int) =~= tv);
    out
}

/// Whether a torrent source is a `.torrent` file to download first (an
/// `http://` or `https://` address) rather than a link the session opens
/// itself.
pub fn is_download_source(source: &str) -> (r: bool)
    ensures
        r == (starts_with(source@, "http://"@) || starts_with(source@, "https://"@)),
{
    let v = chars_of(source);
    starts_with_exec(&v, &chars_of("http://")) || starts_with_exec(&v, &chars_of("https://"))
}

/// How long the engine waits for a torrent's metadata, in seconds.
pub fn metadata_timeout_secs() -> (r: u64)
    ensures
        r == 60,
{
    60
}

/// The files of a torrent, from each file's path and length: numbered by
/// their position.
pub fn torrent_files(files: Vec<(String, u64)>) -> (r: Vec<TorrentFileInfo>)
    ensures
        r@.len() == files@.len(),
        forall|i: int| 0 <= i < r@.len() ==> (#[trigger] r@[i]).index == i && r@[i].path@ == files@[i].0@
            && r@[i].length == files@[i].1,
{
    let mut out: Vec<TorrentFileInfo> = Vec::new();
    let mut i: usize = 0;
    while i < files.len()
        invariant
            i <= files@.len(),
            out@.len() == i,
            forall|k: int| 0 <= k < i ==> (#[trigger] out@[k]).index == k && out@[k].path@ == files@[k].0@
                && out@[k].length == files@[k].1,
        decreases files@.len() - i,
    {
        out.push(TorrentFileInfo { index: i, path: files[i].0.clone(), length: files[i].1 });
        i = i + 1;
    }
    out
}

} // verus!
