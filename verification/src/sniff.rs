//! The decisions around locating an episode's video: which page the video
//! sniffer loads (the player `<iframe>` of the episode page, when there is
//! one, else the episode page) and whether it reads as a URL, what a sniffer
//! window title reports, and what the sniff returns.
use vstd::prelude::*;
use crate::text::{chars_of, string_of, slice, push_all, contains, contains_exec, starts_with, starts_with_exec};
use crate::torrent::{url_accepted, url_parses};
use crate::torrent_provider::opt_view;

verus! {

/// For each successive non-overlapping match of the regular expression
/// `pattern` in `text` (`regex::Regex::captures_iter`), the text of capture
/// group `group` when it took part in the match; none when `pattern` does
/// not compile.
pub uninterp spec fn regex_group_matches(pattern: Seq<char>, text: Seq<char>, group: nat) -> Option<Seq<Option<Seq<char>>>>;

pub open spec fn opt_strings_view(s: Seq<Option<String>>) -> Seq<Option<Seq<char>>> {
    s.map_values(|o: Option<String>| opt_view(o))
}

pub open spec fn captures_view(r: Option<Vec<Option<String>>>) -> Option<Seq<Option<Seq<char>>>> {
    match r {
        Some(v) => Some(opt_strings_view(v@)),
        None => None,
    }
}

/// Compiles `pattern` (`regex::Regex::new`) and collects capture group
/// `group` of each match in `text`.
#[verifier::external_body]
fn regex_captures(pattern: &str, text: &str, group: usize) -> (r: Option<Vec<Option<String>>>)
    ensures
        captures_view(r) == regex_group_matches(pattern@, text@, group as nat),
{
    let re = regex::Regex::new(pattern).ok()?;
    Some(re.captures_iter(text).map(|c| c.get(group).map(|m| m.as_str().to_string())).collect())
}

/// The pattern of an `<iframe>` tag with a double-quoted `src`, the source
/// in group 1.
pub open spec fn iframe_pattern() -> Seq<char> {
    "<iframe[^>]+src=\"([^\"]+)\"[^>]*>"@
}

/// An iframe source that is plainly no video player (ads, analytics,
/// social widgets).
pub open spec fn blocked_src(s: Seq<char>) -> bool {
    contains(s, "google"@) || contains(s, "facebook"@) || contains(s, "twitter"@) || contains(
        s,
        "baidu.com/hm"@,
    ) || contains(s, "analytics"@)
}

/// The first captured source that is not blocked; a match without the
/// group is passed over.
pub open spec fn first_player(caps: Seq<Option<Seq<char>>>) -> Option<Seq<char>>
    decreases caps.len(),
{
    if caps.len() == 0 {
        None
    } else {
        match caps[0] {
            Some(s) => if blocked_src(s) {
                first_player(caps.drop_first())
            } else {
                Some(s)
            },
            None => first_player(caps.drop_first()),
        }
    }
}

fn is_blocked_src(s: &Vec<char>) -> (r: bool)
    ensures
        r == blocked_src(s@),
{
    contains_exec(s, &chars_of("google")) || contains_exec(s, &chars_of("facebook")) || contains_exec(
        s,
        &chars_of("twitter"),
    ) || contains_exec(s, &chars_of("baidu.com/hm")) || contains_exec(s, &chars_of("analytics"))
}

/// The first captured iframe source that can be a video player.
pub fn first_player_src(caps: &Vec<Option<String>>) -> (r: Option<String>)
    ensures
        opt_view(r) == first_player(opt_strings_view(caps@)),
{
    let ghost cv = opt_strings_view(caps@);
    let mut i: usize = 0;
    assert(cv.subrange(0, cv.len() as int) =~= cv);
    while i < caps.len()
        invariant
            i <= caps@.len(),
            cv == opt_strings_view(caps@),
            first_player(cv) == first_player(cv.subrange(i as int, cv.len() as int)),
        decreases caps@.len() - i,
    {
        let ghost rest = cv.subrange(i as int, cv.len() as int);
        assert(rest.drop_first() =~= cv.subrange(i + 1, cv.len() as int));
        assert(rest[0] == opt_view(caps@[i as int]));
        match &caps[i] {
            Some(src) => {
                if !is_blocked_src(&chars_of(src.as_str())) {
                    return Some(src.clone());
                }
            },
            None => {},
        }
        i = i + 1;
    }
    None
}

/// The source of the first `<iframe>` of an episode page that can be a
/// video player; the sniffer loads it in place of the page.
pub fn player_iframe_src(html: &str) -> (r: Option<String>)
    ensures
        opt_view(r) == match regex_group_matches(iframe_pattern(), html@, 1) {
            Some(caps) => first_player(caps),
            None => None,
        },
{
    match regex_captures("<iframe[^>]+src=\"([^\"]+)\"[^>]*>", html, 1) {
        Some(caps) => first_player_src(&caps),
        None => None,
    }
}

/// The title prefix by which the sniffer script reports a video URL.
pub open spec fn sniff_prefix() -> Seq<char> {
    "__SNIFF_RESULT__:"@
}

/// The video URL that a sniffer window title reports: what follows the
/// prefix, when the title starts with it.
pub fn sniffed_url(title: &str) -> (r: Option<String>)
    ensures
        opt_view(r) == if starts_with(title@, sniff_prefix()) {
            Some(title@.subrange(sniff_prefix().len() as int, title@.len() as int))
        } else {
            None
        },
{
    let t = chars_of(title);
    let p = chars_of("__SNIFF_RESULT__:");
    if starts_with_exec(&t, &p) {
        Some(string_of(&slice(&t, p.len(), t.len())))
    } else {
        None
    }
}

/// How waiting for the sniffer ended.
pub enum SniffOutcome {
    /// The sniffer reported this URL.
    Found(String),
    /// The reporting channel closed without a URL.
    ChannelClosed,
    /// Nothing was reported in time.
    TimedOut,
}

/// The result of a sniff: the URL, or the message for how it failed.
pub fn sniff_result(outcome: SniffOutcome) -> (r: Result<String, String>)
    ensures
        match outcome {
            SniffOutcome::Found(u) => r == Ok::<String, String>(u),
            SniffOutcome::ChannelClosed => r matches Err(m) && m@ == "Sniffer channel closed unexpectedly"@,
            SniffOutcome::TimedOut => r matches Err(m) && m@ == "Video URL sniffing timed out (30s)"@,
        },
{
    match outcome {
        SniffOutcome::Found(u) => Ok(u),
        SniffOutcome::ChannelClosed => Err(string_of(&chars_of("Sniffer channel closed unexpectedly"))),
        SniffOutcome::TimedOut => Err(string_of(&chars_of("Video URL sniffing timed out (30s)"))),
    }
}

/// The page the sniffer window loads: the player iframe's source when the
/// episode page has one, else the episode page itself.
pub open spec fn sniff_target_spec(episode_url: Seq<char>, iframe: Option<Seq<char>>) -> Seq<char> {
    match iframe {
        Some(t) => t,
        None => episode_url,
    }
}

/// The address the sniffer window opens, or the message for a target that
/// does not read as a URL (then no window is built).
pub fn sniff_window_url(episode_url: &str, iframe: Option<String>) -> (r: Result<String, String>)
    ensures
        r is Ok <==> url_accepted(sniff_target_spec(episode_url@, opt_view(iframe))),
        r matches Ok(u) ==> u@ == sniff_target_spec(episode_url@, opt_view(iframe)),
        r matches Err(m) ==> m@ == "Invalid URL: "@ + sniff_target_spec(episode_url@, opt_view(iframe)),
{
    let target = match iframe {
        Some(t) => t,
        None => string_of(&chars_of(episode_url)),
    };
    if url_parses(target.as_str()) {
        Ok(target)
    } else {
        let mut v = chars_of("Invalid URL: ");
        push_all(&mut v, &chars_of(target.as_str()));
        Err(string_of(&v))
    }
}

} // verus!
