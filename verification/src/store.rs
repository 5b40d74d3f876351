//! The media cache's data model: settings, watch status, watchlist and
//! cache entries, and the Jellyfin-style names of cached files.
use vstd::prelude::*;
use crate::text::{chars_of, string_of, push_all, trim, trim_exec, chars_eq};
use crate::numfmt::{padded2, padded2_exec};
use crate::paths::{
    std_path_extension, path_extension, std_path_join, path_join, std_path_file_name, path_file_name,
    std_path_strip_prefix, path_strip_prefix,
};
use crate::torrent_provider::opt_view;

verus! {

/// User-configurable settings.
#[derive(Debug, Clone)]
pub struct Settings {
    /// Root directory for cached media files.
    pub cache_dir: String,
    /// Whether caching is enabled at all.
    pub cache_enabled: bool,
}

/// Watchlist status.
#[derive(Debug, Clone, Copy, PartialEq, Eq, Structural)]
pub enum WatchStatus {
    /// 未看
    Unwatched,
    /// 正在看
    Watching,
    /// 已看完
    Completed,
}

impl WatchStatus {
    pub open spec fn spec_str(&self) -> Seq<char> {
        match self {
            WatchStatus::Unwatched => "unwatched"@,
            WatchStatus::Watching => "watching"@,
            WatchStatus::Completed => "completed"@,
        }
    }

    pub open spec fn spec_from_str(s: Seq<char>) -> WatchStatus {
        if s == "unwatched"@ {
            WatchStatus::Unwatched
        } else if s == "completed"@ {
            WatchStatus::Completed
        } else {
            WatchStatus::Watching
        }
    }

    /// The stored form of the status.
    pub fn as_str(&self) -> (r: &'static str)
        ensures
            r@ == self.spec_str(),
    {
        match self {
            WatchStatus::Unwatched => "unwatched",
            WatchStatus::Watching => "watching",
            WatchStatus::Completed => "completed",
        }
    }

    /// Reads a stored status; anything unknown reads as watching.
    pub fn from_str(s: &str) -> (r: WatchStatus)
        ensures
            r == WatchStatus::spec_from_str(s@),
    {
        let v = chars_of(s);
        if chars_eq(&v, &chars_of("unwatched")) {
            WatchStatus::Unwatched
        } else if chars_eq(&v, &chars_of("completed")) {
            WatchStatus::Completed
        } else {
            WatchStatus::Watching
        }
    }
}

/// Reading back the stored form of a status gives the status.
pub proof fn law_watch_status_reads_back(w: WatchStatus)
    ensures
        WatchStatus::spec_from_str(w.spec_str()) == w,
{
    reveal_strlit("unwatched");
    reveal_strlit("watching");
    reveal_strlit("completed");
    assert("watching"@.len() == 8);
    assert("unwatched"@.len() == 9);
    assert("completed"@.len() == 9);
    assert("completed"@[0] != "unwatched"@[0]);
}

/// An entry in the user's watchlist.
#[derive(Debug, Clone)]
pub struct WatchlistEntry {
    pub id: i64,
    /// Bangumi subject ID.
    pub bgm_id: String,
    /// Anime title.
    pub anime_title: String,
    /// Cover image URL.
    pub cover: Option<String>,
    /// Total episodes.
    pub total_episodes: i32,
    /// Watch status.
    pub status: String,
    /// ISO-8601 timestamp when added.
    pub added_at: String,
    /// ISO-8601 timestamp of last status update.
    pub updated_at: String,
}

/// A cached media file entry.
#[derive(Debug, Clone)]
pub struct MediaEntry {
    pub id: i64,
    /// Bangumi subject ID (bgm.tv).
    pub bgm_id: String,
    /// Episode number.
    pub episode: i32,
    /// Anime title used for folder naming.
    pub anime_title: String,
    /// Subtitle group name.
    pub group_name: String,
    /// Video resolution label.
    pub resolution: String,
    /// Absolute path to the cached file on disk.
    pub file_path: String,
    /// File size in bytes.
    pub file_size: i64,
    /// Original torrent source (magnet / .torrent URL).
    pub torrent_source: String,
    /// ISO-8601 timestamp of when this was cached.
    pub cached_at: String,
}

/// The stored value of the `cache_enabled` setting.
pub open spec fn enabled_value(enabled: bool) -> Seq<char> {
    if enabled {
        "true"@
    } else {
        "false"@
    }
}

/// The value stored for the `cache_enabled` setting.
pub fn cache_enabled_value(enabled: bool) -> (r: &'static str)
    ensures
        r@ == enabled_value(enabled),
{
    if enabled {
        "true"
    } else {
        "false"
    }
}

/// The settings that the stored values give: the stored cache directory or
/// the default one, and caching enabled unless the stored flag is something
/// other than `true`.
pub open spec fn settings_spec(cache_dir: Option<Seq<char>>, cache_enabled: Option<Seq<char>>, default_dir: Seq<char>) -> (Seq<char>, bool) {
    (
        match cache_dir {
            Some(d) => d,
            None => default_dir,
        },
        match cache_enabled {
            Some(v) => v == "true"@,
            None => true,
        },
    )
}

/// Settings from the stored `cache_dir` and `cache_enabled` values, with
/// defaults for the missing ones.
pub fn settings_from(cache_dir: Option<String>, cache_enabled: Option<String>, default_cache_dir: &str) -> (r: Settings)
    ensures
        (r.cache_dir@, r.cache_enabled) == settings_spec(
            crate::torrent_provider::opt_view(cache_dir),
            crate::torrent_provider::opt_view(cache_enabled),
            default_cache_dir@,
        ),
{
    let dir = match cache_dir {
        Some(d) => d,
        None => string_of(&chars_of(default_cache_dir)),
    };
    let enabled = match cache_enabled {
        Some(v) => chars_eq(&chars_of(v.as_str()), &chars_of("true")),
        None => true,
    };
    let r = Settings { cache_dir: dir, cache_enabled: enabled };
    assert(r.cache_dir@ == settings_spec(
            crate::torrent_provider::opt_view(cache_dir),
            crate::torrent_provider::opt_view(cache_enabled),
            default_cache_dir@,
        ).0);
    r
}

/// A flag stored with `cache_enabled_value` reads back as the same flag.
pub proof fn law_cache_enabled_reads_back(b: bool, d: Option<Seq<char>>, default_dir: Seq<char>)
    ensures
        settings_spec(d, Some(enabled_value(b)), default_dir).1 == b,
{
    reveal_strlit("true");
    reveal_strlit("false");
    assert("true"@.len() == 4);
    assert("false"@.len() == 5);
}

/// Characters that file names may not hold.
pub open spec fn is_illegal_in_filename(c: char) -> bool {
    c == '/' || c == '\\' || c == ':' || c == '*' || c == '?' || c == '"' || c == '<' || c == '>'
        || c == '|'
}

/// `s` with each illegal character replaced by `_`.
pub open spec fn replace_illegal(s: Seq<char>) -> Seq<char> {
    s.map_values(|c: char| if is_illegal_in_filename(c) { '_' } else { c })
}

/// `s` made safe for a file name: illegal characters replaced by `_`,
/// then trimmed.
pub open spec fn sanitize(s: Seq<char>) -> Seq<char> {
    trim(replace_illegal(s))
}

/// Sanitize a string for filesystem use.
pub fn sanitize_filename(s: &str) -> (r: String)
    ensures
        r@ == sanitize(s@),
{
    let v = chars_of(s);
    let mut m: Vec<char> = Vec::new();
    let mut i: usize = 0;
    while i < v.len()
        invariant
            i <= v@.len(),
            m@ == replace_illegal(v@).subrange(0, i as int),
        decreases v@.len() - i,
    {
        let c = v[i];
        let d = if c == '/' || c == '\\' || c == ':' || c == '*' || c == '?' || c == '"' || c
            == '<' || c == '>' || c == '|' {
            '_'
        } else {
            c
        };
        m.push(d);
        i = i + 1;
        assert(m@ =~= replace_illegal(v@).subrange(0, i as int));
    }
    assert(replace_illegal(v@).subrange(0, i as int) =~= replace_illegal(v@));
    string_of(&trim_exec(&m))
}

/// A sanitized name holds no character that file names may not hold.
pub proof fn law_sanitized_names_are_legal(s: Seq<char>)
    ensures
        forall|i: int| 0 <= i < sanitize(s).len() ==> !is_illegal_in_filename(#[trigger] sanitize(s)[i]),
{
    let r = replace_illegal(s);
    let (a, b) = crate::text::lemma_trim_shape(r);
    assert forall|i: int| 0 <= i < sanitize(s).len() implies !is_illegal_in_filename(#[trigger] sanitize(s)[i]) by {
        assert(sanitize(s)[i] == r[a + i]);
    }
}

/// Sanitizing a sanitized name changes nothing.
pub proof fn law_sanitize_idempotent(s: Seq<char>)
    ensures
        sanitize(sanitize(s)) == sanitize(s),
{
    let t = sanitize(s);
    law_sanitized_names_are_legal(s);
    assert(replace_illegal(t) =~= t);
    crate::text::lemma_trim_idempotent(replace_illegal(s));
}

/// The directory of an anime: `{cache_dir}/{anime_title}` (title sanitized).
pub fn anime_dir(cache_dir: &str, anime_title: &str) -> (r: String)
    ensures
        r@ == std_path_join(cache_dir@, sanitize(anime_title@)),
{
    let t = sanitize_filename(anime_title);
    path_join(cache_dir, t.as_str())
}

/// ` [part]` when `part` is not empty.
pub open spec fn bracketed(part: Seq<char>) -> Seq<char> {
    if part.len() > 0 {
        seq![' ', '['] + part + seq![']']
    } else {
        seq![]
    }
}

/// `{title} - S01E{ep:02} [{group}] [{resolution}].{ext}`, each part
/// sanitized, the bracketed ones only when not empty, and the extension
/// that of the original file name or `mkv`.
pub open spec fn episode_filename_spec(title: Seq<char>, episode: int, group: Seq<char>, res: Seq<char>, original: Seq<char>) -> Seq<char> {
    sanitize(title) + " - S01E"@ + padded2(episode) + bracketed(sanitize(group)) + bracketed(
        sanitize(res),
    ) + seq!['.'] + match std_path_extension(original) {
        Some(e) => e,
        None => "mkv"@,
    }
}

fn push_bracketed(v: &mut Vec<char>, part: &String)
    ensures
        final(v)@ == old(v)@ + bracketed(part@),
{
    let p = chars_of(part.as_str());
    if p.len() > 0 {
        v.push(' ');
        v.push('[');
        push_all(v, &p);
        v.push(']');
        assert(v@ =~= old(v)@ + bracketed(part@));
    } else {
        assert(v@ =~= old(v)@ + bracketed(part@));
    }
}

/// The Jellyfin-style filename of an episode.
pub fn episode_filename(anime_title: &str, episode: i32, group_name: &str, resolution: &str, original_filename: &str) -> (r: String)
    ensures
        r@ == episode_filename_spec(anime_title@, episode as int, group_name@, resolution@, original_filename@),
{
    let ext = match path_extension(original_filename) {
        Some(e) => chars_of(e.as_str()),
        None => chars_of("mkv"),
    };
    let title = sanitize_filename(anime_title);
    let group = sanitize_filename(group_name);
    let res = sanitize_filename(resolution);
    let mut v = chars_of(title.as_str());
    push_all(&mut v, &chars_of(" - S01E"));
    push_all(&mut v, &padded2_exec(episode));
    push_bracketed(&mut v, &group);
    push_bracketed(&mut v, &res);
    v.push('.');
    push_all(&mut v, &ext);
    assert(v@ =~= episode_filename_spec(anime_title@, episode as int, group_name@, resolution@, original_filename@));
    string_of(&v)
}

/// Full path for a cached episode file.
pub fn episode_path(cache_dir: &str, anime_title: &str, episode: i32, group_name: &str, resolution: &str, original_filename: &str) -> (r: String)
    ensures
        r@ == std_path_join(
            std_path_join(cache_dir@, sanitize(anime_title@)),
            episode_filename_spec(anime_title@, episode as int, group_name@, resolution@, original_filename@),
        ),
{
    let dir = anime_dir(cache_dir, anime_title);
    let name = episode_filename(anime_title, episode, group_name, resolution, original_filename);
    path_join(dir.as_str(), name.as_str())
}

/// The file name of a source file, `video.mkv` when it has none.
pub open spec fn source_file_name(source: Seq<char>) -> Seq<char> {
    match std_path_file_name(source) {
        Some(n) => n,
        None => "video.mkv"@,
    }
}

/// Where a downloaded episode file is moved in the cache, or why it is not:
/// caching disabled, then a missing source file.
pub open spec fn organize_spec(
    cache_dir: Seq<char>,
    cache_enabled: bool,
    source_path: Seq<char>,
    source_exists: bool,
    title: Seq<char>,
    episode: int,
    group: Seq<char>,
    res: Seq<char>,
) -> Result<Seq<char>, Seq<char>> {
    if !cache_enabled {
        Err("cache is disabled"@)
    } else if !source_exists {
        Err("source file not found: "@ + source_path)
    } else {
        Ok(std_path_join(
            std_path_join(cache_dir, sanitize(title)),
            episode_filename_spec(title, episode, group, res, source_file_name(source_path)),
        ))
    }
}

/// The cache path that a downloaded episode file is moved to, given the
/// settings and whether the source file exists.
pub fn organize_destination(
    settings: &Settings,
    source_path: &str,
    source_exists: bool,
    anime_title: &str,
    episode: i32,
    group_name: &str,
    resolution: &str,
) -> (r: Result<String, String>)
    ensures
        match r {
            Ok(p) => organize_spec(settings.cache_dir@, settings.cache_enabled, source_path@, source_exists, anime_title@, episode as int, group_name@, resolution@) == Ok::<Seq<char>, Seq<char>>(p@),
            Err(m) => organize_spec(settings.cache_dir@, settings.cache_enabled, source_path@, source_exists, anime_title@, episode as int, group_name@, resolution@) == Err::<Seq<char>, Seq<char>>(m@),
        },
{
    if !settings.cache_enabled {
        return Err(string_of(&chars_of("cache is disabled")));
    }
    if !source_exists {
        let mut v = chars_of("source file not found: ");
        push_all(&mut v, &chars_of(source_path));
        return Err(string_of(&v));
    }
    let name = match path_file_name(source_path) {
        Some(n) => n,
        None => string_of(&chars_of("video.mkv")),
    };
    Ok(episode_path(settings.cache_dir.as_str(), anime_title, episode, group_name, resolution, name.as_str()))
}

/// Whether changing the cache directory moves the cached files: when asked
/// to and the directory really changes.
pub fn should_migrate(migrate: bool, old_dir: &str, new_dir: &str) -> (r: bool)
    ensures
        r == (migrate && old_dir@ != new_dir@),
{
    migrate && !chars_eq(&chars_of(old_dir), &chars_of(new_dir))
}

/// Where a cached file goes when the cache directory moves: the same place
/// under the new directory, for a file under the old one.
pub fn migrated_path(file_path: &str, old_dir: &str, new_dir: &str) -> (r: Option<String>)
    ensures
        opt_view(r) == match std_path_strip_prefix(file_path@, old_dir@) {
            Some(rel) => Some(std_path_join(new_dir@, rel)),
            None => None,
        },
{
    match path_strip_prefix(file_path, old_dir) {
        Some(rel) => Some(path_join(new_dir, rel.as_str())),
        None => None,
    }
}

/// Which cached entry of an episode a lookup asks for.
#[derive(Debug)]
pub enum LookupKey {
    /// The entry of this group and this resolution.
    GroupAndResolution(String, String),
    /// The entry of this group.
    Group(String),
    /// The most recently cached entry.
    Latest,
}

/// The lookup that a group and a resolution ask for: both when both are
/// given, the group when only it is given, else the latest entry (a
/// resolution without a group is not looked at).
pub fn lookup_key(group_name: Option<&str>, resolution: Option<&str>) -> (r: LookupKey)
    ensures
        match (group_name, resolution) {
            (Some(g), Some(res)) => r matches LookupKey::GroupAndResolution(a, b) && a@ == g@ && b@ == res@,
            (Some(g), None) => r matches LookupKey::Group(a) && a@ == g@,
            (None, _) => r is Latest,
        },
{
    match (group_name, resolution) {
        (Some(g), Some(res)) => LookupKey::GroupAndResolution(string_of(&chars_of(g)), string_of(&chars_of(res))),
        (Some(g), None) => LookupKey::Group(string_of(&chars_of(g))),
        (None, _) => LookupKey::Latest,
    }
}

} // verus!
