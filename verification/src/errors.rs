//! Errors of the data sources, of the media store, of the player and of
//! the torrent engine, with their messages.
use vstd::prelude::*;
use crate::text::{chars_of, string_of, push_all};
use crate::numfmt::{decimal, decimal_exec};

verus! {

#[verifier::external_type_specification]
#[verifier::external_body]
pub struct ExAnyhowError(anyhow::Error);

#[verifier::external_type_specification]
#[verifier::external_body]
pub struct ExIoError(std::io::Error);

#[verifier::external_type_specification]
#[verifier::external_body]
pub struct ExReqwestError(reqwest::Error);

#[verifier::external_type_specification]
#[verifier::external_body]
pub struct ExJsonError(serde_json::Error);

/// Errors of the anime data sources.
#[derive(Debug)]
pub enum ProviderError {
    Http(reqwest::Error),
    Json(serde_json::Error),
    Source(String),
    NotFound(String),
}

/// The text of an HTTP client error: its `Display` form.
#[verifier::external_body]
fn http_text(e: &reqwest::Error) -> String {
    format!("{e}")
}

/// The text of a JSON error: its `Display` form.
#[verifier::external_body]
fn json_text(e: &serde_json::Error) -> String {
    format!("{e}")
}

/// `p` followed by `t`.
fn prefixed(p: &str, t: &str) -> (r: String)
    ensures
        r@ == p@ + t@,
{
    let mut v = chars_of(p);
    push_all(&mut v, &chars_of(t));
    string_of(&v)
}

impl ProviderError {
    /// The first part of the message, the variant's.
    pub open spec fn spec_prefix(&self) -> Seq<char> {
        match self {
            ProviderError::Http(_) => "HTTP 请求失败: "@,
            ProviderError::Json(_) => "JSON 解析失败: "@,
            ProviderError::Source(_) => "数据源错误: "@,
            ProviderError::NotFound(_) => "未找到: "@,
        }
    }

    /// The error's message: the variant's prefix, then the text it holds.
    pub fn message(&self) -> (r: String)
        ensures
            r@.len() >= self.spec_prefix().len(),
            r@.subrange(0, self.spec_prefix().len() as int) == self.spec_prefix(),
            self matches ProviderError::Source(s) ==> r@ == self.spec_prefix() + s@,
            self matches ProviderError::NotFound(s) ==> r@ == self.spec_prefix() + s@,
    {
        let r = match self {
            ProviderError::Http(e) => prefixed("HTTP 请求失败: ", http_text(e).as_str()),
            ProviderError::Json(e) => prefixed("JSON 解析失败: ", json_text(e).as_str()),
            ProviderError::Source(s) => prefixed("数据源错误: ", s.as_str()),
            ProviderError::NotFound(s) => prefixed("未找到: ", s.as_str()),
        };
        assert(r@.subrange(0, self.spec_prefix().len() as int) =~= self.spec_prefix());
        r
    }
}

#[verifier::external_type_specification]
#[verifier::external_body]
pub struct ExSqliteError(rusqlite::Error);

/// Errors of the media store.
#[derive(Debug)]
pub enum StoreError {
    Sqlite(rusqlite::Error),
    Io(std::io::Error),
}

/// The text of a database error: its `Display` form.
#[verifier::external_body]
fn sqlite_text(e: &rusqlite::Error) -> String {
    format!("{e}")
}

impl StoreError {
    /// The error's message: `sqlite: ` or `io: `, then the error's text.
    pub fn message(&self) -> (r: String)
        ensures
            self is Sqlite ==> r@.len() >= 8 && r@.subrange(0, 8) == "sqlite: "@,
            self is Io ==> r@.len() >= 4 && r@.subrange(0, 4) == "io: "@,
    {
        proof {
            reveal_strlit("sqlite: ");
            reveal_strlit("io: ");
        }
        match self {
            StoreError::Sqlite(e) => {
                let r = prefixed("sqlite: ", sqlite_text(e).as_str());
                assert(r@.subrange(0, 8) =~= "sqlite: "@);
                r
            },
            StoreError::Io(e) => {
                let r = prefixed("io: ", io_text(e).as_str());
                assert(r@.subrange(0, 4) =~= "io: "@);
                r
            },
        }
    }
}

/// Errors of the mpv player.
#[derive(Debug)]
pub enum MpvError {
    Mpv(String),
    PropertyUnavailable(String),
    NotInitialized,
}

impl MpvError {
    pub open spec fn spec_message(&self) -> Seq<char> {
        match self {
            MpvError::Mpv(s) => "mpv error: "@ + s@,
            MpvError::PropertyUnavailable(s) => "property not available: "@ + s@,
            MpvError::NotInitialized => "player not initialized"@,
        }
    }

    /// The error's message.
    pub fn message(&self) -> (r: String)
        ensures
            r@ == self.spec_message(),
    {
        match self {
            MpvError::Mpv(s) => {
                let mut v = chars_of("mpv error: ");
                push_all(&mut v, &chars_of(s.as_str()));
                string_of(&v)
            },
            MpvError::PropertyUnavailable(s) => {
                let mut v = chars_of("property not available: ");
                push_all(&mut v, &chars_of(s.as_str()));
                string_of(&v)
            },
            MpvError::NotInitialized => string_of(&chars_of("player not initialized")),
        }
    }
}

/// Errors of the torrent engine.
#[derive(Debug)]
pub enum TorrentError {
    Engine(anyhow::Error),
    NotFound(usize),
    FileNotFound { torrent_id: usize, file_id: usize },
    MetadataNotReady(usize),
    Timeout(u64),
    Io(std::io::Error),
}

/// The text of an engine error: its `Display` form.
#[verifier::external_body]
fn anyhow_text(e: &anyhow::Error) -> String {
    format!("{e}")
}

/// The text of an I/O error: its `Display` form.
#[verifier::external_body]
fn io_text(e: &std::io::Error) -> String {
    format!("{e}")
}

impl TorrentError {
    /// The message of the errors that hold no outside error.
    pub open spec fn spec_message(&self) -> Option<Seq<char>> {
        match self {
            TorrentError::NotFound(id) => Some("torrent not found: "@ + decimal(*id as nat)),
            TorrentError::FileNotFound { torrent_id, file_id } => Some(
                "file not found: torrent "@ + decimal(*torrent_id as nat) + " file "@ + decimal(
                    *file_id as nat,
                ),
            ),
            TorrentError::MetadataNotReady(id) => Some(
                "metadata not resolved for torrent "@ + decimal(*id as nat),
            ),
            TorrentError::Timeout(secs) => Some(
                "torrent metadata resolution timed out after "@ + decimal(*secs as nat)
                    + " seconds (no peers available)"@,
            ),
            _ => None,
        }
    }

    /// The error's message (an engine or I/O error is prefixed with
    /// `engine error: ` or `io error: `).
    pub fn message(&self) -> (r: String)
        ensures
            self.spec_message() matches Some(m) ==> r@ == m,
            self is Engine ==> r@.len() >= 14 && r@.subrange(0, 14) == "engine error: "@,
            self is Io ==> r@.len() >= 10 && r@.subrange(0, 10) == "io error: "@,
    {
        proof {
            reveal_strlit("engine error: ");
            reveal_strlit("io error: ");
        }
        match self {
            TorrentError::Engine(e) => {
                let r = prefixed("engine error: ", anyhow_text(e).as_str());
                assert(r@.subrange(0, 14) =~= "engine error: "@);
                r
            },
            TorrentError::NotFound(id) => {
                let mut v = chars_of("torrent not found: ");
                push_all(&mut v, &decimal_exec(*id as u64));
                string_of(&v)
            },
            TorrentError::FileNotFound { torrent_id, file_id } => {
                let mut v = chars_of("file not found: torrent ");
                push_all(&mut v, &decimal_exec(*torrent_id as u64));
                push_all(&mut v, &chars_of(" file "));
                push_all(&mut v, &decimal_exec(*file_id as u64));
                string_of(&v)
            },
            TorrentError::MetadataNotReady(id) => {
                let mut v = chars_of("metadata not resolved for torrent ");
                push_all(&mut v, &decimal_exec(*id as u64));
                string_of(&v)
            },
            TorrentError::Timeout(secs) => {
                let mut v = chars_of("torrent metadata resolution timed out after ");
                push_all(&mut v, &decimal_exec(*secs));
                push_all(&mut v, &chars_of(" seconds (no peers available)"));
                string_of(&v)
            },
            TorrentError::Io(e) => {
                let r = prefixed("io error: ", io_text(e).as_str());
                assert(r@.subrange(0, 10) =~= "io error: "@);
                r
            },
        }
    }
}

} // verus!
