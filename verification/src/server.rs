//! The streaming server's request logic: the `Range` header, the content
//! type guessed from a file name, and the stream address of a file.
use vstd::prelude::*;
use crate::text::{chars_of, string_of, push_all, slice, starts_with, starts_with_exec, find_from, find_from_exec, lemma_find_from_bounds, lemma_find_from_props, matches_at, rfind, rfind_exec, lemma_rfind_bounds, chars_eq};
use crate::numfmt::{parse_unsigned, parse_unsigned_exec, decimal, decimal_exec, lemma_decimal_reads_back, lemma_parse_decimal};
use crate::paths::{std_to_lowercase, to_lowercase};

verus! {

/// The text after `bytes=`.
pub open spec fn range_body(h: Seq<char>) -> Seq<char> {
    h.subrange(6, h.len() as int)
}

/// The first part of `bytes=start-end`: up to the first `-`, or all.
pub open spec fn range_first(r: Seq<char>) -> Seq<char> {
    match find_from(r, seq!['-'], 0) {
        Some(d) => r.subrange(0, d),
        None => r,
    }
}

/// The second part of `bytes=start-end`: after the first `-`, if any.
pub open spec fn range_second(r: Seq<char>) -> Option<Seq<char>> {
    match find_from(r, seq!['-'], 0) {
        Some(d) => Some(r.subrange(d + 1, r.len() as int)),
        None => None,
    }
}

/// Whether reading the header takes the last byte index `total - 1`
/// before it can fail (the suffix form with a number, or an open end after
/// a number): with `total == 0` that subtraction overflows.
pub open spec fn range_uses_last_index(h: Seq<char>) -> bool {
    starts_with(h, "bytes="@) && {
        let r = range_body(h);
        if starts_with(r, seq!['-']) {
            parse_unsigned(r.drop_first(), 10, u64::MAX as int) is Some
        } else {
            parse_unsigned(range_first(r), 10, u64::MAX as int) is Some && match range_second(r) {
                Some(s) => s.len() == 0,
                None => true,
            }
        }
    }
}

/// `Range: bytes=start-end` read against a file of `total` bytes: the
/// inclusive byte range served, or `None` when the header is not such a
/// range or asks for nothing inside the file. `bytes=-n` is the last `n`
/// bytes; an open end is the last byte; an end past the file is clamped.
pub open spec fn parse_range_spec(h: Seq<char>, total: int) -> Option<(int, int)> {
    if !starts_with(h, "bytes="@) {
        None
    } else {
        let r = range_body(h);
        if starts_with(r, seq!['-']) {
            match parse_unsigned(r.drop_first(), 10, u64::MAX as int) {
                None => None,
                Some(n) => Some((if total >= n { total - n } else { 0 }, total - 1)),
            }
        } else {
            match parse_unsigned(range_first(r), 10, u64::MAX as int) {
                None => None,
                Some(start) => {
                    let end = match range_second(r) {
                        Some(s) => if s.len() > 0 {
                            parse_unsigned(s, 10, u64::MAX as int)
                        } else {
                            Some(total - 1)
                        },
                        None => Some(total - 1),
                    };
                    match end {
                        None => None,
                        Some(e) => if start > e || start >= total {
                            None
                        } else {
                            Some((start, if e < total - 1 { e } else { total - 1 }))
                        },
                    }
                },
            }
        }
    }
}

/// Whether the header asks for the last zero bytes (`bytes=-0`, or the same
/// number written otherwise).
pub open spec fn empty_suffix_request(h: Seq<char>) -> bool {
    starts_with(h, "bytes="@) && starts_with(range_body(h), seq!['-']) && parse_unsigned(
        range_body(h).drop_first(),
        10,
        u64::MAX as int,
    ) == Some(0int)
}

/// A range read from a header lies inside the file and is not empty, except
/// for a request of the last zero bytes.
pub proof fn law_range_inside_file(h: Seq<char>, total: int)
    requires
        total > 0,
        !empty_suffix_request(h),
    ensures
        parse_range_spec(h, total) matches Some((a, b)) ==> 0 <= a <= b < total,
{
    let r = range_body(h);
    if starts_with(h, "bytes="@) && starts_with(r, seq!['-']) {
        crate::numfmt::lemma_parse_unsigned_nonneg(r.drop_first(), 10, u64::MAX as int);
    } else if starts_with(h, "bytes="@) {
        crate::numfmt::lemma_parse_unsigned_nonneg(range_first(r), 10, u64::MAX as int);
    }
}

/// A range written as `bytes=a-b`, with `a <= b` and `a` inside the file,
/// reads back as the range from `a` to `b`, its end clamped to the last byte.
pub proof fn law_written_range_reads_back(a: u64, b: u64, total: int)
    requires
        a <= b,
        a < total,
    ensures
        parse_range_spec("bytes="@ + decimal(a as nat) + seq!['-'] + decimal(b as nat), total)
            == Some((a as int, if b < total - 1 { b as int } else { total - 1 })),
{
    reveal_strlit("bytes=");
    let da = decimal(a as nat);
    let db = decimal(b as nat);
    let dash = seq!['-'];
    let h = "bytes="@ + da + dash + db;
    lemma_decimal_reads_back(a as nat);
    lemma_decimal_reads_back(b as nat);
    lemma_parse_decimal(a as nat, u64::MAX as int);
    lemma_parse_decimal(b as nat, u64::MAX as int);
    assert(h.subrange(0, 6) =~= "bytes="@);
    let r = range_body(h);
    let l = da.len() as int;
    assert(r =~= da + dash + db);
    assert(r[0] == da[0]);
    assert(!starts_with(r, dash)) by {
        if starts_with(r, dash) {
            assert(r.subrange(0, 1)[0] == r[0]);
        }
    }
    lemma_find_from_props(r, dash, 0);
    assert(matches_at(r, dash, l)) by {
        assert(r.subrange(l, l + 1) =~= dash);
    }
    match find_from(r, dash, 0) {
        Some(i) => {
            if i < l {
                assert(r.subrange(i, i + 1)[0] == r[i]);
                assert(r[i] == da[i]);
            }
        },
        None => {},
    }
    assert(find_from(r, dash, 0) == Some(l));
    assert(range_first(r) =~= da);
    assert(r.subrange(l + 1, r.len() as int) =~= db);
    assert(range_second(r) == Some(db));
}

/// Parse `Range: bytes=start-end` header; `end` is inclusive.
pub fn parse_range(header: &str, total: u64) -> (r: Option<(u64, u64)>)
    requires
        total > 0 || !range_uses_last_index(header@),
    ensures
        match r {
            Some((a, b)) => parse_range_spec(header@, total as int) == Some((a as int, b as int)),
            None => parse_range_spec(header@, total as int) is None,
        },
{
    let h = chars_of(header);
    let prefix = chars_of("bytes=");
    if !starts_with_exec(&h, &prefix) {
        return None;
    }
    proof {
        reveal_strlit("bytes=");
    }
    let n = h.len();
    let range = slice(&h, 6, n);
    assert(range@ == range_body(h@));
    let dash = vec!['-'];
    assert(dash@ =~= seq!['-']);
    if starts_with_exec(&range, &dash) {
        let m = range.len();
        let suffix = slice(&range, 1, m);
        assert(suffix@ =~= range@.drop_first());
        let suffix_len = match parse_unsigned_exec(&suffix, 10, u64::MAX) {
            Some(v) => v,
            None => {
                return None;
            },
        };
        let start = total.saturating_sub(suffix_len);
        return Some((start, total - 1));
    }
    let m = range.len();
    let (first, second) = match find_from_exec(&range, &dash, 0) {
        Some(d) => {
            proof {
                lemma_find_from_bounds(range@, dash@, 0);
            }
            (slice(&range, 0, d), Some(slice(&range, d + 1, m)))
        },
        None => (range.clone(), None),
    };
    assert(first@ == range_first(range@));
    let start = match parse_unsigned_exec(&first, 10, u64::MAX) {
        Some(v) => v,
        None => {
            return None;
        },
    };
    let end = match second {
        Some(s) => {
            if s.len() > 0 {
                match parse_unsigned_exec(&s, 10, u64::MAX) {
                    Some(v) => v,
                    None => {
                        return None;
                    },
                }
            } else {
                total - 1
            }
        },
        None => total - 1,
    };
    if start > end || start >= total {
        return None;
    }
    let last = total - 1;
    Some((start, if end < last { end } else { last }))
}

/// The MIME type for a lower-case file extension.
pub open spec fn mime_for_extension(ext: Seq<char>) -> Seq<char> {
    if ext == "mkv"@ {
        "video/x-matroska"@
    } else if ext == "mp4"@ || ext == "m4v"@ {
        "video/mp4"@
    } else if ext == "avi"@ {
        "video/x-msvideo"@
    } else if ext == "webm"@ {
        "video/webm"@
    } else if ext == "ts"@ {
        "video/mp2t"@
    } else if ext == "flv"@ {
        "video/x-flv"@
    } else if ext == "wmv"@ {
        "video/x-ms-wmv"@
    } else if ext == "mov"@ {
        "video/quicktime"@
    } else if ext == "ass"@ || ext == "ssa"@ {
        "text/x-ssa"@
    } else if ext == "srt"@ {
        "text/plain"@
    } else {
        "application/octet-stream"@
    }
}

/// The last `.`-separated segment of a file name (all of it when it has
/// no `.`).
pub open spec fn last_segment(name: Seq<char>) -> Seq<char> {
    match rfind(name, seq!['.']) {
        Some(i) => name.subrange(i + 1, name.len() as int),
        None => name,
    }
}

fn mime_for_extension_exec(ext: &Vec<char>) -> (r: &'static str)
    ensures
        r@ == mime_for_extension(ext@),
{
    if chars_eq(ext, &chars_of("mkv")) {
        "video/x-matroska"
    } else if chars_eq(ext, &chars_of("mp4")) || chars_eq(ext, &chars_of("m4v")) {
        "video/mp4"
    } else if chars_eq(ext, &chars_of("avi")) {
        "video/x-msvideo"
    } else if chars_eq(ext, &chars_of("webm")) {
        "video/webm"
    } else if chars_eq(ext, &chars_of("ts")) {
        "video/mp2t"
    } else if chars_eq(ext, &chars_of("flv")) {
        "video/x-flv"
    } else if chars_eq(ext, &chars_of("wmv")) {
        "video/x-ms-wmv"
    } else if chars_eq(ext, &chars_of("mov")) {
        "video/quicktime"
    } else if chars_eq(ext, &chars_of("ass")) || chars_eq(ext, &chars_of("ssa")) {
        "text/x-ssa"
    } else if chars_eq(ext, &chars_of("srt")) {
        "text/plain"
    } else {
        "application/octet-stream"
    }
}

/// Guess the MIME type of a file from the extension of its name.
pub fn content_type_for(file_name: &str) -> (r: &'static str)
    ensures
        r@ == mime_for_extension(std_to_lowercase(last_segment(file_name@))),
{
    let name = chars_of(file_name);
    let dot = vec!['.'];
    assert(dot@ =~= seq!['.']);
    let seg = match rfind_exec(&name, &dot) {
        Some(i) => {
            proof {
                lemma_rfind_bounds(name@, dot@);
            }
            let n = name.len();
            slice(&name, i + 1, n)
        },
        None => name.clone(),
    };
    assert(seg@ == last_segment(file_name@));
    let lower = to_lowercase(string_of(&seg).as_str());
    mime_for_extension_exec(&chars_of(lower.as_str()))
}

/// How a stream request is answered.
#[derive(Debug)]
pub enum StreamPlan {
    /// `206 Partial Content`: the inclusive byte range, its length, and the
    /// `Content-Range` value.
    Partial { start: u64, end: u64, len: u64, content_range: String },
    /// `200 OK`: the whole file, of this length.
    Full { len: u64 },
}

/// `bytes {start}-{end}/{total}`.
pub open spec fn content_range_spec(start: int, end: int, total: int) -> Seq<char> {
    "bytes "@ + decimal(start as nat) + seq!['-'] + decimal(end as nat) + seq!['/'] + decimal(
        total as nat,
    )
}

/// How a request for a file of `total` bytes is answered, from its `Range`
/// header (if any): the range that the header gives, else the whole file.
pub fn stream_plan(range: Option<&str>, total: u64) -> (r: StreamPlan)
    requires
        range matches Some(h) ==> total > 0 || !range_uses_last_index(h@),
        range matches Some(h) ==> !empty_suffix_request(h@),
    ensures
        match range {
            Some(h) => match parse_range_spec(h@, total as int) {
                Some((a, b)) => r matches StreamPlan::Partial { start, end, len, content_range }
                    && start == a && end == b && len == b - a + 1
                    && content_range@ == content_range_spec(a, b, total as int),
                None => r == StreamPlan::Full { len: total },
            },
            None => r == StreamPlan::Full { len: total },
        },
{
    match range {
        Some(h) => match parse_range(h, total) {
            Some((start, end)) => {
                proof {
                    if total > 0 {
                        law_range_inside_file(h@, total as int);
                    }
                }
                let mut v = chars_of("bytes ");
                push_all(&mut v, &decimal_exec(start));
                v.push('-');
                push_all(&mut v, &decimal_exec(end));
                v.push('/');
                push_all(&mut v, &decimal_exec(total));
                assert(v@ =~= content_range_spec(start as int, end as int, total as int));
                StreamPlan::Partial { start, end, len: end - start + 1, content_range: string_of(&v) }
            },
            None => StreamPlan::Full { len: total },
        },
        None => StreamPlan::Full { len: total },
    }
}

/// The stream address of a file of a torrent on the local server.
pub fn stream_url(port: u16, torrent_id: usize, file_id: usize) -> (r: String)
    ensures
        r@ == "http://127.0.0.1:"@ + decimal(port as nat) + "/stream/"@ + decimal(torrent_id as nat)
            + seq!['/'] + decimal(file_id as nat),
{
    let mut v = chars_of("http://127.0.0.1:");
    push_all(&mut v, &decimal_exec(port as u64));
    push_all(&mut v, &chars_of("/stream/"));
    push_all(&mut v, &decimal_exec(torrent_id as u64));
    v.push('/');
    push_all(&mut v, &decimal_exec(file_id as u64));
    assert(v@ =~= "http://127.0.0.1:"@ + decimal(port as nat) + "/stream/"@ + decimal(torrent_id as nat)
        + seq!['/'] + decimal(file_id as nat));
    string_of(&v)
}

/// A file of a torrent.
#[derive(Debug, Clone)]
pub struct TorrentFileInfo {
    pub index: usize,
    pub path: String,
    pub length: u64,
}

} // verus!
