//! Extraction of values from HTML and RSS text by plain scanning: the text
//! of the first `<tag>` element, the value of the first `attr="..."`, the
//! first `[group]` of a title, a CDATA wrapper, and query-string escaping.
use vstd::prelude::*;
use crate::text::{
    find_from, find_from_exec, lemma_find_from_bounds, slice, push_all, trim,
    trim_exec, starts_with, starts_with_exec, ends_with, ends_with_exec, matches_at,
};
use crate::numfmt::{digit_char, digit_char_exec, utf8_encode_char, digit_value, is_digit_in, lemma_digit_char_value};
use vstd::utf8::{encode_utf8, decode_utf8, encode_scalar, encode_utf8_decode_utf8};

verus! {

/// The opening tag `<tag>`.
pub open spec fn open_tag(tag: Seq<char>) -> Seq<char> {
    seq!['<'] + tag + seq!['>']
}

/// The closing tag `</tag>`.
pub open spec fn close_tag(tag: Seq<char>) -> Seq<char> {
    seq!['<', '/'] + tag + seq!['>']
}

/// The trimmed text between the first `open` and the first `close` after it.
pub open spec fn text_between(x: Seq<char>, open: Seq<char>, close: Seq<char>) -> Option<Seq<char>> {
    match find_from(x, open, 0) {
        None => None,
        Some(p) => {
            let st = p + open.len();
            match find_from(x, close, st) {
                None => None,
                Some(e) => Some(trim(x.subrange(st, e))),
            }
        },
    }
}

/// The trimmed text content of the first `<tag>...</tag>` in `x`.
pub open spec fn xml_text(x: Seq<char>, tag: Seq<char>) -> Option<Seq<char>> {
    text_between(x, open_tag(tag), close_tag(tag))
}

pub fn text_between_exec(x: &Vec<char>, open: &Vec<char>, close: &Vec<char>) -> (r: Option<Vec<char>>)
    ensures
        r matches Some(t) ==> text_between(x@, open@, close@) == Some(t@),
        r is None ==> text_between(x@, open@, close@) is None,
{
    match find_from_exec(x, open, 0) {
        None => None,
        Some(p) => {
            proof {
                lemma_find_from_bounds(x@, open@, 0);
            }
            let len = x.len();
            assert(p + open@.len() <= len);
            let st = p + open.len();
            match find_from_exec(x, close, st) {
                None => None,
                Some(e) => {
                    proof {
                        lemma_find_from_bounds(x@, close@, st as int);
                    }
                    let inner = slice(x, st, e);
                    Some(trim_exec(&inner))
                },
            }
        },
    }
}

pub fn open_tag_exec(tag: &Vec<char>) -> (r: Vec<char>)
    ensures
        r@ == open_tag(tag@),
{
    let mut r: Vec<char> = Vec::new();
    r.push('<');
    push_all(&mut r, tag);
    r.push('>');
    assert(r@ =~= open_tag(tag@));
    r
}

pub fn close_tag_exec(tag: &Vec<char>) -> (r: Vec<char>)
    ensures
        r@ == close_tag(tag@),
{
    let mut r: Vec<char> = Vec::new();
    r.push('<');
    r.push('/');
    push_all(&mut r, tag);
    r.push('>');
    assert(r@ =~= close_tag(tag@));
    r
}

/// The trimmed text of the first `<tag>...</tag>`.
pub fn xml_text_exec(x: &Vec<char>, tag: &Vec<char>) -> (r: Option<Vec<char>>)
    ensures
        r matches Some(t) ==> xml_text(x@, tag@) == Some(t@),
        r is None ==> xml_text(x@, tag@) is None,
{
    let o = open_tag_exec(tag);
    let c = close_tag_exec(tag);
    text_between_exec(x, &o, &c)
}

/// The text up to the first `quote` after `attr` followed by `=` and `quote`.
pub open spec fn quoted_attr(h: Seq<char>, attr: Seq<char>, quote: char) -> Option<(int, int)> {
    let pat = attr + seq!['=', quote];
    match find_from(h, pat, 0) {
        None => None,
        Some(p) => {
            let st = p + pat.len();
            match find_from(h, seq![quote], st) {
                Some(e) => Some((st, e)),
                None => None,
            }
        },
    }
}

/// Where the value of the first `attr="..."` in `h` lies.
pub open spec fn attr_dq_range(h: Seq<char>, attr: Seq<char>) -> Option<(int, int)> {
    quoted_attr(h, attr, '"')
}

/// Where the value of the first `attr="..."` lies, or, when there is no
/// `attr="`, of the first `attr='...'`.
pub open spec fn attr_range(h: Seq<char>, attr: Seq<char>) -> Option<(int, int)> {
    if find_from(h, attr + seq!['=', '"'], 0) is Some {
        quoted_attr(h, attr, '"')
    } else {
        quoted_attr(h, attr, '\'')
    }
}

/// The text of a range of `h`.
pub open spec fn range_text(h: Seq<char>, r: Option<(int, int)>) -> Option<Seq<char>> {
    match r {
        Some((a, b)) => Some(h.subrange(a, b)),
        None => None,
    }
}

fn find_attr_pattern(h: &Vec<char>, attr: &Vec<char>, quote: char) -> (r: Option<usize>)
    ensures
        r matches Some(p) ==> find_from(h@, attr@ + seq!['=', quote], 0) == Some(p as int),
        r is None ==> find_from(h@, attr@ + seq!['=', quote], 0) is None,
{
    let mut pat = attr.clone();
    assert(pat@ =~= attr@);
    pat.push('=');
    pat.push(quote);
    assert(pat@ =~= attr@ + seq!['=', quote]);
    find_from_exec(h, &pat, 0)
}

pub fn quoted_attr_exec(h: &Vec<char>, attr: &Vec<char>, quote: char) -> (r: Option<(usize, usize)>)
    ensures
        r matches Some((a, b)) ==> quoted_attr(h@, attr@, quote) == Some((a as int, b as int))
            && a <= b <= h@.len(),
        r is None ==> quoted_attr(h@, attr@, quote) is None,
{
    match find_attr_pattern(h, attr, quote) {
        None => None,
        Some(p) => {
            proof {
                lemma_find_from_bounds(h@, attr@ + seq!['=', quote], 0);
            }
            let len = h.len();
            assert(p + attr@.len() + 2 <= len);
            let st = p + attr.len() + 2;
            let q = vec![quote];
            assert(q@ =~= seq![quote]);
            match find_from_exec(h, &q, st) {
                Some(e) => {
                    proof {
                        lemma_find_from_bounds(h@, seq![quote], st as int);
                    }
                    Some((st, e))
                },
                None => None,
            }
        },
    }
}

/// Where the value of the first `attr="..."` lies.
pub fn attr_dq_range_exec(h: &Vec<char>, attr: &Vec<char>) -> (r: Option<(usize, usize)>)
    ensures
        r matches Some((a, b)) ==> attr_dq_range(h@, attr@) == Some((a as int, b as int))
            && a <= b <= h@.len(),
        r is None ==> attr_dq_range(h@, attr@) is None,
{
    quoted_attr_exec(h, attr, '"')
}

/// Where the value of the first `attr="..."`, or else `attr='...'`, lies.
pub fn attr_range_exec(h: &Vec<char>, attr: &Vec<char>) -> (r: Option<(usize, usize)>)
    ensures
        r matches Some((a, b)) ==> attr_range(h@, attr@) == Some((a as int, b as int))
            && a <= b <= h@.len(),
        r is None ==> attr_range(h@, attr@) is None,
{
    if find_attr_pattern(h, attr, '"').is_some() {
        quoted_attr_exec(h, attr, '"')
    } else {
        quoted_attr_exec(h, attr, '\'')
    }
}

/// The text of an optional range.
pub fn range_text_exec(h: &Vec<char>, r: Option<(usize, usize)>) -> (t: Option<Vec<char>>)
    requires
        r matches Some((a, b)) ==> a <= b <= h@.len(),
    ensures
        t matches Some(v) ==> range_text(h@, opt_range(r)) == Some(v@),
        t is None ==> r is None,
{
    match r {
        Some((a, b)) => Some(slice(h, a, b)),
        None => None,
    }
}

pub open spec fn opt_range(r: Option<(usize, usize)>) -> Option<(int, int)> {
    match r {
        Some((a, b)) => Some((a as int, b as int)),
        None => None,
    }
}

/// The first `[group]` of a torrent title, or `Unknown` when the title
/// has no non-empty bracketed part starting at its first `[`.
pub open spec fn group_from_title(t: Seq<char>) -> Seq<char> {
    match find_from(t, seq!['['], 0) {
        Some(s) => match find_from(t, seq![']'], s) {
            Some(e) => if e > s + 1 {
                t.subrange(s + 1, e)
            } else {
                unknown_group()
            },
            None => unknown_group(),
        },
        None => unknown_group(),
    }
}

/// The release group of a title is the text inside its first brackets:
/// for a title `p[g]rest` whose part `p` has no `[` and whose non-empty `g`
/// has no `]`, it is `g`; a title without `[` has the unknown group.
pub proof fn law_group_is_first_bracketed(p: Seq<char>, g: Seq<char>, rest: Seq<char>)
    requires
        forall|i: int| 0 <= i < p.len() ==> p[i] != '[',
        forall|i: int| 0 <= i < g.len() ==> g[i] != ']',
        g.len() > 0,
    ensures
        group_from_title(p + seq!['['] + g + seq![']'] + rest) == g,
        (forall|i: int| 0 <= i < rest.len() ==> rest[i] != '[') ==> group_from_title(p + rest) == unknown_group(),
{
    let t = p + seq!['['] + g + seq![']'] + rest;
    let a = p.len() as int;
    let b = a + 1 + g.len();
    let ob = seq!['['];
    let cb = seq![']'];
    crate::text::lemma_find_from_props(t, ob, 0);
    assert(matches_at(t, ob, a)) by {
        assert(t.subrange(a, a + 1) =~= ob);
    }
    match find_from(t, ob, 0) {
        Some(i) => {
            if i < a {
                assert(t.subrange(i, i + 1)[0] == t[i]);
                assert(t[i] == p[i]);
            }
        },
        None => {},
    }
    crate::text::lemma_find_from_props(t, cb, a);
    assert(matches_at(t, cb, b)) by {
        assert(t.subrange(b, b + 1) =~= cb);
    }
    match find_from(t, cb, a) {
        Some(i) => {
            if i < b {
                assert(t.subrange(i, i + 1)[0] == t[i]);
                if i > a {
                    assert(t[i] == g[i - a - 1]);
                }
            }
        },
        None => {},
    }
    assert(t.subrange(a + 1, b) =~= g);
    let u = p + rest;
    crate::text::lemma_find_from_props(u, ob, 0);
    if forall|i: int| 0 <= i < rest.len() ==> rest[i] != '[' {
        match find_from(u, ob, 0) {
            Some(i) => {
                assert(u.subrange(i, i + 1)[0] == u[i]);
                if i < a {
                    assert(u[i] == p[i]);
                } else {
                    assert(u[i] == rest[i - a]);
                }
            },
            None => {},
        }
    }
}

/// The group name given to titles without one.
pub open spec fn unknown_group() -> Seq<char> {
    seq!['U', 'n', 'k', 'n', 'o', 'w', 'n']
}

pub fn group_from_title_exec(t: &Vec<char>) -> (r: Vec<char>)
    ensures
        r@ == group_from_title(t@),
{
    let ob = vec!['['];
    let cb = vec![']'];
    assert(ob@ =~= seq!['[']);
    assert(cb@ =~= seq![']']);
    let unknown = vec!['U', 'n', 'k', 'n', 'o', 'w', 'n'];
    assert(unknown@ =~= unknown_group());
    match find_from_exec(t, &ob, 0) {
        Some(s) => {
            proof {
                lemma_find_from_bounds(t@, ob@, 0);
            }
            match find_from_exec(t, &cb, s) {
                Some(e) => {
                    proof {
                        lemma_find_from_bounds(t@, cb@, s as int);
                    }
                    if e > s + 1 {
                        slice(t, s + 1, e)
                    } else {
                        unknown
                    }
                },
                None => unknown,
            }
        },
        None => unknown,
    }
}

/// The opening of a CDATA section.
pub open spec fn cdata_open() -> Seq<char> {
    seq!['<', '!', '[', 'C', 'D', 'A', 'T', 'A', '[']
}

/// The closing of a CDATA section.
pub open spec fn cdata_close() -> Seq<char> {
    seq![']', ']', '>']
}

/// `s` trimmed, and, when it is wrapped in `<![CDATA[` and `]]>`, the
/// trimmed inside of the wrapper.
pub open spec fn strip_cdata(s: Seq<char>) -> Seq<char> {
    let t = trim(s);
    if starts_with(t, cdata_open()) {
        let inner = t.subrange(9, t.len() as int);
        if ends_with(inner, cdata_close()) {
            trim(inner.subrange(0, inner.len() - 3))
        } else {
            t
        }
    } else {
        t
    }
}

pub fn strip_cdata_exec(s: &Vec<char>) -> (r: Vec<char>)
    ensures
        r@ == strip_cdata(s@),
{
    let t = trim_exec(s);
    let open = vec!['<', '!', '[', 'C', 'D', 'A', 'T', 'A', '['];
    let close = vec![']', ']', '>'];
    assert(open@ =~= cdata_open());
    assert(close@ =~= cdata_close());
    if starts_with_exec(&t, &open) {
        let n = t.len();
        let inner = slice(&t, 9, n);
        if ends_with_exec(&inner, &close) {
            let m = inner.len();
            let core = slice(&inner, 0, m - 3);
            trim_exec(&core)
        } else {
            t
        }
    } else {
        t
    }
}

/// Characters that a query value keeps as they are.
pub open spec fn is_unreserved(c: char) -> bool {
    ('A' <= c <= 'Z') || ('a' <= c <= 'z') || ('0' <= c <= '9') || c == '-' || c == '_' || c
        == '.' || c == '~'
}

/// `%HH` for each byte, upper-case hexadecimal.
pub open spec fn percent_bytes(b: Seq<u8>) -> Seq<char>
    decreases b.len(),
{
    if b.len() == 0 {
        seq![]
    } else {
        percent_bytes(b.drop_last()) + seq![
            '%',
            digit_char((b.last() / 16) as int),
            digit_char((b.last() % 16) as int),
        ]
    }
}

/// How one character is written in a query value.
pub open spec fn url_encode_char(c: char) -> Seq<char> {
    if is_unreserved(c) {
        seq![c]
    } else if c == ' ' {
        seq!['+']
    } else {
        percent_bytes(vstd::utf8::encode_utf8(seq![c]))
    }
}

/// `s` written as a query value: unreserved characters kept, spaces as `+`,
/// every other character as the `%HH` escapes of its UTF-8 bytes.
pub open spec fn url_encode(s: Seq<char>) -> Seq<char>
    decreases s.len(),
{
    if s.len() == 0 {
        seq![]
    } else {
        url_encode(s.drop_last()) + url_encode_char(s.last())
    }
}

/// A character that a query value may hold as it is: an unreserved one,
/// `+` (a space) or `%` (an escape).
pub open spec fn query_safe(c: char) -> bool {
    is_unreserved(c) || c == '+' || c == '%'
}

proof fn lemma_percent_bytes_safe(b: Seq<u8>)
    ensures
        forall|i: int| 0 <= i < percent_bytes(b).len() ==> query_safe(#[trigger] percent_bytes(b)[i]),
    decreases b.len(),
{
    if b.len() > 0 {
        lemma_percent_bytes_safe(b.drop_last());
        let p = percent_bytes(b.drop_last());
        let t = seq!['%', digit_char((b.last() / 16) as int), digit_char((b.last() % 16) as int)];
        assert forall|i: int| 0 <= i < (p + t).len() implies query_safe(#[trigger] (p + t)[i]) by {
            if i >= p.len() {
                assert((p + t)[i] == t[i - p.len()]);
            } else {
                assert((p + t)[i] == p[i]);
            }
        }
    }
}

/// An upper-case hexadecimal digit.
pub open spec fn is_upper_hex(c: char) -> bool {
    ('0' <= c <= '9') || ('A' <= c <= 'F')
}

/// Every `%` in `t` is followed by two upper-case hexadecimal digits.
pub open spec fn well_escaped(t: Seq<char>) -> bool {
    forall|i: int| 0 <= i < t.len() && #[trigger] t[i] == '%' ==> i + 2 < t.len() && is_upper_hex(t[i + 1])
        && is_upper_hex(t[i + 2])
}

proof fn lemma_well_escaped_concat(a: Seq<char>, b: Seq<char>)
    requires
        well_escaped(a),
        well_escaped(b),
    ensures
        well_escaped(a + b),
{
    let t = a + b;
    assert forall|i: int| 0 <= i < t.len() && #[trigger] t[i] == '%' implies i + 2 < t.len() && is_upper_hex(t[i + 1])
        && is_upper_hex(t[i + 2]) by {
        if i < a.len() {
            assert(t[i] == a[i]);
            assert(t[i + 1] == a[i + 1]);
            assert(t[i + 2] == a[i + 2]);
        } else {
            assert(t[i] == b[i - a.len()]);
            assert(t[i + 1] == b[i + 1 - a.len()]);
            assert(t[i + 2] == b[i + 2 - a.len()]);
        }
    }
}

proof fn lemma_percent_bytes_escaped(b: Seq<u8>)
    ensures
        well_escaped(percent_bytes(b)),
    decreases b.len(),
{
    if b.len() > 0 {
        lemma_percent_bytes_escaped(b.drop_last());
        let hi = (b.last() / 16) as int;
        let lo = (b.last() % 16) as int;
        let t = seq!['%', digit_char(hi), digit_char(lo)];
        assert(is_upper_hex(digit_char(hi)) && digit_char(hi) != '%');
        assert(is_upper_hex(digit_char(lo)) && digit_char(lo) != '%');
        assert forall|i: int| 0 <= i < t.len() && #[trigger] t[i] == '%' implies i + 2 < t.len() && is_upper_hex(t[i + 1])
            && is_upper_hex(t[i + 2]) by {
            assert(i == 0);
        }
        lemma_well_escaped_concat(percent_bytes(b.drop_last()), t);
    }
}

/// Every `%` of an encoded query value starts a complete escape: two
/// upper-case hexadecimal digits follow it.
pub proof fn law_url_escapes_are_complete(s: Seq<char>)
    ensures
        well_escaped(url_encode(s)),
    decreases s.len(),
{
    if s.len() > 0 {
        law_url_escapes_are_complete(s.drop_last());
        let c = s.last();
        if is_unreserved(c) || c == ' ' {
            assert(well_escaped(url_encode_char(c)));
        } else {
            lemma_percent_bytes_escaped(vstd::utf8::encode_utf8(seq![c]));
        }
        lemma_well_escaped_concat(url_encode(s.drop_last()), url_encode_char(c));
    } else {
        assert(url_encode(s) =~= Seq::<char>::empty());
    }
}

/// An encoded query value holds only unreserved characters, `+` and `%`,
/// so it cannot end the value or the query it stands in.
pub proof fn law_url_encoding_is_query_safe(s: Seq<char>)
    ensures
        forall|i: int| 0 <= i < url_encode(s).len() ==> query_safe(#[trigger] url_encode(s)[i]),
    decreases s.len(),
{
    if s.len() > 0 {
        law_url_encoding_is_query_safe(s.drop_last());
        let p = url_encode(s.drop_last());
        let t = url_encode_char(s.last());
        lemma_percent_bytes_safe(vstd::utf8::encode_utf8(seq![s.last()]));
        assert forall|i: int| 0 <= i < (p + t).len() implies query_safe(#[trigger] (p + t)[i]) by {
            if i >= p.len() {
                assert((p + t)[i] == t[i - p.len()]);
            } else {
                assert((p + t)[i] == p[i]);
            }
        }
    }
}

/// The bytes that form decoding reads from a query value: `+` is a space,
/// `%` with two hexadecimal digits is the byte they spell, and any other
/// character is its own UTF-8 encoding.
pub open spec fn form_bytes(t: Seq<char>) -> Seq<u8>
    decreases t.len(),
{
    if t.len() == 0 {
        seq![]
    } else if t[0] == '+' {
        seq![0x20u8] + form_bytes(t.drop_first())
    } else if t[0] == '%' && t.len() >= 3 && is_digit_in(t[1], 16) && is_digit_in(t[2], 16) {
        seq![(digit_value(t[1]) * 16 + digit_value(t[2])) as u8] + form_bytes(t.subrange(3, t.len() as int))
    } else {
        encode_utf8(seq![t[0]]) + form_bytes(t.drop_first())
    }
}

/// The text that form decoding gives back: the UTF-8 text of its bytes.
pub open spec fn form_decode(t: Seq<char>) -> Seq<char> {
    decode_utf8(form_bytes(t))
}

proof fn lemma_percent_bytes_concat(b1: Seq<u8>, b2: Seq<u8>)
    ensures
        percent_bytes(b1 + b2) == percent_bytes(b1) + percent_bytes(b2),
    decreases b2.len(),
{
    if b2.len() == 0 {
        assert(b1 + b2 =~= b1);
        assert(percent_bytes(b1) + percent_bytes(b2) =~= percent_bytes(b1));
    } else {
        lemma_percent_bytes_concat(b1, b2.drop_last());
        assert((b1 + b2).drop_last() =~= b1 + b2.drop_last());
        assert(percent_bytes(b1 + b2) =~= percent_bytes(b1) + percent_bytes(b2));
    }
}

proof fn lemma_form_bytes_percent(b: Seq<u8>, rest: Seq<char>)
    ensures
        form_bytes(percent_bytes(b) + rest) == b + form_bytes(rest),
    decreases b.len(),
{
    if b.len() == 0 {
        assert(percent_bytes(b) + rest =~= rest);
        assert(b + form_bytes(rest) =~= form_bytes(rest));
    } else {
        let x = b[0];
        let hi = (x / 16) as int;
        let lo = (x % 16) as int;
        lemma_digit_char_value(hi);
        lemma_digit_char_value(lo);
        let head = seq!['%', digit_char(hi), digit_char(lo)];
        assert(percent_bytes(seq![x]) =~= head) by {
            let one = seq![x];
            assert(one.drop_last() =~= Seq::<u8>::empty());
            assert(one.last() == x);
            assert(percent_bytes(one.drop_last()) =~= Seq::<char>::empty());
            assert(percent_bytes(one) == percent_bytes(one.drop_last()) + seq![
                '%',
                digit_char((one.last() / 16) as int),
                digit_char((one.last() % 16) as int),
            ]);
        }
        assert(b =~= seq![x] + b.drop_first());
        lemma_percent_bytes_concat(seq![x], b.drop_first());
        lemma_form_bytes_percent(b.drop_first(), rest);
        let t = percent_bytes(b) + rest;
        assert(t =~= head + (percent_bytes(b.drop_first()) + rest));
        assert(t.subrange(3, t.len() as int) =~= percent_bytes(b.drop_first()) + rest);
        assert(hi * 16 + lo == x) by (nonlinear_arith)
            requires
                hi == x / 16,
                lo == x % 16,
        ;
        assert(form_bytes(t) =~= seq![x] + (b.drop_first() + form_bytes(rest)));
        assert(b + form_bytes(rest) =~= seq![x] + (b.drop_first() + form_bytes(rest)));
    }
}

proof fn lemma_url_encode_first(s: Seq<char>)
    requires
        s.len() > 0,
    ensures
        url_encode(s) == url_encode_char(s[0]) + url_encode(s.drop_first()),
    decreases s.len(),
{
    if s.len() == 1 {
        assert(s.drop_last() =~= Seq::<char>::empty());
        assert(s.drop_first() =~= Seq::<char>::empty());
        assert(url_encode(s) =~= url_encode_char(s[0]) + url_encode(s.drop_first()));
    } else {
        lemma_url_encode_first(s.drop_last());
        assert(s.drop_last().drop_first() =~= s.drop_first().drop_last());
        assert(s.drop_first().last() == s.last());
        assert(url_encode(s) =~= url_encode_char(s[0]) + url_encode(s.drop_first()));
    }
}

proof fn lemma_form_bytes_char(c: char, rest: Seq<char>)
    ensures
        form_bytes(url_encode_char(c) + rest) == encode_utf8(seq![c]) + form_bytes(rest),
{
    let t = url_encode_char(c) + rest;
    if is_unreserved(c) {
        assert(t[0] == c);
        assert(t.drop_first() =~= rest);
    } else if c == ' ' {
        assert(t[0] == '+');
        assert(t.drop_first() =~= rest);
        let v: u32 = c as u32;
        assert(v == 32);
        assert((v & 0x7F) as u8 == 32u8) by (bit_vector)
            requires
                v == 32,
        ;
        assert(encode_utf8(seq![c]) =~= encode_scalar(v) + encode_utf8(seq![c].drop_first()));
        assert(encode_utf8(seq![c]) =~= seq![0x20u8]);
    } else {
        lemma_form_bytes_percent(encode_utf8(seq![c]), rest);
    }
}

proof fn lemma_form_bytes_url_encode(s: Seq<char>)
    ensures
        form_bytes(url_encode(s)) == encode_utf8(s),
    decreases s.len(),
{
    if s.len() == 0 {
        assert(url_encode(s) =~= Seq::<char>::empty());
    } else {
        lemma_url_encode_first(s);
        lemma_form_bytes_url_encode(s.drop_first());
        lemma_form_bytes_char(s[0], url_encode(s.drop_first()));
        assert(encode_utf8(seq![s[0]]) =~= encode_scalar(s[0] as u32) + encode_utf8(seq![s[0]].drop_first()));
        assert(seq![s[0]].drop_first() =~= Seq::<char>::empty());
        assert(encode_utf8(s) =~= encode_utf8(seq![s[0]]) + encode_utf8(s.drop_first()));
    }
}

/// Form decoding an encoded query value gives back the text.
pub proof fn law_url_encoding_decodes_back(s: Seq<char>)
    ensures
        form_decode(url_encode(s)) == s,
{
    lemma_form_bytes_url_encode(s);
    encode_utf8_decode_utf8(s);
}

fn percent_bytes_exec(b: &Vec<u8>) -> (r: Vec<char>)
    ensures
        r@ == percent_bytes(b@),
{
    let mut r: Vec<char> = Vec::new();
    let mut i: usize = 0;
    assert(b@.subrange(0, 0) =~= Seq::<u8>::empty());
    while i < b.len()
        invariant
            i <= b@.len(),
            r@ == percent_bytes(b@.subrange(0, i as int)),
        decreases b@.len() - i,
    {
        let x = b[i];
        let ghost prev = r@;
        r.push('%');
        r.push(digit_char_exec((x / 16) as u64));
        r.push(digit_char_exec((x % 16) as u64));
        assert(b@.subrange(0, i + 1).drop_last() =~= b@.subrange(0, i as int));
        i = i + 1;
        assert(r@ =~= percent_bytes(b@.subrange(0, i as int)));
    }
    assert(b@.subrange(0, b@.len() as int) =~= b@);
    r
}

fn url_encode_char_exec(c: char) -> (r: Vec<char>)
    ensures
        r@ == url_encode_char(c),
{
    if ('A' <= c && c <= 'Z') || ('a' <= c && c <= 'z') || ('0' <= c && c <= '9') || c == '-'
        || c == '_' || c == '.' || c == '~' {
        let r = vec![c];
        assert(r@ =~= seq![c]);
        r
    } else if c == ' ' {
        let r = vec!['+'];
        assert(r@ =~= seq!['+']);
        r
    } else {
        let b = utf8_encode_char(c);
        percent_bytes_exec(&b)
    }
}

/// Escapes `s` for use as a query value.
pub fn url_encode_exec(s: &Vec<char>) -> (r: Vec<char>)
    ensures
        r@ == url_encode(s@),
{
    let mut r: Vec<char> = Vec::new();
    let mut i: usize = 0;
    assert(s@.subrange(0, 0) =~= Seq::<char>::empty());
    while i < s.len()
        invariant
            i <= s@.len(),
            r@ == url_encode(s@.subrange(0, i as int)),
        decreases s@.len() - i,
    {
        let e = url_encode_char_exec(s[i]);
        push_all(&mut r, &e);
        assert(s@.subrange(0, i + 1).drop_last() =~= s@.subrange(0, i as int));
        i = i + 1;
    }
    assert(s@.subrange(0, s@.len() as int) =~= s@);
    r
}

/// The opening of a feed item.
pub open spec fn item_open() -> Seq<char> {
    seq!['<', 'i', 't', 'e', 'm', '>']
}

/// The closing of a feed item.
pub open spec fn item_close() -> Seq<char> {
    seq!['<', '/', 'i', 't', 'e', 'm', '>']
}

/// Where the feed item that starts at `s0` ends: just after the next
/// `</item>`, or at the end of the text.
pub open spec fn feed_item_end(x: Seq<char>, s0: int) -> int {
    match find_from(x, item_close(), s0) {
        Some(i) => i + 7,
        None => x.len() as int,
    }
}

/// The texts of the feed items from `pos` on: each runs from an `<item>` to
/// just after the next `</item>` (or to the end), and the next is searched
/// after it.
pub open spec fn item_texts_from(x: Seq<char>, pos: int) -> Seq<Seq<char>>
    decreases x.len() - pos,
{
    if pos < 0 {
        seq![]
    } else {
        match find_from(x, item_open(), pos) {
            None => seq![],
            Some(s0) => {
                let ie = feed_item_end(x, s0);
                if ie <= pos || ie > x.len() {
                    seq![]
                } else {
                    seq![x.subrange(s0, ie)] + item_texts_from(x, ie)
                }
            },
        }
    }
}

/// The texts of the items of an RSS feed.
pub open spec fn item_texts(x: Seq<char>) -> Seq<Seq<char>> {
    item_texts_from(x, 0)
}

pub open spec fn texts_view(v: Seq<Vec<char>>) -> Seq<Seq<char>> {
    v.map_values(|t: Vec<char>| t@)
}

/// Splits an RSS feed into the texts of its items.
pub fn item_texts_exec(x: &Vec<char>) -> (r: Vec<Vec<char>>)
    ensures
        texts_view(r@) == item_texts(x@),
{
    let open = vec!['<', 'i', 't', 'e', 'm', '>'];
    let close = vec!['<', '/', 'i', 't', 'e', 'm', '>'];
    assert(open@ =~= item_open());
    assert(close@ =~= item_close());
    let mut out: Vec<Vec<char>> = Vec::new();
    let mut pos: usize = 0;
    assert(texts_view(out@) + item_texts(x@) =~= item_texts(x@));
    while pos <= x.len()
        invariant
            open@ == item_open(),
            close@ == item_close(),
            item_texts(x@) == texts_view(out@) + item_texts_from(x@, pos as int),
        decreases x@.len() + 1 - pos,
    {
        match find_from_exec(x, &open, pos) {
            None => {
                assert(texts_view(out@) + item_texts_from(x@, pos as int) =~= texts_view(out@));
                return out;
            },
            Some(s0) => {
                proof {
                    lemma_find_from_bounds(x@, open@, pos as int);
                }
                let n = x.len();
                let ie = match find_from_exec(x, &close, s0) {
                    Some(i) => {
                        proof {
                            lemma_find_from_bounds(x@, close@, s0 as int);
                        }
                        i + 7
                    },
                    None => n,
                };
                let item = slice(x, s0, ie);
                let ghost prev = texts_view(out@);
                out.push(item);
                assert(texts_view(out@) =~= prev.push(item@));
                assert(prev + item_texts_from(x@, pos as int) =~= texts_view(out@) + item_texts_from(
                    x@,
                    ie as int,
                ));
                pos = ie;
            },
        }
    }
    assert(item_texts_from(x@, pos as int) =~= Seq::<Seq<char>>::empty());
    assert(texts_view(out@) + Seq::<Seq<char>>::empty() =~= texts_view(out@));
    out
}

/// The results of `f` on the items for which it gives one, in order.
pub open spec fn filter_map_texts<V>(s: Seq<Seq<char>>, f: spec_fn(Seq<char>) -> Option<V>) -> Seq<V>
    decreases s.len(),
{
    if s.len() == 0 {
        seq![]
    } else {
        let rest = filter_map_texts(s.drop_last(), f);
        match f(s.last()) {
            Some(v) => rest.push(v),
            None => rest,
        }
    }
}

/// Every value kept from a list of texts is the value of one of the texts.
pub proof fn lemma_filter_map_texts_source<V>(s: Seq<Seq<char>>, f: spec_fn(Seq<char>) -> Option<V>)
    ensures
        forall|k: int|
            0 <= k < filter_map_texts(s, f).len() ==> exists|j: int|
                0 <= j < s.len() && f(#[trigger] s[j]) == Some(#[trigger] filter_map_texts(s, f)[k]),
    decreases s.len(),
{
    if s.len() > 0 {
        let d = s.drop_last();
        lemma_filter_map_texts_source(d, f);
        let rest = filter_map_texts(d, f);
        let r = filter_map_texts(s, f);
        assert forall|k: int| 0 <= k < r.len() implies exists|j: int|
            0 <= j < s.len() && f(#[trigger] s[j]) == Some(#[trigger] r[k]) by {
            if k < rest.len() {
                assert(r[k] == rest[k]);
                let j = choose|j: int| 0 <= j < d.len() && f(#[trigger] d[j]) == Some(#[trigger] rest[k]);
                assert(s[j] == d[j]);
            } else {
                assert(f(s[s.len() - 1]) == Some(r[k]));
            }
        }
    }
}

/// The info hash in a magnet URI: what follows the first `btih:` up to the
/// next `&` or the end, or nothing when there is no `btih:`.
pub open spec fn info_hash_of(m: Seq<char>) -> Seq<char> {
    match find_from(m, seq!['b', 't', 'i', 'h', ':'], 0) {
        Some(st) => {
            let hs = st + 5;
            match find_from(m, seq!['&'], hs) {
                Some(e) => m.subrange(hs, e),
                None => m.subrange(hs, m.len() as int),
            }
        },
        None => seq![],
    }
}

pub fn info_hash_of_exec(m: &Vec<char>) -> (r: Vec<char>)
    ensures
        r@ == info_hash_of(m@),
{
    let pat = vec!['b', 't', 'i', 'h', ':'];
    let amp = vec!['&'];
    assert(pat@ =~= seq!['b', 't', 'i', 'h', ':']);
    assert(amp@ =~= seq!['&']);
    match find_from_exec(m, &pat, 0) {
        Some(st) => {
            proof {
                lemma_find_from_bounds(m@, pat@, 0);
            }
            let n = m.len();
            let hs = st + 5;
            match find_from_exec(m, &amp, hs) {
                Some(e) => {
                    proof {
                        lemma_find_from_bounds(m@, amp@, hs as int);
                    }
                    slice(m, hs, e)
                },
                None => slice(m, hs, n),
            }
        },
        None => Vec::new(),
    }
}

} // verus!
