//! Mikan: the search page, the bangumi page and the per-group RSS feed,
//! read with plain text scanning, and the magnet links and human-readable
//! sizes built from what they hold.
use vstd::prelude::*;
use crate::text::{
    chars_of, string_of, char_from_u32, slice, push_all, concat, chars_eq, find_from,
    find_from_exec, lemma_find_from_bounds, lemma_find_from_props, replace_all, replace_all_exec, trim, trim_exec,
    starts_with, starts_with_exec, ends_with, ends_with_exec, digits_end, digits_end_exec,
    rfind, rfind_exec, lemma_rfind_bounds, matches_at, contains, is_ascii_digit,
    lemma_digits_end_props, lemma_matches_at_contains, lemma_rfind_last, count_from,
    lemma_count_from_monotone,
};
use crate::numfmt::{parse_unsigned, parse_unsigned_exec, decimal, decimal_exec, digit_char, digit_char_exec};
use crate::torrent_provider::{
    TorrentSourceEntry, SubtitleGroup, TorrentEntry, SourceEntryView, GroupView, EntryView,
    source_entries_view, groups_view, entries_view, strings_view,
};

verus! {

/// The site root that relative links on Mikan pages refer to.
pub open spec fn mikan_base() -> Seq<char> {
    "https://mikanani.me"@
}

/// The six named entities that every decoder here resolves, each replaced
/// in turn over the whole text.
pub open spec fn basic_entities(s: Seq<char>) -> Seq<char> {
    let s1 = replace_all(s, seq!['&', 'a', 'm', 'p', ';'], seq!['&']);
    let s2 = replace_all(s1, seq!['&', 'l', 't', ';'], seq!['<']);
    let s3 = replace_all(s2, seq!['&', 'g', 't', ';'], seq!['>']);
    let s4 = replace_all(s3, seq!['&', 'q', 'u', 'o', 't', ';'], seq!['"']);
    let s5 = replace_all(s4, seq!['&', '#', 'x', '2', '7', ';'], seq!['\'']);
    replace_all(s5, seq!['&', '#', '3', '9', ';'], seq!['\''])
}

/// What a hexadecimal character reference with digits `hex` stands for:
/// the character, or nothing when the digits do not name a scalar value.
pub open spec fn hex_char(hex: Seq<char>) -> Seq<char> {
    match parse_unsigned(hex, 16, u32::MAX as int) {
        Some(v) => if vstd::utf8::is_scalar(v as u32) {
            seq![(v as u32) as char]
        } else {
            seq![]
        },
        None => seq![],
    }
}

/// `s` with each `&#x...;` reference replaced by its character; an `&#x`
/// without a closing `;` is kept as it is.
pub open spec fn decode_hex_refs(s: Seq<char>) -> Seq<char>
    decreases s.len(),
{
    match find_from(s, seq!['&', '#', 'x'], 0) {
        None => s,
        Some(p) => {
            proof {
                lemma_find_from_bounds(s, seq!['&', '#', 'x'], 0);
            }
            let after = s.subrange(p + 3, s.len() as int);
            match find_from(after, seq![';'], 0) {
                Some(semi) => {
                    proof {
                        lemma_find_from_bounds(after, seq![';'], 0);
                    }
                    s.subrange(0, p) + hex_char(after.subrange(0, semi)) + decode_hex_refs(
                        after.subrange(semi + 1, after.len() as int),
                    )
                },
                None => s.subrange(0, p) + seq!['&', '#', 'x'] + decode_hex_refs(after),
            }
        },
    }
}

/// Mikan's entity decoding: the named entities, then the hexadecimal
/// character references.
pub open spec fn decode_entities(s: Seq<char>) -> Seq<char> {
    decode_hex_refs(basic_entities(s))
}

proof fn lemma_replace_without_lead(s: Seq<char>, pat: Seq<char>, rep: Seq<char>)
    requires
        pat.len() > 0,
        !s.contains(pat[0]),
    ensures
        replace_all(s, pat, rep) == s,
    decreases s.len(),
{
    if s.len() >= pat.len() {
        assert(s.subrange(0, pat.len() as int)[0] == s[0]);
        assert(s[0] != pat[0]) by {
            if s[0] == pat[0] {
                assert(s.contains(pat[0]));
            }
        }
        let d = s.drop_first();
        assert(!d.contains(pat[0])) by {
            if d.contains(pat[0]) {
                let k = choose|k: int| 0 <= k < d.len() && d[k] == pat[0];
                assert(s[k + 1] == pat[0]);
            }
        }
        lemma_replace_without_lead(d, pat, rep);
        assert(seq![s[0]] + d =~= s);
    }
}

proof fn lemma_hex_refs_without_amp(s: Seq<char>)
    requires
        !s.contains('&'),
    ensures
        decode_hex_refs(s) == s,
{
    let pat = seq!['&', '#', 'x'];
    lemma_find_from_props(s, pat, 0);
    if find_from(s, pat, 0) is Some {
        let p = find_from(s, pat, 0)->Some_0;
        assert(s.subrange(p, p + 3)[0] == s[p]);
        assert(s.contains('&'));
    }
}

proof fn lemma_replace_not_longer(s: Seq<char>, pat: Seq<char>, rep: Seq<char>)
    requires
        pat.len() > 0,
        rep.len() <= pat.len(),
    ensures
        replace_all(s, pat, rep).len() <= s.len(),
    decreases s.len(),
{
    if s.len() >= pat.len() {
        if s.subrange(0, pat.len() as int) == pat {
            lemma_replace_not_longer(s.subrange(pat.len() as int, s.len() as int), pat, rep);
        } else {
            lemma_replace_not_longer(s.drop_first(), pat, rep);
        }
    }
}

proof fn lemma_hex_refs_not_longer(s: Seq<char>)
    ensures
        decode_hex_refs(s).len() <= s.len(),
    decreases s.len(),
{
    let pat = seq!['&', '#', 'x'];
    match find_from(s, pat, 0) {
        None => {},
        Some(p) => {
            lemma_find_from_bounds(s, pat, 0);
            let after = s.subrange(p + 3, s.len() as int);
            match find_from(after, seq![';'], 0) {
                Some(semi) => {
                    lemma_find_from_bounds(after, seq![';'], 0);
                    lemma_hex_refs_not_longer(after.subrange(semi + 1, after.len() as int));
                    assert(hex_char(after.subrange(0, semi)).len() <= 1);
                },
                None => {
                    lemma_hex_refs_not_longer(after);
                },
            }
        },
    }
}

/// Decoding entities never lengthens a text.
pub proof fn law_decoding_never_lengthens(s: Seq<char>)
    ensures
        basic_entities(s).len() <= s.len(),
        decode_entities(s).len() <= s.len(),
{
    let s1 = replace_all(s, seq!['&', 'a', 'm', 'p', ';'], seq!['&']);
    let s2 = replace_all(s1, seq!['&', 'l', 't', ';'], seq!['<']);
    let s3 = replace_all(s2, seq!['&', 'g', 't', ';'], seq!['>']);
    let s4 = replace_all(s3, seq!['&', 'q', 'u', 'o', 't', ';'], seq!['"']);
    let s5 = replace_all(s4, seq!['&', '#', 'x', '2', '7', ';'], seq!['\'']);
    lemma_replace_not_longer(s, seq!['&', 'a', 'm', 'p', ';'], seq!['&']);
    lemma_replace_not_longer(s1, seq!['&', 'l', 't', ';'], seq!['<']);
    lemma_replace_not_longer(s2, seq!['&', 'g', 't', ';'], seq!['>']);
    lemma_replace_not_longer(s3, seq!['&', 'q', 'u', 'o', 't', ';'], seq!['"']);
    lemma_replace_not_longer(s4, seq!['&', '#', 'x', '2', '7', ';'], seq!['\'']);
    lemma_replace_not_longer(s5, seq!['&', '#', '3', '9', ';'], seq!['\'']);
    lemma_hex_refs_not_longer(basic_entities(s));
}

/// Text without `&` holds no entity and decodes to itself.
pub proof fn law_plain_text_decodes_to_itself(s: Seq<char>)
    requires
        !s.contains('&'),
    ensures
        basic_entities(s) == s,
        decode_entities(s) == s,
{
    lemma_replace_without_lead(s, seq!['&', 'a', 'm', 'p', ';'], seq!['&']);
    lemma_replace_without_lead(s, seq!['&', 'l', 't', ';'], seq!['<']);
    lemma_replace_without_lead(s, seq!['&', 'g', 't', ';'], seq!['>']);
    lemma_replace_without_lead(s, seq!['&', 'q', 'u', 'o', 't', ';'], seq!['"']);
    lemma_replace_without_lead(s, seq!['&', '#', 'x', '2', '7', ';'], seq!['\'']);
    lemma_replace_without_lead(s, seq!['&', '#', '3', '9', ';'], seq!['\'']);
    lemma_hex_refs_without_amp(s);
}

pub fn basic_entities_exec(s: &Vec<char>) -> (r: Vec<char>)
    ensures
        r@ == basic_entities(s@),
{
    let p1 = vec!['&', 'a', 'm', 'p', ';'];
    let p2 = vec!['&', 'l', 't', ';'];
    let p3 = vec!['&', 'g', 't', ';'];
    let p4 = vec!['&', 'q', 'u', 'o', 't', ';'];
    let p5 = vec!['&', '#', 'x', '2', '7', ';'];
    let p6 = vec!['&', '#', '3', '9', ';'];
    let r1 = vec!['&'];
    let r2 = vec!['<'];
    let r3 = vec!['>'];
    let r4 = vec!['"'];
    let r5 = vec!['\''];
    assert(p1@ =~= seq!['&', 'a', 'm', 'p', ';']);
    assert(p2@ =~= seq!['&', 'l', 't', ';']);
    assert(p3@ =~= seq!['&', 'g', 't', ';']);
    assert(p4@ =~= seq!['&', 'q', 'u', 'o', 't', ';']);
    assert(p5@ =~= seq!['&', '#', 'x', '2', '7', ';']);
    assert(p6@ =~= seq!['&', '#', '3', '9', ';']);
    assert(r1@ =~= seq!['&']);
    assert(r2@ =~= seq!['<']);
    assert(r3@ =~= seq!['>']);
    assert(r4@ =~= seq!['"']);
    assert(r5@ =~= seq!['\'']);
    let s1 = replace_all_exec(s, &p1, &r1);
    let s2 = replace_all_exec(&s1, &p2, &r2);
    let s3 = replace_all_exec(&s2, &p3, &r3);
    let s4 = replace_all_exec(&s3, &p4, &r4);
    let s5 = replace_all_exec(&s4, &p5, &r5);
    replace_all_exec(&s5, &p6, &r5)
}

fn hex_char_exec(hex: &Vec<char>) -> (r: Vec<char>)
    ensures
        r@ == hex_char(hex@),
{
    let mut r: Vec<char> = Vec::new();
    match parse_unsigned_exec(hex, 16, 0xffff_ffff) {
        Some(v) => {
            match char_from_u32(v as u32) {
                Some(c) => {
                    proof {
                        vstd::utf8::char_u32_cast(c, v as u32);
                    }
                    r.push(c);
                },
                None => {},
            }
        },
        None => {},
    }
    assert(r@ =~= hex_char(hex@));
    r
}

fn decode_hex_refs_exec(s: &Vec<char>) -> (r: Vec<char>)
    ensures
        r@ == decode_hex_refs(s@),
{
    let mut r: Vec<char> = Vec::new();
    let mut rest = s.clone();
    let amp = vec!['&', '#', 'x'];
    let semi_pat = vec![';'];
    assert(amp@ =~= seq!['&', '#', 'x']);
    assert(semi_pat@ =~= seq![';']);
    assert(rest@ =~= s@);
    loop
        invariant
            amp@ == seq!['&', '#', 'x'],
            semi_pat@ == seq![';'],
            r@ + decode_hex_refs(rest@) == decode_hex_refs(s@),
        decreases rest@.len(),
    {
        match find_from_exec(&rest, &amp, 0) {
            None => {
                return concat(&r, &rest);
            },
            Some(p) => {
                proof {
                    lemma_find_from_bounds(rest@, amp@, 0);
                    assert(amp@.len() == 3);
                }
                let n = rest.len();
                let head = slice(&rest, 0, p);
                let after = slice(&rest, p + 3, n);
                let ghost r0 = r@;
                let ghost rest0 = rest@;
                match find_from_exec(&after, &semi_pat, 0) {
                    Some(semi) => {
                        proof {
                            lemma_find_from_bounds(after@, semi_pat@, 0);
                        }
                        let hex = slice(&after, 0, semi);
                        let ch = hex_char_exec(&hex);
                        push_all(&mut r, &head);
                        push_all(&mut r, &ch);
                        rest = slice(&after, semi + 1, after.len());
                        assert(r@ + decode_hex_refs(rest@) =~= r0 + decode_hex_refs(rest0));
                    },
                    None => {
                        push_all(&mut r, &head);
                        push_all(&mut r, &amp);
                        rest = after;
                        assert(r@ + decode_hex_refs(rest@) =~= r0 + decode_hex_refs(rest0));
                    },
                }
            },
        }
    }
}

/// Decodes the named entities and the hexadecimal character references.
pub fn decode_entities_exec(s: &Vec<char>) -> (r: Vec<char>)
    ensures
        r@ == decode_entities(s@),
{
    let b = basic_entities_exec(s);
    decode_hex_refs_exec(&b)
}

/// Decodes common HTML entities and `&#xHEX;` character references.
pub fn decode_html_entities(s: &str) -> (r: String)
    ensures
        r@ == decode_entities(s@),
{
    let v = chars_of(s);
    string_of(&decode_entities_exec(&v))
}

/// Extracts the value of an HTML attribute: the first `attr="value"`, or
/// when there is no `attr="`, the first `attr='value'`.
pub fn extract_attr_value<'a>(html: &'a str, attr: &str) -> (r: Option<&'a str>)
    ensures
        r matches Some(v) ==> crate::markup::range_text(html@, crate::markup::attr_range(html@, attr@))
            == Some(v@),
        r is None ==> crate::markup::attr_range(html@, attr@) is None,
{
    let h = chars_of(html);
    let a = chars_of(attr);
    match crate::markup::attr_range_exec(&h, &a) {
        Some((st, e)) => Some(html.substring_char(st, e)),
        None => None,
    }
}

/// Extracts the trimmed text between `<tag>` and `</tag>`.
pub fn extract_xml_text(xml: &str, tag: &str) -> (r: Option<String>)
    ensures
        r matches Some(v) ==> crate::markup::xml_text(xml@, tag@) == Some(v@),
        r is None ==> crate::markup::xml_text(xml@, tag@) is None,
{
    let x = chars_of(xml);
    let t = chars_of(tag);
    match crate::markup::xml_text_exec(&x, &t) {
        Some(v) => Some(string_of(&v)),
        None => None,
    }
}

/// The marker that precedes a bgm.tv subject ID on a bangumi page.
pub open spec fn bgm_marker() -> Seq<char> {
    "bgm.tv/subject/"@
}

/// The digits that follow the first `bgm.tv/subject/`, when there is at
/// least one.
pub open spec fn bgm_id_of(h: Seq<char>) -> Option<Seq<char>> {
    match find_from(h, bgm_marker(), 0) {
        None => None,
        Some(p) => {
            let st = p + bgm_marker().len();
            let e = digits_end(h, st);
            if e == st {
                None
            } else {
                Some(h.subrange(st, e))
            }
        },
    }
}

/// Extracts the bgm.tv subject ID from a Mikan bangumi detail page.
pub fn extract_bgm_id(html: &str) -> (r: Option<String>)
    ensures
        r matches Some(v) ==> bgm_id_of(html@) == Some(v@),
        r is None ==> bgm_id_of(html@) is None,
{
    let h = chars_of(html);
    let m = chars_of("bgm.tv/subject/");
    match find_from_exec(&h, &m, 0) {
        None => None,
        Some(p) => {
            proof {
                lemma_find_from_bounds(h@, m@, 0);
            }
            let len = h.len();
            assert(p + m@.len() <= len);
            let st = p + m.len();
            let e = digits_end_exec(&h, st);
            if e == st {
                None
            } else {
                Some(string_of(&slice(&h, st, e)))
            }
        },
    }
}

/// The marker that precedes a subtitle group ID on a bangumi page.
pub open spec fn subgroup_marker() -> Seq<char> {
    "subgroup-name subgroup-"@
}

/// Some group in `acc` has ID `id`.
pub open spec fn has_group_id(acc: Seq<GroupView>, id: Seq<char>) -> bool {
    exists|i: int| 0 <= i < acc.len() && (#[trigger] acc[i]).id == id
}

/// The subtitle groups found from `pos` on, appended to `acc`: each
/// `subgroup-name subgroup-ID` with a non-empty digit ID, named by the
/// decoded, trimmed text from the next `>` to the following `</a>`; a group
/// whose name is empty or whose ID is already listed is left out.
pub open spec fn groups_from(h: Seq<char>, pos: int, acc: Seq<GroupView>) -> Seq<GroupView>
    decreases h.len() - pos,
{
    if pos < 0 {
        acc
    } else {
        match find_from(h, subgroup_marker(), pos) {
            None => acc,
            Some(f) => {
                proof {
                    lemma_find_from_bounds(h, subgroup_marker(), pos);
                    reveal_strlit("subgroup-name subgroup-");
                }
                let abs = f + subgroup_marker().len();
                let id_end = digits_end(h, abs);
                let id = h.subrange(abs, id_end);
                if id_end <= pos || id_end > h.len() {
                    acc
                } else if id.len() == 0 {
                    groups_from(h, id_end, acc)
                } else {
                    let next = match find_from(h, seq!['>'], id_end) {
                        Some(tc) => match find_from(h, seq!['<', '/', 'a', '>'], tc + 1) {
                            Some(ne) => {
                                let name = decode_entities(trim(h.subrange(tc + 1, ne)));
                                if name.len() > 0 && !has_group_id(acc, id) {
                                    acc.push(GroupView { id, name })
                                } else {
                                    acc
                                }
                            },
                            None => acc,
                        },
                        None => acc,
                    };
                    groups_from(h, id_end, next)
                }
            },
        }
    }
}

/// The subtitle groups listed on a Mikan bangumi page, in page order.
pub open spec fn subtitle_groups(h: Seq<char>) -> Seq<GroupView> {
    groups_from(h, 0, seq![])
}

/// No two groups share an ID.
pub open spec fn distinct_group_ids(s: Seq<GroupView>) -> bool {
    forall|i: int, j: int| 0 <= i < j < s.len() ==> s[i].id != s[j].id
}

proof fn lemma_groups_from_distinct(h: Seq<char>, pos: int, acc: Seq<GroupView>)
    requires
        distinct_group_ids(acc),
    ensures
        distinct_group_ids(groups_from(h, pos, acc)),
    decreases h.len() - pos,
{
    if pos >= 0 {
        match find_from(h, subgroup_marker(), pos) {
            None => {},
            Some(f) => {
                reveal_strlit("subgroup-name subgroup-");
                lemma_find_from_bounds(h, subgroup_marker(), pos);
                let abs = f + subgroup_marker().len();
                let id_end = digits_end(h, abs);
                let id = h.subrange(abs, id_end);
                if id_end <= pos || id_end > h.len() {
                } else if id.len() == 0 {
                    lemma_groups_from_distinct(h, id_end, acc);
                } else {
                    let next = match find_from(h, seq!['>'], id_end) {
                        Some(tc) => match find_from(h, seq!['<', '/', 'a', '>'], tc + 1) {
                            Some(ne) => {
                                let name = decode_entities(trim(h.subrange(tc + 1, ne)));
                                if name.len() > 0 && !has_group_id(acc, id) {
                                    acc.push(GroupView { id, name })
                                } else {
                                    acc
                                }
                            },
                            None => acc,
                        },
                        None => acc,
                    };
                    assert forall|i: int, j: int| 0 <= i < j < next.len() implies next[i].id != next[j].id by {
                        if next.len() > acc.len() {
                            assert(next[i] == acc[i]);
                            if j < acc.len() {
                                assert(next[j] == acc[j]);
                            } else if acc[i].id == id {
                                assert(has_group_id(acc, id));
                            }
                        }
                    }
                    lemma_groups_from_distinct(h, id_end, next);
                }
            },
        }
    }
}

/// A bangumi page lists each subtitle group once: no two share an ID.
pub proof fn law_subtitle_groups_distinct(h: Seq<char>)
    ensures
        distinct_group_ids(subtitle_groups(h)),
{
    lemma_groups_from_distinct(h, 0, seq![]);
}

/// The group marker with `g`'s ID stands at `f`, and `g`'s name is the
/// text from the next `>` after the ID to the following `</a>`, trimmed and
/// with all entities decoded.
pub open spec fn group_named_at(h: Seq<char>, f: int, g: GroupView) -> bool {
    &&& matches_at(h, subgroup_marker() + g.id, f)
    &&& match find_from(h, seq!['>'], f + subgroup_marker().len() + g.id.len()) {
        Some(tc) => match find_from(h, seq!['<', '/', 'a', '>'], tc + 1) {
            Some(ne) => g.name == decode_entities(trim(h.subrange(tc + 1, ne))),
            None => false,
        },
        None => false,
    }
}

/// A listed subtitle group: a non-empty run of ASCII digits as its ID, found
/// on the page right after the group marker, and a non-empty name read
/// after that marker.
pub open spec fn well_formed_group(h: Seq<char>, g: GroupView) -> bool {
    &&& g.id.len() > 0
    &&& forall|i: int| 0 <= i < g.id.len() ==> is_ascii_digit(#[trigger] g.id[i])
    &&& contains(h, subgroup_marker() + g.id)
    &&& g.name.len() > 0
    &&& exists|f: int| #[trigger] group_named_at(h, f, g)
}

/// Every group in `s` is well formed on page `h`.
pub open spec fn all_groups_well_formed(h: Seq<char>, s: Seq<GroupView>) -> bool {
    forall|i: int| 0 <= i < s.len() ==> well_formed_group(h, #[trigger] s[i])
}

proof fn lemma_groups_from_well_formed(h: Seq<char>, pos: int, acc: Seq<GroupView>)
    requires
        all_groups_well_formed(h, acc),
    ensures
        all_groups_well_formed(h, groups_from(h, pos, acc)),
    decreases h.len() - pos,
{
    if pos >= 0 {
        match find_from(h, subgroup_marker(), pos) {
            None => {},
            Some(f) => {
                reveal_strlit("subgroup-name subgroup-");
                lemma_find_from_bounds(h, subgroup_marker(), pos);
                let abs = f + subgroup_marker().len();
                let id_end = digits_end(h, abs);
                let id = h.subrange(abs, id_end);
                if id_end <= pos || id_end > h.len() {
                } else if id.len() == 0 {
                    lemma_groups_from_well_formed(h, id_end, acc);
                } else {
                    lemma_digits_end_props(h, abs);
                    let next = match find_from(h, seq!['>'], id_end) {
                        Some(tc) => match find_from(h, seq!['<', '/', 'a', '>'], tc + 1) {
                            Some(ne) => {
                                let name = decode_entities(trim(h.subrange(tc + 1, ne)));
                                if name.len() > 0 && !has_group_id(acc, id) {
                                    acc.push(GroupView { id, name })
                                } else {
                                    acc
                                }
                            },
                            None => acc,
                        },
                        None => acc,
                    };
                    if next.len() > acc.len() {
                        let v = next.last();
                        assert forall|i: int| 0 <= i < v.id.len() implies is_ascii_digit(#[trigger] v.id[i]) by {
                            assert(v.id[i] == h[abs + i]);
                        }
                        assert(h.subrange(f, id_end) =~= subgroup_marker() + id) by {
                            assert(h.subrange(f, id_end) =~= h.subrange(f, abs) + h.subrange(abs, id_end));
                        }
                        lemma_matches_at_contains(h, subgroup_marker() + id, f);
                        assert(group_named_at(h, f, v));
                        assert forall|i: int| 0 <= i < next.len() implies well_formed_group(h, #[trigger] next[i]) by {
                            if i < acc.len() {
                                assert(next[i] == acc[i]);
                            }
                        }
                    }
                    lemma_groups_from_well_formed(h, id_end, next);
                }
            },
        }
    }
}

/// Every subtitle group read from a bangumi page is well formed: a digit
/// ID that follows the group marker on the page, and a non-empty name read
/// from the link text after that marker.
pub proof fn law_subtitle_groups_well_formed(h: Seq<char>)
    ensures
        all_groups_well_formed(h, subtitle_groups(h)),
{
    lemma_groups_from_well_formed(h, 0, seq![]);
}

/// Every group that the page offers from `pos` on, appended to `acc`, in
/// page order: each marker with a non-empty digit ID whose name text is
/// non-empty, repeated IDs included.
pub open spec fn group_candidates_from(h: Seq<char>, pos: int, acc: Seq<GroupView>) -> Seq<GroupView>
    decreases h.len() - pos,
{
    if pos < 0 {
        acc
    } else {
        match find_from(h, subgroup_marker(), pos) {
            None => acc,
            Some(f) => {
                proof {
                    lemma_find_from_bounds(h, subgroup_marker(), pos);
                    reveal_strlit("subgroup-name subgroup-");
                }
                let abs = f + subgroup_marker().len();
                let id_end = digits_end(h, abs);
                let id = h.subrange(abs, id_end);
                if id_end <= pos || id_end > h.len() {
                    acc
                } else if id.len() == 0 {
                    group_candidates_from(h, id_end, acc)
                } else {
                    let next = match find_from(h, seq!['>'], id_end) {
                        Some(tc) => match find_from(h, seq!['<', '/', 'a', '>'], tc + 1) {
                            Some(ne) => {
                                let name = decode_entities(trim(h.subrange(tc + 1, ne)));
                                if name.len() > 0 {
                                    acc.push(GroupView { id, name })
                                } else {
                                    acc
                                }
                            },
                            None => acc,
                        },
                        None => acc,
                    };
                    group_candidates_from(h, id_end, next)
                }
            },
        }
    }
}

/// The groups that a bangumi page offers, in page order, repeated IDs
/// included.
pub open spec fn group_candidates(h: Seq<char>) -> Seq<GroupView> {
    group_candidates_from(h, 0, seq![])
}

/// `c` with every group whose ID came earlier left out.
pub open spec fn first_of_each_id(c: Seq<GroupView>) -> Seq<GroupView>
    decreases c.len(),
{
    if c.len() == 0 {
        seq![]
    } else {
        let d = first_of_each_id(c.drop_last());
        if has_group_id(d, c.last().id) {
            d
        } else {
            d.push(c.last())
        }
    }
}

/// The index of the first group in `c` with ID `id`, or -1.
pub open spec fn first_index_of_id(c: Seq<GroupView>, id: Seq<char>) -> int
    decreases c.len(),
{
    if c.len() == 0 {
        -1
    } else {
        let f = first_index_of_id(c.drop_last(), id);
        if f >= 0 {
            f
        } else if c.last().id == id {
            c.len() - 1
        } else {
            -1
        }
    }
}

proof fn lemma_first_index_bounds(c: Seq<GroupView>, id: Seq<char>)
    ensures
        -1 <= first_index_of_id(c, id) < c.len(),
        first_index_of_id(c, id) >= 0 ==> c[first_index_of_id(c, id)].id == id,
        first_index_of_id(c, id) < 0 ==> forall|j: int| 0 <= j < c.len() ==> (#[trigger] c[j]).id != id,
    decreases c.len(),
{
    if c.len() > 0 {
        let d = c.drop_last();
        lemma_first_index_bounds(d, id);
        if first_index_of_id(d, id) >= 0 {
            assert(c[first_index_of_id(d, id)] == d[first_index_of_id(d, id)]);
        } else {
            assert forall|j: int| 0 <= j < c.len() - 1 implies (#[trigger] c[j]).id != id by {
                assert(c[j] == d[j]);
            }
        }
    }
}

/// What `first_of_each_id` keeps: each kept group is the first of its ID,
/// they come in the order of those first occurrences, and every ID is kept.
proof fn lemma_first_of_each_id(c: Seq<GroupView>)
    ensures
        forall|k: int| 0 <= k < first_of_each_id(c).len() ==> {
            let i = first_index_of_id(c, (#[trigger] first_of_each_id(c)[k]).id);
            0 <= i < c.len() && c[i] == first_of_each_id(c)[k]
        },
        forall|k1: int, k2: int|
            0 <= k1 < k2 < first_of_each_id(c).len() ==> first_index_of_id(c, (#[trigger] first_of_each_id(c)[k1]).id)
                < first_index_of_id(c, (#[trigger] first_of_each_id(c)[k2]).id),
        forall|j: int| 0 <= j < c.len() ==> has_group_id(first_of_each_id(c), (#[trigger] c[j]).id),
    decreases c.len(),
{
    if c.len() > 0 {
        let d = c.drop_last();
        let x = c.last();
        let rd = first_of_each_id(d);
        let r = first_of_each_id(c);
        lemma_first_of_each_id(d);
        lemma_first_index_bounds(d, x.id);
        assert forall|k: int| 0 <= k < rd.len() implies first_index_of_id(c, (#[trigger] rd[k]).id) == first_index_of_id(
            d,
            rd[k].id,
        ) && c[first_index_of_id(d, rd[k].id)] == d[first_index_of_id(d, rd[k].id)] by {
            lemma_first_index_bounds(d, rd[k].id);
        }
        if !has_group_id(rd, x.id) {
            assert(first_index_of_id(d, x.id) < 0) by {
                if first_index_of_id(d, x.id) >= 0 {
                    let j = first_index_of_id(d, x.id);
                    assert(has_group_id(rd, d[j].id));
                }
            }
            assert(first_index_of_id(c, x.id) == c.len() - 1);
        }
        assert forall|k: int| 0 <= k < r.len() implies {
            let i = first_index_of_id(c, (#[trigger] r[k]).id);
            0 <= i < c.len() && c[i] == r[k]
        } by {
            if k < rd.len() {
                assert(r[k] == rd[k]);
            }
        }
        assert forall|k1: int, k2: int|
            0 <= k1 < k2 < r.len() implies first_index_of_id(c, (#[trigger] r[k1]).id) < first_index_of_id(
                c,
                (#[trigger] r[k2]).id,
            ) by {
            assert(r[k1] == rd[k1]);
            if k2 < rd.len() {
                assert(r[k2] == rd[k2]);
            }
        }
        assert forall|j: int| 0 <= j < c.len() implies has_group_id(r, (#[trigger] c[j]).id) by {
            if j < d.len() {
                assert(c[j] == d[j]);
                assert(has_group_id(rd, d[j].id));
                let k = choose|k: int| 0 <= k < rd.len() && (#[trigger] rd[k]).id == d[j].id;
                assert(r[k] == rd[k]);
            } else if has_group_id(rd, x.id) {
                let k = choose|k: int| 0 <= k < rd.len() && (#[trigger] rd[k]).id == x.id;
                assert(r[k] == rd[k]);
            } else {
                assert(r[r.len() - 1] == x);
            }
        }
    }
}

proof fn lemma_groups_are_first_candidates(h: Seq<char>, pos: int, cacc: Seq<GroupView>)
    ensures
        groups_from(h, pos, first_of_each_id(cacc)) == first_of_each_id(group_candidates_from(h, pos, cacc)),
    decreases h.len() - pos,
{
    if pos >= 0 {
        match find_from(h, subgroup_marker(), pos) {
            None => {},
            Some(f) => {
                reveal_strlit("subgroup-name subgroup-");
                lemma_find_from_bounds(h, subgroup_marker(), pos);
                let abs = f + subgroup_marker().len();
                let id_end = digits_end(h, abs);
                let id = h.subrange(abs, id_end);
                if id_end <= pos || id_end > h.len() {
                } else if id.len() == 0 {
                    lemma_groups_are_first_candidates(h, id_end, cacc);
                } else {
                    let cnext = match find_from(h, seq!['>'], id_end) {
                        Some(tc) => match find_from(h, seq!['<', '/', 'a', '>'], tc + 1) {
                            Some(ne) => {
                                let name = decode_entities(trim(h.subrange(tc + 1, ne)));
                                if name.len() > 0 {
                                    cacc.push(GroupView { id, name })
                                } else {
                                    cacc
                                }
                            },
                            None => cacc,
                        },
                        None => cacc,
                    };
                    if cnext.len() > cacc.len() {
                        assert(cnext.drop_last() =~= cacc);
                    }
                    lemma_groups_are_first_candidates(h, id_end, cnext);
                }
            },
        }
    }
}

/// A bangumi page's subtitle groups are the groups it offers, in page order,
/// each ID kept once with the name of its first usable occurrence: every
/// listed group is the first offer of its ID, the groups come in the order of
/// those first offers, and every offered ID is listed.
pub proof fn law_subtitle_groups_first_in_page_order(h: Seq<char>)
    ensures
        subtitle_groups(h) == first_of_each_id(group_candidates(h)),
        forall|k: int| 0 <= k < subtitle_groups(h).len() ==> {
            let i = first_index_of_id(group_candidates(h), (#[trigger] subtitle_groups(h)[k]).id);
            0 <= i < group_candidates(h).len() && group_candidates(h)[i] == subtitle_groups(h)[k]
        },
        forall|k1: int, k2: int|
            0 <= k1 < k2 < subtitle_groups(h).len() ==> first_index_of_id(
                group_candidates(h),
                (#[trigger] subtitle_groups(h)[k1]).id,
            ) < first_index_of_id(group_candidates(h), (#[trigger] subtitle_groups(h)[k2]).id),
        forall|j: int|
            0 <= j < group_candidates(h).len() ==> has_group_id(subtitle_groups(h), (#[trigger] group_candidates(h)[j]).id),
{
    assert(first_of_each_id(Seq::<GroupView>::empty()) =~= Seq::<GroupView>::empty());
    lemma_groups_are_first_candidates(h, 0, seq![]);
    lemma_first_of_each_id(group_candidates(h));
}

/// Whether some ID in `ids` equals `id`.
pub fn contains_id(ids: &Vec<Vec<char>>, id: &Vec<char>) -> (r: bool)
    ensures
        r == exists|i: int| 0 <= i < ids@.len() && (#[trigger] ids@[i])@ == id@,
{
    let mut i: usize = 0;
    while i < ids.len()
        invariant
            i <= ids@.len(),
            forall|j: int| 0 <= j < i ==> (#[trigger] ids@[j])@ != id@,
        decreases ids@.len() - i,
    {
        if chars_eq(&ids[i], id) {
            return true;
        }
        i = i + 1;
    }
    false
}

/// Parses the subtitle group list of a Mikan bangumi page.
pub fn parse_subtitle_groups(html: &str) -> (r: Vec<SubtitleGroup>)
    ensures
        groups_view(r@) == subtitle_groups(html@),
{
    let h = chars_of(html);
    let marker = chars_of("subgroup-name subgroup-");
    let gt = vec!['>'];
    let close_a = vec!['<', '/', 'a', '>'];
    assert(gt@ =~= seq!['>']);
    assert(close_a@ =~= seq!['<', '/', 'a', '>']);
    let mut groups: Vec<SubtitleGroup> = Vec::new();
    let mut ids: Vec<Vec<char>> = Vec::new();
    let mut pos: usize = 0;
    assert(groups_view(groups@) =~= Seq::<GroupView>::empty());
    while pos <= h.len()
        invariant
            h@ == html@,
            marker@ == subgroup_marker(),
            gt@ == seq!['>'],
            close_a@ == seq!['<', '/', 'a', '>'],
            ids@.len() == groups@.len(),
            forall|i: int| 0 <= i < ids@.len() ==> (#[trigger] ids@[i])@ == groups@[i].id@,
            subtitle_groups(h@) == groups_from(h@, pos as int, groups_view(groups@)),
        decreases h@.len() + 1 - pos,
    {
        let ghost acc = groups_view(groups@);
        match find_from_exec(&h, &marker, pos) {
            None => {
                return groups;
            },
            Some(f) => {
                proof {
                    lemma_find_from_bounds(h@, marker@, pos as int);
                    reveal_strlit("subgroup-name subgroup-");
                }
                let len = h.len();
                assert(f + marker@.len() <= len);
                let abs = f + marker.len();
                let id_end = digits_end_exec(&h, abs);
                let id = slice(&h, abs, id_end);
                if id_end > abs {
                    match find_from_exec(&h, &gt, id_end) {
                        Some(tc) => {
                            proof {
                                lemma_find_from_bounds(h@, gt@, id_end as int);
                            }
                            match find_from_exec(&h, &close_a, tc + 1) {
                                Some(ne) => {
                                    proof {
                                        lemma_find_from_bounds(h@, close_a@, tc + 1);
                                    }
                                    let raw = slice(&h, tc + 1, ne);
                                    let trimmed = trim_exec(&raw);
                                    let name = decode_entities_exec(&trimmed);
                                    let dup = contains_id(&ids, &id);
                                    assert(dup == has_group_id(acc, id@)) by {
                                        if dup {
                                            let i = choose|i: int| 0 <= i < ids@.len() && (#[trigger] ids@[i])@ == id@;
                                            assert(acc[i].id == id@);
                                        }
                                        if has_group_id(acc, id@) {
                                            let i = choose|i: int| 0 <= i < acc.len() && (#[trigger] acc[i]).id == id@;
                                            assert(ids@[i]@ == id@);
                                        }
                                    }
                                    if name.len() > 0 && !dup {
                                        let g = SubtitleGroup { id: string_of(&id), name: string_of(&name) };
                                        groups.push(g);
                                        ids.push(id);
                                        assert(groups_view(groups@) =~= acc.push(GroupView { id: id@, name: name@ }));
                                    }
                                },
                                None => {},
                            }
                        },
                        None => {},
                    }
                }
                pos = id_end;
            },
        }
    }
    groups
}

/// Two to the power `k`.
pub open spec fn pow2(k: nat) -> nat
    decreases k,
{
    if k == 0 {
        1
    } else {
        2 * pow2((k - 1) as nat)
    }
}

/// The nearest whole number to `a / b`, an exact half going to the even
/// neighbour.
pub open spec fn round_half_even(a: nat, b: nat) -> nat {
    let q = a / b;
    let r = a % b;
    if 2 * r > b || (2 * r == b && q % 2 == 1) {
        q + 1
    } else {
        q
    }
}

/// The spacing of the `f64` values around `n`: the least power of two
/// `2^k` (searched up to `k = 64`) with `n / 2^k` below `2^53`.
pub open spec fn f64_spacing(n: nat, k: nat) -> nat
    decreases 64 - k,
{
    if k >= 64 || n / pow2(k) < pow2(53) {
        pow2(k)
    } else {
        f64_spacing(n, k + 1)
    }
}

/// `n as f64`: `n` rounded to 53 significant bits, ties to even.
pub open spec fn f64_of(n: nat) -> nat {
    let u = f64_spacing(n, 0);
    round_half_even(n, u) * u
}

/// `x / den` written with exactly two decimals, rounded to nearest with
/// ties to even (what `{:.2}` writes for the quotient of two `f64` values
/// when the quotient is exact).
pub open spec fn two_decimals(x: nat, den: nat) -> Seq<char> {
    let h = round_half_even(x * 100, den);
    decimal(h / 100) + seq!['.', digit_char(((h % 100) / 10) as int), digit_char((h % 10) as int)]
}

/// A byte count as Mikan's feed parser shows it: in GB, MB or KB with two
/// decimals from 1024 of the unit on, else in bytes.
pub open spec fn format_bytes_spec(bytes: nat) -> Seq<char> {
    if bytes >= pow2(30) {
        two_decimals(f64_of(bytes), pow2(30)) + seq![' ', 'G', 'B']
    } else if bytes >= pow2(20) {
        two_decimals(f64_of(bytes), pow2(20)) + seq![' ', 'M', 'B']
    } else if bytes >= pow2(10) {
        two_decimals(f64_of(bytes), pow2(10)) + seq![' ', 'K', 'B']
    } else {
        decimal(bytes) + seq![' ', 'B']
    }
}

proof fn lemma_pow2_values()
    ensures
        pow2(10) == 1024,
        pow2(20) == 1048576,
        pow2(30) == 1073741824,
        pow2(53) == 0x20_0000_0000_0000,
{
    reveal_with_fuel(pow2, 54);
}

fn round_half_even_exec(a: u128, b: u128) -> (r: u128)
    requires
        b > 0,
        a / b < u128::MAX,
    ensures
        r == round_half_even(a as nat, b as nat),
{
    let q = a / b;
    let rem = a % b;
    if (rem > b - rem) || (rem == b - rem && q % 2 == 1) {
        q + 1
    } else {
        q
    }
}

fn f64_of_exec(n: u64) -> (r: u128)
    ensures
        r == f64_of(n as nat),
        r <= 0x2_0000_0000_0000_0000,
{
    let mut unit: u128 = 1;
    let mut k: u64 = 0;
    proof {
        lemma_pow2_values();
    }
    while k < 64 && (n as u128) / unit >= 0x20_0000_0000_0000
        invariant
            unit == pow2(k as nat),
            unit > 0,
            k <= 64,
            k > 0 ==> unit <= 2 * (n as int),
            f64_spacing(n as nat, 0) == f64_spacing(n as nat, k as nat),
            pow2(53) == 0x20_0000_0000_0000,
        decreases 64 - k,
    {
        assert(unit <= n) by (nonlinear_arith)
            requires
                (n as int) / (unit as int) >= 0x20_0000_0000_0000,
                unit > 0,
        ;
        unit = unit * 2;
        k = k + 1;
    }
    assert((n as int) / (unit as int) <= n) by (nonlinear_arith)
        requires
            unit > 0,
    ;
    let q = round_half_even_exec(n as u128, unit);
    assert(q <= (n as int) / (unit as int) + 1);
    assert((q as int) * (unit as int) <= 0x2_0000_0000_0000_0000) by (nonlinear_arith)
        requires
            q <= (n as int) / (unit as int) + 1,
            unit > 0,
            unit <= 0x2_0000_0000_0000_0000,
            n <= u64::MAX,
    ;
    q * unit
}

fn two_decimals_exec(x: u128, den: u128) -> (r: Vec<char>)
    requires
        x <= 0x2_0000_0000_0000_0000,
        den >= 1024,
    ensures
        r@ == two_decimals(x as nat, den as nat),
{
    let h = round_half_even_exec(x * 100, den);
    assert(h <= (x * 100) as int / den as int + 1);
    assert(h < 0x1_0000_0000_0000_0000) by (nonlinear_arith)
        requires
            h <= (x * 100) as int / den as int + 1,
            x <= 0x2_0000_0000_0000_0000,
            den >= 1024,
    ;
    let h = h as u64;
    let mut r = decimal_exec(h / 100);
    r.push('.');
    r.push(digit_char_exec((h % 100) / 10));
    r.push(digit_char_exec(h % 10));
    r
}

fn push_unit(r: &mut Vec<char>, a: char, b: char)
    ensures
        final(r)@ == old(r)@ + seq![' ', a, b],
{
    r.push(' ');
    r.push(a);
    r.push(b);
    assert(r@ =~= old(r)@ + seq![' ', a, b]);
}

/// Formats a byte count as a human-readable string.
pub fn format_bytes(bytes: u64) -> (r: String)
    ensures
        r@ == format_bytes_spec(bytes as nat),
{
    proof {
        lemma_pow2_values();
    }
    let mut v: Vec<char>;
    if bytes >= 1073741824 {
        v = two_decimals_exec(f64_of_exec(bytes), 1073741824);
        push_unit(&mut v, 'G', 'B');
    } else if bytes >= 1048576 {
        v = two_decimals_exec(f64_of_exec(bytes), 1048576);
        push_unit(&mut v, 'M', 'B');
    } else if bytes >= 1024 {
        v = two_decimals_exec(f64_of_exec(bytes), 1024);
        push_unit(&mut v, 'K', 'B');
    } else {
        v = decimal_exec(bytes);
        v.push(' ');
        v.push('B');
        assert(v@ =~= decimal(bytes as nat) + seq![' ', 'B']);
    }
    string_of(&v)
}

/// `Some` text or else the empty text.
pub open spec fn or_empty(o: Option<Seq<char>>) -> Seq<char> {
    match o {
        Some(t) => t,
        None => seq![],
    }
}

pub fn or_empty_exec(o: Option<Vec<char>>) -> (r: Vec<char>)
    ensures
        r@ == or_empty(opt_chars(o)),
{
    match o {
        Some(t) => t,
        None => Vec::new(),
    }
}

pub open spec fn opt_chars(o: Option<Vec<char>>) -> Option<Seq<char>> {
    match o {
        Some(t) => Some(t@),
        None => None,
    }
}

/// `&tr=` and the tracker, for each tracker in order.
pub open spec fn tracker_params(tr: Seq<Seq<char>>) -> Seq<char>
    decreases tr.len(),
{
    if tr.len() == 0 {
        seq![]
    } else {
        tracker_params(tr.drop_last()) + seq!['&', 't', 'r', '='] + tr.last()
    }
}

/// The magnet URI for an info hash with the given trackers.
pub open spec fn magnet_uri(hash: Seq<char>, tr: Seq<Seq<char>>) -> Seq<char> {
    "magnet:?xt=urn:btih:"@ + hash + tracker_params(tr)
}

proof fn lemma_tracker_params_lead(tr: Seq<Seq<char>>)
    ensures
        tr.len() == 0 ==> tracker_params(tr).len() == 0,
        tr.len() > 0 ==> tracker_params(tr).len() > 0 && tracker_params(tr)[0] == '&',
    decreases tr.len(),
{
    if tr.len() > 0 {
        lemma_tracker_params_lead(tr.drop_last());
    }
}

/// The info hash read back from a magnet link built from a hash is that
/// hash, when the hash holds no `&`.
pub proof fn law_magnet_hash_reads_back(h: Seq<char>, tr: Seq<Seq<char>>)
    requires
        forall|i: int| 0 <= i < h.len() ==> h[i] != '&',
    ensures
        crate::markup::info_hash_of(magnet_uri(h, tr)) == h,
{
    reveal_strlit("magnet:?xt=urn:btih:");
    let pre = "magnet:?xt=urn:btih:"@;
    let t = tracker_params(tr);
    let m = magnet_uri(h, tr);
    let b = seq!['b', 't', 'i', 'h', ':'];
    lemma_tracker_params_lead(tr);
    assert(m =~= pre + h + t);
    assert(matches_at(m, b, 15)) by {
        assert(m.subrange(15, 20) =~= b);
    }
    lemma_find_from_props(m, b, 0);
    match find_from(m, b, 0) {
        Some(i) => {
            if i < 15 {
                assert(m.subrange(i, i + 5)[0] == m[i]);
                assert(m[i] == pre[i]);
            }
        },
        None => {},
    }
    assert(find_from(m, b, 0) == Some(15int));
    let amp = seq!['&'];
    lemma_find_from_props(m, amp, 20);
    if t.len() > 0 {
        let e: int = 20 + h.len() as int;
        assert(matches_at(m, amp, e)) by {
            assert(m.subrange(e, e + 1) =~= amp);
        }
        match find_from(m, amp, 20) {
            Some(i) => {
                if i < e {
                    assert(m.subrange(i, i + 1)[0] == m[i]);
                    assert(m[i] == h[i - 20]);
                }
            },
            None => {},
        }
        assert(m.subrange(20, e) =~= h);
    } else {
        match find_from(m, amp, 20) {
            Some(i) => {
                assert(m.subrange(i, i + 1)[0] == m[i]);
                assert(m[i] == h[i - 20]);
            },
            None => {},
        }
        assert(m.subrange(20, m.len() as int) =~= h);
    }
}

/// Builds `magnet:?xt=urn:btih:{hash}` followed by `&tr={tracker}` for
/// each tracker.
pub fn magnet_uri_exec(hash: &Vec<char>, trackers: &[String]) -> (r: Vec<char>)
    ensures
        r@ == magnet_uri(hash@, strings_view(trackers@)),
{
    let mut m = chars_of("magnet:?xt=urn:btih:");
    push_all(&mut m, hash);
    let ghost base = m@;
    let mut i: usize = 0;
    assert(strings_view(trackers@).subrange(0, 0) =~= Seq::<Seq<char>>::empty());
    assert(m@ =~= base + tracker_params(strings_view(trackers@).subrange(0, 0)));
    while i < trackers.len()
        invariant
            i <= trackers@.len(),
            base == "magnet:?xt=urn:btih:"@ + hash@,
            m@ == base + tracker_params(strings_view(trackers@).subrange(0, i as int)),
        decreases trackers@.len() - i,
    {
        let t = chars_of(trackers[i].as_str());
        m.push('&');
        m.push('t');
        m.push('r');
        m.push('=');
        push_all(&mut m, &t);
        let ghost tv = strings_view(trackers@);
        assert(tv.subrange(0, i + 1).drop_last() =~= tv.subrange(0, i as int));
        assert(tv.subrange(0, i + 1).last() == t@);
        i = i + 1;
        assert(m@ =~= base + tracker_params(tv.subrange(0, i as int)));
    }
    assert(strings_view(trackers@).subrange(0, trackers@.len() as int) =~= strings_view(trackers@));
    m
}

/// The episode hash at the end of a Mikan episode link: what follows the
/// last `/Home/Episode/`, or nothing.
pub open spec fn episode_hash_of(link: Seq<char>) -> Seq<char> {
    match rfind(link, "/Home/Episode/"@) {
        Some(i) => link.subrange(i + "/Home/Episode/"@.len(), link.len() as int),
        None => seq![],
    }
}

/// The byte count in `<contentLength>`, or 0 when it is missing or not a
/// number.
pub open spec fn content_length(item: Seq<char>) -> nat {
    match crate::markup::xml_text(item, "contentLength"@) {
        Some(t) => match parse_unsigned(t, 10, u64::MAX as int) {
            Some(v) => v as nat,
            None => 0,
        },
        None => 0,
    }
}

/// The torrent entry that one `<item>` of a Mikan feed yields, if it has an
/// episode hash.
pub open spec fn rss_entry(item: Seq<char>, tr: Seq<Seq<char>>) -> Option<EntryView> {
    let hash = episode_hash_of(or_empty(crate::markup::xml_text(item, "link"@)));
    if hash.len() == 0 {
        None
    } else {
        Some(
            EntryView {
                title: match crate::markup::xml_text(item, "title"@) {
                    Some(t) => decode_entities(t),
                    None => seq![],
                },
                episode_hash: hash,
                torrent_url: or_empty(
                    crate::markup::range_text(item, crate::markup::attr_range(item, "url"@)),
                ),
                magnet: magnet_uri(hash, tr),
                size: format_bytes_spec(content_length(item)),
                publish_date: or_empty(crate::markup::xml_text(item, "pubDate"@)),
            },
        )
    }
}

/// Where the `<item>` that starts at `s0` ends: just after the next
/// `</item>`, or at the end of the text.
pub open spec fn item_end(x: Seq<char>, s0: int) -> int {
    match find_from(x, seq!['<', '/', 'i', 't', 'e', 'm', '>'], s0) {
        Some(i) => i + 7,
        None => x.len() as int,
    }
}

/// The entries of the `<item>`s found from `pos` on, appended to `acc`.
pub open spec fn rss_from(x: Seq<char>, pos: int, tr: Seq<Seq<char>>, acc: Seq<EntryView>) -> Seq<EntryView>
    decreases x.len() - pos,
{
    if pos < 0 {
        acc
    } else {
        match find_from(x, seq!['<', 'i', 't', 'e', 'm', '>'], pos) {
            None => acc,
            Some(s0) => {
                let ie = item_end(x, s0);
                if ie <= pos || ie > x.len() {
                    acc
                } else {
                    let next = match rss_entry(x.subrange(s0, ie), tr) {
                        Some(e) => acc.push(e),
                        None => acc,
                    };
                    rss_from(x, ie, tr, next)
                }
            },
        }
    }
}

/// The entries of a Mikan RSS feed, in feed order.
pub open spec fn rss_items(x: Seq<char>, tr: Seq<Seq<char>>) -> Seq<EntryView> {
    rss_from(x, 0, tr, seq![])
}

/// An entry with an episode hash, whose magnet link names that hash and
/// carries the trackers.
pub open spec fn magnet_names_hash(e: EntryView, tr: Seq<Seq<char>>) -> bool {
    e.episode_hash.len() > 0 && e.magnet == magnet_uri(e.episode_hash, tr)
}

/// A feed entry is read from its `<item>` text: it is kept exactly when the
/// `<link>` text has an episode hash; its title is the `<title>` text with
/// all entities decoded; its episode hash is what follows the last
/// `/Home/Episode/` of the link; its torrent URL is the first `url` value;
/// its magnet link names the hash and carries the trackers; its size is the
/// `<contentLength>` written in units; its date is the `<pubDate>` text.
pub proof fn law_feed_entry_fields(item: Seq<char>, tr: Seq<Seq<char>>)
    ensures
        rss_entry(item, tr) is Some <==> episode_hash_of(or_empty(crate::markup::xml_text(item, "link"@))).len() > 0,
        rss_entry(item, tr) matches Some(e) ==> {
            &&& e.title == match crate::markup::xml_text(item, "title"@) {
                Some(t) => decode_entities(t),
                None => seq![],
            }
            &&& e.episode_hash == episode_hash_of(or_empty(crate::markup::xml_text(item, "link"@)))
            &&& e.torrent_url == or_empty(crate::markup::range_text(item, crate::markup::attr_range(item, "url"@)))
            &&& e.magnet == "magnet:?xt=urn:btih:"@ + e.episode_hash + tracker_params(tr)
            &&& e.size == format_bytes_spec(content_length(item))
            &&& e.publish_date == or_empty(crate::markup::xml_text(item, "pubDate"@))
        },
{
}

/// The `<item>` texts of a feed from `pos` on and the entries they yield:
/// every entry added to `acc` is the entry of some `<item>` of the feed.
proof fn lemma_rss_from_items(x: Seq<char>, pos: int, tr: Seq<Seq<char>>, acc: Seq<EntryView>)
    requires
        pos >= 0,
    ensures
        rss_from(x, pos, tr, acc).len() >= acc.len(),
        forall|k: int| 0 <= k < acc.len() ==> rss_from(x, pos, tr, acc)[k] == acc[k],
        forall|k: int|
            acc.len() <= k < rss_from(x, pos, tr, acc).len() ==> exists|s0: int, ie: int|
                0 <= s0 < ie <= x.len() && matches_at(x, seq!['<', 'i', 't', 'e', 'm', '>'], s0) && rss_entry(
                    x.subrange(s0, ie),
                    tr,
                ) == Some(#[trigger] rss_from(x, pos, tr, acc)[k]),
    decreases x.len() - pos,
{
    let open_tag = seq!['<', 'i', 't', 'e', 'm', '>'];
    match find_from(x, open_tag, pos) {
        None => {},
        Some(s0) => {
            lemma_find_from_bounds(x, open_tag, pos);
            let close_tag = seq!['<', '/', 'i', 't', 'e', 'm', '>'];
            lemma_find_from_bounds(x, close_tag, s0);
            let ie = item_end(x, s0);
            if !(ie <= pos || ie > x.len()) {
                let item = x.subrange(s0, ie);
                let next = match rss_entry(item, tr) {
                    Some(e) => acc.push(e),
                    None => acc,
                };
                lemma_rss_from_items(x, ie, tr, next);
                let r = rss_from(x, ie, tr, next);
                assert(rss_from(x, pos, tr, acc) == r);
                assert forall|k: int| 0 <= k < acc.len() implies r[k] == acc[k] by {
                    assert(next[k] == acc[k]);
                }
                assert forall|k: int| acc.len() <= k < r.len() implies exists|a: int, b: int|
                    0 <= a < b <= x.len() && matches_at(x, open_tag, a) && rss_entry(x.subrange(a, b), tr) == Some(
                        #[trigger] r[k],
                    ) by {
                    if k < next.len() {
                        assert(r[k] == next[k]);
                        assert(rss_entry(x.subrange(s0, ie), tr) == Some(r[k]));
                    }
                }
            }
        },
    }
}

/// `e` is the entry that the `<item>` text `item` yields, field by field as
/// `law_feed_entry_fields` describes.
pub open spec fn entry_of_item(item: Seq<char>, tr: Seq<Seq<char>>, e: EntryView) -> bool {
    &&& e.title == match crate::markup::xml_text(item, "title"@) {
        Some(t) => decode_entities(t),
        None => seq![],
    }
    &&& e.episode_hash == episode_hash_of(or_empty(crate::markup::xml_text(item, "link"@)))
    &&& e.episode_hash.len() > 0
    &&& e.torrent_url == or_empty(crate::markup::range_text(item, crate::markup::attr_range(item, "url"@)))
    &&& e.magnet == "magnet:?xt=urn:btih:"@ + e.episode_hash + tracker_params(tr)
    &&& e.size == format_bytes_spec(content_length(item))
    &&& e.publish_date == or_empty(crate::markup::xml_text(item, "pubDate"@))
}

/// `e` is the entry of some `<item>` of the feed `x`.
pub open spec fn entry_from_feed_item(x: Seq<char>, tr: Seq<Seq<char>>, e: EntryView) -> bool {
    exists|s0: int, ie: int|
        #![trigger x.subrange(s0, ie)]
        0 <= s0 < ie <= x.len() && matches_at(x, seq!['<', 'i', 't', 'e', 'm', '>'], s0) && entry_of_item(
            x.subrange(s0, ie),
            tr,
            e,
        )
}

/// Every entry of a Mikan feed is read from one `<item>` of the feed: in
/// particular its title is that item's `<title>` text with all entities
/// decoded, and its magnet link names its episode hash.
pub proof fn law_feed_entries_from_items(x: Seq<char>, tr: Seq<Seq<char>>)
    ensures
        forall|k: int|
            0 <= k < rss_items(x, tr).len() ==> entry_from_feed_item(x, tr, #[trigger] rss_items(x, tr)[k]),
{
    lemma_rss_from_items(x, 0, tr, seq![]);
    let r = rss_items(x, tr);
    assert forall|k: int| 0 <= k < r.len() implies entry_from_feed_item(x, tr, #[trigger] r[k]) by {
        let (s0, ie) = choose|s0: int, ie: int|
            0 <= s0 < ie <= x.len() && matches_at(x, seq!['<', 'i', 't', 'e', 'm', '>'], s0) && rss_entry(
                x.subrange(s0, ie),
                tr,
            ) == Some(#[trigger] rss_from(x, 0, tr, seq![])[k]);
        law_feed_entry_fields(x.subrange(s0, ie), tr);
        assert(entry_of_item(x.subrange(s0, ie), tr, r[k]));
    }
}

/// The hash taken after the last episode marker holds no such marker.
proof fn lemma_episode_hash_has_no_marker(link: Seq<char>)
    ensures
        !contains(episode_hash_of(link), "/Home/Episode/"@),
{
    reveal_strlit("/Home/Episode/");
    let m = "/Home/Episode/"@;
    let hs = episode_hash_of(link);
    lemma_find_from_bounds(hs, m, 0);
    lemma_rfind_last(link, m);
    match rfind(link, m) {
        Some(i) => {
            match find_from(hs, m, 0) {
                Some(k) => {
                    assert(link.subrange(i + 14 + k, i + 28 + k) =~= hs.subrange(k, k + 14));
                    assert(matches_at(link, m, i + 14 + k));
                },
                None => {},
            }
        },
        None => {},
    }
}

/// An entry read from a feed: it has an episode hash that holds no episode
/// marker, and its magnet link names that hash and carries the trackers.
pub open spec fn well_formed_feed_entry(e: EntryView, tr: Seq<Seq<char>>) -> bool {
    magnet_names_hash(e, tr) && !contains(e.episode_hash, "/Home/Episode/"@)
}

proof fn lemma_rss_from_well_formed(x: Seq<char>, pos: int, tr: Seq<Seq<char>>, acc: Seq<EntryView>)
    requires
        pos >= 0,
        forall|i: int| 0 <= i < acc.len() ==> well_formed_feed_entry(#[trigger] acc[i], tr),
    ensures
        forall|i: int|
            0 <= i < rss_from(x, pos, tr, acc).len() ==> well_formed_feed_entry(#[trigger] rss_from(x, pos, tr, acc)[i], tr),
        rss_from(x, pos, tr, acc).len() <= acc.len() + count_from(x, seq!['<', 'i', 't', 'e', 'm', '>'], pos),
    decreases x.len() - pos,
{
    let open_tag = seq!['<', 'i', 't', 'e', 'm', '>'];
    match find_from(x, open_tag, pos) {
        None => {},
        Some(s0) => {
            lemma_find_from_bounds(x, open_tag, pos);
            let close_tag = seq!['<', '/', 'i', 't', 'e', 'm', '>'];
            lemma_find_from_bounds(x, close_tag, s0);
            let ie = item_end(x, s0);
            if !(ie <= pos || ie > x.len()) {
                let item = x.subrange(s0, ie);
                let next = match rss_entry(item, tr) {
                    Some(e) => acc.push(e),
                    None => acc,
                };
                if let Some(e) = rss_entry(item, tr) {
                    lemma_episode_hash_has_no_marker(or_empty(crate::markup::xml_text(item, "link"@)));
                    assert(well_formed_feed_entry(e, tr));
                }
                assert forall|i: int| 0 <= i < next.len() implies well_formed_feed_entry(#[trigger] next[i], tr) by {
                    if i < acc.len() {
                        assert(next[i] == acc[i]);
                    }
                }
                lemma_rss_from_well_formed(x, ie, tr, next);
                lemma_count_from_monotone(x, open_tag, s0 + 6, ie);
                assert(rss_from(x, pos, tr, acc) == rss_from(x, ie, tr, next));
            }
        },
    }
}

/// Every entry of a Mikan feed is well formed (see `well_formed_feed_entry`),
/// and the feed yields at most one entry per `<item>` tag.
pub proof fn law_feed_entries_well_formed(x: Seq<char>, tr: Seq<Seq<char>>)
    ensures
        forall|i: int| 0 <= i < rss_items(x, tr).len() ==> well_formed_feed_entry(#[trigger] rss_items(x, tr)[i], tr),
        rss_items(x, tr).len() <= count_from(x, seq!['<', 'i', 't', 'e', 'm', '>'], 0),
{
    lemma_rss_from_well_formed(x, 0, tr, seq![]);
}

fn rss_entry_exec(item: &Vec<char>, trackers: &[String]) -> (r: Option<TorrentEntry>)
    ensures
        r matches Some(e) ==> rss_entry(item@, strings_view(trackers@)) == Some(e@),
        r is None ==> rss_entry(item@, strings_view(trackers@)) is None,
{
    let link = or_empty_exec(crate::markup::xml_text_exec(item, &chars_of("link")));
    let marker = chars_of("/Home/Episode/");
    let hash = match rfind_exec(&link, &marker) {
        Some(i) => {
            let n = link.len();
            proof {
                reveal(rfind);
                assert(i + marker@.len() <= n) by {
                    lemma_rfind_bounds(link@, marker@);
                }
            }
            slice(&link, i + marker.len(), n)
        },
        None => Vec::new(),
    };
    assert(hash@ == episode_hash_of(link@));
    if hash.len() == 0 {
        return None;
    }
    let title = match crate::markup::xml_text_exec(item, &chars_of("title")) {
        Some(t) => decode_entities_exec(&t),
        None => Vec::new(),
    };
    let url_range = crate::markup::attr_range_exec(item, &chars_of("url"));
    let torrent_url = or_empty_exec(crate::markup::range_text_exec(item, url_range));
    let magnet = magnet_uri_exec(&hash, trackers);
    let size_bytes: u64 = match crate::markup::xml_text_exec(item, &chars_of("contentLength")) {
        Some(t) => match parse_unsigned_exec(&t, 10, u64::MAX) {
            Some(v) => v,
            None => 0,
        },
        None => 0,
    };
    let size = format_bytes(size_bytes);
    let publish_date = or_empty_exec(crate::markup::xml_text_exec(item, &chars_of("pubDate")));
    Some(
        TorrentEntry {
            title: string_of(&title),
            episode_hash: string_of(&hash),
            torrent_url: string_of(&torrent_url),
            magnet: string_of(&magnet),
            size,
            publish_date: string_of(&publish_date),
        },
    )
}

/// Parses the torrent entries of a Mikan RSS feed; each magnet link
/// carries the given trackers.
pub fn parse_rss_items(xml: &str, trackers: &[String]) -> (r: Vec<TorrentEntry>)
    ensures
        entries_view(r@) == rss_items(xml@, strings_view(trackers@)),
{
    let x = chars_of(xml);
    let open = vec!['<', 'i', 't', 'e', 'm', '>'];
    let close = vec!['<', '/', 'i', 't', 'e', 'm', '>'];
    assert(open@ =~= seq!['<', 'i', 't', 'e', 'm', '>']);
    assert(close@ =~= seq!['<', '/', 'i', 't', 'e', 'm', '>']);
    let mut entries: Vec<TorrentEntry> = Vec::new();
    let mut pos: usize = 0;
    assert(entries_view(entries@) =~= Seq::<EntryView>::empty());
    while pos <= x.len()
        invariant
            x@ == xml@,
            open@ == seq!['<', 'i', 't', 'e', 'm', '>'],
            close@ == seq!['<', '/', 'i', 't', 'e', 'm', '>'],
            rss_items(x@, strings_view(trackers@)) == rss_from(
                x@,
                pos as int,
                strings_view(trackers@),
                entries_view(entries@),
            ),
        decreases x@.len() + 1 - pos,
    {
        match find_from_exec(&x, &open, pos) {
            None => {
                return entries;
            },
            Some(s0) => {
                proof {
                    lemma_find_from_bounds(x@, open@, pos as int);
                }
                let n = x.len();
                let ie = match find_from_exec(&x, &close, s0) {
                    Some(i) => {
                        proof {
                            lemma_find_from_bounds(x@, close@, s0 as int);
                        }
                        i + 7
                    },
                    None => n,
                };
                assert(ie == item_end(x@, s0 as int));
                let item = slice(&x, s0, ie);
                let ghost acc = entries_view(entries@);
                match rss_entry_exec(&item, trackers) {
                    Some(e) => {
                        entries.push(e);
                        assert(entries_view(entries@) =~= acc.push(e@));
                    },
                    None => {},
                }
                pos = ie;
            },
        }
    }
    entries
}

/// The number of bytes of the UTF-8 encoding of `c`.
pub open spec fn utf8_width(c: char) -> int {
    vstd::utf8::encode_utf8(seq![c]).len() as int
}

/// Where a window of 500 bytes that starts at index `k`, with `used`
/// bytes already taken, ends: the index where the bytes reach 500, the end
/// of the text if it comes first, or `None` when the 500th byte falls
/// inside a character (slicing there would panic).
pub open spec fn window_from(h: Seq<char>, k: int, used: int) -> Option<int>
    decreases h.len() - k,
{
    if used == 500 {
        Some(k)
    } else if k < 0 || k >= h.len() {
        Some(h.len() as int)
    } else if used + utf8_width(h[k]) > 500 {
        None
    } else {
        window_from(h, k + 1, used + utf8_width(h[k]))
    }
}

/// The marker of a link to a bangumi page.
pub open spec fn link_marker() -> Seq<char> {
    "/Home/Bangumi/"@
}

/// Some entry in `acc` has provider ID `id`.
pub open spec fn has_provider_id(acc: Seq<SourceEntryView>, id: Seq<char>) -> bool {
    exists|i: int| 0 <= i < acc.len() && (#[trigger] acc[i]).provider_id == id
}

/// The cover in a window: the first `data-src` value, made absolute.
pub open spec fn cover_of(w: Seq<char>) -> Option<Seq<char>> {
    match crate::markup::range_text(w, crate::markup::attr_range(w, "data-src"@)) {
        Some(src) => Some(
            if starts_with(src, "http"@) {
                src
            } else {
                mikan_base() + src
            },
        ),
        None => None,
    }
}

/// The title in a window: the first `title` value, decoded.
pub open spec fn title_of(w: Seq<char>) -> Seq<char> {
    match crate::markup::range_text(w, crate::markup::attr_range(w, "title"@)) {
        Some(t) => decode_entities(t),
        None => seq![],
    }
}

/// The anime cards found from `pos` on, appended to `acc`, or `None` when
/// reading them would slice the page inside a character.
pub open spec fn search_from(h: Seq<char>, pos: int, acc: Seq<SourceEntryView>) -> Option<Seq<SourceEntryView>>
    decreases h.len() - pos,
{
    if pos < 0 {
        Some(acc)
    } else {
        match find_from(h, link_marker(), pos) {
            None => Some(acc),
            Some(abs) => {
                proof {
                    reveal_strlit("/Home/Bangumi/");
                }
                let ps = abs + link_marker().len();
                let ide = digits_end(h, ps);
                let id = h.subrange(ps, ide);
                if ide <= pos || ide > h.len() {
                    Some(acc)
                } else if id.len() == 0 || id.len() > 10 || (abs > 4 && ends_with(
                    h.subrange(0, abs),
                    "RSS/"@,
                )) || has_provider_id(acc, id) {
                    search_from(h, ide, acc)
                } else {
                    match window_from(h, abs, 0) {
                        None => None,
                        Some(we) => {
                            let w = h.subrange(abs, we);
                            let t = title_of(w);
                            let next = if t.len() > 0 {
                                acc.push(
                                    SourceEntryView {
                                        provider_id: id,
                                        title: t,
                                        cover: cover_of(w),
                                        bgm_id: None,
                                    },
                                )
                            } else {
                                acc
                            };
                            search_from(h, ide, next)
                        },
                    }
                }
            },
        }
    }
}

/// The anime cards of a Mikan search page, in page order, or `None` when
/// the page is one on which reading them panics.
pub open spec fn search_results(h: Seq<char>) -> Option<Seq<SourceEntryView>> {
    search_from(h, 0, seq![])
}

/// No two entries share a provider ID.
pub open spec fn distinct_provider_ids(s: Seq<SourceEntryView>) -> bool {
    forall|i: int, j: int| 0 <= i < j < s.len() ==> s[i].provider_id != s[j].provider_id
}

proof fn lemma_search_from_distinct(h: Seq<char>, pos: int, acc: Seq<SourceEntryView>)
    requires
        distinct_provider_ids(acc),
    ensures
        search_from(h, pos, acc) matches Some(s) ==> distinct_provider_ids(s),
    decreases h.len() - pos,
{
    if pos >= 0 {
        match find_from(h, link_marker(), pos) {
            None => {},
            Some(abs) => {
                reveal_strlit("/Home/Bangumi/");
                let ps = abs + link_marker().len();
                let ide = digits_end(h, ps);
                let id = h.subrange(ps, ide);
                if ide <= pos || ide > h.len() {
                } else if id.len() == 0 || id.len() > 10 || (abs > 4 && ends_with(h.subrange(0, abs), "RSS/"@))
                    || has_provider_id(acc, id) {
                    lemma_search_from_distinct(h, ide, acc);
                } else {
                    match window_from(h, abs, 0) {
                        None => {},
                        Some(we) => {
                            let w = h.subrange(abs, we);
                            let t = title_of(w);
                            let e = SourceEntryView { provider_id: id, title: t, cover: cover_of(w), bgm_id: None };
                            if t.len() > 0 {
                                let next = acc.push(e);
                                assert forall|i: int, j: int| 0 <= i < j < next.len() implies next[i].provider_id
                                    != next[j].provider_id by {
                                    assert(next[i] == acc[i]);
                                    if j < acc.len() {
                                        assert(next[j] == acc[j]);
                                    } else if acc[i].provider_id == id {
                                        assert(has_provider_id(acc, id));
                                    }
                                }
                                lemma_search_from_distinct(h, ide, next);
                            } else {
                                lemma_search_from_distinct(h, ide, acc);
                            }
                        },
                    }
                }
            },
        }
    }
}

/// A search page lists each anime once: no two results share an ID.
pub proof fn law_search_results_distinct(h: Seq<char>)
    ensures
        search_results(h) matches Some(s) ==> distinct_provider_ids(s),
{
    lemma_search_from_distinct(h, 0, seq![]);
}

/// A card read from a search page: an ID of one to ten ASCII digits that
/// follows the bangumi link marker on the page, a non-empty title, no
/// Bangumi ID yet, and a cover, if any, given as an absolute `http` URL;
/// title and cover are read from the page after that link (`card_read_at`).
pub open spec fn well_formed_card(h: Seq<char>, e: SourceEntryView) -> bool {
    &&& 1 <= e.provider_id.len() <= 10
    &&& forall|i: int| 0 <= i < e.provider_id.len() ==> is_ascii_digit(#[trigger] e.provider_id[i])
    &&& contains(h, link_marker() + e.provider_id)
    &&& e.title.len() > 0
    &&& e.bgm_id is None
    &&& (e.cover matches Some(c) ==> starts_with(c, "http"@))
    &&& exists|abs: int| #[trigger] card_read_at(h, abs, e)
}

/// The link to `e`'s bangumi page stands at `abs`, and in the 500 bytes
/// from there `e`'s title is the first `title` value with all entities
/// decoded, and its cover the first `data-src` value, made absolute against
/// the site root when it is not already an `http` URL.
pub open spec fn card_read_at(h: Seq<char>, abs: int, e: SourceEntryView) -> bool {
    &&& matches_at(h, link_marker() + e.provider_id, abs)
    &&& match window_from(h, abs, 0) {
        Some(we) => {
            let w = h.subrange(abs, we);
            &&& e.title == match crate::markup::range_text(w, crate::markup::attr_range(w, "title"@)) {
                Some(t) => decode_entities(t),
                None => seq![],
            }
            &&& e.cover == match crate::markup::range_text(w, crate::markup::attr_range(w, "data-src"@)) {
                Some(src) => Some(if starts_with(src, "http"@) { src } else { mikan_base() + src }),
                None => None,
            }
        },
        None => false,
    }
}

/// Every card in `s` is well formed on page `h`.
pub open spec fn all_cards_well_formed(h: Seq<char>, s: Seq<SourceEntryView>) -> bool {
    forall|i: int| 0 <= i < s.len() ==> well_formed_card(h, #[trigger] s[i])
}

proof fn lemma_cover_is_absolute(w: Seq<char>)
    ensures
        cover_of(w) matches Some(c) ==> starts_with(c, "http"@),
{
    reveal_strlit("http");
    reveal_strlit("https://mikanani.me");
    match crate::markup::range_text(w, crate::markup::attr_range(w, "data-src"@)) {
        Some(src) => {
            if !starts_with(src, "http"@) {
                assert((mikan_base() + src).subrange(0, 4) =~= "http"@);
            }
        },
        None => {},
    }
}

proof fn lemma_search_from_well_formed(h: Seq<char>, pos: int, acc: Seq<SourceEntryView>)
    requires
        all_cards_well_formed(h, acc),
    ensures
        search_from(h, pos, acc) matches Some(s) ==> all_cards_well_formed(h, s),
    decreases h.len() - pos,
{
    if pos >= 0 {
        match find_from(h, link_marker(), pos) {
            None => {},
            Some(abs) => {
                reveal_strlit("/Home/Bangumi/");
                lemma_find_from_bounds(h, link_marker(), pos);
                let ps = abs + link_marker().len();
                let ide = digits_end(h, ps);
                let id = h.subrange(ps, ide);
                if ide <= pos || ide > h.len() {
                } else if id.len() == 0 || id.len() > 10 || (abs > 4 && ends_with(h.subrange(0, abs), "RSS/"@))
                    || has_provider_id(acc, id) {
                    lemma_search_from_well_formed(h, ide, acc);
                } else {
                    match window_from(h, abs, 0) {
                        None => {},
                        Some(we) => {
                            let w = h.subrange(abs, we);
                            let t = title_of(w);
                            if t.len() > 0 {
                                let e = SourceEntryView { provider_id: id, title: t, cover: cover_of(w), bgm_id: None };
                                let next = acc.push(e);
                                lemma_digits_end_props(h, ps);
                                lemma_cover_is_absolute(w);
                                assert forall|i: int| 0 <= i < id.len() implies is_ascii_digit(#[trigger] id[i]) by {
                                    assert(id[i] == h[ps + i]);
                                }
                                assert(h.subrange(abs, ide) =~= link_marker() + id) by {
                                    assert(h.subrange(abs, ide) =~= h.subrange(abs, ps) + h.subrange(ps, ide));
                                }
                                lemma_matches_at_contains(h, link_marker() + id, abs);
                                assert(card_read_at(h, abs, e));
                                assert(well_formed_card(h, e));
                                assert forall|i: int| 0 <= i < next.len() implies well_formed_card(h, #[trigger] next[i]) by {
                                    if i < acc.len() {
                                        assert(next[i] == acc[i]);
                                    }
                                }
                                lemma_search_from_well_formed(h, ide, next);
                            } else {
                                lemma_search_from_well_formed(h, ide, acc);
                            }
                        },
                    }
                }
            },
        }
    }
}

/// Every card read from a search page is well formed (see
/// `well_formed_card`), and no two share an ID.
pub proof fn law_search_results_well_formed(h: Seq<char>)
    ensures
        search_results(h) matches Some(s) ==> all_cards_well_formed(h, s) && distinct_provider_ids(s),
{
    lemma_search_from_well_formed(h, 0, seq![]);
    lemma_search_from_distinct(h, 0, seq![]);
}

fn window_end_exec(h: &Vec<char>, abs: usize) -> (r: Option<usize>)
    requires
        abs <= h@.len(),
    ensures
        r matches Some(e) ==> window_from(h@, abs as int, 0) == Some(e as int) && abs <= e <= h@.len(),
        r is None ==> window_from(h@, abs as int, 0) is None,
{
    let mut k = abs;
    let mut used: usize = 0;
    while used != 500 && k < h.len()
        invariant
            abs <= k <= h@.len(),
            used <= 500,
            window_from(h@, abs as int, 0) == window_from(h@, k as int, used as int),
        decreases h@.len() - k,
    {
        let w = crate::numfmt::utf8_encode_char(h[k]).len();
        if used + w > 500 {
            return None;
        }
        used = used + w;
        k = k + 1;
    }
    Some(k)
}

/// Whether some entry in `acc` has provider ID `id`.
fn has_provider_id_exec(ids: &Vec<Vec<char>>, id: &Vec<char>) -> (r: bool)
    ensures
        r == exists|i: int| 0 <= i < ids@.len() && (#[trigger] ids@[i])@ == id@,
{
    contains_id(ids, id)
}

/// The anime cards of a Mikan search page, or `None` exactly when reading
/// them would slice the page inside a character.
pub fn parse_search_results_checked(html: &str) -> (r: Option<Vec<TorrentSourceEntry>>)
    ensures
        r matches Some(v) ==> search_results(html@) == Some(source_entries_view(v@)),
        r is None ==> search_results(html@) is None,
{
    let h = chars_of(html);
    let marker = chars_of("/Home/Bangumi/");
    let rss = chars_of("RSS/");
    let mut results: Vec<TorrentSourceEntry> = Vec::new();
    let mut ids: Vec<Vec<char>> = Vec::new();
    let mut pos: usize = 0;
    assert(source_entries_view(results@) =~= Seq::<SourceEntryView>::empty());
    while pos <= h.len()
        invariant
            h@ == html@,
            marker@ == link_marker(),
            rss@ == "RSS/"@,
            ids@.len() == results@.len(),
            forall|i: int| 0 <= i < ids@.len() ==> (#[trigger] ids@[i])@ == results@[i].provider_id@,
            search_results(h@) == search_from(h@, pos as int, source_entries_view(results@)),
        decreases h@.len() + 1 - pos,
    {
        let ghost acc = source_entries_view(results@);
        match find_from_exec(&h, &marker, pos) {
            None => {
                return Some(results);
            },
            Some(abs) => {
                proof {
                    lemma_find_from_bounds(h@, marker@, pos as int);
                    reveal_strlit("/Home/Bangumi/");
                }
                let len = h.len();
                assert(abs + marker@.len() <= len);
                let ps = abs + marker.len();
                let ide = digits_end_exec(&h, ps);
                let id = slice(&h, ps, ide);
                let id_len = ide - ps;
                let skip_rss = abs > 4 && ends_with_exec(&slice(&h, 0, abs), &rss);
                let dup = has_provider_id_exec(&ids, &id);
                assert(dup == has_provider_id(acc, id@)) by {
                    if dup {
                        let i = choose|i: int| 0 <= i < ids@.len() && (#[trigger] ids@[i])@ == id@;
                        assert(acc[i].provider_id == id@);
                    }
                    if has_provider_id(acc, id@) {
                        let i = choose|i: int| 0 <= i < acc.len() && (#[trigger] acc[i]).provider_id == id@;
                        assert(ids@[i]@ == id@);
                    }
                }
                if !(id_len == 0 || id_len > 10 || skip_rss || dup) {
                    match window_end_exec(&h, abs) {
                        None => {
                            return None;
                        },
                        Some(we) => {
                            let w = slice(&h, abs, we);
                            let title_range = crate::markup::attr_range_exec(&w, &chars_of("title"));
                            let title = match crate::markup::range_text_exec(&w, title_range) {
                                Some(t) => decode_entities_exec(&t),
                                None => Vec::new(),
                            };
                            assert(title@ == title_of(w@));
                            if title.len() > 0 {
                                let src_range = crate::markup::attr_range_exec(&w, &chars_of("data-src"));
                                let cover = match crate::markup::range_text_exec(&w, src_range) {
                                    Some(src) => {
                                        if starts_with_exec(&src, &chars_of("http")) {
                                            Some(string_of(&src))
                                        } else {
                                            let base = chars_of("https://mikanani.me");
                                            Some(string_of(&concat(&base, &src)))
                                        }
                                    },
                                    None => None,
                                };
                                let e = TorrentSourceEntry {
                                    provider_id: string_of(&id),
                                    title: string_of(&title),
                                    cover,
                                    bgm_id: None,
                                };
                                results.push(e);
                                ids.push(id);
                                assert(source_entries_view(results@) =~= acc.push(
                                    SourceEntryView {
                                        provider_id: id@,
                                        title: title@,
                                        cover: cover_of(w@),
                                        bgm_id: None,
                                    },
                                ));
                            }
                        },
                    }
                }
                pos = ide;
            },
        }
    }
    Some(results)
}

/// Parses the anime cards of a Mikan search page (cover and title are read
/// from the 500 bytes that start at each bangumi link).
pub fn parse_search_results(html: &str) -> (r: Vec<TorrentSourceEntry>)
    requires
        search_results(html@) is Some,
    ensures
        search_results(html@) == Some(source_entries_view(r@)),
{
    match parse_search_results_checked(html) {
        Some(v) => v,
        None => Vec::new(),
    }
}

/// The trackers that Mikan magnet links carry when none are configured.
pub open spec fn default_trackers_spec() -> Seq<Seq<char>> {
    seq![
        "http://t.nyaatracker.com/announce"@,
        "http://tracker.kamigami.org:2710/announce"@,
        "http://share.camoe.cn:8080/announce"@,
        "http://opentracker.acgnx.se/announce"@,
        "http://anidex.moe:6969/announce"@,
        "http://t.acg.rip:6699/announce"@,
        "https://tr.bangumi.moe:9696/announce"@,
        "http://tr.bangumi.moe:6969/announce"@,
        "http://open.acgtracker.com:1096/announce"@,
        "https://tracker.opentrackr.org:1337/announce"@,
    ]
}

/// The default tracker list for Mikan magnet links.
pub fn default_trackers() -> (r: Vec<String>)
    ensures
        strings_view(r@) == default_trackers_spec(),
{
    let r = vec![
        string_of(&chars_of("http://t.nyaatracker.com/announce")),
        string_of(&chars_of("http://tracker.kamigami.org:2710/announce")),
        string_of(&chars_of("http://share.camoe.cn:8080/announce")),
        string_of(&chars_of("http://opentracker.acgnx.se/announce")),
        string_of(&chars_of("http://anidex.moe:6969/announce")),
        string_of(&chars_of("http://t.acg.rip:6699/announce")),
        string_of(&chars_of("https://tr.bangumi.moe:9696/announce")),
        string_of(&chars_of("http://tr.bangumi.moe:6969/announce")),
        string_of(&chars_of("http://open.acgtracker.com:1096/announce")),
        string_of(&chars_of("https://tracker.opentrackr.org:1337/announce")),
    ];
    assert(strings_view(r@) =~= default_trackers_spec());
    r
}

/// A candidate whose bangumi page gave the bgm.tv ID `resolved`, if that is
/// the ID looked for: the candidate with its bgm.tv ID filled in.
pub open spec fn matched_entry(c: SourceEntryView, resolved: Option<Seq<char>>, bgm: Seq<char>) -> Option<SourceEntryView> {
    match resolved {
        Some(id) => if id == bgm {
            Some(SourceEntryView { provider_id: c.provider_id, title: c.title, cover: c.cover, bgm_id: Some(id) })
        } else {
            None
        },
        None => None,
    }
}

/// The first candidate, in search order, whose resolved bgm.tv ID is the
/// one looked for.
pub open spec fn first_match(cs: Seq<SourceEntryView>, rs: Seq<Option<Seq<char>>>, bgm: Seq<char>) -> Option<SourceEntryView>
    decreases cs.len(),
{
    if cs.len() == 0 || rs.len() == 0 {
        None
    } else {
        match matched_entry(cs[0], rs[0], bgm) {
            Some(e) => Some(e),
            None => first_match(cs.drop_first(), rs.drop_first(), bgm),
        }
    }
}

/// `c` with its bgm.tv ID set to `bgm`.
pub open spec fn with_bgm_id(c: SourceEntryView, bgm: Seq<char>) -> SourceEntryView {
    SourceEntryView { provider_id: c.provider_id, title: c.title, cover: c.cover, bgm_id: Some(bgm) }
}

proof fn lemma_first_match_index(cs: Seq<SourceEntryView>, rs: Seq<Option<Seq<char>>>, bgm: Seq<char>) -> (k: int)
    requires
        cs.len() == rs.len(),
    ensures
        first_match(cs, rs, bgm) is Some ==> 0 <= k < cs.len() && rs[k] == Some(bgm) && first_match(cs, rs, bgm)
            == Some(with_bgm_id(cs[k], bgm)) && forall|j: int| 0 <= j < k ==> rs[j] != Some(bgm),
        first_match(cs, rs, bgm) is None ==> forall|j: int| 0 <= j < cs.len() ==> rs[j] != Some(bgm),
    decreases cs.len(),
{
    if cs.len() == 0 {
        -1
    } else if rs[0] == Some(bgm) {
        0
    } else {
        let k = lemma_first_match_index(cs.drop_first(), rs.drop_first(), bgm);
        assert forall|j: int| 1 <= j < cs.len() implies rs[j] == rs.drop_first()[j - 1] by {}
        if first_match(cs.drop_first(), rs.drop_first(), bgm) is Some {
            assert(cs[k + 1] == cs.drop_first()[k]);
        }
        k + 1
    }
}

/// Matching candidates against a bgm.tv ID, with one resolved ID per
/// candidate, gives the first candidate in search order whose resolved ID is
/// that one, with the ID filled in; and nothing exactly when no candidate
/// resolved to it.
pub proof fn law_first_match_is_first(cs: Seq<SourceEntryView>, rs: Seq<Option<Seq<char>>>, bgm: Seq<char>)
    requires
        cs.len() == rs.len(),
    ensures
        first_match(cs, rs, bgm) matches Some(e) ==> exists|k: int|
            0 <= k < cs.len() && #[trigger] rs[k] == Some(bgm) && e == with_bgm_id(cs[k], bgm) && forall|j: int|
                0 <= j < k ==> rs[j] != Some(bgm),
        first_match(cs, rs, bgm) is None <==> forall|j: int| 0 <= j < cs.len() ==> rs[j] != Some(bgm),
{
    let k = lemma_first_match_index(cs, rs, bgm);
    if first_match(cs, rs, bgm) is Some {
        assert(rs[k] == Some(bgm));
    }
}

pub open spec fn opt_strings_view(s: Seq<Option<String>>) -> Seq<Option<Seq<char>>> {
    s.map_values(|o: Option<String>| crate::torrent_provider::opt_view(o))
}

/// The Mikan source: the trackers that its magnet links carry.
pub struct Mikan {
    trackers: Vec<String>,
}

impl Mikan {
    pub closed spec fn trackers_view(&self) -> Seq<Seq<char>> {
        strings_view(self.trackers@)
    }

    /// A Mikan source with the given trackers, or the built-in ones when the
    /// list is empty.
    pub fn new(custom_trackers: Vec<String>) -> (r: Mikan)
        ensures
            r.trackers_view() == if custom_trackers@.len() == 0 {
                default_trackers_spec()
            } else {
                strings_view(custom_trackers@)
            },
    {
        if custom_trackers.len() == 0 {
            Mikan { trackers: default_trackers() }
        } else {
            Mikan { trackers: custom_trackers }
        }
    }

    /// The trackers in use.
    pub fn trackers(&self) -> (r: &Vec<String>)
        ensures
            strings_view(r@) == self.trackers_view(),
    {
        &self.trackers
    }

    /// The torrent entries of a group's RSS feed, magnet links carrying this
    /// source's trackers.
    pub fn parse_subgroup_feed(&self, xml: &str) -> (r: Vec<TorrentEntry>)
        ensures
            entries_view(r@) == rss_items(xml@, self.trackers_view()),
    {
        parse_rss_items(xml, self.trackers.as_slice())
    }

    /// One step of resolving a bgm.tv anime: the candidate, with its bgm.tv
    /// ID, when its page gave the ID looked for.
    pub fn match_candidate(&self, candidate: TorrentSourceEntry, resolved: Option<String>, bgm_id: &str) -> (r: Option<TorrentSourceEntry>)
        ensures
            opt_source_view(r) == matched_entry(candidate@, crate::torrent_provider::opt_view(resolved), bgm_id@),
    {
        match resolved {
            Some(id) => {
                if chars_eq(&chars_of(id.as_str()), &chars_of(bgm_id)) {
                    Some(TorrentSourceEntry { provider_id: candidate.provider_id, title: candidate.title, cover: candidate.cover, bgm_id: Some(id) })
                } else {
                    None
                }
            },
            None => None,
        }
    }

    /// The first candidate, in search order, whose page gave the bgm.tv ID
    /// looked for (`resolved[i]` is what the page of `candidates[i]` gave).
    pub fn first_matching(&self, candidates: Vec<TorrentSourceEntry>, resolved: Vec<Option<String>>, bgm_id: &str) -> (r: Option<TorrentSourceEntry>)
        ensures
            opt_source_view(r) == first_match(source_entries_view(candidates@), opt_strings_view(resolved@), bgm_id@),
    {
        let mut cs = candidates;
        let mut rs = resolved;
        let ghost cv0 = source_entries_view(cs@);
        let ghost rv0 = opt_strings_view(rs@);
        let mut i: usize = 0;
        assert(cv0.subrange(0, cv0.len() as int) =~= cv0);
        assert(rv0.subrange(0, rv0.len() as int) =~= rv0);
        while i < cs.len() && i < rs.len()
            invariant
                cv0 == source_entries_view(cs@),
                rv0 == opt_strings_view(rs@),
                cv0 == source_entries_view(candidates@),
                rv0 == opt_strings_view(resolved@),
                i <= cs@.len(),
                i <= rs@.len(),
                first_match(cv0, rv0, bgm_id@) == first_match(cv0.subrange(i as int, cv0.len() as int), rv0.subrange(i as int, rv0.len() as int), bgm_id@),
            decreases cs@.len() - i,
        {
            let ghost csub = cv0.subrange(i as int, cv0.len() as int);
            let ghost rsub = rv0.subrange(i as int, rv0.len() as int);
            assert(csub[0] == cs@[i as int]@);
            assert(rsub[0] == crate::torrent_provider::opt_view(rs@[i as int]));
            let c = &cs[i];
            let copy = TorrentSourceEntry { provider_id: c.provider_id.clone(), title: c.title.clone(), cover: clone_opt(&c.cover), bgm_id: clone_opt(&c.bgm_id) };
            let res = clone_opt(&rs[i]);
            assert(copy.provider_id@ == cs@[i as int].provider_id@);
            assert(copy.title@ == cs@[i as int].title@);
            assert(crate::torrent_provider::opt_view(copy.cover) == crate::torrent_provider::opt_view(cs@[i as int].cover));
            assert(copy@ == cs@[i as int]@);
            assert(copy@ == csub[0]);
            let m = self.match_candidate(copy, res, bgm_id);
            if m.is_some() {
                assert(first_match(csub, rsub, bgm_id@) == opt_source_view(m));
                return m;
            }
            assert(csub.drop_first() =~= cv0.subrange(i + 1, cv0.len() as int));
            assert(rsub.drop_first() =~= rv0.subrange(i + 1, rv0.len() as int));
            i = i + 1;
        }
        assert(cv0.subrange(i as int, cv0.len() as int).len() == 0 || rv0.subrange(i as int, rv0.len() as int).len() == 0);
        None
    }
}

impl Default for Mikan {
    fn default() -> (r: Mikan)
        ensures
            r.trackers_view() == default_trackers_spec(),
    {
        Mikan::new(Vec::new())
    }
}

pub open spec fn opt_source_view(o: Option<TorrentSourceEntry>) -> Option<SourceEntryView> {
    match o {
        Some(e) => Some(e@),
        None => None,
    }
}

/// A copy of an optional string.
pub fn clone_opt(o: &Option<String>) -> (r: Option<String>)
    ensures
        crate::torrent_provider::opt_view(r) == crate::torrent_provider::opt_view(*o),
{
    match o {
        Some(s) => Some(s.clone()),
        None => None,
    }
}

/// The address of a Mikan bangumi page.
pub fn bangumi_page_url(mikan_id: &str) -> (r: String)
    ensures
        r@ == mikan_base() + "/Home/Bangumi/"@ + mikan_id@,
{
    let mut v = chars_of("https://mikanani.me");
    push_all(&mut v, &chars_of("/Home/Bangumi/"));
    push_all(&mut v, &chars_of(mikan_id));
    string_of(&v)
}

/// The address of Mikan's search page (the keyword goes in `searchstr`).
pub fn search_page_url() -> (r: String)
    ensures
        r@ == mikan_base() + "/Home/Search"@,
{
    let mut v = chars_of("https://mikanani.me");
    push_all(&mut v, &chars_of("/Home/Search"));
    string_of(&v)
}

/// The address of Mikan's per-group RSS feed.
pub fn rss_feed_url() -> (r: String)
    ensures
        r@ == mikan_base() + "/RSS/Bangumi"@,
{
    let mut v = chars_of("https://mikanani.me");
    push_all(&mut v, &chars_of("/RSS/Bangumi"));
    string_of(&v)
}

/// The query of a group's RSS feed: the bangumi, then the group.
pub fn rss_query(mikan_id: &str, subgroup_id: &str) -> (r: Vec<(String, String)>)
    ensures
        r@.len() == 2,
        r@[0].0@ == "bangumiId"@ && r@[0].1@ == mikan_id@,
        r@[1].0@ == "subgroupid"@ && r@[1].1@ == subgroup_id@,
{
    let mut out: Vec<(String, String)> = Vec::new();
    out.push((string_of(&chars_of("bangumiId")), string_of(&chars_of(mikan_id))));
    out.push((string_of(&chars_of("subgroupid")), string_of(&chars_of(subgroup_id))));
    out
}

} // verus!
