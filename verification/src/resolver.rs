//! Name derivation for discovered assets.
//!
//! Given a raw asset identifier (a filename stem such as
//! `the-high-priestess`), this module derives a human-presentable display
//! name: known structural prefixes are stripped, the stem is split on `-`
//! and `_`, each segment is lower-cased and then title-cased — except a
//! fixed set of minor words, which stay lower-case unless they lead — and
//! the segments are joined with spaces.
//!
//! Case mapping is ASCII: letters outside ASCII pass through unchanged.

use vstd::prelude::*;
use crate::deck::{CardView, TarotCard};
use crate::text::{lower_char, match_at, push_char, str_eq, upper_char};

verus! {

/// Segment separators inside an asset identifier.
pub open spec fn is_sep(c: char) -> bool {
    c == '-' || c == '_'
}

/// ASCII lower-casing of a whole sequence.
pub open spec fn lower_seq(s: Seq<char>) -> Seq<char> {
    s.map_values(|c: char| lower_char(c))
}

/// Upper-cases the first character, leaving the rest unchanged.
pub open spec fn title_seq(s: Seq<char>) -> Seq<char> {
    if s.len() == 0 {
        s
    } else {
        seq![upper_char(s[0])] + s.drop_first()
    }
}

/// The minor words that stay lower-case inside a derived name.
pub open spec fn minor_word(w: Seq<char>) -> bool {
    w == "of"@ || w == "the"@ || w == "and"@ || w == "in"@
}

/// How one segment appears in the derived name: lower-cased, then
/// title-cased unless it is a non-leading minor word.
pub open spec fn format_word(w: Seq<char>, first: bool) -> Seq<char> {
    let l = lower_seq(w);
    if !first && minor_word(l) {
        l
    } else {
        title_seq(l)
    }
}

/// Length of the leading separator-free run.
pub open spec fn seg_end(s: Seq<char>) -> int
    decreases s.len(),
{
    if s.len() == 0 || is_sep(s[0]) {
        0
    } else {
        1 + seg_end(s.drop_first())
    }
}

pub proof fn lemma_seg_end(s: Seq<char>)
    ensures
        0 <= seg_end(s) <= s.len(),
        forall|j: int| 0 <= j < seg_end(s) ==> !is_sep(s[j]),
        seg_end(s) < s.len() ==> is_sep(s[seg_end(s)]),
    decreases s.len(),
{
    if s.len() > 0 && !is_sep(s[0]) {
        lemma_seg_end(s.drop_first());
        assert forall|j: int| 0 <= j < seg_end(s) implies !is_sep(s[j]) by {
            if j > 0 {
                assert(s.drop_first()[j - 1] == s[j]);
            }
        }
    }
}

/// The non-empty segments of `s`, split on separators.
pub open spec fn segments(s: Seq<char>) -> Seq<Seq<char>>
    decreases s.len(),
    via segments_decreases
{
    if s.len() == 0 {
        Seq::<Seq<char>>::empty()
    } else if is_sep(s[0]) {
        segments(s.drop_first())
    } else {
        seq![s.take(seg_end(s))] + segments(s.skip(seg_end(s)))
    }
}

#[via_fn]
proof fn segments_decreases(s: Seq<char>) {
    lemma_seg_end(s);
}

/// Repeatedly removes the prefix `p` from the front of `s`.
pub open spec fn strip_rep(s: Seq<char>, p: Seq<char>) -> Seq<char>
    decreases s.len(),
{
    if p.len() > 0 && s.len() >= p.len() && s.take(p.len() as int) == p {
        strip_rep(s.skip(p.len() as int), p)
    } else {
        s
    }
}

/// The structural prefixes stripped from an asset identifier before
/// deriving a name.
pub open spec fn strip_prefixes(s: Seq<char>) -> Seq<char> {
    strip_rep(strip_rep(s, "_images_"@), "tarot_"@)
}

/// The tail of the derived name: every non-leading segment, each preceded
/// by one space.
pub open spec fn join_rest(ws: Seq<Seq<char>>) -> Seq<char>
    decreases ws.len(),
{
    if ws.len() == 0 {
        Seq::<char>::empty()
    } else {
        seq![' '] + format_word(ws[0], false) + join_rest(ws.drop_first())
    }
}

/// The derived name for a list of segments.
pub open spec fn pretty_name(ws: Seq<Seq<char>>) -> Seq<char> {
    if ws.len() == 0 {
        Seq::<char>::empty()
    } else {
        format_word(ws[0], true) + join_rest(ws.drop_first())
    }
}

/// The derived display name for an asset identifier, or nothing when no
/// segment survives.
pub open spec fn spec_prettify(s: Seq<char>) -> Option<Seq<char>> {
    let ws = segments(strip_prefixes(s));
    if ws.len() == 0 {
        Option::<Seq<char>>::None
    } else {
        Some(pretty_name(ws))
    }
}

proof fn lemma_join_rest_push(ws: Seq<Seq<char>>, w: Seq<char>)
    ensures
        join_rest(ws.push(w)) == join_rest(ws) + seq![' '] + format_word(w, false),
    decreases ws.len(),
{
    if ws.len() == 0 {
        assert(ws.push(w).drop_first() =~= Seq::<Seq<char>>::empty());
        assert(ws.push(w)[0] == w);
        assert(join_rest(ws.push(w)) == seq![' '] + format_word(w, false) + join_rest(
            Seq::<Seq<char>>::empty(),
        ));
        assert(join_rest(Seq::<Seq<char>>::empty()) == Seq::<char>::empty());
        assert(seq![' '] + format_word(w, false) + Seq::<char>::empty() =~= join_rest(ws)
            + seq![' '] + format_word(w, false));
    } else {
        assert(ws.push(w).drop_first() =~= ws.drop_first().push(w));
        assert(ws.push(w)[0] == ws[0]);
        lemma_join_rest_push(ws.drop_first(), w);
        assert(join_rest(ws.push(w)) =~= join_rest(ws) + seq![' '] + format_word(w, false));
    }
}

proof fn lemma_pretty_name_push(ws: Seq<Seq<char>>, w: Seq<char>)
    ensures
        ws.len() == 0 ==> pretty_name(ws.push(w)) == format_word(w, true),
        ws.len() > 0 ==> pretty_name(ws.push(w)) == pretty_name(ws) + seq![' ']
            + format_word(w, false),
{
    if ws.len() == 0 {
        assert(ws.push(w)[0] == w);
        assert(ws.push(w).drop_first() =~= Seq::<Seq<char>>::empty());
        assert(pretty_name(ws.push(w)) =~= format_word(w, true));
    } else {
        assert(ws.push(w)[0] == ws[0]);
        assert(ws.push(w).drop_first() =~= ws.drop_first().push(w));
        lemma_join_rest_push(ws.drop_first(), w);
        assert(pretty_name(ws.push(w)) =~= pretty_name(ws) + seq![' '] + format_word(w, false));
    }
}

/// Every segment that splitting yields is non-empty.
proof fn lemma_segments_nonempty(s: Seq<char>)
    ensures
        forall|k: int| 0 <= k < segments(s).len() ==> (#[trigger] segments(s)[k]).len() > 0,
    decreases s.len(),
{
    if s.len() > 0 {
        if is_sep(s[0]) {
            lemma_segments_nonempty(s.drop_first());
            assert forall|k: int|
                0 <= k < segments(s).len() implies (#[trigger] segments(s)[k]).len() > 0 by {
                assert(segments(s)[k] == segments(s.drop_first())[k]);
            }
        } else {
            lemma_seg_end(s);
            lemma_segments_nonempty(s.skip(seg_end(s)));
            assert forall|k: int|
                0 <= k < segments(s).len() implies (#[trigger] segments(s)[k]).len() > 0 by {
                if k == 0 {
                    assert(segments(s)[0] == s.take(seg_end(s)));
                } else {
                    assert(segments(s)[k] == segments(s.skip(seg_end(s)))[k - 1]);
                }
            }
        }
    }
}

/// Law: name derivation is total on usable input. Any non-empty stem
/// yields a non-empty display name: the prettified name, when one exists,
/// starts with a formatted non-empty segment, and the fallback name keeps
/// the stem's length.
pub proof fn lemma_display_name_nonempty(stem: Seq<char>)
    requires
        stem.len() > 0,
    ensures
        spec_display_name(stem).len() > 0,
{
    match spec_prettify(stem) {
        Some(name) => {
            let ws = segments(strip_prefixes(stem));
            lemma_segments_nonempty(strip_prefixes(stem));
            assert(ws[0].len() > 0);
            assert(lower_seq(ws[0]).len() == ws[0].len());
            assert(format_word(ws[0], true).len() > 0);
            assert(name.len() >= format_word(ws[0], true).len());
        },
        None => {
            assert(stem.map_values(|c: char| sep_space(c)).len() == stem.len());
            assert(spec_fallback_name(stem).len() == stem.len());
        },
    }
}

/// ASCII lower-casing of a whole string.
pub fn lower_str(w: &str) -> (r: String)
    ensures
        r@ == lower_seq(w@),
{
    let n = w.unicode_len();
    let mut r = String::new();
    let mut i: usize = 0;
    while i < n
        invariant
            i <= n,
            n == w@.len(),
            r@ == w@.take(i as int).map_values(|c: char| lower_char(c)),
        decreases n - i,
    {
        let c = crate::text::to_lower_char(w.get_char(i));
        push_char(&mut r, c);
        proof {
            assert(w@.take(i + 1).map_values(|c: char| lower_char(c)) =~= w@.take(
                i as int,
            ).map_values(|c: char| lower_char(c)).push(lower_char(w@[i as int])));
        }
        i = i + 1;
    }
    proof {
        assert(w@.take(n as int) =~= w@);
    }
    r
}

/// Upper-cases the first character of a string.
pub fn title_str(w: &str) -> (r: String)
    ensures
        r@ == title_seq(w@),
{
    let n = w.unicode_len();
    let mut r = String::new();
    if n == 0 {
        proof {
            assert(r@ =~= title_seq(w@));
        }
        return r;
    }
    push_char(&mut r, crate::text::to_upper_char(w.get_char(0)));
    let mut i: usize = 1;
    while i < n
        invariant
            1 <= i <= n,
            n == w@.len(),
            r@ == seq![upper_char(w@[0])] + w@.subrange(1, i as int),
        decreases n - i,
    {
        push_char(&mut r, w.get_char(i));
        proof {
            assert(seq![upper_char(w@[0])] + w@.subrange(1, i + 1) =~= (seq![
                upper_char(w@[0]),
            ] + w@.subrange(1, i as int)).push(w@[i as int]));
        }
        i = i + 1;
    }
    proof {
        assert(w@.subrange(1, n as int) =~= w@.drop_first());
        assert(r@ =~= title_seq(w@));
    }
    r
}

/// Whether a (lower-cased) segment is one of the minor words.
fn is_minor_word(w: &str) -> (r: bool)
    ensures
        r == minor_word(w@),
{
    str_eq(w, "of") || str_eq(w, "the") || str_eq(w, "and") || str_eq(w, "in")
}

/// Formats one segment of a derived name.
fn format_word_str(w: &str, first: bool) -> (r: String)
    ensures
        r@ == format_word(w@, first),
{
    let l = lower_str(w);
    if !first && is_minor_word(l.as_str()) {
        l
    } else {
        title_str(l.as_str())
    }
}

/// Repeatedly removes the prefix `p` from the front of `s`.
fn strip_rep_str<'a>(s: &'a str, p: &str) -> (r: &'a str)
    requires
        p@.len() > 0,
    ensures
        r@ == strip_rep(s@, p@),
{
    let mut cur = s;
    let plen = p.unicode_len();
    loop
        invariant
            plen == p@.len(),
            plen > 0,
            strip_rep(cur@, p@) == strip_rep(s@, p@),
        decreases cur@.len(),
    {
        let n = cur.unicode_len();
        if match_at(cur, 0, p) {
            let next = cur.substring_char(plen, n);
            proof {
                assert(cur@.take(plen as int) =~= cur@.subrange(0, plen as int));
                assert(next@ =~= cur@.skip(plen as int));
            }
            cur = next;
        } else {
            proof {
                if cur@.len() >= plen {
                    assert(cur@.take(plen as int) =~= cur@.subrange(0, plen as int));
                }
            }
            return cur;
        }
    }
}

/// Whether the character at position `k` is a segment separator.
fn is_sep_at(t: &str, k: usize) -> (r: bool)
    requires
        k < t@.len(),
    ensures
        r == is_sep(t@[k as int]),
{
    let d = t.get_char(k);
    d == '-' || d == '_'
}

/// Splits a string into its non-empty segments.
fn collect_segments(t: &str) -> (r: Vec<String>)
    ensures
        r.deep_view() == segments(t@),
{
    let n = t.unicode_len();
    let mut out: Vec<String> = Vec::new();
    let mut i: usize = 0;
    proof {
        assert(t@.skip(0) =~= t@);
        assert(out.deep_view() =~= Seq::<Seq<char>>::empty());
    }
    while i < n
        invariant
            i <= n,
            n == t@.len(),
            out.deep_view() + segments(t@.skip(i as int)) == segments(t@),
        decreases n - i,
    {
        let c = t.get_char(i);
        if c == '-' || c == '_' {
            proof {
                assert(t@.skip(i as int).drop_first() =~= t@.skip(i + 1));
            }
            i = i + 1;
        } else {
            // scan to the end of the segment
            let start = i;
            let mut k = i + 1;
            while k < n && !is_sep_at(t, k)
                invariant
                    start < k <= n,
                    n == t@.len(),
                    forall|j: int| start <= j < k ==> !is_sep(t@[j]),
                decreases n - k,
            {
                k = k + 1;
            }
            let ghost rest = t@.skip(start as int);
            proof {
                lemma_seg_end(rest);
                assert forall|j: int| 0 <= j < k - start implies !is_sep(rest[j]) by {
                    assert(rest[j] == t@[start + j]);
                }
                if k < n {
                    assert(rest[k - start] == t@[k as int]);
                }
                // the scanned end is exactly seg_end(rest)
                let e = seg_end(rest);
                if e < k - start {
                    assert(is_sep(rest[e]) == false);
                    assert(e < rest.len());
                    assert(is_sep(rest[e]));
                } else if e > k - start {
                    assert(k - start < rest.len());
                    assert(!is_sep(rest[k - start]));
                    assert(is_sep(t@[k as int]) || k == n);
                    assert(false);
                }
                assert(e == k - start);
            }
            let word = t.substring_char(start, k).to_owned();
            let ghost out0 = out.deep_view();
            proof {
                assert(word@ =~= rest.take(k - start));
            }
            out.push(word);
            proof {
                assert(out.deep_view() =~= out0.push(rest.take((k - start) as int)));
                assert(segments(rest) == seq![rest.take(seg_end(rest))] + segments(
                    rest.skip(seg_end(rest)),
                ));
                assert(rest.skip((k - start) as int) =~= t@.skip(k as int));
                assert(out0.push(rest.take((k - start) as int)) + segments(t@.skip(k as int))
                    =~= out0 + segments(rest));
            }
            i = k;
        }
    }
    proof {
        assert(t@.skip(n as int) =~= Seq::<char>::empty());
        assert(out.deep_view() + Seq::<Seq<char>>::empty() =~= out.deep_view());
    }
    out
}

/// Derives a display name from an asset identifier: strips the known
/// structural prefixes, splits on separators, lower-cases each segment and
/// title-cases all but non-leading minor words, then joins with spaces.
/// Returns nothing when no segment survives.
pub fn prettify_card_slug(slug: &str) -> (r: Option<String>)
    ensures
        r.deep_view() == spec_prettify(slug@),
{
    proof {
        reveal_strlit("_images_");
        reveal_strlit("tarot_");
    }
    let t0 = strip_rep_str(slug, "_images_");
    let t = strip_rep_str(t0, "tarot_");
    let words = collect_segments(t);
    let ghost ws = segments(strip_prefixes(slug@));
    proof {
        assert(words.deep_view() == ws);
    }
    if words.len() == 0 {
        return None;
    }
    let mut name = format_word_str(words[0].as_str(), true);
    proof {
        assert(ws.take(1).drop_first() =~= Seq::<Seq<char>>::empty());
        assert(ws.take(1)[0] == ws[0]);
        assert(name@ + join_rest(ws.take(1).drop_first()) =~= name@);
        assert(name@ == pretty_name(ws.take(1)));
    }
    let mut j: usize = 1;
    while j < words.len()
        invariant
            1 <= j <= words.deep_view().len(),
            ws == words.deep_view(),
            ws.len() > 0,
            name@ == pretty_name(ws.take(j as int)),
        decreases words.deep_view().len() - j,
    {
        let w = format_word_str(words[j].as_str(), false);
        let ghost name0 = name@;
        push_char(&mut name, ' ');
        name.append(w.as_str());
        proof {
            assert(ws.take(j + 1) =~= ws.take(j as int).push(ws[j as int]));
            lemma_pretty_name_push(ws.take(j as int), ws[j as int]);
            assert(name@ =~= pretty_name(ws.take(j as int)) + seq![' '] + format_word(
                ws[j as int],
                false,
            ));
        }
        j = j + 1;
    }
    proof {
        assert(ws.take(ws.len() as int) =~= ws);
    }
    Some(name)
}

/// Maps separators to spaces, leaving other characters unchanged.
pub open spec fn sep_space(c: char) -> char {
    if is_sep(c) {
        ' '
    } else {
        c
    }
}

/// The fallback display name: separators become spaces and the first
/// character is upper-cased.
pub open spec fn spec_fallback_name(s: Seq<char>) -> Seq<char> {
    title_seq(s.map_values(|c: char| sep_space(c)))
}

/// The fallback display name for an identifier on which prefix stripping
/// and segmentation yield nothing usable.
pub fn fallback_display_name(slug: &str) -> (r: String)
    ensures
        r@ == spec_fallback_name(slug@),
{
    let n = slug.unicode_len();
    let mut cleaned = String::new();
    let mut i: usize = 0;
    while i < n
        invariant
            i <= n,
            n == slug@.len(),
            cleaned@ == slug@.take(i as int).map_values(|c: char| sep_space(c)),
        decreases n - i,
    {
        let c = slug.get_char(i);
        let mapped: char = if c == '-' || c == '_' {
            ' '
        } else {
            c
        };
        push_char(&mut cleaned, mapped);
        proof {
            assert(slug@.take(i + 1).map_values(|c: char| sep_space(c)) =~= slug@.take(
                i as int,
            ).map_values(|c: char| sep_space(c)).push(sep_space(slug@[i as int])));
        }
        i = i + 1;
    }
    proof {
        assert(slug@.take(n as int) =~= slug@);
    }
    title_str(cleaned.as_str())
}

/// ASCII whitespace, as trimmed from a filename stem.
pub open spec fn is_space(c: char) -> bool {
    c == ' ' || c == '\t' || c == '\n' || c == '\r'
}

/// Drops leading whitespace.
pub open spec fn trim_start(s: Seq<char>) -> Seq<char>
    decreases s.len(),
{
    if s.len() > 0 && is_space(s[0]) {
        trim_start(s.drop_first())
    } else {
        s
    }
}

/// Drops trailing whitespace.
pub open spec fn trim_end(s: Seq<char>) -> Seq<char>
    decreases s.len(),
{
    if s.len() > 0 && is_space(s.last()) {
        trim_end(s.drop_last())
    } else {
        s
    }
}

/// Drops leading and trailing whitespace.
pub open spec fn trim_seq(s: Seq<char>) -> Seq<char> {
    trim_end(trim_start(s))
}

/// Whether the character at position `k` is ASCII whitespace.
fn is_space_at(t: &str, k: usize) -> (r: bool)
    requires
        k < t@.len(),
    ensures
        r == is_space(t@[k as int]),
{
    let d = t.get_char(k);
    d == ' ' || d == '\t' || d == '\n' || d == '\r'
}

/// Trims ASCII whitespace from both ends.
fn trim_str<'a>(s: &'a str) -> (r: &'a str)
    ensures
        r@ == trim_seq(s@),
{
    let n = s.unicode_len();
    let mut lo: usize = 0;
    proof {
        assert(s@.skip(0) =~= s@);
    }
    while lo < n && is_space_at(s, lo)
        invariant
            lo <= n,
            n == s@.len(),
            trim_start(s@.skip(lo as int)) == trim_start(s@),
        decreases n - lo,
    {
        proof {
            assert(s@.skip(lo as int).drop_first() =~= s@.skip(lo + 1));
        }
        lo = lo + 1;
    }
    let ghost u = trim_start(s@);
    proof {
        assert(u == s@.skip(lo as int));
    }
    let mut hi: usize = n;
    proof {
        assert(s@.subrange(lo as int, hi as int) =~= u);
    }
    while hi > lo && is_space_at(s, hi - 1)
        invariant
            lo <= hi <= n,
            n == s@.len(),
            trim_end(s@.subrange(lo as int, hi as int)) == trim_end(u),
        decreases hi,
    {
        proof {
            assert(s@.subrange(lo as int, hi as int).drop_last() =~= s@.subrange(
                lo as int,
                hi - 1,
            ));
            assert(s@.subrange(lo as int, hi as int).last() == s@[hi - 1]);
        }
        hi = hi - 1;
    }
    let r = s.substring_char(lo, hi);
    proof {
        let cur = s@.subrange(lo as int, hi as int);
        if cur.len() > 0 {
            assert(cur.last() == s@[hi - 1]);
        }
        assert(trim_end(cur) == cur);
        assert(r@ =~= cur);
    }
    r
}

/// Length of the leading dot-free run: the stem of a filename ends at the
/// first `.`.
pub open spec fn dot_end(s: Seq<char>) -> int
    decreases s.len(),
{
    if s.len() == 0 || s[0] == '.' {
        0
    } else {
        1 + dot_end(s.drop_first())
    }
}

proof fn lemma_dot_end(s: Seq<char>)
    ensures
        0 <= dot_end(s) <= s.len(),
        forall|j: int| 0 <= j < dot_end(s) ==> s[j] != '.',
        dot_end(s) < s.len() ==> s[dot_end(s)] == '.',
    decreases s.len(),
{
    if s.len() > 0 && s[0] != '.' {
        lemma_dot_end(s.drop_first());
        assert forall|j: int| 0 <= j < dot_end(s) implies s[j] != '.' by {
            if j > 0 {
                assert(s.drop_first()[j - 1] == s[j]);
            }
        }
    }
}

/// The trimmed stem of a filename: everything before the first `.`, with
/// surrounding ASCII whitespace removed.
pub open spec fn spec_stem(filename: Seq<char>) -> Seq<char> {
    trim_seq(filename.take(dot_end(filename)))
}

/// The display name derived for a stem: the prettified form when one
/// exists, the fallback form otherwise.
pub open spec fn spec_display_name(stem: Seq<char>) -> Seq<char> {
    match spec_prettify(stem) {
        Some(name) => name,
        None => spec_fallback_name(stem),
    }
}

/// Parsing a filename: the trimmed stem and its display name, or nothing
/// when the stem is empty.
pub open spec fn spec_parse_filename(filename: Seq<char>) -> Option<(Seq<char>, Seq<char>)> {
    let stem = spec_stem(filename);
    if stem.len() == 0 {
        Option::<(Seq<char>, Seq<char>)>::None
    } else {
        Some((stem, spec_display_name(stem)))
    }
}

/// Extracts the stem of a filename and derives its display name. An empty
/// stem yields nothing: such files are skipped.
pub fn parse_filename(filename: &str) -> (r: Option<(String, String)>)
    ensures
        match r {
            Some(p) => spec_parse_filename(filename@) == Some((p.0@, p.1@)),
            None => spec_parse_filename(filename@) is None,
        },
{
    let n = filename.unicode_len();
    let mut d: usize = 0;
    while d < n && !is_dot_at(filename, d)
        invariant
            d <= n,
            n == filename@.len(),
            forall|j: int| 0 <= j < d ==> filename@[j] != '.',
        decreases n - d,
    {
        d = d + 1;
    }
    proof {
        lemma_dot_end(filename@);
        let e = dot_end(filename@);
        if e < d {
            assert(filename@[e] == '.');
            assert(filename@[e] != '.');
        } else if e > d {
            assert(d < n);
            assert(filename@[d as int] == '.');
            assert(filename@[d as int] != '.');
        }
    }
    let raw = filename.substring_char(0, d);
    proof {
        assert(raw@ =~= filename@.take(dot_end(filename@)));
    }
    let trimmed = trim_str(raw);
    if trimmed.unicode_len() == 0 {
        return None;
    }
    let stem = trimmed.to_owned();
    let display = match prettify_card_slug(trimmed) {
        Some(name) => name,
        None => fallback_display_name(trimmed),
    };
    Some((stem, display))
}

/// Whether the character at position `k` is a dot.
fn is_dot_at(t: &str, k: usize) -> (r: bool)
    requires
        k < t@.len(),
    ensures
        r == (t@[k as int] == '.'),
{
    t.get_char(k) == '.'
}

/// Position of the last `.` in `s`, or a negative value when there is
/// none.
pub open spec fn last_dot(s: Seq<char>) -> int
    decreases s.len(),
{
    if s.len() == 0 {
        -1
    } else if s.last() == '.' {
        s.len() - 1
    } else {
        last_dot(s.drop_last())
    }
}

proof fn lemma_last_dot(s: Seq<char>)
    ensures
        -1 <= last_dot(s) < s.len(),
        last_dot(s) >= 0 ==> s[last_dot(s)] == '.',
        forall|j: int| last_dot(s) < j < s.len() ==> s[j] != '.',
    decreases s.len(),
{
    if s.len() > 0 && s.last() != '.' {
        lemma_last_dot(s.drop_last());
        assert forall|j: int| last_dot(s) < j < s.len() implies s[j] != '.' by {
            if j < s.len() - 1 {
                assert(s.drop_last()[j] == s[j]);
            }
        }
    }
}

/// Whether a filename carries a `webp` extension, case-insensitively: a
/// last dot that is not the leading character, followed by the letters of
/// `webp`.
pub open spec fn spec_is_webp(s: Seq<char>) -> bool {
    last_dot(s) > 0 && lower_seq(s.skip(last_dot(s) + 1)) == "webp"@
}

/// Checks a filename for the `webp` extension, case-insensitively.
pub fn is_webp_name(filename: &str) -> (r: bool)
    ensures
        r == spec_is_webp(filename@),
{
    let n = filename.unicode_len();
    let mut k: usize = n;
    while k > 0 && !is_dot_at(filename, k - 1)
        invariant
            k <= n,
            n == filename@.len(),
            forall|j: int| k <= j < n ==> filename@[j] != '.',
        decreases k,
    {
        k = k - 1;
    }
    proof {
        lemma_last_dot(filename@);
        let ld = last_dot(filename@);
        if k == 0 {
            if ld >= 0 {
                assert(filename@[ld] == '.');
                assert(filename@[ld] != '.');
            }
        } else {
            assert(filename@[k - 1] == '.');
            if ld > k - 1 {
                assert(filename@[ld] != '.');
            } else if ld < k - 1 {
                assert(filename@[k - 1] != '.');
            }
            assert(ld == k - 1);
        }
    }
    if k <= 1 {
        // no dot, or a dot only in the leading position
        return false;
    }
    let ext = filename.substring_char(k, n);
    proof {
        assert(ext@ =~= filename@.skip(last_dot(filename@) + 1));
    }
    let low = lower_str(ext);
    str_eq(low.as_str(), "webp")
}

/// An optional metadata override for one discovered asset identifier. Any
/// absent field falls back to a generated default.
#[derive(Debug, PartialEq, Eq)]
pub struct CardMetadata {
    pub slug: String,
    pub name: Option<String>,
    pub upright: Option<String>,
    pub reversed: Option<String>,
    pub keywords: Option<Vec<String>>,
}

/// The mathematical value of a [`CardMetadata`].
pub struct MetaView {
    pub slug: Seq<char>,
    pub name: Option<Seq<char>>,
    pub upright: Option<Seq<char>>,
    pub reversed: Option<Seq<char>>,
    pub keywords: Option<Seq<Seq<char>>>,
}

impl View for CardMetadata {
    type V = MetaView;

    open spec fn view(&self) -> MetaView {
        MetaView {
            slug: self.slug@,
            name: self.name.deep_view(),
            upright: self.upright.deep_view(),
            reversed: self.reversed.deep_view(),
            keywords: self.keywords.deep_view(),
        }
    }
}

impl DeepView for CardMetadata {
    type V = MetaView;

    open spec fn deep_view(&self) -> MetaView {
        self.view()
    }
}

/// The keywords given to a discovered card with no authored keywords.
pub open spec fn auto_keywords_spec() -> Seq<Seq<char>> {
    seq!["intuitive"@, "auto-generated"@]
}

/// The keyword list for a card detected purely from the assets folder.
pub fn auto_keywords() -> (r: Vec<String>)
    ensures
        r.deep_view() == auto_keywords_spec(),
{
    let mut r: Vec<String> = Vec::new();
    r.push("intuitive".to_owned());
    r.push("auto-generated".to_owned());
    proof {
        assert(r.deep_view() =~= auto_keywords_spec());
    }
    r
}

/// The default upright text: a templated sentence around the name.
pub fn default_upright(name: &str) -> (r: String)
    ensures
        r@ == name@ + " invites you to interpret this pull in the context of your question."@,
{
    let mut r = name.to_owned();
    r.append(" invites you to interpret this pull in the context of your question.");
    r
}

/// The default reversed text: a templated sentence around the name.
pub fn default_reversed(name: &str) -> (r: String)
    ensures
        r@ == name@ + " reversed highlights the hidden dynamics around your question."@,
{
    let mut r = name.to_owned();
    r.append(" reversed highlights the hidden dynamics around your question.");
    r
}

/// The display name a resolved card gets: the override's name when one is
/// authored, the derived fallback name otherwise.
pub open spec fn spec_resolved_name(fallback: Seq<char>, meta: Option<MetaView>) -> Seq<char> {
    match meta {
        Some(m) => match m.name {
            Some(n) => n,
            None => fallback,
        },
        None => fallback,
    }
}

/// The fully populated card entry for a discovered asset identifier:
/// authored override fields win; absent fields fall back to generated
/// defaults, and an absent or empty keyword list falls back to the auto
/// keywords.
pub open spec fn spec_resolve_card(
    stem: Seq<char>,
    fallback: Seq<char>,
    meta: Option<MetaView>,
) -> CardView {
    let name = spec_resolved_name(fallback, meta);
    CardView {
        slug: stem,
        name: name,
        upright: match meta {
            Some(m) => match m.upright {
                Some(u) => u,
                None => name
                    + " invites you to interpret this pull in the context of your question."@,
            },
            None => name + " invites you to interpret this pull in the context of your question."@,
        },
        reversed: match meta {
            Some(m) => match m.reversed {
                Some(v) => v,
                None => name + " reversed highlights the hidden dynamics around your question."@,
            },
            None => name + " reversed highlights the hidden dynamics around your question."@,
        },
        keywords: match meta {
            Some(m) => match m.keywords {
                Some(k) => if k.len() > 0 {
                    k
                } else {
                    auto_keywords_spec()
                },
                None => auto_keywords_spec(),
            },
            None => auto_keywords_spec(),
        },
    }
}

/// Produces the fully populated card for a discovered asset identifier,
/// from its stem, its derived fallback name, and its optional metadata
/// override.
pub fn resolve_card(stem: &str, fallback_name: &str, meta: Option<&CardMetadata>) -> (r:
    TarotCard)
    ensures
        r@ == spec_resolve_card(stem@, fallback_name@, meta.deep_view()),
{
    let name: String = match meta {
        Some(m) => match &m.name {
            Some(n) => n.clone(),
            None => fallback_name.to_owned(),
        },
        None => fallback_name.to_owned(),
    };
    let upright: String = match meta {
        Some(m) => match &m.upright {
            Some(u) => u.clone(),
            None => default_upright(name.as_str()),
        },
        None => default_upright(name.as_str()),
    };
    let reversed: String = match meta {
        Some(m) => match &m.reversed {
            Some(v) => v.clone(),
            None => default_reversed(name.as_str()),
        },
        None => default_reversed(name.as_str()),
    };
    let keywords: Vec<String> = match meta {
        Some(m) => match &m.keywords {
            Some(k) => if k.len() > 0 {
                crate::deck::clone_string_list(k)
            } else {
                auto_keywords()
            },
            None => auto_keywords(),
        },
        None => auto_keywords(),
    };
    let r = TarotCard { slug: stem.to_owned(), name, upright, reversed, keywords };
    proof {
        assert(r@ == spec_resolve_card(stem@, fallback_name@, meta.deep_view()));
    }
    r
}

/// The override that applies to a slug: the last metadata entry carrying
/// it, or nothing.
pub open spec fn meta_for(metas: Seq<MetaView>, slug: Seq<char>) -> Option<MetaView>
    decreases metas.len(),
{
    if metas.len() == 0 {
        Option::<MetaView>::None
    } else if metas.last().slug == slug {
        Some(metas.last())
    } else {
        meta_for(metas.drop_last(), slug)
    }
}

/// Finds the metadata override for a slug: the last entry carrying it.
fn find_meta<'a>(metas: &'a Vec<CardMetadata>, slug: &str) -> (r: Option<&'a CardMetadata>)
    ensures
        match r {
            Some(m) => meta_for(metas.deep_view(), slug@) == Some(m.deep_view()),
            None => meta_for(metas.deep_view(), slug@) is None,
        },
{
    let ghost dv = metas.deep_view();
    let n = metas.len();
    let mut k: usize = n;
    proof {
        assert(dv.take(n as int) =~= dv);
    }
    while k > 0
        invariant
            k <= n,
            n == dv.len(),
            dv == metas.deep_view(),
            meta_for(dv, slug@) == meta_for(dv.take(k as int), slug@),
        decreases k,
    {
        if str_eq(metas[k - 1].slug.as_str(), slug) {
            proof {
                assert(dv.take(k as int).last() == dv[k - 1]);
            }
            return Some(&metas[k - 1]);
        }
        proof {
            assert(dv.take(k as int).last() == dv[k - 1]);
            assert(dv.take(k as int).drop_last() =~= dv.take(k - 1));
        }
        k = k - 1;
    }
    None
}

/// The cards discovered from a list of asset filenames with a metadata
/// override table: files without a `webp` extension or without a usable
/// stem are skipped; each remaining stem is resolved against its override.
pub open spec fn spec_discovered(names: Seq<Seq<char>>, metas: Seq<MetaView>) -> Seq<CardView>
    decreases names.len(),
{
    if names.len() == 0 {
        Seq::<CardView>::empty()
    } else {
        let rest = spec_discovered(names.drop_last(), metas);
        let fname = names.last();
        if spec_is_webp(fname) {
            match spec_parse_filename(fname) {
                Some(p) => rest.push(spec_resolve_card(p.0, p.1, meta_for(metas, p.0))),
                None => rest,
            }
        } else {
            rest
        }
    }
}

/// Resolves a list of discovered asset filenames against a metadata
/// override table, producing one fully populated card per usable file.
pub fn discovered_cards(filenames: &Vec<String>, metadata: &Vec<CardMetadata>) -> (r: Vec<
    TarotCard,
>)
    ensures
        r.deep_view() == spec_discovered(filenames.deep_view(), metadata.deep_view()),
{
    let ghost nv = filenames.deep_view();
    let ghost mv = metadata.deep_view();
    let n = filenames.len();
    let mut out: Vec<TarotCard> = Vec::new();
    let mut i: usize = 0;
    proof {
        assert(nv.take(0) =~= Seq::<Seq<char>>::empty());
        assert(out.deep_view() =~= spec_discovered(nv.take(0), mv));
    }
    while i < n
        invariant
            i <= n,
            n == nv.len(),
            nv == filenames.deep_view(),
            mv == metadata.deep_view(),
            out.deep_view() == spec_discovered(nv.take(i as int), mv),
        decreases n - i,
    {
        let ghost out0 = out.deep_view();
        proof {
            assert(nv.take(i + 1).drop_last() =~= nv.take(i as int));
            assert(nv.take(i + 1).last() == nv[i as int]);
        }
        let fname = &filenames[i];
        if is_webp_name(fname.as_str()) {
            match parse_filename(fname.as_str()) {
                Some(p) => {
                    let stem = p.0;
                    let display = p.1;
                    let meta = find_meta(metadata, stem.as_str());
                    let c = resolve_card(stem.as_str(), display.as_str(), meta);
                    out.push(c);
                    proof {
                        assert(out.deep_view() =~= out0.push(c@));
                    }
                },
                None => {},
            }
        }
        i = i + 1;
    }
    proof {
        assert(nv.take(n as int) =~= nv);
    }
    out
}

} // verus!
