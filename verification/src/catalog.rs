//! Catalog assembly.
//!
//! The catalog is the immutable, deduplicated card collection that the
//! draw engine reads. [`build_catalog`] merges a curated card list with a
//! discovered/override card list: entries are keyed by slug, a later entry
//! replaces an earlier one with the same slug (so the override source
//! wins), and the result is sorted by display name in ordinal order.
//!
//! The whole pipeline is specified by [`catalog_spec`], a function of the
//! input sequence alone, so repeated builds from the same input are
//! provably identical.

use vstd::prelude::*;
use crate::deck::{CardView, TarotCard, unique_slugs};
use crate::text::{lex_le, lemma_lex_le_total, lemma_lex_le_trans, str_eq, str_le};

verus! {

/// Some entry of `s` carries this slug.
pub open spec fn has_slug(s: Seq<CardView>, slug: Seq<char>) -> bool {
    exists|i: int| 0 <= i < s.len() && (#[trigger] s[i]).slug == slug
}

/// A position of `s` whose entry carries this slug.
pub open spec fn slug_index(s: Seq<CardView>, slug: Seq<char>) -> int {
    choose|i: int| 0 <= i < s.len() && (#[trigger] s[i]).slug == slug
}

/// The entry of `s` carrying this slug (meaningful when `has_slug` holds
/// and slugs are unique).
pub open spec fn entry_of(s: Seq<CardView>, slug: Seq<char>) -> CardView {
    s[slug_index(s, slug)]
}

/// When slugs are unique, any position whose entry matches the slug yields
/// the same entry.
pub proof fn lemma_entry_of_any(s: Seq<CardView>, slug: Seq<char>, i: int)
    requires
        unique_slugs(s),
        0 <= i < s.len(),
        s[i].slug == slug,
    ensures
        has_slug(s, slug),
        slug_index(s, slug) == i,
        entry_of(s, slug) == s[i],
{
    assert(has_slug(s, slug));
    let j = slug_index(s, slug);
    if i < j {
        assert(s[i].slug != s[j].slug);
    } else if j < i {
        assert(s[j].slug != s[i].slug);
    }
}

/// Replaces the entry sharing `v`'s slug by `v`, or appends `v` when no
/// entry shares it.
pub open spec fn upsert(acc: Seq<CardView>, v: CardView) -> Seq<CardView> {
    if has_slug(acc, v.slug) {
        acc.update(slug_index(acc, v.slug), v)
    } else {
        acc.push(v)
    }
}

/// Merges a sequence of entries keyed by slug, left to right: a later
/// entry wins over an earlier one with the same slug, and the surviving
/// entries keep the order in which their slugs first appeared.
pub open spec fn merge_dedup(s: Seq<CardView>) -> Seq<CardView>
    decreases s.len(),
{
    if s.len() == 0 {
        Seq::<CardView>::empty()
    } else {
        upsert(merge_dedup(s.drop_last()), s.last())
    }
}

/// The last entry of `s` carrying this slug.
pub open spec fn last_entry(s: Seq<CardView>, slug: Seq<char>) -> CardView
    decreases s.len(),
{
    if s.len() == 0 {
        s[0]  // arbitrary: no entry carries the slug
    } else if s.last().slug == slug {
        s.last()
    } else {
        last_entry(s.drop_last(), slug)
    }
}

/// The merge keeps each slug exactly once and no other slug.
pub proof fn lemma_merge_props(s: Seq<CardView>)
    ensures
        unique_slugs(merge_dedup(s)),
        forall|x: Seq<char>| has_slug(merge_dedup(s), x) <==> has_slug(s, x),
        merge_dedup(s).len() <= s.len(),
    decreases s.len(),
{
    if s.len() > 0 {
        let s0 = s.drop_last();
        let v = s.last();
        lemma_merge_props(s0);
        let m0 = merge_dedup(s0);
        let m = merge_dedup(s);
        assert forall|x: Seq<char>| has_slug(s, x) implies has_slug(m, x) by {
            let i = choose|i: int| 0 <= i < s.len() && (#[trigger] s[i]).slug == x;
            if i < s.len() - 1 {
                assert(s0[i] == s[i]);
                assert(has_slug(s0, x));
                if has_slug(m0, v.slug) {
                    let k = slug_index(m0, x);
                    assert(m[k].slug == x);
                } else {
                    let k = slug_index(m0, x);
                    assert(m[k].slug == x);
                }
            } else {
                // the last entry: upsert places v somewhere
                if has_slug(m0, v.slug) {
                    assert(m[slug_index(m0, v.slug)].slug == x);
                } else {
                    assert(m[m0.len() as int].slug == x);
                }
            }
        }
        assert forall|x: Seq<char>| has_slug(m, x) implies has_slug(s, x) by {
            let k = choose|k: int| 0 <= k < m.len() && (#[trigger] m[k]).slug == x;
            if has_slug(m0, v.slug) {
                if k == slug_index(m0, v.slug) {
                    assert(s.last().slug == x);
                } else {
                    assert(m0[k].slug == x);
                    assert(has_slug(s0, x));
                    let i = slug_index(s0, x);
                    assert(s[i].slug == x);
                }
            } else {
                if k == m0.len() as int {
                    assert(s.last().slug == x);
                } else {
                    assert(m0[k].slug == x);
                    assert(has_slug(s0, x));
                    let i = slug_index(s0, x);
                    assert(s[i].slug == x);
                }
            }
        }
        if has_slug(m0, v.slug) {
            let r = slug_index(m0, v.slug);
            assert forall|i: int, j: int| 0 <= i < j < m.len() implies m[i].slug != m[j].slug by {
                if i != r && j != r {
                    assert(m[i] == m0[i] && m[j] == m0[j]);
                } else if i == r {
                    assert(m[i].slug == m0[r].slug && m[j] == m0[j]);
                } else {
                    assert(m[j].slug == m0[r].slug && m[i] == m0[i]);
                }
            }
        } else {
            assert forall|i: int, j: int| 0 <= i < j < m.len() implies m[i].slug != m[j].slug by {
                if j == m0.len() as int {
                    assert(m[i] == m0[i] && m[j] == v);
                    assert(!has_slug(m0, v.slug));
                    assert(m0[i].slug != v.slug);
                } else {
                    assert(m[i] == m0[i] && m[j] == m0[j]);
                }
            }
        }
    }
}

/// In the merged sequence, the entry for a slug is the last input entry
/// with that slug: a later source overrides an earlier one.
pub proof fn lemma_merge_last_wins(s: Seq<CardView>, x: Seq<char>)
    requires
        has_slug(s, x),
    ensures
        has_slug(merge_dedup(s), x),
        entry_of(merge_dedup(s), x) == last_entry(s, x),
    decreases s.len(),
{
    lemma_merge_props(s);
    let s0 = s.drop_last();
    let v = s.last();
    let m0 = merge_dedup(s0);
    let m = merge_dedup(s);
    lemma_merge_props(s0);
    if v.slug == x {
        if has_slug(m0, v.slug) {
            let r = slug_index(m0, v.slug);
            assert(m[r] == v);
            lemma_entry_of_any(m, x, r);
        } else {
            assert(m[m0.len() as int] == v);
            lemma_entry_of_any(m, x, m0.len() as int);
        }
    } else {
        // the witness for x in s is not the last position
        let i = choose|i: int| 0 <= i < s.len() && (#[trigger] s[i]).slug == x;
        assert(i < s.len() - 1);
        assert(s0[i] == s[i]);
        assert(has_slug(s0, x));
        lemma_merge_last_wins(s0, x);
        let k = slug_index(m0, x);
        assert(m0[k] == last_entry(s0, x));
        if has_slug(m0, v.slug) {
            let r = slug_index(m0, v.slug);
            assert(k != r);
            assert(m[k] == m0[k]);
            lemma_entry_of_any(m, x, k);
        } else {
            assert(m[k] == m0[k]);
            lemma_entry_of_any(m, x, k);
        }
    }
}

/// The entries are ordered by display name, ascending, in ordinal order.
pub open spec fn sorted_by_name(s: Seq<CardView>) -> bool {
    forall|i: int, j: int|
        0 <= i < j < s.len() ==> lex_le(#[trigger] s[i].name, #[trigger] s[j].name)
}

/// The position before the first entry whose name is not below `v`'s.
pub open spec fn ins_pos(v: CardView, s: Seq<CardView>) -> int
    decreases s.len(),
{
    if s.len() == 0 {
        0
    } else if lex_le(v.name, s[0].name) {
        0
    } else {
        1 + ins_pos(v, s.drop_first())
    }
}

/// Inserts `v` before the first entry whose name is not below `v`'s.
pub open spec fn insert_by_name(v: CardView, s: Seq<CardView>) -> Seq<CardView>
    decreases s.len(),
{
    if s.len() == 0 {
        seq![v]
    } else if lex_le(v.name, s[0].name) {
        seq![v] + s
    } else {
        seq![s[0]] + insert_by_name(v, s.drop_first())
    }
}

/// Insertion sort by display name, processing entries left to right.
pub open spec fn sort_by_name(s: Seq<CardView>) -> Seq<CardView>
    decreases s.len(),
{
    if s.len() == 0 {
        Seq::<CardView>::empty()
    } else {
        insert_by_name(s.last(), sort_by_name(s.drop_last()))
    }
}

/// The insertion splits the sequence at `ins_pos`: everything before it
/// stays, `v` stands at it, everything from it on shifts right.
pub proof fn lemma_insert_repr(v: CardView, s: Seq<CardView>)
    ensures
        ({
            let p = ins_pos(v, s);
            &&& 0 <= p <= s.len()
            &&& insert_by_name(v, s) == s.take(p) + seq![v] + s.skip(p)
            &&& forall|j: int| 0 <= j < p ==> !lex_le(v.name, (#[trigger] s[j]).name)
            &&& p < s.len() ==> lex_le(v.name, s[p].name)
        }),
    decreases s.len(),
{
    let p = ins_pos(v, s);
    if s.len() == 0 {
        assert(insert_by_name(v, s) =~= s.take(0) + seq![v] + s.skip(0));
    } else if lex_le(v.name, s[0].name) {
        assert(insert_by_name(v, s) =~= s.take(0) + seq![v] + s.skip(0));
    } else {
        let s1 = s.drop_first();
        lemma_insert_repr(v, s1);
        let p1 = ins_pos(v, s1);
        assert(insert_by_name(v, s) == seq![s[0]] + insert_by_name(v, s1));
        assert(seq![s[0]] + (s1.take(p1) + seq![v] + s1.skip(p1)) =~= s.take(p) + seq![v]
            + s.skip(p));
        assert forall|j: int| 0 <= j < p implies !lex_le(v.name, (#[trigger] s[j]).name) by {
            if j > 0 {
                assert(s1[j - 1] == s[j]);
                assert(!lex_le(v.name, s1[j - 1].name));
            }
        }
        if p < s.len() {
            assert(s[p] == s1[p1]);
        }
    }
}

/// Inserting into a sorted sequence keeps it sorted.
pub proof fn lemma_insert_sorted(v: CardView, s: Seq<CardView>)
    requires
        sorted_by_name(s),
    ensures
        sorted_by_name(insert_by_name(v, s)),
{
    lemma_insert_repr(v, s);
    let p = ins_pos(v, s);
    let r = insert_by_name(v, s);
    assert forall|i: int, j: int|
        0 <= i < j < r.len() implies lex_le(#[trigger] r[i].name, #[trigger] r[j].name) by {
        if i < p && j < p {
            assert(r[i] == s[i] && r[j] == s[j]);
        } else if i < p && j == p {
            assert(r[i] == s[i] && r[j] == v);
            lemma_lex_le_total(v.name, s[i].name);
        } else if i < p && j > p {
            assert(r[i] == s[i] && r[j] == s[j - 1]);
        } else if i == p {
            assert(r[i] == v);
            if j > p {
                assert(r[j] == s[j - 1]);
                assert(p < s.len());
                assert(lex_le(v.name, s[p].name));
                if j - 1 > p {
                    assert(lex_le(s[p].name, s[j - 1].name));
                    lemma_lex_le_trans(v.name, s[p].name, s[j - 1].name);
                } else {
                    assert(r[j] == s[p]);
                }
            }
        } else {
            assert(r[i] == s[i - 1] && r[j] == s[j - 1]);
        }
    }
}

/// Inserting keeps the slugs: the result has a slug exactly when the input
/// or the inserted entry has it; uniqueness and the entry values carry
/// over.
pub proof fn lemma_insert_slugs(v: CardView, s: Seq<CardView>)
    ensures
        insert_by_name(v, s).len() == s.len() + 1,
        forall|x: Seq<char>|
            has_slug(insert_by_name(v, s), x) <==> (has_slug(s, x) || x == v.slug),
        (unique_slugs(s) && !has_slug(s, v.slug)) ==> unique_slugs(insert_by_name(v, s)),
{
    lemma_insert_repr(v, s);
    let p = ins_pos(v, s);
    let r = insert_by_name(v, s);
    assert forall|x: Seq<char>|
        has_slug(r, x) <==> (has_slug(s, x) || x == v.slug) by {
        if has_slug(r, x) {
            let k = choose|k: int| 0 <= k < r.len() && (#[trigger] r[k]).slug == x;
            if k < p {
                assert(s[k].slug == x);
            } else if k == p {
                assert(v.slug == x);
            } else {
                assert(s[k - 1].slug == x);
            }
        }
        if has_slug(s, x) {
            let k = choose|k: int| 0 <= k < s.len() && (#[trigger] s[k]).slug == x;
            if k < p {
                assert(r[k].slug == x);
            } else {
                assert(r[k + 1].slug == x);
            }
        }
        if x == v.slug {
            assert(r[p].slug == x);
        }
    }
    if unique_slugs(s) && !has_slug(s, v.slug) {
        assert forall|i: int, j: int|
            0 <= i < j < r.len() implies r[i].slug != r[j].slug by {
            if i == p {
                assert(r[j] == s[j - 1]);
                assert(s[j - 1].slug != v.slug);
            } else if j == p {
                assert(r[i] == s[i]);
                assert(s[i].slug != v.slug);
            } else {
                let i0: int = if i < p { i } else { i - 1 };
                let j0: int = if j < p { j } else { j - 1 };
                assert(r[i] == s[i0] && r[j] == s[j0]);
            }
        }
    }
}

/// When slugs are unique and the inserted slug is fresh, every previous
/// entry keeps its value, and the fresh slug maps to the inserted entry.
pub proof fn lemma_insert_entries(v: CardView, s: Seq<CardView>)
    requires
        unique_slugs(s),
        !has_slug(s, v.slug),
    ensures
        entry_of(insert_by_name(v, s), v.slug) == v,
        forall|x: Seq<char>|
            has_slug(s, x) ==> entry_of(insert_by_name(v, s), x) == entry_of(s, x),
{
    lemma_insert_repr(v, s);
    lemma_insert_slugs(v, s);
    let p = ins_pos(v, s);
    let r = insert_by_name(v, s);
    lemma_entry_of_any(r, v.slug, p);
    assert forall|x: Seq<char>|
        has_slug(s, x) implies entry_of(r, x) == entry_of(s, x) by {
        let k = choose|k: int| 0 <= k < s.len() && (#[trigger] s[k]).slug == x;
        lemma_entry_of_any(s, x, k);
        if k < p {
            lemma_entry_of_any(r, x, k);
        } else {
            lemma_entry_of_any(r, x, k + 1);
        }
    }
}

/// Sorting keeps the slugs, their uniqueness and their entries, and orders
/// the result by name.
pub proof fn lemma_sort_props(s: Seq<CardView>)
    ensures
        sorted_by_name(sort_by_name(s)),
        sort_by_name(s).len() == s.len(),
        forall|x: Seq<char>| has_slug(sort_by_name(s), x) <==> has_slug(s, x),
        unique_slugs(s) ==> unique_slugs(sort_by_name(s)),
        unique_slugs(s) ==> (forall|x: Seq<char>|
            has_slug(s, x) ==> entry_of(sort_by_name(s), x) == entry_of(s, x)),
    decreases s.len(),
{
    if s.len() > 0 {
        let s0 = s.drop_last();
        let v = s.last();
        lemma_sort_props(s0);
        let t0 = sort_by_name(s0);
        let t = sort_by_name(s);
        assert(t == insert_by_name(v, t0));
        lemma_insert_sorted(v, t0);
        lemma_insert_slugs(v, t0);
        assert forall|x: Seq<char>| has_slug(s, x) implies has_slug(t, x) by {
            let i = choose|i: int| 0 <= i < s.len() && (#[trigger] s[i]).slug == x;
            if i < s.len() - 1 {
                assert(s0[i] == s[i]);
                assert(has_slug(s0, x));
                assert(has_slug(t0, x));
                assert(has_slug(insert_by_name(v, t0), x));
            } else {
                assert(x == v.slug);
                lemma_insert_repr(v, t0);
                let p = ins_pos(v, t0);
                assert(insert_by_name(v, t0)[p] == v);
                assert((#[trigger] insert_by_name(v, t0)[p]).slug == x);
                assert(has_slug(insert_by_name(v, t0), x));
            }
        }
        assert forall|x: Seq<char>| has_slug(t, x) implies has_slug(s, x) by {
            if x == v.slug {
                assert(s[s.len() - 1].slug == x);
            } else {
                assert(has_slug(t0, x));
                assert(has_slug(s0, x));
                let i = choose|i: int| 0 <= i < s0.len() && (#[trigger] s0[i]).slug == x;
                assert(s[i].slug == x);
            }
        }
        if unique_slugs(s) {
            assert(unique_slugs(s0)) by {
                assert forall|i: int, j: int|
                    0 <= i < j < s0.len() implies s0[i].slug != s0[j].slug by {
                    assert(s0[i] == s[i] && s0[j] == s[j]);
                }
            }
            assert(!has_slug(s0, v.slug)) by {
                if has_slug(s0, v.slug) {
                    let i = choose|i: int|
                        0 <= i < s0.len() && (#[trigger] s0[i]).slug == v.slug;
                    assert(s[i].slug == s[s.len() - 1].slug);
                    assert(false);
                }
            }
            assert(!has_slug(t0, v.slug));
            lemma_insert_entries(v, t0);
            assert forall|x: Seq<char>|
                has_slug(s, x) implies entry_of(t, x) == entry_of(s, x) by {
                let i = choose|i: int| 0 <= i < s.len() && (#[trigger] s[i]).slug == x;
                lemma_entry_of_any(s, x, i);
                if i == s.len() - 1 {
                    assert(x == v.slug);
                    assert(entry_of(t, x) == v);
                } else {
                    assert(s0[i] == s[i]);
                    assert(x != v.slug) by {
                        if x == v.slug {
                            assert(s[i].slug == s[s.len() - 1].slug);
                        }
                    }
                    lemma_entry_of_any(s0, x, i);
                    assert(entry_of(t, x) == entry_of(t0, x));
                }
            }
        }
    }
}

/// Finds the position of the entry whose slug equals `slug`, scanning from
/// the front.
fn find_card_index(cards: &Vec<TarotCard>, slug: &str) -> (r: Option<usize>)
    ensures
        match r {
            Some(i) => i < cards.deep_view().len() && cards.deep_view()[i as int].slug == slug@,
            None => !has_slug(cards.deep_view(), slug@),
        },
{
    let ghost dv = cards.deep_view();
    let n = cards.len();
    let mut i: usize = 0;
    while i < n
        invariant
            i <= n,
            n == dv.len(),
            dv == cards.deep_view(),
            forall|j: int| 0 <= j < i ==> (#[trigger] dv[j]).slug != slug@,
        decreases n - i,
    {
        if str_eq(cards[i].slug.as_str(), slug) {
            return Some(i);
        }
        i = i + 1;
    }
    None
}

/// Merges the entries keyed by slug: a later entry replaces an earlier one
/// with the same slug.
fn merge_cards(entries: &Vec<TarotCard>) -> (r: Vec<TarotCard>)
    ensures
        r.deep_view() == merge_dedup(entries.deep_view()),
        unique_slugs(r.deep_view()),
{
    let ghost dv = entries.deep_view();
    let n = entries.len();
    let mut acc: Vec<TarotCard> = Vec::new();
    let mut i: usize = 0;
    proof {
        assert(dv.take(0) =~= Seq::<CardView>::empty());
        assert(acc.deep_view() =~= Seq::<CardView>::empty());
        lemma_merge_props(dv.take(0));
    }
    while i < n
        invariant
            i <= n,
            n == dv.len(),
            dv == entries.deep_view(),
            acc.deep_view() == merge_dedup(dv.take(i as int)),
            unique_slugs(acc.deep_view()),
        decreases n - i,
    {
        let ghost acc0 = acc.deep_view();
        let c = entries[i].clone();
        let ghost cv = c@;
        proof {
            assert(dv.take(i + 1).drop_last() =~= dv.take(i as int));
            assert(dv.take(i + 1).last() == dv[i as int]);
            assert(cv == dv[i as int]);
        }
        match find_card_index(&acc, c.slug.as_str()) {
            Some(p) => {
                proof {
                    lemma_entry_of_any(acc0, cv.slug, p as int);
                }
                acc.remove(p);
                acc.insert(p, c);
                proof {
                    assert(acc.deep_view() =~= acc0.update(p as int, cv));
                    assert(acc.deep_view() =~= upsert(acc0, cv));
                }
            },
            None => {
                acc.push(c);
                proof {
                    assert(acc.deep_view() =~= acc0.push(cv));
                    assert(acc.deep_view() =~= upsert(acc0, cv));
                }
            },
        }
        i = i + 1;
        proof {
            lemma_merge_props(dv.take(i as int));
        }
    }
    proof {
        assert(dv.take(n as int) =~= dv);
    }
    acc
}

/// Finds the insertion position for a name in a name-sorted list: the
/// first position whose entry's name is not below `name`.
fn insert_pos_by_name(cards: &Vec<TarotCard>, name: &str) -> (r: usize)
    ensures
        r <= cards.deep_view().len(),
        forall|j: int|
            0 <= j < r ==> !lex_le(name@, (#[trigger] cards.deep_view()[j]).name),
        r < cards.deep_view().len() ==> lex_le(name@, cards.deep_view()[r as int].name),
{
    let ghost dv = cards.deep_view();
    let n = cards.len();
    let mut i: usize = 0;
    while i < n
        invariant
            i <= n,
            n == dv.len(),
            dv == cards.deep_view(),
            forall|j: int| 0 <= j < i ==> !lex_le(name@, (#[trigger] dv[j]).name),
        decreases n - i,
    {
        if str_le(name, cards[i].name.as_str()) {
            return i;
        }
        i = i + 1;
    }
    n
}

/// The position returned by a first-fit scan is exactly `ins_pos`.
proof fn lemma_ins_pos_unique(v: CardView, s: Seq<CardView>, r: int)
    requires
        0 <= r <= s.len(),
        forall|j: int| 0 <= j < r ==> !lex_le(v.name, (#[trigger] s[j]).name),
        r < s.len() ==> lex_le(v.name, s[r].name),
    ensures
        ins_pos(v, s) == r,
{
    lemma_insert_repr(v, s);
    let p = ins_pos(v, s);
    if p < r {
        assert(lex_le(v.name, s[p].name));
        assert(!lex_le(v.name, s[p].name));
    } else if r < p {
        assert(lex_le(v.name, s[r].name));
        assert(!lex_le(v.name, s[r].name));
    }
}

/// Sorts the entries by display name, ascending, in ordinal order.
fn sort_cards_by_name(entries: &Vec<TarotCard>) -> (r: Vec<TarotCard>)
    ensures
        r.deep_view() == sort_by_name(entries.deep_view()),
{
    let ghost dv = entries.deep_view();
    let n = entries.len();
    let mut out: Vec<TarotCard> = Vec::new();
    let mut i: usize = 0;
    proof {
        assert(dv.take(0) =~= Seq::<CardView>::empty());
        assert(out.deep_view() =~= sort_by_name(dv.take(0)));
    }
    while i < n
        invariant
            i <= n,
            n == dv.len(),
            dv == entries.deep_view(),
            out.deep_view() == sort_by_name(dv.take(i as int)),
        decreases n - i,
    {
        let ghost out0 = out.deep_view();
        let c = entries[i].clone();
        let ghost cv = c@;
        let p = insert_pos_by_name(&out, c.name.as_str());
        proof {
            lemma_ins_pos_unique(cv, out0, p as int);
            lemma_insert_repr(cv, out0);
            assert(dv.take(i + 1).drop_last() =~= dv.take(i as int));
            assert(dv.take(i + 1).last() == dv[i as int]);
        }
        out.insert(p, c);
        proof {
            assert(out.deep_view() =~= out0.take(p as int) + seq![cv] + out0.skip(p as int));
        }
        i = i + 1;
    }
    proof {
        assert(dv.take(n as int) =~= dv);
    }
    out
}

/// The full catalog pipeline as a function of the combined input sequence:
/// merge keyed by slug (a later entry wins), then sort by display name.
pub open spec fn catalog_spec(s: Seq<CardView>) -> Seq<CardView> {
    sort_by_name(merge_dedup(s))
}

/// What `catalog_spec` guarantees: the catalog is sorted by name, holds
/// each input slug exactly once and nothing else, and each slug keeps the
/// fields of the last input entry carrying it.
pub proof fn lemma_catalog_props(s: Seq<CardView>)
    ensures
        sorted_by_name(catalog_spec(s)),
        unique_slugs(catalog_spec(s)),
        forall|x: Seq<char>| has_slug(catalog_spec(s), x) <==> has_slug(s, x),
        forall|x: Seq<char>|
            has_slug(s, x) ==> entry_of(catalog_spec(s), x) == last_entry(s, x),
{
    lemma_merge_props(s);
    lemma_sort_props(merge_dedup(s));
    assert forall|x: Seq<char>|
        has_slug(s, x) implies entry_of(catalog_spec(s), x) == last_entry(s, x) by {
        lemma_merge_last_wins(s, x);
    }
}

/// The last entry with a given slug in a combined sequence comes from the
/// second part whenever the second part has the slug at all.
pub proof fn lemma_last_entry_concat(a: Seq<CardView>, b: Seq<CardView>, x: Seq<char>)
    requires
        has_slug(b, x),
    ensures
        has_slug(a + b, x),
        last_entry(a + b, x) == last_entry(b, x),
    decreases b.len(),
{
    let i = choose|i: int| 0 <= i < b.len() && (#[trigger] b[i]).slug == x;
    assert((a + b)[a.len() + i].slug == x);
    if b.last().slug == x {
        assert((a + b).last() == b.last());
    } else {
        assert(i < b.len() - 1);
        assert(b.drop_last()[i] == b[i]);
        assert(has_slug(b.drop_last(), x));
        lemma_last_entry_concat(a, b.drop_last(), x);
        assert((a + b).drop_last() =~= a + b.drop_last());
        assert((a + b).last() == b.last());
    }
}

/// Law: when the curated list and the override list share a slug, the
/// catalog holds exactly one entry for it, and its fields are those of the
/// override (more precisely: of the last override entry with that slug).
pub proof fn lemma_override_wins(
    curated: Seq<CardView>,
    overrides: Seq<CardView>,
    slug: Seq<char>,
)
    requires
        has_slug(overrides, slug),
    ensures
        has_slug(catalog_spec(curated + overrides), slug),
        unique_slugs(catalog_spec(curated + overrides)),
        entry_of(catalog_spec(curated + overrides), slug) == last_entry(overrides, slug),
{
    lemma_last_entry_concat(curated, overrides, slug);
    lemma_catalog_props(curated + overrides);
}

/// Law: catalog building is deterministic and idempotent over its input:
/// two catalogs built from the same combined input are identical, and they
/// carry exactly the input's slugs.
pub proof fn lemma_catalog_deterministic(
    entries: Seq<CardView>,
    c1: Seq<CardView>,
    c2: Seq<CardView>,
)
    requires
        c1 == catalog_spec(entries),
        c2 == catalog_spec(entries),
    ensures
        c1 == c2,
        forall|x: Seq<char>| has_slug(c1, x) <==> has_slug(entries, x),
        forall|x: Seq<char>|
            has_slug(entries, x) ==> entry_of(c1, x) == last_entry(entries, x),
{
    lemma_catalog_props(entries);
}

/// Builds the catalog: curated entries first, then discovered/override
/// entries, merged by slug (the discovered entry wins) and sorted by
/// display name.
pub fn build_catalog(curated: Vec<TarotCard>, discovered: Vec<TarotCard>) -> (r: Vec<TarotCard>)
    ensures
        r.deep_view() == catalog_spec(curated.deep_view() + discovered.deep_view()),
        sorted_by_name(r.deep_view()),
        unique_slugs(r.deep_view()),
{
    let ghost cd = curated.deep_view();
    let ghost dd = discovered.deep_view();
    let mut all = curated;
    let mut rest = discovered;
    all.append(&mut rest);
    proof {
        assert(all.deep_view() =~= cd + dd);
    }
    let merged = merge_cards(&all);
    let r = sort_cards_by_name(&merged);
    proof {
        lemma_catalog_props(cd + dd);
    }
    r
}

/// Builds one card from string literals.
fn card(slug: &str, name: &str, upright: &str, reversed: &str, keywords: Vec<String>) -> (r:
    TarotCard)
    ensures
        r@.slug == slug@,
        r@.name == name@,
        r@.upright == upright@,
        r@.reversed == reversed@,
        r@.keywords == keywords.deep_view(),
{
    TarotCard {
        slug: slug.to_owned(),
        name: name.to_owned(),
        upright: upright.to_owned(),
        reversed: reversed.to_owned(),
        keywords,
    }
}

/// Builds a three-entry keyword list.
fn kw(a: &str, b: &str, c: &str) -> (r: Vec<String>)
    ensures
        r.deep_view() == seq![a@, b@, c@],
{
    let mut r: Vec<String> = Vec::new();
    r.push(a.to_owned());
    r.push(b.to_owned());
    r.push(c.to_owned());
    proof {
        assert(r.deep_view() =~= seq![a@, b@, c@]);
    }
    r
}

/// The curated card list as a mathematical value: the exact entries of
/// [`curated_cards`], field by field.
pub open spec fn curated_views() -> Seq<CardView> {
    seq![
        (CardView {
            slug: "the-fool"@,
            name: "The Fool"@,
            upright: "Leap into the new with curiosity and trust the journey."@,
            reversed: "Check your footing before you jump; an impulsive move needs a pause."@,
            keywords: seq!["beginnings"@, "wonder"@, "faith"@],
        }),
        (CardView {
            slug: "the-magician"@,
            name: "The Magician"@,
            upright: "Every tool you need is within reach – act with focused intent."@,
            reversed: "Scattered attention or doubt is blurring the spell."@,
            keywords: seq!["skill"@, "willpower"@, "manifestation"@],
        }),
        (CardView {
            slug: "the-high-priestess"@,
            name: "The High Priestess"@,
            upright: "Your quiet inner voice already knows the answer."@,
            reversed: "Secrets or second guessing are muffling your intuition."@,
            keywords: seq!["intuition"@, "mystery"@, "stillness"@],
        }),
        (CardView {
            slug: "the-empress"@,
            name: "The Empress"@,
            upright: "Nurture ideas with warmth and watch abundance bloom."@,
            reversed: "Creative energy feels blocked – offer yourself gentle care."@,
            keywords: seq!["creation"@, "care"@, "fertility"@],
        }),
        (CardView {
            slug: "the-emperor"@,
            name: "The Emperor"@,
            upright: "Lead with calm structure and grounded confidence."@,
            reversed: "Rigidity is choking growth – loosen the rules."@,
            keywords: seq!["authority"@, "stability"@, "boundaries"@],
        }),
        (CardView {
            slug: "the-hierophant"@,
            name: "The Hierophant"@,
            upright: "Tradition or mentorship lights the next step on your path."@,
            reversed: "Rewrite the rulebook – dogma is holding you back."@,
            keywords: seq!["wisdom"@, "ritual"@, "learning"@],
        }),
        (CardView {
            slug: "the-lovers"@,
            name: "The Lovers"@,
            upright: "Aligned values create magnetic connection."@,
            reversed: "Mixed signals ask for honest conversation."@,
            keywords: seq!["union"@, "choice"@, "harmony"@],
        }),
        (CardView {
            slug: "the-chariot"@,
            name: "The Chariot"@,
            upright: "Harness your momentum – drive forward with intention."@,
            reversed: "Split focus causes wheel spin; regain your direction."@,
            keywords: seq!["determination"@, "motion"@, "victory"@],
        }),
        (CardView {
            slug: "strength"@,
            name: "Strength"@,
            upright: "Gentle courage tames the wildest storm."@,
            reversed: "Self-doubt is louder than your heart – offer yourself compassion."@,
            keywords: seq!["courage"@, "patience"@, "resilience"@],
        }),
        (CardView {
            slug: "the-hermit"@,
            name: "The Hermit"@,
            upright: "Seek solitude to let the inner lantern glow brighter."@,
            reversed: "Isolation has gone too far – open the door a little."@,
            keywords: seq!["reflection"@, "guidance"@, "stillness"@],
        }),
        (CardView {
            slug: "wheel-of-fortune"@,
            name: "Wheel of Fortune"@,
            upright: "Life is turning; ride the wave of change with faith."@,
            reversed: "Clinging too tightly slows the wheel – adapt and release."@,
            keywords: seq!["cycles"@, "destiny"@, "timing"@],
        }),
        (CardView {
            slug: "justice"@,
            name: "Justice"@,
            upright: "Look at every angle – fairness comes from clarity."@,
            reversed: "Hidden facts or denial keep the scales uneven."@,
            keywords: seq!["truth"@, "balance"@, "accountability"@],
        }),
        (CardView {
            slug: "the-hanged-man"@,
            name: "The Hanged Man"@,
            upright: "A fresh perspective appears when you surrender control."@,
            reversed: "Stagnation lingers; take a conscious step forward."@,
            keywords: seq!["pause"@, "insight"@, "release"@],
        }),
        (CardView {
            slug: "death"@,
            name: "Death"@,
            upright: "An ending clears space for a profound rebirth."@,
            reversed: "Resistance to change is draining your energy."@,
            keywords: seq!["transformation"@, "closure"@, "renewal"@],
        }),
        (CardView {
            slug: "temperance"@,
            name: "Temperance"@,
            upright: "Blend patience with purpose to find your sweet spot."@,
            reversed: "Imbalance shows up as burnout – restore your rhythm."@,
            keywords: seq!["moderation"@, "alchemy"@, "flow"@],
        }),
        (CardView {
            slug: "the-devil"@,
            name: "The Devil"@,
            upright: "Name the chain and you can choose to remove it."@,
            reversed: "A release is underway – keep untangling from old habits."@,
            keywords: seq!["shadow"@, "attachment"@, "temptation"@],
        }),
        (CardView {
            slug: "the-tower"@,
            name: "The Tower"@,
            upright: "Sudden change shakes loose what was never stable."@,
            reversed: "Avoidance delays the inevitable rebuild – begin now."@,
            keywords: seq!["upheaval"@, "awakening"@, "liberation"@],
        }),
        (CardView {
            slug: "the-star"@,
            name: "The Star"@,
            upright: "Hope returns – pour light back into your dreams."@,
            reversed: "Tend the spark; cynicism is dimming your shine."@,
            keywords: seq!["healing"@, "optimism"@, "guidance"@],
        }),
        (CardView {
            slug: "the-moon"@,
            name: "The Moon"@,
            upright: "Listen to your dreams; intuition speaks in symbols tonight."@,
            reversed: "Foggy fears fade when you ground in reality."@,
            keywords: seq!["intuition"@, "mystery"@, "emotion"@],
        }),
        (CardView {
            slug: "the-sun"@,
            name: "The Sun"@,
            upright: "Joy and clarity radiate – share your light freely."@,
            reversed: "A cloud passes overhead, but the warmth remains."@,
            keywords: seq!["vitality"@, "success"@, "confidence"@],
        }),
        (CardView {
            slug: "judgement"@,
            name: "Judgement"@,
            upright: "Answer the call – your next chapter is ready."@,
            reversed: "Self-criticism is muting the trumpet. Forgive and rise."@,
            keywords: seq!["awakening"@, "purpose"@, "evaluation"@],
        }),
        (CardView {
            slug: "the-world"@,
            name: "The World"@,
            upright: "Celebrate completion – a cycle is gracefully closing."@,
            reversed: "Tie up loose threads before you move on."@,
            keywords: seq!["wholeness"@, "achievement"@, "integration"@],
        }),
        (CardView {
            slug: "ace-of-cups"@,
            name: "Ace of Cups"@,
            upright: "Love and inspiration overflow – receive the blessing."@,
            reversed: "Check in with your heart; it needs a refill."@,
            keywords: seq!["emotion"@, "intuition"@, "connection"@],
        }),
        (CardView {
            slug: "two-of-cups"@,
            name: "Two of Cups"@,
            upright: "Mutual respect creates a beautiful exchange."@,
            reversed: "Realign expectations; a bond needs honest tending."@,
            keywords: seq!["partnership"@, "trust"@, "balance"@],
        }),
        (CardView {
            slug: "ace-of-wands"@,
            name: "Ace of Wands"@,
            upright: "Ignite the idea – action turns spark into flame."@,
            reversed: "Restlessness scatters the fire; choose one direction."@,
            keywords: seq!["passion"@, "drive"@, "creation"@],
        }),
        (CardView {
            slug: "ace-of-swords"@,
            name: "Ace of Swords"@,
            upright: "Truth slices through confusion – speak with clarity."@,
            reversed: "Doubt fogs the insight; ground your thoughts."@,
            keywords: seq!["clarity"@, "logic"@, "communication"@],
        }),
        (CardView {
            slug: "ace-of-pentacles"@,
            name: "Ace of Pentacles"@,
            upright: "A practical opportunity is ready to plant."@,
            reversed: "Tidy the foundation before investing more energy."@,
            keywords: seq!["stability"@, "resources"@, "new beginning"@],
        }),
    ]
}

/// The curated card list: the Major Arcana plus a sample of the Minor
/// Arcana.
#[verifier::rlimit(60)]
pub fn curated_cards() -> (r: Vec<TarotCard>)
    ensures
        r.deep_view() == curated_views(),
        r.deep_view().len() == 27,
        has_slug(r.deep_view(), "the-fool"@),
{
    let mut v: Vec<TarotCard> = Vec::new();
    v.push(card("the-fool", "The Fool", "Leap into the new with curiosity and trust the journey.", "Check your footing before you jump; an impulsive move needs a pause.", kw("beginnings", "wonder", "faith")));
    v.push(card("the-magician", "The Magician", "Every tool you need is within reach – act with focused intent.", "Scattered attention or doubt is blurring the spell.", kw("skill", "willpower", "manifestation")));
    v.push(card("the-high-priestess", "The High Priestess", "Your quiet inner voice already knows the answer.", "Secrets or second guessing are muffling your intuition.", kw("intuition", "mystery", "stillness")));
    v.push(card("the-empress", "The Empress", "Nurture ideas with warmth and watch abundance bloom.", "Creative energy feels blocked – offer yourself gentle care.", kw("creation", "care", "fertility")));
    v.push(card("the-emperor", "The Emperor", "Lead with calm structure and grounded confidence.", "Rigidity is choking growth – loosen the rules.", kw("authority", "stability", "boundaries")));
    v.push(card("the-hierophant", "The Hierophant", "Tradition or mentorship lights the next step on your path.", "Rewrite the rulebook – dogma is holding you back.", kw("wisdom", "ritual", "learning")));
    v.push(card("the-lovers", "The Lovers", "Aligned values create magnetic connection.", "Mixed signals ask for honest conversation.", kw("union", "choice", "harmony")));
    v.push(card("the-chariot", "The Chariot", "Harness your momentum – drive forward with intention.", "Split focus causes wheel spin; regain your direction.", kw("determination", "motion", "victory")));
    v.push(card("strength", "Strength", "Gentle courage tames the wildest storm.", "Self-doubt is louder than your heart – offer yourself compassion.", kw("courage", "patience", "resilience")));
    v.push(card("the-hermit", "The Hermit", "Seek solitude to let the inner lantern glow brighter.", "Isolation has gone too far – open the door a little.", kw("reflection", "guidance", "stillness")));
    v.push(card("wheel-of-fortune", "Wheel of Fortune", "Life is turning; ride the wave of change with faith.", "Clinging too tightly slows the wheel – adapt and release.", kw("cycles", "destiny", "timing")));
    v.push(card("justice", "Justice", "Look at every angle – fairness comes from clarity.", "Hidden facts or denial keep the scales uneven.", kw("truth", "balance", "accountability")));
    v.push(card("the-hanged-man", "The Hanged Man", "A fresh perspective appears when you surrender control.", "Stagnation lingers; take a conscious step forward.", kw("pause", "insight", "release")));
    v.push(card("death", "Death", "An ending clears space for a profound rebirth.", "Resistance to change is draining your energy.", kw("transformation", "closure", "renewal")));
    v.push(card("temperance", "Temperance", "Blend patience with purpose to find your sweet spot.", "Imbalance shows up as burnout – restore your rhythm.", kw("moderation", "alchemy", "flow")));
    v.push(card("the-devil", "The Devil", "Name the chain and you can choose to remove it.", "A release is underway – keep untangling from old habits.", kw("shadow", "attachment", "temptation")));
    v.push(card("the-tower", "The Tower", "Sudden change shakes loose what was never stable.", "Avoidance delays the inevitable rebuild – begin now.", kw("upheaval", "awakening", "liberation")));
    v.push(card("the-star", "The Star", "Hope returns – pour light back into your dreams.", "Tend the spark; cynicism is dimming your shine.", kw("healing", "optimism", "guidance")));
    v.push(card("the-moon", "The Moon", "Listen to your dreams; intuition speaks in symbols tonight.", "Foggy fears fade when you ground in reality.", kw("intuition", "mystery", "emotion")));
    v.push(card("the-sun", "The Sun", "Joy and clarity radiate – share your light freely.", "A cloud passes overhead, but the warmth remains.", kw("vitality", "success", "confidence")));
    v.push(card("judgement", "Judgement", "Answer the call – your next chapter is ready.", "Self-criticism is muting the trumpet. Forgive and rise.", kw("awakening", "purpose", "evaluation")));
    v.push(card("the-world", "The World", "Celebrate completion – a cycle is gracefully closing.", "Tie up loose threads before you move on.", kw("wholeness", "achievement", "integration")));
    v.push(card("ace-of-cups", "Ace of Cups", "Love and inspiration overflow – receive the blessing.", "Check in with your heart; it needs a refill.", kw("emotion", "intuition", "connection")));
    v.push(card("two-of-cups", "Two of Cups", "Mutual respect creates a beautiful exchange.", "Realign expectations; a bond needs honest tending.", kw("partnership", "trust", "balance")));
    v.push(card("ace-of-wands", "Ace of Wands", "Ignite the idea – action turns spark into flame.", "Restlessness scatters the fire; choose one direction.", kw("passion", "drive", "creation")));
    v.push(card("ace-of-swords", "Ace of Swords", "Truth slices through confusion – speak with clarity.", "Doubt fogs the insight; ground your thoughts.", kw("clarity", "logic", "communication")));
    v.push(card("ace-of-pentacles", "Ace of Pentacles", "A practical opportunity is ready to plant.", "Tidy the foundation before investing more energy.", kw("stability", "resources", "new beginning")));
    proof {
        assert(v.deep_view() =~= curated_views());
        let dv = v.deep_view();
        assert(dv[0].slug == "the-fool"@);
        assert(has_slug(dv, "the-fool"@));
    }
    v
}

} // verus!
