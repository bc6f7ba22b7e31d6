//! The cached list of solar systems and name completion over it.

use vstd::prelude::*;
use crate::sorting::{
    is_permutation, is_stable_order, key_before, key_views, lemma_permutation_covers, lemma_permutation_fits,
    lemma_stable_order_unique,
    stable_order,
};
use crate::text::{lemma_lex_order, lex_lt};
use crate::text::{chars_of, chars_start_with, lowercase_chars, lowercase_of};

verus! {

/// How long a fetched system list stays valid, in seconds (one day).
pub const CACHE_TTL_SECS: u64 = 86400;

/// One solar system: its id and its name.
pub struct SystemEntry {
    pub id: i64,
    pub name: String,
}

/// The system list together with the time it was fetched and the time it
/// expires (Unix seconds).
pub struct SystemCache {
    systems: Vec<SystemEntry>,
    cached_at: u64,
    expires_at: u64,
}

/// `out` is `items` stably sorted by `keys` (position by position): some
/// stable order of the keys carries `items` onto `out`.
pub open spec fn is_stable_sort_of<T>(out: Seq<T>, items: Seq<T>, keys: Seq<Seq<char>>) -> bool {
    exists|ord: Seq<usize>|
        #![trigger is_stable_order(keys, ord)]
        is_stable_order(keys, ord) && out.len() == ord.len() && forall|k: int|
            0 <= k < out.len() ==> out[k] == items[#[trigger] ord[k] as int]
}

/// A stable sort has one outcome: two lists that both sort `items` by
/// `keys` are the same list.
pub proof fn lemma_stable_sort_unique<T>(out1: Seq<T>, out2: Seq<T>, items: Seq<T>, keys: Seq<Seq<char>>)
    requires
        is_stable_sort_of(out1, items, keys),
        is_stable_sort_of(out2, items, keys),
    ensures
        out1 == out2,
{
    let o1 = choose|ord: Seq<usize>|
        #![trigger is_stable_order(keys, ord)]
        is_stable_order(keys, ord) && out1.len() == ord.len() && forall|k: int|
            0 <= k < out1.len() ==> out1[k] == items[#[trigger] ord[k] as int];
    let o2 = choose|ord: Seq<usize>|
        #![trigger is_stable_order(keys, ord)]
        is_stable_order(keys, ord) && out2.len() == ord.len() && forall|k: int|
            0 <= k < out2.len() ==> out2[k] == items[#[trigger] ord[k] as int];
    lemma_stable_order_unique(keys, o1, o2);
    assert forall|k: int| 0 <= k < out1.len() implies out1[k] == out2[k] by {
        assert(out1[k] == items[o1[k] as int]);
        assert(out2[k] == items[o2[k] as int]);
    }
    assert(out1 =~= out2);
}

/// A completion candidate: its lowercase form starts with the lowercase
/// prefix.
pub open spec fn completion_matches(prefix: Seq<char>, name: Seq<char>) -> bool {
    lowercase_of(prefix).is_prefix_of(lowercase_of(name))
}

/// The names of the entries that match the prefix, in list order.
pub open spec fn completion_candidates(entries: Seq<SystemEntry>, prefix: Seq<char>) -> Seq<Seq<char>> {
    entries.filter_map(completion_pick(prefix))
}

/// The name of a matching entry, and nothing for any other entry.
pub open spec fn completion_pick(prefix: Seq<char>) -> spec_fn(SystemEntry) -> Option<Seq<char>> {
    |e: SystemEntry|
        if completion_matches(prefix, e.name@) {
            Some(e.name@)
        } else {
            None
        }
}

/// The names of the string list.
pub open spec fn names_view(v: Seq<String>) -> Seq<Seq<char>> {
    v.map_values(|s: String| s@)
}

/// The sort keys of names: their lowercase forms.
pub open spec fn lowercase_keys(names: Seq<Seq<char>>) -> Seq<Seq<char>> {
    names.map_values(|n: Seq<char>| lowercase_of(n))
}

/// The entries that were fetched, in arrival order.
pub open spec fn fetched_entries(results: Seq<Option<SystemEntry>>) -> Seq<SystemEntry> {
    results.filter_map(|o: Option<SystemEntry>| o)
}

/// The sort keys of entries: the lowercase forms of their names.
pub open spec fn entry_keys(entries: Seq<SystemEntry>) -> Seq<Seq<char>> {
    entries.map_values(|e: SystemEntry| lowercase_of(e.name@))
}

/// The expiry time that a fetch at `cached_at` gets: the server's expiry
/// hint, but never less than one day after the fetch.
pub open spec fn expiry_after(hint: u64, cached_at: u64) -> int {
    if hint >= cached_at + CACHE_TTL_SECS {
        hint as int
    } else {
        cached_at + CACHE_TTL_SECS
    }
}

/// A list just fetched is kept for at least a day: until one day after the
/// fetch, its expiry still lies ahead, whatever the server's hint.
pub proof fn lemma_fetched_list_stays_fresh(hint: u64, cached_at: u64, now: u64)
    requires
        cached_at + CACHE_TTL_SECS <= u64::MAX,
        now < cached_at + CACHE_TTL_SECS,
    ensures
        expiry_after(hint, cached_at) > now,
{
}

/// The expiry time read from an HTTP date: one day from `now` (the date
/// itself is not read), or nothing when that overflows.
pub fn http_date_to_timestamp(http_date: &str, now: u64) -> (r: Option<u64>)
    ensures
        r matches Some(t) ==> t == now + CACHE_TTL_SECS,
        r is None <==> now + CACHE_TTL_SECS > u64::MAX,
{
    now.checked_add(CACHE_TTL_SECS)
}

/// The expiry time of a list fetched at `cached_at` with an expiry hint, or
/// nothing when one day after the fetch does not fit in a `u64`.
pub fn cache_expiry(hint: u64, cached_at: u64) -> (r: Option<u64>)
    ensures
        r matches Some(t) ==> t == expiry_after(hint, cached_at),
        r is None <==> cached_at + CACHE_TTL_SECS > u64::MAX,
{
    match cached_at.checked_add(CACHE_TTL_SECS) {
        None => None,
        Some(min) => Some(if hint >= min {
            hint
        } else {
            min
        }),
    }
}

/// The fetched entries, sorted by the lowercase form of their names in
/// code-point order (equal forms keep their arrival order).  `results` holds
/// one slot per requested system, empty where its lookup failed.
pub fn collect_system_entries(results: Vec<Option<SystemEntry>>) -> (entries: Vec<SystemEntry>)
    ensures
        is_stable_sort_of(entries@, fetched_entries(results@), entry_keys(fetched_entries(results@))),
{
    let ghost pick = |o: Option<SystemEntry>| o;
    let mut found: Vec<SystemEntry> = Vec::new();
    let mut keys: Vec<Vec<char>> = Vec::new();
    let n = results.len();
    let mut i: usize = 0;
    while i < n
        invariant
            n == results.len(),
            i <= n,
            pick == (|o: Option<SystemEntry>| o),
            found@ == results@.take(i as int).filter_map(pick),
            key_views(keys@) == entry_keys(found@),
        decreases n - i,
    {
        let ghost t = results@.take(i + 1);
        assert(t.drop_last() =~= results@.take(i as int));
        assert(t.last() == results@[i as int]);
        match &results[i] {
            Some(e) => {
                let ghost prevk = keys@;
                let key = lowercase_chars(e.name.as_str());
                let entry = SystemEntry { id: e.id, name: e.name.clone() };
                found.push(entry);
                keys.push(key);
                assert(t.filter_map(pick) =~= t.drop_last().filter_map(pick) + seq![*e]);
                assert(key_views(keys@) =~= key_views(prevk).push(key@));
                assert(key_views(keys@) =~= entry_keys(found@));
            },
            None => {
                assert(t.filter_map(pick) =~= t.drop_last().filter_map(pick));
            },
        }
        i = i + 1;
    }
    assert(results@.take(n as int) =~= results@);
    let ghost items = found@;
    let ord = stable_order(&keys);
    let mut entries: Vec<SystemEntry> = Vec::new();
    let mut k: usize = 0;
    while k < ord.len()
        invariant
            is_stable_order(key_views(keys@), ord@),
            key_views(keys@).len() == found.len(),
            items == found@,
            k <= ord.len(),
            entries.len() == k,
            forall|m: int| 0 <= m < k ==> entries@[m] == items[#[trigger] ord@[m] as int],
        decreases ord.len() - k,
    {
        let e = &found[ord[k]];
        entries.push(SystemEntry { id: e.id, name: e.name.clone() });
        k = k + 1;
    }
    assert(is_stable_order(entry_keys(items), ord@));
    entries
}

/// `b` holds the items of `a`, each once, in another order: `b[k]` is
/// `a[p[k]]` for a permutation `p` of the positions.
pub open spec fn is_reordering<T>(a: Seq<T>, b: Seq<T>) -> bool {
    exists|p: Seq<usize>|
        #![trigger is_permutation(p, a.len())]
        is_permutation(p, a.len()) && b.len() == a.len() && forall|k: int|
            0 <= k < b.len() ==> b[k] == a[#[trigger] p[k] as int]
}

/// No two keys are the same.
pub open spec fn distinct_keys(keys: Seq<Seq<char>>) -> bool {
    forall|i: int, j: int| 0 <= i < j < keys.len() ==> keys[i] != keys[j]
}

/// The order in which system lookups come back does not matter when no two
/// fetched names have the same lowercase form: any two arrival orders of the
/// same entries give the same sorted list.
pub proof fn lemma_arrival_order_irrelevant(
    results1: Seq<Option<SystemEntry>>,
    results2: Seq<Option<SystemEntry>>,
    out1: Seq<SystemEntry>,
    out2: Seq<SystemEntry>,
)
    requires
        is_reordering(fetched_entries(results1), fetched_entries(results2)),
        distinct_keys(entry_keys(fetched_entries(results1))),
        is_stable_sort_of(out1, fetched_entries(results1), entry_keys(fetched_entries(results1))),
        is_stable_sort_of(out2, fetched_entries(results2), entry_keys(fetched_entries(results2))),
    ensures
        out1 == out2,
{
    let a = fetched_entries(results1);
    let b = fetched_entries(results2);
    let ka = entry_keys(a);
    let kb = entry_keys(b);
    let n = a.len();
    let p = choose|p: Seq<usize>|
        #![trigger is_permutation(p, a.len())]
        is_permutation(p, a.len()) && b.len() == a.len() && forall|k: int|
            0 <= k < b.len() ==> b[k] == a[#[trigger] p[k] as int];
    let o1 = choose|ord: Seq<usize>|
        #![trigger is_stable_order(ka, ord)]
        is_stable_order(ka, ord) && out1.len() == ord.len() && forall|k: int|
            0 <= k < out1.len() ==> out1[k] == a[#[trigger] ord[k] as int];
    let pinv = Seq::new(n, |i: int| (choose|j: int| 0 <= j < n && p[j] as int == i) as usize);
    lemma_permutation_fits(p, n);
    assert forall|i: int| 0 <= i < n implies #[trigger] pinv[i] < n && p[pinv[i] as int] as int == i by {
        lemma_permutation_covers(p, n, i);
        let j = choose|j: int| 0 <= j < n && p[j] as int == i;
        assert(pinv[i] == j as usize);
    }
    let ord2 = Seq::new(n, |k: int| pinv[o1[k] as int]);
    assert forall|k: int| 0 <= k < n implies #[trigger] ord2[k] < n && b[ord2[k] as int] == a[o1[k] as int]
        && kb[ord2[k] as int] == ka[o1[k] as int] by {
        assert(o1[k] < n);
        let j = ord2[k] as int;
        assert(b[j] == a[p[j] as int]);
    }
    assert forall|x: int, y: int| 0 <= x < y < ord2.len() implies #[trigger] ord2[x] != #[trigger] ord2[y] by {
        assert(o1[x] != o1[y]);
        if ord2[x] == ord2[y] {
            assert(p[ord2[x] as int] as int == o1[x] as int);
            assert(p[ord2[y] as int] as int == o1[y] as int);
        }
    }
    assert forall|x: int, y: int| 0 <= x < y < ord2.len() implies key_before(
        kb,
        #[trigger] ord2[x] as int,
        #[trigger] ord2[y] as int,
    ) by {
        let i = o1[x] as int;
        let j = o1[y] as int;
        assert(key_before(ka, i, j));
        assert(i != j);
        if i < j {
            assert(ka[i] != ka[j]);
        } else {
            assert(ka[j] != ka[i]);
        }
        assert(kb[ord2[x] as int] == ka[i]);
        assert(kb[ord2[y] as int] == ka[j]);
    }
    assert(is_stable_order(kb, ord2));
    assert forall|k: int| 0 <= k < out1.len() implies out1[k] == b[#[trigger] ord2[k] as int] by {
        assert(out1[k] == a[o1[k] as int]);
    }
    lemma_stable_sort_unique(out1, out2, b, kb);
}

/// Taking the last item out of a stable sort by lowercase form leaves a
/// stable sort of the other items; the items before it do not sort after
/// it, and those after it sort strictly after it.
proof fn lemma_sort_without_last(out: Seq<Seq<char>>, items: Seq<Seq<char>>) -> (t: int)
    requires
        items.len() > 0,
        is_stable_sort_of(out, items, lowercase_keys(items)),
    ensures
        0 <= t < out.len(),
        out.len() == items.len(),
        out[t] == items.last(),
        is_stable_sort_of(out.remove(t), items.drop_last(), lowercase_keys(items.drop_last())),
        forall|k: int| 0 <= k < t ==> !lex_lt(lowercase_of(items.last()), lowercase_of(#[trigger] out[k])),
        forall|k: int| t < k < out.len() ==> lex_lt(lowercase_of(items.last()), lowercase_of(#[trigger] out[k])),
{
    let keys = lowercase_keys(items);
    let n = items.len();
    let ord = choose|ord: Seq<usize>|
        #![trigger is_stable_order(keys, ord)]
        is_stable_order(keys, ord) && out.len() == ord.len() && forall|k: int|
            0 <= k < out.len() ==> out[k] == items[#[trigger] ord[k] as int];
    lemma_permutation_covers(ord, n, n - 1);
    let t = choose|i: int| 0 <= i < n && ord[i] as int == n - 1;
    let rest = items.drop_last();
    let rkeys = lowercase_keys(rest);
    let ord_r = ord.remove(t);
    assert forall|k: int| 0 <= k < ord_r.len() implies #[trigger] ord_r[k] < n - 1 && ord_r[k] == ord[if k < t {
        k
    } else {
        k + 1
    }] by {
        let j = if k < t {
            k
        } else {
            k + 1
        };
        if j < t {
            assert(ord[j] != ord[t]);
        } else {
            assert(ord[t] != ord[j]);
        }
    }
    assert forall|a: int, b: int| 0 <= a < b < ord_r.len() implies #[trigger] ord_r[a] != #[trigger] ord_r[b] by {
        let ja = if a < t {
            a
        } else {
            a + 1
        };
        let jb = if b < t {
            b
        } else {
            b + 1
        };
        assert(ord[ja] != ord[jb]);
    }
    assert forall|a: int, b: int| 0 <= a < b < ord_r.len() implies key_before(
        rkeys,
        #[trigger] ord_r[a] as int,
        #[trigger] ord_r[b] as int,
    ) by {
        let ja = if a < t {
            a
        } else {
            a + 1
        };
        let jb = if b < t {
            b
        } else {
            b + 1
        };
        assert(key_before(keys, ord[ja] as int, ord[jb] as int));
        assert(rkeys[ord_r[a] as int] == keys[ord_r[a] as int]);
        assert(rkeys[ord_r[b] as int] == keys[ord_r[b] as int]);
    }
    assert(is_stable_order(rkeys, ord_r));
    let out_r = out.remove(t);
    assert forall|k: int| 0 <= k < out_r.len() implies out_r[k] == rest[#[trigger] ord_r[k] as int] by {
        let j = if k < t {
            k
        } else {
            k + 1
        };
        assert(out[j] == items[ord[j] as int]);
    }
    assert forall|k: int| 0 <= k < t implies !lex_lt(lowercase_of(items.last()), lowercase_of(#[trigger] out[k])) by {
        assert(key_before(keys, ord[k] as int, ord[t] as int));
        assert(out[k] == items[ord[k] as int]);
        lemma_lex_order(keys[ord[k] as int], keys[n - 1], keys[ord[k] as int]);
    }
    assert forall|k: int| t < k < out.len() implies lex_lt(lowercase_of(items.last()), lowercase_of(#[trigger] out[k])) by {
        assert(key_before(keys, ord[t] as int, ord[k] as int));
        assert(out[k] == items[ord[k] as int]);
    }
    assert(out[t] == items[n - 1]);
    t
}

/// Putting a new last item into a stable sort by lowercase form, after the
/// items that do not sort after it and before those that sort strictly after
/// it, gives a stable sort of the longer list.
proof fn lemma_sort_with_last(s: Seq<Seq<char>>, items: Seq<Seq<char>>, x: Seq<char>, t: int)
    requires
        items.len() <= usize::MAX,
        is_stable_sort_of(s, items, lowercase_keys(items)),
        0 <= t <= s.len(),
        forall|k: int| 0 <= k < t ==> !lex_lt(lowercase_of(x), lowercase_of(#[trigger] s[k])),
        forall|k: int| t <= k < s.len() ==> lex_lt(lowercase_of(x), lowercase_of(#[trigger] s[k])),
    ensures
        is_stable_sort_of(s.take(t) + seq![x] + s.skip(t), items.push(x), lowercase_keys(items.push(x))),
{
    let keys = lowercase_keys(items);
    let m = items.len();
    let ord = choose|ord: Seq<usize>|
        #![trigger is_stable_order(keys, ord)]
        is_stable_order(keys, ord) && s.len() == ord.len() && forall|k: int|
            0 <= k < s.len() ==> s[k] == items[#[trigger] ord[k] as int];
    let big = items.push(x);
    let bkeys = lowercase_keys(big);
    let out = s.take(t) + seq![x] + s.skip(t);
    let ord3 = ord.take(t) + seq![m as usize] + ord.skip(t);
    assert forall|k: int| 0 <= k < ord3.len() implies #[trigger] ord3[k] <= m && (ord3[k] == m <==> k == t) && (
    k < t ==> ord3[k] == ord[k]) && (k > t ==> ord3[k] == ord[k - 1]) && out[k] == big[ord3[k] as int]
        && bkeys[ord3[k] as int] == lowercase_of(out[k]) by {
        if k < t {
            assert(ord3[k] == ord[k]);
            assert(out[k] == s[k]);
        } else if k > t {
            assert(ord3[k] == ord[k - 1]);
            assert(out[k] == s[k - 1]);
        }
    }
    assert forall|a: int, b: int| 0 <= a < b < ord3.len() implies #[trigger] ord3[a] != #[trigger] ord3[b] by {
        if a != t && b != t {
            let ja = if a < t {
                a
            } else {
                a - 1
            };
            let jb = if b < t {
                b
            } else {
                b - 1
            };
            assert(ord[ja] != ord[jb]);
        }
    }
    assert forall|a: int, b: int| 0 <= a < b < ord3.len() implies key_before(
        bkeys,
        #[trigger] ord3[a] as int,
        #[trigger] ord3[b] as int,
    ) by {
        if a == t {
            assert(lex_lt(lowercase_of(x), lowercase_of(s[b - 1])));
        } else if b == t {
            assert(!lex_lt(lowercase_of(x), lowercase_of(s[a])));
            lemma_lex_order(lowercase_of(x), lowercase_of(s[a]), lowercase_of(x));
        } else {
            let ja = if a < t {
                a
            } else {
                a - 1
            };
            let jb = if b < t {
                b
            } else {
                b - 1
            };
            assert(key_before(keys, ord[ja] as int, ord[jb] as int));
            assert(bkeys[ord[ja] as int] == keys[ord[ja] as int]);
            assert(bkeys[ord[jb] as int] == keys[ord[jb] as int]);
        }
    }
    assert(is_stable_order(bkeys, ord3));
    assert forall|k: int| 0 <= k < out.len() implies out[k] == big[#[trigger] ord3[k] as int] by {}
}

/// Keeping only some names of a stable sort by lowercase form gives the
/// stable sort of the names kept.
pub proof fn lemma_filter_keeps_sort(out: Seq<Seq<char>>, items: Seq<Seq<char>>, keep: spec_fn(Seq<char>) -> bool)
    requires
        is_stable_sort_of(out, items, lowercase_keys(items)),
    ensures
        is_stable_sort_of(out.filter(keep), items.filter(keep), lowercase_keys(items.filter(keep))),
    decreases items.len(),
{
    let keys = lowercase_keys(items);
    let ord = choose|ord: Seq<usize>|
        #![trigger is_stable_order(keys, ord)]
        is_stable_order(keys, ord) && out.len() == ord.len() && forall|k: int|
            0 <= k < out.len() ==> out[k] == items[#[trigger] ord[k] as int];
    if items.len() == 0 {
        assert(out =~= Seq::<Seq<char>>::empty());
        assert(out.filter(keep) =~= Seq::<Seq<char>>::empty());
        assert(items.filter(keep) =~= Seq::<Seq<char>>::empty());
        let e = Seq::<usize>::empty();
        assert(is_stable_order(lowercase_keys(items.filter(keep)), e));
    } else {
        let n = items.len();
        let x = items.last();
        let rest = items.drop_last();
        lemma_permutation_fits(ord, n);
        let t = lemma_sort_without_last(out, items);
        let r = out.remove(t);
        lemma_filter_keeps_sort(r, rest, keep);
        let front = r.take(t);
        let back = r.skip(t);
        assert(out =~= front + seq![x] + back);
        assert(r =~= front + back);
        Seq::filter_distributes_over_add(front + seq![x], back, keep);
        Seq::filter_distributes_over_add(front, seq![x], keep);
        Seq::filter_distributes_over_add(front, back, keep);
        let fa = front.filter(keep);
        let fb = back.filter(keep);
        let none = Seq::<Seq<char>>::empty();
        assert(seq![x] =~= none.push(x));
        none.lemma_filter_push(x, keep);
        none.lemma_filter_len(keep);
        assert(items =~= rest.push(x));
        rest.lemma_filter_push(x, keep);
        assert(items.filter(keep) == if keep(x) {
            rest.filter(keep).push(x)
        } else {
            rest.filter(keep)
        });
        if keep(x) {
            assert(seq![x].filter(keep) =~= seq![x]);
            let both = fa + fb;
            assert(both.take(fa.len() as int) =~= fa);
            assert(both.skip(fa.len() as int) =~= fb);
            assert forall|k: int| 0 <= k < fa.len() implies !lex_lt(lowercase_of(x), lowercase_of(#[trigger] both[k])) by {
                assert(both[k] == fa[k]);
                front.lemma_filter_contains_rev(keep, fa[k]);
                let j = choose|j: int| 0 <= j < front.len() && front[j] == fa[k];
                assert(front[j] == out[j]);
            }
            assert forall|k: int| fa.len() <= k < both.len() implies lex_lt(lowercase_of(x), lowercase_of(#[trigger] both[k])) by {
                let i = k - fa.len();
                assert(both[k] == fb[i]);
                back.lemma_filter_contains_rev(keep, fb[i]);
                let j = choose|j: int| 0 <= j < back.len() && back[j] == fb[i];
                assert(back[j] == out[t + 1 + j]);
            }
            rest.lemma_filter_len(keep);
            lemma_sort_with_last(both, rest.filter(keep), x, fa.len() as int);
            assert(out.filter(keep) =~= both.take(fa.len() as int) + seq![x] + both.skip(fa.len() as int));
        } else {
            assert(seq![x].filter(keep) =~= Seq::<Seq<char>>::empty());
            assert(out.filter(keep) =~= r.filter(keep));
        }
    }
}

/// The names that are completions of `prefix`.
pub open spec fn matching(prefix: Seq<char>) -> spec_fn(Seq<char>) -> bool {
    |name: Seq<char>| completion_matches(prefix, name)
}

proof fn lemma_candidates_narrow(entries: Seq<SystemEntry>, short: Seq<char>, long: Seq<char>)
    requires
        lowercase_of(short).is_prefix_of(lowercase_of(long)),
    ensures
        completion_candidates(entries, long) == completion_candidates(entries, short).filter(matching(long)),
    decreases entries.len(),
{
    let cs = completion_candidates(entries, short);
    let cl = completion_candidates(entries, long);
    if entries.len() == 0 {
        cs.lemma_filter_len(matching(long));
        assert(cl =~= cs.filter(matching(long)));
    } else {
        let rest = entries.drop_last();
        let e = entries.last();
        let name = e.name@;
        lemma_candidates_narrow(rest, short, long);
        let rs = completion_candidates(rest, short);
        if completion_matches(long, name) {
            let ls = lowercase_of(short);
            let ll = lowercase_of(long);
            let ln = lowercase_of(name);
            assert(ls =~= ln.subrange(0, ls.len() as int)) by {
                assert forall|i: int| 0 <= i < ls.len() implies ls[i] == ln.subrange(0, ls.len() as int)[i] by {
                    assert(ls[i] == ll[i]);
                    assert(ll[i] == ln[i]);
                }
            }
            assert(completion_matches(short, name));
            assert(cs == rs + seq![name]);
            assert(rs + seq![name] =~= rs.push(name));
            rs.lemma_filter_push(name, matching(long));
        } else if completion_matches(short, name) {
            assert(cs == rs + seq![name]);
            assert(rs + seq![name] =~= rs.push(name));
            rs.lemma_filter_push(name, matching(long));
        } else {
            assert(cs == rs);
        }
    }
}

/// Typing more of a prefix only narrows the completions: when the lowercase
/// longer prefix starts with the lowercase shorter one, the completions of
/// the longer prefix are those of the shorter prefix that it matches, in
/// the same order.
pub proof fn lemma_longer_prefix_narrows(
    entries: Seq<SystemEntry>,
    short: Seq<char>,
    long: Seq<char>,
    names_short: Seq<Seq<char>>,
    names_long: Seq<Seq<char>>,
)
    requires
        lowercase_of(short).is_prefix_of(lowercase_of(long)),
        is_stable_sort_of(
            names_short,
            completion_candidates(entries, short),
            lowercase_keys(completion_candidates(entries, short)),
        ),
        is_stable_sort_of(
            names_long,
            completion_candidates(entries, long),
            lowercase_keys(completion_candidates(entries, long)),
        ),
    ensures
        names_long == names_short.filter(matching(long)),
{
    lemma_candidates_narrow(entries, short, long);
    lemma_filter_keeps_sort(names_short, completion_candidates(entries, short), matching(long));
    lemma_stable_sort_unique(
        names_long,
        names_short.filter(matching(long)),
        completion_candidates(entries, long),
        lowercase_keys(completion_candidates(entries, long)),
    );
}

/// Completions are what was asked for, in order: every name returned starts
/// with the prefix (ignoring case as `to_lowercase` does), every name in the
/// cache that does appears, and the list ascends by lowercase form.
pub proof fn lemma_completions_match_and_ascend(names: Seq<Seq<char>>, entries: Seq<SystemEntry>, prefix: Seq<char>)
    requires
        is_stable_sort_of(
            names,
            completion_candidates(entries, prefix),
            lowercase_keys(completion_candidates(entries, prefix)),
        ),
    ensures
        forall|k: int| 0 <= k < names.len() ==> completion_matches(prefix, #[trigger] names[k]),
        forall|k: int| 0 <= k < names.len() ==> lowercase_of(prefix).is_prefix_of(lowercase_of(#[trigger] names[k])),
        forall|i: int|
            0 <= i < entries.len() && lowercase_of(prefix).is_prefix_of(lowercase_of(#[trigger] entries[i].name@))
                ==> exists|k: int| 0 <= k < names.len() && names[k] == entries[i].name@,
        forall|a: int, b: int|
            0 <= a < b < names.len() ==> !lex_lt(lowercase_of(#[trigger] names[b]), lowercase_of(#[trigger] names[a])),
        names.len() == completion_candidates(entries, prefix).len(),
{
    let cands = completion_candidates(entries, prefix);
    let keys = lowercase_keys(cands);
    let ord = choose|ord: Seq<usize>|
        #![trigger is_stable_order(keys, ord)]
        is_stable_order(keys, ord) && names.len() == ord.len() && forall|k: int|
            0 <= k < names.len() ==> names[k] == cands[#[trigger] ord[k] as int];
    lemma_candidates_match(entries, prefix);
    assert forall|k: int| 0 <= k < names.len() implies completion_matches(prefix, #[trigger] names[k]) by {
        assert(names[k] == cands[ord[k] as int]);
    }
    assert forall|a: int, b: int| 0 <= a < b < names.len() implies !lex_lt(
        lowercase_of(#[trigger] names[b]),
        lowercase_of(#[trigger] names[a]),
    ) by {
        assert(key_before(keys, ord[a] as int, ord[b] as int));
        assert(names[a] == cands[ord[a] as int]);
        assert(names[b] == cands[ord[b] as int]);
        lemma_lex_order(keys[ord[a] as int], keys[ord[b] as int], keys[ord[a] as int]);
    }
    assert forall|k: int| 0 <= k < names.len() implies lowercase_of(prefix).is_prefix_of(
        lowercase_of(#[trigger] names[k]),
    ) by {
        assert(completion_matches(prefix, names[k]));
    }
    assert forall|i: int|
        0 <= i < entries.len() && lowercase_of(prefix).is_prefix_of(lowercase_of(#[trigger] entries[i].name@))
            implies exists|k: int| 0 <= k < names.len() && names[k] == entries[i].name@ by {
        lemma_matching_entry_offered(entries, prefix, i);
        let c = choose|c: int| 0 <= c < cands.len() && cands[c] == entries[i].name@;
        lemma_permutation_covers(ord, cands.len(), c);
        let k = choose|k: int| 0 <= k < cands.len() && ord[k] as int == c;
        assert(names[k] == cands[ord[k] as int]);
    }
}

/// Every entry whose lowercase name starts with the lowercase prefix is a
/// candidate.
proof fn lemma_matching_entry_offered(entries: Seq<SystemEntry>, prefix: Seq<char>, i: int)
    requires
        0 <= i < entries.len(),
        lowercase_of(prefix).is_prefix_of(lowercase_of(entries[i].name@)),
    ensures
        exists|c: int|
            0 <= c < completion_candidates(entries, prefix).len() && completion_candidates(entries, prefix)[c]
                == entries[i].name@,
    decreases entries.len(),
{
    let rest = entries.drop_last();
    let cands = completion_candidates(entries, prefix);
    let rc = completion_candidates(rest, prefix);
    if completion_matches(prefix, entries.last().name@) {
        assert(cands == rc + seq![entries.last().name@]);
        if i == entries.len() - 1 {
            assert(cands[rc.len() as int] == entries[i].name@);
        } else {
            assert(rest[i] == entries[i]);
            lemma_matching_entry_offered(rest, prefix, i);
            let c = choose|c: int| 0 <= c < rc.len() && rc[c] == entries[i].name@;
            assert(cands[c] == rc[c]);
        }
    } else {
        assert(cands == rc);
        assert(i != entries.len() - 1);
        assert(rest[i] == entries[i]);
        lemma_matching_entry_offered(rest, prefix, i);
    }
}

proof fn lemma_candidates_match(entries: Seq<SystemEntry>, prefix: Seq<char>)
    ensures
        forall|k: int|
            0 <= k < completion_candidates(entries, prefix).len() ==> completion_matches(
                prefix,
                #[trigger] completion_candidates(entries, prefix)[k],
            ),
    decreases entries.len(),
{
    if entries.len() > 0 {
        let rest = entries.drop_last();
        lemma_candidates_match(rest, prefix);
        let pick = completion_pick(prefix);
        let c = completion_candidates(entries, prefix);
        let r = completion_candidates(rest, prefix);
        if completion_matches(prefix, entries.last().name@) {
            assert(c == r + seq![entries.last().name@]);
            assert forall|k: int| 0 <= k < c.len() implies completion_matches(prefix, #[trigger] c[k]) by {
                if k < r.len() {
                    assert(c[k] == r[k]);
                }
            }
        } else {
            assert(c == r);
        }
    }
}

impl SystemCache {
    /// The entries of the cache, in stored order.
    pub closed spec fn entries(&self) -> Seq<SystemEntry> {
        self.systems@
    }

    /// When the list was fetched (Unix seconds).
    pub closed spec fn fetched_at(&self) -> u64 {
        self.cached_at
    }

    /// When the list expires (Unix seconds).
    pub closed spec fn expiry(&self) -> u64 {
        self.expires_at
    }

    /// A cache holding exactly these parts.
    pub fn from_parts(systems: Vec<SystemEntry>, cached_at: u64, expires_at: u64) -> (c: SystemCache)
        ensures
            c.entries() == systems@,
            c.fetched_at() == cached_at,
            c.expiry() == expires_at,
    {
        SystemCache { systems, cached_at, expires_at }
    }

    /// A cache of entries fetched at `cached_at` with an expiry hint, expiring
    /// at the hint but no sooner than one day after the fetch; nothing when
    /// that day does not fit in a `u64`.
    pub fn fetched(systems: Vec<SystemEntry>, cached_at: u64, expires_hint: u64) -> (r: Option<SystemCache>)
        ensures
            r is None <==> cached_at + CACHE_TTL_SECS > u64::MAX,
            r matches Some(c) ==> c.entries() == systems@ && c.fetched_at() == cached_at && c.expiry()
                == expiry_after(expires_hint, cached_at),
    {
        match cache_expiry(expires_hint, cached_at) {
            None => None,
            Some(expires_at) => Some(SystemCache { systems, cached_at, expires_at }),
        }
    }

    /// The stored entries.
    pub fn systems(&self) -> (s: &Vec<SystemEntry>)
        ensures
            s@ == self.entries(),
    {
        &self.systems
    }

    /// When the list was fetched (Unix seconds).
    pub fn cached_at(&self) -> (t: u64)
        ensures
            t == self.fetched_at(),
    {
        self.cached_at
    }

    /// When the list expires (Unix seconds).
    pub fn expires_at(&self) -> (t: u64)
        ensures
            t == self.expiry(),
    {
        self.expires_at
    }

    /// Whether the stored list may still be used at `now`: it expires later.
    pub fn is_fresh(&self, now: u64) -> (b: bool)
        ensures
            b == (self.expiry() > now),
    {
        self.expires_at > now
    }

    /// The names of the systems whose lowercase form starts with the
    /// lowercase `prefix`, sorted by their lowercase forms in code-point
    /// order; names with equal lowercase forms keep their list order.
    pub fn get_completions(&self, prefix: &str) -> (names: Vec<String>)
        ensures
            is_stable_sort_of(
                names_view(names@),
                completion_candidates(self.entries(), prefix@),
                lowercase_keys(completion_candidates(self.entries(), prefix@)),
            ),
            forall|k: int|
                0 <= k < names@.len() ==> lowercase_of(prefix@).is_prefix_of(lowercase_of(#[trigger] names@[k]@)),
            forall|i: int|
                0 <= i < self.entries().len() && lowercase_of(prefix@).is_prefix_of(
                    lowercase_of(#[trigger] self.entries()[i].name@),
                ) ==> exists|k: int| 0 <= k < names@.len() && names@[k]@ == self.entries()[i].name@,
            forall|a: int, b: int|
                0 <= a < b < names@.len() ==> !lex_lt(
                    lowercase_of(#[trigger] names@[b]@),
                    lowercase_of(#[trigger] names@[a]@),
                ),
    {
        let p = lowercase_chars(prefix);
        let ghost pred = completion_pick(prefix@);
        let mut found: Vec<String> = Vec::new();
        let mut keys: Vec<Vec<char>> = Vec::new();
        let n = self.systems.len();
        let mut i: usize = 0;
        while i < n
            invariant
                n == self.systems.len(),
                i <= n,
                p@ == lowercase_of(prefix@),
                pred == completion_pick(prefix@),
                names_view(found@) == self.systems@.take(i as int).filter_map(pred),
                key_views(keys@) == lowercase_keys(names_view(found@)),
            decreases n - i,
        {
            let key = lowercase_chars(self.systems[i].name.as_str());
            assert(self.systems@.take(i + 1).drop_last() =~= self.systems@.take(i as int));
            let ghost t = self.systems@.take(i + 1);
            assert(key@ == lowercase_of(self.systems@[i as int].name@));
            assert(t.last() == self.systems@[i as int]);
            if chars_start_with(&key, &p) {
                let ghost prev = found@;
                let ghost prevk = keys@;
                let name = self.systems[i].name.clone();
                found.push(name);
                keys.push(key);
                assert(found@ == prev.push(name));
                assert(names_view(found@) =~= names_view(prev).push(self.systems@[i as int].name@));
                assert(completion_matches(prefix@, self.systems@[i as int].name@));
                assert(pred(t.last()) == Some(self.systems@[i as int].name@));
                assert(t.filter_map(pred) =~= t.drop_last().filter_map(pred) + seq![self.systems@[i as int].name@]);
                assert(keys@ == prevk.push(key));
                assert(key_views(keys@) =~= key_views(prevk).push(key@));
                assert(key_views(keys@) =~= lowercase_keys(names_view(found@)));
            } else {
                assert(!completion_matches(prefix@, self.systems@[i as int].name@));
                assert(pred(t.last()) == None::<Seq<char>>);
                assert(t.filter_map(pred) =~= t.drop_last().filter_map(pred));
            }
            i = i + 1;
        }
        assert(self.systems@.take(n as int) =~= self.systems@);
        let ghost cands = names_view(found@);
        assert(cands == completion_candidates(self.entries(), prefix@));
        let ord = stable_order(&keys);
        let mut names: Vec<String> = Vec::new();
        let mut k: usize = 0;
        while k < ord.len()
            invariant
                is_stable_order(key_views(keys@), ord@),
                key_views(keys@).len() == found.len(),
                k <= ord.len(),
                names.len() == k,
                forall|m: int| 0 <= m < k ==> names@[m]@ == cands[#[trigger] ord@[m] as int],
                cands == names_view(found@),
            decreases ord.len() - k,
        {
            let name = found[ord[k]].clone();
            names.push(name);
            k = k + 1;
        }
        assert(is_stable_order(lowercase_keys(cands), ord@));
        assert(forall|m: int| 0 <= m < names_view(names@).len() ==> names_view(names@)[m] == cands[#[trigger] ord@[m] as int]);
        proof {
            let nv = names_view(names@);
            lemma_completions_match_and_ascend(nv, self.entries(), prefix@);
            assert forall|k: int| 0 <= k < names@.len() implies #[trigger] names@[k]@ == nv[k] by {}
            assert forall|i: int|
                0 <= i < self.entries().len() && lowercase_of(prefix@).is_prefix_of(
                    lowercase_of(#[trigger] self.entries()[i].name@),
                ) implies exists|k: int| 0 <= k < names@.len() && names@[k]@ == self.entries()[i].name@ by {
                let k = choose|k: int| 0 <= k < nv.len() && nv[k] == self.entries()[i].name@;
                assert(names@[k]@ == nv[k]);
            }
        }
        names
    }
}

} // verus!
