use vstd::prelude::*;
use vstd::relations::injective_on;
use vstd::set_lib::{lemma_int_range, lemma_len_subset, lemma_map_size, set_int_range};

use crate::text::{decimal, lemma_decimal_injective, lemma_decimal_len, push_decimal};

verus! {

/// The entries of a URL table as (short code, long URL) pairs, in insertion order.
pub type UrlEntries = Seq<(Seq<char>, Seq<char>)>;

/// The text that every short URL starts with.
pub open spec fn short_base() -> Seq<char> {
    "phqsh.tech/vr/"@
}

/// The short URL that redirects by `code`.
pub open spec fn short_url_of(code: Seq<char>) -> Seq<char> {
    short_base() + code
}

/// Whether `u` has the form of a short URL.
pub open spec fn is_short_url(u: Seq<char>) -> bool {
    u.len() >= short_base().len() && u.subrange(0, short_base().len() as int) == short_base()
}

/// No two entries share a short code.
pub open spec fn keys_unique(es: UrlEntries) -> bool {
    forall|i: int, j: int|
        #![trigger es[i], es[j]]
        0 <= i < es.len() && 0 <= j < es.len() && es[i].0 == es[j].0 ==> i == j
}

pub open spec fn has_key(es: UrlEntries, code: Seq<char>) -> bool {
    exists|i: int| 0 <= i < es.len() && #[trigger] es[i].0 == code
}

/// The position of the entry for `code`, where there is one.
pub open spec fn key_index(es: UrlEntries, code: Seq<char>) -> int {
    choose|i: int| 0 <= i < es.len() && #[trigger] es[i].0 == code
}

/// The long URL that `code` resolves to.
pub open spec fn lookup(es: UrlEntries, code: Seq<char>) -> Option<Seq<char>> {
    if has_key(es, code) {
        Some(es[key_index(es, code)].1)
    } else {
        None
    }
}

/// `t` holds every entry of `s` unchanged, at the same place, and maybe more after them.
pub open spec fn extends(t: UrlEntries, s: UrlEntries) -> bool {
    s.len() <= t.len() && forall|i: int| 0 <= i < s.len() ==> #[trigger] t[i] == s[i]
}

/// The `n`-th candidate code derived from `code`: `code` itself, then `code-1`, `code-2`, ...
pub open spec fn suffixed(code: Seq<char>, n: nat) -> Seq<char> {
    if n == 0 {
        code
    } else {
        code + "-"@ + decimal(n)
    }
}

/// The first candidate, from the `n`-th on, whose code is not taken in `es`.
pub open spec fn free_from(es: UrlEntries, code: Seq<char>, n: nat) -> nat
    decreases es.len() + 1 - n,
{
    if n > es.len() {
        n
    } else if !has_key(es, suffixed(code, n)) {
        n
    } else {
        free_from(es, code, n + 1)
    }
}

/// The code a new entry gets: `code` if it is free, else its first free suffixed form.
pub open spec fn fresh_code(es: UrlEntries, code: Seq<char>) -> Seq<char> {
    suffixed(code, free_from(es, code, 0))
}

/// `url` is the short URL of one of the table's codes.
pub open spec fn is_code_short_url(es: UrlEntries, url: Seq<char>) -> bool {
    exists|i: int| 0 <= i < es.len() && #[trigger] short_url_of(es[i].0) == url
}

/// Some entry holds `url` as its long URL.
pub open spec fn has_value(es: UrlEntries, url: Seq<char>) -> bool {
    exists|i: int| 0 <= i < es.len() && #[trigger] es[i].1 == url
}

pub open spec fn is_first_value(es: UrlEntries, url: Seq<char>, i: int) -> bool {
    &&& 0 <= i < es.len()
    &&& es[i].1 == url
    &&& forall|j: int| 0 <= j < i ==> #[trigger] es[j].1 != url
}

/// The position of the first entry that holds `url` as its long URL.
pub open spec fn first_value(es: UrlEntries, url: Seq<char>) -> int {
    choose|i: int| is_first_value(es, url, i)
}

/// Shortening `url` on the table `es`, with `code` as the code that a new entry
/// would be derived from: the short URL handed out, and the table after. A URL
/// that is already the short URL of a code comes back as it is; a long URL that
/// the table holds gets the code of its first entry; any other is recorded under
/// a fresh code. Entries are only ever added.
pub open spec fn shortened(es: UrlEntries, url: Seq<char>, code: Seq<char>) -> (
    Seq<char>,
    UrlEntries,
) {
    if is_code_short_url(es, url) {
        (url, es)
    } else if has_value(es, url) {
        (short_url_of(es[first_value(es, url)].0), es)
    } else {
        let c = fresh_code(es, code);
        (short_url_of(c), es.push((c, url)))
    }
}

/// A persistent mapping from short codes to long URLs.
pub struct UrlTable {
    urls: Vec<(String, String)>,
}

impl View for UrlTable {
    type V = UrlEntries;

    closed spec fn view(&self) -> UrlEntries {
        self.urls@.map_values(|e: (String, String)| (e.0@, e.1@))
    }
}

proof fn lemma_first_value_is(es: UrlEntries, url: Seq<char>, i: int)
    requires
        is_first_value(es, url, i),
    ensures
        first_value(es, url) == i,
{
    let k = first_value(es, url);
    assert(is_first_value(es, url, k));
    if k < i {
        assert(es[k].1 == url);
    }
    if i < k {
        assert(es[i].1 == url);
    }
}

proof fn lemma_first_value_exists(es: UrlEntries, url: Seq<char>)
    requires
        has_value(es, url),
    ensures
        is_first_value(es, url, first_value(es, url)),
    decreases es.len(),
{
    let init = es.drop_last();
    if has_value(init, url) {
        lemma_first_value_exists(init, url);
        let i = first_value(init, url);
        assert forall|j: int| 0 <= j < i implies #[trigger] es[j].1 != url by {
            assert(es[j] == init[j]);
        }
        assert(es[i] == init[i]);
        assert(is_first_value(es, url, i));
    } else {
        let i = es.len() - 1;
        let w = choose|k: int| 0 <= k < es.len() && #[trigger] es[k].1 == url;
        if w < i {
            assert(init[w] == es[w]);
        }
        assert forall|j: int| 0 <= j < i implies #[trigger] es[j].1 != url by {
            assert(es[j] == init[j]);
            if es[j].1 == url {
                assert(init[j].1 == url);
            }
        }
        assert(is_first_value(es, url, i));
    }
}

proof fn lemma_key_index_is(es: UrlEntries, code: Seq<char>, i: int)
    requires
        keys_unique(es),
        0 <= i < es.len(),
        es[i].0 == code,
    ensures
        has_key(es, code),
        key_index(es, code) == i,
{
    assert(has_key(es, code));
    let k = key_index(es, code);
    assert(es[k].0 == es[i].0);
}

proof fn lemma_short_url_is_short(code: Seq<char>)
    ensures
        is_short_url(short_url_of(code)),
{
    assert(short_url_of(code).subrange(0, short_base().len() as int) =~= short_base());
}

proof fn lemma_suffixed_injective(code: Seq<char>, n: nat, m: nat)
    requires
        suffixed(code, n) == suffixed(code, m),
    ensures
        n == m,
{
    lemma_decimal_len(n);
    lemma_decimal_len(m);
    if n != 0 && m != 0 {
        let p = code + "-"@;
        assert((p + decimal(n)).subrange(p.len() as int, (p + decimal(n)).len() as int) =~= decimal(n));
        assert((p + decimal(m)).subrange(p.len() as int, (p + decimal(m)).len() as int) =~= decimal(m));
        lemma_decimal_injective(n, m);
    } else if n != 0 {
        assert(suffixed(code, n).len() > code.len());
    } else if m != 0 {
        assert(suffixed(code, m).len() > code.len());
    }
}

/// Of the candidates `suffixed(code, 0..=es.len())` not all can be taken: there
/// are more of them than entries.
proof fn lemma_some_suffix_free(es: UrlEntries, code: Seq<char>)
    ensures
        exists|m: nat| m <= es.len() && !has_key(es, #[trigger] suffixed(code, m)),
{
    if forall|m: nat| m <= es.len() ==> has_key(es, #[trigger] suffixed(code, m)) {
        lemma_all_suffixes_taken_impossible(es, code);
        lemma_int_range(0, es.len() as int + 1);
        lemma_int_range(0, es.len() as int);
    }
}

proof fn lemma_all_suffixes_taken_impossible(es: UrlEntries, code: Seq<char>)
    requires
        forall|m: nat| m <= es.len() ==> has_key(es, #[trigger] suffixed(code, m)),
    ensures
        set_int_range(0, es.len() as int + 1).len() <= set_int_range(0, es.len() as int).len(),
{
    let l = es.len() as int;
    let x = set_int_range(0, l + 1);
    let f = |n: int| key_index(es, suffixed(code, n as nat));
    lemma_int_range(0, l + 1);
    lemma_int_range(0, l);
    assert forall|n: int| x.contains(n) implies 0 <= #[trigger] f(n) < l && es[f(n)].0 == suffixed(
        code,
        n as nat,
    ) by {
        assert(has_key(es, suffixed(code, n as nat)));
    }
    assert forall|a: int, b: int| x.contains(a) && x.contains(b) && #[trigger] f(a) == #[trigger] f(
        b,
    ) implies a == b by {
        lemma_suffixed_injective(code, a as nat, b as nat);
    }
    assert(injective_on(f, x));
    lemma_map_size(x, x.map(f), f);
    assert forall|y: int| x.map(f).contains(y) implies set_int_range(0, l).contains(y) by {
        let a = choose|a: int| x.contains(a) && f(a) == y;
    }
    lemma_len_subset(x.map(f), set_int_range(0, l));
}

proof fn lemma_free_from(es: UrlEntries, code: Seq<char>, n: nat)
    requires
        n <= es.len() + 1,
    ensures
        n <= free_from(es, code, n) <= es.len() + 1,
        free_from(es, code, n) <= es.len() ==> !has_key(es, suffixed(code, free_from(es, code, n))),
        forall|m: nat|
            n <= m < free_from(es, code, n) ==> has_key(es, #[trigger] suffixed(code, m)),
    decreases es.len() + 1 - n,
{
    if n <= es.len() && has_key(es, suffixed(code, n)) {
        lemma_free_from(es, code, n + 1);
    }
}

/// The code that a new entry gets is not taken.
pub proof fn lemma_fresh_code_free(es: UrlEntries, code: Seq<char>)
    ensures
        !has_key(es, fresh_code(es, code)),
{
    lemma_free_from(es, code, 0);
    lemma_some_suffix_free(es, code);
    if free_from(es, code, 0) > es.len() {
        let m = choose|m: nat| m <= es.len() && !has_key(es, #[trigger] suffixed(code, m));
        assert(has_key(es, suffixed(code, m)));
    }
}

proof fn lemma_push_fresh(es: UrlEntries, code: Seq<char>, url: Seq<char>)
    requires
        keys_unique(es),
        !has_key(es, code),
    ensures
        keys_unique(es.push((code, url))),
        extends(es.push((code, url)), es),
{
    let t = es.push((code, url));
    assert forall|i: int, j: int|
        #![trigger t[i], t[j]]
        0 <= i < t.len() && 0 <= j < t.len() && t[i].0 == t[j].0 implies i == j by {
        if i < es.len() && j < es.len() {
            assert(t[i] == es[i] && t[j] == es[j]);
        } else if i < es.len() {
            assert(t[i] == es[i]);
        } else if j < es.len() {
            assert(t[j] == es[j]);
        }
    }
}

/// Shortening only adds to the table, and keeps its codes unique.
pub proof fn lemma_shortened_only_adds(es: UrlEntries, url: Seq<char>, code: Seq<char>)
    requires
        keys_unique(es),
    ensures
        keys_unique(shortened(es, url, code).1),
        extends(shortened(es, url, code).1, es),
{
    if !is_code_short_url(es, url) && !has_value(es, url) {
        lemma_fresh_code_free(es, code);
        lemma_push_fresh(es, fresh_code(es, code), url);
    }
}

proof fn lemma_not_code_short_url(es: UrlEntries, url: Seq<char>)
    requires
        !is_short_url(url),
    ensures
        !is_code_short_url(es, url),
{
    if is_code_short_url(es, url) {
        let i = choose|i: int| 0 <= i < es.len() && #[trigger] short_url_of(es[i].0) == url;
        lemma_short_url_is_short(es[i].0);
    }
}

/// After a long URL is shortened, the table holds it, and its first entry has
/// the code that was handed out.
proof fn lemma_step_records(es: UrlEntries, url: Seq<char>, code: Seq<char>)
    requires
        keys_unique(es),
        !is_short_url(url),
    ensures
        has_value(shortened(es, url, code).1, url),
        is_first_value(
            shortened(es, url, code).1,
            url,
            first_value(shortened(es, url, code).1, url),
        ),
        shortened(es, url, code).0 == short_url_of(
            shortened(es, url, code).1[first_value(shortened(es, url, code).1, url)].0,
        ),
{
    lemma_not_code_short_url(es, url);
    let t = shortened(es, url, code).1;
    if has_value(es, url) {
        lemma_first_value_exists(es, url);
    } else {
        let p = es.len() as int;
        assert(t[p].1 == url);
        assert forall|j: int| 0 <= j < p implies #[trigger] t[j].1 != url by {
            assert(t[j] == es[j]);
            if t[j].1 == url {
                assert(has_value(es, url));
            }
        }
        assert(is_first_value(t, url, p));
        lemma_first_value_is(t, url, p);
    }
}

/// Once a long URL has a code, it keeps it: on any table that grew from one
/// holding it, shortening it again, under any code, hands out the same short URL
/// and adds nothing. (A URL of the short form is left out: it may become the
/// short URL of a code added later.)
pub proof fn lemma_assigned_code_kept(
    t1: UrlEntries,
    t2: UrlEntries,
    url: Seq<char>,
    code1: Seq<char>,
    code2: Seq<char>,
)
    requires
        extends(t2, t1),
        has_value(t1, url),
        !is_short_url(url),
    ensures
        shortened(t2, url, code2) == (shortened(t1, url, code1).0, t2),
{
    lemma_not_code_short_url(t1, url);
    lemma_not_code_short_url(t2, url);
    lemma_first_value_exists(t1, url);
    let p = first_value(t1, url);
    assert forall|j: int| 0 <= j < p implies #[trigger] t2[j].1 != url by {
        assert(t2[j] == t1[j]);
    }
    assert(t2[p] == t1[p]);
    assert(is_first_value(t2, url, p));
    lemma_first_value_is(t2, url, p);
}

/// Shortening `url` and then, on any table grown from the result, shortening it
/// again hands out the same short URL and adds nothing.
proof fn lemma_step_stays(
    es: UrlEntries,
    url: Seq<char>,
    code: Seq<char>,
    t2: UrlEntries,
    code2: Seq<char>,
)
    requires
        keys_unique(es),
        !is_short_url(url),
        extends(t2, shortened(es, url, code).1),
    ensures
        shortened(t2, url, code2) == (shortened(es, url, code).0, t2),
{
    let t = shortened(es, url, code).1;
    lemma_step_records(es, url, code);
    lemma_first_value_exists(t, url);
    lemma_assigned_code_kept(t, t2, url, code, code2);
    lemma_not_code_short_url(t, url);
}

/// Two listings with the same long URL, shortened one right after the other,
/// get the same short URL, and the second adds nothing to the table.
pub proof fn lemma_shorten_stable(
    es: UrlEntries,
    url: Seq<char>,
    code1: Seq<char>,
    code2: Seq<char>,
)
    requires
        keys_unique(es),
    ensures
        shortened(shortened(es, url, code1).1, url, code2) == shortened(es, url, code1),
{
    lemma_shortened_only_adds(es, url, code1);
    if is_code_short_url(es, url) {
    } else if has_value(es, url) {
        lemma_first_value_exists(es, url);
        let t = es;
        if is_code_short_url(t, url) {
        }
    } else {
        let c = fresh_code(es, code1);
        let t = es.push((c, url));
        let p = es.len() as int;
        if is_code_short_url(t, url) {
            let i = choose|i: int| 0 <= i < t.len() && #[trigger] short_url_of(t[i].0) == url;
            assert(i == p);
            assert(t[p].0 == c);
        } else {
            assert(t[p].1 == url);
            assert forall|j: int| 0 <= j < p implies #[trigger] t[j].1 != url by {
                assert(t[j] == es[j]);
                if t[j].1 == url {
                    assert(has_value(es, url));
                }
            }
            assert(is_first_value(t, url, p));
            lemma_first_value_is(t, url, p);
        }
    }
}

/// Shortening a URL that shortening handed out gives it back unchanged and
/// leaves the table as it is: a short URL is never wrapped twice.
pub proof fn lemma_shorten_idempotent(
    es: UrlEntries,
    url: Seq<char>,
    code: Seq<char>,
    code2: Seq<char>,
)
    requires
        keys_unique(es),
    ensures
        shortened(shortened(es, url, code).1, shortened(es, url, code).0, code2) == shortened(
            es,
            url,
            code,
        ),
{
    let t = shortened(es, url, code).1;
    let s = shortened(es, url, code).0;
    lemma_shortened_only_adds(es, url, code);
    if is_code_short_url(es, url) {
        let i = choose|i: int| 0 <= i < es.len() && #[trigger] short_url_of(es[i].0) == url;
        assert(short_url_of(t[i].0) == s);
    } else if has_value(es, url) {
        lemma_first_value_exists(es, url);
        let p = first_value(es, url);
        assert(short_url_of(t[p].0) == s);
    } else {
        let p = es.len() as int;
        assert(short_url_of(t[p].0) == s);
    }
}

/// A long URL that the table does not hold, whose derived code is still free,
/// gets exactly that code.
pub proof fn lemma_new_url_gets_derived_code(es: UrlEntries, url: Seq<char>, code: Seq<char>)
    requires
        !has_value(es, url),
        !is_short_url(url),
        !has_key(es, code),
    ensures
        shortened(es, url, code) == (short_url_of(code), es.push((code, url))),
{
    lemma_not_code_short_url(es, url);
    assert(free_from(es, code, 0) == 0);
}

/// A short URL handed out for a long URL resolves back to it.
pub proof fn lemma_short_code_resolves(es: UrlEntries, url: Seq<char>, code: Seq<char>)
    requires
        keys_unique(es),
        !is_short_url(url),
    ensures
        ({
            let t = shortened(es, url, code).1;
            let k = t[first_value(t, url)].0;
            shortened(es, url, code).0 == short_url_of(k) && lookup(t, k) == Some(url)
        }),
{
    lemma_step_records(es, url, code);
    lemma_shortened_only_adds(es, url, code);
    let t = shortened(es, url, code).1;
    let p = first_value(t, url);
    lemma_key_index_is(t, t[p].0, p);
}

/// The table after shortening each (long URL, code) pair of `items` in turn.
pub open spec fn table_after(es: UrlEntries, items: Seq<(Seq<char>, Seq<char>)>) -> UrlEntries
    decreases items.len(),
{
    if items.len() == 0 {
        es
    } else {
        shortened(table_after(es, items.drop_last()), items.last().0, items.last().1).1
    }
}

/// The short URL handed out for the `i`-th pair when `items` are shortened in turn.
pub open spec fn short_url_at(es: UrlEntries, items: Seq<(Seq<char>, Seq<char>)>, i: int) -> Seq<
    char,
> {
    shortened(table_after(es, items.take(i)), items[i].0, items[i].1).0
}

proof fn lemma_table_after_step(es: UrlEntries, items: Seq<(Seq<char>, Seq<char>)>, k: int)
    requires
        0 <= k < items.len(),
    ensures
        table_after(es, items.take(k + 1)) == shortened(
            table_after(es, items.take(k)),
            items[k].0,
            items[k].1,
        ).1,
{
    assert(items.take(k + 1).drop_last() =~= items.take(k));
    assert(items.take(k + 1).last() == items[k]);
}

/// Shortening a batch only adds to the table, and keeps its codes unique.
pub proof fn lemma_table_after_only_adds(es: UrlEntries, items: Seq<(Seq<char>, Seq<char>)>)
    requires
        keys_unique(es),
    ensures
        keys_unique(table_after(es, items)),
        extends(table_after(es, items), es),
    decreases items.len(),
{
    if items.len() > 0 {
        let init = items.drop_last();
        lemma_table_after_only_adds(es, init);
        let t = table_after(es, init);
        lemma_shortened_only_adds(t, items.last().0, items.last().1);
    }
}

proof fn lemma_table_after_prefix(
    es: UrlEntries,
    items: Seq<(Seq<char>, Seq<char>)>,
    a: int,
    b: int,
)
    requires
        keys_unique(es),
        0 <= a <= b <= items.len(),
    ensures
        extends(table_after(es, items.take(b)), table_after(es, items.take(a))),
    decreases b - a,
{
    if a < b {
        lemma_table_after_prefix(es, items, a, b - 1);
        lemma_table_after_step(es, items, b - 1);
        lemma_table_after_only_adds(es, items.take(b - 1));
        lemma_shortened_only_adds(table_after(es, items.take(b - 1)), items[b - 1].0, items[b - 1].1);
    }
}

proof fn lemma_step_stays_in_batch(
    es: UrlEntries,
    items: Seq<(Seq<char>, Seq<char>)>,
    i: int,
    t: UrlEntries,
    code: Seq<char>,
)
    requires
        keys_unique(es),
        0 <= i < items.len(),
        !is_short_url(items[i].0),
        extends(t, table_after(es, items.take(i + 1))),
    ensures
        shortened(t, items[i].0, code) == (short_url_at(es, items, i), t),
{
    lemma_table_after_only_adds(es, items.take(i));
    lemma_table_after_step(es, items, i);
    lemma_step_stays(table_after(es, items.take(i)), items[i].0, items[i].1, t, code);
}

/// Within a batch, two listings with the same long URL get the same short URL,
/// however far apart they stand. (A URL of the short form is left out: it may
/// become the short URL of a code added between them.)
pub proof fn lemma_batch_same_url(
    es: UrlEntries,
    items: Seq<(Seq<char>, Seq<char>)>,
    i: int,
    j: int,
)
    requires
        keys_unique(es),
        0 <= i < j < items.len(),
        items[i].0 == items[j].0,
        !is_short_url(items[i].0),
    ensures
        short_url_at(es, items, i) == short_url_at(es, items, j),
{
    lemma_table_after_prefix(es, items, i + 1, j);
    lemma_step_stays_in_batch(es, items, i, table_after(es, items.take(j)), items[j].1);
}

/// The short URL handed out to each listing of a batch resolves, on the table
/// that the batch leaves, to that listing's long URL.
pub proof fn lemma_batch_resolves(es: UrlEntries, items: Seq<(Seq<char>, Seq<char>)>, i: int)
    requires
        keys_unique(es),
        0 <= i < items.len(),
        !is_short_url(items[i].0),
    ensures
        exists|k: Seq<char>|
            short_url_at(es, items, i) == short_url_of(k) && #[trigger] lookup(
                table_after(es, items),
                k,
            ) == Some(items[i].0),
{
    let ti = table_after(es, items.take(i));
    lemma_table_after_only_adds(es, items.take(i));
    lemma_table_after_step(es, items, i);
    lemma_step_records(ti, items[i].0, items[i].1);
    let t1 = table_after(es, items.take(i + 1));
    let p = first_value(t1, items[i].0);
    lemma_table_after_prefix(es, items, i + 1, items.len() as int);
    assert(items.take(items.len() as int) =~= items);
    let t = table_after(es, items);
    lemma_table_after_only_adds(es, items);
    assert(t[p] == t1[p]);
    lemma_key_index_is(t, t[p].0, p);
    assert(lookup(t, t1[p].0) == Some(items[i].0));
}

proof fn lemma_second_pass_prefix(es: UrlEntries, items: Seq<(Seq<char>, Seq<char>)>, k: int)
    requires
        keys_unique(es),
        0 <= k <= items.len(),
        forall|i: int| 0 <= i < items.len() ==> !is_short_url(#[trigger] items[i].0),
    ensures
        table_after(table_after(es, items), items.take(k)) == table_after(es, items),
    decreases k,
{
    let t = table_after(es, items);
    if k > 0 {
        lemma_second_pass_prefix(es, items, k - 1);
        lemma_table_after_step(t, items, k - 1);
        lemma_table_after_prefix(es, items, k, items.len() as int);
        assert(items.take(items.len() as int) =~= items);
        lemma_step_stays_in_batch(es, items, k - 1, t, items[k - 1].1);
    } else {
        assert(items.take(0) =~= Seq::<(Seq<char>, Seq<char>)>::empty());
    }
}

/// Shortening a page again on the table that its first pass left hands every
/// listing the short URL it got the first time, and adds nothing. (URLs of the
/// short form are left out, as above.)
pub proof fn lemma_second_pass_same(es: UrlEntries, items: Seq<(Seq<char>, Seq<char>)>)
    requires
        keys_unique(es),
        forall|i: int| 0 <= i < items.len() ==> !is_short_url(#[trigger] items[i].0),
    ensures
        table_after(table_after(es, items), items) == table_after(es, items),
        forall|i: int|
            0 <= i < items.len() ==> #[trigger] short_url_at(table_after(es, items), items, i)
                == short_url_at(es, items, i),
{
    let t = table_after(es, items);
    lemma_second_pass_prefix(es, items, items.len() as int);
    assert(items.take(items.len() as int) =~= items);
    assert forall|i: int| 0 <= i < items.len() implies #[trigger] short_url_at(t, items, i)
        == short_url_at(es, items, i) by {
        lemma_second_pass_prefix(es, items, i);
        lemma_table_after_prefix(es, items, i + 1, items.len() as int);
        lemma_step_stays_in_batch(es, items, i, t, items[i].1);
    }
}

/// Shortening listings with pairwise distinct long URLs, one after another on an
/// empty table, leaves exactly one entry for each of them, in order: none is
/// lost. (URLs of the short form are left out: one may be the short URL of an
/// earlier listing's code.)
pub proof fn lemma_batch_keeps_every_entry(items: Seq<(Seq<char>, Seq<char>)>)
    requires
        forall|i: int, j: int|
            #![trigger items[i], items[j]]
            0 <= i < items.len() && 0 <= j < items.len() && i != j ==> items[i].0 != items[j].0,
        forall|i: int| 0 <= i < items.len() ==> !is_short_url(#[trigger] items[i].0),
    ensures
        table_after(Seq::empty(), items).len() == items.len(),
        forall|i: int|
            0 <= i < items.len() ==> #[trigger] table_after(Seq::empty(), items)[i].1 == items[i].0,
        keys_unique(table_after(Seq::empty(), items)),
    decreases items.len(),
{
    let e = Seq::<(Seq<char>, Seq<char>)>::empty();
    lemma_table_after_only_adds(e, items);
    if items.len() > 0 {
        let init = items.drop_last();
        let n = init.len() as int;
        assert forall|i: int, j: int|
            #![trigger init[i], init[j]]
            0 <= i < init.len() && 0 <= j < init.len() && i != j implies init[i].0
            != init[j].0 by {
            assert(init[i] == items[i] && init[j] == items[j]);
        }
        assert forall|i: int| 0 <= i < init.len() implies !is_short_url(#[trigger] init[i].0) by {
            assert(init[i] == items[i]);
        }
        lemma_batch_keeps_every_entry(init);
        let es = table_after(e, init);
        let (url, code) = items.last();
        assert(items[n] == (url, code));
        lemma_not_code_short_url(es, url);
        assert(!has_value(es, url)) by {
            if has_value(es, url) {
                let w = choose|k: int| 0 <= k < es.len() && #[trigger] es[k].1 == url;
                assert(es[w].1 == init[w].0);
                assert(init[w] == items[w]);
            }
        }
        let t = table_after(e, items);
        assert(t == es.push((fresh_code(es, code), url)));
        assert forall|i: int| 0 <= i < items.len() implies #[trigger] t[i].1 == items[i].0 by {
            if i < n {
                assert(t[i] == es[i]);
                assert(es[i].1 == init[i].0);
                assert(init[i] == items[i]);
            }
        }
    }
}

/// The `n`-th candidate code derived from `code`.
fn suffixed_code(code: &String, n: u64) -> (r: String)
    ensures
        r@ == suffixed(code@, n as nat),
{
    let mut s = code.clone();
    if n > 0 {
        s.append("-");
        push_decimal(&mut s, n);
    }
    s
}

/// The short URL for `code`.
pub fn short_url(code: &String) -> (r: String)
    ensures
        r@ == short_url_of(code@),
{
    let mut r = String::from_str("phqsh.tech/vr/");
    r.append(code.as_str());
    r
}

impl UrlTable {
    /// No two entries share a short code.
    pub open spec fn wf(&self) -> bool {
        keys_unique(self@)
    }

    /// An empty table.
    pub fn new() -> (r: UrlTable)
        ensures
            r@ == Seq::<(Seq<char>, Seq<char>)>::empty(),
            r.wf(),
    {
        let r = UrlTable { urls: Vec::new() };
        assert(r@ =~= Seq::<(Seq<char>, Seq<char>)>::empty());
        r
    }

    /// The number of entries.
    pub fn len(&self) -> (r: usize)
        ensures
            r == self@.len(),
    {
        self.urls.len()
    }

    /// The entry at position `i`, as (short code, long URL).
    pub fn entry(&self, i: usize) -> (r: (&String, &String))
        requires
            i < self@.len(),
        ensures
            r.0@ == self@[i as int].0,
            r.1@ == self@[i as int].1,
    {
        let e = &self.urls[i];
        (&e.0, &e.1)
    }

    /// The position of the entry for `code`, if there is one.
    fn find_key(&self, code: &String) -> (r: Option<usize>)
        requires
            self.wf(),
        ensures
            r.is_none() <==> !has_key(self@, code@),
            r.is_some() ==> r.unwrap() < self@.len() && r.unwrap() as int == key_index(
                self@,
                code@,
            ),
    {
        let mut i: usize = 0;
        while i < self.urls.len()
            invariant
                i <= self@.len(),
                self@.len() == self.urls@.len(),
                self.wf(),
                forall|j: int| 0 <= j < i ==> #[trigger] self@[j].0 != code@,
            decreases self.urls@.len() - i,
        {
            if self.urls[i].0 == *code {
                proof {
                    lemma_key_index_is(self@, code@, i as int);
                }
                return Some(i);
            }
            i = i + 1;
        }
        None
    }

    /// Records `code -> long_url` when no entry has `code` yet, and says whether it did.
    /// An entry already in the table is never changed.
    pub fn insert(&mut self, code: String, long_url: String) -> (r: bool)
        requires
            old(self).wf(),
        ensures
            final(self).wf(),
            r == !has_key(old(self)@, code@),
            r ==> final(self)@ == old(self)@.push((code@, long_url@)),
            !r ==> final(self)@ == old(self)@,
    {
        let ghost old_es = self@;
        match self.find_key(&code) {
            Some(_) => false,
            None => {
                let ghost c = code@;
                let ghost u = long_url@;
                self.urls.push((code, long_url));
                proof {
                    assert(self@ =~= old_es.push((c, u)));
                    lemma_push_fresh(old_es, c, u);
                }
                true
            },
        }
    }

    /// The first code derived from `code` that no entry has.
    fn fresh_code(&self, code: &String) -> (r: String)
        requires
            self.wf(),
        ensures
            r@ == fresh_code(self@, code@),
            !has_key(self@, r@),
    {
        let len = self.urls.len();
        let mut n: usize = 0;
        proof {
            lemma_free_from(self@, code@, 0);
        }
        while n < len
            invariant
                n <= len,
                len == self@.len(),
                self.wf(),
                forall|m: nat| m < n ==> has_key(self@, #[trigger] suffixed(code@, m)),
                free_from(self@, code@, 0) == free_from(self@, code@, n as nat),
            decreases len - n,
        {
            let c = suffixed_code(code, n as u64);
            if self.find_key(&c).is_none() {
                proof {
                    lemma_fresh_code_free(self@, code@);
                }
                return c;
            }
            n = n + 1;
        }
        let c = suffixed_code(code, len as u64);
        if self.find_key(&c).is_none() {
            proof {
                lemma_fresh_code_free(self@, code@);
            }
            return c;
        }
        proof {
            lemma_some_suffix_free(self@, code@);
            let m = choose|m: nat| m <= self@.len() && !has_key(self@, #[trigger] suffixed(code@, m));
            if m < len {
                assert(has_key(self@, suffixed(code@, m)));
            }
            assert(m == len);
        }
        c
    }

    /// The long URL that `code` resolves to, if the table has it.
    pub fn resolve(&self, code: &String) -> (r: Option<String>)
        requires
            self.wf(),
        ensures
            r.is_some() == lookup(self@, code@).is_some(),
            r.is_some() ==> r.unwrap()@ == lookup(self@, code@).unwrap(),
    {
        match self.find_key(code) {
            Some(k) => Some(self.urls[k].1.clone()),
            None => None,
        }
    }

    /// Hands out the short URL for `long_url`. A URL that is the short URL of one
    /// of the table's codes comes back as it is; a long URL that the table holds
    /// gets the code of its first entry; any other is recorded under the first
    /// free code derived from `code`. No entry is changed.
    pub fn shorten(&mut self, long_url: &String, code: &String) -> (r: String)
        requires
            old(self).wf(),
        ensures
            final(self).wf(),
            extends(final(self)@, old(self)@),
            (r@, final(self)@) == shortened(old(self)@, long_url@, code@),
    {
        let n = self.urls.len();
        let mut i: usize = 0;
        while i < n
            invariant
                i <= n,
                n == self@.len(),
                self.wf(),
                forall|j: int| 0 <= j < i ==> #[trigger] short_url_of(self@[j].0) != long_url@,
            decreases n - i,
        {
            let short = short_url(&self.urls[i].0);
            if short == *long_url {
                proof {
                    assert(short_url_of(self@[i as int].0) == long_url@);
                    lemma_shortened_only_adds(self@, long_url@, code@);
                }
                return long_url.clone();
            }
            i = i + 1;
        }
        i = 0;
        while i < n
            invariant
                i <= n,
                n == self@.len(),
                self.wf(),
                !is_code_short_url(self@, long_url@),
                forall|j: int| 0 <= j < i ==> #[trigger] self@[j].1 != long_url@,
            decreases n - i,
        {
            if self.urls[i].1 == *long_url {
                proof {
                    assert(is_first_value(self@, long_url@, i as int));
                    lemma_first_value_is(self@, long_url@, i as int);
                    lemma_shortened_only_adds(self@, long_url@, code@);
                }
                return short_url(&self.urls[i].0);
            }
            i = i + 1;
        }
        let ghost old_es = self@;
        let c = self.fresh_code(code);
        let short = short_url(&c);
        let ghost cv = c@;
        self.urls.push((c, long_url.clone()));
        proof {
            assert(self@ =~= old_es.push((cv, long_url@)));
            lemma_push_fresh(old_es, cv, long_url@);
        }
        short
    }
}

/// The long URL that the short code `path` resolves to in `table`, if any.
pub fn look_up_url(table: &UrlTable, path: &String) -> (r: Option<String>)
    requires
        table.wf(),
    ensures
        r.is_some() == lookup(table@, path@).is_some(),
        r.is_some() ==> r.unwrap()@ == lookup(table@, path@).unwrap(),
{
    table.resolve(path)
}

} // verus!
