//! Keyset pagination: the order of listings and ranked search, the predicates that
//! resume a scan after a cursor, and the page that a listing returns.

use vstd::prelude::*;
use crate::cursor::Cursor;
use crate::text::chars_of;

verus! {

/// Strict order of text by code point, as the store compares text.
pub open spec fn text_lt(a: Seq<char>, b: Seq<char>) -> bool
    decreases a.len(),
{
    if a.len() == 0 {
        b.len() > 0
    } else if b.len() == 0 {
        false
    } else if a[0] != b[0] {
        (a[0] as u32) < (b[0] as u32)
    } else {
        text_lt(a.drop_first(), b.drop_first())
    }
}

/// The position of a row in a listing.
pub struct Key {
    pub updated_at: Seq<char>,
    pub id: Seq<char>,
}

/// `a` comes before `b` in the composite order on `(updated_at, id)`; listings run
/// from the greatest key down.
pub open spec fn key_lt(a: Key, b: Key) -> bool {
    text_lt(a.updated_at, b.updated_at) || (a.updated_at == b.updated_at && text_lt(a.id, b.id))
}

/// `s` runs strictly downwards: the full-sort order of a listing.
pub open spec fn sorted_desc(s: Seq<Key>) -> bool {
    forall|i: int, j: int| 0 <= i < j < s.len() ==> key_lt(#[trigger] s[j], #[trigger] s[i])
}

/// The rows of `s` that come strictly after the cursor key `k`, in order.
pub open spec fn below(s: Seq<Key>, k: Key) -> Seq<Key>
    decreases s.len(),
{
    if s.len() == 0 {
        s
    } else if key_lt(s.last(), k) {
        below(s.drop_last(), k).push(s.last())
    } else {
        below(s.drop_last(), k)
    }
}

pub open spec fn resume(s: Seq<Key>, c: Option<Key>) -> Seq<Key> {
    match c {
        None => s,
        Some(k) => below(s, k),
    }
}

pub open spec fn take(s: Seq<Key>, limit: nat) -> Seq<Key> {
    if s.len() <= limit { s } else { s.subrange(0, limit as int) }
}

/// The page that a listing in full-sort order `s` returns for `limit` and a cursor.
pub open spec fn page(s: Seq<Key>, limit: nat, c: Option<Key>) -> Seq<Key> {
    take(resume(s, c), limit)
}

/// What a client collects by asking for pages, each time with the key of the last
/// row received, until a page comes back short or `calls` pages were asked for.
pub open spec fn scan(s: Seq<Key>, limit: nat, c: Option<Key>, calls: nat) -> Seq<Key>
    decreases calls,
{
    if calls == 0 {
        Seq::empty()
    } else {
        let p = page(s, limit, c);
        if p.len() < limit || p.len() == 0 {
            p
        } else {
            p + scan(s, limit, Some(p.last()), (calls - 1) as nat)
        }
    }
}

proof fn lemma_text_lt_irreflexive(a: Seq<char>)
    ensures
        !text_lt(a, a),
    decreases a.len(),
{
    if a.len() > 0 {
        lemma_text_lt_irreflexive(a.drop_first());
    }
}

proof fn lemma_text_lt_asymmetric(a: Seq<char>, b: Seq<char>)
    ensures
        !(text_lt(a, b) && text_lt(b, a)),
    decreases a.len(),
{
    if a.len() > 0 && b.len() > 0 && a[0] == b[0] {
        lemma_text_lt_asymmetric(a.drop_first(), b.drop_first());
    }
}

proof fn lemma_key_lt_strict(a: Key, b: Key)
    ensures
        !key_lt(a, a),
        !(key_lt(a, b) && key_lt(b, a)),
{
    lemma_text_lt_irreflexive(a.updated_at);
    lemma_text_lt_irreflexive(a.id);
    lemma_text_lt_asymmetric(a.updated_at, b.updated_at);
    lemma_text_lt_asymmetric(a.id, b.id);
}

proof fn lemma_below_split(s: Seq<Key>, k: Key, j: int)
    requires
        0 <= j <= s.len(),
        forall|i: int| 0 <= i < j ==> !key_lt(#[trigger] s[i], k),
        forall|i: int| j <= i < s.len() ==> key_lt(#[trigger] s[i], k),
    ensures
        below(s, k) == s.subrange(j, s.len() as int),
    decreases s.len(),
{
    if s.len() > 0 {
        let d = s.drop_last();
        if j < s.len() {
            assert forall|i: int| j <= i < d.len() implies key_lt(#[trigger] d[i], k) by {
                assert(d[i] == s[i]);
            }
            lemma_below_split(d, k, j);
            assert(s.subrange(j, s.len() - 1).push(s.last()) =~= s.subrange(j, s.len() as int));
        } else {
            assert forall|i: int| 0 <= i < d.len() implies !key_lt(#[trigger] d[i], k) by {
                assert(d[i] == s[i]);
            }
            lemma_below_split(d, k, d.len() as int);
            assert(s.subrange(j, s.len() as int) =~= Seq::<Key>::empty());
        }
    }
}

/// Resuming after the key of the `j`-th row of a sorted listing leaves exactly the
/// rows after it.
proof fn lemma_resume_after(s: Seq<Key>, j: int)
    requires
        sorted_desc(s),
        0 < j <= s.len(),
    ensures
        resume(s, Some(s[j - 1])) == s.subrange(j, s.len() as int),
{
    let k = s[j - 1];
    assert forall|i: int| 0 <= i < j implies !key_lt(#[trigger] s[i], k) by {
        lemma_key_lt_strict(s[i], k);
    }
    lemma_below_split(s, k, j);
}

proof fn lemma_scan_from(s: Seq<Key>, limit: nat, j: int, calls: nat)
    requires
        sorted_desc(s),
        limit >= 1,
        0 <= j <= s.len(),
        calls * limit > s.len() - j,
    ensures
        scan(s, limit, if j == 0 { None } else { Some(s[j - 1]) }, calls) == s.subrange(j, s.len() as int),
    decreases calls,
{
    let c = if j == 0 { None } else { Some(s[j - 1]) };
    assert(calls >= 1) by (nonlinear_arith)
        requires calls * limit > s.len() - j, s.len() - j >= 0;
    if j == 0 {
        assert(s.subrange(0, s.len() as int) =~= s);
    } else {
        lemma_resume_after(s, j);
    }
    let rest = s.subrange(j, s.len() as int);
    assert(resume(s, c) == rest);
    let p = page(s, limit, c);
    if rest.len() < limit {
        assert(p == rest);
    } else {
        assert(p =~= s.subrange(j, j + limit));
        if rest.len() == limit {
            assert(p == rest);
            if calls > 1 {
                assert(p.last() == s[j + limit - 1]);
                lemma_resume_after(s, j + limit);
                assert(s.subrange(j + limit, s.len() as int) =~= Seq::<Key>::empty());
                assert(page(s, limit, Some(p.last())) =~= Seq::<Key>::empty());
                assert(scan(s, limit, Some(p.last()), (calls - 1) as nat) == Seq::<Key>::empty());
                assert(p + Seq::<Key>::empty() =~= rest);
            } else {
                assert(scan(s, limit, Some(p.last()), 0) == Seq::<Key>::empty());
                assert(p + Seq::<Key>::empty() =~= rest);
            }
            assert(scan(s, limit, c, calls) == p + scan(s, limit, Some(p.last()), (calls - 1) as nat));
        } else {
            assert(calls > 1) by (nonlinear_arith)
                requires calls * limit > s.len() - j, s.len() - j > limit, limit >= 1;
            assert((calls - 1) * limit > s.len() - (j + limit)) by (nonlinear_arith)
                requires calls * limit > s.len() - j;
            assert(p.last() == s[j + limit - 1]);
            lemma_scan_from(s, limit, j + limit, (calls - 1) as nat);
            assert(p + s.subrange(j + limit, s.len() as int) =~= rest);
            assert(scan(s, limit, c, calls) == p + scan(s, limit, Some(p.last()), (calls - 1) as nat));
        }
    }
}

proof fn lemma_below_from(s: Seq<Key>, k: Key)
    ensures
        below(s, k).len() <= s.len(),
        forall|i: int| 0 <= i < below(s, k).len() ==> exists|j: int| 0 <= j < s.len() && #[trigger] below(s, k)[i] == s[j],
    decreases s.len(),
{
    if s.len() > 0 {
        let d = s.drop_last();
        lemma_below_from(d, k);
        assert forall|i: int| 0 <= i < below(s, k).len() implies exists|j: int| 0 <= j < s.len() && #[trigger] below(s, k)[i] == s[j] by {
            if i < below(d, k).len() {
                let j = choose|j: int| 0 <= j < d.len() && below(d, k)[i] == d[j];
                assert(below(s, k)[i] == s[j]);
            } else {
                assert(below(s, k)[i] == s[s.len() - 1]);
            }
        }
    }
}

proof fn lemma_below_sorted(s: Seq<Key>, k: Key)
    requires
        sorted_desc(s),
    ensures
        sorted_desc(below(s, k)),
    decreases s.len(),
{
    if s.len() > 0 {
        let d = s.drop_last();
        assert(sorted_desc(d)) by {
            assert forall|i: int, j: int| 0 <= i < j < d.len() implies key_lt(#[trigger] d[j], #[trigger] d[i]) by {
                assert(d[i] == s[i] && d[j] == s[j]);
            }
        }
        lemma_below_sorted(d, k);
        lemma_below_from(d, k);
        let b = below(s, k);
        let bd = below(d, k);
        if key_lt(s.last(), k) {
            assert forall|i: int, j: int| 0 <= i < j < b.len() implies key_lt(#[trigger] b[j], #[trigger] b[i]) by {
                if j == b.len() - 1 {
                    let m = choose|m: int| 0 <= m < d.len() && bd[i] == d[m];
                    assert(b[i] == s[m]);
                    assert(b[j] == s[s.len() - 1]);
                } else {
                    assert(b[i] == bd[i] && b[j] == bd[j]);
                }
            }
        }
    }
}

/// A page of a listing in full-sort order is itself in that order, strictly
/// descending, with no row twice, and holds at most `limit` rows.
pub proof fn lemma_page_sorted(s: Seq<Key>, limit: nat, c: Option<Key>)
    requires
        sorted_desc(s),
    ensures
        sorted_desc(page(s, limit, c)),
        page(s, limit, c).len() <= limit,
{
    let r = resume(s, c);
    if let Some(k) = c {
        lemma_below_sorted(s, k);
    }
    let p = page(s, limit, c);
    assert forall|i: int, j: int| 0 <= i < j < p.len() implies key_lt(#[trigger] p[j], #[trigger] p[i]) by {
        assert(p[i] == r[i] && p[j] == r[j]);
    }
}

/// Keyset completeness: starting without a cursor and asking each time for the page
/// after the last row received, a client that stops at the first short page collects
/// every row exactly once, in the full-sort order, within `len / limit + 1` requests.
pub proof fn lemma_keyset_scan_complete(s: Seq<Key>, limit: nat)
    requires
        sorted_desc(s),
        limit >= 1,
    ensures
        scan(s, limit, None, s.len() / limit + 1) == s,
{
    let calls = s.len() / limit + 1;
    let n = s.len() as int;
    let q = n / (limit as int);
    let r = n % (limit as int);
    vstd::arithmetic::div_mod::lemma_fundamental_div_mod(n, limit as int);
    assert(calls * limit > n) by (nonlinear_arith)
        requires
            calls == q + 1,
            n == limit * q + r,
            r < limit;
    lemma_scan_from(s, limit, 0, calls);
    assert(s.subrange(0, s.len() as int) =~= s);
}

/// Whether text `a` comes strictly before text `b`, by code point.
pub fn text_less(a: &str, b: &str) -> (r: bool)
    ensures
        r == text_lt(a@, b@),
{
    let x = chars_of(a);
    let y = chars_of(b);
    let mut i: usize = 0;
    assert(x@.subrange(0, x@.len() as int) =~= x@);
    assert(y@.subrange(0, y@.len() as int) =~= y@);
    while i < x.len() && i < y.len()
        invariant
            x@ == a@,
            y@ == b@,
            i <= x@.len(),
            i <= y@.len(),
            text_lt(a@, b@) == text_lt(x@.subrange(i as int, x@.len() as int), y@.subrange(i as int, y@.len() as int)),
        decreases x@.len() - i,
    {
        if x[i] != y[i] {
            return (x[i] as u32) < (y[i] as u32);
        }
        assert(x@.subrange(i as int, x@.len() as int).drop_first() =~= x@.subrange(i + 1, x@.len() as int));
        assert(y@.subrange(i as int, y@.len() as int).drop_first() =~= y@.subrange(i + 1, y@.len() as int));
        i = i + 1;
    }
    i == x.len() && i < y.len()
}

pub open spec fn key_of(updated_at: Seq<char>, id: Seq<char>) -> Key {
    Key { updated_at, id }
}

pub open spec fn cursor_key(c: Cursor) -> Key {
    key_of(c.updated_at@, c.id@)
}

/// Whether the row `(updated_at, id)` comes after `cursor` in a plain listing: its key
/// is strictly less than the cursor's under the composite order.
pub fn comes_after(updated_at: &str, id: &str, cursor: &Cursor) -> (r: bool)
    ensures
        r == key_lt(key_of(updated_at@, id@), cursor_key(*cursor)),
{
    if text_less(updated_at, cursor.updated_at.as_str()) {
        return true;
    }
    if text_less(cursor.updated_at.as_str(), updated_at) {
        proof { lemma_text_lt_asymmetric(updated_at@, cursor.updated_at@); }
        return false;
    }
    proof { lemma_text_trichotomy(updated_at@, cursor.updated_at@); }
    text_less(id, cursor.id.as_str())
}

proof fn lemma_text_trichotomy(a: Seq<char>, b: Seq<char>)
    ensures
        text_lt(a, b) || text_lt(b, a) || a == b,
    decreases a.len(),
{
    if a.len() > 0 && b.len() > 0 && a[0] == b[0] {
        lemma_text_trichotomy(a.drop_first(), b.drop_first());
        if a.drop_first() == b.drop_first() {
            assert(a =~= seq![a[0]] + a.drop_first());
            assert(b =~= seq![b[0]] + b.drop_first());
        }
    } else if a.len() == 0 && b.len() == 0 {
        assert(a =~= b);
    } else if a.len() > 0 && b.len() > 0 {
        vstd::utf8::char_u32_cast(a[0], a[0] as u32);
        vstd::utf8::char_u32_cast(b[0], b[0] as u32);
    }
}

/// Ranked search order: rank ascending (lower is a better match), then the plain
/// listing order. A row comes after the cursor when its rank is worse, or equal with
/// a key strictly less than the cursor's.
pub open spec fn ranked_after(rank: u64, k: Key, c_rank: u64, c: Key) -> bool {
    rank > c_rank || (rank == c_rank && key_lt(k, c))
}

/// Whether the ranked row `(rank, updated_at, id)` comes after a ranked `cursor`.
pub fn ranked_comes_after(rank: u64, updated_at: &str, id: &str, cursor: &Cursor) -> (r: bool)
    requires
        cursor.rank is Some,
    ensures
        r == ranked_after(rank, key_of(updated_at@, id@), cursor.rank->Some_0, cursor_key(*cursor)),
{
    let c_rank = match cursor.rank {
        Some(x) => x,
        None => 0,
    };
    if rank != c_rank {
        return rank > c_rank;
    }
    comes_after(updated_at, id, cursor)
}

/// The keys of rows given as `(updated_at, id)`.
pub open spec fn keys_of(rows: Seq<(String, String)>) -> Seq<Key> {
    rows.map_values(|r: (String, String)| key_of(r.0@, r.1@))
}

pub open spec fn cursor_key_opt(after: Option<Cursor>) -> Option<Key> {
    match after {
        Some(c) => Some(cursor_key(c)),
        None => None,
    }
}

proof fn lemma_take_push(x: Seq<Key>, e: Key, limit: nat)
    ensures
        take(x.push(e), limit) == if x.len() < limit { take(x, limit).push(e) } else { take(x, limit) },
{
    if x.len() >= limit {
        assert(x.push(e).subrange(0, limit as int) =~= x.subrange(0, limit as int));
    }
}

/// The positions, in `rows`, of the page that a listing returns for `limit` and the
/// cursor `after`: the first `limit` rows that come after the cursor.
pub fn select_page(rows: &Vec<(String, String)>, limit: usize, after: &Option<Cursor>) -> (r: Vec<usize>)
    ensures
        r@.len() == page(keys_of(rows@), limit as nat, cursor_key_opt(*after)).len(),
        forall|j: int| 0 <= j < r@.len() ==> r@[j] < rows@.len() && keys_of(rows@)[r@[j] as int]
            == #[trigger] page(keys_of(rows@), limit as nat, cursor_key_opt(*after))[j],
{
    let ghost s = keys_of(rows@);
    let ghost k = cursor_key_opt(*after);
    let mut out: Vec<usize> = Vec::new();
    let mut i: usize = 0;
    let ghost mut cur: Seq<Key> = Seq::empty();
    assert(s.subrange(0, 0) =~= Seq::<Key>::empty());
    while i < rows.len()
        invariant
            s == keys_of(rows@),
            k == cursor_key_opt(*after),
            i <= rows@.len(),
            cur == take(resume(s.subrange(0, i as int), k), limit as nat),
            out@.len() == cur.len(),
            forall|j: int| 0 <= j < out@.len() ==> #[trigger] out@[j] < i,
            forall|j: int| 0 <= j < out@.len() ==> s[#[trigger] out@[j] as int] == cur[j],
        decreases rows@.len() - i,
    {
        let ghost before = resume(s.subrange(0, i as int), k);
        let ghost prefix = s.subrange(0, i + 1);
        assert(prefix.drop_last() =~= s.subrange(0, i as int));
        assert(prefix.last() == s[i as int]);
        let keep = match after {
            None => true,
            Some(c) => comes_after(rows[i].0.as_str(), rows[i].1.as_str(), c),
        };
        let ghost now = resume(prefix, k);
        proof {
            assert(s[i as int] == key_of(rows@[i as int].0@, rows@[i as int].1@));
            if after.is_none() {
                assert(now =~= before.push(s[i as int]));
            }
            assert(now == if keep { before.push(s[i as int]) } else { before });
            lemma_take_push(before, s[i as int], limit as nat);
        }
        let ghost old_out = out@;
        if keep && out.len() < limit {
            out.push(i);
        }
        proof {
            let t1 = take(now, limit as nat);
            assert(cur.len() == if before.len() < limit { before.len() } else { limit as nat });
            if keep && old_out.len() < limit {
                assert(t1 == cur.push(s[i as int]));
            } else {
                assert(t1 == cur);
            }
            assert forall|j: int| 0 <= j < out@.len() implies s[#[trigger] out@[j] as int] == t1[j] by {
                if j < old_out.len() {
                    assert(out@[j] == old_out[j]);
                }
            }
            cur = t1;
        }
        i = i + 1;
        assert(s.subrange(0, i as int) == prefix);
    }
    assert(s.subrange(0, rows@.len() as int) =~= s);
    out
}

} // verus!
