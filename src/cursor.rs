//! The pagination cursor and its opaque, URL-safe text form.
//!
//! A cursor is framed as a small canonical JSON object,
//! `{"updated_at":"…","id":"…","rank":N}` (or `"rank":null}`), whose bytes are then
//! written in URL-safe base64 without padding.

use vstd::prelude::*;
use vstd::utf8::*;
use base64::Engine as _;

verus! {

/// The key of the last row of a page: where the next page resumes.
///
/// `rank` is present for ranked search only. It is an order-preserving integer key of
/// the relevance score (lower is a better match).
#[derive(Debug, Clone)]
pub struct Cursor {
    pub updated_at: String,
    pub id: String,
    pub rank: Option<u64>,
}

pub struct CursorView {
    pub updated_at: Seq<char>,
    pub id: Seq<char>,
    pub rank: Option<u64>,
}

impl View for Cursor {
    type V = CursorView;

    open spec fn view(&self) -> CursorView {
        CursorView { updated_at: self.updated_at@, id: self.id@, rank: self.rank }
    }
}

/// Why a cursor string was rejected.
#[derive(Debug, Clone, Copy, PartialEq, Eq, Structural)]
pub enum CursorError {
    InvalidCursor,
}

// ---------------------------------------------------------------- framing

pub open spec fn quote() -> u8 { 34u8 }

pub open spec fn backslash() -> u8 { 92u8 }

/// `{"updated_at":"`
pub open spec fn head_bytes() -> Seq<u8> {
    seq![123u8, 34, 117, 112, 100, 97, 116, 101, 100, 95, 97, 116, 34, 58, 34]
}

/// `,"id":"`
pub open spec fn id_bytes() -> Seq<u8> {
    seq![44u8, 34, 105, 100, 34, 58, 34]
}

/// `,"rank":`
pub open spec fn rank_bytes() -> Seq<u8> {
    seq![44u8, 34, 114, 97, 110, 107, 34, 58]
}

/// `null}`
pub open spec fn null_end_bytes() -> Seq<u8> {
    seq![110u8, 117, 108, 108, 125]
}

pub open spec fn hex_lower(d: nat) -> u8 {
    if d < 10 { (48 + d) as u8 } else { (87 + d) as u8 }
}

pub open spec fn is_hex_lower(b: u8) -> bool {
    (48 <= b <= 57) || (97 <= b <= 102)
}

pub open spec fn hex_value(b: u8) -> nat {
    if b <= 57 { (b - 48) as nat } else { (b - 87) as nat }
}

/// How one byte of a string is written inside a JSON string literal.
pub open spec fn escape_byte(b: u8) -> Seq<u8> {
    if b == quote() {
        seq![92u8, 34u8]
    } else if b == backslash() {
        seq![92u8, 92u8]
    } else if b < 32 {
        seq![92u8, 117u8, 48u8, 48u8, hex_lower((b / 16) as nat), hex_lower((b % 16) as nat)]
    } else {
        seq![b]
    }
}

pub open spec fn escape(s: Seq<u8>) -> Seq<u8>
    decreases s.len(),
{
    if s.len() == 0 {
        Seq::empty()
    } else {
        escape_byte(s[0]) + escape(s.drop_first())
    }
}

pub open spec fn prepend(b: Seq<u8>, r: Option<(Seq<u8>, nat)>, k: nat) -> Option<(Seq<u8>, nat)> {
    match r {
        Some((c, n)) => Some((b + c, n + k)),
        None => None,
    }
}

/// Reads the body of a JSON string literal whose opening quote is already consumed:
/// the bytes it stands for, and how many bytes it takes up to and including the
/// closing quote.
pub open spec fn unescape(t: Seq<u8>) -> Option<(Seq<u8>, nat)>
    decreases t.len(),
{
    if t.len() == 0 {
        None
    } else if t[0] == quote() {
        Some((Seq::empty(), 1))
    } else if t[0] == backslash() {
        if t.len() >= 2 && (t[1] == quote() || t[1] == backslash()) {
            prepend(seq![t[1]], unescape(t.subrange(2, t.len() as int)), 2)
        } else if t.len() >= 6 && t[1] == 117 && t[2] == 48 && t[3] == 48 && is_hex_lower(t[4])
            && is_hex_lower(t[5]) {
            prepend(
                seq![(hex_value(t[4]) * 16 + hex_value(t[5])) as u8],
                unescape(t.subrange(6, t.len() as int)),
                6,
            )
        } else {
            None
        }
    } else if t[0] < 32 {
        None
    } else {
        prepend(seq![t[0]], unescape(t.subrange(1, t.len() as int)), 1)
    }
}

/// Decimal digits of `n`, without leading zeros.
pub open spec fn decimal(n: nat) -> Seq<u8>
    decreases n,
{
    if n < 10 {
        seq![(48 + n) as u8]
    } else {
        decimal(n / 10) + seq![(48 + n % 10) as u8]
    }
}

pub open spec fn is_digit(b: u8) -> bool {
    48 <= b <= 57
}

pub open spec fn all_digits(s: Seq<u8>) -> bool {
    forall|i: int| 0 <= i < s.len() ==> is_digit(#[trigger] s[i])
}

pub open spec fn digits_value(s: Seq<u8>) -> nat
    decreases s.len(),
{
    if s.len() == 0 {
        0
    } else {
        digits_value(s.drop_last()) * 10 + (s.last() - 48) as nat
    }
}

pub open spec fn rank_text(r: Option<u64>) -> Seq<u8> {
    match r {
        None => null_end_bytes(),
        Some(n) => decimal(n as nat) + seq![125u8],
    }
}

/// Reads what follows `"rank":` up to the end: `null}` or decimal digits and `}`.
pub open spec fn parse_rank(t: Seq<u8>) -> Option<Option<u64>> {
    if t == null_end_bytes() {
        Some(None)
    } else if t.len() >= 2 && t.last() == 125 && all_digits(t.drop_last()) && digits_value(
        t.drop_last(),
    ) <= u64::MAX {
        Some(Some(digits_value(t.drop_last()) as u64))
    } else {
        None
    }
}

pub open spec fn starts_with(t: Seq<u8>, p: Seq<u8>) -> bool {
    t.len() >= p.len() && t.subrange(0, p.len() as int) == p
}

pub open spec fn after(t: Seq<u8>, k: int) -> Seq<u8> {
    t.subrange(k, t.len() as int)
}

/// The bytes that frame a cursor.
pub open spec fn cursor_json(c: CursorView) -> Seq<u8> {
    head_bytes() + escape(encode_utf8(c.updated_at)) + seq![34u8] + id_bytes() + escape(
        encode_utf8(c.id),
    ) + seq![34u8] + rank_bytes() + rank_text(c.rank)
}

pub open spec fn parse_tail(t4: Seq<u8>, ub: Seq<u8>, ib: Seq<u8>) -> Option<CursorView> {
    if !starts_with(t4, rank_bytes()) {
        None
    } else {
        match parse_rank(after(t4, rank_bytes().len() as int)) {
            None => None,
            Some(rank) => if valid_utf8(ub) && valid_utf8(ib) {
                Some(CursorView { updated_at: decode_utf8(ub), id: decode_utf8(ib), rank })
            } else {
                None
            },
        }
    }
}

pub open spec fn parse_after_updated(t2: Seq<u8>, ub: Seq<u8>) -> Option<CursorView> {
    if !starts_with(t2, id_bytes()) {
        None
    } else {
        let t3 = after(t2, id_bytes().len() as int);
        match unescape(t3) {
            None => None,
            Some((ib, k2)) => parse_tail(after(t3, k2 as int), ub, ib),
        }
    }
}

/// The cursor that the bytes frame, if they frame one.
pub open spec fn parse_cursor_json(b: Seq<u8>) -> Option<CursorView> {
    if !starts_with(b, head_bytes()) {
        None
    } else {
        let t1 = after(b, head_bytes().len() as int);
        match unescape(t1) {
            None => None,
            Some((ub, k1)) => parse_after_updated(after(t1, k1 as int), ub),
        }
    }
}

// ---------------------------------------------------------------- lemmas

proof fn lemma_escape_append(a: Seq<u8>, b: Seq<u8>)
    ensures
        escape(a + b) == escape(a) + escape(b),
    decreases a.len(),
{
    if a.len() == 0 {
        assert(a + b =~= b);
    } else {
        assert((a + b).drop_first() =~= a.drop_first() + b);
        lemma_escape_append(a.drop_first(), b);
    }
}

proof fn lemma_hex_round(d: nat)
    requires
        d < 16,
    ensures
        is_hex_lower(hex_lower(d)),
        hex_value(hex_lower(d)) == d,
{
}

/// A string literal written by `escape` and closed by a quote reads back as itself.
proof fn lemma_unescape_escape(s: Seq<u8>, rest: Seq<u8>)
    ensures
        unescape(escape(s) + (seq![34u8] + rest)) == Some((s, escape(s).len() + 1)),
    decreases s.len(),
{
    let t = escape(s) + (seq![34u8] + rest);
    if s.len() == 0 {
        assert(t =~= seq![34u8] + rest);
    } else {
        let b = s[0];
        let e = escape_byte(b);
        let tp = escape(s.drop_first()) + (seq![34u8] + rest);
        lemma_unescape_escape(s.drop_first(), rest);
        assert(t =~= e + tp);
        assert(seq![b] + s.drop_first() =~= s);
        if b == 34 || b == 92 {
            assert(t.subrange(2, t.len() as int) =~= tp);
        } else if b < 32 {
            lemma_hex_round((b / 16) as nat);
            lemma_hex_round((b % 16) as nat);
            assert(t.subrange(6, t.len() as int) =~= tp);
            assert(((b / 16) as nat * 16 + (b % 16) as nat) as u8 == b);
        } else {
            assert(t.subrange(1, t.len() as int) =~= tp);
        }
    }
}

proof fn lemma_decimal(n: nat)
    ensures
        decimal(n).len() >= 1,
        all_digits(decimal(n)),
        digits_value(decimal(n)) == n,
    decreases n,
{
    let d = decimal(n);
    if n >= 10 {
        lemma_decimal(n / 10);
        assert(d.drop_last() =~= decimal(n / 10));
        vstd::arithmetic::div_mod::lemma_fundamental_div_mod(n as int, 10);
        assert(d.last() == (48 + n % 10) as u8);
        assert(digits_value(d) == digits_value(decimal(n / 10)) * 10 + n % 10);
        assert(digits_value(d) == (n / 10) * 10 + n % 10);
        assert(digits_value(d) == n);
        assert(all_digits(d)) by {
            assert forall|i: int| 0 <= i < d.len() implies is_digit(#[trigger] d[i]) by {
                if i < d.len() - 1 {
                    assert(d[i] == decimal(n / 10)[i]);
                }
            }
        }
    } else {
        assert(d.drop_last() =~= Seq::<u8>::empty());
        assert(digits_value(d.drop_last()) == 0);
        assert(d.last() == (48 + n) as u8);
        assert(digits_value(d) == n);
    }
}

proof fn lemma_parse_rank(r: Option<u64>)
    ensures
        parse_rank(rank_text(r)) == Some(r),
{
    if let Some(n) = r {
        lemma_decimal(n as nat);
        let t = rank_text(r);
        assert(t.drop_last() =~= decimal(n as nat));
        assert(t != null_end_bytes()) by {
            assert(is_digit(t[0]));
        }
    }
}

proof fn lemma_parse_tail(c: CursorView)
    ensures
        parse_tail(rank_bytes() + rank_text(c.rank), encode_utf8(c.updated_at), encode_utf8(c.id))
            == Some(c),
{
    broadcast use vstd::utf8::group_utf8_lib;

    let tail = rank_bytes() + rank_text(c.rank);
    assert(starts_with(tail, rank_bytes())) by {
        assert(tail.subrange(0, rank_bytes().len() as int) =~= rank_bytes());
    }
    assert(after(tail, rank_bytes().len() as int) =~= rank_text(c.rank));
    lemma_parse_rank(c.rank);
}

proof fn lemma_parse_after_updated(c: CursorView)
    ensures
        parse_after_updated(
            id_bytes() + escape(encode_utf8(c.id)) + seq![34u8] + (rank_bytes() + rank_text(c.rank)),
            encode_utf8(c.updated_at),
        ) == Some(c),
{
    let ib = encode_utf8(c.id);
    let i = escape(ib);
    let tail = rank_bytes() + rank_text(c.rank);
    let t2 = id_bytes() + i + seq![34u8] + tail;
    assert(starts_with(t2, id_bytes())) by {
        assert(t2.subrange(0, id_bytes().len() as int) =~= id_bytes());
    }
    let t3 = after(t2, id_bytes().len() as int);
    assert(t3 =~= i + (seq![34u8] + tail));
    lemma_unescape_escape(ib, tail);
    assert(after(t3, i.len() + 1 as int) =~= tail);
    lemma_parse_tail(c);
}

/// Framing a cursor and reading the frame back gives the same cursor.
pub proof fn lemma_cursor_json_round_trip(c: CursorView)
    ensures
        parse_cursor_json(cursor_json(c)) == Some(c),
{
    let ub = encode_utf8(c.updated_at);
    let u = escape(ub);
    let t2 = id_bytes() + escape(encode_utf8(c.id)) + seq![34u8] + (rank_bytes() + rank_text(c.rank));
    let b = cursor_json(c);
    assert(b =~= head_bytes() + (u + (seq![34u8] + t2)));
    assert(starts_with(b, head_bytes())) by {
        assert(b.subrange(0, head_bytes().len() as int) =~= head_bytes());
    }
    let t1 = after(b, head_bytes().len() as int);
    assert(t1 =~= u + (seq![34u8] + t2));
    lemma_unescape_escape(ub, t2);
    assert(after(t1, u.len() + 1 as int) =~= t2);
    lemma_parse_after_updated(c);
}

proof fn lemma_unescape_prefix(t: Seq<u8>, n: int)
    requires
        unescape(t) is Some,
        0 <= n <= t.len(),
    ensures
        n < unescape(t)->Some_0.1 ==> unescape(t.subrange(0, n)) is None,
        n >= unescape(t)->Some_0.1 ==> unescape(t.subrange(0, n)) == unescape(t),
    decreases t.len(),
{
    let u = t.subrange(0, n);
    if n > 0 {
        assert(u[0] == t[0]);
        if t[0] == backslash() {
            if t.len() >= 2 && (t[1] == quote() || t[1] == backslash()) {
                if n >= 2 {
                    assert(u[1] == t[1]);
                    let rest = t.subrange(2, t.len() as int);
                    assert(u.subrange(2, n) =~= rest.subrange(0, n - 2));
                    lemma_unescape_prefix(rest, n - 2);
                }
            } else {
                if n >= 6 {
                    assert(u[1] == t[1] && u[2] == t[2] && u[3] == t[3] && u[4] == t[4] && u[5] == t[5]);
                    let rest = t.subrange(6, t.len() as int);
                    assert(u.subrange(6, n) =~= rest.subrange(0, n - 6));
                    lemma_unescape_prefix(rest, n - 6);
                } else if n >= 2 {
                    assert(u[1] == t[1]);
                }
            }
        } else if t[0] != quote() {
            let rest = t.subrange(1, t.len() as int);
            assert(u.subrange(1, n) =~= rest.subrange(0, n - 1));
            lemma_unescape_prefix(rest, n - 1);
        }
    }
}

proof fn lemma_starts_with_prefix(t: Seq<u8>, p: Seq<u8>, n: int)
    requires
        starts_with(t, p),
        p.len() <= n <= t.len(),
    ensures
        starts_with(t.subrange(0, n), p),
{
    assert(t.subrange(0, n).subrange(0, p.len() as int) =~= t.subrange(0, p.len() as int));
}

proof fn lemma_parse_rank_prefix(t: Seq<u8>, m: int)
    requires
        parse_rank(t) is Some,
        0 <= m < t.len(),
    ensures
        parse_rank(t.subrange(0, m)) is None,
{
    let u = t.subrange(0, m);
    if t == null_end_bytes() {
        if m >= 2 {
            assert(u.last() == t[m - 1]);
        }
    } else {
        if m >= 1 {
            assert(u[0] == t.drop_last()[0]);
            assert(is_digit(u[0]));
            assert(u != null_end_bytes());
        }
        if m >= 2 {
            assert(u.last() == t.drop_last()[m - 1]);
        }
    }
}

/// Frames are prefix-free: no strict prefix of bytes that frame a cursor frames one.
pub proof fn lemma_frame_prefix_free(b: Seq<u8>, n: int)
    requires
        parse_cursor_json(b) is Some,
        0 <= n < b.len(),
    ensures
        parse_cursor_json(b.subrange(0, n)) is None,
{
    let u = b.subrange(0, n);
    let h = head_bytes().len() as int;
    if n >= h {
        lemma_starts_with_prefix(b, head_bytes(), n);
        let t1 = after(b, h);
        let t1u = after(u, h);
        assert(t1u =~= t1.subrange(0, n - h));
        lemma_unescape_prefix(t1, n - h);
        let (ub, k1) = unescape(t1)->Some_0;
        if n - h >= k1 {
            let t2 = after(t1, k1 as int);
            let t2u = after(t1u, k1 as int);
            let m2 = n - h - k1;
            assert(t2u =~= t2.subrange(0, m2));
            let i = id_bytes().len() as int;
            if m2 >= i {
                lemma_starts_with_prefix(t2, id_bytes(), m2);
                let t3 = after(t2, i);
                let t3u = after(t2u, i);
                assert(t3u =~= t3.subrange(0, m2 - i));
                lemma_unescape_prefix(t3, m2 - i);
                let (ib, k2) = unescape(t3)->Some_0;
                if m2 - i >= k2 {
                    let t4 = after(t3, k2 as int);
                    let t4u = after(t3u, k2 as int);
                    let m4 = m2 - i - k2;
                    assert(t4u =~= t4.subrange(0, m4));
                    let q = rank_bytes().len() as int;
                    if m4 >= q {
                        lemma_starts_with_prefix(t4, rank_bytes(), m4);
                        let t5 = after(t4, q);
                        assert(after(t4u, q) =~= t5.subrange(0, m4 - q));
                        lemma_parse_rank_prefix(t5, m4 - q);
                    }
                }
            }
        }
    }
}

/// A truncated cursor frame is rejected: decoding the text of any strict prefix of
/// a cursor's frame gives `InvalidCursor`.
pub proof fn lemma_truncated_frame_rejected(c: CursorView, n: int, r: Result<Cursor, CursorError>)
    requires
        0 <= n < cursor_json(c).len(),
        decodes_to(base64_of(cursor_json(c).subrange(0, n)), r),
    ensures
        r == Err::<Cursor, CursorError>(CursorError::InvalidCursor),
{
    lemma_cursor_json_round_trip(c);
    lemma_frame_prefix_free(cursor_json(c), n);
    let b = cursor_json(c).subrange(0, n);
    assert(base64_of(b) == base64_of(b));
}

// ---------------------------------------------------------------- writing

fn head_vec() -> (r: Vec<u8>)
    ensures
        r@ == head_bytes(),
{
    vec![123u8, 34, 117, 112, 100, 97, 116, 101, 100, 95, 97, 116, 34, 58, 34]
}

fn id_vec() -> (r: Vec<u8>)
    ensures
        r@ == id_bytes(),
{
    vec![44u8, 34, 105, 100, 34, 58, 34]
}

fn rank_vec() -> (r: Vec<u8>)
    ensures
        r@ == rank_bytes(),
{
    vec![44u8, 34, 114, 97, 110, 107, 34, 58]
}

fn null_end_vec() -> (r: Vec<u8>)
    ensures
        r@ == null_end_bytes(),
{
    vec![110u8, 117, 108, 108, 125]
}

fn hex_lower_exec(d: u8) -> (r: u8)
    requires
        d < 16,
    ensures
        r == hex_lower(d as nat),
{
    if d < 10 { 48 + d } else { 87 + d }
}

fn escape_into(out: &mut Vec<u8>, src: &[u8])
    ensures
        final(out)@ == old(out)@ + escape(src@),
{
    let mut i: usize = 0;
    while i < src.len()
        invariant
            i <= src@.len(),
            out@ == old(out)@ + escape(src@.subrange(0, i as int)),
        decreases src@.len() - i,
    {
        let b = src[i];
        proof {
            lemma_escape_append(src@.subrange(0, i as int), seq![b]);
            assert(src@.subrange(0, i + 1) =~= src@.subrange(0, i as int) + seq![b]);
            assert(seq![b].drop_first() =~= Seq::<u8>::empty());
            assert(escape(seq![b].drop_first()) == Seq::<u8>::empty());
            assert(escape(seq![b]) =~= escape_byte(b));
        }
        let ghost before = out@;
        if b == 34 {
            out.push(92);
            out.push(34);
        } else if b == 92 {
            out.push(92);
            out.push(92);
        } else if b < 32 {
            out.push(92);
            out.push(117);
            out.push(48);
            out.push(48);
            out.push(hex_lower_exec(b / 16));
            out.push(hex_lower_exec(b % 16));
        } else {
            out.push(b);
        }
        assert(out@ =~= before + escape_byte(b));
        i = i + 1;
    }
    assert(src@.subrange(0, src@.len() as int) =~= src@);
}

fn extend_slice(out: &mut Vec<u8>, src: &[u8])
    ensures
        final(out)@ == old(out)@ + src@,
{
    let mut i: usize = 0;
    while i < src.len()
        invariant
            i <= src@.len(),
            out@ == old(out)@ + src@.subrange(0, i as int),
        decreases src@.len() - i,
    {
        out.push(src[i]);
        assert(out@ =~= old(out)@ + src@.subrange(0, i + 1));
        i = i + 1;
    }
    assert(src@.subrange(0, src@.len() as int) =~= src@);
}

fn push_decimal(out: &mut Vec<u8>, n: u64)
    ensures
        final(out)@ == old(out)@ + decimal(n as nat),
{
    let mut digits: Vec<u8> = Vec::new();
    let mut q: u64 = n;
    while q >= 10
        invariant
            decimal(n as nat) == decimal(q as nat) + digits@,
        decreases q,
    {
        let d: u8 = (q % 10) as u8;
        proof {
            assert(decimal(q as nat) == decimal((q / 10) as nat) + seq![(48 + q % 10) as u8]);
        }
        digits.insert(0, 48 + d);
        assert(decimal(n as nat) =~= decimal((q / 10) as nat) + digits@);
        q = q / 10;
    }
    digits.insert(0, 48 + q as u8);
    assert(decimal(n as nat) =~= digits@);
    out.append(&mut digits);
}

/// The bytes that frame `c`.
pub fn cursor_bytes(c: &Cursor) -> (r: Vec<u8>)
    ensures
        r@ == cursor_json(c@),
{
    let mut out = head_vec();
    escape_into(&mut out, c.updated_at.as_str().as_bytes());
    out.push(34);
    let mut idv = id_vec();
    out.append(&mut idv);
    escape_into(&mut out, c.id.as_str().as_bytes());
    out.push(34);
    let mut rk = rank_vec();
    out.append(&mut rk);
    match c.rank {
        None => {
            let mut ne = null_end_vec();
            out.append(&mut ne);
        },
        Some(n) => {
            push_decimal(&mut out, n);
            out.push(125);
        },
    }
    assert(out@ =~= cursor_json(c@));
    out
}

// ---------------------------------------------------------------- reading

proof fn lemma_prepend_prepend(out: Seq<u8>, x: Seq<u8>, r: Option<(Seq<u8>, nat)>, k: nat, d: nat)
    ensures
        prepend(out, prepend(x, r, k), d) == prepend(out + x, r, k + d),
{
    if let Some((c, n)) = r {
        assert(out + (x + c) =~= (out + x) + c);
    }
}

fn matches_at(b: &Vec<u8>, pos: usize, lit: &Vec<u8>) -> (r: bool)
    requires
        pos <= b@.len(),
    ensures
        r == starts_with(after(b@, pos as int), lit@),
{
    let n: usize = b.len();
    if n - pos < lit.len() {
        return false;
    }
    let mut i: usize = 0;
    while i < lit.len()
        invariant
            n == b@.len(),
            pos <= n,
            n - pos >= lit@.len(),
            i <= lit@.len(),
            forall|j: int| 0 <= j < i ==> b@[pos + j] == #[trigger] lit@[j],
        decreases lit@.len() - i,
    {
        if b[pos + i] != lit[i] {
            assert(after(b@, pos as int).subrange(0, lit@.len() as int)[i as int] != lit@[i as int]);
            return false;
        }
        i = i + 1;
    }
    assert(after(b@, pos as int).subrange(0, lit@.len() as int) =~= lit@);
    true
}

fn is_hex_lower_exec(b: u8) -> (r: bool)
    ensures
        r == is_hex_lower(b),
{
    (48 <= b && b <= 57) || (97 <= b && b <= 102)
}

fn hex_value_exec(b: u8) -> (r: u8)
    requires
        is_hex_lower(b),
    ensures
        r == hex_value(b),
        r < 16,
{
    if b <= 57 { b - 48 } else { b - 87 }
}

fn unescape_at(b: &Vec<u8>, pos: usize) -> (r: Option<(Vec<u8>, usize)>)
    requires
        pos <= b@.len(),
    ensures
        match unescape(after(b@, pos as int)) {
            None => r is None,
            Some((c, k)) => r matches Some((v, j)) && v@ == c && j == pos + k && j <= b@.len(),
        },
{
    let n: usize = b.len();
    let mut i: usize = pos;
    let mut out: Vec<u8> = Vec::new();
    proof {
        if let Some((c, k)) = unescape(after(b@, pos as int)) {
            assert(Seq::<u8>::empty() + c =~= c);
        }
    }
    while i < n
        invariant
            n == b@.len(),
            pos <= i <= n,
            unescape(after(b@, pos as int)) == prepend(out@, unescape(after(b@, i as int)), (i - pos) as nat),
        decreases n - i,
    {
        let c = b[i];
        let ghost t = after(b@, i as int);
        assert(t[0] == c);
        if c == 34 {
            assert(out@ + Seq::<u8>::empty() =~= out@);
            return Some((out, i + 1));
        } else if c == 92 {
            if i + 1 < n && (b[i + 1] == 34 || b[i + 1] == 92) {
                let x = b[i + 1];
                proof {
                    assert(t[1] == x);
                    assert(t.subrange(2, t.len() as int) =~= after(b@, i + 2));
                    lemma_prepend_prepend(out@, seq![x], unescape(after(b@, i + 2)), 2, (i - pos) as nat);
                }
                out.push(x);
                i = i + 2;
            } else if n - i > 5 && b[i + 1] == 117 && b[i + 2] == 48 && b[i + 3] == 48
                && is_hex_lower_exec(b[i + 4]) && is_hex_lower_exec(b[i + 5]) {
                let x: u8 = hex_value_exec(b[i + 4]) * 16 + hex_value_exec(b[i + 5]);
                proof {
                    assert(t[1] == 117 && t[2] == 48 && t[3] == 48 && t[4] == b@[i + 4] && t[5] == b@[i + 5]);
                    assert(t.subrange(6, t.len() as int) =~= after(b@, i + 6));
                    lemma_prepend_prepend(out@, seq![x], unescape(after(b@, i + 6)), 6, (i - pos) as nat);
                }
                out.push(x);
                i = i + 6;
            } else {
                proof {
                    if t.len() >= 2 {
                        assert(t[1] == b@[i + 1]);
                    }
                    if t.len() >= 6 {
                        assert(t[1] == b@[i + 1] && t[2] == b@[i + 2] && t[3] == b@[i + 3]);
                        assert(t[4] == b@[i + 4] && t[5] == b@[i + 5]);
                    }
                }
                return None;
            }
        } else if c < 32 {
            return None;
        } else {
            proof {
                assert(t.subrange(1, t.len() as int) =~= after(b@, i + 1));
                lemma_prepend_prepend(out@, seq![c], unescape(after(b@, i + 1)), 1, (i - pos) as nat);
            }
            out.push(c);
            i = i + 1;
        }
    }
    assert(after(b@, i as int).len() == 0);
    None
}

proof fn lemma_digits_prefix(s: Seq<u8>, i: int)
    requires
        0 <= i <= s.len(),
    ensures
        digits_value(s.subrange(0, i)) <= digits_value(s),
    decreases s.len(),
{
    if i < s.len() {
        lemma_digits_prefix(s.drop_last(), i);
        assert(s.drop_last().subrange(0, i) =~= s.subrange(0, i));
    } else {
        assert(s.subrange(0, i) =~= s);
    }
}

fn parse_rank_at(b: &Vec<u8>, pos: usize) -> (r: Option<Option<u64>>)
    requires
        pos <= b@.len(),
    ensures
        r == parse_rank(after(b@, pos as int)),
{
    let n: usize = b.len();
    let ghost t = after(b@, pos as int);
    let ne = null_end_vec();
    if n - pos == 5 && matches_at(b, pos, &ne) {
        assert(t =~= t.subrange(0, 5));
        return Some(None);
    }
    assert(t != null_end_bytes()) by {
        if t == null_end_bytes() {
            assert(t.subrange(0, 5) =~= t);
        }
    }
    if n - pos < 2 || b[n - 1] != 125 {
        return None;
    }
    assert(t.len() >= 2 && t.last() == 125);
    let ghost body = t.drop_last();
    assert(body =~= b@.subrange(pos as int, n - 1));
    let mut v: u64 = 0;
    let mut i: usize = pos;
    assert(b@.subrange(pos as int, pos as int) =~= Seq::<u8>::empty());
    while i < n - 1
        invariant
            n == b@.len(),
            pos <= i <= n - 1,
            body == b@.subrange(pos as int, n - 1),
            t == after(b@, pos as int),
            body == t.drop_last(),
            t.len() >= 2,
            t.last() == 125,
            t != null_end_bytes(),
            all_digits(b@.subrange(pos as int, i as int)),
            v == digits_value(b@.subrange(pos as int, i as int)),
        decreases n - i,
    {
        let c = b[i];
        if c < 48 || c > 57 {
            assert(body[i - pos] == c);
            assert(!all_digits(body));
            return None;
        }
        let d: u64 = (c - 48) as u64;
        let ghost next = b@.subrange(pos as int, i + 1);
        assert(next.drop_last() =~= b@.subrange(pos as int, i as int));
        assert(digits_value(next) == v * 10 + d);
        if v > (u64::MAX - d) / 10 {
            proof {
                assert(v * 10 + d > u64::MAX) by (nonlinear_arith)
                    requires
                        v > (u64::MAX - d) / 10,
                        d <= 9,
                ;
                if all_digits(body) {
                    lemma_digits_prefix(body, i + 1 - pos);
                    assert(body.subrange(0, i + 1 - pos) =~= next);
                    assert(digits_value(body) > u64::MAX);
                }
            }
            return None;
        }
        assert(v * 10 + d <= u64::MAX) by (nonlinear_arith)
            requires
                v <= (u64::MAX - d) / 10,
                d <= 9,
        ;
        v = v * 10 + d;
        assert(all_digits(next)) by {
            assert forall|j: int| 0 <= j < next.len() implies is_digit(#[trigger] next[j]) by {
                if j < next.len() - 1 {
                    assert(next[j] == b@.subrange(pos as int, i as int)[j]);
                }
            }
        }
        i = i + 1;
    }
    Some(Some(v))
}

/// Relies on `String::from_utf8`: it succeeds exactly on valid UTF-8, and then holds
/// the characters that the bytes encode.
#[verifier::external_body]
fn utf8_string(v: Vec<u8>) -> (r: Option<String>)
    ensures
        r is Some <==> valid_utf8(v@),
        r matches Some(s) ==> s@ == decode_utf8(v@),
{
    String::from_utf8(v).ok()
}

fn read_tail(b: &Vec<u8>, pos: usize, ub: Vec<u8>, ib: Vec<u8>) -> (r: Option<Cursor>)
    requires
        pos <= b@.len(),
    ensures
        match parse_tail(after(b@, pos as int), ub@, ib@) {
            None => r is None,
            Some(c) => r matches Some(x) && x@ == c,
        },
{
    let rk = rank_vec();
    if !matches_at(b, pos, &rk) {
        return None;
    }
    assert(after(b@, pos as int).len() == b@.len() - pos);
    assert(starts_with(after(b@, pos as int), rk@));
    assert(rk@.len() <= b@.len() - pos);
    let n: usize = b.len();
    let rank_start: usize = pos + rk.len();
    assert(after(after(b@, pos as int), rk@.len() as int) =~= after(b@, rank_start as int));
    let rank = match parse_rank_at(b, rank_start) {
        None => return None,
        Some(x) => x,
    };
    let updated_at = match utf8_string(ub) {
        None => return None,
        Some(x) => x,
    };
    let id = match utf8_string(ib) {
        None => return None,
        Some(x) => x,
    };
    Some(Cursor { updated_at, id, rank })
}

fn read_after_updated(b: &Vec<u8>, pos: usize, ub: Vec<u8>) -> (r: Option<Cursor>)
    requires
        pos <= b@.len(),
    ensures
        match parse_after_updated(after(b@, pos as int), ub@) {
            None => r is None,
            Some(c) => r matches Some(x) && x@ == c,
        },
{
    let idv = id_vec();
    if !matches_at(b, pos, &idv) {
        return None;
    }
    assert(after(b@, pos as int).len() == b@.len() - pos);
    assert(starts_with(after(b@, pos as int), idv@));
    assert(idv@.len() <= b@.len() - pos);
    let n: usize = b.len();
    let id_start: usize = pos + idv.len();
    assert(after(after(b@, pos as int), idv@.len() as int) =~= after(b@, id_start as int));
    let (ib, j2) = match unescape_at(b, id_start) {
        None => return None,
        Some(x) => x,
    };
    assert(after(after(b@, id_start as int), j2 - id_start) =~= after(b@, j2 as int));
    read_tail(b, j2, ub, ib)
}

/// The cursor that `b` frames, if it frames one.
pub fn cursor_from_bytes(b: &Vec<u8>) -> (r: Option<Cursor>)
    ensures
        match parse_cursor_json(b@) {
            None => r is None,
            Some(c) => r matches Some(x) && x@ == c,
        },
{
    let head = head_vec();
    assert(after(b@, 0) =~= b@);
    if !matches_at(b, 0, &head) {
        return None;
    }
    let body_start: usize = head.len();
    let (ub, j1) = match unescape_at(b, body_start) {
        None => return None,
        Some(x) => x,
    };
    assert(after(after(b@, body_start as int), j1 - body_start) =~= after(b@, j1 as int));
    read_after_updated(b, j1, ub)
}

// ---------------------------------------------------------------- text form

/// The URL-safe base64 text of some bytes, without padding, as the base64 crate
/// writes it.
pub uninterp spec fn base64_of(b: Seq<u8>) -> Seq<char>;

/// A character of the URL-safe base64 alphabet: letters, digits, `-` and `_`.
pub open spec fn is_url_safe_char(c: char) -> bool {
    ('A' <= c <= 'Z') || ('a' <= c <= 'z') || ('0' <= c <= '9') || c == '-' || c == '_'
}

/// Relies on base64's `general_purpose::URL_SAFE_NO_PAD.encode`: the base64 text of the
/// bytes in the URL-safe alphabet, with no padding; it is empty only for no bytes.
#[verifier::external_body]
fn base64_encode(b: &[u8]) -> (r: String)
    ensures
        r@ == base64_of(b@),
        forall|i: int| 0 <= i < r@.len() ==> is_url_safe_char(#[trigger] r@[i]),
        b@.len() > 0 ==> r@.len() > 0,
{
    base64::engine::general_purpose::URL_SAFE_NO_PAD.encode(b)
}

/// Relies on base64's `general_purpose::URL_SAFE_NO_PAD.decode`: its configuration
/// refuses padding and non-zero trailing bits, so it succeeds exactly on the text that
/// `encode` writes, and returns the bytes that were encoded.
#[verifier::external_body]
fn base64_decode(s: &str) -> (r: Option<Vec<u8>>)
    ensures
        forall|b: Seq<u8>| #[trigger] base64_of(b) == s@ ==> r is Some && r.unwrap()@ == b,
        r is Some ==> base64_of(r.unwrap()@) == s@,
{
    base64::engine::general_purpose::URL_SAFE_NO_PAD.decode(s).ok()
}

/// The text form of a cursor.
pub open spec fn cursor_text(c: CursorView) -> Seq<char> {
    base64_of(cursor_json(c))
}

/// What decoding the text `s` may return: the cursor framed by the bytes that `s`
/// encodes, or `InvalidCursor` when `s` encodes no bytes or bytes that frame no cursor.
pub open spec fn decodes_to(s: Seq<char>, r: Result<Cursor, CursorError>) -> bool {
    match r {
        Ok(c) => (exists|b: Seq<u8>| #[trigger] base64_of(b) == s) && forall|b: Seq<u8>|
            #[trigger] base64_of(b) == s ==> parse_cursor_json(b) == Some(c@),
        Err(e) => e == CursorError::InvalidCursor && forall|b: Seq<u8>|
            #[trigger] base64_of(b) == s ==> parse_cursor_json(b) is None,
    }
}

/// The opaque text of `cursor`: its frame, in URL-safe base64. It is never empty and
/// can stand in a URL query parameter as it is.
pub fn encode_cursor(cursor: &Cursor) -> (r: String)
    ensures
        r@ == cursor_text(cursor@),
        r@.len() > 0,
        forall|i: int| 0 <= i < r@.len() ==> is_url_safe_char(#[trigger] r@[i]),
{
    let b = cursor_bytes(cursor);
    assert(b@.len() > 0) by {
        assert(b@[0] == head_bytes()[0]);
    }
    base64_encode(b.as_slice())
}

/// Reads back a cursor from its opaque text.
pub fn decode_cursor(cursor: &str) -> (r: Result<Cursor, CursorError>)
    ensures
        decodes_to(cursor@, r),
{
    let bytes = match base64_decode(cursor) {
        None => return Err(CursorError::InvalidCursor),
        Some(b) => b,
    };
    let r = cursor_from_bytes(&bytes);
    match r {
        None => Err(CursorError::InvalidCursor),
        Some(c) => Ok(c),
    }
}

/// Decoding the text of any cursor gives that cursor back.
pub proof fn lemma_cursor_round_trip(c: CursorView, r: Result<Cursor, CursorError>)
    requires
        decodes_to(cursor_text(c), r),
    ensures
        r matches Ok(d) && d@ == c,
{
    lemma_cursor_json_round_trip(c);
    assert(base64_of(cursor_json(c)) == cursor_text(c));
}

} // verus!
