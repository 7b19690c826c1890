//! Content identity of an item: a SHA-256 digest, in lowercase hex, over its
//! salient fields, each framed by its length so that different fields never
//! give the same text.

use vstd::prelude::*;
use vstd::string::StringExecFns;
use crate::model::Item;

verus! {

broadcast use vstd::seq_lib::group_seq_properties;

/// What SHA-256 gives for `data`.
pub uninterp spec fn sha256_of(data: Seq<u8>) -> Seq<u8>;

/// Relies on sha2's `Sha256::digest` (the `Digest` trait): the 32-byte SHA-256
/// digest of `data`.
#[verifier::external_body]
fn sha256(data: &[u8]) -> (r: Vec<u8>)
    ensures
        r@ == sha256_of(data@),
        r@.len() == 32,
{
    <sha2::Sha256 as sha2::Digest>::digest(data).to_vec()
}

/// The lowercase hex digit of a value below 16.
pub open spec fn hex_digit(n: int) -> char {
    if n == 0 { '0' } else if n == 1 { '1' } else if n == 2 { '2' } else if n == 3 { '3' }
    else if n == 4 { '4' } else if n == 5 { '5' } else if n == 6 { '6' } else if n == 7 { '7' }
    else if n == 8 { '8' } else if n == 9 { '9' } else if n == 10 { 'a' } else if n == 11 { 'b' }
    else if n == 12 { 'c' } else if n == 13 { 'd' } else if n == 14 { 'e' } else { 'f' }
}

/// Two lowercase hex digits per byte, high half first.
pub open spec fn hex_lower(b: Seq<u8>) -> Seq<char>
    decreases b.len(),
{
    if b.len() == 0 {
        Seq::empty()
    } else {
        seq![hex_digit(b[0] as int / 16), hex_digit(b[0] as int % 16)] + hex_lower(b.drop_first())
    }
}

proof fn lemma_hex_len(b: Seq<u8>)
    ensures
        hex_lower(b).len() == 2 * b.len(),
    decreases b.len(),
{
    if b.len() > 0 {
        lemma_hex_len(b.drop_first());
    }
}

/// Relies on `hex::encode`: two lowercase hex digits per byte, high half
/// first.
#[verifier::external_body]
fn to_hex(b: &[u8]) -> (r: String)
    ensures
        r@ == hex_lower(b@),
{
    hex::encode(b)
}

/// The decimal digits of a natural number, without leading zeros.
pub open spec fn digits_of(n: nat) -> Seq<char>
    decreases n,
{
    if n < 10 {
        seq![hex_digit(n as int)]
    } else {
        digits_of(n / 10).push(hex_digit((n % 10) as int))
    }
}

/// An integer in decimal, with a leading `-` when negative.
pub open spec fn decimal_of(v: int) -> Seq<char> {
    if v < 0 {
        seq!['-'] + digits_of((-v) as nat)
    } else {
        digits_of(v as nat)
    }
}

/// A field framed by its length in characters: the length in decimal, a
/// `:`, then the field.
pub open spec fn frame(f: Seq<char>) -> Seq<char> {
    digits_of(f.len()) + seq![':'] + f
}

/// The text the content identifier is a digest of: remote identifier,
/// author, title, link, publication time in decimal, and summary, each
/// framed.
pub open spec fn key_of(
    id: Seq<char>,
    author: Seq<char>,
    title: Seq<char>,
    link: Seq<char>,
    published: int,
    summary: Seq<char>,
) -> Seq<char> {
    frame(id) + (frame(author) + (frame(title) + (frame(link) + (frame(decimal_of(published))
        + frame(summary)))))
}

/// The content identifier of a key.
pub open spec fn id_of_key(key: Seq<char>) -> Seq<char> {
    hex_lower(sha256_of(vstd::utf8::encode_utf8(key)))
}

/// The key of an item's salient fields.
pub open spec fn content_key(it: Item) -> Seq<char> {
    key_of(it.feed_item_id@, it.author@, it.title@, it.link@, it.published as int, it.summary@)
}

/// The content identifier of an item.
pub open spec fn content_id(it: Item) -> Seq<char> {
    id_of_key(content_key(it))
}

fn digit_str(d: u64) -> (r: &'static str)
    requires
        d < 10,
    ensures
        r@ == seq![hex_digit(d as int)],
{
    proof {
        reveal_strlit("0");
        reveal_strlit("1");
        reveal_strlit("2");
        reveal_strlit("3");
        reveal_strlit("4");
        reveal_strlit("5");
        reveal_strlit("6");
        reveal_strlit("7");
        reveal_strlit("8");
        reveal_strlit("9");
    }
    if d == 0 { "0" } else if d == 1 { "1" } else if d == 2 { "2" } else if d == 3 { "3" }
    else if d == 4 { "4" } else if d == 5 { "5" } else if d == 6 { "6" } else if d == 7 { "7" }
    else if d == 8 { "8" } else { "9" }
}

/// Appends a natural number in decimal.
fn append_digits(s: &mut String, n: u64)
    ensures
        final(s)@ == old(s)@ + digits_of(n as nat),
    decreases n,
{
    if n >= 10 {
        append_digits(s, n / 10);
    }
    s.append(digit_str(n % 10));
    assert(n < 10 ==> n % 10 == n);
}

/// Appends an integer in decimal, with a leading `-` when negative.
fn append_decimal(s: &mut String, v: i64)
    ensures
        final(s)@ == old(s)@ + decimal_of(v as int),
{
    if v < 0 {
        s.append("-");
        proof {
            reveal_strlit("-");
        }
        append_digits(s, (0i128 - v as i128) as u64);
    } else {
        append_digits(s, v as u64);
    }
}

/// Appends a framed field.
fn append_frame(s: &mut String, f: &str)
    ensures
        final(s)@ == old(s)@ + frame(f@),
{
    let n = f.unicode_len();
    append_digits(s, n as u64);
    s.append(":");
    proof {
        reveal_strlit(":");
    }
    s.append(f);
}

/// The content identifier that a digest stands for, in lowercase hex.
pub fn id_from_digest(digest: &[u8]) -> (r: String)
    ensures
        r@ == hex_lower(digest@),
        r@.len() == 2 * digest@.len(),
{
    proof {
        lemma_hex_len(digest@);
    }
    to_hex(digest)
}

impl Item {
    /// Computes the content identifier of this item from its salient fields:
    /// 64 lowercase hex digits.
    pub fn make_id(&self) -> (r: String)
        ensures
            r@ == content_id(*self),
            r@.len() == 64,
    {
        let mut key = String::new();
        append_frame(&mut key, self.feed_item_id.as_str());
        append_frame(&mut key, self.author.as_str());
        append_frame(&mut key, self.title.as_str());
        append_frame(&mut key, self.link.as_str());
        let mut stamp = String::new();
        append_decimal(&mut stamp, self.published);
        append_frame(&mut key, stamp.as_str());
        append_frame(&mut key, self.summary.as_str());
        assert(key@ =~= content_key(*self));
        let digest = sha256(key.as_str().as_bytes());
        id_from_digest(digest.as_slice())
    }
}

proof fn lemma_digits_shape(n: nat)
    ensures
        digits_of(n).len() >= 1,
        n >= 10 ==> digits_of(n).len() >= 2,
        forall|i: int| 0 <= i < digits_of(n).len() ==> #[trigger] digits_of(n)[i] != ':' && digits_of(n)[i] != '-',
    decreases n,
{
    if n >= 10 {
        lemma_digits_shape(n / 10);
        let d = digits_of(n / 10);
        assert forall|i: int| 0 <= i < digits_of(n).len() implies #[trigger] digits_of(n)[i] != ':' && digits_of(n)[i] != '-' by {
            if i < d.len() {
                assert(digits_of(n)[i] == d[i]);
            }
        }
    }
}

proof fn lemma_hex_digit_inj(a: int, b: int)
    requires
        0 <= a < 16,
        0 <= b < 16,
        hex_digit(a) == hex_digit(b),
    ensures
        a == b,
{
}

proof fn lemma_digits_inj(n: nat, m: nat)
    requires
        digits_of(n) == digits_of(m),
    ensures
        n == m,
    decreases n,
{
    lemma_digits_shape(n);
    lemma_digits_shape(m);
    if n >= 10 && m >= 10 {
        assert(digits_of(n) == digits_of(n / 10).push(hex_digit((n % 10) as int)));
        assert(digits_of(m) == digits_of(m / 10).push(hex_digit((m % 10) as int)));
        assert(digits_of(n).last() == hex_digit((n % 10) as int));
        assert(digits_of(m).last() == hex_digit((m % 10) as int));
        assert(digits_of(n).drop_last() == digits_of(n / 10));
        assert(digits_of(m).drop_last() == digits_of(m / 10));
        lemma_hex_digit_inj((n % 10) as int, (m % 10) as int);
        lemma_digits_inj(n / 10, m / 10);
    } else if n < 10 && m < 10 {
        assert(digits_of(n) == seq![hex_digit(n as int)]);
        assert(digits_of(m) == seq![hex_digit(m as int)]);
        assert(seq![hex_digit(n as int)][0] == hex_digit(n as int));
        assert(seq![hex_digit(m as int)][0] == hex_digit(m as int));
        assert(digits_of(n)[0] == digits_of(m)[0]);
        lemma_hex_digit_inj(n as int, m as int);
    }
}

proof fn lemma_decimal_inj(v: int, w: int)
    requires
        decimal_of(v) == decimal_of(w),
    ensures
        v == w,
{
    lemma_digits_shape((if v < 0 { -v } else { v }) as nat);
    lemma_digits_shape((if w < 0 { -w } else { w }) as nat);
    if v < 0 && w < 0 {
        assert(decimal_of(v).drop_first() == digits_of((-v) as nat));
        assert(decimal_of(w).drop_first() == digits_of((-w) as nat));
        lemma_digits_inj((-v) as nat, (-w) as nat);
    } else if v >= 0 && w >= 0 {
        lemma_digits_inj(v as nat, w as nat);
    } else if v < 0 {
        assert(decimal_of(v)[0] == '-');
        assert(decimal_of(w)[0] == digits_of(w as nat)[0]);
    } else {
        assert(decimal_of(w)[0] == '-');
        assert(decimal_of(v)[0] == digits_of(v as nat)[0]);
    }
}

proof fn lemma_frame_split(a: Seq<char>, r1: Seq<char>, b: Seq<char>, r2: Seq<char>)
    requires
        frame(a) + r1 == frame(b) + r2,
    ensures
        a == b,
        r1 == r2,
{
    let x = digits_of(a.len());
    let y = digits_of(b.len());
    let s = frame(a) + r1;
    lemma_digits_shape(a.len());
    lemma_digits_shape(b.len());
    if x.len() < y.len() {
        assert(s[x.len() as int] == ':');
        assert(s[x.len() as int] == y[x.len() as int]);
    } else if y.len() < x.len() {
        assert(s[y.len() as int] == ':');
        assert(s[y.len() as int] == x[y.len() as int]);
    }
    assert(x == s.subrange(0, x.len() as int));
    assert(y == s.subrange(0, y.len() as int));
    lemma_digits_inj(a.len(), b.len());
    let st: int = x.len() as int + 1;
    let en: int = st + a.len();
    assert(a == s.subrange(st, en));
    assert(b == s.subrange(st, en));
    assert(r1 == s.skip(en));
    assert(r2 == s.skip(en));
}

/// Items whose salient fields differ (remote identifier, author, title,
/// link, publication time or summary) have different keys, and so
/// different digest inputs; equal salient fields give equal identifiers.
pub proof fn content_key_distinguishes(a: Item, b: Item)
    ensures
        vstd::utf8::encode_utf8(content_key(a)) == vstd::utf8::encode_utf8(content_key(b)) ==> {
            &&& a.feed_item_id@ == b.feed_item_id@
            &&& a.author@ == b.author@
            &&& a.title@ == b.title@
            &&& a.link@ == b.link@
            &&& a.published == b.published
            &&& a.summary@ == b.summary@
        },
        (a.feed_item_id@ == b.feed_item_id@ && a.author@ == b.author@ && a.title@ == b.title@
            && a.link@ == b.link@ && a.published == b.published && a.summary@ == b.summary@)
            ==> content_id(a) == content_id(b),
{
    if vstd::utf8::encode_utf8(content_key(a)) == vstd::utf8::encode_utf8(content_key(b)) {
        vstd::utf8::encode_utf8_decode_utf8(content_key(a));
        vstd::utf8::encode_utf8_decode_utf8(content_key(b));
        let e = Seq::<char>::empty();
        lemma_frame_split(a.feed_item_id@, frame(a.author@) + (frame(a.title@) + (frame(a.link@) + (
        frame(decimal_of(a.published as int)) + frame(a.summary@)))), b.feed_item_id@, frame(
            b.author@,
        ) + (frame(b.title@) + (frame(b.link@) + (frame(decimal_of(b.published as int)) + frame(
            b.summary@,
        )))));
        lemma_frame_split(a.author@, frame(a.title@) + (frame(a.link@) + (frame(
            decimal_of(a.published as int),
        ) + frame(a.summary@))), b.author@, frame(b.title@) + (frame(b.link@) + (frame(
            decimal_of(b.published as int),
        ) + frame(b.summary@))));
        lemma_frame_split(a.title@, frame(a.link@) + (frame(decimal_of(a.published as int)) + frame(
            a.summary@,
        )), b.title@, frame(b.link@) + (frame(decimal_of(b.published as int)) + frame(b.summary@)));
        lemma_frame_split(a.link@, frame(decimal_of(a.published as int)) + frame(a.summary@), b.link@,
        frame(decimal_of(b.published as int)) + frame(b.summary@));
        lemma_frame_split(decimal_of(a.published as int), frame(a.summary@), decimal_of(
            b.published as int,
        ), frame(b.summary@));
        lemma_decimal_inj(a.published as int, b.published as int);
        assert(frame(a.summary@) + e == frame(a.summary@));
        assert(frame(b.summary@) + e == frame(b.summary@));
        lemma_frame_split(a.summary@, e, b.summary@, e);
    }
}

} // verus!
