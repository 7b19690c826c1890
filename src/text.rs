//! Small text rules: trimming, cutting at a character boundary, and keeping
//! text safe inside an HTML comment.

use vstd::prelude::*;
use vstd::string::StringSliceAdditionalSpecFns;

verus! {

/// What trimming leading and trailing white space leaves of `s`.
pub uninterp spec fn trimmed(s: Seq<char>) -> Seq<char>;

/// Relies on `str::trim`: `s` without leading and trailing white space, so
/// never longer than `s`.
#[verifier::external_body]
pub(crate) fn trim(s: &str) -> (r: &str)
    ensures
        r@ == trimmed(s@),
        r@.len() <= s@.len(),
{
    s.trim()
}

/// The value of a nonempty run of decimal digits.
pub open spec fn decimal_run(s: Seq<char>) -> Option<int>
    decreases s.len(),
{
    if s.len() == 0 {
        None
    } else {
        let d = s.last();
        let rest = if s.len() == 1 {
            Some(0int)
        } else {
            decimal_run(s.drop_last())
        };
        match rest {
            Some(v) => if '0' <= d <= '9' {
                Some(v * 10 + (d as int - '0' as int))
            } else {
                None
            },
            None => None,
        }
    }
}

/// A decimal number with an optional sign, when it fits an `i64`.
pub open spec fn decimal_i64(s: Seq<char>) -> Option<i64> {
    let neg = s.len() > 0 && s[0] == '-';
    let digits = if s.len() > 0 && (s[0] == '-' || s[0] == '+') {
        s.drop_first()
    } else {
        s
    };
    match decimal_run(digits) {
        Some(v) => {
            let w = if neg {
                -v
            } else {
                v
            };
            if i64::MIN <= w <= i64::MAX {
                Some(w as i64)
            } else {
                None
            }
        },
        None => None,
    }
}

/// A decimal number with an optional `+`, when it fits a `u32`.
pub open spec fn decimal_u32(s: Seq<char>) -> Option<u32> {
    let digits = if s.len() > 0 && s[0] == '+' {
        s.drop_first()
    } else {
        s
    };
    match decimal_run(digits) {
        Some(v) => if v <= u32::MAX {
            Some(v as u32)
        } else {
            None
        },
        None => None,
    }
}

/// Relies on `str::parse::<i64>`: an optional sign, then one or more ASCII
/// digits, whose value fits.
#[verifier::external_body]
pub(crate) fn parse_i64(s: &str) -> (r: Option<i64>)
    ensures
        r == decimal_i64(s@),
{
    s.parse::<i64>().ok()
}

/// Relies on `str::parse::<u32>`: an optional `+`, then one or more ASCII
/// digits, whose value fits.
#[verifier::external_body]
pub(crate) fn parse_u32(s: &str) -> (r: Option<u32>)
    ensures
        r == decimal_u32(s@),
{
    s.parse::<u32>().ok()
}

/// Whether `s` is empty or only white space.
pub fn is_blank(s: &str) -> (r: bool)
    ensures
        r == (trimmed(s@).len() == 0),
{
    trim(s).is_empty()
}

/// The largest character boundary of `s` at or below byte index `i`, or the
/// length of `s` when `i` is past its end.
pub fn floor_char_boundary(s: &str, i: usize) -> (r: usize)
    ensures
        i >= s.len() ==> r == s.len(),
        i < s.len() ==> r <= i && vstd::utf8::is_char_boundary(s.spec_bytes(), r as int)
            && forall|j: int| r < j <= i ==> !vstd::utf8::is_char_boundary(s.spec_bytes(), j),
{
    proof {
        vstd::utf8::encode_utf8_valid_utf8(s@);
        vstd::utf8::is_char_boundary_start_end_of_seq(s.spec_bytes());
    }
    let len = s.len();
    let mut k = i;
    if i >= len {
        k = len;
    } else {
        while k > 0 && !s.is_char_boundary(k)
            invariant
                k <= i < s.spec_bytes().len(),
                vstd::utf8::valid_utf8(s.spec_bytes()),
                vstd::utf8::is_char_boundary(s.spec_bytes(), 0),
                forall|j: int| k < j <= i ==> !vstd::utf8::is_char_boundary(s.spec_bytes(), j),
            decreases k,
        {
            k = k - 1;
        }
    }
    k
}

/// `s` with every `-->` replaced by `_->`, scanning left to right.
pub open spec fn comment_safe(s: Seq<char>) -> Seq<char>
    decreases s.len(),
{
    if s.len() < 3 {
        s
    } else if s[0] == '-' && s[1] == '-' && s[2] == '>' {
        seq!['_', '-', '>'] + comment_safe(s.skip(3))
    } else {
        seq![s[0]] + comment_safe(s.skip(1))
    }
}

/// Relies on `str::replace` with pattern `-->` and replacement `_->`: the
/// matches are found left to right without overlap and each is replaced.
#[verifier::external_body]
fn replace_comment_end(s: &str) -> (r: String)
    ensures
        r@ == comment_safe(s@),
{
    s.replace("-->", "_->")
}

/// Makes text safe to place inside an HTML comment.
pub fn escape_comment(s: &str) -> (r: String)
    ensures
        r@ == comment_safe(s@),
{
    replace_comment_end(s)
}

} // verus!
