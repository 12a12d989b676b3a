//! Opaque tokens: random generation, and the text form in which they
//! travel in headers.
//!
//! Every identifier of this crate (user ids, session tokens, reset
//! tokens) is a 128-bit value generated as a version-4 UUID. On the
//! wire a token appears in the canonical hyphenated hexadecimal form,
//! which [`format_token`] produces and [`parse_token_at`] reads back.

use vstd::prelude::*;

use crate::errors::AuthError;

verus! {

/// Relies on `uuid::Uuid::new_v4`: a fresh random 128-bit value.
/// Nothing is promised of it; freshness is checked by the callers.
#[verifier::external_body]
pub fn new_token() -> u128 {
    uuid::Uuid::new_v4().as_u128()
}

/// Whether `b` is an ASCII hexadecimal digit.
pub open spec fn is_hex_digit(b: u8) -> bool {
    (48 <= b <= 57) || (97 <= b <= 102) || (65 <= b <= 70)
}

/// The numeric value of an ASCII hexadecimal digit.
pub open spec fn hex_val(b: u8) -> int
    recommends
        is_hex_digit(b),
{
    if 48 <= b <= 57 {
        b - 48
    } else if 97 <= b <= 102 {
        b - 87
    } else {
        b - 55
    }
}

/// Whether `i` is one of the hyphen positions of the canonical token
/// text (8-4-4-4-12 groups).
pub open spec fn hyphen_pos(i: int) -> bool {
    i == 8 || i == 13 || i == 18 || i == 23
}

/// The byte position of the `j`-th hexadecimal digit in the canonical
/// token text.
pub open spec fn digit_pos(j: int) -> int {
    if j < 8 {
        j
    } else if j < 12 {
        j + 1
    } else if j < 16 {
        j + 2
    } else if j < 20 {
        j + 3
    } else {
        j + 4
    }
}

/// Whether the bytes starting at `off` are a canonical hyphenated
/// token text: 32 hexadecimal digits in 8-4-4-4-12 groups.
pub open spec fn is_token_text_at(s: Seq<u8>, off: int) -> bool {
    &&& s.len() == off + 36
    &&& forall|i: int| 0 <= i < 36 && hyphen_pos(i) ==> s[off + i] == 45
    &&& forall|j: int| 0 <= j < 32 ==> is_hex_digit(#[trigger] s[off + digit_pos(j)])
}

/// The value of the first `n` hexadecimal digits (most significant
/// first) of the token text starting at `off`.
pub open spec fn token_val_prefix(s: Seq<u8>, off: int, n: int) -> int
    decreases n,
{
    if n <= 0 {
        0
    } else {
        token_val_prefix(s, off, n - 1) * 16 + hex_val(s[off + digit_pos(n - 1)])
    }
}

/// The value of a canonical token text starting at `off`.
pub open spec fn token_val_at(s: Seq<u8>, off: int) -> int {
    token_val_prefix(s, off, 32)
}

/// 16 to the power `n`.
pub open spec fn pow16(n: int) -> int
    decreases n,
{
    if n <= 0 {
        1
    } else {
        16 * pow16(n - 1)
    }
}

/// The digit prefix of a token text is bounded by the corresponding
/// power of 16.
pub proof fn lemma_token_val_prefix_bound(s: Seq<u8>, off: int, n: int)
    requires
        0 <= n,
        forall|j: int| 0 <= j < n ==> is_hex_digit(#[trigger] s[off + digit_pos(j)]),
    ensures
        0 <= token_val_prefix(s, off, n) < pow16(n),
    decreases n,
{
    if n > 0 {
        lemma_token_val_prefix_bound(s, off, n - 1);
    }
}

/// `pow16` grows with its argument.
pub proof fn lemma_pow16_mono(a: int, b: int)
    requires
        0 <= a <= b,
    ensures
        pow16(a) <= pow16(b),
    decreases b,
{
    if a < b {
        lemma_pow16_mono(a, b - 1);
        lemma_pow16_pos(b - 1);
    }
}

/// `pow16` is positive.
pub proof fn lemma_pow16_pos(n: int)
    ensures
        pow16(n) >= 1,
    decreases n,
{
    if n > 0 {
        lemma_pow16_pos(n - 1);
    }
}

/// `pow16(32)` is the full 128-bit range.
pub proof fn lemma_pow16_32()
    ensures
        pow16(32) == 0x100000000000000000000000000000000,
{
    reveal_with_fuel(pow16, 33);
}

/// Parses the canonical hyphenated token text found at byte offset
/// `off` of `s`; rejects anything else.
pub fn parse_token_at(s: &[u8], off: usize) -> (r: Option<u128>)
    requires
        s@.len() == off + 36,
        s@.len() <= usize::MAX,
    ensures
        r is Some <==> is_token_text_at(s@, off as int),
        r matches Some(v) ==> v as int == token_val_at(s@, off as int),
{
    let mut j: usize = 0;
    let mut acc: u128 = 0;
    while j < 32
        invariant
            j <= 32,
            s@.len() == off + 36,
            s@.len() <= usize::MAX,
            forall|k: int| 0 <= k < j ==> is_hex_digit(#[trigger] s@[off + digit_pos(k)]),
            acc as int == token_val_prefix(s@, off as int, j as int),
            (acc as int) < pow16(j as int),
        decreases 32 - j,
    {
        let pos: usize = if j < 8 {
            off + j
        } else if j < 12 {
            off + j + 1
        } else if j < 16 {
            off + j + 2
        } else if j < 20 {
            off + j + 3
        } else {
            off + j + 4
        };
        proof {
            assert(pos as int == off + digit_pos(j as int));
        }
        let b = s[pos];
        if !((48 <= b && b <= 57) || (97 <= b && b <= 102) || (65 <= b && b <= 70)) {
            proof {
                assert(!is_hex_digit(s@[off + digit_pos(j as int)]));
            }
            return None;
        }
        let d: u128 = if b <= 57 {
            (b - 48) as u128
        } else if b >= 97 {
            (b - 87) as u128
        } else {
            (b - 55) as u128
        };
        proof {
            lemma_pow16_32();
            lemma_pow16_mono(j as int + 1, 32);
            assert((acc as int) * 16 <= (pow16(j as int) - 1) * 16) by (nonlinear_arith)
                requires
                    (acc as int) <= pow16(j as int) - 1,
            ;
            assert((pow16(j as int) - 1) * 16 == 16 * pow16(j as int) - 16);
            assert(16 * pow16(j as int) == pow16(j as int + 1));
        }
        acc = acc * 16 + d;
        j += 1;
    }
    proof {
        assert(hyphen_pos(8) && hyphen_pos(13) && hyphen_pos(18) && hyphen_pos(23));
    }
    if s[off + 8] != 45 || s[off + 13] != 45 || s[off + 18] != 45 || s[off + 23] != 45 {
        return None;
    }
    proof {
        assert forall|i: int| 0 <= i < 36 && hyphen_pos(i) implies s@[off + i] == 45 by {}
        assert(is_token_text_at(s@, off as int));
    }
    Some(acc)
}

/// Formats a token as its canonical lowercase hyphenated text.
pub fn format_token(v: u128) -> (r: Vec<u8>)
    ensures
        is_token_text_at(r@, 0),
        token_val_at(r@, 0) == v as int,
{
    let mut digits: [u8; 32] = [48; 32];
    let mut rest: u128 = v;
    proof {
        lemma_pow16_32();
        assert(token_val_suffix(digits@, 32) == 0);
    }
    let mut k: usize = 0;
    while k < 32
        invariant
            k <= 32,
            rest as int * pow16(k as int) + token_val_suffix(digits@, 32 - k as int) == v as int,
            (rest as int) < pow16(32 - k as int),
            forall|j: int| 32 - k <= j < 32 ==> is_hex_digit(#[trigger] digits@[j]),
        decreases 32 - k,
    {
        let d: u8 = (rest % 16) as u8;
        let b: u8 = if d < 10 {
            48 + d
        } else {
            87 + d
        };
        let ghost old_digits = digits@;
        let ghost old_rest = rest;
        digits[31 - k] = b;
        rest = rest / 16;
        proof {
            lemma_pow16_32();
            assert(forall|j: int|
                32 - k <= j < 32 ==> digits@[j] == old_digits[j]);
            lemma_token_val_suffix_frame(old_digits, digits@, 32 - k as int);
            assert(token_val_suffix(digits@, 32 - (k + 1) as int) == hex_val(b) * pow16(
                k as int,
            ) + token_val_suffix(digits@, 32 - k as int));
            assert(hex_val(b) == old_rest as int % 16);
            assert(old_rest as int == (old_rest as int / 16) * 16 + old_rest as int % 16);
            assert((old_rest as int / 16) * 16 * pow16(k as int) == (old_rest as int / 16)
                * pow16(k + 1 as int)) by (nonlinear_arith);
            assert(old_rest as int % 16 * pow16(k as int) + (old_rest as int / 16) * 16 * pow16(
                k as int,
            ) == old_rest as int * pow16(k as int)) by (nonlinear_arith);
            assert((rest as int) < pow16(32 - (k + 1) as int)) by {
                assert((old_rest as int) < pow16(32 - k as int));
                assert(pow16(32 - k as int) == 16 * pow16(32 - (k + 1) as int));
                assert(rest as int == old_rest as int / 16);
            }
        }
        k += 1;
    }
    let mut out: Vec<u8> = Vec::new();
    let mut i: usize = 0;
    while i < 36
        invariant
            i <= 36,
            out@.len() == i,
            forall|t: int| 0 <= t < i && hyphen_pos(t) ==> out@[t] == 45,
            forall|j: int|
                0 <= j < 32 && digit_pos(j) < i ==> out@[digit_pos(j)] == digits@[j],
            forall|j: int| 0 <= j < 32 ==> is_hex_digit(#[trigger] digits@[j]),
        decreases 36 - i,
    {
        if i == 8 || i == 13 || i == 18 || i == 23 {
            out.push(45);
        } else {
            let j: usize = if i < 8 {
                i
            } else if i < 13 {
                i - 1
            } else if i < 18 {
                i - 2
            } else if i < 23 {
                i - 3
            } else {
                i - 4
            };
            out.push(digits[j]);
        }
        i += 1;
    }
    proof {
        assert forall|jj: int| 0 <= jj < 32 implies is_hex_digit(#[trigger] out@[0 + digit_pos(
            jj,
        )]) by {
            assert(out@[digit_pos(jj)] == digits@[jj]);
        }
        assert forall|ii: int| 0 <= ii < 36 && hyphen_pos(ii) implies out@[0 + ii] == 45 by {
            assert(out@[ii] == 45);
        }
        assert(is_token_text_at(out@, 0));
        lemma_prefix_suffix_agree(out@, digits@);
        assert(token_val_suffix(digits@, 0) == v as int) by {
            assert(pow16(0) == 1);
        }
    }
    out
}

/// The value of the last `32 - m` digits of a 32-digit array, each
/// weighted by its power of 16.
pub open spec fn token_val_suffix(ds: Seq<u8>, m: int) -> int
    decreases 32 - m,
{
    if m >= 32 || m < 0 {
        0
    } else {
        hex_val(ds[m]) * pow16(31 - m) + token_val_suffix(ds, m + 1)
    }
}

/// The suffix value only reads the digits from `m` on.
proof fn lemma_token_val_suffix_frame(a: Seq<u8>, b: Seq<u8>, m: int)
    requires
        a.len() == 32,
        b.len() == 32,
        forall|j: int| m <= j < 32 ==> a[j] == b[j],
    ensures
        token_val_suffix(a, m) == token_val_suffix(b, m),
    decreases 32 - m,
{
    if 0 <= m < 32 {
        lemma_token_val_suffix_frame(a, b, m + 1);
    }
}

/// The forward (prefix) and backward (suffix) readings of a token text
/// agree: the value of all 32 digits is the same number.
proof fn lemma_prefix_suffix_agree(s: Seq<u8>, ds: Seq<u8>)
    requires
        s.len() == 36,
        ds.len() == 32,
        forall|j: int| 0 <= j < 32 ==> s[digit_pos(j)] == ds[j],
    ensures
        token_val_at(s, 0) == token_val_suffix(ds, 0),
{
    lemma_prefix_suffix_step(s, ds, 32);
    assert(token_val_suffix(ds, 32) == 0);
    assert(pow16(0) == 1);
    let p = token_val_prefix(s, 0, 32);
    let q = token_val_suffix(ds, 0);
    assert(p * pow16(0) + token_val_suffix(ds, 32) == q * pow16(0));
    assert(p * 1 == p) by (nonlinear_arith);
    assert(q * 1 == q) by (nonlinear_arith);
}

/// For every split point, the full value is the prefix value weighted
/// by the remaining positions plus the suffix value.
proof fn lemma_prefix_suffix_step(s: Seq<u8>, ds: Seq<u8>, n: int)
    requires
        s.len() == 36,
        ds.len() == 32,
        0 <= n <= 32,
        forall|j: int| 0 <= j < 32 ==> s[digit_pos(j)] == ds[j],
    ensures
        token_val_prefix(s, 0, n) * pow16(32 - n) + token_val_suffix(ds, n) == token_val_suffix(
            ds,
            0,
        ) * pow16(0),
    decreases n,
{
    if n == 0 {
        lemma_suffix_times_one(ds);
    } else {
        lemma_prefix_suffix_step(s, ds, n - 1);
        let p = token_val_prefix(s, 0, n - 1);
        let d = hex_val(s[digit_pos(n - 1)]);
        assert(token_val_suffix(ds, n - 1) == d * pow16(32 - n) + token_val_suffix(ds, n));
        assert((p * 16 + d) * pow16(32 - n) == p * (16 * pow16(32 - n)) + d * pow16(32 - n))
            by (nonlinear_arith);
        assert(16 * pow16(32 - n) == pow16(32 - (n - 1)));
    }
}

/// Multiplying the total by `pow16(0)` changes nothing.
proof fn lemma_suffix_times_one(ds: Seq<u8>)
    requires
        ds.len() == 32,
    ensures
        token_val_suffix(ds, 0) * pow16(0) == token_val_suffix(ds, 0),
{
}

/// The session id carried by an `Authorization` header: the bytes must
/// read `Bearer ` followed by the canonical token text.
pub open spec fn bearer_token(h: Seq<u8>) -> Option<int> {
    if h.len() == 43 && h[0] == 66 && h[1] == 101 && h[2] == 97 && h[3] == 114 && h[4] == 101
        && h[5] == 114 && h[6] == 32 && is_token_text_at(h, 7) {
        Some(token_val_at(h, 7))
    } else {
        None
    }
}

/// Extracts the session id from an `Authorization` header: an absent
/// header is the ordinary "not logged in" case, while a present header
/// that is not `Bearer <token>` is malformed.
pub fn extract_session_id(header: Option<&[u8]>) -> (r: Result<u128, AuthError>)
    ensures
        header is None ==> r == Err::<u128, AuthError>(AuthError::NotLoggedIn),
        header matches Some(h) ==> match r {
            Ok(sid) => bearer_token(h@) == Some(sid as int),
            Err(e) => e is MalformedSessionHeader && bearer_token(h@) is None,
        },
{
    let h = match header {
        Some(h) => h,
        None => {
            return Err(AuthError::NotLoggedIn);
        },
    };
    if h.len() != 43 {
        return Err(AuthError::MalformedSessionHeader);
    }
    if h[0] != 66 || h[1] != 101 || h[2] != 97 || h[3] != 114 || h[4] != 101 || h[5] != 114
        || h[6] != 32 {
        return Err(AuthError::MalformedSessionHeader);
    }
    match parse_token_at(h, 7) {
        Some(v) => Ok(v),
        None => Err(AuthError::MalformedSessionHeader),
    }
}

} // verus!
