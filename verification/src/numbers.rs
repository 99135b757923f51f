//! Decimal numerals as they appear on the wire: formatting of integers
//! into decimal text and parsing of decimal text back into integers,
//! together with the round-trip laws the codecs rely on.
use crate::McpiError;
use vstd::prelude::*;
use vstd::string::StrSliceExecFns;
use vstd::string::StringExecFns;

verus! {

/// A decimal digit character, `'0'` through `'9'`.
pub open spec fn is_dec_digit(c: char) -> bool {
    '0' as u32 <= c as u32 && c as u32 <= '9' as u32
}

/// The numeric value of a decimal digit character.
pub open spec fn digit_val(c: char) -> int {
    c as u32 - '0' as u32
}

/// The character for a single decimal digit value.
pub open spec fn digit_char(d: int) -> char {
    if d == 0 {
        '0'
    } else if d == 1 {
        '1'
    } else if d == 2 {
        '2'
    } else if d == 3 {
        '3'
    } else if d == 4 {
        '4'
    } else if d == 5 {
        '5'
    } else if d == 6 {
        '6'
    } else if d == 7 {
        '7'
    } else if d == 8 {
        '8'
    } else {
        '9'
    }
}

/// Every character of `s` is a decimal digit.
pub open spec fn all_dec_digits(s: Seq<char>) -> bool {
    forall|i: int| 0 <= i < s.len() ==> is_dec_digit(#[trigger] s[i])
}

/// The decimal numeral of `n`, most significant digit first, without sign
/// and without leading zeros (except for `n == 0`, which is `"0"`).
pub open spec fn dec_rep(n: nat) -> Seq<char>
    decreases n,
{
    if n < 10 {
        seq![digit_char(n as int)]
    } else {
        dec_rep(n / 10) + seq![digit_char((n % 10) as int)]
    }
}

/// The value of a string of decimal digits, read most significant first.
pub open spec fn dec_val(s: Seq<char>) -> int
    decreases s.len(),
{
    if s.len() == 0 {
        0
    } else {
        dec_val(s.drop_last()) * 10 + digit_val(s.last())
    }
}

/// `s` is a numeral accepted as a `u32`: one or more decimal digits whose
/// value fits.
pub open spec fn is_u32_numeral(s: Seq<char>) -> bool {
    s.len() >= 1 && all_dec_digits(s) && dec_val(s) <= u32::MAX
}

/// `s` is a numeral accepted as an `i32`: an optional leading `'-'`, then
/// one or more decimal digits, with the signed value in range.
pub open spec fn is_i32_numeral(s: Seq<char>) -> bool {
    if s.len() >= 1 && s[0] == '-' {
        s.len() >= 2 && all_dec_digits(s.skip(1)) && -dec_val(s.skip(1)) >= i32::MIN
    } else {
        s.len() >= 1 && all_dec_digits(s) && dec_val(s) <= i32::MAX
    }
}

/// The signed value of an `i32` numeral.
pub open spec fn i32_numeral_val(s: Seq<char>) -> int {
    if s.len() >= 1 && s[0] == '-' {
        -dec_val(s.skip(1))
    } else {
        dec_val(s)
    }
}

/// The decimal text of a signed value: a `'-'` for negative values, then
/// the numeral of the magnitude.
pub open spec fn signed_dec_rep(v: int) -> Seq<char> {
    if v >= 0 {
        dec_rep(v as nat)
    } else {
        seq!['-'] + dec_rep((-v) as nat)
    }
}

/// The value of a digit string is never negative.
pub proof fn lemma_dec_val_nonneg(s: Seq<char>)
    requires
        all_dec_digits(s),
    ensures
        dec_val(s) >= 0,
    decreases s.len(),
{
    if s.len() > 0 {
        assert(all_dec_digits(s.drop_last()));
        lemma_dec_val_nonneg(s.drop_last());
    }
}

/// Dropping trailing digits from a digit string never increases its value.
pub proof fn lemma_dec_val_prefix_le(s: Seq<char>, i: int)
    requires
        all_dec_digits(s),
        0 <= i <= s.len(),
    ensures
        dec_val(s.take(i)) <= dec_val(s),
    decreases s.len() - i,
{
    if i < s.len() {
        assert(s.take(i + 1).drop_last() =~= s.take(i));
        assert(all_dec_digits(s.take(i)));
        lemma_dec_val_nonneg(s.take(i));
        assert(dec_val(s.take(i + 1)) == dec_val(s.take(i)) * 10 + digit_val(s.take(i + 1).last()));
        lemma_dec_val_prefix_le(s, i + 1);
    } else {
        assert(s.take(i) =~= s);
    }
}

/// The numeral of `n` is a nonempty digit string whose value is `n` again.
pub proof fn lemma_dec_rep_val(n: nat)
    ensures
        dec_rep(n).len() >= 1,
        all_dec_digits(dec_rep(n)),
        dec_val(dec_rep(n)) == n,
    decreases n,
{
    if n < 10 {
        assert(dec_val(dec_rep(n)) == dec_val(seq![digit_char(n as int)].drop_last()) * 10
            + digit_val(digit_char(n as int)));
    } else {
        lemma_dec_rep_val(n / 10);
        let s = dec_rep(n / 10) + seq![digit_char((n % 10) as int)];
        assert(s.drop_last() =~= dec_rep(n / 10));
        assert(dec_val(s) == dec_val(dec_rep(n / 10)) * 10 + digit_val(digit_char((n % 10) as int)));
        assert(forall|i: int|
            0 <= i < s.len() ==> is_dec_digit(#[trigger] s[i]) == if i < dec_rep(n / 10).len() {
                is_dec_digit(dec_rep(n / 10)[i])
            } else {
                is_dec_digit(digit_char((n % 10) as int))
            });
    }
}

/// Round trip for signed numerals: formatting an `i32` yields a numeral
/// that parses back to the same value.
pub proof fn lemma_i32_numeral_round_trip(v: i32)
    ensures
        is_i32_numeral(signed_dec_rep(v as int)),
        i32_numeral_val(signed_dec_rep(v as int)) == v,
{
    if v >= 0 {
        lemma_dec_rep_val(v as nat);
        let s = dec_rep(v as nat);
        assert(is_dec_digit(s[0]));
        assert(s[0] != '-');
    } else {
        let m = (-(v as int)) as nat;
        lemma_dec_rep_val(m);
        let s = seq!['-'] + dec_rep(m);
        assert(s[0] == '-');
        assert(s.skip(1) =~= dec_rep(m));
    }
}

/// The one-character string for a single decimal digit value.
fn digit_str(d: u32) -> (r: &'static str)
    requires
        d < 10,
    ensures
        r@ =~= seq![digit_char(d as int)],
{
    let r: &'static str = match d {
        0u32 => "0",
        1u32 => "1",
        2u32 => "2",
        3u32 => "3",
        4u32 => "4",
        5u32 => "5",
        6u32 => "6",
        7u32 => "7",
        8u32 => "8",
        _ => "9",
    };
    proof {
        reveal_strlit("0");
        reveal_strlit("1");
        reveal_strlit("2");
        reveal_strlit("3");
        reveal_strlit("4");
        reveal_strlit("5");
        reveal_strlit("6");
        reveal_strlit("7");
        reveal_strlit("8");
        reveal_strlit("9");
    }
    r
}

/// Formats `n` as its decimal numeral.
pub fn u32_to_string(n: u32) -> (r: String)
    ensures
        r@ == dec_rep(n as nat),
    decreases n,
{
    if n < 10 {
        let mut s = String::new();
        s.append(digit_str(n));
        proof {
            assert(s@ =~= dec_rep(n as nat));
        }
        s
    } else {
        let mut s = u32_to_string(n / 10);
        s.append(digit_str(n % 10));
        proof {
            assert(s@ =~= dec_rep(n as nat));
        }
        s
    }
}

/// Formats `n` as its signed decimal numeral.
pub fn i32_to_string(n: i32) -> (r: String)
    ensures
        r@ == signed_dec_rep(n as int),
{
    if n >= 0 {
        u32_to_string(n as u32)
    } else {
        let m: u32 = (-(n as i64)) as u32;
        let mut s = String::from_str("-");
        let rest = u32_to_string(m);
        s.append(rest.as_str());
        proof {
            reveal_strlit("-");
            assert(s@ =~= signed_dec_rep(n as int));
        }
        s
    }
}

/// Parses a nonempty string of decimal digits as a `u32`.  Any other
/// shape, and any value over `u32::MAX`, is an unexpected-shape error.
pub fn parse_u32(s: &str) -> (r: Result<u32, McpiError>)
    ensures
        r is Ok <==> is_u32_numeral(s@),
        r matches Ok(n) ==> n == dec_val(s@),
        r matches Err(e) ==> e == McpiError::UnexpectedShape,
{
    let n = s.unicode_len();
    if n == 0 {
        return Err(McpiError::UnexpectedShape);
    }
    let mut acc: u64 = 0;
    let mut i: usize = 0;
    while i < n
        invariant
            0 <= i <= n,
            n == s@.len(),
            all_dec_digits(s@.take(i as int)),
            acc == dec_val(s@.take(i as int)),
            acc <= u32::MAX,
        decreases n - i,
    {
        let u = s.get_char(i) as u32;
        if u < 48 || u > 57 {
            assert(!is_dec_digit(s@[i as int]));
            return Err(McpiError::UnexpectedShape);
        }
        acc = acc * 10 + ((u - 48) as u64);
        proof {
            assert(s@.take(i as int + 1).drop_last() =~= s@.take(i as int));
            assert(s@.take(i as int + 1).last() == s@[i as int]);
        }
        if acc > 0xffff_ffff {
            proof {
                if all_dec_digits(s@) {
                    lemma_dec_val_prefix_le(s@, i as int + 1);
                }
            }
            return Err(McpiError::UnexpectedShape);
        }
        i = i + 1;
    }
    proof {
        assert(s@.take(n as int) =~= s@);
    }
    Ok(acc as u32)
}

/// Parses an optionally `'-'`-signed string of decimal digits as an
/// `i32`.  Any other shape, and any value out of range, is an
/// unexpected-shape error.
pub fn parse_i32(s: &str) -> (r: Result<i32, McpiError>)
    ensures
        r is Ok <==> is_i32_numeral(s@),
        r matches Ok(v) ==> v == i32_numeral_val(s@),
        r matches Err(e) ==> e == McpiError::UnexpectedShape,
{
    let n = s.unicode_len();
    if n >= 1 && s.get_char(0) == '-' {
        let rest = s.substring_char(1, n);
        proof {
            assert(rest@ =~= s@.skip(1));
        }
        match parse_u32(rest) {
            Ok(m) => {
                if m <= 0x8000_0000 {
                    Ok((-(m as i64)) as i32)
                } else {
                    Err(McpiError::UnexpectedShape)
                }
            },
            Err(e) => Err(e),
        }
    } else {
        match parse_u32(s) {
            Ok(m) => {
                if m <= 0x7fff_ffff {
                    Ok(m as i32)
                } else {
                    Err(McpiError::UnexpectedShape)
                }
            },
            Err(e) => Err(e),
        }
    }
}

} // verus!
